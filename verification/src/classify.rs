//! Classification of RPC failures.
//!
//! The provider reports failures as error messages.  The classifier maps a
//! message to one of a closed set of kinds by searching the message's
//! UTF-8 bytes for the provider's known phrases, exactly as the retry
//! policy expects them.

use vstd::prelude::*;
use vstd::string::StringSliceAdditionalSpecFns;

verus! {

/// The closed set of failure kinds the retry policy distinguishes.
#[derive(Clone, Copy, Debug, PartialEq, Eq, Structural)]
pub enum RpcErrorKind {
    RateLimited,
    TooManyLogs,
    Temporary,
    Fatal,
}

/// `needle` occurs in `hay` starting at position `i`.
pub open spec fn occurs_at(hay: Seq<u8>, needle: Seq<u8>, i: int) -> bool {
    0 <= i && i + needle.len() <= hay.len() && hay.subrange(i, i + needle.len()) == needle
}

/// `needle` occurs somewhere in `hay`.
pub open spec fn occurs_in(hay: Seq<u8>, needle: Seq<u8>) -> bool {
    exists|i: int| occurs_at(hay, needle, i)
}

/// How a raw error message is classified, phrased over its UTF-8 bytes.
pub open spec fn spec_classify(msg: Seq<u8>) -> RpcErrorKind {
    if occurs_in(msg, "Too Many Requests".spec_bytes()) {
        RpcErrorKind::RateLimited
    } else if occurs_in(msg, "query returned more than 10000 results".spec_bytes()) {
        RpcErrorKind::TooManyLogs
    } else if occurs_in(msg, "timeout".spec_bytes()) || occurs_in(
        msg,
        "Temporary failure".spec_bytes(),
    ) {
        RpcErrorKind::Temporary
    } else {
        RpcErrorKind::Fatal
    }
}

/// Substring search: does `needle` occur anywhere in `hay`?
fn contains_bytes(hay: &[u8], needle: &[u8]) -> (r: bool)
    ensures
        r == occurs_in(hay@, needle@),
{
    let n = needle.len();
    let h = hay.len();
    if n > h {
        return false;
    }
    if n == 0 {
        proof {
            assert(hay@.subrange(0, 0) =~= needle@);
            assert(occurs_at(hay@, needle@, 0));
        }
        return true;
    }
    let mut i: usize = 0;
    while i <= h - n
        invariant
            n <= h,
            h == hay@.len(),
            n == needle@.len(),
            i <= h - n + 1,
            1 <= n,
            forall|k: int| 0 <= k < i ==> !occurs_at(hay@, needle@, k),
        decreases h - n + 1 - i,
    {
        let mut j: usize = 0;
        let mut mismatch = false;
        while j < n
            invariant
                n <= h,
                h == hay@.len(),
                n == needle@.len(),
                i <= h - n,
                j <= n,
                !mismatch ==> forall|l: int| 0 <= l < j ==> hay@[i + l] == needle@[l],
                mismatch ==> !occurs_at(hay@, needle@, i as int),
            decreases n - j,
        {
            if hay[i + j] != needle[j] {
                proof {
                    assert(hay@.subrange(i as int, i + n).len() == n);
                    assert(hay@.subrange(i as int, i + n)[j as int] == hay@[i + j]);
                }
                mismatch = true;
                j = n;
            } else {
                j = j + 1;
            }
        }
        if !mismatch {
            proof {
                assert(hay@.subrange(i as int, i + n) =~= needle@);
                assert(occurs_at(hay@, needle@, i as int));
            }
            return true;
        }
        i = i + 1;
    }
    assert(forall|k: int| occurs_at(hay@, needle@, k) ==> 0 <= k <= h - n);
    false
}

/// Map a provider error message to a failure kind by the phrases the
/// provider is known to use.
pub fn classify_rpc_error(msg: &str) -> (r: RpcErrorKind)
    ensures
        r == spec_classify(msg.spec_bytes()),
{
    let hay = msg.as_bytes();
    if contains_bytes(hay, "Too Many Requests".as_bytes()) {
        RpcErrorKind::RateLimited
    } else if contains_bytes(hay, "query returned more than 10000 results".as_bytes()) {
        RpcErrorKind::TooManyLogs
    } else if contains_bytes(hay, "timeout".as_bytes()) || contains_bytes(
        hay,
        "Temporary failure".as_bytes(),
    ) {
        RpcErrorKind::Temporary
    } else {
        RpcErrorKind::Fatal
    }
}

} // verus!
