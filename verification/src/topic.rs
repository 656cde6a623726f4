//! The Transfer event topic.
//!
//! A provider filters logs by their first topic, the Keccak-256 digest
//! of the event signature.  The digest itself is computed by an outside
//! crate; everything built on it speaks of the digest by name.

use vstd::prelude::*;

verus! {

/// The signature of the tracked event.
pub const TRANSFER_EVENT_SIG: &'static str = "Transfer(address,address,uint256)";

/// The Keccak-256 digest of a string's UTF-8 bytes.  What the digest is
/// on given bytes only the outside implementation says; it depends on
/// the input alone.
pub uninterp spec fn keccak256_of_str(s: Seq<char>) -> Seq<u8>;

/// Relies on `ethers_core::utils::keccak256` (re-exported by the `ethers`
/// crate as `ethers::utils::keccak256`): the Keccak-256 digest of the
/// string's UTF-8 bytes, 32 bytes long, a function of the input alone.
#[verifier::external_body]
fn keccak256_str(s: &str) -> (r: Vec<u8>)
    ensures
        r@ == keccak256_of_str(s@),
        r@.len() == 32,
{
    ethers_core::utils::keccak256(s.as_bytes()).to_vec()
}

/// The topic the tracked contract's Transfer logs carry first: the
/// digest of the Transfer signature.
pub open spec fn spec_transfer_topic() -> Seq<u8> {
    keccak256_of_str(TRANSFER_EVENT_SIG@)
}

/// Compute the Transfer event topic, to filter log queries and
/// subscriptions by.
pub fn transfer_event_topic() -> (r: Vec<u8>)
    ensures
        r@ == spec_transfer_topic(),
        r@.len() == 32,
{
    keccak256_str(TRANSFER_EVENT_SIG)
}

/// Whether a raw topic word equals the Transfer event topic.  The
/// digest is opaque, so the comparison is the only way a caller can
/// test a topic against it.
pub fn is_transfer_topic(topic: &Vec<u8>) -> (r: bool)
    ensures
        r == (topic@ == spec_transfer_topic()),
{
    let expected = transfer_event_topic();
    if topic.len() != expected.len() {
        proof {
            assert(topic@ != expected@);
        }
        return false;
    }
    let n = topic.len();
    let mut i: usize = 0;
    while i < n
        invariant
            i <= n,
            expected@ == spec_transfer_topic(),
            n == topic@.len() == expected@.len(),
            forall|k: int| 0 <= k < i ==> topic@[k] == expected@[k],
        decreases n - i,
    {
        if topic[i] != expected[i] {
            proof {
                assert(topic@[i as int] != expected@[i as int]);
            }
            return false;
        }
        i = i + 1;
    }
    proof {
        assert(topic@ =~= expected@);
    }
    true
}

} // verus!
