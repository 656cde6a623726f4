//! Lower-case, `0x`-prefixed hex encoding of byte strings.
//!
//! Transaction hashes and addresses are stored in this canonical textual
//! form.

use vstd::prelude::*;

verus! {

pub const HEX_LOWER: [char; 16] = [
    '0',
    '1',
    '2',
    '3',
    '4',
    '5',
    '6',
    '7',
    '8',
    '9',
    'a',
    'b',
    'c',
    'd',
    'e',
    'f',
];

/// The two lower-case hex digits of one byte.
pub open spec fn spec_hex_byte(b: u8) -> Seq<char> {
    seq![HEX_LOWER@[(b >> 4) as int], HEX_LOWER@[(b & 0x0f) as int]]
}

/// Hex digits of a byte string, without the prefix.
pub open spec fn spec_hex_body(data: Seq<u8>) -> Seq<char>
    decreases data.len(),
{
    if data.len() == 0 {
        Seq::<char>::empty()
    } else {
        spec_hex_body(data.drop_last()) + spec_hex_byte(data.last())
    }
}

/// The canonical textual form of a byte string: `0x` followed by two
/// lower-case hex digits per byte.
pub open spec fn spec_hex_0x(data: Seq<u8>) -> Seq<char> {
    seq!['0', 'x'] + spec_hex_body(data)
}

/// Relies on `String::push`: appends exactly the given character.
#[verifier::external_body]
pub(crate) fn string_push(s: &mut String, c: char)
    ensures
        final(s)@ == old(s)@.push(c),
{
    s.push(c);
}

/// Encode a byte string as `0x` plus two lower-case hex digits per byte.
pub fn hex_0x(data: &[u8]) -> (r: String)
    ensures
        r@ == spec_hex_0x(data@),
        r@.len() == 2 + 2 * data@.len(),
{
    let mut s = String::new();
    string_push(&mut s, '0');
    string_push(&mut s, 'x');
    assert(s@ =~= seq!['0', 'x']);
    let data_len = data.len();
    assert(data@.take(0) =~= Seq::<u8>::empty());
    for i in 0..data_len
        invariant
            data_len == data@.len(),
            s@ =~= seq!['0', 'x'] + spec_hex_body(data@.take(i as int)),
            s@.len() == 2 + 2 * i,
    {
        let b = data[i];
        assert((b >> 4) < 16 && (b & 0x0f) < 16) by (bit_vector);
        string_push(&mut s, HEX_LOWER[(b >> 4) as usize]);
        string_push(&mut s, HEX_LOWER[(b & 0x0f) as usize]);
        proof {
            assert(data@.take(i + 1).drop_last() =~= data@.take(i as int));
            assert(data@.take(i + 1).last() == data@[i as int]);
        }
    }
    proof {
        assert(data@.take(data_len as int) =~= data@);
    }
    s
}

} // verus!
