//! Small helpers on byte and character sequences.

use vstd::prelude::*;

verus! {

/// Appends the elements of `more` to `out`.
pub fn append<T: Copy>(out: &mut Vec<T>, more: &[T])
    ensures
        final(out)@ == old(out)@ + more@,
{
    let ghost before = out@;
    let mut i: usize = 0;
    while i < more.len()
        invariant
            i <= more.len(),
            out@ == before + more@.take(i as int),
        decreases more.len() - i,
    {
        out.push(more[i]);
        i += 1;
        assert(out@ =~= before + more@.take(i as int));
    }
    assert(more@.take(more@.len() as int) =~= more@);
}

/// The four bytes of a 32-bit number, most significant first.
pub open spec fn spec_u32_be(value: u32) -> Seq<u8> {
    seq![
        ((value >> 24) & 0xff) as u8,
        ((value >> 16) & 0xff) as u8,
        ((value >> 8) & 0xff) as u8,
        (value & 0xff) as u8,
    ]
}

/// The four bytes of a 32-bit number, most significant first.
pub fn u32_be(value: u32) -> (bytes: Vec<u8>)
    ensures
        bytes@ == spec_u32_be(value),
{
    assert(((value >> 24) & 0xff) < 256 && ((value >> 16) & 0xff) < 256 && ((value >> 8) & 0xff)
        < 256 && (value & 0xff) < 256) by (bit_vector);
    let mut bytes: Vec<u8> = Vec::new();
    bytes.push(((value >> 24) & 0xff) as u8);
    bytes.push(((value >> 16) & 0xff) as u8);
    bytes.push(((value >> 8) & 0xff) as u8);
    bytes.push((value & 0xff) as u8);
    assert(bytes@ =~= spec_u32_be(value));
    bytes
}

} // verus!
