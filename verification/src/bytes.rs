//! Numbers as bytes, the smallest part first.

use vstd::prelude::*;

verus! {

/// A number in four bytes, the smallest part first.
pub open spec fn le32(number: nat) -> Seq<u8> {
    seq![
        (number % 256) as u8,
        (number / 256 % 256) as u8,
        (number / 65536 % 256) as u8,
        (number / 16777216 % 256) as u8,
    ]
}

/// A number in two bytes, the smallest part first.
pub open spec fn le16(number: nat) -> Seq<u8> {
    seq![(number % 256) as u8, (number / 256 % 256) as u8]
}

/// The number that four bytes spell, the smallest part first.
pub open spec fn from_le32(bytes: Seq<u8>) -> nat {
    (bytes[0] + 256 * bytes[1] + 65536 * bytes[2] + 16777216 * bytes[3]) as nat
}

/// What four bytes spell is the number that was put into them.
pub proof fn lemma_le32_reads_back(number: u32)
    ensures
        from_le32(le32(number as nat)) == number,
        le32(number as nat).len() == 4,
{
}

pub fn push_le32(bytes: &mut Vec<u8>, number: u32)
    ensures
        final(bytes)@ == old(bytes)@ + le32(number as nat),
{
    let ghost before = bytes@;
    bytes.push((number % 256) as u8);
    bytes.push((number / 256 % 256) as u8);
    bytes.push((number / 65536 % 256) as u8);
    bytes.push((number / 16777216 % 256) as u8);
    assert(bytes@ =~= before + le32(number as nat));
}

pub fn push_le16(bytes: &mut Vec<u8>, number: u16)
    ensures
        final(bytes)@ == old(bytes)@ + le16(number as nat),
{
    let ghost before = bytes@;
    bytes.push((number % 256) as u8);
    bytes.push((number / 256 % 256) as u8);
    assert(bytes@ =~= before + le16(number as nat));
}

pub fn read_le32(bytes: &[u8], at: usize) -> (number: u32)
    requires
        at + 4 <= bytes@.len(),
    ensures
        number == from_le32(bytes@.subrange(at as int, at + 4)),
{
    bytes[at] as u32 + 256 * bytes[at + 1] as u32 + 65536 * bytes[at + 2] as u32 + 16777216
        * bytes[at + 3] as u32
}

/// Puts `more` at the end of `bytes`.
pub fn push_bytes(bytes: &mut Vec<u8>, more: &[u8])
    ensures
        final(bytes)@ == old(bytes)@ + more@,
{
    let ghost before = bytes@;
    let mut index: usize = 0;
    assert(before + more@.take(0) =~= before);
    while index < more.len()
        invariant
            index <= more@.len(),
            bytes@ == before + more@.take(index as int),
        decreases more@.len() - index,
    {
        bytes.push(more[index]);
        index += 1;
        assert(bytes@ =~= before + more@.take(index as int));
    }
    assert(more@.take(more@.len() as int) =~= more@);
}

/// The bytes from `from` on.
pub fn bytes_from(bytes: &[u8], from: usize) -> (rest: Vec<u8>)
    requires
        from <= bytes@.len(),
    ensures
        rest@ == bytes@.skip(from as int),
{
    let mut rest: Vec<u8> = Vec::new();
    let mut index: usize = from;
    while index < bytes.len()
        invariant
            from <= index <= bytes@.len(),
            rest@ =~= bytes@.subrange(from as int, index as int),
        decreases bytes@.len() - index,
    {
        rest.push(bytes[index]);
        index += 1;
    }
    assert(rest@ =~= bytes@.skip(from as int));
    rest
}

/// Whether `bytes` starts with `start`.
pub fn starts_with_bytes(bytes: &[u8], start: &[u8]) -> (found: bool)
    ensures
        found == (start@.len() <= bytes@.len() && bytes@.take(start@.len() as int) == start@),
{
    if start.len() > bytes.len() {
        return false;
    }
    let mut index: usize = 0;
    while index < start.len()
        invariant
            index <= start@.len() <= bytes@.len(),
            forall|i: int| 0 <= i < index ==> bytes@[i] == start@[i],
        decreases start@.len() - index,
    {
        if bytes[index] != start[index] {
            assert(bytes@.take(start@.len() as int)[index as int] != start@[index as int]);
            return false;
        }
        index += 1;
    }
    assert(bytes@.take(start@.len() as int) =~= start@);
    true
}

/// The bytes of a number are its digits to the base of 256, the smallest first: together they
/// make it up again.
pub proof fn bytes_make_up_the_number(number: nat)
    ensures
        le32(number).len() == 4,
        le16(number).len() == 2,
        number < 0x1_0000_0000 ==> number == le32(number)[0] + 256 * le32(number)[1] + 65536
            * le32(number)[2] + 16777216 * le32(number)[3],
        number < 0x1_0000 ==> number == le16(number)[0] + 256 * le16(number)[1],
        from_le32(seq![1u8, 0u8, 0u8, 0u8]) == 1,
{
}

/// The number that four bytes spell grows with each of them by its place.
pub proof fn bytes_count_by_their_place(a: u8, b: u8, c: u8, d: u8)
    ensures
        from_le32(seq![a, b, c, d]) == a + 256 * b + 65536 * c + 16777216 * d,
{
}

} // verus!
