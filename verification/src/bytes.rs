use vstd::prelude::*;

verus! {

/// Little-endian bytes of a 16-bit value.
pub open spec fn u16_le(v: u16) -> Seq<u8> {
    seq![(v & 0xff) as u8, ((v >> 8) & 0xff) as u8]
}

/// Little-endian bytes of a 64-bit value.
pub open spec fn u64_le(v: u64) -> Seq<u8> {
    seq![
        (v & 0xff) as u8,
        ((v >> 8) & 0xff) as u8,
        ((v >> 16) & 0xff) as u8,
        ((v >> 24) & 0xff) as u8,
        ((v >> 32) & 0xff) as u8,
        ((v >> 40) & 0xff) as u8,
        ((v >> 48) & 0xff) as u8,
        ((v >> 56) & 0xff) as u8,
    ]
}

/// Little-endian bytes of a 128-bit value.
pub open spec fn u128_le(v: u128) -> Seq<u8> {
    seq![
        (v & 0xff) as u8,
        ((v >> 8) & 0xff) as u8,
        ((v >> 16) & 0xff) as u8,
        ((v >> 24) & 0xff) as u8,
        ((v >> 32) & 0xff) as u8,
        ((v >> 40) & 0xff) as u8,
        ((v >> 48) & 0xff) as u8,
        ((v >> 56) & 0xff) as u8,
        ((v >> 64) & 0xff) as u8,
        ((v >> 72) & 0xff) as u8,
        ((v >> 80) & 0xff) as u8,
        ((v >> 88) & 0xff) as u8,
        ((v >> 96) & 0xff) as u8,
        ((v >> 104) & 0xff) as u8,
        ((v >> 112) & 0xff) as u8,
        ((v >> 120) & 0xff) as u8,
    ]
}

/// The 16-bit value two little-endian bytes denote.
pub open spec fn u16_from_bytes(b0: u8, b1: u8) -> u16 {
    (b0 as u16) | ((b1 as u16) << 8)
}

/// The 64-bit value eight little-endian bytes denote.
pub open spec fn u64_from_bytes(
    b0: u8,
    b1: u8,
    b2: u8,
    b3: u8,
    b4: u8,
    b5: u8,
    b6: u8,
    b7: u8,
) -> u64 {
    (b0 as u64) | ((b1 as u64) << 8) | ((b2 as u64) << 16) | ((b3 as u64) << 24) | ((b4 as u64)
        << 32) | ((b5 as u64) << 40) | ((b6 as u64) << 48) | ((b7 as u64) << 56)
}

/// The 128-bit value sixteen little-endian bytes denote.
pub open spec fn u128_from_bytes(
    b0: u8,
    b1: u8,
    b2: u8,
    b3: u8,
    b4: u8,
    b5: u8,
    b6: u8,
    b7: u8,
    b8: u8,
    b9: u8,
    b10: u8,
    b11: u8,
    b12: u8,
    b13: u8,
    b14: u8,
    b15: u8,
) -> u128 {
    (b0 as u128) | ((b1 as u128) << 8) | ((b2 as u128) << 16) | ((b3 as u128) << 24) | ((b4
        as u128) << 32) | ((b5 as u128) << 40) | ((b6 as u128) << 48) | ((b7 as u128) << 56) | ((b8
        as u128) << 64) | ((b9 as u128) << 72) | ((b10 as u128) << 80) | ((b11 as u128) << 88) | ((
    b12 as u128) << 96) | ((b13 as u128) << 104) | ((b14 as u128) << 112) | ((b15 as u128) << 120)
}

/// The 16-bit value a two-byte little-endian slice denotes.
pub open spec fn u16_of_le(s: Seq<u8>) -> u16 {
    u16_from_bytes(s[0], s[1])
}

/// The 64-bit value an eight-byte little-endian slice denotes.
pub open spec fn u64_of_le(s: Seq<u8>) -> u64 {
    u64_from_bytes(s[0], s[1], s[2], s[3], s[4], s[5], s[6], s[7])
}

/// The 128-bit value a sixteen-byte little-endian slice denotes.
pub open spec fn u128_of_le(s: Seq<u8>) -> u128 {
    u128_from_bytes(
        s[0],
        s[1],
        s[2],
        s[3],
        s[4],
        s[5],
        s[6],
        s[7],
        s[8],
        s[9],
        s[10],
        s[11],
        s[12],
        s[13],
        s[14],
        s[15],
    )
}

pub proof fn lemma_u16_le_round_trip(v: u16)
    ensures
        u16_of_le(u16_le(v)) == v,
{
    assert(u16_from_bytes((v & 0xff) as u8, ((v >> 8) & 0xff) as u8) == v) by (bit_vector);
}

pub proof fn lemma_u64_le_round_trip(v: u64)
    ensures
        u64_of_le(u64_le(v)) == v,
{
    assert(u64_from_bytes(
        (v & 0xff) as u8,
        ((v >> 8) & 0xff) as u8,
        ((v >> 16) & 0xff) as u8,
        ((v >> 24) & 0xff) as u8,
        ((v >> 32) & 0xff) as u8,
        ((v >> 40) & 0xff) as u8,
        ((v >> 48) & 0xff) as u8,
        ((v >> 56) & 0xff) as u8,
    ) == v) by (bit_vector);
}

pub proof fn lemma_u128_le_round_trip(v: u128)
    ensures
        u128_of_le(u128_le(v)) == v,
{
    assert(u128_from_bytes(
        (v & 0xff) as u8,
        ((v >> 8) & 0xff) as u8,
        ((v >> 16) & 0xff) as u8,
        ((v >> 24) & 0xff) as u8,
        ((v >> 32) & 0xff) as u8,
        ((v >> 40) & 0xff) as u8,
        ((v >> 48) & 0xff) as u8,
        ((v >> 56) & 0xff) as u8,
        ((v >> 64) & 0xff) as u8,
        ((v >> 72) & 0xff) as u8,
        ((v >> 80) & 0xff) as u8,
        ((v >> 88) & 0xff) as u8,
        ((v >> 96) & 0xff) as u8,
        ((v >> 104) & 0xff) as u8,
        ((v >> 112) & 0xff) as u8,
        ((v >> 120) & 0xff) as u8,
    ) == v) by (bit_vector);
}

/// Masking with 0xff keeps a 16-bit value below 256.
proof fn lemma_mask_byte_u16()
    by (bit_vector)
    ensures
        forall|x: u16| #[trigger] (x & 0xff) < 256,
{
}

/// Masking with 0xff keeps a 64-bit value below 256.
proof fn lemma_mask_byte_u64()
    by (bit_vector)
    ensures
        forall|x: u64| #[trigger] (x & 0xff) < 256,
{
}

/// Masking with 0xff keeps a 128-bit value below 256.
proof fn lemma_mask_byte_u128()
    by (bit_vector)
    ensures
        forall|x: u128| #[trigger] (x & 0xff) < 256,
{
}

/// Appends the two little-endian bytes of `v`.
pub fn push_u16_le(out: &mut Vec<u8>, v: u16)
    ensures
        final(out)@ == old(out)@ + u16_le(v),
{
    proof {
        lemma_mask_byte_u16();
    }
    out.push((v & 0xff) as u8);
    out.push(((v >> 8) & 0xff) as u8);
    assert(out@ =~= old(out)@ + u16_le(v));
}

/// Appends the eight little-endian bytes of `v`.
pub fn push_u64_le(out: &mut Vec<u8>, v: u64)
    ensures
        final(out)@ == old(out)@ + u64_le(v),
{
    proof {
        lemma_mask_byte_u64();
    }
    out.push((v & 0xff) as u8);
    out.push(((v >> 8) & 0xff) as u8);
    out.push(((v >> 16) & 0xff) as u8);
    out.push(((v >> 24) & 0xff) as u8);
    out.push(((v >> 32) & 0xff) as u8);
    out.push(((v >> 40) & 0xff) as u8);
    out.push(((v >> 48) & 0xff) as u8);
    out.push(((v >> 56) & 0xff) as u8);
    assert(out@ =~= old(out)@ + u64_le(v));
}

/// Appends the sixteen little-endian bytes of `v`.
pub fn push_u128_le(out: &mut Vec<u8>, v: u128)
    ensures
        final(out)@ == old(out)@ + u128_le(v),
{
    proof {
        lemma_mask_byte_u128();
    }
    out.push((v & 0xff) as u8);
    out.push(((v >> 8) & 0xff) as u8);
    out.push(((v >> 16) & 0xff) as u8);
    out.push(((v >> 24) & 0xff) as u8);
    out.push(((v >> 32) & 0xff) as u8);
    out.push(((v >> 40) & 0xff) as u8);
    out.push(((v >> 48) & 0xff) as u8);
    out.push(((v >> 56) & 0xff) as u8);
    out.push(((v >> 64) & 0xff) as u8);
    out.push(((v >> 72) & 0xff) as u8);
    out.push(((v >> 80) & 0xff) as u8);
    out.push(((v >> 88) & 0xff) as u8);
    out.push(((v >> 96) & 0xff) as u8);
    out.push(((v >> 104) & 0xff) as u8);
    out.push(((v >> 112) & 0xff) as u8);
    out.push(((v >> 120) & 0xff) as u8);
    assert(out@ =~= old(out)@ + u128_le(v));
}

/// Reads the 16-bit value at `off`.
pub fn read_u16_le(data: &[u8], off: usize) -> (r: u16)
    requires
        off + 2 <= data@.len(),
    ensures
        r == u16_of_le(data@.subrange(off as int, off as int + 2)),
{
    let r = (data[off] as u16) | ((data[off + 1] as u16) << 8);
    proof {
        let s = data@.subrange(off as int, off as int + 2);
        assert(s[0] == data@[off as int] && s[1] == data@[off as int + 1]);
    }
    r
}

/// Reads the 64-bit value at `off`.
pub fn read_u64_le(data: &[u8], off: usize) -> (r: u64)
    requires
        off + 8 <= data@.len(),
    ensures
        r == u64_of_le(data@.subrange(off as int, off as int + 8)),
{
    let r = (data[off] as u64) | ((data[off + 1] as u64) << 8) | ((data[off + 2] as u64) << 16) | ((
    data[off + 3] as u64) << 24) | ((data[off + 4] as u64) << 32) | ((data[off + 5] as u64) << 40)
        | ((data[off + 6] as u64) << 48) | ((data[off + 7] as u64) << 56);
    proof {
        let s = data@.subrange(off as int, off as int + 8);
        assert(forall|i: int| 0 <= i < 8 ==> s[i] == data@[off as int + i]);
    }
    r
}

/// Reads the 128-bit value at `off`.
pub fn read_u128_le(data: &[u8], off: usize) -> (r: u128)
    requires
        off + 16 <= data@.len(),
    ensures
        r == u128_of_le(data@.subrange(off as int, off as int + 16)),
{
    let r = (data[off] as u128) | ((data[off + 1] as u128) << 8) | ((data[off + 2] as u128) << 16)
        | ((data[off + 3] as u128) << 24) | ((data[off + 4] as u128) << 32) | ((data[off + 5]
        as u128) << 40) | ((data[off + 6] as u128) << 48) | ((data[off + 7] as u128) << 56) | ((
    data[off + 8] as u128) << 64) | ((data[off + 9] as u128) << 72) | ((data[off + 10] as u128)
        << 80) | ((data[off + 11] as u128) << 88) | ((data[off + 12] as u128) << 96) | ((data[off
        + 13] as u128) << 104) | ((data[off + 14] as u128) << 112) | ((data[off + 15] as u128)
        << 120);
    proof {
        let s = data@.subrange(off as int, off as int + 16);
        assert(forall|i: int| 0 <= i < 16 ==> s[i] == data@[off as int + i]);
    }
    r
}

/// The wire form of one axis value: offset binary, so that the order of the
/// signed values is the order of their unsigned images.
pub open spec fn axis_to_wire(x: i64) -> u64 {
    (x + 0x8000_0000_0000_0000) as u64
}

/// The axis value a wire word denotes.
pub open spec fn axis_of_wire(u: u64) -> i64 {
    (u - 0x8000_0000_0000_0000) as i64
}

pub proof fn lemma_axis_round_trip(x: i64)
    ensures
        axis_of_wire(axis_to_wire(x)) == x,
{
}

/// Encodes one axis value for the wire.
pub fn axis_encode(x: i64) -> (r: u64)
    ensures
        r == axis_to_wire(x),
{
    ((x as i128) + 0x8000_0000_0000_0000i128) as u64
}

/// Decodes one axis value from the wire.
pub fn axis_decode(u: u64) -> (r: i64)
    ensures
        r == axis_of_wire(u),
{
    ((u as i128) - 0x8000_0000_0000_0000i128) as i64
}

} // verus!
