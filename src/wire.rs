//! Base-128 varints and little-endian fixed-width integers, the primitive
//! encodings of the protocol-buffer wire format.
use vstd::prelude::*;

verus! {

/// Bytes of the base-128 varint of `v`: seven bits per byte, least
/// significant group first, the high bit set on every byte but the last.
pub open spec fn varint_bytes(v: u64) -> Seq<u8>
    decreases v,
{
    if v < 128 {
        seq![v as u8]
    } else {
        seq![((v % 128) + 128) as u8] + varint_bytes(v / 128)
    }
}

/// Length of the varint that starts `b`, looking at no more than `budget`
/// bytes: the count up to and including the first byte below 0x80.
pub open spec fn varint_len(b: Seq<u8>, budget: nat) -> Option<nat>
    decreases budget,
{
    if budget == 0 || b.len() == 0 {
        None
    } else if b[0] < 128 {
        Some(1)
    } else {
        match varint_len(b.drop_first(), (budget - 1) as nat) {
            Some(n) => Some(n + 1),
            None => None,
        }
    }
}

/// The number held by the low seven bits of the first `n` bytes of `b`,
/// least significant group first.
pub open spec fn varint_value(b: Seq<u8>, n: nat) -> nat
    decreases n,
{
    if n == 0 || b.len() == 0 {
        0
    } else {
        (b[0] % 128) as nat + 128 * varint_value(b.drop_first(), (n - 1) as nat)
    }
}

/// What a varint decoder reads at the start of `b`: the value and the number
/// of bytes it takes. At most ten bytes are read, and a tenth byte may only
/// hold the top bit of a 64-bit value.
pub open spec fn parse_varint(b: Seq<u8>) -> Option<(u64, nat)> {
    match varint_len(b, 10) {
        None => None,
        Some(n) => if n == 10 && b[9] >= 2 {
            None
        } else {
            Some((varint_value(b, n) as u64, n))
        },
    }
}

/// The four bytes of `v`, least significant first.
pub open spec fn le32_bytes(v: u32) -> Seq<u8> {
    seq![v as u8, (v >> 8) as u8, (v >> 16) as u8, (v >> 24) as u8]
}

/// The eight bytes of `v`, least significant first.
pub open spec fn le64_bytes(v: u64) -> Seq<u8> {
    seq![
        v as u8,
        (v >> 8) as u8,
        (v >> 16) as u8,
        (v >> 24) as u8,
        (v >> 32) as u8,
        (v >> 40) as u8,
        (v >> 48) as u8,
        (v >> 56) as u8,
    ]
}

/// The number whose four little-endian bytes start `b`.
pub open spec fn le32_value(b: Seq<u8>) -> u32
    recommends
        b.len() >= 4,
{
    (b[0] as u32) | ((b[1] as u32) << 8) | ((b[2] as u32) << 16) | ((b[3] as u32) << 24)
}

/// The number whose eight little-endian bytes start `b`.
pub open spec fn le64_value(b: Seq<u8>) -> u64
    recommends
        b.len() >= 8,
{
    (b[0] as u64) | ((b[1] as u64) << 8) | ((b[2] as u64) << 16) | ((b[3] as u64) << 24) | ((
    b[4] as u64) << 32) | ((b[5] as u64) << 40) | ((b[6] as u64) << 48) | ((b[7] as u64) << 56)
}

/// 128 to the power `d`.
pub open spec fn pow128(d: nat) -> nat
    decreases d,
{
    if d == 0 {
        1
    } else {
        128 * pow128((d - 1) as nat)
    }
}

/// A varint of a value below `2 * 128^d` has at most `d + 1` bytes, and when
/// it has exactly that many its last byte is 0 or 1.
proof fn lemma_varint_shape(v: u64, d: nat)
    requires
        v < 2 * pow128(d),
    ensures
        1 <= varint_bytes(v).len() <= d + 1,
        varint_bytes(v).len() == d + 1 ==> varint_bytes(v).last() < 2,
    decreases d,
{
    if v < 128 {
    } else {
        assert(d >= 1) by {
            if d == 0 {
                assert(pow128(0) == 1);
            }
        }
        let d1 = (d - 1) as nat;
        assert(pow128(d) == 128 * pow128(d1));
        let p = pow128(d1);
        assert(v / 128 < 2 * p) by (nonlinear_arith)
            requires
                v < 2 * (128 * p),
        ;
        lemma_varint_shape(v / 128, d1);
        let head = seq![((v % 128) + 128) as u8];
        let tail = varint_bytes(v / 128);
        assert(varint_bytes(v) == head + tail);
        assert((head + tail).last() == tail.last());
    }
}

/// Every byte of a varint but the last carries the continuation bit; the
/// last one does not.
proof fn lemma_varint_bits(v: u64)
    ensures
        forall|i: int|
            0 <= i < varint_bytes(v).len() - 1 ==> #[trigger] varint_bytes(v)[i] >= 128,
        varint_bytes(v).last() < 128,
    decreases v,
{
    if v >= 128 {
        lemma_varint_bits(v / 128);
        let head = seq![((v % 128) + 128) as u8];
        let tail = varint_bytes(v / 128);
        assert(varint_bytes(v) == head + tail);
        assert forall|i: int| 0 <= i < varint_bytes(v).len() - 1 implies #[trigger] varint_bytes(
            v,
        )[i] >= 128 by {
            if i > 0 {
                assert(varint_bytes(v)[i] == tail[i - 1]);
            }
        }
    }
}

/// Reading a varint that was written for `v`, with any bytes after it, gives
/// back `v` and the varint's length.
proof fn lemma_varint_read(v: u64, rest: Seq<u8>, budget: nat)
    requires
        varint_bytes(v).len() <= budget,
    ensures
        varint_len(varint_bytes(v) + rest, budget) == Some(varint_bytes(v).len()),
        varint_value(varint_bytes(v) + rest, varint_bytes(v).len()) == v,
    decreases v,
{
    let s = varint_bytes(v) + rest;
    if v < 128 {
        assert(s[0] == v as u8);
        assert(s.drop_first().len() >= 0);
        assert(varint_value(s, 1) == (s[0] % 128) as nat + 128 * varint_value(s.drop_first(), 0));
    } else {
        let head = seq![((v % 128) + 128) as u8];
        let tail = varint_bytes(v / 128);
        assert(varint_bytes(v) == head + tail);
        assert(s.drop_first() =~= tail + rest);
        lemma_varint_read(v / 128, rest, (budget - 1) as nat);
        assert(s[0] == ((v % 128) + 128) as u8);
        assert(s[0] % 128 == v % 128);
        let n = varint_bytes(v).len();
        assert(varint_value(s, n) == (s[0] % 128) as nat + 128 * varint_value(
            s.drop_first(),
            (n - 1) as nat,
        ));
        assert(v % 128 + 128 * (v / 128) == v);
    }
}

/// A varint found in `b` lies within `b`.
pub proof fn lemma_varint_len_bound(b: Seq<u8>, budget: nat)
    ensures
        varint_len(b, budget) matches Some(n) ==> 1 <= n <= b.len() && n <= budget,
    decreases budget,
{
    if budget > 0 && b.len() > 0 && b[0] >= 128 {
        lemma_varint_len_bound(b.drop_first(), (budget - 1) as nat);
    }
}

/// The varint of any 64-bit value is read back whole by [`parse_varint`].
pub proof fn lemma_parse_varint_bytes(v: u64, rest: Seq<u8>)
    ensures
        parse_varint(varint_bytes(v) + rest) == Some((v, varint_bytes(v).len())),
        1 <= varint_bytes(v).len() <= 10,
{
    reveal_with_fuel(pow128, 10);
    assert(pow128(9) == 9223372036854775808);
    lemma_varint_shape(v, 9);
    lemma_varint_read(v, rest, 10);
    let n = varint_bytes(v).len();
    if n == 10 {
        assert((varint_bytes(v) + rest)[9] == varint_bytes(v).last());
    }
}

/// Little-endian bytes read back as the number they were written for.
pub proof fn lemma_le32_round_trip(v: u32, rest: Seq<u8>)
    ensures
        le32_value(le32_bytes(v) + rest) == v,
{
    let s = le32_bytes(v) + rest;
    assert(s[0] == v as u8 && s[1] == (v >> 8) as u8 && s[2] == (v >> 16) as u8 && s[3] == (v
        >> 24) as u8);
    let (b0, b1, b2, b3) = (s[0], s[1], s[2], s[3]);
    assert((b0 as u32) | ((b1 as u32) << 8) | ((b2 as u32) << 16) | ((b3 as u32) << 24) == v)
        by (bit_vector)
        requires
            b0 == v as u8,
            b1 == (v >> 8) as u8,
            b2 == (v >> 16) as u8,
            b3 == (v >> 24) as u8,
    ;
}

/// Little-endian bytes read back as the number they were written for.
pub proof fn lemma_le64_round_trip(v: u64, rest: Seq<u8>)
    ensures
        le64_value(le64_bytes(v) + rest) == v,
{
    let s = le64_bytes(v) + rest;
    assert(s[0] == v as u8 && s[1] == (v >> 8) as u8 && s[2] == (v >> 16) as u8 && s[3] == (v
        >> 24) as u8);
    assert(s[4] == (v >> 32) as u8 && s[5] == (v >> 40) as u8 && s[6] == (v >> 48) as u8 && s[7]
        == (v >> 56) as u8);
    let (b0, b1, b2, b3, b4, b5, b6, b7) = (s[0], s[1], s[2], s[3], s[4], s[5], s[6], s[7]);
    assert((b0 as u64) | ((b1 as u64) << 8) | ((b2 as u64) << 16) | ((b3 as u64) << 24) | ((
    b4 as u64) << 32) | ((b5 as u64) << 40) | ((b6 as u64) << 48) | ((b7 as u64) << 56) == v)
        by (bit_vector)
        requires
            b0 == v as u8,
            b1 == (v >> 8) as u8,
            b2 == (v >> 16) as u8,
            b3 == (v >> 24) as u8,
            b4 == (v >> 32) as u8,
            b5 == (v >> 40) as u8,
            b6 == (v >> 48) as u8,
            b7 == (v >> 56) as u8,
    ;
}

/// Relies on prost::encoding::encode_varint: appends the base-128 varint of
/// `v` to the buffer.
#[verifier::external_body]
pub(crate) fn write_varint(v: u64, buf: &mut Vec<u8>)
    ensures
        final(buf)@ == old(buf)@ + varint_bytes(v),
{
    prost::encoding::encode_varint(v, buf)
}

/// Relies on prost::encoding::decode_varint over a byte slice: it reads the
/// varint at the start of `b`, and on success returns the value with the
/// number of bytes of `b` left after it.
#[verifier::external_body]
pub(crate) fn read_varint(b: &[u8]) -> (r: Option<(u64, usize)>)
    ensures
        r matches Some((v, left)) ==> parse_varint(b@) matches Some((w, n)) && v == w && left
            == b@.len() - n,
        r is None ==> parse_varint(b@) is None,
{
    let mut rest = b;
    match prost::encoding::decode_varint(&mut rest) {
        Ok(v) => Some((v, rest.len())),
        Err(_) => None,
    }
}

/// Appends the varint of `v` to `buf`.
pub fn put_varint(buf: &mut Vec<u8>, v: u64)
    ensures
        final(buf)@ == old(buf)@ + varint_bytes(v),
{
    write_varint(v, buf);
}

/// Appends the four little-endian bytes of `v` to `buf`.
pub fn put_fixed32(buf: &mut Vec<u8>, v: u32)
    ensures
        final(buf)@ == old(buf)@ + le32_bytes(v),
{
    buf.push(v as u8);
    buf.push((v >> 8) as u8);
    buf.push((v >> 16) as u8);
    buf.push((v >> 24) as u8);
    assert(buf@ =~= old(buf)@ + le32_bytes(v));
}

/// Appends the eight little-endian bytes of `v` to `buf`.
pub fn put_fixed64(buf: &mut Vec<u8>, v: u64)
    ensures
        final(buf)@ == old(buf)@ + le64_bytes(v),
{
    buf.push(v as u8);
    buf.push((v >> 8) as u8);
    buf.push((v >> 16) as u8);
    buf.push((v >> 24) as u8);
    buf.push((v >> 32) as u8);
    buf.push((v >> 40) as u8);
    buf.push((v >> 48) as u8);
    buf.push((v >> 56) as u8);
    assert(buf@ =~= old(buf)@ + le64_bytes(v));
}

/// Reads the varint at position `pos` of `b`: the value and the position
/// just after it, or `None` where [`parse_varint`] finds no varint there.
pub fn get_varint(b: &[u8], pos: usize) -> (r: Option<(u64, usize)>)
    requires
        pos <= b@.len(),
    ensures
        r matches Some((v, next)) ==> parse_varint(b@.skip(pos as int)) matches Some((w, n)) && v
            == w && next == pos + n,
        r matches Some((v, next)) ==> pos < next <= b@.len(),
        r is None ==> parse_varint(b@.skip(pos as int)) is None,
{
    proof {
        lemma_varint_len_bound(b@.skip(pos as int), 10);
    }
    let tail = vstd::slice::slice_subrange(b, pos, b.len());
    assert(tail@ =~= b@.skip(pos as int));
    match read_varint(tail) {
        Some((v, left)) => Some((v, b.len() - left)),
        None => None,
    }
}

/// Reads the four little-endian bytes at position `pos` of `b`.
pub fn get_fixed32(b: &[u8], pos: usize) -> (r: u32)
    requires
        pos + 4 <= b@.len(),
    ensures
        r == le32_value(b@.skip(pos as int)),
{
    (b[pos] as u32) | ((b[pos + 1] as u32) << 8) | ((b[pos + 2] as u32) << 16) | ((b[pos
        + 3] as u32) << 24)
}

/// Reads the eight little-endian bytes at position `pos` of `b`.
pub fn get_fixed64(b: &[u8], pos: usize) -> (r: u64)
    requires
        pos + 8 <= b@.len(),
    ensures
        r == le64_value(b@.skip(pos as int)),
{
    (b[pos] as u64) | ((b[pos + 1] as u64) << 8) | ((b[pos + 2] as u64) << 16) | ((b[pos
        + 3] as u64) << 24) | ((b[pos + 4] as u64) << 32) | ((b[pos + 5] as u64) << 40) | ((b[pos
        + 6] as u64) << 48) | ((b[pos + 7] as u64) << 56)
}

} // verus!
