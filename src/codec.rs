//! The field rules shared by all messages: how a scalar, a string, a nested
//! message or a repeated value becomes fields, and how it is read back from
//! the fields of a decoded message.
use vstd::prelude::*;
use vstd::utf8::{decode_utf8, encode_utf8, valid_utf8};
use crate::field::{fields_view, wire_type, DecodeError, Field, FieldV, WireValue, WireValueV};
use crate::wire::{get_varint, parse_varint};

verus! {

// ---------------------------------------------------------------------------
// Fields that a value becomes
// ---------------------------------------------------------------------------

/// A scalar carried as a varint: no field at all for zero.
pub open spec fn varint_field(n: u32, v: u64) -> Seq<FieldV> {
    if v == 0 {
        seq![]
    } else {
        seq![FieldV { number: n, value: WireValueV::Varint(v) }]
    }
}

/// A 32-bit signed scalar: sign-extended to 64 bits on the wire.
pub open spec fn int32_field(n: u32, v: i32) -> Seq<FieldV> {
    varint_field(n, v as u64)
}

/// A boolean: one field holding 1 when true, none when false.
pub open spec fn bool_field(n: u32, v: bool) -> Seq<FieldV> {
    varint_field(n, if v { 1 } else { 0 })
}

/// A single-precision float, given by its bit pattern: no field for plus
/// or minus zero.
pub open spec fn float_field(n: u32, bits: u32) -> Seq<FieldV> {
    if bits == 0 || bits == 0x8000_0000 {
        seq![]
    } else {
        seq![FieldV { number: n, value: WireValueV::Fixed32(bits) }]
    }
}

/// A length-delimited payload that is always written.
pub open spec fn payload_field(n: u32, b: Seq<u8>) -> Seq<FieldV> {
    seq![FieldV { number: n, value: WireValueV::Bytes(b) }]
}

/// A byte string: no field when it is empty.
pub open spec fn bytes_field(n: u32, b: Seq<u8>) -> Seq<FieldV> {
    if b.len() == 0 {
        seq![]
    } else {
        payload_field(n, b)
    }
}

/// A string: its UTF-8 bytes, no field when it is empty.
pub open spec fn string_field(n: u32, s: Seq<char>) -> Seq<FieldV> {
    bytes_field(n, encode_utf8(s))
}

/// An optional nested message, given by its encoding: a field whenever the
/// message is present, even when its encoding is empty.
pub open spec fn message_field(n: u32, m: Option<Seq<u8>>) -> Seq<FieldV> {
    match m {
        Some(b) => payload_field(n, b),
        None => seq![],
    }
}

/// A repeated string: one field for each element, empty ones included.
pub open spec fn strings_field(n: u32, ss: Seq<Seq<char>>) -> Seq<FieldV>
    decreases ss.len(),
{
    if ss.len() == 0 {
        seq![]
    } else {
        strings_field(n, ss.drop_last()) + payload_field(n, encode_utf8(ss.last()))
    }
}

/// A repeated nested message, given by the encodings of its elements.
pub open spec fn messages_field(n: u32, ms: Seq<Seq<u8>>) -> Seq<FieldV>
    decreases ms.len(),
{
    if ms.len() == 0 {
        seq![]
    } else {
        messages_field(n, ms.drop_last()) + payload_field(n, ms.last())
    }
}

/// The varints of `vs`, one after another.
pub open spec fn packed_bytes(vs: Seq<u64>) -> Seq<u8>
    decreases vs.len(),
{
    if vs.len() == 0 {
        seq![]
    } else {
        packed_bytes(vs.drop_last()) + crate::wire::varint_bytes(vs.last())
    }
}

/// A repeated 32-bit enumeration in packed form: one field holding every
/// value's varint, none when there is no value.
pub open spec fn packed_field(n: u32, vs: Seq<i32>) -> Seq<FieldV> {
    if vs.len() == 0 {
        seq![]
    } else {
        payload_field(n, packed_bytes(vs.map_values(|v: i32| v as u64)))
    }
}

// ---------------------------------------------------------------------------
// Values read back from decoded fields
// ---------------------------------------------------------------------------

/// Every field numbered `n` has wire type `wt`.
#[verifier::opaque]
pub open spec fn all_of_type(fs: Seq<FieldV>, n: u32, wt: u64) -> bool {
    forall|i: int| 0 <= i < fs.len() && #[trigger] fs[i].number == n ==> wire_type(fs[i].value) == wt
}

/// Index of the last field numbered `n`, or -1.
pub open spec fn last_index(fs: Seq<FieldV>, n: u32) -> int
    decreases fs.len(),
{
    if fs.len() == 0 {
        -1
    } else if fs.last().number == n {
        fs.len() - 1
    } else {
        last_index(fs.drop_last(), n)
    }
}

/// The bytes of a length-delimited payload (empty for the other kinds).
pub open spec fn payload_of(v: WireValueV) -> Seq<u8> {
    match v {
        WireValueV::Bytes(b) => b,
        _ => seq![],
    }
}

/// The number of a varint payload (zero for the other kinds).
pub open spec fn varint_of(v: WireValueV) -> u64 {
    match v {
        WireValueV::Varint(x) => x,
        _ => 0,
    }
}

/// The number of a 32-bit payload (zero for the other kinds).
pub open spec fn fixed32_of(v: WireValueV) -> u32 {
    match v {
        WireValueV::Fixed32(x) => x,
        _ => 0,
    }
}

/// The varint scalar numbered `n`: the last occurrence wins, zero when there
/// is none.
pub open spec fn varint_value(fs: Seq<FieldV>, n: u32) -> u64 {
    let i = last_index(fs, n);
    if i < 0 {
        0
    } else {
        varint_of(fs[i].value)
    }
}

/// The 32-bit scalar numbered `n`: the last occurrence wins, zero when there
/// is none.
pub open spec fn fixed32_value(fs: Seq<FieldV>, n: u32) -> u32 {
    let i = last_index(fs, n);
    if i < 0 {
        0
    } else {
        fixed32_of(fs[i].value)
    }
}

/// Every field numbered `n` is length-delimited and holds valid UTF-8.
#[verifier::opaque]
pub open spec fn all_text(fs: Seq<FieldV>, n: u32) -> bool {
    forall|i: int|
        0 <= i < fs.len() && #[trigger] fs[i].number == n ==> fs[i].value is Bytes && valid_utf8(
            payload_of(fs[i].value),
        )
}

/// The string numbered `n`: the last occurrence wins, empty when there is
/// none.
pub open spec fn string_value(fs: Seq<FieldV>, n: u32) -> Seq<char> {
    let i = last_index(fs, n);
    if i < 0 {
        seq![]
    } else {
        decode_utf8(payload_of(fs[i].value))
    }
}

/// The byte string numbered `n`: the last occurrence wins, empty when there
/// is none.
pub open spec fn bytes_value(fs: Seq<FieldV>, n: u32) -> Seq<u8> {
    let i = last_index(fs, n);
    if i < 0 {
        seq![]
    } else {
        payload_of(fs[i].value)
    }
}

/// Every element of the repeated string numbered `n`, in order.
pub open spec fn strings_value(fs: Seq<FieldV>, n: u32) -> Seq<Seq<char>>
    decreases fs.len(),
{
    if fs.len() == 0 {
        seq![]
    } else if fs.last().number == n {
        strings_value(fs.drop_last(), n).push(decode_utf8(payload_of(fs.last().value)))
    } else {
        strings_value(fs.drop_last(), n)
    }
}

/// The payloads of the fields numbered `n`, in order.
pub open spec fn payloads_value(fs: Seq<FieldV>, n: u32) -> Seq<Seq<u8>>
    decreases fs.len(),
{
    if fs.len() == 0 {
        seq![]
    } else if fs.last().number == n {
        payloads_value(fs.drop_last(), n).push(payload_of(fs.last().value))
    } else {
        payloads_value(fs.drop_last(), n)
    }
}

/// The payloads of the fields numbered `n` joined in order: occurrences of
/// a nested message merge, which is what decoding their concatenation does.
pub open spec fn joined_value(fs: Seq<FieldV>, n: u32) -> Seq<u8>
    decreases fs.len(),
{
    if fs.len() == 0 {
        seq![]
    } else if fs.last().number == n {
        joined_value(fs.drop_last(), n) + payload_of(fs.last().value)
    } else {
        joined_value(fs.drop_last(), n)
    }
}

/// The nested message numbered `n`, as the bytes it is decoded from; `None`
/// when the field is absent.
pub open spec fn message_value(fs: Seq<FieldV>, n: u32) -> Option<Seq<u8>> {
    if last_index(fs, n) < 0 {
        None
    } else {
        Some(joined_value(fs, n))
    }
}

/// The varints held by `b` one after another, or `None` where `b` is not
/// such a sequence.
pub open spec fn parse_packed(b: Seq<u8>) -> Option<Seq<u64>>
    decreases b.len(),
{
    if b.len() == 0 {
        Some(seq![])
    } else {
        match parse_varint(b) {
            Some((v, k)) => if 0 < k <= b.len() {
                match parse_packed(b.skip(k as int)) {
                    Some(rest) => Some(seq![v] + rest),
                    None => None,
                }
            } else {
                None
            },
            None => None,
        }
    }
}

/// The values of one field of a repeated varint scalar: a single value, or
/// a packed run of them.
pub open spec fn packed_part(v: WireValueV) -> Option<Seq<u64>> {
    match v {
        WireValueV::Varint(x) => Some(seq![x]),
        WireValueV::Bytes(b) => parse_packed(b),
        _ => None,
    }
}

/// Every value of the repeated varint scalar numbered `n`, in order, packed
/// or not; `None` when a field of that number is neither.
pub open spec fn packed_value(fs: Seq<FieldV>, n: u32) -> Option<Seq<u64>>
    decreases fs.len(),
{
    if fs.len() == 0 {
        Some(seq![])
    } else {
        match packed_value(fs.drop_last(), n) {
            None => None,
            Some(front) => if fs.last().number == n {
                match packed_part(fs.last().value) {
                    Some(part) => Some(front + part),
                    None => None,
                }
            } else {
                Some(front)
            },
        }
    }
}

/// The views of a sequence of strings.
pub open spec fn strings_view(ss: Seq<String>) -> Seq<Seq<char>> {
    ss.map_values(|s: String| s@)
}

/// The views of a sequence of byte vectors.
pub open spec fn bytes_view(bs: Seq<Vec<u8>>) -> Seq<Seq<u8>> {
    bs.map_values(|b: Vec<u8>| b@)
}

// ---------------------------------------------------------------------------
// Building fields
// ---------------------------------------------------------------------------

/// Relies on std::str::from_utf8: it accepts exactly the byte strings that
/// are valid UTF-8, and the text it gives is what those bytes decode to.
#[verifier::external_body]
fn utf8_text(b: &[u8]) -> (r: Option<String>)
    ensures
        r is Some <==> valid_utf8(b@),
        r matches Some(s) ==> s@ == decode_utf8(b@),
{
    match std::str::from_utf8(b) {
        Ok(s) => Some(s.to_string()),
        Err(_) => None,
    }
}

/// The UTF-8 bytes of `s`.
pub fn utf8_bytes(s: &String) -> (r: Vec<u8>)
    ensures
        r@ == encode_utf8(s@),
{
    vstd::slice::slice_to_vec(s.as_str().as_bytes())
}

/// Appends the fields of a varint scalar.
pub fn push_varint(fs: &mut Vec<Field>, n: u32, v: u64)
    ensures
        fields_view(final(fs)@) == fields_view(old(fs)@) + varint_field(n, v),
{
    let ghost before = fields_view(fs@);
    if v != 0 {
        fs.push(Field { number: n, value: WireValue::Varint(v) });
    }
    assert(fields_view(fs@) =~= before + varint_field(n, v));
}

/// Appends the fields of a 32-bit signed scalar or enumeration value.
pub fn push_int32(fs: &mut Vec<Field>, n: u32, v: i32)
    ensures
        fields_view(final(fs)@) == fields_view(old(fs)@) + int32_field(n, v),
{
    push_varint(fs, n, v as u64);
}

/// Appends the fields of a 64-bit signed scalar.
pub fn push_int64(fs: &mut Vec<Field>, n: u32, v: i64)
    ensures
        fields_view(final(fs)@) == fields_view(old(fs)@) + varint_field(n, v as u64),
{
    push_varint(fs, n, v as u64);
}

/// Appends the fields of a boolean.
pub fn push_bool(fs: &mut Vec<Field>, n: u32, v: bool)
    ensures
        fields_view(final(fs)@) == fields_view(old(fs)@) + bool_field(n, v),
{
    push_varint(fs, n, if v { 1 } else { 0 });
}

/// Appends the fields of a float given by its bit pattern.
pub fn push_float(fs: &mut Vec<Field>, n: u32, bits: u32)
    ensures
        fields_view(final(fs)@) == fields_view(old(fs)@) + float_field(n, bits),
{
    let ghost before = fields_view(fs@);
    if bits != 0 && bits != 0x8000_0000 {
        fs.push(Field { number: n, value: WireValue::Fixed32(bits) });
    }
    assert(fields_view(fs@) =~= before + float_field(n, bits));
}

/// Appends a length-delimited field that is always written.
pub fn push_payload(fs: &mut Vec<Field>, n: u32, b: Vec<u8>)
    ensures
        fields_view(final(fs)@) == fields_view(old(fs)@) + payload_field(n, b@),
{
    let ghost before = fields_view(fs@);
    let ghost bv = b@;
    fs.push(Field { number: n, value: WireValue::Bytes(b) });
    assert(fields_view(fs@) =~= before + payload_field(n, bv));
}

/// Appends the fields of a byte string.
pub fn push_bytes(fs: &mut Vec<Field>, n: u32, b: &Vec<u8>)
    ensures
        fields_view(final(fs)@) == fields_view(old(fs)@) + bytes_field(n, b@),
{
    let ghost before = fields_view(fs@);
    if b.len() != 0 {
        push_payload(fs, n, b.clone());
    }
    assert(fields_view(fs@) =~= before + bytes_field(n, b@));
}

/// Appends the fields of a string.
pub fn push_string(fs: &mut Vec<Field>, n: u32, s: &String)
    ensures
        fields_view(final(fs)@) == fields_view(old(fs)@) + string_field(n, s@),
{
    let b = utf8_bytes(s);
    push_bytes(fs, n, &b);
}

/// Appends the fields of an optional nested message, given by its encoding.
pub fn push_message(fs: &mut Vec<Field>, n: u32, m: Option<Vec<u8>>)
    ensures
        fields_view(final(fs)@) == fields_view(old(fs)@) + message_field(
            n,
            match m {
                Some(b) => Some(b@),
                None => None,
            },
        ),
{
    let ghost before = fields_view(fs@);
    match m {
        Some(b) => push_payload(fs, n, b),
        None => {
            assert(fields_view(fs@) =~= before + Seq::<FieldV>::empty());
        },
    }
}

/// Appends the fields of a repeated string.
pub fn push_strings(fs: &mut Vec<Field>, n: u32, ss: &Vec<String>)
    ensures
        fields_view(final(fs)@) == fields_view(old(fs)@) + strings_field(n, strings_view(ss@)),
{
    let ghost before = fields_view(fs@);
    let mut i: usize = 0;
    assert(strings_view(ss@.subrange(0, 0)) =~= Seq::<Seq<char>>::empty());
    assert(before + Seq::<FieldV>::empty() =~= before);
    while i < ss.len()
        invariant
            i <= ss@.len(),
            fields_view(fs@) == before + strings_field(n, strings_view(ss@.subrange(0, i as int))),
        decreases ss@.len() - i,
    {
        let b = utf8_bytes(&ss[i]);
        push_payload(fs, n, b);
        proof {
            let next = strings_view(ss@.subrange(0, i + 1));
            assert(next.drop_last() =~= strings_view(ss@.subrange(0, i as int)));
            assert(next.last() == ss@[i as int]@);
        }
        i = i + 1;
    }
    assert(ss@.subrange(0, ss@.len() as int) =~= ss@);
}

/// Appends the fields of a repeated nested message, given by the encodings
/// of its elements.
pub fn push_messages(fs: &mut Vec<Field>, n: u32, ms: Vec<Vec<u8>>)
    ensures
        fields_view(final(fs)@) == fields_view(old(fs)@) + messages_field(n, bytes_view(ms@)),
{
    let ghost before = fields_view(fs@);
    let mut i: usize = 0;
    assert(bytes_view(ms@.subrange(0, 0)) =~= Seq::<Seq<u8>>::empty());
    assert(before + Seq::<FieldV>::empty() =~= before);
    while i < ms.len()
        invariant
            i <= ms@.len(),
            fields_view(fs@) == before + messages_field(n, bytes_view(ms@.subrange(0, i as int))),
        decreases ms@.len() - i,
    {
        push_payload(fs, n, ms[i].clone());
        proof {
            let next = bytes_view(ms@.subrange(0, i + 1));
            assert(next.drop_last() =~= bytes_view(ms@.subrange(0, i as int)));
            assert(next.last() == ms@[i as int]@);
        }
        i = i + 1;
    }
    assert(ms@.subrange(0, ms@.len() as int) =~= ms@);
}

/// Appends the fields of a repeated enumeration, packed.
pub fn push_packed(fs: &mut Vec<Field>, n: u32, vs: &Vec<i32>)
    ensures
        fields_view(final(fs)@) == fields_view(old(fs)@) + packed_field(n, vs@),
{
    let ghost before = fields_view(fs@);
    if vs.len() == 0 {
        assert(fields_view(fs@) =~= before + packed_field(n, vs@));
        return;
    }
    let ghost wide = vs@.map_values(|v: i32| v as u64);
    let mut b: Vec<u8> = Vec::new();
    let mut i: usize = 0;
    while i < vs.len()
        invariant
            i <= vs@.len(),
            wide == vs@.map_values(|v: i32| v as u64),
            b@ == packed_bytes(wide.subrange(0, i as int)),
        decreases vs@.len() - i,
    {
        crate::wire::put_varint(&mut b, vs[i] as u64);
        assert(wide.subrange(0, i + 1).drop_last() =~= wide.subrange(0, i as int));
        i = i + 1;
    }
    assert(wide.subrange(0, vs@.len() as int) =~= wide);
    push_payload(fs, n, b);
}

// ---------------------------------------------------------------------------
// Reading fields
// ---------------------------------------------------------------------------

/// The varint scalar numbered `n`; an error when such a field has another
/// wire type.
pub fn get_varint_value(fs: &Vec<Field>, n: u32) -> (r: Result<u64, DecodeError>)
    ensures
        r is Ok <==> all_of_type(fields_view(fs@), n, 0),
        r matches Ok(v) ==> v == varint_value(fields_view(fs@), n),
{
    let ghost all = fields_view(fs@);
    assert(all_of_type(all.subrange(0, 0), n, 0)) by {
        reveal(all_of_type);
    }
    let mut v: u64 = 0;
    let mut i: usize = 0;
    while i < fs.len()
        invariant
            i <= fs@.len(),
            all == fields_view(fs@),
            all_of_type(all.subrange(0, i as int), n, 0),
            v == varint_value(all.subrange(0, i as int), n),
        decreases fs@.len() - i,
    {
        let ghost pre = all.subrange(0, i as int);
        let ghost next = all.subrange(0, i + 1);
        assert(next.drop_last() =~= pre);
        assert(next.last() == fs@[i as int]@);
        if fs[i].number == n {
            match &fs[i].value {
                WireValue::Varint(x) => {
                    v = *x;
                },
                _ => {
                    assert(!all_of_type(all, n, 0)) by {
                        reveal(all_of_type);
                        assert(all[i as int] == fs@[i as int]@);
                        assert(all[i as int].number == n);
                        assert(wire_type(all[i as int].value) != 0);
                    }
                    return Err(DecodeError);
                },
            }
        }
        assert(all_of_type(next, n, 0)) by {
            reveal(all_of_type);
            assert forall|j: int| 0 <= j < next.len() && #[trigger] next[j].number == n implies wire_type(
                next[j].value,
            ) == 0 by {
                if j < i {
                    assert(next[j] == pre[j]);
                }
            }
        }
        proof {
            lemma_last_index_step(next, n);
        }
        i = i + 1;
    }
    assert(all.subrange(0, fs@.len() as int) =~= all);
    Ok(v)
}

/// `last_index` of a nonempty sequence, by its last element.
pub proof fn lemma_last_index_step(fs: Seq<FieldV>, n: u32)
    requires
        fs.len() > 0,
    ensures
        fs.last().number == n ==> last_index(fs, n) == fs.len() - 1,
        fs.last().number != n ==> last_index(fs, n) == last_index(fs.drop_last(), n),
        fs.last().number != n && last_index(fs, n) >= 0 ==> fs[last_index(fs, n)] == fs.drop_last()[last_index(fs, n)],
{
    lemma_last_index_range(fs.drop_last(), n);
}

/// `last_index` names a field of that number, or is -1.
pub proof fn lemma_last_index_range(fs: Seq<FieldV>, n: u32)
    ensures
        -1 <= last_index(fs, n) < fs.len(),
        last_index(fs, n) >= 0 ==> fs[last_index(fs, n)].number == n,
    decreases fs.len(),
{
    if fs.len() > 0 && fs.last().number != n {
        lemma_last_index_range(fs.drop_last(), n);
    }
}


/// Every field whose number is one of `ns` is length-delimited.
#[verifier::opaque]
pub open spec fn oneof_ok(fs: Seq<FieldV>, ns: Seq<u32>) -> bool {
    forall|i: int| 0 <= i < fs.len() && ns.contains(#[trigger] fs[i].number) ==> fs[i].value is Bytes
}

/// The member that a oneof of length-delimited members holds after reading
/// `fs`: the number of the last field among `ns`, the payloads of that
/// member joined since another member last appeared (a nested message
/// merges), and its last payload alone (a byte string is replaced).
pub open spec fn oneof_value(fs: Seq<FieldV>, ns: Seq<u32>) -> Option<(u32, Seq<u8>, Seq<u8>)>
    decreases fs.len(),
{
    if fs.len() == 0 {
        None
    } else {
        let prev = oneof_value(fs.drop_last(), ns);
        let f = fs.last();
        if ns.contains(f.number) {
            let p = payload_of(f.value);
            match prev {
                Some((t, j, _)) => if t == f.number {
                    Some((t, j + p, p))
                } else {
                    Some((f.number, p, p))
                },
                None => Some((f.number, p, p)),
            }
        } else {
            prev
        }
    }
}

/// Steps shared by the readers: the prefix of length `i + 1` ends with the
/// field at `i`, after the prefix of length `i`.
proof fn lemma_prefix_step(fs: Seq<Field>, i: int)
    requires
        0 <= i < fs.len(),
    ensures
        fields_view(fs).subrange(0, i + 1).drop_last() == fields_view(fs).subrange(0, i),
        fields_view(fs).subrange(0, i + 1).last() == fs[i]@,
        fields_view(fs)[i] == fs[i]@,
{
    assert(fields_view(fs).subrange(0, i + 1).drop_last() =~= fields_view(fs).subrange(0, i));
}

/// The string numbered `n`; an error when such a field is not a
/// length-delimited payload of valid UTF-8.
pub fn get_string(fs: &Vec<Field>, n: u32) -> (r: Result<String, DecodeError>)
    ensures
        r is Ok <==> all_text(fields_view(fs@), n),
        r matches Ok(s) ==> s@ == string_value(fields_view(fs@), n),
{
    let ghost all = fields_view(fs@);
    assert(all_text(all.subrange(0, 0), n)) by {
        reveal(all_text);
    }
    let mut cur = String::new();
    let mut i: usize = 0;
    while i < fs.len()
        invariant
            i <= fs@.len(),
            all == fields_view(fs@),
            all_text(all.subrange(0, i as int), n),
            cur@ == string_value(all.subrange(0, i as int), n),
        decreases fs@.len() - i,
    {
        let ghost pre = all.subrange(0, i as int);
        let ghost next = all.subrange(0, i + 1);
        proof {
            lemma_prefix_step(fs@, i as int);
            lemma_last_index_step(next, n);
        }
        if fs[i].number == n {
            match &fs[i].value {
                WireValue::Bytes(b) => {
                    match utf8_text(b.as_slice()) {
                        Some(t) => {
                            cur = t;
                        },
                        None => {
                            assert(!all_text(all, n)) by {
                                reveal(all_text);
                                assert(all[i as int].number == n);
                            }
                            return Err(DecodeError);
                        },
                    }
                },
                _ => {
                    assert(!all_text(all, n)) by {
                        reveal(all_text);
                        assert(all[i as int].number == n);
                    }
                    return Err(DecodeError);
                },
            }
        }
        assert(all_text(next, n)) by {
            reveal(all_text);
            assert forall|j: int| 0 <= j < next.len() && #[trigger] next[j].number == n implies next[j].value is Bytes
                && valid_utf8(payload_of(next[j].value)) by {
                if j < i {
                    assert(next[j] == pre[j]);
                }
            }
        }
        i = i + 1;
    }
    assert(all.subrange(0, fs@.len() as int) =~= all);
    Ok(cur)
}

/// The 32-bit scalar numbered `n`; an error when such a field has another
/// wire type.
pub fn get_fixed32_value(fs: &Vec<Field>, n: u32) -> (r: Result<u32, DecodeError>)
    ensures
        r is Ok <==> all_of_type(fields_view(fs@), n, 5),
        r matches Ok(v) ==> v == fixed32_value(fields_view(fs@), n),
{
    let ghost all = fields_view(fs@);
    assert(all_of_type(all.subrange(0, 0), n, 5)) by {
        reveal(all_of_type);
    }
    let mut v: u32 = 0;
    let mut i: usize = 0;
    while i < fs.len()
        invariant
            i <= fs@.len(),
            all == fields_view(fs@),
            all_of_type(all.subrange(0, i as int), n, 5),
            v == fixed32_value(all.subrange(0, i as int), n),
        decreases fs@.len() - i,
    {
        let ghost pre = all.subrange(0, i as int);
        let ghost next = all.subrange(0, i + 1);
        proof {
            lemma_prefix_step(fs@, i as int);
            lemma_last_index_step(next, n);
        }
        if fs[i].number == n {
            match &fs[i].value {
                WireValue::Fixed32(x) => {
                    v = *x;
                },
                _ => {
                    assert(!all_of_type(all, n, 5)) by {
                        reveal(all_of_type);
                        assert(all[i as int].number == n);
                        assert(wire_type(all[i as int].value) != 5);
                    }
                    return Err(DecodeError);
                },
            }
        }
        assert(all_of_type(next, n, 5)) by {
            reveal(all_of_type);
            assert forall|j: int| 0 <= j < next.len() && #[trigger] next[j].number == n implies wire_type(
                next[j].value,
            ) == 5 by {
                if j < i {
                    assert(next[j] == pre[j]);
                }
            }
        }
        i = i + 1;
    }
    assert(all.subrange(0, fs@.len() as int) =~= all);
    Ok(v)
}

/// Every element of the repeated string numbered `n`; an error when such a
/// field is not a length-delimited payload of valid UTF-8.
pub fn get_strings(fs: &Vec<Field>, n: u32) -> (r: Result<Vec<String>, DecodeError>)
    ensures
        r is Ok <==> all_text(fields_view(fs@), n),
        r matches Ok(ss) ==> strings_view(ss@) == strings_value(fields_view(fs@), n),
{
    let ghost all = fields_view(fs@);
    assert(all_text(all.subrange(0, 0), n)) by {
        reveal(all_text);
    }
    let mut out: Vec<String> = Vec::new();
    let mut i: usize = 0;
    while i < fs.len()
        invariant
            i <= fs@.len(),
            all == fields_view(fs@),
            all_text(all.subrange(0, i as int), n),
            strings_view(out@) == strings_value(all.subrange(0, i as int), n),
        decreases fs@.len() - i,
    {
        let ghost pre = all.subrange(0, i as int);
        let ghost next = all.subrange(0, i + 1);
        proof {
            lemma_prefix_step(fs@, i as int);
        }
        if fs[i].number == n {
            match &fs[i].value {
                WireValue::Bytes(b) => {
                    match utf8_text(b.as_slice()) {
                        Some(t) => {
                            let ghost before = out@;
                            out.push(t);
                            assert(strings_view(out@) =~= strings_view(before).push(t@));
                        },
                        None => {
                            assert(!all_text(all, n)) by {
                                reveal(all_text);
                                assert(all[i as int].number == n);
                            }
                            return Err(DecodeError);
                        },
                    }
                },
                _ => {
                    assert(!all_text(all, n)) by {
                        reveal(all_text);
                        assert(all[i as int].number == n);
                    }
                    return Err(DecodeError);
                },
            }
        }
        assert(all_text(next, n)) by {
            reveal(all_text);
            assert forall|j: int| 0 <= j < next.len() && #[trigger] next[j].number == n implies next[j].value is Bytes
                && valid_utf8(payload_of(next[j].value)) by {
                if j < i {
                    assert(next[j] == pre[j]);
                }
            }
        }
        i = i + 1;
    }
    assert(all.subrange(0, fs@.len() as int) =~= all);
    Ok(out)
}

/// The payloads of the fields numbered `n`, each one apart (the elements
/// of a repeated nested message), and joined in order (a singular nested
/// message, `None` when absent); an error when such a field is not
/// length-delimited.
pub fn get_payloads(fs: &Vec<Field>, n: u32) -> (r: Result<(Vec<Vec<u8>>, Option<Vec<u8>>), DecodeError>)
    ensures
        r is Ok <==> all_of_type(fields_view(fs@), n, 2),
        r matches Ok((each, joined)) ==> bytes_view(each@) == payloads_value(fields_view(fs@), n)
            && match joined {
            Some(j) => message_value(fields_view(fs@), n) == Some(j@),
            None => message_value(fields_view(fs@), n) is None,
        },
{
    let ghost all = fields_view(fs@);
    assert(all_of_type(all.subrange(0, 0), n, 2)) by {
        reveal(all_of_type);
    }
    let mut each: Vec<Vec<u8>> = Vec::new();
    let mut joined: Vec<u8> = Vec::new();
    let mut seen = false;
    let mut i: usize = 0;
    while i < fs.len()
        invariant
            i <= fs@.len(),
            all == fields_view(fs@),
            all_of_type(all.subrange(0, i as int), n, 2),
            bytes_view(each@) == payloads_value(all.subrange(0, i as int), n),
            joined@ == joined_value(all.subrange(0, i as int), n),
            seen == (last_index(all.subrange(0, i as int), n) >= 0),
        decreases fs@.len() - i,
    {
        let ghost pre = all.subrange(0, i as int);
        let ghost next = all.subrange(0, i + 1);
        proof {
            lemma_prefix_step(fs@, i as int);
            lemma_last_index_step(next, n);
        }
        if fs[i].number == n {
            match &fs[i].value {
                WireValue::Bytes(b) => {
                    let ghost before = each@;
                    let ghost jb = joined@;
                    each.push(b.clone());
                    assert(bytes_view(each@) =~= bytes_view(before).push(b@));
                    let mut k: usize = 0;
                    while k < b.len()
                        invariant
                            k <= b@.len(),
                            joined@ == jb + b@.subrange(0, k as int),
                        decreases b@.len() - k,
                    {
                        joined.push(b[k]);
                        k = k + 1;
                        assert(joined@ =~= jb + b@.subrange(0, k as int));
                    }
                    assert(b@.subrange(0, b@.len() as int) =~= b@);
                    seen = true;
                },
                _ => {
                    assert(!all_of_type(all, n, 2)) by {
                        reveal(all_of_type);
                        assert(all[i as int].number == n);
                        assert(wire_type(all[i as int].value) != 2);
                    }
                    return Err(DecodeError);
                },
            }
        }
        assert(all_of_type(next, n, 2)) by {
            reveal(all_of_type);
            assert forall|j: int| 0 <= j < next.len() && #[trigger] next[j].number == n implies wire_type(
                next[j].value,
            ) == 2 by {
                if j < i {
                    assert(next[j] == pre[j]);
                }
            }
        }
        i = i + 1;
    }
    assert(all.subrange(0, fs@.len() as int) =~= all);
    if seen {
        Ok((each, Some(joined)))
    } else {
        Ok((each, None))
    }
}

/// The varints that `b` holds one after another.
pub fn get_packed_varints(b: &[u8]) -> (r: Option<Vec<u64>>)
    ensures
        r matches Some(vs) ==> parse_packed(b@) == Some(vs@),
        r is None ==> parse_packed(b@) is None,
{
    let mut out: Vec<u64> = Vec::new();
    let mut pos: usize = 0;
    proof {
        assert(b@.skip(0) =~= b@);
        match parse_packed(b@) {
            Some(all) => {
                assert(Seq::<u64>::empty() + all =~= all);
            },
            None => {},
        }
    }
    while pos < b.len()
        invariant
            pos <= b@.len(),
            parse_packed(b@) == match parse_packed(b@.skip(pos as int)) {
                Some(rest) => Some(out@ + rest),
                None => None::<Seq<u64>>,
            },
        decreases b@.len() - pos,
    {
        let ghost s = b@.skip(pos as int);
        let ghost before = out@;
        match get_varint(b, pos) {
            Some((v, next)) => {
                proof {
                    assert(b@.skip(next as int) =~= s.skip(next - pos));
                    match parse_packed(s.skip(next - pos)) {
                        Some(rest) => {
                            assert(before + (seq![v] + rest) =~= before.push(v) + rest);
                        },
                        None => {},
                    }
                }
                out.push(v);
                pos = next;
            },
            None => {
                return None;
            },
        }
    }
    assert(b@.skip(pos as int) =~= Seq::<u8>::empty());
    assert(out@ + Seq::<u64>::empty() =~= out@);
    Some(out)
}

/// Every value of the repeated enumeration numbered `n`, packed or not,
/// each cut to 32 bits; an error when such a field is neither form.
pub fn get_packed(fs: &Vec<Field>, n: u32) -> (r: Result<Vec<i32>, DecodeError>)
    ensures
        r is Ok <==> packed_value(fields_view(fs@), n) is Some,
        r matches Ok(vs) ==> vs@ == packed_value(fields_view(fs@), n)->Some_0.map_values(
            |v: u64| v as i32,
        ),
{
    let ghost all = fields_view(fs@);
    let mut out: Vec<i32> = Vec::new();
    let mut i: usize = 0;
    while i < fs.len()
        invariant
            i <= fs@.len(),
            all == fields_view(fs@),
            packed_value(all.subrange(0, i as int), n) is Some,
            out@ == packed_value(all.subrange(0, i as int), n)->Some_0.map_values(|v: u64| v as i32),
        decreases fs@.len() - i,
    {
        let ghost next = all.subrange(0, i + 1);
        let ghost front = packed_value(all.subrange(0, i as int), n)->Some_0;
        proof {
            lemma_prefix_step(fs@, i as int);
        }
        if fs[i].number == n {
            match &fs[i].value {
                WireValue::Varint(x) => {
                    out.push(*x as i32);
                    assert(out@ =~= (front + seq![*x]).map_values(|v: u64| v as i32));
                },
                WireValue::Bytes(b) => {
                    match get_packed_varints(b.as_slice()) {
                        Some(vs) => {
                            let ghost o = out@;
                            let mut k: usize = 0;
                            while k < vs.len()
                                invariant
                                    k <= vs@.len(),
                                    out@ == o + vs@.subrange(0, k as int).map_values(|v: u64| v as i32),
                                decreases vs@.len() - k,
                            {
                                out.push(vs[k] as i32);
                                k = k + 1;
                                assert(out@ =~= o + vs@.subrange(0, k as int).map_values(
                                    |v: u64| v as i32,
                                ));
                            }
                            assert(vs@.subrange(0, vs@.len() as int) =~= vs@);
                            assert(out@ =~= (front + vs@).map_values(|v: u64| v as i32));
                        },
                        None => {
                            proof {
                                lemma_packed_none(all, i as int, n);
                            }
                            return Err(DecodeError);
                        },
                    }
                },
                _ => {
                    proof {
                        lemma_packed_none(all, i as int, n);
                    }
                    return Err(DecodeError);
                },
            }
        }
        i = i + 1;
    }
    assert(all.subrange(0, fs@.len() as int) =~= all);
    Ok(out)
}

/// Once a prefix has no packed reading, no longer one has.
proof fn lemma_packed_none(fs: Seq<FieldV>, i: int, n: u32)
    requires
        0 <= i < fs.len(),
        fs[i].number == n,
        packed_part(fs[i].value) is None,
    ensures
        packed_value(fs, n) is None,
    decreases fs.len(),
{
    if i == fs.len() - 1 {
    } else {
        assert(fs.drop_last()[i] == fs[i]);
        lemma_packed_none(fs.drop_last(), i, n);
    }
}

/// The member that the oneof of members `ns` holds, as [`oneof_value`]
/// gives it; an error when a field of a member is not length-delimited.
pub fn get_oneof(fs: &Vec<Field>, ns: &Vec<u32>) -> (r: Result<Option<(u32, Vec<u8>, Vec<u8>)>, DecodeError>)
    ensures
        r is Ok <==> oneof_ok(fields_view(fs@), ns@),
        r matches Ok(o) ==> match o {
            Some((t, j, l)) => oneof_value(fields_view(fs@), ns@) == Some((t, j@, l@)),
            None => oneof_value(fields_view(fs@), ns@) is None,
        },
{
    let ghost all = fields_view(fs@);
    assert(oneof_ok(all.subrange(0, 0), ns@)) by {
        reveal(oneof_ok);
    }
    let mut cur: Option<(u32, Vec<u8>, Vec<u8>)> = None;
    let mut i: usize = 0;
    while i < fs.len()
        invariant
            i <= fs@.len(),
            all == fields_view(fs@),
            oneof_ok(all.subrange(0, i as int), ns@),
            match cur {
                Some((t, j, l)) => oneof_value(all.subrange(0, i as int), ns@) == Some((t, j@, l@)),
                None => oneof_value(all.subrange(0, i as int), ns@) is None,
            },
        decreases fs@.len() - i,
    {
        let ghost pre = all.subrange(0, i as int);
        let ghost next = all.subrange(0, i + 1);
        proof {
            lemma_prefix_step(fs@, i as int);
        }
        let num = fs[i].number;
        let mut member = false;
        let mut k: usize = 0;
        while k < ns.len()
            invariant
                k <= ns@.len(),
                member == ns@.subrange(0, k as int).contains(num),
            decreases ns@.len() - k,
        {
            if ns[k] == num {
                member = true;
            }
            proof {
                let sub = ns@.subrange(0, k + 1);
                if sub.contains(num) {
                    let w = choose|w: int| 0 <= w < sub.len() && sub[w] == num;
                    if w < k {
                        assert(ns@.subrange(0, k as int)[w] == num);
                    }
                }
                if ns@.subrange(0, k as int).contains(num) {
                    let w = choose|w: int| 0 <= w < k && ns@.subrange(0, k as int)[w] == num;
                    assert(sub[w] == num);
                }
                if ns@[k as int] == num {
                    assert(sub[k as int] == num);
                }
            }
            k = k + 1;
        }
        assert(ns@.subrange(0, ns@.len() as int) =~= ns@);
        if member {
            match &fs[i].value {
                WireValue::Bytes(b) => {
                    let p = b.clone();
                    cur = match cur {
                        Some((t, j, _)) => {
                            if t == num {
                                let mut j2 = j;
                                let ghost jb = j2@;
                                let mut m: usize = 0;
                                while m < p.len()
                                    invariant
                                        m <= p@.len(),
                                        j2@ == jb + p@.subrange(0, m as int),
                                    decreases p@.len() - m,
                                {
                                    j2.push(p[m]);
                                    m = m + 1;
                                    assert(j2@ =~= jb + p@.subrange(0, m as int));
                                }
                                assert(p@.subrange(0, p@.len() as int) =~= p@);
                                Some((t, j2, p))
                            } else {
                                Some((num, p.clone(), p))
                            }
                        },
                        None => Some((num, p.clone(), p)),
                    };
                },
                _ => {
                    assert(!oneof_ok(all, ns@)) by {
                        reveal(oneof_ok);
                        assert(ns@.contains(all[i as int].number));
                    }
                    return Err(DecodeError);
                },
            }
        }
        assert(oneof_ok(next, ns@)) by {
            reveal(oneof_ok);
            assert forall|j: int| 0 <= j < next.len() && ns@.contains(#[trigger] next[j].number) implies next[j].value is Bytes by {
                if j < i {
                    assert(next[j] == pre[j]);
                }
            }
        }
        i = i + 1;
    }
    assert(all.subrange(0, fs@.len() as int) =~= all);
    Ok(cur)
}


/// The byte string numbered `n`; an error when such a field is not
/// length-delimited.
pub fn get_bytes(fs: &Vec<Field>, n: u32) -> (r: Result<Vec<u8>, DecodeError>)
    ensures
        r is Ok <==> all_of_type(fields_view(fs@), n, 2),
        r matches Ok(b) ==> b@ == bytes_value(fields_view(fs@), n),
{
    let ghost all = fields_view(fs@);
    assert(all_of_type(all.subrange(0, 0), n, 2)) by {
        reveal(all_of_type);
    }
    let mut cur: Vec<u8> = Vec::new();
    let mut i: usize = 0;
    while i < fs.len()
        invariant
            i <= fs@.len(),
            all == fields_view(fs@),
            all_of_type(all.subrange(0, i as int), n, 2),
            cur@ == bytes_value(all.subrange(0, i as int), n),
        decreases fs@.len() - i,
    {
        let ghost pre = all.subrange(0, i as int);
        let ghost next = all.subrange(0, i + 1);
        proof {
            lemma_prefix_step(fs@, i as int);
            lemma_last_index_step(next, n);
        }
        if fs[i].number == n {
            match &fs[i].value {
                WireValue::Bytes(b) => {
                    cur = b.clone();
                },
                _ => {
                    assert(!all_of_type(all, n, 2)) by {
                        reveal(all_of_type);
                        assert(all[i as int].number == n);
                        assert(wire_type(all[i as int].value) != 2);
                    }
                    return Err(DecodeError);
                },
            }
        }
        assert(all_of_type(next, n, 2)) by {
            reveal(all_of_type);
            assert forall|j: int| 0 <= j < next.len() && #[trigger] next[j].number == n implies wire_type(
                next[j].value,
            ) == 2 by {
                if j < i {
                    assert(next[j] == pre[j]);
                }
            }
        }
        i = i + 1;
    }
    assert(all.subrange(0, fs@.len() as int) =~= all);
    Ok(cur)
}

// ---------------------------------------------------------------------------
// String-to-string maps
// ---------------------------------------------------------------------------

/// The entries of a string map as pairs of texts.
pub open spec fn labels_view(ls: Seq<(String, String)>) -> Seq<(Seq<char>, Seq<char>)> {
    ls.map_values(|p: (String, String)| (p.0@, p.1@))
}

/// The encoding of one map entry: a message with the key as field 1 and
/// the value as field 2, each left out when empty.
pub open spec fn entry_bytes(k: Seq<char>, v: Seq<char>) -> Seq<u8> {
    crate::field::fields_bytes(string_field(1, k) + string_field(2, v))
}

/// The encodings of the entries of a map, in order.
pub open spec fn labels_encoding(ls: Seq<(Seq<char>, Seq<char>)>) -> Seq<Seq<u8>> {
    ls.map_values(|p: (Seq<char>, Seq<char>)| entry_bytes(p.0, p.1))
}

/// Index of the entry with key `k`, or -1.
pub open spec fn key_index(ls: Seq<(Seq<char>, Seq<char>)>, k: Seq<char>) -> int
    decreases ls.len(),
{
    if ls.len() == 0 {
        -1
    } else if ls.last().0 == k {
        ls.len() - 1
    } else {
        key_index(ls.drop_last(), k)
    }
}

/// The map `ls` with `k` bound to `v`: the value of an existing entry is
/// replaced in place, a new key is added at the end.
pub open spec fn labels_insert(ls: Seq<(Seq<char>, Seq<char>)>, k: Seq<char>, v: Seq<char>) -> Seq<
    (Seq<char>, Seq<char>),
> {
    let i = key_index(ls, k);
    if i >= 0 {
        ls.update(i, (k, v))
    } else {
        ls.push((k, v))
    }
}

/// The entry that an entry payload decodes to.
pub open spec fn entry_value(p: Seq<u8>) -> (Seq<char>, Seq<char>) {
    let fs = crate::field::parse_fields(p)->Some_0;
    (string_value(fs, 1), string_value(fs, 2))
}

/// An entry payload is well-formed: fields, with text keys and values.
pub open spec fn entry_ok(p: Seq<u8>) -> bool {
    crate::field::parse_fields(p) matches Some(fs) && all_text(fs, 1) && all_text(fs, 2)
}

/// Every entry payload is well-formed.
pub open spec fn labels_ok(ps: Seq<Seq<u8>>) -> bool {
    forall|i: int| 0 <= i < ps.len() ==> entry_ok(#[trigger] ps[i])
}

/// The map that entry payloads decode to, each entry inserted in turn.
pub open spec fn labels_value(ps: Seq<Seq<u8>>) -> Seq<(Seq<char>, Seq<char>)>
    decreases ps.len(),
{
    if ps.len() == 0 {
        seq![]
    } else {
        let e = entry_value(ps.last());
        labels_insert(labels_value(ps.drop_last()), e.0, e.1)
    }
}

/// Proof that `key_index` names an entry with that key, or is -1.
pub proof fn lemma_key_index(ls: Seq<(Seq<char>, Seq<char>)>, k: Seq<char>)
    ensures
        -1 <= key_index(ls, k) < ls.len(),
        key_index(ls, k) >= 0 ==> ls[key_index(ls, k)].0 == k,
        key_index(ls, k) < 0 ==> forall|j: int| 0 <= j < ls.len() ==> #[trigger] ls[j].0 != k,
    decreases ls.len(),
{
    if ls.len() > 0 && ls.last().0 != k {
        lemma_key_index(ls.drop_last(), k);
        if key_index(ls, k) < 0 {
            assert forall|j: int| 0 <= j < ls.len() implies #[trigger] ls[j].0 != k by {
                if j < ls.len() - 1 {
                    assert(ls[j] == ls.drop_last()[j]);
                }
            }
        }
    }
}

/// Binds `k` to `v` in the map `ls`.
pub fn insert_label(ls: &mut Vec<(String, String)>, k: String, v: String)
    ensures
        labels_view(final(ls)@) == labels_insert(labels_view(old(ls)@), k@, v@),
{
    let ghost lv = labels_view(ls@);
    let len = ls.len();
    let mut found: usize = len;
    let mut i: usize = len;
    assert(lv.subrange(0, len as int) =~= lv);
    while i > 0 && found == len
        invariant
            i <= len,
            len == ls@.len(),
            lv == labels_view(ls@),
            found == len ==> key_index(lv, k@) == key_index(lv.subrange(0, i as int), k@),
            found < len ==> key_index(lv, k@) == found,
            found <= len,
        decreases i,
    {
        let ghost sub = lv.subrange(0, i as int);
        assert(sub.drop_last() =~= lv.subrange(0, i - 1));
        assert(sub.last() == lv[i - 1]);
        assert(lv[i - 1].0 == ls@[i - 1].0@);
        if ls[i - 1].0 == k {
            found = i - 1;
        }
        i = i - 1;
    }
    proof {
        lemma_key_index(lv, k@);
        if found == len {
            assert(lv.subrange(0, i as int) =~= Seq::<(Seq<char>, Seq<char>)>::empty());
        }
    }
    if found < len {
        ls.set(found, (k, v));
        assert(labels_view(ls@) =~= lv.update(found as int, (k@, v@)));
    } else {
        ls.push((k, v));
        assert(labels_view(ls@) =~= lv.push((k@, v@)));
    }
}

/// The encodings of the entries of a map.
pub fn encode_labels(ls: &Vec<(String, String)>) -> (r: Vec<Vec<u8>>)
    ensures
        bytes_view(r@) == labels_encoding(labels_view(ls@)),
{
    let mut out: Vec<Vec<u8>> = Vec::new();
    let mut i: usize = 0;
    while i < ls.len()
        invariant
            i <= ls@.len(),
            bytes_view(out@) == labels_encoding(labels_view(ls@.subrange(0, i as int))),
        decreases ls@.len() - i,
    {
        let mut fs: Vec<Field> = Vec::new();
        assert(fields_view(fs@) =~= Seq::<FieldV>::empty());
        push_string(&mut fs, 1, &ls[i].0);
        push_string(&mut fs, 2, &ls[i].1);
        assert(fields_view(fs@) =~= string_field(1, ls@[i as int].0@) + string_field(2, ls@[i as int].1@));
        let b = crate::field::encode_fields(&fs);
        assert(b@ == entry_bytes(ls@[i as int].0@, ls@[i as int].1@));
        let ghost before = out@;
        out.push(b);
        assert(labels_view(ls@.subrange(0, i + 1)) =~= labels_view(ls@.subrange(0, i as int)).push(
            (ls@[i as int].0@, ls@[i as int].1@),
        ));
        proof {
            let pre = labels_view(ls@.subrange(0, i as int));
            let e = (ls@[i as int].0@, ls@[i as int].1@);
            assert(labels_encoding(pre.push(e)) =~= labels_encoding(pre).push(entry_bytes(e.0, e.1)));
            assert(bytes_view(out@) =~= bytes_view(before).push(b@));
        }
        i = i + 1;
    }
    assert(ls@.subrange(0, ls@.len() as int) =~= ls@);
    out
}

/// The map that entry payloads decode to; an error when one is not a
/// well-formed entry.
pub fn decode_labels(ps: &Vec<Vec<u8>>) -> (r: Result<Vec<(String, String)>, DecodeError>)
    ensures
        r is Ok <==> labels_ok(bytes_view(ps@)),
        r matches Ok(ls) ==> labels_view(ls@) == labels_value(bytes_view(ps@)),
{
    let ghost pv = bytes_view(ps@);
    let mut out: Vec<(String, String)> = Vec::new();
    let mut i: usize = 0;
    while i < ps.len()
        invariant
            i <= ps@.len(),
            pv == bytes_view(ps@),
            forall|j: int| 0 <= j < i ==> entry_ok(#[trigger] pv[j]),
            labels_view(out@) == labels_value(pv.subrange(0, i as int)),
        decreases ps@.len() - i,
    {
        assert(pv[i as int] == ps@[i as int]@);
        let fs = match crate::field::decode_fields(ps[i].as_slice()) {
            Ok(fs) => fs,
            Err(e) => {
                return Err(e);
            },
        };
        let k = match get_string(&fs, 1) {
            Ok(s) => s,
            Err(e) => {
                return Err(e);
            },
        };
        let v = match get_string(&fs, 2) {
            Ok(s) => s,
            Err(e) => {
                return Err(e);
            },
        };
        assert(pv.subrange(0, i + 1).drop_last() =~= pv.subrange(0, i as int));
        assert(pv.subrange(0, i + 1).last() == ps@[i as int]@);
        insert_label(&mut out, k, v);
        i = i + 1;
    }
    assert(pv.subrange(0, ps@.len() as int) =~= pv);
    Ok(out)
}

} // verus!
