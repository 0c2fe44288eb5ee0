//! Why decoding undoes encoding: every value read from decoded fields
//! depends only on the fields of its own number, and the fields that a
//! value becomes read back as that value.
use vstd::prelude::*;
use vstd::utf8::{decode_utf8, encode_utf8, encode_utf8_decode_utf8, encode_utf8_valid_utf8, valid_utf8};
use crate::codec::{
    all_of_type, all_text, bytes_field, bytes_value, entry_bytes, entry_ok, entry_value, fixed32_value,
    float_field, joined_value, key_index, labels_encoding, labels_insert, labels_ok, labels_value,
    last_index, lemma_key_index, lemma_last_index_range, lemma_last_index_step, message_field,
    message_value, messages_field, oneof_ok, oneof_value, packed_bytes, packed_field, packed_part,
    packed_value, parse_packed, payload_field, payload_of, payloads_value, string_field, string_value,
    strings_field, strings_value, varint_field, varint_value,
};
use crate::field::{
    field_bytes, field_ok, fields_bytes, fields_ok, lemma_fields_round_trip,
    parse_fields, wire_type, FieldV, WireValueV, MAX_FIELD_NUMBER,
};
use crate::wire::{lemma_parse_varint_bytes, parse_varint, varint_bytes};

verus! {

broadcast use {encode_utf8_decode_utf8, encode_utf8_valid_utf8};

/// No field of `fs` is numbered `n`.
pub open spec fn no_field(fs: Seq<FieldV>, n: u32) -> bool {
    forall|i: int| 0 <= i < fs.len() ==> #[trigger] fs[i].number != n
}

/// Every field of `fs` is numbered `n`.
pub open spec fn only_number(fs: Seq<FieldV>, n: u32) -> bool {
    forall|i: int| 0 <= i < fs.len() ==> #[trigger] fs[i].number == n
}

/// No field of `fs` is numbered as a member of `ns`.
pub open spec fn no_member(fs: Seq<FieldV>, ns: Seq<u32>) -> bool {
    forall|i: int| 0 <= i < fs.len() ==> !ns.contains(#[trigger] fs[i].number)
}

/// Every field number of `fs` is one that a key can carry.
pub open spec fn numbers_ok(fs: Seq<FieldV>) -> bool {
    forall|i: int| 0 <= i < fs.len() ==> 1 <= #[trigger] fs[i].number <= MAX_FIELD_NUMBER
}

/// `x` and `y` give the same value for number `n`, whatever its kind.
pub open spec fn agree(x: Seq<FieldV>, y: Seq<FieldV>, n: u32) -> bool {
    &&& message_value(x, n) == message_value(y, n)
    &&& joined_value(x, n) == joined_value(y, n)
    &&& varint_value(x, n) == varint_value(y, n)
    &&& fixed32_value(x, n) == fixed32_value(y, n)
    &&& string_value(x, n) == string_value(y, n)
    &&& bytes_value(x, n) == bytes_value(y, n)
    &&& strings_value(x, n) == strings_value(y, n)
    &&& payloads_value(x, n) == payloads_value(y, n)
    &&& packed_value(x, n) == packed_value(y, n)
    &&& all_of_type(x, n, 0) == all_of_type(y, n, 0)
    &&& all_of_type(x, n, 2) == all_of_type(y, n, 2)
    &&& all_of_type(x, n, 5) == all_of_type(y, n, 5)
    &&& all_text(x, n) == all_text(y, n)
}

/// `x` and `y` give the same member for the oneof of numbers `ns`.
pub open spec fn oneof_agree(x: Seq<FieldV>, y: Seq<FieldV>, ns: Seq<u32>) -> bool {
    &&& oneof_value(x, ns) == oneof_value(y, ns)
    &&& oneof_ok(x, ns) == oneof_ok(y, ns)
}

/// The well-formedness checks of a sequence, by its last field.
proof fn lemma_checks_step(fs: Seq<FieldV>, n: u32)
    requires
        fs.len() > 0,
    ensures
        fs.last().number != n ==> (all_of_type(fs, n, 0) == all_of_type(fs.drop_last(), n, 0)
            && all_of_type(fs, n, 2) == all_of_type(fs.drop_last(), n, 2) && all_of_type(fs, n, 5)
            == all_of_type(fs.drop_last(), n, 5) && all_text(fs, n) == all_text(fs.drop_last(), n)),
        fs.last().number == n ==> (all_of_type(fs, n, 0) == (all_of_type(fs.drop_last(), n, 0)
            && wire_type(fs.last().value) == 0) && all_of_type(fs, n, 2) == (all_of_type(
            fs.drop_last(),
            n,
            2,
        ) && wire_type(fs.last().value) == 2) && all_of_type(fs, n, 5) == (all_of_type(
            fs.drop_last(),
            n,
            5,
        ) && wire_type(fs.last().value) == 5) && all_text(fs, n) == (all_text(fs.drop_last(), n)
            && fs.last().value is Bytes && valid_utf8(payload_of(fs.last().value)))),
{
    reveal(all_of_type);
    reveal(all_text);
    let d = fs.drop_last();
    let k = fs.len() - 1;
    assert forall|wt: u64| all_of_type(d, n, wt) && (fs.last().number == n ==> wire_type(fs.last().value) == wt)
        implies all_of_type(fs, n, wt) by {
        assert forall|i: int| 0 <= i < fs.len() && #[trigger] fs[i].number == n implies wire_type(fs[i].value) == wt by {
            if i < k {
                assert(fs[i] == d[i]);
            }
        }
    }
    assert forall|wt: u64| all_of_type(fs, n, wt) implies all_of_type(d, n, wt) by {
        assert forall|i: int| 0 <= i < d.len() && #[trigger] d[i].number == n implies wire_type(d[i].value) == wt by {
            assert(fs[i] == d[i]);
        }
    }
    if all_text(d, n) && (fs.last().number == n ==> fs.last().value is Bytes && valid_utf8(payload_of(fs.last().value))) {
        assert forall|i: int| 0 <= i < fs.len() && #[trigger] fs[i].number == n implies fs[i].value is Bytes && valid_utf8(
            payload_of(fs[i].value),
        ) by {
            if i < k {
                assert(fs[i] == d[i]);
            }
        }
    }
    if all_text(fs, n) {
        assert forall|i: int| 0 <= i < d.len() && #[trigger] d[i].number == n implies d[i].value is Bytes && valid_utf8(
            payload_of(d[i].value),
        ) by {
            assert(fs[i] == d[i]);
        }
    }
    if fs.last().number == n {
        assert(fs[k] == fs.last());
    }
}

/// The values of a nonempty sequence, by its last field.
proof fn lemma_values_step(fs: Seq<FieldV>, n: u32)
    requires
        fs.len() > 0,
    ensures
        fs.last().number != n ==> agree(fs, fs.drop_last(), n),
{
    lemma_last_index_step(fs, n);
    lemma_checks_step(fs, n);
}

/// Fields of other numbers added at the end change no value of number `n`.
pub proof fn lemma_agree_suffix(x: Seq<FieldV>, b: Seq<FieldV>, n: u32)
    requires
        no_field(b, n),
    ensures
        agree(x + b, x, n),
    decreases b.len(),
{
    if b.len() == 0 {
        assert(x + b =~= x);
    } else {
        let b1 = b.drop_last();
        assert(no_field(b1, n)) by {
            assert forall|i: int| 0 <= i < b1.len() implies #[trigger] b1[i].number != n by {
                assert(b1[i] == b[i]);
            }
        }
        lemma_agree_suffix(x, b1, n);
        let s = x + b;
        assert(s.drop_last() =~= x + b1);
        assert(s.last() == b.last());
        assert(b.last() == b[b.len() - 1]);
        lemma_values_step(s, n);
    }
}

/// Fields of other numbers added at the front change no value of number `n`.
pub proof fn lemma_agree_prefix(a: Seq<FieldV>, p: Seq<FieldV>, n: u32)
    requires
        no_field(a, n),
    ensures
        agree(a + p, p, n),
    decreases p.len(),
{
    if p.len() == 0 {
        assert(a + p =~= a);
        assert(p =~= Seq::<FieldV>::empty());
        lemma_agree_suffix(Seq::empty(), a, n);
        assert(Seq::<FieldV>::empty() + a =~= a);
    } else {
        let p1 = p.drop_last();
        lemma_agree_prefix(a, p1, n);
        let s = a + p;
        assert(s.drop_last() =~= a + p1);
        assert(s.last() == p.last());
        if p.last().number != n {
            lemma_values_step(s, n);
            lemma_values_step(p, n);
        } else {
            lemma_last_index_step(s, n);
            lemma_last_index_step(p, n);
            lemma_checks_step(s, n);
            lemma_checks_step(p, n);
            assert(s[s.len() - 1] == s.last());
            assert(p[p.len() - 1] == p.last());
            assert(joined_value(s, n) == joined_value(a + p1, n) + payload_of(p.last().value));
            assert(joined_value(p, n) == joined_value(p1, n) + payload_of(p.last().value));
        }
    }
}

/// Fields outside a oneof added at the end leave its member as it was.
pub proof fn lemma_oneof_suffix(x: Seq<FieldV>, b: Seq<FieldV>, ns: Seq<u32>)
    requires
        no_member(b, ns),
    ensures
        oneof_agree(x + b, x, ns),
    decreases b.len(),
{
    if b.len() == 0 {
        assert(x + b =~= x);
    } else {
        let b1 = b.drop_last();
        assert(no_member(b1, ns)) by {
            assert forall|i: int| 0 <= i < b1.len() implies !ns.contains(#[trigger] b1[i].number) by {
                assert(b1[i] == b[i]);
            }
        }
        lemma_oneof_suffix(x, b1, ns);
        let s = x + b;
        assert(s.drop_last() =~= x + b1);
        assert(s.last() == b.last());
        assert(b.last() == b[b.len() - 1]);
        lemma_oneof_ok_step(s, ns);
    }
}

/// Fields outside a oneof added at the front leave its member as it was.
pub proof fn lemma_oneof_prefix(a: Seq<FieldV>, p: Seq<FieldV>, ns: Seq<u32>)
    requires
        no_member(a, ns),
    ensures
        oneof_agree(a + p, p, ns),
    decreases p.len(),
{
    if p.len() == 0 {
        assert(a + p =~= a);
        assert(p =~= Seq::<FieldV>::empty());
        lemma_oneof_suffix(Seq::empty(), a, ns);
        assert(Seq::<FieldV>::empty() + a =~= a);
    } else {
        let p1 = p.drop_last();
        lemma_oneof_prefix(a, p1, ns);
        let s = a + p;
        assert(s.drop_last() =~= a + p1);
        assert(s.last() == p.last());
        lemma_oneof_ok_step(s, ns);
        lemma_oneof_ok_step(p, ns);
    }
}

/// `oneof_ok` of a nonempty sequence, by its last field.
proof fn lemma_oneof_ok_step(fs: Seq<FieldV>, ns: Seq<u32>)
    requires
        fs.len() > 0,
    ensures
        oneof_ok(fs, ns) == (oneof_ok(fs.drop_last(), ns) && (ns.contains(fs.last().number)
            ==> fs.last().value is Bytes)),
{
    reveal(oneof_ok);
    let d = fs.drop_last();
    let k = fs.len() - 1;
    if oneof_ok(d, ns) && (ns.contains(fs.last().number) ==> fs.last().value is Bytes) {
        assert forall|i: int| 0 <= i < fs.len() && ns.contains(#[trigger] fs[i].number) implies fs[i].value is Bytes by {
            if i < k {
                assert(fs[i] == d[i]);
            }
        }
    }
    if oneof_ok(fs, ns) {
        assert forall|i: int| 0 <= i < d.len() && ns.contains(#[trigger] d[i].number) implies d[i].value is Bytes by {
            assert(fs[i] == d[i]);
        }
        assert(fs[k] == fs.last());
    }
}

/// A sequence of fields of one number lacks every other number.
pub proof fn lemma_only_lacks(fs: Seq<FieldV>, n: u32, m: u32)
    requires
        only_number(fs, n),
        n != m,
    ensures
        no_field(fs, m),
{
}

/// Two sequences that lack a number lack it together.
pub proof fn lemma_no_field_add(a: Seq<FieldV>, b: Seq<FieldV>, n: u32)
    requires
        no_field(a, n),
        no_field(b, n),
    ensures
        no_field(a + b, n),
{
    assert forall|i: int| 0 <= i < (a + b).len() implies #[trigger] (a + b)[i].number != n by {
        if i < a.len() {
            assert((a + b)[i] == a[i]);
        } else {
            assert((a + b)[i] == b[i - a.len()]);
        }
    }
}

/// Two sequences outside a oneof are outside it together.
pub proof fn lemma_no_member_add(a: Seq<FieldV>, b: Seq<FieldV>, ns: Seq<u32>)
    requires
        no_member(a, ns),
        no_member(b, ns),
    ensures
        no_member(a + b, ns),
{
    assert forall|i: int| 0 <= i < (a + b).len() implies !ns.contains(#[trigger] (a + b)[i].number) by {
        if i < a.len() {
            assert((a + b)[i] == a[i]);
        } else {
            assert((a + b)[i] == b[i - a.len()]);
        }
    }
}

/// A sequence of fields of a number outside a oneof is outside it.
pub proof fn lemma_only_outside(fs: Seq<FieldV>, n: u32, ns: Seq<u32>)
    requires
        only_number(fs, n),
        !ns.contains(n),
    ensures
        no_member(fs, ns),
{
}

/// Two sequences with writable numbers have them together.
pub proof fn lemma_numbers_ok_add(a: Seq<FieldV>, b: Seq<FieldV>)
    requires
        numbers_ok(a),
        numbers_ok(b),
    ensures
        numbers_ok(a + b),
{
    assert forall|i: int| 0 <= i < (a + b).len() implies 1 <= #[trigger] (a + b)[i].number <= MAX_FIELD_NUMBER by {
        if i < a.len() {
            assert((a + b)[i] == a[i]);
        } else {
            assert((a + b)[i] == b[i - a.len()]);
        }
    }
}

/// Each payload of `fs` is no longer than the encoding of `fs`.
pub proof fn lemma_payloads_within(fs: Seq<FieldV>)
    ensures
        forall|i: int|
            0 <= i < fs.len() ==> payload_of(#[trigger] fs[i].value).len() <= fields_bytes(fs).len(),
    decreases fs.len(),
{
    if fs.len() > 0 {
        lemma_payloads_within(fs.drop_first());
        assert forall|i: int| 0 <= i < fs.len() implies payload_of(#[trigger] fs[i].value).len()
            <= fields_bytes(fs).len() by {
            if i == 0 {
                match fs[0].value {
                    WireValueV::Bytes(b) => {
                        assert(field_bytes(fs[0]) =~= varint_bytes(crate::field::key_of(fs[0])) + (
                        varint_bytes(b.len() as u64) + b));
                    },
                    _ => {},
                }
            } else {
                assert(fs[i] == fs.drop_first()[i - 1]);
            }
        }
    }
}

/// Fields with writable numbers whose encoding fits a 64-bit length can all
/// be written and read back.
pub proof fn lemma_fields_ok_when_small(fs: Seq<FieldV>)
    requires
        numbers_ok(fs),
        fields_bytes(fs).len() <= u64::MAX,
    ensures
        fields_ok(fs),
        parse_fields(fields_bytes(fs)) == Some(fs),
{
    lemma_payloads_within(fs);
    assert forall|i: int| 0 <= i < fs.len() implies field_ok(#[trigger] fs[i]) by {
        assert(1 <= fs[i].number <= MAX_FIELD_NUMBER);
        assert(payload_of(fs[i].value).len() <= fields_bytes(fs).len());
    }
    lemma_fields_round_trip(fs);
}

// ---------------------------------------------------------------------------
// What each kind of value reads back as
// ---------------------------------------------------------------------------

/// A varint scalar reads back as itself.
pub proof fn lemma_varint_piece(n: u32, v: u64)
    ensures
        only_number(varint_field(n, v), n),
        all_of_type(varint_field(n, v), n, 0),
        varint_value(varint_field(n, v), n) == v,
{
    reveal(all_of_type);
    let p = varint_field(n, v);
    if v != 0 {
        assert(p.last() == p[0]);
        assert(p.drop_last() =~= Seq::<FieldV>::empty());
    }
}

/// A float bit pattern reads back as itself, negative zero as zero.
pub proof fn lemma_float_piece(n: u32, bits: u32)
    ensures
        only_number(float_field(n, bits), n),
        all_of_type(float_field(n, bits), n, 5),
        fixed32_value(float_field(n, bits), n) == if bits == 0x8000_0000 {
            0
        } else {
            bits
        },
{
    reveal(all_of_type);
    let p = float_field(n, bits);
    if p.len() > 0 {
        assert(p.last() == p[0]);
        assert(p.drop_last() =~= Seq::<FieldV>::empty());
    }
}

/// A single payload reads back as itself, as a byte string, a nested
/// message or a one-element repeated value.
pub proof fn lemma_payload_piece(n: u32, b: Seq<u8>)
    ensures
        only_number(payload_field(n, b), n),
        all_of_type(payload_field(n, b), n, 2),
        bytes_value(payload_field(n, b), n) == b,
        message_value(payload_field(n, b), n) == Some(b),
        payloads_value(payload_field(n, b), n) == seq![b],
        forall|ns: Seq<u32>| ns.contains(n) ==> #[trigger] oneof_value(payload_field(n, b), ns) == Some((n, b, b)),
        forall|ns: Seq<u32>| #[trigger] oneof_ok(payload_field(n, b), ns),
{
    reveal(all_of_type);
    reveal(oneof_ok);
    let p = payload_field(n, b);
    let e = Seq::<FieldV>::empty();
    assert(p.last() == p[0]);
    assert(p.drop_last() =~= e);
    assert(joined_value(e, n) == Seq::<u8>::empty());
    assert(payloads_value(e, n) == Seq::<Seq<u8>>::empty());
    assert(Seq::<u8>::empty() + b =~= b);
    assert forall|ns: Seq<u32>| ns.contains(n) implies #[trigger] oneof_value(p, ns) == Some((n, b, b)) by {
        assert(oneof_value(e, ns) is None);
        assert(oneof_value(p.drop_last(), ns) is None);
        assert(payload_of(p.last().value) == b);
    }
    assert(Seq::<Seq<u8>>::empty().push(b) =~= seq![b]);
    assert forall|ns: Seq<u32>| #[trigger] oneof_ok(p, ns) by {
        assert forall|i: int| 0 <= i < p.len() && ns.contains(#[trigger] p[i].number) implies p[i].value is Bytes by {
            assert(p[i] == p[0]);
        }
    }
}

/// A byte string reads back as itself.
pub proof fn lemma_bytes_piece(n: u32, b: Seq<u8>)
    ensures
        only_number(bytes_field(n, b), n),
        all_of_type(bytes_field(n, b), n, 2),
        bytes_value(bytes_field(n, b), n) == b,
{
    reveal(all_of_type);
    lemma_payload_piece(n, b);
    if b.len() == 0 {
        assert(b =~= Seq::<u8>::empty());
    }
}

/// A string reads back as itself.
pub proof fn lemma_string_piece(n: u32, s: Seq<char>)
    ensures
        only_number(string_field(n, s), n),
        all_text(string_field(n, s), n),
        string_value(string_field(n, s), n) == s,
{
    reveal(all_text);
    let b = encode_utf8(s);
    lemma_payload_piece(n, b);
    let p = string_field(n, s);
    if b.len() == 0 {
        assert(decode_utf8(b) == s);
        assert(b =~= Seq::<u8>::empty());
        assert(decode_utf8(Seq::<u8>::empty()) =~= Seq::<char>::empty());
    } else {
        assert(p[0].value == WireValueV::Bytes(b));
        assert(valid_utf8(b));
    }
}

/// An optional nested message reads back as its encoding.
pub proof fn lemma_message_piece(n: u32, m: Option<Seq<u8>>)
    ensures
        only_number(message_field(n, m), n),
        all_of_type(message_field(n, m), n, 2),
        message_value(message_field(n, m), n) == m,
{
    reveal(all_of_type);
    match m {
        Some(b) => lemma_payload_piece(n, b),
        None => {},
    }
}

/// A repeated string reads back element for element.
pub proof fn lemma_strings_piece(n: u32, ss: Seq<Seq<char>>)
    ensures
        only_number(strings_field(n, ss), n),
        all_text(strings_field(n, ss), n),
        strings_value(strings_field(n, ss), n) == ss,
    decreases ss.len(),
{
    reveal(all_text);
    let p = strings_field(n, ss);
    if ss.len() == 0 {
        assert(ss =~= Seq::<Seq<char>>::empty());
    } else {
        let front = strings_field(n, ss.drop_last());
        lemma_strings_piece(n, ss.drop_last());
        let last = payload_field(n, encode_utf8(ss.last()));
        assert(p == front + last);
        assert(p.drop_last() =~= front);
        assert(p.last() == last[0]);
        lemma_checks_step(p, n);
        assert(valid_utf8(encode_utf8(ss.last())));
        assert(ss.drop_last().push(ss.last()) =~= ss);
        assert forall|i: int| 0 <= i < p.len() implies #[trigger] p[i].number == n by {
            if i < front.len() {
                assert(p[i] == front[i]);
            } else {
                assert(p[i] == last[0]);
            }
        }
    }
}

/// A repeated nested message reads back as the encodings of its elements.
pub proof fn lemma_messages_piece(n: u32, ms: Seq<Seq<u8>>)
    ensures
        only_number(messages_field(n, ms), n),
        all_of_type(messages_field(n, ms), n, 2),
        payloads_value(messages_field(n, ms), n) == ms,
        forall|i: int| 0 <= i < ms.len() ==> exists|j: int| 0 <= j < messages_field(n, ms).len() && #[trigger] ms[i] == payload_of(messages_field(n, ms)[j].value),
    decreases ms.len(),
{
    reveal(all_of_type);
    let p = messages_field(n, ms);
    if ms.len() == 0 {
        assert(ms =~= Seq::<Seq<u8>>::empty());
    } else {
        let front = messages_field(n, ms.drop_last());
        lemma_messages_piece(n, ms.drop_last());
        let last = payload_field(n, ms.last());
        assert(p == front + last);
        assert(p.drop_last() =~= front);
        assert(p.last() == last[0]);
        lemma_checks_step(p, n);
        assert(ms.drop_last().push(ms.last()) =~= ms);
        assert forall|i: int| 0 <= i < p.len() implies #[trigger] p[i].number == n by {
            if i < front.len() {
                assert(p[i] == front[i]);
            } else {
                assert(p[i] == last[0]);
            }
        }
        assert forall|i: int| 0 <= i < ms.len() implies exists|j: int| 0 <= j < p.len() && #[trigger] ms[i] == payload_of(p[j].value) by {
            if i < ms.len() - 1 {
                assert(ms[i] == ms.drop_last()[i]);
                let j = choose|j: int| 0 <= j < front.len() && ms.drop_last()[i] == payload_of(front[j].value);
                assert(p[j] == front[j]);
            } else {
                assert(p[p.len() - 1] == last[0]);
            }
        }
    }
}

/// The varints of `vs` one after another, split off at the front.
proof fn lemma_packed_bytes_front(vs: Seq<u64>)
    requires
        vs.len() > 0,
    ensures
        packed_bytes(vs) == varint_bytes(vs[0]) + packed_bytes(vs.drop_first()),
    decreases vs.len(),
{
    if vs.len() == 1 {
        assert(vs.drop_last() =~= Seq::<u64>::empty());
        assert(vs.drop_first() =~= Seq::<u64>::empty());
        assert(packed_bytes(Seq::<u64>::empty()) == Seq::<u8>::empty());
        assert(vs.last() == vs[0]);
        assert(packed_bytes(vs) =~= Seq::<u8>::empty() + varint_bytes(vs[0]));
        assert(varint_bytes(vs[0]) + Seq::<u8>::empty() =~= varint_bytes(vs[0]));
    } else {
        lemma_packed_bytes_front(vs.drop_last());
        assert(vs.drop_last().drop_first() =~= vs.drop_first().drop_last());
        assert(vs.drop_first().last() == vs.last());
        assert(vs.drop_last()[0] == vs[0]);
        assert(packed_bytes(vs) =~= varint_bytes(vs[0]) + packed_bytes(vs.drop_first()));
    }
}

/// Packed varints read back as the values written.
proof fn lemma_parse_packed_bytes(vs: Seq<u64>)
    ensures
        parse_packed(packed_bytes(vs)) == Some(vs),
    decreases vs.len(),
{
    if vs.len() == 0 {
    } else {
        lemma_packed_bytes_front(vs);
        let b = packed_bytes(vs);
        let rest = packed_bytes(vs.drop_first());
        lemma_parse_varint_bytes(vs[0], rest);
        assert(b.skip(varint_bytes(vs[0]).len() as int) =~= rest);
        lemma_parse_packed_bytes(vs.drop_first());
        assert(seq![vs[0]] + vs.drop_first() =~= vs);
    }
}

/// A packed repeated enumeration reads back as its values.
pub proof fn lemma_packed_piece(n: u32, vs: Seq<i32>)
    ensures
        only_number(packed_field(n, vs), n),
        packed_value(packed_field(n, vs), n) == Some(vs.map_values(|v: i32| v as u64)),
        packed_value(packed_field(n, vs), n)->Some_0.map_values(|v: u64| v as i32) == vs,
{
    let ws = vs.map_values(|v: i32| v as u64);
    let p = packed_field(n, vs);
    if vs.len() == 0 {
        assert(ws =~= Seq::<u64>::empty());
        assert(p =~= Seq::<FieldV>::empty());
        assert(packed_value(Seq::<FieldV>::empty(), n) == Some(Seq::<u64>::empty()));
        assert(Seq::<u64>::empty().map_values(|v: u64| v as i32) =~= vs);
    } else {
        lemma_payload_piece(n, packed_bytes(ws));
        lemma_parse_packed_bytes(ws);
        assert(p.drop_last() =~= Seq::<FieldV>::empty());
        assert(packed_value(Seq::<FieldV>::empty(), n) == Some(Seq::<u64>::empty()));
        assert(p.last() == p[0]);
        assert(packed_part(p.last().value) == Some(ws));
        assert(Seq::<u64>::empty() + ws =~= ws);
        let back = ws.map_values(|v: u64| v as i32);
        assert forall|i: int| 0 <= i < vs.len() implies #[trigger] back[i] == vs[i] by {
            lemma_int32_cast(vs[i]);
        }
        assert(back =~= vs);
    }
}

/// A 32-bit signed value survives its widening to 64 bits.
pub proof fn lemma_int32_cast(v: i32)
    ensures
        (v as u64) as i32 == v,
{
    assert((v as u64) as i32 == v) by (bit_vector);
}

/// A 64-bit signed value survives its reading as unsigned.
pub proof fn lemma_int64_cast(v: i64)
    ensures
        (v as u64) as i64 == v,
{
    assert((v as u64) as i64 == v) by (bit_vector);
}

// ---------------------------------------------------------------------------
// String maps
// ---------------------------------------------------------------------------

/// The keys of `ls` are distinct, as in a map.
pub open spec fn keys_distinct(ls: Seq<(Seq<char>, Seq<char>)>) -> bool {
    forall|i: int, j: int| 0 <= i < j < ls.len() ==> #[trigger] ls[i].0 != #[trigger] ls[j].0
}

/// A map entry reads back as its key and value.
proof fn lemma_entry_round_trip(k: Seq<char>, v: Seq<char>)
    requires
        entry_bytes(k, v).len() <= u64::MAX,
    ensures
        entry_ok(entry_bytes(k, v)),
        entry_value(entry_bytes(k, v)) == (k, v),
{
    let p1 = string_field(1, k);
    let p2 = string_field(2, v);
    let fs = p1 + p2;
    lemma_string_piece(1, k);
    lemma_string_piece(2, v);
    assert(numbers_ok(p1) && numbers_ok(p2));
    lemma_numbers_ok_add(p1, p2);
    lemma_fields_ok_when_small(fs);
    lemma_agree_suffix(p1, p2, 1);
    lemma_agree_prefix(p1, p2, 2);
}

/// A map whose keys are distinct reads back as itself.
pub proof fn lemma_labels_round_trip(ls: Seq<(Seq<char>, Seq<char>)>)
    requires
        keys_distinct(ls),
        forall|i: int| 0 <= i < ls.len() ==> (#[trigger] labels_encoding(ls)[i]).len() <= u64::MAX,
    ensures
        labels_ok(labels_encoding(ls)),
        labels_value(labels_encoding(ls)) == ls,
    decreases ls.len(),
{
    let enc = labels_encoding(ls);
    if ls.len() == 0 {
        assert(enc =~= Seq::<Seq<u8>>::empty());
    } else {
        let front = ls.drop_last();
        assert(labels_encoding(front) =~= enc.drop_last());
        assert forall|i: int| 0 <= i < front.len() implies (#[trigger] labels_encoding(front)[i]).len() <= u64::MAX by {
            assert(labels_encoding(front)[i] == enc[i]);
        }
        assert(keys_distinct(front)) by {
            assert forall|i: int, j: int| 0 <= i < j < front.len() implies #[trigger] front[i].0 != #[trigger] front[j].0 by {
                assert(front[i] == ls[i] && front[j] == ls[j]);
            }
        }
        lemma_labels_round_trip(front);
        let (k, v) = ls.last();
        assert(enc.last() == entry_bytes(k, v));
        assert(enc.last() == enc[enc.len() - 1]);
        lemma_entry_round_trip(k, v);
        lemma_key_index(front, k);
        assert(key_index(front, k) < 0) by {
            if key_index(front, k) >= 0 {
                let i = key_index(front, k);
                assert(front[i] == ls[i]);
                assert(ls[i].0 != ls[ls.len() - 1].0);
            }
        }
        assert(front.push((k, v)) =~= ls);
        assert forall|i: int| 0 <= i < enc.len() implies entry_ok(#[trigger] enc[i]) by {
            if i < enc.len() - 1 {
                assert(enc[i] == enc.drop_last()[i]);
            }
        }
    }
}


/// Every field of `fs` is numbered as a member of `ns`.
pub open spec fn only_members(fs: Seq<FieldV>, ns: Seq<u32>) -> bool {
    forall|i: int| 0 <= i < fs.len() ==> ns.contains(#[trigger] fs[i].number)
}

/// Fields of one writable number have writable numbers.
pub proof fn lemma_only_numbers_ok(fs: Seq<FieldV>, n: u32)
    requires
        only_number(fs, n),
        1 <= n <= MAX_FIELD_NUMBER,
    ensures
        numbers_ok(fs),
{
}

/// Fields of a oneof lack every number outside it.
pub proof fn lemma_members_lack(fs: Seq<FieldV>, ns: Seq<u32>, m: u32)
    requires
        only_members(fs, ns),
        !ns.contains(m),
    ensures
        no_field(fs, m),
{
}

/// Fields of a oneof of writable numbers have writable numbers.
pub proof fn lemma_members_numbers_ok(fs: Seq<FieldV>, ns: Seq<u32>)
    requires
        only_members(fs, ns),
        forall|k: int| 0 <= k < ns.len() ==> 1 <= #[trigger] ns[k] <= MAX_FIELD_NUMBER,
    ensures
        numbers_ok(fs),
{
    assert forall|i: int| 0 <= i < fs.len() implies 1 <= #[trigger] fs[i].number <= MAX_FIELD_NUMBER by {
        assert(ns.contains(fs[i].number));
        let k = choose|k: int| 0 <= k < ns.len() && ns[k] == fs[i].number;
        assert(1 <= ns[k] <= MAX_FIELD_NUMBER);
    }
}

/// A oneof that holds no member has no fields.
pub proof fn lemma_no_piece(ns: Seq<u32>)
    ensures
        oneof_ok(Seq::<FieldV>::empty(), ns),
        oneof_value(Seq::<FieldV>::empty(), ns) is None,
        only_members(Seq::<FieldV>::empty(), ns),
{
    reveal(oneof_ok);
}

} // verus!
