//! A message on the wire as a sequence of numbered fields, and the codec
//! between such sequences and bytes.
use vstd::prelude::*;
use crate::wire::{
    get_fixed32, get_fixed64, get_varint, le32_bytes, le32_value, le64_bytes, le64_value,
    lemma_le32_round_trip, lemma_le64_round_trip, lemma_parse_varint_bytes, parse_varint,
    put_fixed32, put_fixed64, put_varint, varint_bytes,
};

verus! {

/// Largest field number that a key can carry.
pub const MAX_FIELD_NUMBER: u32 = 536870911;

/// The payload of one field, by wire type.
#[derive(Clone, Debug, PartialEq, Eq)]
pub enum WireValue {
    /// Wire type 0.
    Varint(u64),
    /// Wire type 1.
    Fixed64(u64),
    /// Wire type 2: a length, then that many bytes.
    Bytes(Vec<u8>),
    /// Wire type 5.
    Fixed32(u32),
}

/// The mathematical value of a [`WireValue`].
pub ghost enum WireValueV {
    Varint(u64),
    Fixed64(u64),
    Bytes(Seq<u8>),
    Fixed32(u32),
}

/// One field: its number and its payload.
#[derive(Clone, Debug, PartialEq, Eq)]
pub struct Field {
    pub number: u32,
    pub value: WireValue,
}

/// The mathematical value of a [`Field`].
pub ghost struct FieldV {
    pub number: u32,
    pub value: WireValueV,
}

/// The error of every decoding function: the bytes are not a well-formed
/// encoding of the message asked for.
#[derive(Debug, Clone, Copy, PartialEq, Eq)]
pub struct DecodeError;

impl View for WireValue {
    type V = WireValueV;

    open spec fn view(&self) -> WireValueV {
        match self {
            WireValue::Varint(v) => WireValueV::Varint(*v),
            WireValue::Fixed64(v) => WireValueV::Fixed64(*v),
            WireValue::Bytes(b) => WireValueV::Bytes(b@),
            WireValue::Fixed32(v) => WireValueV::Fixed32(*v),
        }
    }
}

impl View for Field {
    type V = FieldV;

    open spec fn view(&self) -> FieldV {
        FieldV { number: self.number, value: self.value@ }
    }
}

/// The views of a sequence of fields.
pub open spec fn fields_view(fs: Seq<Field>) -> Seq<FieldV> {
    fs.map_values(|f: Field| f@)
}

/// The wire type number of a payload.
pub open spec fn wire_type(v: WireValueV) -> u64 {
    match v {
        WireValueV::Varint(_) => 0,
        WireValueV::Fixed64(_) => 1,
        WireValueV::Bytes(_) => 2,
        WireValueV::Fixed32(_) => 5,
    }
}

/// A field that an encoder can write: its number is in range and a
/// length-delimited payload's length fits in a varint.
pub open spec fn field_ok(f: FieldV) -> bool {
    &&& 1 <= f.number <= MAX_FIELD_NUMBER
    &&& f.value matches WireValueV::Bytes(b) ==> b.len() <= u64::MAX
}

/// Every field of `fs` can be written.
pub open spec fn fields_ok(fs: Seq<FieldV>) -> bool {
    forall|i: int| 0 <= i < fs.len() ==> field_ok(#[trigger] fs[i])
}

/// The key of a field: its number and wire type in one varint value.
pub open spec fn key_of(f: FieldV) -> u64 {
    ((f.number as u64) * 8 + wire_type(f.value)) as u64
}

/// The bytes of a payload after the key.
pub open spec fn payload_bytes(v: WireValueV) -> Seq<u8> {
    match v {
        WireValueV::Varint(x) => varint_bytes(x),
        WireValueV::Fixed64(x) => le64_bytes(x),
        WireValueV::Bytes(b) => varint_bytes(b.len() as u64) + b,
        WireValueV::Fixed32(x) => le32_bytes(x),
    }
}

/// The encoding of one field.
pub open spec fn field_bytes(f: FieldV) -> Seq<u8> {
    varint_bytes(key_of(f)) + payload_bytes(f.value)
}

/// The encoding of a sequence of fields: their encodings one after another.
pub open spec fn fields_bytes(fs: Seq<FieldV>) -> Seq<u8>
    decreases fs.len(),
{
    if fs.len() == 0 {
        Seq::empty()
    } else {
        field_bytes(fs[0]) + fields_bytes(fs.drop_first())
    }
}

/// The payload of wire type `wt` at the start of `b`, with its length.
pub open spec fn parse_payload(wt: u64, b: Seq<u8>) -> Option<(WireValueV, nat)> {
    if wt == 0 {
        match parse_varint(b) {
            Some((v, n)) => Some((WireValueV::Varint(v), n)),
            None => None,
        }
    } else if wt == 1 {
        if b.len() >= 8 {
            Some((WireValueV::Fixed64(le64_value(b)), 8))
        } else {
            None
        }
    } else if wt == 2 {
        match parse_varint(b) {
            Some((len, n)) => if len <= b.len() - n {
                Some((WireValueV::Bytes(b.subrange(n as int, n + len)), (n + len) as nat))
            } else {
                None
            },
            None => None,
        }
    } else if wt == 5 {
        if b.len() >= 4 {
            Some((WireValueV::Fixed32(le32_value(b)), 4))
        } else {
            None
        }
    } else {
        None
    }
}

/// The field at the start of `b`, with the number of bytes it takes. A key
/// must fit in 32 bits and name a field number of at least 1; wire types
/// other than 0, 1, 2 and 5 are refused.
pub open spec fn parse_field(b: Seq<u8>) -> Option<(FieldV, nat)> {
    match parse_varint(b) {
        None => None,
        Some((key, n)) => if key > 0xffff_ffff || key / 8 == 0 {
            None
        } else {
            match parse_payload(key % 8, b.skip(n as int)) {
                Some((v, m)) => Some((FieldV { number: (key / 8) as u32, value: v }, n + m)),
                None => None,
            }
        },
    }
}

/// The fields that `b` holds, in order, or `None` where `b` is not a
/// sequence of well-formed fields.
pub open spec fn parse_fields(b: Seq<u8>) -> Option<Seq<FieldV>>
    decreases b.len(),
{
    if b.len() == 0 {
        Some(Seq::empty())
    } else {
        match parse_field(b) {
            None => None,
            Some((f, n)) => if 0 < n <= b.len() {
                match parse_fields(b.skip(n as int)) {
                    Some(rest) => Some(seq![f] + rest),
                    None => None,
                }
            } else {
                None
            },
        }
    }
}

/// The encoding of two field sequences one after the other is the encoding
/// of their concatenation.
pub proof fn lemma_fields_bytes_append(a: Seq<FieldV>, b: Seq<FieldV>)
    ensures
        fields_bytes(a + b) == fields_bytes(a) + fields_bytes(b),
    decreases a.len(),
{
    if a.len() == 0 {
        assert(a + b =~= b);
        assert(fields_bytes(a) + fields_bytes(b) =~= fields_bytes(b));
    } else {
        assert((a + b).drop_first() =~= a.drop_first() + b);
        lemma_fields_bytes_append(a.drop_first(), b);
        assert((a + b)[0] == a[0]);
        assert(fields_bytes(a + b) =~= field_bytes(a[0]) + (fields_bytes(a.drop_first())
            + fields_bytes(b)));
    }
}

/// The encoding of a single field.
pub proof fn lemma_fields_bytes_one(f: FieldV)
    ensures
        fields_bytes(seq![f]) == field_bytes(f),
{
    let one = seq![f];
    assert(one[0] == f);
    assert(one.drop_first() =~= Seq::<FieldV>::empty());
    assert(fields_bytes(Seq::<FieldV>::empty()) == Seq::<u8>::empty());
    assert(fields_bytes(one) == field_bytes(f) + fields_bytes(one.drop_first()));
    assert(field_bytes(f) + Seq::<u8>::empty() =~= field_bytes(f));
}

/// A written field is read back whole, whatever follows it.
proof fn lemma_parse_field_bytes(f: FieldV, rest: Seq<u8>)
    requires
        field_ok(f),
    ensures
        parse_field(field_bytes(f) + rest) == Some((f, field_bytes(f).len())),
{
    let key = key_of(f);
    let kb = varint_bytes(key);
    let pb = payload_bytes(f.value);
    let s = field_bytes(f) + rest;
    assert(s =~= kb + (pb + rest));
    lemma_parse_varint_bytes(key, pb + rest);
    assert(s.skip(kb.len() as int) =~= pb + rest);
    assert(key / 8 == f.number as u64 && key % 8 == wire_type(f.value));
    match f.value {
        WireValueV::Varint(x) => {
            lemma_parse_varint_bytes(x, rest);
        },
        WireValueV::Fixed64(x) => {
            lemma_le64_round_trip(x, rest);
        },
        WireValueV::Bytes(b) => {
            let lb = varint_bytes(b.len() as u64);
            assert(pb + rest =~= lb + (b + rest));
            lemma_parse_varint_bytes(b.len() as u64, b + rest);
            assert((pb + rest).subrange(lb.len() as int, (lb.len() + b.len()) as int) =~= b);
        },
        WireValueV::Fixed32(x) => {
            lemma_le32_round_trip(x, rest);
        },
    }
}

/// Encoding a sequence of writable fields and parsing the bytes gives back
/// the same sequence.
pub proof fn lemma_fields_round_trip(fs: Seq<FieldV>)
    requires
        fields_ok(fs),
    ensures
        parse_fields(fields_bytes(fs)) == Some(fs),
    decreases fs.len(),
{
    if fs.len() == 0 {
    } else {
        let f = fs[0];
        let tail = fs.drop_first();
        assert(field_ok(f));
        assert(fields_ok(tail)) by {
            assert forall|i: int| 0 <= i < tail.len() implies field_ok(#[trigger] tail[i]) by {
                assert(tail[i] == fs[i + 1]);
            }
        }
        let b = fields_bytes(fs);
        lemma_parse_field_bytes(f, fields_bytes(tail));
        lemma_parse_varint_bytes(key_of(f), payload_bytes(f.value));
        let n = field_bytes(f).len();
        assert(b.skip(n as int) =~= fields_bytes(tail));
        lemma_fields_round_trip(tail);
        assert(seq![f] + tail =~= fs);
    }
}

/// Appends the encoding of `f` to `buf`.
pub fn put_field(buf: &mut Vec<u8>, f: &Field)
    ensures
        final(buf)@ == old(buf)@ + field_bytes(f@),
{
    let wt: u64 = match &f.value {
        WireValue::Varint(_) => 0,
        WireValue::Fixed64(_) => 1,
        WireValue::Bytes(_) => 2,
        WireValue::Fixed32(_) => 5,
    };
    put_varint(buf, (f.number as u64) * 8 + wt);
    let ghost mid = buf@;
    match &f.value {
        WireValue::Varint(x) => put_varint(buf, *x),
        WireValue::Fixed64(x) => put_fixed64(buf, *x),
        WireValue::Bytes(b) => {
            put_varint(buf, b.len() as u64);
            let ghost start = buf@;
            let mut i: usize = 0;
            while i < b.len()
                invariant
                    i <= b@.len(),
                    buf@ == start + b@.subrange(0, i as int),
                decreases b@.len() - i,
            {
                buf.push(b[i]);
                i = i + 1;
                assert(buf@ =~= start + b@.subrange(0, i as int));
            }
            assert(b@.subrange(0, b@.len() as int) =~= b@);
        },
        WireValue::Fixed32(x) => put_fixed32(buf, *x),
    }
    assert(buf@ =~= old(buf)@ + field_bytes(f@));
}

/// The encoding of `fs`.
pub fn encode_fields(fs: &Vec<Field>) -> (r: Vec<u8>)
    ensures
        r@ == fields_bytes(fields_view(fs@)),
{
    let mut buf: Vec<u8> = Vec::new();
    let mut i: usize = 0;
    while i < fs.len()
        invariant
            i <= fs@.len(),
            buf@ == fields_bytes(fields_view(fs@.subrange(0, i as int))),
        decreases fs@.len() - i,
    {
        put_field(&mut buf, &fs[i]);
        proof {
            let pre = fields_view(fs@.subrange(0, i as int));
            lemma_fields_bytes_append(pre, seq![fs@[i as int]@]);
            lemma_fields_bytes_one(fs@[i as int]@);
            assert(fields_view(fs@.subrange(0, i + 1)) =~= pre + seq![fs@[i as int]@]);
        }
        i = i + 1;
    }
    assert(fs@.subrange(0, fs@.len() as int) =~= fs@);
    buf
}

/// Reads the field at position `pos` of `b`: the field and the position
/// just after it, or an error where [`parse_field`] finds none there.
pub fn decode_field(b: &[u8], pos: usize) -> (r: Result<(Field, usize), DecodeError>)
    requires
        pos <= b@.len(),
    ensures
        r matches Ok((f, next)) ==> parse_field(b@.skip(pos as int)) matches Some((g, n)) && f@
            == g && next == pos + n,
        r matches Ok((f, next)) ==> pos < next <= b@.len(),
        r is Err ==> parse_field(b@.skip(pos as int)) is None,
{
    let ghost s = b@.skip(pos as int);
    let (key, p) = match get_varint(b, pos) {
        Some(kp) => kp,
        None => return Err(DecodeError),
    };
    if key > 0xffff_ffff || key / 8 == 0 {
        return Err(DecodeError);
    }
    let number = (key / 8) as u32;
    let wt = key % 8;
    assert(b@.skip(p as int) =~= s.skip(p - pos));
    if wt == 0 {
        match get_varint(b, p) {
            Some((v, q)) => Ok((Field { number, value: WireValue::Varint(v) }, q)),
            None => Err(DecodeError),
        }
    } else if wt == 1 {
        if b.len() - p >= 8 {
            let v = get_fixed64(b, p);
            Ok((Field { number, value: WireValue::Fixed64(v) }, p + 8))
        } else {
            Err(DecodeError)
        }
    } else if wt == 2 {
        match get_varint(b, p) {
            Some((len, q)) => {
                if len <= (b.len() - q) as u64 {
                    let end = q + len as usize;
                    let mut bytes: Vec<u8> = Vec::new();
                    let mut i: usize = q;
                    while i < end
                        invariant
                            q <= i <= end <= b@.len(),
                            bytes@ == b@.subrange(q as int, i as int),
                        decreases end - i,
                    {
                        bytes.push(b[i]);
                        i = i + 1;
                        assert(bytes@ =~= b@.subrange(q as int, i as int));
                    }
                    assert(b@.subrange(q as int, end as int) =~= s.skip(p - pos).subrange(
                        q - p,
                        q - p + len,
                    ));
                    Ok((Field { number, value: WireValue::Bytes(bytes) }, end))
                } else {
                    Err(DecodeError)
                }
            },
            None => Err(DecodeError),
        }
    } else if wt == 5 {
        if b.len() - p >= 4 {
            let v = get_fixed32(b, p);
            Ok((Field { number, value: WireValue::Fixed32(v) }, p + 4))
        } else {
            Err(DecodeError)
        }
    } else {
        Err(DecodeError)
    }
}

/// The fields that `b` holds, in order.
pub fn decode_fields(b: &[u8]) -> (r: Result<Vec<Field>, DecodeError>)
    ensures
        r matches Ok(fs) ==> parse_fields(b@) == Some(fields_view(fs@)),
        r is Err ==> parse_fields(b@) is None,
{
    let mut fs: Vec<Field> = Vec::new();
    let mut pos: usize = 0;
    proof {
        assert(b@.skip(0) =~= b@);
        assert(fields_view(fs@) =~= Seq::<FieldV>::empty());
        match parse_fields(b@) {
            Some(all) => {
                assert(Seq::<FieldV>::empty() + all =~= all);
            },
            None => {},
        }
    }
    while pos < b.len()
        invariant
            pos <= b@.len(),
            parse_fields(b@) == match parse_fields(b@.skip(pos as int)) {
                Some(rest) => Some(fields_view(fs@) + rest),
                None => None::<Seq<FieldV>>,
            },
        decreases b@.len() - pos,
    {
        let ghost s = b@.skip(pos as int);
        let ghost old_fs = fields_view(fs@);
        match decode_field(b, pos) {
            Ok((f, next)) => {
                proof {
                    assert(b@.skip(next as int) =~= s.skip(next - pos));
                    assert(fields_view(fs@.push(f)) =~= old_fs + seq![f@]);
                    match parse_fields(s.skip(next - pos)) {
                        Some(rest) => {
                            assert(old_fs + (seq![f@] + rest) =~= old_fs + seq![f@] + rest);
                        },
                        None => {},
                    }
                }
                fs.push(f);
                pos = next;
            },
            Err(e) => {
                return Err(e);
            },
        }
    }
    assert(b@.skip(pos as int) =~= Seq::<u8>::empty());
    assert(fields_view(fs@) + Seq::<FieldV>::empty() =~= fields_view(fs@));
    Ok(fs)
}

} // verus!
