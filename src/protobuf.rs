//! Well-known protocol-buffer types that the API messages use.
use vstd::prelude::*;
use crate::codec::{all_of_type, all_text, bytes_field, bytes_value, bytes_view, get_bytes, get_string, get_strings, get_varint_value, int32_field, push_bytes, push_int32, push_int64, push_string, push_strings, string_field, string_value, strings_field, strings_value, strings_view, varint_field, varint_value};
use crate::field::{DecodeError, Field, FieldV, decode_fields, encode_fields, fields_bytes, fields_view, parse_fields};
use crate::roundtrip::{lemma_agree_prefix, lemma_agree_suffix, lemma_bytes_piece, lemma_fields_ok_when_small, lemma_int32_cast, lemma_int64_cast, lemma_numbers_ok_add, lemma_only_lacks, lemma_only_numbers_ok, lemma_payloads_within, lemma_string_piece, lemma_strings_piece, lemma_varint_piece};

verus! {

/// A point in time: seconds and nanoseconds since the Unix epoch, UTC.
#[derive(Clone, Debug, PartialEq, Default)]
pub struct Timestamp {
    /// Seconds since 1970-01-01T00:00:00Z.
    pub seconds: i64,
    /// Non-negative fractions of a second at nanosecond resolution.
    pub nanos: i32,
}

impl Timestamp {
    /// The fields of this message in field-number order, the ones that
    /// hold a default value left out.
    pub open spec fn fields(&self) -> Seq<FieldV> {
        varint_field(1, self.seconds as u64)
            + int32_field(2, self.nanos)
    }

    /// The wire encoding of this message.
    pub open spec fn spec_encoding(&self) -> Seq<u8> {
        fields_bytes(self.fields())
    }

    /// The decoded fields `fs` are well-formed for this message: each
    /// field has its declared wire type and each nested part decodes.
    pub open spec fn decodable(fs: Seq<FieldV>) -> bool {
        &&& all_of_type(fs, 1, 0)
        &&& all_of_type(fs, 2, 0)
    }

    /// The encoding of an optional nested message of this type.
    pub open spec fn option_encoding(m: Option<Self>) -> Option<Seq<u8>> {
        match m {
            Some(m) => Some(m.spec_encoding()),
            None => None,
        }
    }

    /// An optional nested message of this type, as bytes to decode, is
    /// well-formed.
    pub open spec fn option_decodable(b: Option<Seq<u8>>) -> bool {
        match b {
            Some(b) => Self::decodable_bytes(b),
            None => true,
        }
    }

    /// `m` is the optional nested message that the bytes `b` decode to.
    pub open spec fn option_decoded_from(m: Option<Self>, b: Option<Seq<u8>>) -> bool {
        match b {
            Some(b) => m matches Some(m) && m.decoded_from(parse_fields(b)->Some_0),
            None => m is None,
        }
    }

    /// `b` is a well-formed encoding of this message.
    pub open spec fn decodable_bytes(b: Seq<u8>) -> bool {
        parse_fields(b) matches Some(fs) && Self::decodable(fs)
    }

    /// This message is the one that the decoded fields `fs` describe.
    pub open spec fn decoded_from(&self, fs: Seq<FieldV>) -> bool {
        &&& self.seconds == varint_value(fs, 1) as i64
        &&& self.nanos == varint_value(fs, 2) as i32
    }

    /// The fields of this message, ready to be written.
    pub fn to_fields(&self) -> (r: Vec<Field>)
        ensures
            fields_view(r@) == self.fields(),
    {
        let mut fs: Vec<Field> = Vec::new();
        assert(fields_view(fs@) =~= Seq::<FieldV>::empty());
        push_int64(&mut fs, 1, self.seconds);
        push_int32(&mut fs, 2, self.nanos);
        assert(fields_view(fs@) =~= self.fields());
        fs
    }

    /// The wire encoding of this message.
    pub fn encode_to_vec(&self) -> (r: Vec<u8>)
        ensures
            r@ == self.spec_encoding(),
    {
        let fs = self.to_fields();
        encode_fields(&fs)
    }

    /// The message that the decoded fields `fs` describe.
    pub fn from_fields(fs: &Vec<Field>) -> (r: Result<Self, DecodeError>)
        ensures
            r is Ok <==> Self::decodable(fields_view(fs@)),
            r matches Ok(m) ==> m.decoded_from(fields_view(fs@)),
    {
        let seconds = match get_varint_value(fs, 1) {
            Ok(v) => v as i64,
            Err(e) => {
                return Err(e);
            },
        };
        let nanos = match get_varint_value(fs, 2) {
            Ok(v) => v as i32,
            Err(e) => {
                return Err(e);
            },
        };
        Ok(Timestamp { seconds, nanos })
    }

    /// Decodes a message from its wire encoding.
    pub fn decode(b: &[u8]) -> (r: Result<Self, DecodeError>)
        ensures
            r is Ok <==> Self::decodable_bytes(b@),
            r matches Ok(m) ==> m.decoded_from(parse_fields(b@)->Some_0),
    {
        match decode_fields(b) {
            Ok(fs) => Self::from_fields(&fs),
            Err(e) => Err(e),
        }
    }

    /// The values that decoding gives back unchanged: the keys of each map
    /// are distinct and no float is negative zero, here and in every nested
    /// message.
    pub open spec fn canonical(&self) -> bool {
        true
    }

    /// Decoding the encoding of a canonical message gives that message back.
    pub proof fn lemma_round_trip(self)
        requires
            self.spec_encoding().len() <= u64::MAX,
            self.canonical(),
        ensures
            Self::decodable_bytes(self.spec_encoding()),
            self.decoded_from(parse_fields(self.spec_encoding())->Some_0),
    {
        let p1 = varint_field(1, self.seconds as u64);
        let p2 = int32_field(2, self.nanos);
        let fs = self.fields();
        assert(fs == p1 + p2);
        lemma_varint_piece(1, self.seconds as u64);
        lemma_int64_cast(self.seconds);
        lemma_varint_piece(2, self.nanos as u64);
        lemma_int32_cast(self.nanos);
        lemma_only_numbers_ok(p1, 1);
        lemma_only_numbers_ok(p2, 2);
        lemma_numbers_ok_add(p1, p2);
        lemma_fields_ok_when_small(fs);
        lemma_payloads_within(fs);
        assert(all_of_type(fs, 1, 0) && self.seconds == varint_value(fs, 1) as i64) by {
            lemma_only_lacks(p2, 2, 1);
            lemma_agree_suffix(p1, p2, 1);
        }
        assert(all_of_type(fs, 2, 0) && self.nanos == varint_value(fs, 2) as i32) by {
            lemma_only_lacks(p1, 1, 2);
            lemma_agree_prefix(p1, p2, 2);
        }
    }
}

/// A set of symbolic field paths, such as the fields that an update overwrites.
#[derive(Clone, Debug, PartialEq, Default)]
pub struct FieldMask {
    /// The field paths.
    pub paths: Vec<String>,
}

impl FieldMask {
    /// The fields of this message in field-number order, the ones that
    /// hold a default value left out.
    pub open spec fn fields(&self) -> Seq<FieldV> {
        strings_field(1, strings_view(self.paths@))
    }

    /// The wire encoding of this message.
    pub open spec fn spec_encoding(&self) -> Seq<u8> {
        fields_bytes(self.fields())
    }

    /// The decoded fields `fs` are well-formed for this message: each
    /// field has its declared wire type and each nested part decodes.
    pub open spec fn decodable(fs: Seq<FieldV>) -> bool {
        &&& all_text(fs, 1)
    }

    /// The encoding of an optional nested message of this type.
    pub open spec fn option_encoding(m: Option<Self>) -> Option<Seq<u8>> {
        match m {
            Some(m) => Some(m.spec_encoding()),
            None => None,
        }
    }

    /// An optional nested message of this type, as bytes to decode, is
    /// well-formed.
    pub open spec fn option_decodable(b: Option<Seq<u8>>) -> bool {
        match b {
            Some(b) => Self::decodable_bytes(b),
            None => true,
        }
    }

    /// `m` is the optional nested message that the bytes `b` decode to.
    pub open spec fn option_decoded_from(m: Option<Self>, b: Option<Seq<u8>>) -> bool {
        match b {
            Some(b) => m matches Some(m) && m.decoded_from(parse_fields(b)->Some_0),
            None => m is None,
        }
    }

    /// `b` is a well-formed encoding of this message.
    pub open spec fn decodable_bytes(b: Seq<u8>) -> bool {
        parse_fields(b) matches Some(fs) && Self::decodable(fs)
    }

    /// This message is the one that the decoded fields `fs` describe.
    pub open spec fn decoded_from(&self, fs: Seq<FieldV>) -> bool {
        &&& strings_view(self.paths@) == strings_value(fs, 1)
    }

    /// The fields of this message, ready to be written.
    pub fn to_fields(&self) -> (r: Vec<Field>)
        ensures
            fields_view(r@) == self.fields(),
    {
        let mut fs: Vec<Field> = Vec::new();
        assert(fields_view(fs@) =~= Seq::<FieldV>::empty());
        push_strings(&mut fs, 1, &self.paths);
        assert(fields_view(fs@) =~= self.fields());
        fs
    }

    /// The wire encoding of this message.
    pub fn encode_to_vec(&self) -> (r: Vec<u8>)
        ensures
            r@ == self.spec_encoding(),
    {
        let fs = self.to_fields();
        encode_fields(&fs)
    }

    /// The message that the decoded fields `fs` describe.
    pub fn from_fields(fs: &Vec<Field>) -> (r: Result<Self, DecodeError>)
        ensures
            r is Ok <==> Self::decodable(fields_view(fs@)),
            r matches Ok(m) ==> m.decoded_from(fields_view(fs@)),
    {
        let paths = match get_strings(fs, 1) {
            Ok(v) => v,
            Err(e) => {
                return Err(e);
            },
        };
        Ok(FieldMask { paths })
    }

    /// Decodes a message from its wire encoding.
    pub fn decode(b: &[u8]) -> (r: Result<Self, DecodeError>)
        ensures
            r is Ok <==> Self::decodable_bytes(b@),
            r matches Ok(m) ==> m.decoded_from(parse_fields(b@)->Some_0),
    {
        match decode_fields(b) {
            Ok(fs) => Self::from_fields(&fs),
            Err(e) => Err(e),
        }
    }

    /// The values that decoding gives back unchanged: the keys of each map
    /// are distinct and no float is negative zero, here and in every nested
    /// message.
    pub open spec fn canonical(&self) -> bool {
        true
    }

    /// Decoding the encoding of a canonical message gives that message back.
    pub proof fn lemma_round_trip(self)
        requires
            self.spec_encoding().len() <= u64::MAX,
            self.canonical(),
        ensures
            Self::decodable_bytes(self.spec_encoding()),
            self.decoded_from(parse_fields(self.spec_encoding())->Some_0),
    {
        let p1 = strings_field(1, strings_view(self.paths@));
        let fs = self.fields();
        assert(fs == p1);
        lemma_strings_piece(1, strings_view(self.paths@));
        lemma_only_numbers_ok(p1, 1);
        lemma_fields_ok_when_small(fs);
        lemma_payloads_within(fs);
        assert(all_text(fs, 1) && strings_view(self.paths@) == strings_value(fs, 1)) by {

        }
    }
}

/// A message of any type, with a URL that names its type.
#[derive(Clone, Debug, PartialEq, Default)]
pub struct Any {
    /// Identifies the type of the serialized message.
    pub type_url: String,
    /// The encoding of the message.
    pub value: Vec<u8>,
}

impl Any {
    /// The fields of this message in field-number order, the ones that
    /// hold a default value left out.
    pub open spec fn fields(&self) -> Seq<FieldV> {
        string_field(1, self.type_url@)
            + bytes_field(2, self.value@)
    }

    /// The wire encoding of this message.
    pub open spec fn spec_encoding(&self) -> Seq<u8> {
        fields_bytes(self.fields())
    }

    /// The decoded fields `fs` are well-formed for this message: each
    /// field has its declared wire type and each nested part decodes.
    pub open spec fn decodable(fs: Seq<FieldV>) -> bool {
        &&& all_text(fs, 1)
        &&& all_of_type(fs, 2, 2)
    }

    /// The encoding of an optional nested message of this type.
    pub open spec fn option_encoding(m: Option<Self>) -> Option<Seq<u8>> {
        match m {
            Some(m) => Some(m.spec_encoding()),
            None => None,
        }
    }

    /// An optional nested message of this type, as bytes to decode, is
    /// well-formed.
    pub open spec fn option_decodable(b: Option<Seq<u8>>) -> bool {
        match b {
            Some(b) => Self::decodable_bytes(b),
            None => true,
        }
    }

    /// `m` is the optional nested message that the bytes `b` decode to.
    pub open spec fn option_decoded_from(m: Option<Self>, b: Option<Seq<u8>>) -> bool {
        match b {
            Some(b) => m matches Some(m) && m.decoded_from(parse_fields(b)->Some_0),
            None => m is None,
        }
    }

    /// `b` is a well-formed encoding of this message.
    pub open spec fn decodable_bytes(b: Seq<u8>) -> bool {
        parse_fields(b) matches Some(fs) && Self::decodable(fs)
    }

    /// This message is the one that the decoded fields `fs` describe.
    pub open spec fn decoded_from(&self, fs: Seq<FieldV>) -> bool {
        &&& self.type_url@ == string_value(fs, 1)
        &&& self.value@ == bytes_value(fs, 2)
    }

    /// The fields of this message, ready to be written.
    pub fn to_fields(&self) -> (r: Vec<Field>)
        ensures
            fields_view(r@) == self.fields(),
    {
        let mut fs: Vec<Field> = Vec::new();
        assert(fields_view(fs@) =~= Seq::<FieldV>::empty());
        push_string(&mut fs, 1, &self.type_url);
        push_bytes(&mut fs, 2, &self.value);
        assert(fields_view(fs@) =~= self.fields());
        fs
    }

    /// The wire encoding of this message.
    pub fn encode_to_vec(&self) -> (r: Vec<u8>)
        ensures
            r@ == self.spec_encoding(),
    {
        let fs = self.to_fields();
        encode_fields(&fs)
    }

    /// The message that the decoded fields `fs` describe.
    pub fn from_fields(fs: &Vec<Field>) -> (r: Result<Self, DecodeError>)
        ensures
            r is Ok <==> Self::decodable(fields_view(fs@)),
            r matches Ok(m) ==> m.decoded_from(fields_view(fs@)),
    {
        let type_url = match get_string(fs, 1) {
            Ok(v) => v,
            Err(e) => {
                return Err(e);
            },
        };
        let value = match get_bytes(fs, 2) {
            Ok(v) => v,
            Err(e) => {
                return Err(e);
            },
        };
        Ok(Any { type_url, value })
    }

    /// Decodes a message from its wire encoding.
    pub fn decode(b: &[u8]) -> (r: Result<Self, DecodeError>)
        ensures
            r is Ok <==> Self::decodable_bytes(b@),
            r matches Ok(m) ==> m.decoded_from(parse_fields(b@)->Some_0),
    {
        match decode_fields(b) {
            Ok(fs) => Self::from_fields(&fs),
            Err(e) => Err(e),
        }
    }

    /// The values that decoding gives back unchanged: the keys of each map
    /// are distinct and no float is negative zero, here and in every nested
    /// message.
    pub open spec fn canonical(&self) -> bool {
        true
    }

    /// Decoding the encoding of a canonical message gives that message back.
    pub proof fn lemma_round_trip(self)
        requires
            self.spec_encoding().len() <= u64::MAX,
            self.canonical(),
        ensures
            Self::decodable_bytes(self.spec_encoding()),
            self.decoded_from(parse_fields(self.spec_encoding())->Some_0),
    {
        let p1 = string_field(1, self.type_url@);
        let p2 = bytes_field(2, self.value@);
        let fs = self.fields();
        assert(fs == p1 + p2);
        lemma_string_piece(1, self.type_url@);
        lemma_bytes_piece(2, self.value@);
        lemma_only_numbers_ok(p1, 1);
        lemma_only_numbers_ok(p2, 2);
        lemma_numbers_ok_add(p1, p2);
        lemma_fields_ok_when_small(fs);
        lemma_payloads_within(fs);
        assert(all_text(fs, 1) && self.type_url@ == string_value(fs, 1)) by {
            lemma_only_lacks(p2, 2, 1);
            lemma_agree_suffix(p1, p2, 1);
        }
        assert(all_of_type(fs, 2, 2) && self.value@ == bytes_value(fs, 2)) by {
            lemma_only_lacks(p1, 1, 2);
            lemma_agree_prefix(p1, p2, 2);
        }
    }

    /// The encodings of a sequence of messages.
    pub open spec fn list_encoding(ms: Seq<Self>) -> Seq<Seq<u8>> {
        ms.map_values(|m: Self| m.spec_encoding())
    }

    /// Every payload is a well-formed encoding of this message.
    pub open spec fn list_decodable(ps: Seq<Seq<u8>>) -> bool {
        forall|i: int| 0 <= i < ps.len() ==> Self::decodable_bytes(#[trigger] ps[i])
    }

    /// `ms` are the messages that the payloads `ps` decode to, one for one.
    pub open spec fn list_decoded_from(ms: Seq<Self>, ps: Seq<Seq<u8>>) -> bool {
        &&& ms.len() == ps.len()
        &&& forall|i: int| 0 <= i < ps.len() ==> #[trigger] ms[i].decoded_from(parse_fields(ps[i])->Some_0)
    }

    /// The encodings of the messages of a repeated field.
    pub fn encode_list(ms: &Vec<Self>) -> (r: Vec<Vec<u8>>)
        ensures
            bytes_view(r@) == Self::list_encoding(ms@),
    {
        let mut out: Vec<Vec<u8>> = Vec::new();
        let mut i: usize = 0;
        while i < ms.len()
            invariant
                i <= ms@.len(),
                bytes_view(out@) == Self::list_encoding(ms@.subrange(0, i as int)),
            decreases ms@.len() - i,
        {
            let ghost before = out@;
            let b = ms[i].encode_to_vec();
            out.push(b);
            proof {
                let pre = ms@.subrange(0, i as int);
                assert(ms@.subrange(0, i + 1) =~= pre.push(ms@[i as int]));
                assert(Self::list_encoding(pre.push(ms@[i as int])) =~= Self::list_encoding(pre).push(
                    ms@[i as int].spec_encoding(),
                ));
                assert(bytes_view(out@) =~= bytes_view(before).push(b@));
            }
            i = i + 1;
        }
        assert(ms@.subrange(0, ms@.len() as int) =~= ms@);
        out
    }

    /// The messages of a repeated field, decoded from their payloads.
    pub fn decode_list(ps: &Vec<Vec<u8>>) -> (r: Result<Vec<Self>, DecodeError>)
        ensures
            r is Ok <==> Self::list_decodable(bytes_view(ps@)),
            r matches Ok(ms) ==> Self::list_decoded_from(ms@, bytes_view(ps@)),
    {
        let ghost pv = bytes_view(ps@);
        let mut out: Vec<Self> = Vec::new();
        let mut i: usize = 0;
        while i < ps.len()
            invariant
                i <= ps@.len(),
                pv == bytes_view(ps@),
                out@.len() == i,
                forall|j: int| 0 <= j < i ==> Self::decodable_bytes(#[trigger] pv[j]),
                forall|j: int| 0 <= j < i ==> #[trigger] out@[j].decoded_from(parse_fields(pv[j])->Some_0),
            decreases ps@.len() - i,
        {
            assert(pv[i as int] == ps@[i as int]@);
            match Self::decode(ps[i].as_slice()) {
                Ok(m) => {
                    out.push(m);
                },
                Err(e) => {
                    return Err(e);
                },
            }
            i = i + 1;
        }
        Ok(out)
    }
}

} // verus!
