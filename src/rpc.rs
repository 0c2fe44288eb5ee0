//! The status message that an API call reports errors with.
use vstd::prelude::*;
use crate::codec::{all_of_type, all_text, get_payloads, get_string, get_varint_value, int32_field, messages_field, payload_of, payloads_value, push_int32, push_messages, push_string, string_field, string_value, varint_value};
use crate::field::{DecodeError, Field, FieldV, decode_fields, encode_fields, fields_bytes, fields_view, parse_fields};
use crate::roundtrip::{lemma_agree_prefix, lemma_agree_suffix, lemma_fields_ok_when_small, lemma_int32_cast, lemma_messages_piece, lemma_no_field_add, lemma_numbers_ok_add, lemma_only_lacks, lemma_only_numbers_ok, lemma_payloads_within, lemma_string_piece, lemma_varint_piece};
use crate::protobuf::Any;

verus! {

/// An error: a code, a developer-facing message and details.
#[derive(Clone, Debug, PartialEq, Default)]
pub struct Status {
    /// The status code.
    pub code: i32,
    /// A developer-facing error message, in English.
    pub message: String,
    /// Messages that carry the error details.
    pub details: Vec<Any>,
}

impl Status {
    /// The fields of this message in field-number order, the ones that
    /// hold a default value left out.
    pub open spec fn fields(&self) -> Seq<FieldV> {
        int32_field(1, self.code)
            + string_field(2, self.message@)
            + messages_field(3, Any::list_encoding(self.details@))
    }

    /// The wire encoding of this message.
    pub open spec fn spec_encoding(&self) -> Seq<u8> {
        fields_bytes(self.fields())
    }

    /// The decoded fields `fs` are well-formed for this message: each
    /// field has its declared wire type and each nested part decodes.
    pub open spec fn decodable(fs: Seq<FieldV>) -> bool {
        &&& all_of_type(fs, 1, 0)
        &&& all_text(fs, 2)
        &&& (all_of_type(fs, 3, 2) && Any::list_decodable(payloads_value(fs, 3)))
    }

    /// The encoding of an optional nested message of this type.
    pub open spec fn option_encoding(m: Option<Self>) -> Option<Seq<u8>> {
        match m {
            Some(m) => Some(m.spec_encoding()),
            None => None,
        }
    }

    /// An optional nested message of this type, as bytes to decode, is
    /// well-formed.
    pub open spec fn option_decodable(b: Option<Seq<u8>>) -> bool {
        match b {
            Some(b) => Self::decodable_bytes(b),
            None => true,
        }
    }

    /// `m` is the optional nested message that the bytes `b` decode to.
    pub open spec fn option_decoded_from(m: Option<Self>, b: Option<Seq<u8>>) -> bool {
        match b {
            Some(b) => m matches Some(m) && m.decoded_from(parse_fields(b)->Some_0),
            None => m is None,
        }
    }

    /// `b` is a well-formed encoding of this message.
    pub open spec fn decodable_bytes(b: Seq<u8>) -> bool {
        parse_fields(b) matches Some(fs) && Self::decodable(fs)
    }

    /// This message is the one that the decoded fields `fs` describe.
    pub open spec fn decoded_from(&self, fs: Seq<FieldV>) -> bool {
        &&& self.code == varint_value(fs, 1) as i32
        &&& self.message@ == string_value(fs, 2)
        &&& Any::list_decoded_from(self.details@, payloads_value(fs, 3))
    }

    /// The fields of this message, ready to be written.
    pub fn to_fields(&self) -> (r: Vec<Field>)
        ensures
            fields_view(r@) == self.fields(),
    {
        let mut fs: Vec<Field> = Vec::new();
        assert(fields_view(fs@) =~= Seq::<FieldV>::empty());
        push_int32(&mut fs, 1, self.code);
        push_string(&mut fs, 2, &self.message);
        push_messages(&mut fs, 3, Any::encode_list(&self.details));
        assert(fields_view(fs@) =~= self.fields());
        fs
    }

    /// The wire encoding of this message.
    pub fn encode_to_vec(&self) -> (r: Vec<u8>)
        ensures
            r@ == self.spec_encoding(),
    {
        let fs = self.to_fields();
        encode_fields(&fs)
    }

    /// The message that the decoded fields `fs` describe.
    pub fn from_fields(fs: &Vec<Field>) -> (r: Result<Self, DecodeError>)
        ensures
            r is Ok <==> Self::decodable(fields_view(fs@)),
            r matches Ok(m) ==> m.decoded_from(fields_view(fs@)),
    {
        let code = match get_varint_value(fs, 1) {
            Ok(v) => v as i32,
            Err(e) => {
                return Err(e);
            },
        };
        let message = match get_string(fs, 2) {
            Ok(v) => v,
            Err(e) => {
                return Err(e);
            },
        };
        let details = match get_payloads(fs, 3) {
            Ok((each, _)) => match Any::decode_list(&each) {
                Ok(v) => v,
                Err(e) => {
                    return Err(e);
                },
            },
            Err(e) => {
                return Err(e);
            },
        };
        Ok(Status { code, message, details })
    }

    /// Decodes a message from its wire encoding.
    pub fn decode(b: &[u8]) -> (r: Result<Self, DecodeError>)
        ensures
            r is Ok <==> Self::decodable_bytes(b@),
            r matches Ok(m) ==> m.decoded_from(parse_fields(b@)->Some_0),
    {
        match decode_fields(b) {
            Ok(fs) => Self::from_fields(&fs),
            Err(e) => Err(e),
        }
    }

    /// The values that decoding gives back unchanged: the keys of each map
    /// are distinct and no float is negative zero, here and in every nested
    /// message.
    pub open spec fn canonical(&self) -> bool {
        &&& forall|i: int| 0 <= i < self.details@.len() ==> #[trigger] self.details@[i].canonical()
    }

    /// Decoding the encoding of a canonical message gives that message back.
    pub proof fn lemma_round_trip(self)
        requires
            self.spec_encoding().len() <= u64::MAX,
            self.canonical(),
        ensures
            Self::decodable_bytes(self.spec_encoding()),
            self.decoded_from(parse_fields(self.spec_encoding())->Some_0),
    {
        let p1 = int32_field(1, self.code);
        let p2 = string_field(2, self.message@);
        let p3 = messages_field(3, Any::list_encoding(self.details@));
        let fs = self.fields();
        assert(fs == p1 + p2 + p3);
        lemma_varint_piece(1, self.code as u64);
        lemma_int32_cast(self.code);
        lemma_string_piece(2, self.message@);
        lemma_messages_piece(3, Any::list_encoding(self.details@));
        lemma_only_numbers_ok(p1, 1);
        lemma_only_numbers_ok(p2, 2);
        lemma_only_numbers_ok(p3, 3);
        lemma_numbers_ok_add(p1, p2);
        lemma_numbers_ok_add(p1 + p2, p3);
        lemma_fields_ok_when_small(fs);
        lemma_payloads_within(fs);
        assert(all_of_type(fs, 1, 0) && self.code == varint_value(fs, 1) as i32) by {
            lemma_only_lacks(p3, 3, 1);
            lemma_agree_suffix(p1 + p2, p3, 1);
            lemma_only_lacks(p2, 2, 1);
            lemma_agree_suffix(p1, p2, 1);
        }
        assert(all_text(fs, 2) && self.message@ == string_value(fs, 2)) by {
            lemma_only_lacks(p3, 3, 2);
            lemma_agree_suffix(p1 + p2, p3, 2);
            lemma_only_lacks(p1, 1, 2);
            lemma_agree_prefix(p1, p2, 2);
        }
        assert((all_of_type(fs, 3, 2) && Any::list_decodable(payloads_value(fs, 3))) && Any::list_decoded_from(self.details@, payloads_value(fs, 3))) by {
            lemma_only_lacks(p1, 1, 3);
            lemma_only_lacks(p2, 2, 3);
            lemma_no_field_add(p1, p2, 3);
            lemma_agree_prefix(p1 + p2, p3, 3);
            assert forall|j: int| 0 <= j < self.details@.len() implies Any::decodable_bytes(#[trigger] Any::list_encoding(self.details@)[j])
                && self.details@[j].decoded_from(parse_fields(Any::list_encoding(self.details@)[j])->Some_0) by {
                let w = choose|w: int| 0 <= w < p3.len() && Any::list_encoding(self.details@)[j] == payload_of(p3[w].value);
                assert(fs[(p1 + p2).len() as int + w] == p3[w]);
                self.details@[j].lemma_round_trip();
            }
        }
    }
}

} // verus!
