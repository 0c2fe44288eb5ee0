//! Nested types of `StreamingTranslateSpeechResult`.
use vstd::prelude::*;
use crate::codec::{all_of_type, all_text, bool_field, get_string, get_varint_value, payload_field, push_bool, push_string, string_field, string_value, varint_value};
use crate::field::{DecodeError, Field, FieldV, decode_fields, encode_fields, fields_bytes, fields_view, parse_fields};
use crate::roundtrip::{lemma_agree_prefix, lemma_agree_suffix, lemma_fields_ok_when_small, lemma_numbers_ok_add, lemma_only_lacks, lemma_only_numbers_ok, lemma_payloads_within, lemma_string_piece, lemma_varint_piece};

verus! {

/// Text translation result.
#[derive(Clone, Debug, PartialEq, Default)]
pub struct TextTranslationResult {
    /// Output only. The translated sentence.
    pub translation: String,
    /// Output only. If `false`, an interim result that may change; if `true`, the
    /// final result for this portion of the audio.
    pub is_final: bool,
}

impl TextTranslationResult {
    /// The fields of this message in field-number order, the ones that
    /// hold a default value left out.
    pub open spec fn fields(&self) -> Seq<FieldV> {
        string_field(1, self.translation@)
            + bool_field(2, self.is_final)
    }

    /// The wire encoding of this message.
    pub open spec fn spec_encoding(&self) -> Seq<u8> {
        fields_bytes(self.fields())
    }

    /// The decoded fields `fs` are well-formed for this message: each
    /// field has its declared wire type and each nested part decodes.
    pub open spec fn decodable(fs: Seq<FieldV>) -> bool {
        &&& all_text(fs, 1)
        &&& all_of_type(fs, 2, 0)
    }

    /// The encoding of an optional nested message of this type.
    pub open spec fn option_encoding(m: Option<Self>) -> Option<Seq<u8>> {
        match m {
            Some(m) => Some(m.spec_encoding()),
            None => None,
        }
    }

    /// An optional nested message of this type, as bytes to decode, is
    /// well-formed.
    pub open spec fn option_decodable(b: Option<Seq<u8>>) -> bool {
        match b {
            Some(b) => Self::decodable_bytes(b),
            None => true,
        }
    }

    /// `m` is the optional nested message that the bytes `b` decode to.
    pub open spec fn option_decoded_from(m: Option<Self>, b: Option<Seq<u8>>) -> bool {
        match b {
            Some(b) => m matches Some(m) && m.decoded_from(parse_fields(b)->Some_0),
            None => m is None,
        }
    }

    /// `b` is a well-formed encoding of this message.
    pub open spec fn decodable_bytes(b: Seq<u8>) -> bool {
        parse_fields(b) matches Some(fs) && Self::decodable(fs)
    }

    /// This message is the one that the decoded fields `fs` describe.
    pub open spec fn decoded_from(&self, fs: Seq<FieldV>) -> bool {
        &&& self.translation@ == string_value(fs, 1)
        &&& self.is_final == (varint_value(fs, 2) != 0)
    }

    /// The fields of this message, ready to be written.
    pub fn to_fields(&self) -> (r: Vec<Field>)
        ensures
            fields_view(r@) == self.fields(),
    {
        let mut fs: Vec<Field> = Vec::new();
        assert(fields_view(fs@) =~= Seq::<FieldV>::empty());
        push_string(&mut fs, 1, &self.translation);
        push_bool(&mut fs, 2, self.is_final);
        assert(fields_view(fs@) =~= self.fields());
        fs
    }

    /// The wire encoding of this message.
    pub fn encode_to_vec(&self) -> (r: Vec<u8>)
        ensures
            r@ == self.spec_encoding(),
    {
        let fs = self.to_fields();
        encode_fields(&fs)
    }

    /// The message that the decoded fields `fs` describe.
    pub fn from_fields(fs: &Vec<Field>) -> (r: core::result::Result<Self, DecodeError>)
        ensures
            r is Ok <==> Self::decodable(fields_view(fs@)),
            r matches Ok(m) ==> m.decoded_from(fields_view(fs@)),
    {
        let translation = match get_string(fs, 1) {
            Ok(v) => v,
            Err(e) => {
                return Err(e);
            },
        };
        let is_final = match get_varint_value(fs, 2) {
            Ok(v) => v != 0,
            Err(e) => {
                return Err(e);
            },
        };
        Ok(TextTranslationResult { translation, is_final })
    }

    /// Decodes a message from its wire encoding.
    pub fn decode(b: &[u8]) -> (r: core::result::Result<Self, DecodeError>)
        ensures
            r is Ok <==> Self::decodable_bytes(b@),
            r matches Ok(m) ==> m.decoded_from(parse_fields(b@)->Some_0),
    {
        match decode_fields(b) {
            Ok(fs) => Self::from_fields(&fs),
            Err(e) => Err(e),
        }
    }

    /// The values that decoding gives back unchanged: the keys of each map
    /// are distinct and no float is negative zero, here and in every nested
    /// message.
    pub open spec fn canonical(&self) -> bool {
        true
    }

    /// Decoding the encoding of a canonical message gives that message back.
    pub proof fn lemma_round_trip(self)
        requires
            self.spec_encoding().len() <= u64::MAX,
            self.canonical(),
        ensures
            Self::decodable_bytes(self.spec_encoding()),
            self.decoded_from(parse_fields(self.spec_encoding())->Some_0),
    {
        let p1 = string_field(1, self.translation@);
        let p2 = bool_field(2, self.is_final);
        let fs = self.fields();
        assert(fs == p1 + p2);
        lemma_string_piece(1, self.translation@);
        lemma_varint_piece(2, if self.is_final { 1 } else { 0 });
        lemma_only_numbers_ok(p1, 1);
        lemma_only_numbers_ok(p2, 2);
        lemma_numbers_ok_add(p1, p2);
        lemma_fields_ok_when_small(fs);
        lemma_payloads_within(fs);
        assert(all_text(fs, 1) && self.translation@ == string_value(fs, 1)) by {
            lemma_only_lacks(p2, 2, 1);
            lemma_agree_suffix(p1, p2, 1);
        }
        assert(all_of_type(fs, 2, 0) && self.is_final == (varint_value(fs, 2) != 0)) by {
            lemma_only_lacks(p1, 1, 2);
            lemma_agree_prefix(p1, p2, 2);
        }
    }
}

/// Translation result.
#[derive(Clone, Debug, PartialEq)]
pub enum Result {
    /// Text translation result.
    TextTranslationResult(TextTranslationResult),
}

impl Result {
    /// The field that an optional member becomes: none when absent.
    pub open spec fn option_fields(o: Option<Self>) -> Seq<FieldV> {
        match o {
            Some(Result::TextTranslationResult(m)) => payload_field(1, m.spec_encoding()),
            None => seq![],
        }
    }

    /// The member that the oneof reading `v` gives is well-formed.
    pub open spec fn decodable(v: Option<(u32, Seq<u8>, Seq<u8>)>) -> bool {
        match v {
            Some((t, j, l)) => TextTranslationResult::decodable_bytes(j),
            None => true,
        }
    }

    /// `o` is the member that the oneof reading `v` gives.
    pub open spec fn decoded_from(o: Option<Self>, v: Option<(u32, Seq<u8>, Seq<u8>)>) -> bool {
        match v {
            Some((t, j, l)) => o matches Some(Result::TextTranslationResult(m)) && m.decoded_from(parse_fields(j)->Some_0),
            None => o is None,
        }
    }
}

} // verus!
