//! Messages of the reCAPTCHA Enterprise API (v1): assessments and keys.
pub mod annotate_assessment_request;
pub mod risk_analysis;
pub mod token_properties;
pub mod key;
pub mod web_key_settings;
use vstd::prelude::*;
use crate::codec::{all_of_type, all_text, bool_field, bytes_view, decode_labels, encode_labels, fixed32_value, float_field, get_fixed32_value, get_oneof, get_packed, get_payloads, get_string, get_strings, get_varint_value, int32_field, labels_encoding, labels_ok, labels_value, labels_view, message_field, message_value, messages_field, oneof_ok, oneof_value, packed_field, packed_value, payload_of, payloads_value, push_bool, push_float, push_int32, push_message, push_messages, push_packed, push_payload, push_string, push_strings, string_field, string_value, strings_field, strings_value, strings_view, varint_value};
use crate::field::{DecodeError, Field, FieldV, decode_fields, encode_fields, fields_bytes, fields_view, parse_fields};
use crate::roundtrip::{keys_distinct, lemma_agree_prefix, lemma_agree_suffix, lemma_fields_ok_when_small, lemma_float_piece, lemma_int32_cast, lemma_labels_round_trip, lemma_members_lack, lemma_members_numbers_ok, lemma_message_piece, lemma_messages_piece, lemma_no_field_add, lemma_no_member_add, lemma_no_piece, lemma_numbers_ok_add, lemma_oneof_prefix, lemma_oneof_suffix, lemma_only_lacks, lemma_only_numbers_ok, lemma_only_outside, lemma_packed_piece, lemma_payload_piece, lemma_payloads_within, lemma_string_piece, lemma_strings_piece, lemma_varint_piece, only_members};
use crate::protobuf::{FieldMask, Timestamp};

verus! {

/// The create assessment request message.
#[derive(Clone, Debug, PartialEq, Default)]
pub struct CreateAssessmentRequest {
    /// Required. The name of the project in which the assessment will be created,
    /// in the format "projects/{project}".
    pub parent: String,
    /// Required. The assessment details.
    pub assessment: Option<Assessment>,
}

impl CreateAssessmentRequest {
    /// The fields of this message in field-number order, the ones that
    /// hold a default value left out.
    pub open spec fn fields(&self) -> Seq<FieldV> {
        string_field(1, self.parent@)
            + message_field(2, Assessment::option_encoding(self.assessment))
    }

    /// The wire encoding of this message.
    pub open spec fn spec_encoding(&self) -> Seq<u8> {
        fields_bytes(self.fields())
    }

    /// The decoded fields `fs` are well-formed for this message: each
    /// field has its declared wire type and each nested part decodes.
    pub open spec fn decodable(fs: Seq<FieldV>) -> bool {
        &&& all_text(fs, 1)
        &&& (all_of_type(fs, 2, 2) && Assessment::option_decodable(message_value(fs, 2)))
    }

    /// The encoding of an optional nested message of this type.
    pub open spec fn option_encoding(m: Option<Self>) -> Option<Seq<u8>> {
        match m {
            Some(m) => Some(m.spec_encoding()),
            None => None,
        }
    }

    /// An optional nested message of this type, as bytes to decode, is
    /// well-formed.
    pub open spec fn option_decodable(b: Option<Seq<u8>>) -> bool {
        match b {
            Some(b) => Self::decodable_bytes(b),
            None => true,
        }
    }

    /// `m` is the optional nested message that the bytes `b` decode to.
    pub open spec fn option_decoded_from(m: Option<Self>, b: Option<Seq<u8>>) -> bool {
        match b {
            Some(b) => m matches Some(m) && m.decoded_from(parse_fields(b)->Some_0),
            None => m is None,
        }
    }

    /// `b` is a well-formed encoding of this message.
    pub open spec fn decodable_bytes(b: Seq<u8>) -> bool {
        parse_fields(b) matches Some(fs) && Self::decodable(fs)
    }

    /// This message is the one that the decoded fields `fs` describe.
    pub open spec fn decoded_from(&self, fs: Seq<FieldV>) -> bool {
        &&& self.parent@ == string_value(fs, 1)
        &&& Assessment::option_decoded_from(self.assessment, message_value(fs, 2))
    }

    /// The fields of this message, ready to be written.
    pub fn to_fields(&self) -> (r: Vec<Field>)
        ensures
            fields_view(r@) == self.fields(),
    {
        let mut fs: Vec<Field> = Vec::new();
        assert(fields_view(fs@) =~= Seq::<FieldV>::empty());
        push_string(&mut fs, 1, &self.parent);
        let assessment_bytes: Option<Vec<u8>> = match &self.assessment {
            Some(m) => Some(m.encode_to_vec()),
            None => None,
        };
        push_message(&mut fs, 2, assessment_bytes);
        assert(fields_view(fs@) =~= self.fields());
        fs
    }

    /// The wire encoding of this message.
    pub fn encode_to_vec(&self) -> (r: Vec<u8>)
        ensures
            r@ == self.spec_encoding(),
    {
        let fs = self.to_fields();
        encode_fields(&fs)
    }

    /// The message that the decoded fields `fs` describe.
    pub fn from_fields(fs: &Vec<Field>) -> (r: Result<Self, DecodeError>)
        ensures
            r is Ok <==> Self::decodable(fields_view(fs@)),
            r matches Ok(m) ==> m.decoded_from(fields_view(fs@)),
    {
        let parent = match get_string(fs, 1) {
            Ok(v) => v,
            Err(e) => {
                return Err(e);
            },
        };
        let assessment = match get_payloads(fs, 2) {
            Ok((_, joined)) => match joined {
                Some(b) => match Assessment::decode(b.as_slice()) {
                    Ok(m) => Some(m),
                    Err(e) => {
                        return Err(e);
                    },
                },
                None => None,
            },
            Err(e) => {
                return Err(e);
            },
        };
        Ok(CreateAssessmentRequest { parent, assessment })
    }

    /// Decodes a message from its wire encoding.
    pub fn decode(b: &[u8]) -> (r: Result<Self, DecodeError>)
        ensures
            r is Ok <==> Self::decodable_bytes(b@),
            r matches Ok(m) ==> m.decoded_from(parse_fields(b@)->Some_0),
    {
        match decode_fields(b) {
            Ok(fs) => Self::from_fields(&fs),
            Err(e) => Err(e),
        }
    }

    /// The values that decoding gives back unchanged: the keys of each map
    /// are distinct and no float is negative zero, here and in every nested
    /// message.
    pub open spec fn canonical(&self) -> bool {
        &&& match self.assessment { Some(m) => m.canonical(), None => true }
    }

    /// Decoding the encoding of a canonical message gives that message back.
    pub proof fn lemma_round_trip(self)
        requires
            self.spec_encoding().len() <= u64::MAX,
            self.canonical(),
        ensures
            Self::decodable_bytes(self.spec_encoding()),
            self.decoded_from(parse_fields(self.spec_encoding())->Some_0),
    {
        let p1 = string_field(1, self.parent@);
        let p2 = message_field(2, Assessment::option_encoding(self.assessment));
        let fs = self.fields();
        assert(fs == p1 + p2);
        lemma_string_piece(1, self.parent@);
        lemma_message_piece(2, Assessment::option_encoding(self.assessment));
        lemma_only_numbers_ok(p1, 1);
        lemma_only_numbers_ok(p2, 2);
        lemma_numbers_ok_add(p1, p2);
        lemma_fields_ok_when_small(fs);
        lemma_payloads_within(fs);
        assert(all_text(fs, 1) && self.parent@ == string_value(fs, 1)) by {
            lemma_only_lacks(p2, 2, 1);
            lemma_agree_suffix(p1, p2, 1);
        }
        assert((all_of_type(fs, 2, 2) && Assessment::option_decodable(message_value(fs, 2))) && Assessment::option_decoded_from(self.assessment, message_value(fs, 2))) by {
            lemma_only_lacks(p1, 1, 2);
            lemma_agree_prefix(p1, p2, 2);
            match self.assessment {
                Some(m) => {
                    assert(fs[(p1).len() as int] == p2[0]);
                    m.lemma_round_trip();
                },
                None => {},
            }
        }
    }
}

/// The request message to annotate an Assessment.
#[derive(Clone, Debug, PartialEq, Default)]
pub struct AnnotateAssessmentRequest {
    /// Required. The resource name of the Assessment, in the format
    /// "projects/{project}/assessments/{assessment}".
    pub name: String,
    /// Required. The annotation that will be assigned to the Event, a value of
    /// `annotate_assessment_request::Annotation`.
    pub annotation: i32,
}

impl AnnotateAssessmentRequest {
    /// The fields of this message in field-number order, the ones that
    /// hold a default value left out.
    pub open spec fn fields(&self) -> Seq<FieldV> {
        string_field(1, self.name@)
            + int32_field(2, self.annotation)
    }

    /// The wire encoding of this message.
    pub open spec fn spec_encoding(&self) -> Seq<u8> {
        fields_bytes(self.fields())
    }

    /// The decoded fields `fs` are well-formed for this message: each
    /// field has its declared wire type and each nested part decodes.
    pub open spec fn decodable(fs: Seq<FieldV>) -> bool {
        &&& all_text(fs, 1)
        &&& all_of_type(fs, 2, 0)
    }

    /// The encoding of an optional nested message of this type.
    pub open spec fn option_encoding(m: Option<Self>) -> Option<Seq<u8>> {
        match m {
            Some(m) => Some(m.spec_encoding()),
            None => None,
        }
    }

    /// An optional nested message of this type, as bytes to decode, is
    /// well-formed.
    pub open spec fn option_decodable(b: Option<Seq<u8>>) -> bool {
        match b {
            Some(b) => Self::decodable_bytes(b),
            None => true,
        }
    }

    /// `m` is the optional nested message that the bytes `b` decode to.
    pub open spec fn option_decoded_from(m: Option<Self>, b: Option<Seq<u8>>) -> bool {
        match b {
            Some(b) => m matches Some(m) && m.decoded_from(parse_fields(b)->Some_0),
            None => m is None,
        }
    }

    /// `b` is a well-formed encoding of this message.
    pub open spec fn decodable_bytes(b: Seq<u8>) -> bool {
        parse_fields(b) matches Some(fs) && Self::decodable(fs)
    }

    /// This message is the one that the decoded fields `fs` describe.
    pub open spec fn decoded_from(&self, fs: Seq<FieldV>) -> bool {
        &&& self.name@ == string_value(fs, 1)
        &&& self.annotation == varint_value(fs, 2) as i32
    }

    /// The fields of this message, ready to be written.
    pub fn to_fields(&self) -> (r: Vec<Field>)
        ensures
            fields_view(r@) == self.fields(),
    {
        let mut fs: Vec<Field> = Vec::new();
        assert(fields_view(fs@) =~= Seq::<FieldV>::empty());
        push_string(&mut fs, 1, &self.name);
        push_int32(&mut fs, 2, self.annotation);
        assert(fields_view(fs@) =~= self.fields());
        fs
    }

    /// The wire encoding of this message.
    pub fn encode_to_vec(&self) -> (r: Vec<u8>)
        ensures
            r@ == self.spec_encoding(),
    {
        let fs = self.to_fields();
        encode_fields(&fs)
    }

    /// The message that the decoded fields `fs` describe.
    pub fn from_fields(fs: &Vec<Field>) -> (r: Result<Self, DecodeError>)
        ensures
            r is Ok <==> Self::decodable(fields_view(fs@)),
            r matches Ok(m) ==> m.decoded_from(fields_view(fs@)),
    {
        let name = match get_string(fs, 1) {
            Ok(v) => v,
            Err(e) => {
                return Err(e);
            },
        };
        let annotation = match get_varint_value(fs, 2) {
            Ok(v) => v as i32,
            Err(e) => {
                return Err(e);
            },
        };
        Ok(AnnotateAssessmentRequest { name, annotation })
    }

    /// Decodes a message from its wire encoding.
    pub fn decode(b: &[u8]) -> (r: Result<Self, DecodeError>)
        ensures
            r is Ok <==> Self::decodable_bytes(b@),
            r matches Ok(m) ==> m.decoded_from(parse_fields(b@)->Some_0),
    {
        match decode_fields(b) {
            Ok(fs) => Self::from_fields(&fs),
            Err(e) => Err(e),
        }
    }

    /// The values that decoding gives back unchanged: the keys of each map
    /// are distinct and no float is negative zero, here and in every nested
    /// message.
    pub open spec fn canonical(&self) -> bool {
        true
    }

    /// Decoding the encoding of a canonical message gives that message back.
    pub proof fn lemma_round_trip(self)
        requires
            self.spec_encoding().len() <= u64::MAX,
            self.canonical(),
        ensures
            Self::decodable_bytes(self.spec_encoding()),
            self.decoded_from(parse_fields(self.spec_encoding())->Some_0),
    {
        let p1 = string_field(1, self.name@);
        let p2 = int32_field(2, self.annotation);
        let fs = self.fields();
        assert(fs == p1 + p2);
        lemma_string_piece(1, self.name@);
        lemma_varint_piece(2, self.annotation as u64);
        lemma_int32_cast(self.annotation);
        lemma_only_numbers_ok(p1, 1);
        lemma_only_numbers_ok(p2, 2);
        lemma_numbers_ok_add(p1, p2);
        lemma_fields_ok_when_small(fs);
        lemma_payloads_within(fs);
        assert(all_text(fs, 1) && self.name@ == string_value(fs, 1)) by {
            lemma_only_lacks(p2, 2, 1);
            lemma_agree_suffix(p1, p2, 1);
        }
        assert(all_of_type(fs, 2, 0) && self.annotation == varint_value(fs, 2) as i32) by {
            lemma_only_lacks(p1, 1, 2);
            lemma_agree_prefix(p1, p2, 2);
        }
    }
}

/// Empty response for AnnotateAssessment.
#[derive(Clone, Debug, PartialEq, Default)]
pub struct AnnotateAssessmentResponse {
}

impl AnnotateAssessmentResponse {
    /// The fields of this message in field-number order, the ones that
    /// hold a default value left out.
    pub open spec fn fields(&self) -> Seq<FieldV> {
        seq![]
    }

    /// The wire encoding of this message.
    pub open spec fn spec_encoding(&self) -> Seq<u8> {
        fields_bytes(self.fields())
    }

    /// The decoded fields `fs` are well-formed for this message: each
    /// field has its declared wire type and each nested part decodes.
    pub open spec fn decodable(fs: Seq<FieldV>) -> bool {
        true
    }

    /// The encoding of an optional nested message of this type.
    pub open spec fn option_encoding(m: Option<Self>) -> Option<Seq<u8>> {
        match m {
            Some(m) => Some(m.spec_encoding()),
            None => None,
        }
    }

    /// An optional nested message of this type, as bytes to decode, is
    /// well-formed.
    pub open spec fn option_decodable(b: Option<Seq<u8>>) -> bool {
        match b {
            Some(b) => Self::decodable_bytes(b),
            None => true,
        }
    }

    /// `m` is the optional nested message that the bytes `b` decode to.
    pub open spec fn option_decoded_from(m: Option<Self>, b: Option<Seq<u8>>) -> bool {
        match b {
            Some(b) => m matches Some(m) && m.decoded_from(parse_fields(b)->Some_0),
            None => m is None,
        }
    }

    /// `b` is a well-formed encoding of this message.
    pub open spec fn decodable_bytes(b: Seq<u8>) -> bool {
        parse_fields(b) matches Some(fs) && Self::decodable(fs)
    }

    /// This message is the one that the decoded fields `fs` describe.
    pub open spec fn decoded_from(&self, fs: Seq<FieldV>) -> bool {
        true
    }

    /// The fields of this message, ready to be written.
    pub fn to_fields(&self) -> (r: Vec<Field>)
        ensures
            fields_view(r@) == self.fields(),
    {
        let mut fs: Vec<Field> = Vec::new();
        assert(fields_view(fs@) =~= Seq::<FieldV>::empty());
        fs
    }

    /// The wire encoding of this message.
    pub fn encode_to_vec(&self) -> (r: Vec<u8>)
        ensures
            r@ == self.spec_encoding(),
    {
        let fs = self.to_fields();
        encode_fields(&fs)
    }

    /// The message that the decoded fields `fs` describe.
    pub fn from_fields(fs: &Vec<Field>) -> (r: Result<Self, DecodeError>)
        ensures
            r is Ok <==> Self::decodable(fields_view(fs@)),
            r matches Ok(m) ==> m.decoded_from(fields_view(fs@)),
    {
        Ok(AnnotateAssessmentResponse {  })
    }

    /// Decodes a message from its wire encoding.
    pub fn decode(b: &[u8]) -> (r: Result<Self, DecodeError>)
        ensures
            r is Ok <==> Self::decodable_bytes(b@),
            r matches Ok(m) ==> m.decoded_from(parse_fields(b@)->Some_0),
    {
        match decode_fields(b) {
            Ok(fs) => Self::from_fields(&fs),
            Err(e) => Err(e),
        }
    }

    /// The values that decoding gives back unchanged: the keys of each map
    /// are distinct and no float is negative zero, here and in every nested
    /// message.
    pub open spec fn canonical(&self) -> bool {
        true
    }

    /// Decoding the encoding of a canonical message gives that message back.
    pub proof fn lemma_round_trip(self)
        requires
            self.spec_encoding().len() <= u64::MAX,
            self.canonical(),
        ensures
            Self::decodable_bytes(self.spec_encoding()),
            self.decoded_from(parse_fields(self.spec_encoding())->Some_0),
    {
        assert(self.fields() =~= Seq::<FieldV>::empty());
        lemma_fields_ok_when_small(self.fields());
    }
}

/// A reCAPTCHA assessment resource.
#[derive(Clone, Debug, PartialEq, Default)]
pub struct Assessment {
    /// Output only. The resource name for the Assessment in the format
    /// "projects/{project}/assessments/{assessment}".
    pub name: String,
    /// The event being assessed.
    pub event: Option<Event>,
    /// Output only. The risk analysis result for the event being assessed.
    pub risk_analysis: Option<RiskAnalysis>,
    /// Output only. Properties of the provided event token.
    pub token_properties: Option<TokenProperties>,
}

impl Assessment {
    /// The fields of this message in field-number order, the ones that
    /// hold a default value left out.
    pub open spec fn fields(&self) -> Seq<FieldV> {
        string_field(1, self.name@)
            + message_field(2, Event::option_encoding(self.event))
            + message_field(3, RiskAnalysis::option_encoding(self.risk_analysis))
            + message_field(4, TokenProperties::option_encoding(self.token_properties))
    }

    /// The wire encoding of this message.
    pub open spec fn spec_encoding(&self) -> Seq<u8> {
        fields_bytes(self.fields())
    }

    /// The decoded fields `fs` are well-formed for this message: each
    /// field has its declared wire type and each nested part decodes.
    pub open spec fn decodable(fs: Seq<FieldV>) -> bool {
        &&& all_text(fs, 1)
        &&& (all_of_type(fs, 2, 2) && Event::option_decodable(message_value(fs, 2)))
        &&& (all_of_type(fs, 3, 2) && RiskAnalysis::option_decodable(message_value(fs, 3)))
        &&& (all_of_type(fs, 4, 2) && TokenProperties::option_decodable(message_value(fs, 4)))
    }

    /// The encoding of an optional nested message of this type.
    pub open spec fn option_encoding(m: Option<Self>) -> Option<Seq<u8>> {
        match m {
            Some(m) => Some(m.spec_encoding()),
            None => None,
        }
    }

    /// An optional nested message of this type, as bytes to decode, is
    /// well-formed.
    pub open spec fn option_decodable(b: Option<Seq<u8>>) -> bool {
        match b {
            Some(b) => Self::decodable_bytes(b),
            None => true,
        }
    }

    /// `m` is the optional nested message that the bytes `b` decode to.
    pub open spec fn option_decoded_from(m: Option<Self>, b: Option<Seq<u8>>) -> bool {
        match b {
            Some(b) => m matches Some(m) && m.decoded_from(parse_fields(b)->Some_0),
            None => m is None,
        }
    }

    /// `b` is a well-formed encoding of this message.
    pub open spec fn decodable_bytes(b: Seq<u8>) -> bool {
        parse_fields(b) matches Some(fs) && Self::decodable(fs)
    }

    /// This message is the one that the decoded fields `fs` describe.
    pub open spec fn decoded_from(&self, fs: Seq<FieldV>) -> bool {
        &&& self.name@ == string_value(fs, 1)
        &&& Event::option_decoded_from(self.event, message_value(fs, 2))
        &&& RiskAnalysis::option_decoded_from(self.risk_analysis, message_value(fs, 3))
        &&& TokenProperties::option_decoded_from(self.token_properties, message_value(fs, 4))
    }

    /// The fields of this message, ready to be written.
    pub fn to_fields(&self) -> (r: Vec<Field>)
        ensures
            fields_view(r@) == self.fields(),
    {
        let mut fs: Vec<Field> = Vec::new();
        assert(fields_view(fs@) =~= Seq::<FieldV>::empty());
        push_string(&mut fs, 1, &self.name);
        let event_bytes: Option<Vec<u8>> = match &self.event {
            Some(m) => Some(m.encode_to_vec()),
            None => None,
        };
        push_message(&mut fs, 2, event_bytes);
        let risk_analysis_bytes: Option<Vec<u8>> = match &self.risk_analysis {
            Some(m) => Some(m.encode_to_vec()),
            None => None,
        };
        push_message(&mut fs, 3, risk_analysis_bytes);
        let token_properties_bytes: Option<Vec<u8>> = match &self.token_properties {
            Some(m) => Some(m.encode_to_vec()),
            None => None,
        };
        push_message(&mut fs, 4, token_properties_bytes);
        assert(fields_view(fs@) =~= self.fields());
        fs
    }

    /// The wire encoding of this message.
    pub fn encode_to_vec(&self) -> (r: Vec<u8>)
        ensures
            r@ == self.spec_encoding(),
    {
        let fs = self.to_fields();
        encode_fields(&fs)
    }

    /// The message that the decoded fields `fs` describe.
    pub fn from_fields(fs: &Vec<Field>) -> (r: Result<Self, DecodeError>)
        ensures
            r is Ok <==> Self::decodable(fields_view(fs@)),
            r matches Ok(m) ==> m.decoded_from(fields_view(fs@)),
    {
        let name = match get_string(fs, 1) {
            Ok(v) => v,
            Err(e) => {
                return Err(e);
            },
        };
        let event = match get_payloads(fs, 2) {
            Ok((_, joined)) => match joined {
                Some(b) => match Event::decode(b.as_slice()) {
                    Ok(m) => Some(m),
                    Err(e) => {
                        return Err(e);
                    },
                },
                None => None,
            },
            Err(e) => {
                return Err(e);
            },
        };
        let risk_analysis = match get_payloads(fs, 3) {
            Ok((_, joined)) => match joined {
                Some(b) => match RiskAnalysis::decode(b.as_slice()) {
                    Ok(m) => Some(m),
                    Err(e) => {
                        return Err(e);
                    },
                },
                None => None,
            },
            Err(e) => {
                return Err(e);
            },
        };
        let token_properties = match get_payloads(fs, 4) {
            Ok((_, joined)) => match joined {
                Some(b) => match TokenProperties::decode(b.as_slice()) {
                    Ok(m) => Some(m),
                    Err(e) => {
                        return Err(e);
                    },
                },
                None => None,
            },
            Err(e) => {
                return Err(e);
            },
        };
        Ok(Assessment { name, event, risk_analysis, token_properties })
    }

    /// Decodes a message from its wire encoding.
    pub fn decode(b: &[u8]) -> (r: Result<Self, DecodeError>)
        ensures
            r is Ok <==> Self::decodable_bytes(b@),
            r matches Ok(m) ==> m.decoded_from(parse_fields(b@)->Some_0),
    {
        match decode_fields(b) {
            Ok(fs) => Self::from_fields(&fs),
            Err(e) => Err(e),
        }
    }

    /// The values that decoding gives back unchanged: the keys of each map
    /// are distinct and no float is negative zero, here and in every nested
    /// message.
    pub open spec fn canonical(&self) -> bool {
        &&& match self.event { Some(m) => m.canonical(), None => true }
        &&& match self.risk_analysis { Some(m) => m.canonical(), None => true }
        &&& match self.token_properties { Some(m) => m.canonical(), None => true }
    }

    /// Decoding the encoding of a canonical message gives that message back.
    pub proof fn lemma_round_trip(self)
        requires
            self.spec_encoding().len() <= u64::MAX,
            self.canonical(),
        ensures
            Self::decodable_bytes(self.spec_encoding()),
            self.decoded_from(parse_fields(self.spec_encoding())->Some_0),
    {
        let p1 = string_field(1, self.name@);
        let p2 = message_field(2, Event::option_encoding(self.event));
        let p3 = message_field(3, RiskAnalysis::option_encoding(self.risk_analysis));
        let p4 = message_field(4, TokenProperties::option_encoding(self.token_properties));
        let fs = self.fields();
        assert(fs == p1 + p2 + p3 + p4);
        lemma_string_piece(1, self.name@);
        lemma_message_piece(2, Event::option_encoding(self.event));
        lemma_message_piece(3, RiskAnalysis::option_encoding(self.risk_analysis));
        lemma_message_piece(4, TokenProperties::option_encoding(self.token_properties));
        lemma_only_numbers_ok(p1, 1);
        lemma_only_numbers_ok(p2, 2);
        lemma_only_numbers_ok(p3, 3);
        lemma_only_numbers_ok(p4, 4);
        lemma_numbers_ok_add(p1, p2);
        lemma_numbers_ok_add(p1 + p2, p3);
        lemma_numbers_ok_add(p1 + p2 + p3, p4);
        lemma_fields_ok_when_small(fs);
        lemma_payloads_within(fs);
        assert(all_text(fs, 1) && self.name@ == string_value(fs, 1)) by {
            lemma_only_lacks(p4, 4, 1);
            lemma_agree_suffix(p1 + p2 + p3, p4, 1);
            lemma_only_lacks(p3, 3, 1);
            lemma_agree_suffix(p1 + p2, p3, 1);
            lemma_only_lacks(p2, 2, 1);
            lemma_agree_suffix(p1, p2, 1);
        }
        assert((all_of_type(fs, 2, 2) && Event::option_decodable(message_value(fs, 2))) && Event::option_decoded_from(self.event, message_value(fs, 2))) by {
            lemma_only_lacks(p4, 4, 2);
            lemma_agree_suffix(p1 + p2 + p3, p4, 2);
            lemma_only_lacks(p3, 3, 2);
            lemma_agree_suffix(p1 + p2, p3, 2);
            lemma_only_lacks(p1, 1, 2);
            lemma_agree_prefix(p1, p2, 2);
            match self.event {
                Some(m) => {
                    assert(fs[(p1).len() as int] == p2[0]);
                    m.lemma_round_trip();
                },
                None => {},
            }
        }
        assert((all_of_type(fs, 3, 2) && RiskAnalysis::option_decodable(message_value(fs, 3))) && RiskAnalysis::option_decoded_from(self.risk_analysis, message_value(fs, 3))) by {
            lemma_only_lacks(p4, 4, 3);
            lemma_agree_suffix(p1 + p2 + p3, p4, 3);
            lemma_only_lacks(p1, 1, 3);
            lemma_only_lacks(p2, 2, 3);
            lemma_no_field_add(p1, p2, 3);
            lemma_agree_prefix(p1 + p2, p3, 3);
            match self.risk_analysis {
                Some(m) => {
                    assert(fs[(p1 + p2).len() as int] == p3[0]);
                    m.lemma_round_trip();
                },
                None => {},
            }
        }
        assert((all_of_type(fs, 4, 2) && TokenProperties::option_decodable(message_value(fs, 4))) && TokenProperties::option_decoded_from(self.token_properties, message_value(fs, 4))) by {
            lemma_only_lacks(p1, 1, 4);
            lemma_only_lacks(p2, 2, 4);
            lemma_no_field_add(p1, p2, 4);
            lemma_only_lacks(p3, 3, 4);
            lemma_no_field_add(p1 + p2, p3, 4);
            lemma_agree_prefix(p1 + p2 + p3, p4, 4);
            match self.token_properties {
                Some(m) => {
                    assert(fs[(p1 + p2 + p3).len() as int] == p4[0]);
                    m.lemma_round_trip();
                },
                None => {},
            }
        }
    }
}

/// An event to be assessed.
#[derive(Clone, Debug, PartialEq, Default)]
pub struct Event {
    /// Optional. The user response token provided by the reCAPTCHA client-side integration.
    pub token: String,
    /// Optional. The site key that was used to invoke reCAPTCHA and generate the token.
    pub site_key: String,
    /// Optional. The user agent in the request from the user's device.
    pub user_agent: String,
    /// Optional. The IP address in the request from the user's device.
    pub user_ip_address: String,
    /// Optional. The expected action for this type of event, as provided at token
    /// generation time.
    pub expected_action: String,
}

impl Event {
    /// The fields of this message in field-number order, the ones that
    /// hold a default value left out.
    pub open spec fn fields(&self) -> Seq<FieldV> {
        string_field(1, self.token@)
            + string_field(2, self.site_key@)
            + string_field(3, self.user_agent@)
            + string_field(4, self.user_ip_address@)
            + string_field(5, self.expected_action@)
    }

    /// The wire encoding of this message.
    pub open spec fn spec_encoding(&self) -> Seq<u8> {
        fields_bytes(self.fields())
    }

    /// The decoded fields `fs` are well-formed for this message: each
    /// field has its declared wire type and each nested part decodes.
    pub open spec fn decodable(fs: Seq<FieldV>) -> bool {
        &&& all_text(fs, 1)
        &&& all_text(fs, 2)
        &&& all_text(fs, 3)
        &&& all_text(fs, 4)
        &&& all_text(fs, 5)
    }

    /// The encoding of an optional nested message of this type.
    pub open spec fn option_encoding(m: Option<Self>) -> Option<Seq<u8>> {
        match m {
            Some(m) => Some(m.spec_encoding()),
            None => None,
        }
    }

    /// An optional nested message of this type, as bytes to decode, is
    /// well-formed.
    pub open spec fn option_decodable(b: Option<Seq<u8>>) -> bool {
        match b {
            Some(b) => Self::decodable_bytes(b),
            None => true,
        }
    }

    /// `m` is the optional nested message that the bytes `b` decode to.
    pub open spec fn option_decoded_from(m: Option<Self>, b: Option<Seq<u8>>) -> bool {
        match b {
            Some(b) => m matches Some(m) && m.decoded_from(parse_fields(b)->Some_0),
            None => m is None,
        }
    }

    /// `b` is a well-formed encoding of this message.
    pub open spec fn decodable_bytes(b: Seq<u8>) -> bool {
        parse_fields(b) matches Some(fs) && Self::decodable(fs)
    }

    /// This message is the one that the decoded fields `fs` describe.
    pub open spec fn decoded_from(&self, fs: Seq<FieldV>) -> bool {
        &&& self.token@ == string_value(fs, 1)
        &&& self.site_key@ == string_value(fs, 2)
        &&& self.user_agent@ == string_value(fs, 3)
        &&& self.user_ip_address@ == string_value(fs, 4)
        &&& self.expected_action@ == string_value(fs, 5)
    }

    /// The fields of this message, ready to be written.
    pub fn to_fields(&self) -> (r: Vec<Field>)
        ensures
            fields_view(r@) == self.fields(),
    {
        let mut fs: Vec<Field> = Vec::new();
        assert(fields_view(fs@) =~= Seq::<FieldV>::empty());
        push_string(&mut fs, 1, &self.token);
        push_string(&mut fs, 2, &self.site_key);
        push_string(&mut fs, 3, &self.user_agent);
        push_string(&mut fs, 4, &self.user_ip_address);
        push_string(&mut fs, 5, &self.expected_action);
        assert(fields_view(fs@) =~= self.fields());
        fs
    }

    /// The wire encoding of this message.
    pub fn encode_to_vec(&self) -> (r: Vec<u8>)
        ensures
            r@ == self.spec_encoding(),
    {
        let fs = self.to_fields();
        encode_fields(&fs)
    }

    /// The message that the decoded fields `fs` describe.
    pub fn from_fields(fs: &Vec<Field>) -> (r: Result<Self, DecodeError>)
        ensures
            r is Ok <==> Self::decodable(fields_view(fs@)),
            r matches Ok(m) ==> m.decoded_from(fields_view(fs@)),
    {
        let token = match get_string(fs, 1) {
            Ok(v) => v,
            Err(e) => {
                return Err(e);
            },
        };
        let site_key = match get_string(fs, 2) {
            Ok(v) => v,
            Err(e) => {
                return Err(e);
            },
        };
        let user_agent = match get_string(fs, 3) {
            Ok(v) => v,
            Err(e) => {
                return Err(e);
            },
        };
        let user_ip_address = match get_string(fs, 4) {
            Ok(v) => v,
            Err(e) => {
                return Err(e);
            },
        };
        let expected_action = match get_string(fs, 5) {
            Ok(v) => v,
            Err(e) => {
                return Err(e);
            },
        };
        Ok(Event { token, site_key, user_agent, user_ip_address, expected_action })
    }

    /// Decodes a message from its wire encoding.
    pub fn decode(b: &[u8]) -> (r: Result<Self, DecodeError>)
        ensures
            r is Ok <==> Self::decodable_bytes(b@),
            r matches Ok(m) ==> m.decoded_from(parse_fields(b@)->Some_0),
    {
        match decode_fields(b) {
            Ok(fs) => Self::from_fields(&fs),
            Err(e) => Err(e),
        }
    }

    /// The values that decoding gives back unchanged: the keys of each map
    /// are distinct and no float is negative zero, here and in every nested
    /// message.
    pub open spec fn canonical(&self) -> bool {
        true
    }

    /// Decoding the encoding of a canonical message gives that message back.
    pub proof fn lemma_round_trip(self)
        requires
            self.spec_encoding().len() <= u64::MAX,
            self.canonical(),
        ensures
            Self::decodable_bytes(self.spec_encoding()),
            self.decoded_from(parse_fields(self.spec_encoding())->Some_0),
    {
        let p1 = string_field(1, self.token@);
        let p2 = string_field(2, self.site_key@);
        let p3 = string_field(3, self.user_agent@);
        let p4 = string_field(4, self.user_ip_address@);
        let p5 = string_field(5, self.expected_action@);
        let fs = self.fields();
        assert(fs == p1 + p2 + p3 + p4 + p5);
        lemma_string_piece(1, self.token@);
        lemma_string_piece(2, self.site_key@);
        lemma_string_piece(3, self.user_agent@);
        lemma_string_piece(4, self.user_ip_address@);
        lemma_string_piece(5, self.expected_action@);
        lemma_only_numbers_ok(p1, 1);
        lemma_only_numbers_ok(p2, 2);
        lemma_only_numbers_ok(p3, 3);
        lemma_only_numbers_ok(p4, 4);
        lemma_only_numbers_ok(p5, 5);
        lemma_numbers_ok_add(p1, p2);
        lemma_numbers_ok_add(p1 + p2, p3);
        lemma_numbers_ok_add(p1 + p2 + p3, p4);
        lemma_numbers_ok_add(p1 + p2 + p3 + p4, p5);
        lemma_fields_ok_when_small(fs);
        lemma_payloads_within(fs);
        assert(all_text(fs, 1) && self.token@ == string_value(fs, 1)) by {
            lemma_only_lacks(p5, 5, 1);
            lemma_agree_suffix(p1 + p2 + p3 + p4, p5, 1);
            lemma_only_lacks(p4, 4, 1);
            lemma_agree_suffix(p1 + p2 + p3, p4, 1);
            lemma_only_lacks(p3, 3, 1);
            lemma_agree_suffix(p1 + p2, p3, 1);
            lemma_only_lacks(p2, 2, 1);
            lemma_agree_suffix(p1, p2, 1);
        }
        assert(all_text(fs, 2) && self.site_key@ == string_value(fs, 2)) by {
            lemma_only_lacks(p5, 5, 2);
            lemma_agree_suffix(p1 + p2 + p3 + p4, p5, 2);
            lemma_only_lacks(p4, 4, 2);
            lemma_agree_suffix(p1 + p2 + p3, p4, 2);
            lemma_only_lacks(p3, 3, 2);
            lemma_agree_suffix(p1 + p2, p3, 2);
            lemma_only_lacks(p1, 1, 2);
            lemma_agree_prefix(p1, p2, 2);
        }
        assert(all_text(fs, 3) && self.user_agent@ == string_value(fs, 3)) by {
            lemma_only_lacks(p5, 5, 3);
            lemma_agree_suffix(p1 + p2 + p3 + p4, p5, 3);
            lemma_only_lacks(p4, 4, 3);
            lemma_agree_suffix(p1 + p2 + p3, p4, 3);
            lemma_only_lacks(p1, 1, 3);
            lemma_only_lacks(p2, 2, 3);
            lemma_no_field_add(p1, p2, 3);
            lemma_agree_prefix(p1 + p2, p3, 3);
        }
        assert(all_text(fs, 4) && self.user_ip_address@ == string_value(fs, 4)) by {
            lemma_only_lacks(p5, 5, 4);
            lemma_agree_suffix(p1 + p2 + p3 + p4, p5, 4);
            lemma_only_lacks(p1, 1, 4);
            lemma_only_lacks(p2, 2, 4);
            lemma_no_field_add(p1, p2, 4);
            lemma_only_lacks(p3, 3, 4);
            lemma_no_field_add(p1 + p2, p3, 4);
            lemma_agree_prefix(p1 + p2 + p3, p4, 4);
        }
        assert(all_text(fs, 5) && self.expected_action@ == string_value(fs, 5)) by {
            lemma_only_lacks(p1, 1, 5);
            lemma_only_lacks(p2, 2, 5);
            lemma_no_field_add(p1, p2, 5);
            lemma_only_lacks(p3, 3, 5);
            lemma_no_field_add(p1 + p2, p3, 5);
            lemma_only_lacks(p4, 4, 5);
            lemma_no_field_add(p1 + p2 + p3, p4, 5);
            lemma_agree_prefix(p1 + p2 + p3 + p4, p5, 5);
        }
    }
}

/// Risk analysis result for an event.
#[derive(Clone, Debug, PartialEq, Default)]
pub struct RiskAnalysis {
    /// Legitimate event score from 0.0 to 1.0 (1.0 means very likely legitimate),
    /// held as the bit pattern of the single-precision float.
    pub score_bits: u32,
    /// Reasons contributing to the risk analysis verdict, values of
    /// `risk_analysis::ClassificationReason`.
    pub reasons: Vec<i32>,
}

impl RiskAnalysis {
    /// The fields of this message in field-number order, the ones that
    /// hold a default value left out.
    pub open spec fn fields(&self) -> Seq<FieldV> {
        float_field(1, self.score_bits)
            + packed_field(2, self.reasons@)
    }

    /// The wire encoding of this message.
    pub open spec fn spec_encoding(&self) -> Seq<u8> {
        fields_bytes(self.fields())
    }

    /// The decoded fields `fs` are well-formed for this message: each
    /// field has its declared wire type and each nested part decodes.
    pub open spec fn decodable(fs: Seq<FieldV>) -> bool {
        &&& all_of_type(fs, 1, 5)
        &&& packed_value(fs, 2) is Some
    }

    /// The encoding of an optional nested message of this type.
    pub open spec fn option_encoding(m: Option<Self>) -> Option<Seq<u8>> {
        match m {
            Some(m) => Some(m.spec_encoding()),
            None => None,
        }
    }

    /// An optional nested message of this type, as bytes to decode, is
    /// well-formed.
    pub open spec fn option_decodable(b: Option<Seq<u8>>) -> bool {
        match b {
            Some(b) => Self::decodable_bytes(b),
            None => true,
        }
    }

    /// `m` is the optional nested message that the bytes `b` decode to.
    pub open spec fn option_decoded_from(m: Option<Self>, b: Option<Seq<u8>>) -> bool {
        match b {
            Some(b) => m matches Some(m) && m.decoded_from(parse_fields(b)->Some_0),
            None => m is None,
        }
    }

    /// `b` is a well-formed encoding of this message.
    pub open spec fn decodable_bytes(b: Seq<u8>) -> bool {
        parse_fields(b) matches Some(fs) && Self::decodable(fs)
    }

    /// This message is the one that the decoded fields `fs` describe.
    pub open spec fn decoded_from(&self, fs: Seq<FieldV>) -> bool {
        &&& self.score_bits == fixed32_value(fs, 1)
        &&& self.reasons@ == packed_value(fs, 2)->Some_0.map_values(|v: u64| v as i32)
    }

    /// The fields of this message, ready to be written.
    pub fn to_fields(&self) -> (r: Vec<Field>)
        ensures
            fields_view(r@) == self.fields(),
    {
        let mut fs: Vec<Field> = Vec::new();
        assert(fields_view(fs@) =~= Seq::<FieldV>::empty());
        push_float(&mut fs, 1, self.score_bits);
        push_packed(&mut fs, 2, &self.reasons);
        assert(fields_view(fs@) =~= self.fields());
        fs
    }

    /// The wire encoding of this message.
    pub fn encode_to_vec(&self) -> (r: Vec<u8>)
        ensures
            r@ == self.spec_encoding(),
    {
        let fs = self.to_fields();
        encode_fields(&fs)
    }

    /// The message that the decoded fields `fs` describe.
    pub fn from_fields(fs: &Vec<Field>) -> (r: Result<Self, DecodeError>)
        ensures
            r is Ok <==> Self::decodable(fields_view(fs@)),
            r matches Ok(m) ==> m.decoded_from(fields_view(fs@)),
    {
        let score_bits = match get_fixed32_value(fs, 1) {
            Ok(v) => v,
            Err(e) => {
                return Err(e);
            },
        };
        let reasons = match get_packed(fs, 2) {
            Ok(v) => v,
            Err(e) => {
                return Err(e);
            },
        };
        Ok(RiskAnalysis { score_bits, reasons })
    }

    /// Decodes a message from its wire encoding.
    pub fn decode(b: &[u8]) -> (r: Result<Self, DecodeError>)
        ensures
            r is Ok <==> Self::decodable_bytes(b@),
            r matches Ok(m) ==> m.decoded_from(parse_fields(b@)->Some_0),
    {
        match decode_fields(b) {
            Ok(fs) => Self::from_fields(&fs),
            Err(e) => Err(e),
        }
    }

    /// The values that decoding gives back unchanged: the keys of each map
    /// are distinct and no float is negative zero, here and in every nested
    /// message.
    pub open spec fn canonical(&self) -> bool {
        &&& self.score_bits != 0x8000_0000
    }

    /// Decoding the encoding of a canonical message gives that message back.
    pub proof fn lemma_round_trip(self)
        requires
            self.spec_encoding().len() <= u64::MAX,
            self.canonical(),
        ensures
            Self::decodable_bytes(self.spec_encoding()),
            self.decoded_from(parse_fields(self.spec_encoding())->Some_0),
    {
        let p1 = float_field(1, self.score_bits);
        let p2 = packed_field(2, self.reasons@);
        let fs = self.fields();
        assert(fs == p1 + p2);
        lemma_float_piece(1, self.score_bits);
        lemma_packed_piece(2, self.reasons@);
        lemma_only_numbers_ok(p1, 1);
        lemma_only_numbers_ok(p2, 2);
        lemma_numbers_ok_add(p1, p2);
        lemma_fields_ok_when_small(fs);
        lemma_payloads_within(fs);
        assert(all_of_type(fs, 1, 5) && self.score_bits == fixed32_value(fs, 1)) by {
            lemma_only_lacks(p2, 2, 1);
            lemma_agree_suffix(p1, p2, 1);
        }
        assert(packed_value(fs, 2) is Some && self.reasons@ == packed_value(fs, 2)->Some_0.map_values(|v: u64| v as i32)) by {
            lemma_only_lacks(p1, 1, 2);
            lemma_agree_prefix(p1, p2, 2);
        }
    }
}

/// Properties of a user response token.
#[derive(Clone, Debug, PartialEq, Default)]
pub struct TokenProperties {
    /// Whether the provided user response token is valid.
    pub valid: bool,
    /// Reason associated with the response when valid = false, a value of
    /// `token_properties::InvalidReason`.
    pub invalid_reason: i32,
    /// The timestamp corresponding to the generation of the token.
    pub create_time: Option<Timestamp>,
    /// The hostname of the page on which the token was generated.
    pub hostname: String,
    /// Action name provided at token generation.
    pub action: String,
}

impl TokenProperties {
    /// The fields of this message in field-number order, the ones that
    /// hold a default value left out.
    pub open spec fn fields(&self) -> Seq<FieldV> {
        bool_field(1, self.valid)
            + int32_field(2, self.invalid_reason)
            + message_field(3, Timestamp::option_encoding(self.create_time))
            + string_field(4, self.hostname@)
            + string_field(5, self.action@)
    }

    /// The wire encoding of this message.
    pub open spec fn spec_encoding(&self) -> Seq<u8> {
        fields_bytes(self.fields())
    }

    /// The decoded fields `fs` are well-formed for this message: each
    /// field has its declared wire type and each nested part decodes.
    pub open spec fn decodable(fs: Seq<FieldV>) -> bool {
        &&& all_of_type(fs, 1, 0)
        &&& all_of_type(fs, 2, 0)
        &&& (all_of_type(fs, 3, 2) && Timestamp::option_decodable(message_value(fs, 3)))
        &&& all_text(fs, 4)
        &&& all_text(fs, 5)
    }

    /// The encoding of an optional nested message of this type.
    pub open spec fn option_encoding(m: Option<Self>) -> Option<Seq<u8>> {
        match m {
            Some(m) => Some(m.spec_encoding()),
            None => None,
        }
    }

    /// An optional nested message of this type, as bytes to decode, is
    /// well-formed.
    pub open spec fn option_decodable(b: Option<Seq<u8>>) -> bool {
        match b {
            Some(b) => Self::decodable_bytes(b),
            None => true,
        }
    }

    /// `m` is the optional nested message that the bytes `b` decode to.
    pub open spec fn option_decoded_from(m: Option<Self>, b: Option<Seq<u8>>) -> bool {
        match b {
            Some(b) => m matches Some(m) && m.decoded_from(parse_fields(b)->Some_0),
            None => m is None,
        }
    }

    /// `b` is a well-formed encoding of this message.
    pub open spec fn decodable_bytes(b: Seq<u8>) -> bool {
        parse_fields(b) matches Some(fs) && Self::decodable(fs)
    }

    /// This message is the one that the decoded fields `fs` describe.
    pub open spec fn decoded_from(&self, fs: Seq<FieldV>) -> bool {
        &&& self.valid == (varint_value(fs, 1) != 0)
        &&& self.invalid_reason == varint_value(fs, 2) as i32
        &&& Timestamp::option_decoded_from(self.create_time, message_value(fs, 3))
        &&& self.hostname@ == string_value(fs, 4)
        &&& self.action@ == string_value(fs, 5)
    }

    /// The fields of this message, ready to be written.
    pub fn to_fields(&self) -> (r: Vec<Field>)
        ensures
            fields_view(r@) == self.fields(),
    {
        let mut fs: Vec<Field> = Vec::new();
        assert(fields_view(fs@) =~= Seq::<FieldV>::empty());
        push_bool(&mut fs, 1, self.valid);
        push_int32(&mut fs, 2, self.invalid_reason);
        let create_time_bytes: Option<Vec<u8>> = match &self.create_time {
            Some(m) => Some(m.encode_to_vec()),
            None => None,
        };
        push_message(&mut fs, 3, create_time_bytes);
        push_string(&mut fs, 4, &self.hostname);
        push_string(&mut fs, 5, &self.action);
        assert(fields_view(fs@) =~= self.fields());
        fs
    }

    /// The wire encoding of this message.
    pub fn encode_to_vec(&self) -> (r: Vec<u8>)
        ensures
            r@ == self.spec_encoding(),
    {
        let fs = self.to_fields();
        encode_fields(&fs)
    }

    /// The message that the decoded fields `fs` describe.
    pub fn from_fields(fs: &Vec<Field>) -> (r: Result<Self, DecodeError>)
        ensures
            r is Ok <==> Self::decodable(fields_view(fs@)),
            r matches Ok(m) ==> m.decoded_from(fields_view(fs@)),
    {
        let valid = match get_varint_value(fs, 1) {
            Ok(v) => v != 0,
            Err(e) => {
                return Err(e);
            },
        };
        let invalid_reason = match get_varint_value(fs, 2) {
            Ok(v) => v as i32,
            Err(e) => {
                return Err(e);
            },
        };
        let create_time = match get_payloads(fs, 3) {
            Ok((_, joined)) => match joined {
                Some(b) => match Timestamp::decode(b.as_slice()) {
                    Ok(m) => Some(m),
                    Err(e) => {
                        return Err(e);
                    },
                },
                None => None,
            },
            Err(e) => {
                return Err(e);
            },
        };
        let hostname = match get_string(fs, 4) {
            Ok(v) => v,
            Err(e) => {
                return Err(e);
            },
        };
        let action = match get_string(fs, 5) {
            Ok(v) => v,
            Err(e) => {
                return Err(e);
            },
        };
        Ok(TokenProperties { valid, invalid_reason, create_time, hostname, action })
    }

    /// Decodes a message from its wire encoding.
    pub fn decode(b: &[u8]) -> (r: Result<Self, DecodeError>)
        ensures
            r is Ok <==> Self::decodable_bytes(b@),
            r matches Ok(m) ==> m.decoded_from(parse_fields(b@)->Some_0),
    {
        match decode_fields(b) {
            Ok(fs) => Self::from_fields(&fs),
            Err(e) => Err(e),
        }
    }

    /// The values that decoding gives back unchanged: the keys of each map
    /// are distinct and no float is negative zero, here and in every nested
    /// message.
    pub open spec fn canonical(&self) -> bool {
        &&& match self.create_time { Some(m) => m.canonical(), None => true }
    }

    /// Decoding the encoding of a canonical message gives that message back.
    pub proof fn lemma_round_trip(self)
        requires
            self.spec_encoding().len() <= u64::MAX,
            self.canonical(),
        ensures
            Self::decodable_bytes(self.spec_encoding()),
            self.decoded_from(parse_fields(self.spec_encoding())->Some_0),
    {
        let p1 = bool_field(1, self.valid);
        let p2 = int32_field(2, self.invalid_reason);
        let p3 = message_field(3, Timestamp::option_encoding(self.create_time));
        let p4 = string_field(4, self.hostname@);
        let p5 = string_field(5, self.action@);
        let fs = self.fields();
        assert(fs == p1 + p2 + p3 + p4 + p5);
        lemma_varint_piece(1, if self.valid { 1 } else { 0 });
        lemma_varint_piece(2, self.invalid_reason as u64);
        lemma_int32_cast(self.invalid_reason);
        lemma_message_piece(3, Timestamp::option_encoding(self.create_time));
        lemma_string_piece(4, self.hostname@);
        lemma_string_piece(5, self.action@);
        lemma_only_numbers_ok(p1, 1);
        lemma_only_numbers_ok(p2, 2);
        lemma_only_numbers_ok(p3, 3);
        lemma_only_numbers_ok(p4, 4);
        lemma_only_numbers_ok(p5, 5);
        lemma_numbers_ok_add(p1, p2);
        lemma_numbers_ok_add(p1 + p2, p3);
        lemma_numbers_ok_add(p1 + p2 + p3, p4);
        lemma_numbers_ok_add(p1 + p2 + p3 + p4, p5);
        lemma_fields_ok_when_small(fs);
        lemma_payloads_within(fs);
        assert(all_of_type(fs, 1, 0) && self.valid == (varint_value(fs, 1) != 0)) by {
            lemma_only_lacks(p5, 5, 1);
            lemma_agree_suffix(p1 + p2 + p3 + p4, p5, 1);
            lemma_only_lacks(p4, 4, 1);
            lemma_agree_suffix(p1 + p2 + p3, p4, 1);
            lemma_only_lacks(p3, 3, 1);
            lemma_agree_suffix(p1 + p2, p3, 1);
            lemma_only_lacks(p2, 2, 1);
            lemma_agree_suffix(p1, p2, 1);
        }
        assert(all_of_type(fs, 2, 0) && self.invalid_reason == varint_value(fs, 2) as i32) by {
            lemma_only_lacks(p5, 5, 2);
            lemma_agree_suffix(p1 + p2 + p3 + p4, p5, 2);
            lemma_only_lacks(p4, 4, 2);
            lemma_agree_suffix(p1 + p2 + p3, p4, 2);
            lemma_only_lacks(p3, 3, 2);
            lemma_agree_suffix(p1 + p2, p3, 2);
            lemma_only_lacks(p1, 1, 2);
            lemma_agree_prefix(p1, p2, 2);
        }
        assert((all_of_type(fs, 3, 2) && Timestamp::option_decodable(message_value(fs, 3))) && Timestamp::option_decoded_from(self.create_time, message_value(fs, 3))) by {
            lemma_only_lacks(p5, 5, 3);
            lemma_agree_suffix(p1 + p2 + p3 + p4, p5, 3);
            lemma_only_lacks(p4, 4, 3);
            lemma_agree_suffix(p1 + p2 + p3, p4, 3);
            lemma_only_lacks(p1, 1, 3);
            lemma_only_lacks(p2, 2, 3);
            lemma_no_field_add(p1, p2, 3);
            lemma_agree_prefix(p1 + p2, p3, 3);
            match self.create_time {
                Some(m) => {
                    assert(fs[(p1 + p2).len() as int] == p3[0]);
                    m.lemma_round_trip();
                },
                None => {},
            }
        }
        assert(all_text(fs, 4) && self.hostname@ == string_value(fs, 4)) by {
            lemma_only_lacks(p5, 5, 4);
            lemma_agree_suffix(p1 + p2 + p3 + p4, p5, 4);
            lemma_only_lacks(p1, 1, 4);
            lemma_only_lacks(p2, 2, 4);
            lemma_no_field_add(p1, p2, 4);
            lemma_only_lacks(p3, 3, 4);
            lemma_no_field_add(p1 + p2, p3, 4);
            lemma_agree_prefix(p1 + p2 + p3, p4, 4);
        }
        assert(all_text(fs, 5) && self.action@ == string_value(fs, 5)) by {
            lemma_only_lacks(p1, 1, 5);
            lemma_only_lacks(p2, 2, 5);
            lemma_no_field_add(p1, p2, 5);
            lemma_only_lacks(p3, 3, 5);
            lemma_no_field_add(p1 + p2, p3, 5);
            lemma_only_lacks(p4, 4, 5);
            lemma_no_field_add(p1 + p2 + p3, p4, 5);
            lemma_agree_prefix(p1 + p2 + p3 + p4, p5, 5);
        }
    }
}

/// The create key request message.
#[derive(Clone, Debug, PartialEq, Default)]
pub struct CreateKeyRequest {
    /// Required. The name of the project in which the key will be created, in the
    /// format "projects/{project}".
    pub parent: String,
    /// Required. Information to create a reCAPTCHA Enterprise key.
    pub key: Option<Key>,
}

impl CreateKeyRequest {
    /// The fields of this message in field-number order, the ones that
    /// hold a default value left out.
    pub open spec fn fields(&self) -> Seq<FieldV> {
        string_field(1, self.parent@)
            + message_field(2, Key::option_encoding(self.key))
    }

    /// The wire encoding of this message.
    pub open spec fn spec_encoding(&self) -> Seq<u8> {
        fields_bytes(self.fields())
    }

    /// The decoded fields `fs` are well-formed for this message: each
    /// field has its declared wire type and each nested part decodes.
    pub open spec fn decodable(fs: Seq<FieldV>) -> bool {
        &&& all_text(fs, 1)
        &&& (all_of_type(fs, 2, 2) && Key::option_decodable(message_value(fs, 2)))
    }

    /// The encoding of an optional nested message of this type.
    pub open spec fn option_encoding(m: Option<Self>) -> Option<Seq<u8>> {
        match m {
            Some(m) => Some(m.spec_encoding()),
            None => None,
        }
    }

    /// An optional nested message of this type, as bytes to decode, is
    /// well-formed.
    pub open spec fn option_decodable(b: Option<Seq<u8>>) -> bool {
        match b {
            Some(b) => Self::decodable_bytes(b),
            None => true,
        }
    }

    /// `m` is the optional nested message that the bytes `b` decode to.
    pub open spec fn option_decoded_from(m: Option<Self>, b: Option<Seq<u8>>) -> bool {
        match b {
            Some(b) => m matches Some(m) && m.decoded_from(parse_fields(b)->Some_0),
            None => m is None,
        }
    }

    /// `b` is a well-formed encoding of this message.
    pub open spec fn decodable_bytes(b: Seq<u8>) -> bool {
        parse_fields(b) matches Some(fs) && Self::decodable(fs)
    }

    /// This message is the one that the decoded fields `fs` describe.
    pub open spec fn decoded_from(&self, fs: Seq<FieldV>) -> bool {
        &&& self.parent@ == string_value(fs, 1)
        &&& Key::option_decoded_from(self.key, message_value(fs, 2))
    }

    /// The fields of this message, ready to be written.
    pub fn to_fields(&self) -> (r: Vec<Field>)
        ensures
            fields_view(r@) == self.fields(),
    {
        let mut fs: Vec<Field> = Vec::new();
        assert(fields_view(fs@) =~= Seq::<FieldV>::empty());
        push_string(&mut fs, 1, &self.parent);
        let key_bytes: Option<Vec<u8>> = match &self.key {
            Some(m) => Some(m.encode_to_vec()),
            None => None,
        };
        push_message(&mut fs, 2, key_bytes);
        assert(fields_view(fs@) =~= self.fields());
        fs
    }

    /// The wire encoding of this message.
    pub fn encode_to_vec(&self) -> (r: Vec<u8>)
        ensures
            r@ == self.spec_encoding(),
    {
        let fs = self.to_fields();
        encode_fields(&fs)
    }

    /// The message that the decoded fields `fs` describe.
    pub fn from_fields(fs: &Vec<Field>) -> (r: Result<Self, DecodeError>)
        ensures
            r is Ok <==> Self::decodable(fields_view(fs@)),
            r matches Ok(m) ==> m.decoded_from(fields_view(fs@)),
    {
        let parent = match get_string(fs, 1) {
            Ok(v) => v,
            Err(e) => {
                return Err(e);
            },
        };
        let key = match get_payloads(fs, 2) {
            Ok((_, joined)) => match joined {
                Some(b) => match Key::decode(b.as_slice()) {
                    Ok(m) => Some(m),
                    Err(e) => {
                        return Err(e);
                    },
                },
                None => None,
            },
            Err(e) => {
                return Err(e);
            },
        };
        Ok(CreateKeyRequest { parent, key })
    }

    /// Decodes a message from its wire encoding.
    pub fn decode(b: &[u8]) -> (r: Result<Self, DecodeError>)
        ensures
            r is Ok <==> Self::decodable_bytes(b@),
            r matches Ok(m) ==> m.decoded_from(parse_fields(b@)->Some_0),
    {
        match decode_fields(b) {
            Ok(fs) => Self::from_fields(&fs),
            Err(e) => Err(e),
        }
    }

    /// The values that decoding gives back unchanged: the keys of each map
    /// are distinct and no float is negative zero, here and in every nested
    /// message.
    pub open spec fn canonical(&self) -> bool {
        &&& match self.key { Some(m) => m.canonical(), None => true }
    }

    /// Decoding the encoding of a canonical message gives that message back.
    pub proof fn lemma_round_trip(self)
        requires
            self.spec_encoding().len() <= u64::MAX,
            self.canonical(),
        ensures
            Self::decodable_bytes(self.spec_encoding()),
            self.decoded_from(parse_fields(self.spec_encoding())->Some_0),
    {
        let p1 = string_field(1, self.parent@);
        let p2 = message_field(2, Key::option_encoding(self.key));
        let fs = self.fields();
        assert(fs == p1 + p2);
        lemma_string_piece(1, self.parent@);
        lemma_message_piece(2, Key::option_encoding(self.key));
        lemma_only_numbers_ok(p1, 1);
        lemma_only_numbers_ok(p2, 2);
        lemma_numbers_ok_add(p1, p2);
        lemma_fields_ok_when_small(fs);
        lemma_payloads_within(fs);
        assert(all_text(fs, 1) && self.parent@ == string_value(fs, 1)) by {
            lemma_only_lacks(p2, 2, 1);
            lemma_agree_suffix(p1, p2, 1);
        }
        assert((all_of_type(fs, 2, 2) && Key::option_decodable(message_value(fs, 2))) && Key::option_decoded_from(self.key, message_value(fs, 2))) by {
            lemma_only_lacks(p1, 1, 2);
            lemma_agree_prefix(p1, p2, 2);
            match self.key {
                Some(m) => {
                    assert(fs[(p1).len() as int] == p2[0]);
                    m.lemma_round_trip();
                },
                None => {},
            }
        }
    }
}

/// The list keys request message.
#[derive(Clone, Debug, PartialEq, Default)]
pub struct ListKeysRequest {
    /// Required. The name of the project that contains the keys that will be
    /// listed, in the format "projects/{project}".
    pub parent: String,
    /// Optional. The maximum number of keys to return. Default is 10. Max limit is 1000.
    pub page_size: i32,
    /// Optional. The next_page_token value returned from a previous ListKeysRequest, if any.
    pub page_token: String,
}

impl ListKeysRequest {
    /// The fields of this message in field-number order, the ones that
    /// hold a default value left out.
    pub open spec fn fields(&self) -> Seq<FieldV> {
        string_field(1, self.parent@)
            + int32_field(2, self.page_size)
            + string_field(3, self.page_token@)
    }

    /// The wire encoding of this message.
    pub open spec fn spec_encoding(&self) -> Seq<u8> {
        fields_bytes(self.fields())
    }

    /// The decoded fields `fs` are well-formed for this message: each
    /// field has its declared wire type and each nested part decodes.
    pub open spec fn decodable(fs: Seq<FieldV>) -> bool {
        &&& all_text(fs, 1)
        &&& all_of_type(fs, 2, 0)
        &&& all_text(fs, 3)
    }

    /// The encoding of an optional nested message of this type.
    pub open spec fn option_encoding(m: Option<Self>) -> Option<Seq<u8>> {
        match m {
            Some(m) => Some(m.spec_encoding()),
            None => None,
        }
    }

    /// An optional nested message of this type, as bytes to decode, is
    /// well-formed.
    pub open spec fn option_decodable(b: Option<Seq<u8>>) -> bool {
        match b {
            Some(b) => Self::decodable_bytes(b),
            None => true,
        }
    }

    /// `m` is the optional nested message that the bytes `b` decode to.
    pub open spec fn option_decoded_from(m: Option<Self>, b: Option<Seq<u8>>) -> bool {
        match b {
            Some(b) => m matches Some(m) && m.decoded_from(parse_fields(b)->Some_0),
            None => m is None,
        }
    }

    /// `b` is a well-formed encoding of this message.
    pub open spec fn decodable_bytes(b: Seq<u8>) -> bool {
        parse_fields(b) matches Some(fs) && Self::decodable(fs)
    }

    /// This message is the one that the decoded fields `fs` describe.
    pub open spec fn decoded_from(&self, fs: Seq<FieldV>) -> bool {
        &&& self.parent@ == string_value(fs, 1)
        &&& self.page_size == varint_value(fs, 2) as i32
        &&& self.page_token@ == string_value(fs, 3)
    }

    /// The fields of this message, ready to be written.
    pub fn to_fields(&self) -> (r: Vec<Field>)
        ensures
            fields_view(r@) == self.fields(),
    {
        let mut fs: Vec<Field> = Vec::new();
        assert(fields_view(fs@) =~= Seq::<FieldV>::empty());
        push_string(&mut fs, 1, &self.parent);
        push_int32(&mut fs, 2, self.page_size);
        push_string(&mut fs, 3, &self.page_token);
        assert(fields_view(fs@) =~= self.fields());
        fs
    }

    /// The wire encoding of this message.
    pub fn encode_to_vec(&self) -> (r: Vec<u8>)
        ensures
            r@ == self.spec_encoding(),
    {
        let fs = self.to_fields();
        encode_fields(&fs)
    }

    /// The message that the decoded fields `fs` describe.
    pub fn from_fields(fs: &Vec<Field>) -> (r: Result<Self, DecodeError>)
        ensures
            r is Ok <==> Self::decodable(fields_view(fs@)),
            r matches Ok(m) ==> m.decoded_from(fields_view(fs@)),
    {
        let parent = match get_string(fs, 1) {
            Ok(v) => v,
            Err(e) => {
                return Err(e);
            },
        };
        let page_size = match get_varint_value(fs, 2) {
            Ok(v) => v as i32,
            Err(e) => {
                return Err(e);
            },
        };
        let page_token = match get_string(fs, 3) {
            Ok(v) => v,
            Err(e) => {
                return Err(e);
            },
        };
        Ok(ListKeysRequest { parent, page_size, page_token })
    }

    /// Decodes a message from its wire encoding.
    pub fn decode(b: &[u8]) -> (r: Result<Self, DecodeError>)
        ensures
            r is Ok <==> Self::decodable_bytes(b@),
            r matches Ok(m) ==> m.decoded_from(parse_fields(b@)->Some_0),
    {
        match decode_fields(b) {
            Ok(fs) => Self::from_fields(&fs),
            Err(e) => Err(e),
        }
    }

    /// The values that decoding gives back unchanged: the keys of each map
    /// are distinct and no float is negative zero, here and in every nested
    /// message.
    pub open spec fn canonical(&self) -> bool {
        true
    }

    /// Decoding the encoding of a canonical message gives that message back.
    pub proof fn lemma_round_trip(self)
        requires
            self.spec_encoding().len() <= u64::MAX,
            self.canonical(),
        ensures
            Self::decodable_bytes(self.spec_encoding()),
            self.decoded_from(parse_fields(self.spec_encoding())->Some_0),
    {
        let p1 = string_field(1, self.parent@);
        let p2 = int32_field(2, self.page_size);
        let p3 = string_field(3, self.page_token@);
        let fs = self.fields();
        assert(fs == p1 + p2 + p3);
        lemma_string_piece(1, self.parent@);
        lemma_varint_piece(2, self.page_size as u64);
        lemma_int32_cast(self.page_size);
        lemma_string_piece(3, self.page_token@);
        lemma_only_numbers_ok(p1, 1);
        lemma_only_numbers_ok(p2, 2);
        lemma_only_numbers_ok(p3, 3);
        lemma_numbers_ok_add(p1, p2);
        lemma_numbers_ok_add(p1 + p2, p3);
        lemma_fields_ok_when_small(fs);
        lemma_payloads_within(fs);
        assert(all_text(fs, 1) && self.parent@ == string_value(fs, 1)) by {
            lemma_only_lacks(p3, 3, 1);
            lemma_agree_suffix(p1 + p2, p3, 1);
            lemma_only_lacks(p2, 2, 1);
            lemma_agree_suffix(p1, p2, 1);
        }
        assert(all_of_type(fs, 2, 0) && self.page_size == varint_value(fs, 2) as i32) by {
            lemma_only_lacks(p3, 3, 2);
            lemma_agree_suffix(p1 + p2, p3, 2);
            lemma_only_lacks(p1, 1, 2);
            lemma_agree_prefix(p1, p2, 2);
        }
        assert(all_text(fs, 3) && self.page_token@ == string_value(fs, 3)) by {
            lemma_only_lacks(p1, 1, 3);
            lemma_only_lacks(p2, 2, 3);
            lemma_no_field_add(p1, p2, 3);
            lemma_agree_prefix(p1 + p2, p3, 3);
        }
    }
}

/// Response to request to list keys in a project.
#[derive(Clone, Debug, PartialEq, Default)]
pub struct ListKeysResponse {
    /// Key details.
    pub keys: Vec<Key>,
    /// Token to retrieve the next page of results. It is set to empty if no keys
    /// remain in results.
    pub next_page_token: String,
}

impl ListKeysResponse {
    /// The fields of this message in field-number order, the ones that
    /// hold a default value left out.
    pub open spec fn fields(&self) -> Seq<FieldV> {
        messages_field(1, Key::list_encoding(self.keys@))
            + string_field(2, self.next_page_token@)
    }

    /// The wire encoding of this message.
    pub open spec fn spec_encoding(&self) -> Seq<u8> {
        fields_bytes(self.fields())
    }

    /// The decoded fields `fs` are well-formed for this message: each
    /// field has its declared wire type and each nested part decodes.
    pub open spec fn decodable(fs: Seq<FieldV>) -> bool {
        &&& (all_of_type(fs, 1, 2) && Key::list_decodable(payloads_value(fs, 1)))
        &&& all_text(fs, 2)
    }

    /// The encoding of an optional nested message of this type.
    pub open spec fn option_encoding(m: Option<Self>) -> Option<Seq<u8>> {
        match m {
            Some(m) => Some(m.spec_encoding()),
            None => None,
        }
    }

    /// An optional nested message of this type, as bytes to decode, is
    /// well-formed.
    pub open spec fn option_decodable(b: Option<Seq<u8>>) -> bool {
        match b {
            Some(b) => Self::decodable_bytes(b),
            None => true,
        }
    }

    /// `m` is the optional nested message that the bytes `b` decode to.
    pub open spec fn option_decoded_from(m: Option<Self>, b: Option<Seq<u8>>) -> bool {
        match b {
            Some(b) => m matches Some(m) && m.decoded_from(parse_fields(b)->Some_0),
            None => m is None,
        }
    }

    /// `b` is a well-formed encoding of this message.
    pub open spec fn decodable_bytes(b: Seq<u8>) -> bool {
        parse_fields(b) matches Some(fs) && Self::decodable(fs)
    }

    /// This message is the one that the decoded fields `fs` describe.
    pub open spec fn decoded_from(&self, fs: Seq<FieldV>) -> bool {
        &&& Key::list_decoded_from(self.keys@, payloads_value(fs, 1))
        &&& self.next_page_token@ == string_value(fs, 2)
    }

    /// The fields of this message, ready to be written.
    pub fn to_fields(&self) -> (r: Vec<Field>)
        ensures
            fields_view(r@) == self.fields(),
    {
        let mut fs: Vec<Field> = Vec::new();
        assert(fields_view(fs@) =~= Seq::<FieldV>::empty());
        push_messages(&mut fs, 1, Key::encode_list(&self.keys));
        push_string(&mut fs, 2, &self.next_page_token);
        assert(fields_view(fs@) =~= self.fields());
        fs
    }

    /// The wire encoding of this message.
    pub fn encode_to_vec(&self) -> (r: Vec<u8>)
        ensures
            r@ == self.spec_encoding(),
    {
        let fs = self.to_fields();
        encode_fields(&fs)
    }

    /// The message that the decoded fields `fs` describe.
    pub fn from_fields(fs: &Vec<Field>) -> (r: Result<Self, DecodeError>)
        ensures
            r is Ok <==> Self::decodable(fields_view(fs@)),
            r matches Ok(m) ==> m.decoded_from(fields_view(fs@)),
    {
        let keys = match get_payloads(fs, 1) {
            Ok((each, _)) => match Key::decode_list(&each) {
                Ok(v) => v,
                Err(e) => {
                    return Err(e);
                },
            },
            Err(e) => {
                return Err(e);
            },
        };
        let next_page_token = match get_string(fs, 2) {
            Ok(v) => v,
            Err(e) => {
                return Err(e);
            },
        };
        Ok(ListKeysResponse { keys, next_page_token })
    }

    /// Decodes a message from its wire encoding.
    pub fn decode(b: &[u8]) -> (r: Result<Self, DecodeError>)
        ensures
            r is Ok <==> Self::decodable_bytes(b@),
            r matches Ok(m) ==> m.decoded_from(parse_fields(b@)->Some_0),
    {
        match decode_fields(b) {
            Ok(fs) => Self::from_fields(&fs),
            Err(e) => Err(e),
        }
    }

    /// The values that decoding gives back unchanged: the keys of each map
    /// are distinct and no float is negative zero, here and in every nested
    /// message.
    pub open spec fn canonical(&self) -> bool {
        &&& forall|i: int| 0 <= i < self.keys@.len() ==> #[trigger] self.keys@[i].canonical()
    }

    /// Decoding the encoding of a canonical message gives that message back.
    pub proof fn lemma_round_trip(self)
        requires
            self.spec_encoding().len() <= u64::MAX,
            self.canonical(),
        ensures
            Self::decodable_bytes(self.spec_encoding()),
            self.decoded_from(parse_fields(self.spec_encoding())->Some_0),
    {
        let p1 = messages_field(1, Key::list_encoding(self.keys@));
        let p2 = string_field(2, self.next_page_token@);
        let fs = self.fields();
        assert(fs == p1 + p2);
        lemma_messages_piece(1, Key::list_encoding(self.keys@));
        lemma_string_piece(2, self.next_page_token@);
        lemma_only_numbers_ok(p1, 1);
        lemma_only_numbers_ok(p2, 2);
        lemma_numbers_ok_add(p1, p2);
        lemma_fields_ok_when_small(fs);
        lemma_payloads_within(fs);
        assert((all_of_type(fs, 1, 2) && Key::list_decodable(payloads_value(fs, 1))) && Key::list_decoded_from(self.keys@, payloads_value(fs, 1))) by {
            lemma_only_lacks(p2, 2, 1);
            lemma_agree_suffix(p1, p2, 1);
            assert forall|j: int| 0 <= j < self.keys@.len() implies Key::decodable_bytes(#[trigger] Key::list_encoding(self.keys@)[j])
                && self.keys@[j].decoded_from(parse_fields(Key::list_encoding(self.keys@)[j])->Some_0) by {
                let w = choose|w: int| 0 <= w < p1.len() && Key::list_encoding(self.keys@)[j] == payload_of(p1[w].value);
                assert(fs[0 + w] == p1[w]);
                self.keys@[j].lemma_round_trip();
            }
        }
        assert(all_text(fs, 2) && self.next_page_token@ == string_value(fs, 2)) by {
            lemma_only_lacks(p1, 1, 2);
            lemma_agree_prefix(p1, p2, 2);
        }
    }
}

/// The get key request message.
#[derive(Clone, Debug, PartialEq, Default)]
pub struct GetKeyRequest {
    /// Required. The name of the requested key, in the format "projects/{project}/keys/{key}".
    pub name: String,
}

impl GetKeyRequest {
    /// The fields of this message in field-number order, the ones that
    /// hold a default value left out.
    pub open spec fn fields(&self) -> Seq<FieldV> {
        string_field(1, self.name@)
    }

    /// The wire encoding of this message.
    pub open spec fn spec_encoding(&self) -> Seq<u8> {
        fields_bytes(self.fields())
    }

    /// The decoded fields `fs` are well-formed for this message: each
    /// field has its declared wire type and each nested part decodes.
    pub open spec fn decodable(fs: Seq<FieldV>) -> bool {
        &&& all_text(fs, 1)
    }

    /// The encoding of an optional nested message of this type.
    pub open spec fn option_encoding(m: Option<Self>) -> Option<Seq<u8>> {
        match m {
            Some(m) => Some(m.spec_encoding()),
            None => None,
        }
    }

    /// An optional nested message of this type, as bytes to decode, is
    /// well-formed.
    pub open spec fn option_decodable(b: Option<Seq<u8>>) -> bool {
        match b {
            Some(b) => Self::decodable_bytes(b),
            None => true,
        }
    }

    /// `m` is the optional nested message that the bytes `b` decode to.
    pub open spec fn option_decoded_from(m: Option<Self>, b: Option<Seq<u8>>) -> bool {
        match b {
            Some(b) => m matches Some(m) && m.decoded_from(parse_fields(b)->Some_0),
            None => m is None,
        }
    }

    /// `b` is a well-formed encoding of this message.
    pub open spec fn decodable_bytes(b: Seq<u8>) -> bool {
        parse_fields(b) matches Some(fs) && Self::decodable(fs)
    }

    /// This message is the one that the decoded fields `fs` describe.
    pub open spec fn decoded_from(&self, fs: Seq<FieldV>) -> bool {
        &&& self.name@ == string_value(fs, 1)
    }

    /// The fields of this message, ready to be written.
    pub fn to_fields(&self) -> (r: Vec<Field>)
        ensures
            fields_view(r@) == self.fields(),
    {
        let mut fs: Vec<Field> = Vec::new();
        assert(fields_view(fs@) =~= Seq::<FieldV>::empty());
        push_string(&mut fs, 1, &self.name);
        assert(fields_view(fs@) =~= self.fields());
        fs
    }

    /// The wire encoding of this message.
    pub fn encode_to_vec(&self) -> (r: Vec<u8>)
        ensures
            r@ == self.spec_encoding(),
    {
        let fs = self.to_fields();
        encode_fields(&fs)
    }

    /// The message that the decoded fields `fs` describe.
    pub fn from_fields(fs: &Vec<Field>) -> (r: Result<Self, DecodeError>)
        ensures
            r is Ok <==> Self::decodable(fields_view(fs@)),
            r matches Ok(m) ==> m.decoded_from(fields_view(fs@)),
    {
        let name = match get_string(fs, 1) {
            Ok(v) => v,
            Err(e) => {
                return Err(e);
            },
        };
        Ok(GetKeyRequest { name })
    }

    /// Decodes a message from its wire encoding.
    pub fn decode(b: &[u8]) -> (r: Result<Self, DecodeError>)
        ensures
            r is Ok <==> Self::decodable_bytes(b@),
            r matches Ok(m) ==> m.decoded_from(parse_fields(b@)->Some_0),
    {
        match decode_fields(b) {
            Ok(fs) => Self::from_fields(&fs),
            Err(e) => Err(e),
        }
    }

    /// The values that decoding gives back unchanged: the keys of each map
    /// are distinct and no float is negative zero, here and in every nested
    /// message.
    pub open spec fn canonical(&self) -> bool {
        true
    }

    /// Decoding the encoding of a canonical message gives that message back.
    pub proof fn lemma_round_trip(self)
        requires
            self.spec_encoding().len() <= u64::MAX,
            self.canonical(),
        ensures
            Self::decodable_bytes(self.spec_encoding()),
            self.decoded_from(parse_fields(self.spec_encoding())->Some_0),
    {
        let p1 = string_field(1, self.name@);
        let fs = self.fields();
        assert(fs == p1);
        lemma_string_piece(1, self.name@);
        lemma_only_numbers_ok(p1, 1);
        lemma_fields_ok_when_small(fs);
        lemma_payloads_within(fs);
        assert(all_text(fs, 1) && self.name@ == string_value(fs, 1)) by {

        }
    }
}

/// The update key request message.
#[derive(Clone, Debug, PartialEq, Default)]
pub struct UpdateKeyRequest {
    /// Required. The key to update.
    pub key: Option<Key>,
    /// Optional. The mask to control which field of the key get updated. If the mask
    /// is not present, all fields will be updated.
    pub update_mask: Option<FieldMask>,
}

impl UpdateKeyRequest {
    /// The fields of this message in field-number order, the ones that
    /// hold a default value left out.
    pub open spec fn fields(&self) -> Seq<FieldV> {
        message_field(1, Key::option_encoding(self.key))
            + message_field(2, FieldMask::option_encoding(self.update_mask))
    }

    /// The wire encoding of this message.
    pub open spec fn spec_encoding(&self) -> Seq<u8> {
        fields_bytes(self.fields())
    }

    /// The decoded fields `fs` are well-formed for this message: each
    /// field has its declared wire type and each nested part decodes.
    pub open spec fn decodable(fs: Seq<FieldV>) -> bool {
        &&& (all_of_type(fs, 1, 2) && Key::option_decodable(message_value(fs, 1)))
        &&& (all_of_type(fs, 2, 2) && FieldMask::option_decodable(message_value(fs, 2)))
    }

    /// The encoding of an optional nested message of this type.
    pub open spec fn option_encoding(m: Option<Self>) -> Option<Seq<u8>> {
        match m {
            Some(m) => Some(m.spec_encoding()),
            None => None,
        }
    }

    /// An optional nested message of this type, as bytes to decode, is
    /// well-formed.
    pub open spec fn option_decodable(b: Option<Seq<u8>>) -> bool {
        match b {
            Some(b) => Self::decodable_bytes(b),
            None => true,
        }
    }

    /// `m` is the optional nested message that the bytes `b` decode to.
    pub open spec fn option_decoded_from(m: Option<Self>, b: Option<Seq<u8>>) -> bool {
        match b {
            Some(b) => m matches Some(m) && m.decoded_from(parse_fields(b)->Some_0),
            None => m is None,
        }
    }

    /// `b` is a well-formed encoding of this message.
    pub open spec fn decodable_bytes(b: Seq<u8>) -> bool {
        parse_fields(b) matches Some(fs) && Self::decodable(fs)
    }

    /// This message is the one that the decoded fields `fs` describe.
    pub open spec fn decoded_from(&self, fs: Seq<FieldV>) -> bool {
        &&& Key::option_decoded_from(self.key, message_value(fs, 1))
        &&& FieldMask::option_decoded_from(self.update_mask, message_value(fs, 2))
    }

    /// The fields of this message, ready to be written.
    pub fn to_fields(&self) -> (r: Vec<Field>)
        ensures
            fields_view(r@) == self.fields(),
    {
        let mut fs: Vec<Field> = Vec::new();
        assert(fields_view(fs@) =~= Seq::<FieldV>::empty());
        let key_bytes: Option<Vec<u8>> = match &self.key {
            Some(m) => Some(m.encode_to_vec()),
            None => None,
        };
        push_message(&mut fs, 1, key_bytes);
        let update_mask_bytes: Option<Vec<u8>> = match &self.update_mask {
            Some(m) => Some(m.encode_to_vec()),
            None => None,
        };
        push_message(&mut fs, 2, update_mask_bytes);
        assert(fields_view(fs@) =~= self.fields());
        fs
    }

    /// The wire encoding of this message.
    pub fn encode_to_vec(&self) -> (r: Vec<u8>)
        ensures
            r@ == self.spec_encoding(),
    {
        let fs = self.to_fields();
        encode_fields(&fs)
    }

    /// The message that the decoded fields `fs` describe.
    pub fn from_fields(fs: &Vec<Field>) -> (r: Result<Self, DecodeError>)
        ensures
            r is Ok <==> Self::decodable(fields_view(fs@)),
            r matches Ok(m) ==> m.decoded_from(fields_view(fs@)),
    {
        let key = match get_payloads(fs, 1) {
            Ok((_, joined)) => match joined {
                Some(b) => match Key::decode(b.as_slice()) {
                    Ok(m) => Some(m),
                    Err(e) => {
                        return Err(e);
                    },
                },
                None => None,
            },
            Err(e) => {
                return Err(e);
            },
        };
        let update_mask = match get_payloads(fs, 2) {
            Ok((_, joined)) => match joined {
                Some(b) => match FieldMask::decode(b.as_slice()) {
                    Ok(m) => Some(m),
                    Err(e) => {
                        return Err(e);
                    },
                },
                None => None,
            },
            Err(e) => {
                return Err(e);
            },
        };
        Ok(UpdateKeyRequest { key, update_mask })
    }

    /// Decodes a message from its wire encoding.
    pub fn decode(b: &[u8]) -> (r: Result<Self, DecodeError>)
        ensures
            r is Ok <==> Self::decodable_bytes(b@),
            r matches Ok(m) ==> m.decoded_from(parse_fields(b@)->Some_0),
    {
        match decode_fields(b) {
            Ok(fs) => Self::from_fields(&fs),
            Err(e) => Err(e),
        }
    }

    /// The values that decoding gives back unchanged: the keys of each map
    /// are distinct and no float is negative zero, here and in every nested
    /// message.
    pub open spec fn canonical(&self) -> bool {
        &&& match self.key { Some(m) => m.canonical(), None => true }
        &&& match self.update_mask { Some(m) => m.canonical(), None => true }
    }

    /// Decoding the encoding of a canonical message gives that message back.
    pub proof fn lemma_round_trip(self)
        requires
            self.spec_encoding().len() <= u64::MAX,
            self.canonical(),
        ensures
            Self::decodable_bytes(self.spec_encoding()),
            self.decoded_from(parse_fields(self.spec_encoding())->Some_0),
    {
        let p1 = message_field(1, Key::option_encoding(self.key));
        let p2 = message_field(2, FieldMask::option_encoding(self.update_mask));
        let fs = self.fields();
        assert(fs == p1 + p2);
        lemma_message_piece(1, Key::option_encoding(self.key));
        lemma_message_piece(2, FieldMask::option_encoding(self.update_mask));
        lemma_only_numbers_ok(p1, 1);
        lemma_only_numbers_ok(p2, 2);
        lemma_numbers_ok_add(p1, p2);
        lemma_fields_ok_when_small(fs);
        lemma_payloads_within(fs);
        assert((all_of_type(fs, 1, 2) && Key::option_decodable(message_value(fs, 1))) && Key::option_decoded_from(self.key, message_value(fs, 1))) by {
            lemma_only_lacks(p2, 2, 1);
            lemma_agree_suffix(p1, p2, 1);
            match self.key {
                Some(m) => {
                    assert(fs[0] == p1[0]);
                    m.lemma_round_trip();
                },
                None => {},
            }
        }
        assert((all_of_type(fs, 2, 2) && FieldMask::option_decodable(message_value(fs, 2))) && FieldMask::option_decoded_from(self.update_mask, message_value(fs, 2))) by {
            lemma_only_lacks(p1, 1, 2);
            lemma_agree_prefix(p1, p2, 2);
            match self.update_mask {
                Some(m) => {
                    assert(fs[(p1).len() as int] == p2[0]);
                    m.lemma_round_trip();
                },
                None => {},
            }
        }
    }
}

/// The delete key request message.
#[derive(Clone, Debug, PartialEq, Default)]
pub struct DeleteKeyRequest {
    /// Required. The name of the key to be deleted, in the format
    /// "projects/{project}/keys/{key}".
    pub name: String,
}

impl DeleteKeyRequest {
    /// The fields of this message in field-number order, the ones that
    /// hold a default value left out.
    pub open spec fn fields(&self) -> Seq<FieldV> {
        string_field(1, self.name@)
    }

    /// The wire encoding of this message.
    pub open spec fn spec_encoding(&self) -> Seq<u8> {
        fields_bytes(self.fields())
    }

    /// The decoded fields `fs` are well-formed for this message: each
    /// field has its declared wire type and each nested part decodes.
    pub open spec fn decodable(fs: Seq<FieldV>) -> bool {
        &&& all_text(fs, 1)
    }

    /// The encoding of an optional nested message of this type.
    pub open spec fn option_encoding(m: Option<Self>) -> Option<Seq<u8>> {
        match m {
            Some(m) => Some(m.spec_encoding()),
            None => None,
        }
    }

    /// An optional nested message of this type, as bytes to decode, is
    /// well-formed.
    pub open spec fn option_decodable(b: Option<Seq<u8>>) -> bool {
        match b {
            Some(b) => Self::decodable_bytes(b),
            None => true,
        }
    }

    /// `m` is the optional nested message that the bytes `b` decode to.
    pub open spec fn option_decoded_from(m: Option<Self>, b: Option<Seq<u8>>) -> bool {
        match b {
            Some(b) => m matches Some(m) && m.decoded_from(parse_fields(b)->Some_0),
            None => m is None,
        }
    }

    /// `b` is a well-formed encoding of this message.
    pub open spec fn decodable_bytes(b: Seq<u8>) -> bool {
        parse_fields(b) matches Some(fs) && Self::decodable(fs)
    }

    /// This message is the one that the decoded fields `fs` describe.
    pub open spec fn decoded_from(&self, fs: Seq<FieldV>) -> bool {
        &&& self.name@ == string_value(fs, 1)
    }

    /// The fields of this message, ready to be written.
    pub fn to_fields(&self) -> (r: Vec<Field>)
        ensures
            fields_view(r@) == self.fields(),
    {
        let mut fs: Vec<Field> = Vec::new();
        assert(fields_view(fs@) =~= Seq::<FieldV>::empty());
        push_string(&mut fs, 1, &self.name);
        assert(fields_view(fs@) =~= self.fields());
        fs
    }

    /// The wire encoding of this message.
    pub fn encode_to_vec(&self) -> (r: Vec<u8>)
        ensures
            r@ == self.spec_encoding(),
    {
        let fs = self.to_fields();
        encode_fields(&fs)
    }

    /// The message that the decoded fields `fs` describe.
    pub fn from_fields(fs: &Vec<Field>) -> (r: Result<Self, DecodeError>)
        ensures
            r is Ok <==> Self::decodable(fields_view(fs@)),
            r matches Ok(m) ==> m.decoded_from(fields_view(fs@)),
    {
        let name = match get_string(fs, 1) {
            Ok(v) => v,
            Err(e) => {
                return Err(e);
            },
        };
        Ok(DeleteKeyRequest { name })
    }

    /// Decodes a message from its wire encoding.
    pub fn decode(b: &[u8]) -> (r: Result<Self, DecodeError>)
        ensures
            r is Ok <==> Self::decodable_bytes(b@),
            r matches Ok(m) ==> m.decoded_from(parse_fields(b@)->Some_0),
    {
        match decode_fields(b) {
            Ok(fs) => Self::from_fields(&fs),
            Err(e) => Err(e),
        }
    }

    /// The values that decoding gives back unchanged: the keys of each map
    /// are distinct and no float is negative zero, here and in every nested
    /// message.
    pub open spec fn canonical(&self) -> bool {
        true
    }

    /// Decoding the encoding of a canonical message gives that message back.
    pub proof fn lemma_round_trip(self)
        requires
            self.spec_encoding().len() <= u64::MAX,
            self.canonical(),
        ensures
            Self::decodable_bytes(self.spec_encoding()),
            self.decoded_from(parse_fields(self.spec_encoding())->Some_0),
    {
        let p1 = string_field(1, self.name@);
        let fs = self.fields();
        assert(fs == p1);
        lemma_string_piece(1, self.name@);
        lemma_only_numbers_ok(p1, 1);
        lemma_fields_ok_when_small(fs);
        lemma_payloads_within(fs);
        assert(all_text(fs, 1) && self.name@ == string_value(fs, 1)) by {

        }
    }
}

/// A key used to identify and configure applications (web and/or mobile) that
/// use reCAPTCHA Enterprise.
#[derive(Clone, Debug, PartialEq, Default)]
pub struct Key {
    /// The resource name for the Key in the format "projects/{project}/keys/{key}".
    pub name: String,
    /// Human-readable display name of this key. Modifiable by user.
    pub display_name: String,
    /// Platform specific settings for this key. The key can only be used on one
    /// platform, the one it has settings for.
    pub platform_settings: Option<key::PlatformSettings>,
    /// Optional. Labels of the key, each key at most once.
    pub labels: Vec<(String, String)>,
    /// The timestamp corresponding to the creation of this Key.
    pub create_time: Option<Timestamp>,
}

impl Key {
    /// The fields of this message in field-number order, the ones that
    /// hold a default value left out.
    pub open spec fn fields(&self) -> Seq<FieldV> {
        string_field(1, self.name@)
            + string_field(2, self.display_name@)
            + key::PlatformSettings::option_fields(self.platform_settings)
            + messages_field(6, labels_encoding(labels_view(self.labels@)))
            + message_field(7, Timestamp::option_encoding(self.create_time))
    }

    /// The wire encoding of this message.
    pub open spec fn spec_encoding(&self) -> Seq<u8> {
        fields_bytes(self.fields())
    }

    /// The decoded fields `fs` are well-formed for this message: each
    /// field has its declared wire type and each nested part decodes.
    pub open spec fn decodable(fs: Seq<FieldV>) -> bool {
        &&& all_text(fs, 1)
        &&& all_text(fs, 2)
        &&& (oneof_ok(fs, seq![3u32, 4u32, 5u32]) && key::PlatformSettings::decodable(oneof_value(fs, seq![3u32, 4u32, 5u32])))
        &&& (all_of_type(fs, 6, 2) && labels_ok(payloads_value(fs, 6)))
        &&& (all_of_type(fs, 7, 2) && Timestamp::option_decodable(message_value(fs, 7)))
    }

    /// The encoding of an optional nested message of this type.
    pub open spec fn option_encoding(m: Option<Self>) -> Option<Seq<u8>> {
        match m {
            Some(m) => Some(m.spec_encoding()),
            None => None,
        }
    }

    /// An optional nested message of this type, as bytes to decode, is
    /// well-formed.
    pub open spec fn option_decodable(b: Option<Seq<u8>>) -> bool {
        match b {
            Some(b) => Self::decodable_bytes(b),
            None => true,
        }
    }

    /// `m` is the optional nested message that the bytes `b` decode to.
    pub open spec fn option_decoded_from(m: Option<Self>, b: Option<Seq<u8>>) -> bool {
        match b {
            Some(b) => m matches Some(m) && m.decoded_from(parse_fields(b)->Some_0),
            None => m is None,
        }
    }

    /// `b` is a well-formed encoding of this message.
    pub open spec fn decodable_bytes(b: Seq<u8>) -> bool {
        parse_fields(b) matches Some(fs) && Self::decodable(fs)
    }

    /// This message is the one that the decoded fields `fs` describe.
    pub open spec fn decoded_from(&self, fs: Seq<FieldV>) -> bool {
        &&& self.name@ == string_value(fs, 1)
        &&& self.display_name@ == string_value(fs, 2)
        &&& key::PlatformSettings::decoded_from(self.platform_settings, oneof_value(fs, seq![3u32, 4u32, 5u32]))
        &&& labels_view(self.labels@) == labels_value(payloads_value(fs, 6))
        &&& Timestamp::option_decoded_from(self.create_time, message_value(fs, 7))
    }

    /// The fields of this message, ready to be written.
    pub fn to_fields(&self) -> (r: Vec<Field>)
        ensures
            fields_view(r@) == self.fields(),
    {
        let mut fs: Vec<Field> = Vec::new();
        assert(fields_view(fs@) =~= Seq::<FieldV>::empty());
        push_string(&mut fs, 1, &self.name);
        push_string(&mut fs, 2, &self.display_name);
        match &self.platform_settings {
            Some(key::PlatformSettings::WebSettings(m)) => push_payload(&mut fs, 3, m.encode_to_vec()),
            Some(key::PlatformSettings::AndroidSettings(m)) => push_payload(&mut fs, 4, m.encode_to_vec()),
            Some(key::PlatformSettings::IosSettings(m)) => push_payload(&mut fs, 5, m.encode_to_vec()),
            None => {
                assert(fields_view(fs@) =~= fields_view(fs@) + Seq::<FieldV>::empty());
            },
        }
        push_messages(&mut fs, 6, encode_labels(&self.labels));
        let create_time_bytes: Option<Vec<u8>> = match &self.create_time {
            Some(m) => Some(m.encode_to_vec()),
            None => None,
        };
        push_message(&mut fs, 7, create_time_bytes);
        assert(fields_view(fs@) =~= self.fields());
        fs
    }

    /// The wire encoding of this message.
    pub fn encode_to_vec(&self) -> (r: Vec<u8>)
        ensures
            r@ == self.spec_encoding(),
    {
        let fs = self.to_fields();
        encode_fields(&fs)
    }

    /// The message that the decoded fields `fs` describe.
    pub fn from_fields(fs: &Vec<Field>) -> (r: Result<Self, DecodeError>)
        ensures
            r is Ok <==> Self::decodable(fields_view(fs@)),
            r matches Ok(m) ==> m.decoded_from(fields_view(fs@)),
    {
        let name = match get_string(fs, 1) {
            Ok(v) => v,
            Err(e) => {
                return Err(e);
            },
        };
        let display_name = match get_string(fs, 2) {
            Ok(v) => v,
            Err(e) => {
                return Err(e);
            },
        };
        let platform_settings_members: Vec<u32> = vec![3u32, 4u32, 5u32];
        assert(platform_settings_members@ =~= seq![3u32, 4u32, 5u32]);
        let platform_settings = match get_oneof(fs, &platform_settings_members) {
            Ok(o) => match o {
                Some((t, j, l)) => if t == 3 {
                    match WebKeySettings::decode(j.as_slice()) {
                        Ok(m) => Some(key::PlatformSettings::WebSettings(m)),
                        Err(e) => {
                            return Err(e);
                        },
                    }
                } else if t == 4 {
                    match AndroidKeySettings::decode(j.as_slice()) {
                        Ok(m) => Some(key::PlatformSettings::AndroidSettings(m)),
                        Err(e) => {
                            return Err(e);
                        },
                    }
                } else {
                    match IosKeySettings::decode(j.as_slice()) {
                        Ok(m) => Some(key::PlatformSettings::IosSettings(m)),
                        Err(e) => {
                            return Err(e);
                        },
                    }
                },
                None => None,
            },
            Err(e) => {
                return Err(e);
            },
        };
        let labels = match get_payloads(fs, 6) {
            Ok((each, _)) => match decode_labels(&each) {
                Ok(v) => v,
                Err(e) => {
                    return Err(e);
                },
            },
            Err(e) => {
                return Err(e);
            },
        };
        let create_time = match get_payloads(fs, 7) {
            Ok((_, joined)) => match joined {
                Some(b) => match Timestamp::decode(b.as_slice()) {
                    Ok(m) => Some(m),
                    Err(e) => {
                        return Err(e);
                    },
                },
                None => None,
            },
            Err(e) => {
                return Err(e);
            },
        };
        Ok(Key { name, display_name, platform_settings, labels, create_time })
    }

    /// Decodes a message from its wire encoding.
    pub fn decode(b: &[u8]) -> (r: Result<Self, DecodeError>)
        ensures
            r is Ok <==> Self::decodable_bytes(b@),
            r matches Ok(m) ==> m.decoded_from(parse_fields(b@)->Some_0),
    {
        match decode_fields(b) {
            Ok(fs) => Self::from_fields(&fs),
            Err(e) => Err(e),
        }
    }

    /// The values that decoding gives back unchanged: the keys of each map
    /// are distinct and no float is negative zero, here and in every nested
    /// message.
    pub open spec fn canonical(&self) -> bool {
        &&& match self.platform_settings { Some(key::PlatformSettings::WebSettings(m)) => m.canonical(), Some(key::PlatformSettings::AndroidSettings(m)) => m.canonical(), Some(key::PlatformSettings::IosSettings(m)) => m.canonical(), _ => true }
        &&& keys_distinct(labels_view(self.labels@))
        &&& match self.create_time { Some(m) => m.canonical(), None => true }
    }

    /// Decoding the encoding of a canonical message gives that message back.
    #[verifier::rlimit(50)]
    pub proof fn lemma_round_trip(self)
        requires
            self.spec_encoding().len() <= u64::MAX,
            self.canonical(),
        ensures
            Self::decodable_bytes(self.spec_encoding()),
            self.decoded_from(parse_fields(self.spec_encoding())->Some_0),
    {
        let p1 = string_field(1, self.name@);
        let p2 = string_field(2, self.display_name@);
        let p3 = key::PlatformSettings::option_fields(self.platform_settings);
        let p4 = messages_field(6, labels_encoding(labels_view(self.labels@)));
        let p5 = message_field(7, Timestamp::option_encoding(self.create_time));
        let fs = self.fields();
        assert(fs == p1 + p2 + p3 + p4 + p5);
        lemma_string_piece(1, self.name@);
        lemma_string_piece(2, self.display_name@);
        let ns3 = seq![3u32, 4u32, 5u32];
        match self.platform_settings {
            Some(key::PlatformSettings::WebSettings(m)) => {
                lemma_payload_piece(3, m.spec_encoding());
                assert(ns3[0] == 3);
            },
            Some(key::PlatformSettings::AndroidSettings(m)) => {
                lemma_payload_piece(4, m.spec_encoding());
                assert(ns3[1] == 4);
            },
            Some(key::PlatformSettings::IosSettings(m)) => {
                lemma_payload_piece(5, m.spec_encoding());
                assert(ns3[2] == 5);
            },
            None => {
                lemma_no_piece(ns3);
            },
        }
        assert(only_members(p3, ns3));
        lemma_messages_piece(6, labels_encoding(labels_view(self.labels@)));
        lemma_message_piece(7, Timestamp::option_encoding(self.create_time));
        lemma_only_numbers_ok(p1, 1);
        lemma_only_numbers_ok(p2, 2);
        lemma_members_numbers_ok(p3, ns3);
        lemma_only_numbers_ok(p4, 6);
        lemma_only_numbers_ok(p5, 7);
        lemma_numbers_ok_add(p1, p2);
        lemma_numbers_ok_add(p1 + p2, p3);
        lemma_numbers_ok_add(p1 + p2 + p3, p4);
        lemma_numbers_ok_add(p1 + p2 + p3 + p4, p5);
        lemma_fields_ok_when_small(fs);
        lemma_payloads_within(fs);
        assert(all_text(fs, 1) && self.name@ == string_value(fs, 1)) by {
            lemma_only_lacks(p5, 7, 1);
            lemma_agree_suffix(p1 + p2 + p3 + p4, p5, 1);
            lemma_only_lacks(p4, 6, 1);
            lemma_agree_suffix(p1 + p2 + p3, p4, 1);
            lemma_members_lack(p3, ns3, 1);
            lemma_agree_suffix(p1 + p2, p3, 1);
            lemma_only_lacks(p2, 2, 1);
            lemma_agree_suffix(p1, p2, 1);
        }
        assert(all_text(fs, 2) && self.display_name@ == string_value(fs, 2)) by {
            lemma_only_lacks(p5, 7, 2);
            lemma_agree_suffix(p1 + p2 + p3 + p4, p5, 2);
            lemma_only_lacks(p4, 6, 2);
            lemma_agree_suffix(p1 + p2 + p3, p4, 2);
            lemma_members_lack(p3, ns3, 2);
            lemma_agree_suffix(p1 + p2, p3, 2);
            lemma_only_lacks(p1, 1, 2);
            lemma_agree_prefix(p1, p2, 2);
        }
        assert((oneof_ok(fs, seq![3u32, 4u32, 5u32]) && key::PlatformSettings::decodable(oneof_value(fs, seq![3u32, 4u32, 5u32]))) && key::PlatformSettings::decoded_from(self.platform_settings, oneof_value(fs, seq![3u32, 4u32, 5u32]))) by {
            lemma_only_outside(p5, 7, ns3);
            lemma_oneof_suffix(p1 + p2 + p3 + p4, p5, ns3);
            lemma_only_outside(p4, 6, ns3);
            lemma_oneof_suffix(p1 + p2 + p3, p4, ns3);
            lemma_only_outside(p1, 1, ns3);
            lemma_only_outside(p2, 2, ns3);
            lemma_no_member_add(p1, p2, ns3);
            lemma_oneof_prefix(p1 + p2, p3, ns3);
            match self.platform_settings {
                Some(key::PlatformSettings::WebSettings(m)) => {
                    assert(fs[(p1 + p2).len() as int] == p3[0]);
                    m.lemma_round_trip();
                },
                Some(key::PlatformSettings::AndroidSettings(m)) => {
                    assert(fs[(p1 + p2).len() as int] == p3[0]);
                    m.lemma_round_trip();
                },
                Some(key::PlatformSettings::IosSettings(m)) => {
                    assert(fs[(p1 + p2).len() as int] == p3[0]);
                    m.lemma_round_trip();
                },
                _ => {},
            }
        }
        assert((all_of_type(fs, 6, 2) && labels_ok(payloads_value(fs, 6))) && labels_view(self.labels@) == labels_value(payloads_value(fs, 6))) by {
            lemma_only_lacks(p5, 7, 6);
            lemma_agree_suffix(p1 + p2 + p3 + p4, p5, 6);
            lemma_only_lacks(p1, 1, 6);
            lemma_only_lacks(p2, 2, 6);
            lemma_no_field_add(p1, p2, 6);
            lemma_members_lack(p3, ns3, 6);
            lemma_no_field_add(p1 + p2, p3, 6);
            lemma_agree_prefix(p1 + p2 + p3, p4, 6);
            assert forall|j: int| 0 <= j < labels_view(self.labels@).len() implies (#[trigger] labels_encoding(labels_view(self.labels@))[j]).len() <= u64::MAX by {
                let w = choose|w: int| 0 <= w < p4.len() && labels_encoding(labels_view(self.labels@))[j] == payload_of(p4[w].value);
                assert(fs[(p1 + p2 + p3).len() as int + w] == p4[w]);
            }
            lemma_labels_round_trip(labels_view(self.labels@));
        }
        assert((all_of_type(fs, 7, 2) && Timestamp::option_decodable(message_value(fs, 7))) && Timestamp::option_decoded_from(self.create_time, message_value(fs, 7))) by {
            lemma_only_lacks(p1, 1, 7);
            lemma_only_lacks(p2, 2, 7);
            lemma_no_field_add(p1, p2, 7);
            lemma_members_lack(p3, ns3, 7);
            lemma_no_field_add(p1 + p2, p3, 7);
            lemma_only_lacks(p4, 6, 7);
            lemma_no_field_add(p1 + p2 + p3, p4, 7);
            lemma_agree_prefix(p1 + p2 + p3 + p4, p5, 7);
            match self.create_time {
                Some(m) => {
                    assert(fs[(p1 + p2 + p3 + p4).len() as int] == p5[0]);
                    m.lemma_round_trip();
                },
                None => {},
            }
        }
    }

    /// The encodings of a sequence of messages.
    pub open spec fn list_encoding(ms: Seq<Self>) -> Seq<Seq<u8>> {
        ms.map_values(|m: Self| m.spec_encoding())
    }

    /// Every payload is a well-formed encoding of this message.
    pub open spec fn list_decodable(ps: Seq<Seq<u8>>) -> bool {
        forall|i: int| 0 <= i < ps.len() ==> Self::decodable_bytes(#[trigger] ps[i])
    }

    /// `ms` are the messages that the payloads `ps` decode to, one for one.
    pub open spec fn list_decoded_from(ms: Seq<Self>, ps: Seq<Seq<u8>>) -> bool {
        &&& ms.len() == ps.len()
        &&& forall|i: int| 0 <= i < ps.len() ==> #[trigger] ms[i].decoded_from(parse_fields(ps[i])->Some_0)
    }

    /// The encodings of the messages of a repeated field.
    pub fn encode_list(ms: &Vec<Self>) -> (r: Vec<Vec<u8>>)
        ensures
            bytes_view(r@) == Self::list_encoding(ms@),
    {
        let mut out: Vec<Vec<u8>> = Vec::new();
        let mut i: usize = 0;
        while i < ms.len()
            invariant
                i <= ms@.len(),
                bytes_view(out@) == Self::list_encoding(ms@.subrange(0, i as int)),
            decreases ms@.len() - i,
        {
            let ghost before = out@;
            let b = ms[i].encode_to_vec();
            out.push(b);
            proof {
                let pre = ms@.subrange(0, i as int);
                assert(ms@.subrange(0, i + 1) =~= pre.push(ms@[i as int]));
                assert(Self::list_encoding(pre.push(ms@[i as int])) =~= Self::list_encoding(pre).push(
                    ms@[i as int].spec_encoding(),
                ));
                assert(bytes_view(out@) =~= bytes_view(before).push(b@));
            }
            i = i + 1;
        }
        assert(ms@.subrange(0, ms@.len() as int) =~= ms@);
        out
    }

    /// The messages of a repeated field, decoded from their payloads.
    pub fn decode_list(ps: &Vec<Vec<u8>>) -> (r: Result<Vec<Self>, DecodeError>)
        ensures
            r is Ok <==> Self::list_decodable(bytes_view(ps@)),
            r matches Ok(ms) ==> Self::list_decoded_from(ms@, bytes_view(ps@)),
    {
        let ghost pv = bytes_view(ps@);
        let mut out: Vec<Self> = Vec::new();
        let mut i: usize = 0;
        while i < ps.len()
            invariant
                i <= ps@.len(),
                pv == bytes_view(ps@),
                out@.len() == i,
                forall|j: int| 0 <= j < i ==> Self::decodable_bytes(#[trigger] pv[j]),
                forall|j: int| 0 <= j < i ==> #[trigger] out@[j].decoded_from(parse_fields(pv[j])->Some_0),
            decreases ps@.len() - i,
        {
            assert(pv[i as int] == ps@[i as int]@);
            match Self::decode(ps[i].as_slice()) {
                Ok(m) => {
                    out.push(m);
                },
                Err(e) => {
                    return Err(e);
                },
            }
            i = i + 1;
        }
        Ok(out)
    }
}

/// Settings specific to keys that can be used by websites.
#[derive(Clone, Debug, PartialEq, Default)]
pub struct WebKeySettings {
    /// Domains or subdomains of websites allowed to use the key, such as
    /// 'example.com' or 'subdomain.example.com'.
    pub allowed_domains: Vec<String>,
    /// Required. Whether this key can be used on AMP (Accelerated Mobile Pages) websites.
    pub allow_amp_traffic: bool,
    /// If set to true, it means allowed_domains will not be enforced.
    pub allow_all_domains: bool,
    /// Required. Describes how this key is integrated with the website, a value of
    /// `web_key_settings::IntegrationType`.
    pub integration_type: i32,
    /// Settings for the frequency and difficulty at which this key triggers
    /// captcha challenges, a value of `web_key_settings::ChallengeSecurityPreference`.
    pub challenge_security_preference: i32,
}

impl WebKeySettings {
    /// The fields of this message in field-number order, the ones that
    /// hold a default value left out.
    pub open spec fn fields(&self) -> Seq<FieldV> {
        strings_field(1, strings_view(self.allowed_domains@))
            + bool_field(2, self.allow_amp_traffic)
            + bool_field(3, self.allow_all_domains)
            + int32_field(4, self.integration_type)
            + int32_field(5, self.challenge_security_preference)
    }

    /// The wire encoding of this message.
    pub open spec fn spec_encoding(&self) -> Seq<u8> {
        fields_bytes(self.fields())
    }

    /// The decoded fields `fs` are well-formed for this message: each
    /// field has its declared wire type and each nested part decodes.
    pub open spec fn decodable(fs: Seq<FieldV>) -> bool {
        &&& all_text(fs, 1)
        &&& all_of_type(fs, 2, 0)
        &&& all_of_type(fs, 3, 0)
        &&& all_of_type(fs, 4, 0)
        &&& all_of_type(fs, 5, 0)
    }

    /// The encoding of an optional nested message of this type.
    pub open spec fn option_encoding(m: Option<Self>) -> Option<Seq<u8>> {
        match m {
            Some(m) => Some(m.spec_encoding()),
            None => None,
        }
    }

    /// An optional nested message of this type, as bytes to decode, is
    /// well-formed.
    pub open spec fn option_decodable(b: Option<Seq<u8>>) -> bool {
        match b {
            Some(b) => Self::decodable_bytes(b),
            None => true,
        }
    }

    /// `m` is the optional nested message that the bytes `b` decode to.
    pub open spec fn option_decoded_from(m: Option<Self>, b: Option<Seq<u8>>) -> bool {
        match b {
            Some(b) => m matches Some(m) && m.decoded_from(parse_fields(b)->Some_0),
            None => m is None,
        }
    }

    /// `b` is a well-formed encoding of this message.
    pub open spec fn decodable_bytes(b: Seq<u8>) -> bool {
        parse_fields(b) matches Some(fs) && Self::decodable(fs)
    }

    /// This message is the one that the decoded fields `fs` describe.
    pub open spec fn decoded_from(&self, fs: Seq<FieldV>) -> bool {
        &&& strings_view(self.allowed_domains@) == strings_value(fs, 1)
        &&& self.allow_amp_traffic == (varint_value(fs, 2) != 0)
        &&& self.allow_all_domains == (varint_value(fs, 3) != 0)
        &&& self.integration_type == varint_value(fs, 4) as i32
        &&& self.challenge_security_preference == varint_value(fs, 5) as i32
    }

    /// The fields of this message, ready to be written.
    pub fn to_fields(&self) -> (r: Vec<Field>)
        ensures
            fields_view(r@) == self.fields(),
    {
        let mut fs: Vec<Field> = Vec::new();
        assert(fields_view(fs@) =~= Seq::<FieldV>::empty());
        push_strings(&mut fs, 1, &self.allowed_domains);
        push_bool(&mut fs, 2, self.allow_amp_traffic);
        push_bool(&mut fs, 3, self.allow_all_domains);
        push_int32(&mut fs, 4, self.integration_type);
        push_int32(&mut fs, 5, self.challenge_security_preference);
        assert(fields_view(fs@) =~= self.fields());
        fs
    }

    /// The wire encoding of this message.
    pub fn encode_to_vec(&self) -> (r: Vec<u8>)
        ensures
            r@ == self.spec_encoding(),
    {
        let fs = self.to_fields();
        encode_fields(&fs)
    }

    /// The message that the decoded fields `fs` describe.
    pub fn from_fields(fs: &Vec<Field>) -> (r: Result<Self, DecodeError>)
        ensures
            r is Ok <==> Self::decodable(fields_view(fs@)),
            r matches Ok(m) ==> m.decoded_from(fields_view(fs@)),
    {
        let allowed_domains = match get_strings(fs, 1) {
            Ok(v) => v,
            Err(e) => {
                return Err(e);
            },
        };
        let allow_amp_traffic = match get_varint_value(fs, 2) {
            Ok(v) => v != 0,
            Err(e) => {
                return Err(e);
            },
        };
        let allow_all_domains = match get_varint_value(fs, 3) {
            Ok(v) => v != 0,
            Err(e) => {
                return Err(e);
            },
        };
        let integration_type = match get_varint_value(fs, 4) {
            Ok(v) => v as i32,
            Err(e) => {
                return Err(e);
            },
        };
        let challenge_security_preference = match get_varint_value(fs, 5) {
            Ok(v) => v as i32,
            Err(e) => {
                return Err(e);
            },
        };
        Ok(WebKeySettings { allowed_domains, allow_amp_traffic, allow_all_domains, integration_type, challenge_security_preference })
    }

    /// Decodes a message from its wire encoding.
    pub fn decode(b: &[u8]) -> (r: Result<Self, DecodeError>)
        ensures
            r is Ok <==> Self::decodable_bytes(b@),
            r matches Ok(m) ==> m.decoded_from(parse_fields(b@)->Some_0),
    {
        match decode_fields(b) {
            Ok(fs) => Self::from_fields(&fs),
            Err(e) => Err(e),
        }
    }

    /// The values that decoding gives back unchanged: the keys of each map
    /// are distinct and no float is negative zero, here and in every nested
    /// message.
    pub open spec fn canonical(&self) -> bool {
        true
    }

    /// Decoding the encoding of a canonical message gives that message back.
    pub proof fn lemma_round_trip(self)
        requires
            self.spec_encoding().len() <= u64::MAX,
            self.canonical(),
        ensures
            Self::decodable_bytes(self.spec_encoding()),
            self.decoded_from(parse_fields(self.spec_encoding())->Some_0),
    {
        let p1 = strings_field(1, strings_view(self.allowed_domains@));
        let p2 = bool_field(2, self.allow_amp_traffic);
        let p3 = bool_field(3, self.allow_all_domains);
        let p4 = int32_field(4, self.integration_type);
        let p5 = int32_field(5, self.challenge_security_preference);
        let fs = self.fields();
        assert(fs == p1 + p2 + p3 + p4 + p5);
        lemma_strings_piece(1, strings_view(self.allowed_domains@));
        lemma_varint_piece(2, if self.allow_amp_traffic { 1 } else { 0 });
        lemma_varint_piece(3, if self.allow_all_domains { 1 } else { 0 });
        lemma_varint_piece(4, self.integration_type as u64);
        lemma_int32_cast(self.integration_type);
        lemma_varint_piece(5, self.challenge_security_preference as u64);
        lemma_int32_cast(self.challenge_security_preference);
        lemma_only_numbers_ok(p1, 1);
        lemma_only_numbers_ok(p2, 2);
        lemma_only_numbers_ok(p3, 3);
        lemma_only_numbers_ok(p4, 4);
        lemma_only_numbers_ok(p5, 5);
        lemma_numbers_ok_add(p1, p2);
        lemma_numbers_ok_add(p1 + p2, p3);
        lemma_numbers_ok_add(p1 + p2 + p3, p4);
        lemma_numbers_ok_add(p1 + p2 + p3 + p4, p5);
        lemma_fields_ok_when_small(fs);
        lemma_payloads_within(fs);
        assert(all_text(fs, 1) && strings_view(self.allowed_domains@) == strings_value(fs, 1)) by {
            lemma_only_lacks(p5, 5, 1);
            lemma_agree_suffix(p1 + p2 + p3 + p4, p5, 1);
            lemma_only_lacks(p4, 4, 1);
            lemma_agree_suffix(p1 + p2 + p3, p4, 1);
            lemma_only_lacks(p3, 3, 1);
            lemma_agree_suffix(p1 + p2, p3, 1);
            lemma_only_lacks(p2, 2, 1);
            lemma_agree_suffix(p1, p2, 1);
        }
        assert(all_of_type(fs, 2, 0) && self.allow_amp_traffic == (varint_value(fs, 2) != 0)) by {
            lemma_only_lacks(p5, 5, 2);
            lemma_agree_suffix(p1 + p2 + p3 + p4, p5, 2);
            lemma_only_lacks(p4, 4, 2);
            lemma_agree_suffix(p1 + p2 + p3, p4, 2);
            lemma_only_lacks(p3, 3, 2);
            lemma_agree_suffix(p1 + p2, p3, 2);
            lemma_only_lacks(p1, 1, 2);
            lemma_agree_prefix(p1, p2, 2);
        }
        assert(all_of_type(fs, 3, 0) && self.allow_all_domains == (varint_value(fs, 3) != 0)) by {
            lemma_only_lacks(p5, 5, 3);
            lemma_agree_suffix(p1 + p2 + p3 + p4, p5, 3);
            lemma_only_lacks(p4, 4, 3);
            lemma_agree_suffix(p1 + p2 + p3, p4, 3);
            lemma_only_lacks(p1, 1, 3);
            lemma_only_lacks(p2, 2, 3);
            lemma_no_field_add(p1, p2, 3);
            lemma_agree_prefix(p1 + p2, p3, 3);
        }
        assert(all_of_type(fs, 4, 0) && self.integration_type == varint_value(fs, 4) as i32) by {
            lemma_only_lacks(p5, 5, 4);
            lemma_agree_suffix(p1 + p2 + p3 + p4, p5, 4);
            lemma_only_lacks(p1, 1, 4);
            lemma_only_lacks(p2, 2, 4);
            lemma_no_field_add(p1, p2, 4);
            lemma_only_lacks(p3, 3, 4);
            lemma_no_field_add(p1 + p2, p3, 4);
            lemma_agree_prefix(p1 + p2 + p3, p4, 4);
        }
        assert(all_of_type(fs, 5, 0) && self.challenge_security_preference == varint_value(fs, 5) as i32) by {
            lemma_only_lacks(p1, 1, 5);
            lemma_only_lacks(p2, 2, 5);
            lemma_no_field_add(p1, p2, 5);
            lemma_only_lacks(p3, 3, 5);
            lemma_no_field_add(p1 + p2, p3, 5);
            lemma_only_lacks(p4, 4, 5);
            lemma_no_field_add(p1 + p2 + p3, p4, 5);
            lemma_agree_prefix(p1 + p2 + p3 + p4, p5, 5);
        }
    }
}

/// Settings specific to keys that can be used by Android apps.
#[derive(Clone, Debug, PartialEq, Default)]
pub struct AndroidKeySettings {
    /// Android package names of apps allowed to use the key.
    pub allowed_package_names: Vec<String>,
}

impl AndroidKeySettings {
    /// The fields of this message in field-number order, the ones that
    /// hold a default value left out.
    pub open spec fn fields(&self) -> Seq<FieldV> {
        strings_field(1, strings_view(self.allowed_package_names@))
    }

    /// The wire encoding of this message.
    pub open spec fn spec_encoding(&self) -> Seq<u8> {
        fields_bytes(self.fields())
    }

    /// The decoded fields `fs` are well-formed for this message: each
    /// field has its declared wire type and each nested part decodes.
    pub open spec fn decodable(fs: Seq<FieldV>) -> bool {
        &&& all_text(fs, 1)
    }

    /// The encoding of an optional nested message of this type.
    pub open spec fn option_encoding(m: Option<Self>) -> Option<Seq<u8>> {
        match m {
            Some(m) => Some(m.spec_encoding()),
            None => None,
        }
    }

    /// An optional nested message of this type, as bytes to decode, is
    /// well-formed.
    pub open spec fn option_decodable(b: Option<Seq<u8>>) -> bool {
        match b {
            Some(b) => Self::decodable_bytes(b),
            None => true,
        }
    }

    /// `m` is the optional nested message that the bytes `b` decode to.
    pub open spec fn option_decoded_from(m: Option<Self>, b: Option<Seq<u8>>) -> bool {
        match b {
            Some(b) => m matches Some(m) && m.decoded_from(parse_fields(b)->Some_0),
            None => m is None,
        }
    }

    /// `b` is a well-formed encoding of this message.
    pub open spec fn decodable_bytes(b: Seq<u8>) -> bool {
        parse_fields(b) matches Some(fs) && Self::decodable(fs)
    }

    /// This message is the one that the decoded fields `fs` describe.
    pub open spec fn decoded_from(&self, fs: Seq<FieldV>) -> bool {
        &&& strings_view(self.allowed_package_names@) == strings_value(fs, 1)
    }

    /// The fields of this message, ready to be written.
    pub fn to_fields(&self) -> (r: Vec<Field>)
        ensures
            fields_view(r@) == self.fields(),
    {
        let mut fs: Vec<Field> = Vec::new();
        assert(fields_view(fs@) =~= Seq::<FieldV>::empty());
        push_strings(&mut fs, 1, &self.allowed_package_names);
        assert(fields_view(fs@) =~= self.fields());
        fs
    }

    /// The wire encoding of this message.
    pub fn encode_to_vec(&self) -> (r: Vec<u8>)
        ensures
            r@ == self.spec_encoding(),
    {
        let fs = self.to_fields();
        encode_fields(&fs)
    }

    /// The message that the decoded fields `fs` describe.
    pub fn from_fields(fs: &Vec<Field>) -> (r: Result<Self, DecodeError>)
        ensures
            r is Ok <==> Self::decodable(fields_view(fs@)),
            r matches Ok(m) ==> m.decoded_from(fields_view(fs@)),
    {
        let allowed_package_names = match get_strings(fs, 1) {
            Ok(v) => v,
            Err(e) => {
                return Err(e);
            },
        };
        Ok(AndroidKeySettings { allowed_package_names })
    }

    /// Decodes a message from its wire encoding.
    pub fn decode(b: &[u8]) -> (r: Result<Self, DecodeError>)
        ensures
            r is Ok <==> Self::decodable_bytes(b@),
            r matches Ok(m) ==> m.decoded_from(parse_fields(b@)->Some_0),
    {
        match decode_fields(b) {
            Ok(fs) => Self::from_fields(&fs),
            Err(e) => Err(e),
        }
    }

    /// The values that decoding gives back unchanged: the keys of each map
    /// are distinct and no float is negative zero, here and in every nested
    /// message.
    pub open spec fn canonical(&self) -> bool {
        true
    }

    /// Decoding the encoding of a canonical message gives that message back.
    pub proof fn lemma_round_trip(self)
        requires
            self.spec_encoding().len() <= u64::MAX,
            self.canonical(),
        ensures
            Self::decodable_bytes(self.spec_encoding()),
            self.decoded_from(parse_fields(self.spec_encoding())->Some_0),
    {
        let p1 = strings_field(1, strings_view(self.allowed_package_names@));
        let fs = self.fields();
        assert(fs == p1);
        lemma_strings_piece(1, strings_view(self.allowed_package_names@));
        lemma_only_numbers_ok(p1, 1);
        lemma_fields_ok_when_small(fs);
        lemma_payloads_within(fs);
        assert(all_text(fs, 1) && strings_view(self.allowed_package_names@) == strings_value(fs, 1)) by {

        }
    }
}

/// Settings specific to keys that can be used by iOS apps.
#[derive(Clone, Debug, PartialEq, Default)]
pub struct IosKeySettings {
    /// iOS bundle ids of apps allowed to use the key.
    pub allowed_bundle_ids: Vec<String>,
}

impl IosKeySettings {
    /// The fields of this message in field-number order, the ones that
    /// hold a default value left out.
    pub open spec fn fields(&self) -> Seq<FieldV> {
        strings_field(1, strings_view(self.allowed_bundle_ids@))
    }

    /// The wire encoding of this message.
    pub open spec fn spec_encoding(&self) -> Seq<u8> {
        fields_bytes(self.fields())
    }

    /// The decoded fields `fs` are well-formed for this message: each
    /// field has its declared wire type and each nested part decodes.
    pub open spec fn decodable(fs: Seq<FieldV>) -> bool {
        &&& all_text(fs, 1)
    }

    /// The encoding of an optional nested message of this type.
    pub open spec fn option_encoding(m: Option<Self>) -> Option<Seq<u8>> {
        match m {
            Some(m) => Some(m.spec_encoding()),
            None => None,
        }
    }

    /// An optional nested message of this type, as bytes to decode, is
    /// well-formed.
    pub open spec fn option_decodable(b: Option<Seq<u8>>) -> bool {
        match b {
            Some(b) => Self::decodable_bytes(b),
            None => true,
        }
    }

    /// `m` is the optional nested message that the bytes `b` decode to.
    pub open spec fn option_decoded_from(m: Option<Self>, b: Option<Seq<u8>>) -> bool {
        match b {
            Some(b) => m matches Some(m) && m.decoded_from(parse_fields(b)->Some_0),
            None => m is None,
        }
    }

    /// `b` is a well-formed encoding of this message.
    pub open spec fn decodable_bytes(b: Seq<u8>) -> bool {
        parse_fields(b) matches Some(fs) && Self::decodable(fs)
    }

    /// This message is the one that the decoded fields `fs` describe.
    pub open spec fn decoded_from(&self, fs: Seq<FieldV>) -> bool {
        &&& strings_view(self.allowed_bundle_ids@) == strings_value(fs, 1)
    }

    /// The fields of this message, ready to be written.
    pub fn to_fields(&self) -> (r: Vec<Field>)
        ensures
            fields_view(r@) == self.fields(),
    {
        let mut fs: Vec<Field> = Vec::new();
        assert(fields_view(fs@) =~= Seq::<FieldV>::empty());
        push_strings(&mut fs, 1, &self.allowed_bundle_ids);
        assert(fields_view(fs@) =~= self.fields());
        fs
    }

    /// The wire encoding of this message.
    pub fn encode_to_vec(&self) -> (r: Vec<u8>)
        ensures
            r@ == self.spec_encoding(),
    {
        let fs = self.to_fields();
        encode_fields(&fs)
    }

    /// The message that the decoded fields `fs` describe.
    pub fn from_fields(fs: &Vec<Field>) -> (r: Result<Self, DecodeError>)
        ensures
            r is Ok <==> Self::decodable(fields_view(fs@)),
            r matches Ok(m) ==> m.decoded_from(fields_view(fs@)),
    {
        let allowed_bundle_ids = match get_strings(fs, 1) {
            Ok(v) => v,
            Err(e) => {
                return Err(e);
            },
        };
        Ok(IosKeySettings { allowed_bundle_ids })
    }

    /// Decodes a message from its wire encoding.
    pub fn decode(b: &[u8]) -> (r: Result<Self, DecodeError>)
        ensures
            r is Ok <==> Self::decodable_bytes(b@),
            r matches Ok(m) ==> m.decoded_from(parse_fields(b@)->Some_0),
    {
        match decode_fields(b) {
            Ok(fs) => Self::from_fields(&fs),
            Err(e) => Err(e),
        }
    }

    /// The values that decoding gives back unchanged: the keys of each map
    /// are distinct and no float is negative zero, here and in every nested
    /// message.
    pub open spec fn canonical(&self) -> bool {
        true
    }

    /// Decoding the encoding of a canonical message gives that message back.
    pub proof fn lemma_round_trip(self)
        requires
            self.spec_encoding().len() <= u64::MAX,
            self.canonical(),
        ensures
            Self::decodable_bytes(self.spec_encoding()),
            self.decoded_from(parse_fields(self.spec_encoding())->Some_0),
    {
        let p1 = strings_field(1, strings_view(self.allowed_bundle_ids@));
        let fs = self.fields();
        assert(fs == p1);
        lemma_strings_piece(1, strings_view(self.allowed_bundle_ids@));
        lemma_only_numbers_ok(p1, 1);
        lemma_fields_ok_when_small(fs);
        lemma_payloads_within(fs);
        assert(all_text(fs, 1) && strings_view(self.allowed_bundle_ids@) == strings_value(fs, 1)) by {

        }
    }
}

} // verus!
