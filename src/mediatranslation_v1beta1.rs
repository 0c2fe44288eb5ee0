//! Messages of the media translation API (v1beta1): streaming speech translation.
pub mod streaming_translate_speech_request;
pub mod streaming_translate_speech_result;
pub mod streaming_translate_speech_response;
use vstd::prelude::*;
use crate::codec::{all_of_type, all_text, bool_field, get_oneof, get_payloads, get_string, get_varint_value, int32_field, message_field, message_value, oneof_ok, oneof_value, push_bool, push_int32, push_message, push_payload, push_string, string_field, string_value, varint_value};
use crate::field::{DecodeError, Field, FieldV, decode_fields, encode_fields, fields_bytes, fields_view, parse_fields};
use crate::roundtrip::{lemma_agree_prefix, lemma_agree_suffix, lemma_fields_ok_when_small, lemma_int32_cast, lemma_members_numbers_ok, lemma_message_piece, lemma_no_field_add, lemma_no_piece, lemma_numbers_ok_add, lemma_only_lacks, lemma_only_numbers_ok, lemma_payload_piece, lemma_payloads_within, lemma_string_piece, lemma_varint_piece, only_members};
use crate::rpc::Status;

verus! {

/// How the speech translation processes the request.
#[derive(Clone, Debug, PartialEq, Default)]
pub struct TranslateSpeechConfig {
    /// Required. Encoding of audio data: `linear16`, `flac`, `mulaw`, `amr`,
    /// `amr-wb`, `ogg-opus` or `mp3`.
    pub audio_encoding: String,
    /// Required. Source language code (BCP-47) of the input audio.
    pub source_language_code: String,
    /// Required. Target language code (BCP-47) of the output.
    pub target_language_code: String,
    /// Optional. Sample rate in Hertz of the audio data: 8000-48000, 16000 is
    /// optimal.
    pub sample_rate_hertz: i32,
    /// Optional. `google-provided-model/video` and
    /// `google-provided-model/enhanced-phone-call` are premium models;
    /// `google-provided-model/phone-call` is not.
    pub model: String,
}

impl TranslateSpeechConfig {
    /// The fields of this message in field-number order, the ones that
    /// hold a default value left out.
    pub open spec fn fields(&self) -> Seq<FieldV> {
        string_field(1, self.audio_encoding@)
            + string_field(2, self.source_language_code@)
            + string_field(3, self.target_language_code@)
            + int32_field(4, self.sample_rate_hertz)
            + string_field(5, self.model@)
    }

    /// The wire encoding of this message.
    pub open spec fn spec_encoding(&self) -> Seq<u8> {
        fields_bytes(self.fields())
    }

    /// The decoded fields `fs` are well-formed for this message: each
    /// field has its declared wire type and each nested part decodes.
    pub open spec fn decodable(fs: Seq<FieldV>) -> bool {
        &&& all_text(fs, 1)
        &&& all_text(fs, 2)
        &&& all_text(fs, 3)
        &&& all_of_type(fs, 4, 0)
        &&& all_text(fs, 5)
    }

    /// The encoding of an optional nested message of this type.
    pub open spec fn option_encoding(m: Option<Self>) -> Option<Seq<u8>> {
        match m {
            Some(m) => Some(m.spec_encoding()),
            None => None,
        }
    }

    /// An optional nested message of this type, as bytes to decode, is
    /// well-formed.
    pub open spec fn option_decodable(b: Option<Seq<u8>>) -> bool {
        match b {
            Some(b) => Self::decodable_bytes(b),
            None => true,
        }
    }

    /// `m` is the optional nested message that the bytes `b` decode to.
    pub open spec fn option_decoded_from(m: Option<Self>, b: Option<Seq<u8>>) -> bool {
        match b {
            Some(b) => m matches Some(m) && m.decoded_from(parse_fields(b)->Some_0),
            None => m is None,
        }
    }

    /// `b` is a well-formed encoding of this message.
    pub open spec fn decodable_bytes(b: Seq<u8>) -> bool {
        parse_fields(b) matches Some(fs) && Self::decodable(fs)
    }

    /// This message is the one that the decoded fields `fs` describe.
    pub open spec fn decoded_from(&self, fs: Seq<FieldV>) -> bool {
        &&& self.audio_encoding@ == string_value(fs, 1)
        &&& self.source_language_code@ == string_value(fs, 2)
        &&& self.target_language_code@ == string_value(fs, 3)
        &&& self.sample_rate_hertz == varint_value(fs, 4) as i32
        &&& self.model@ == string_value(fs, 5)
    }

    /// The fields of this message, ready to be written.
    pub fn to_fields(&self) -> (r: Vec<Field>)
        ensures
            fields_view(r@) == self.fields(),
    {
        let mut fs: Vec<Field> = Vec::new();
        assert(fields_view(fs@) =~= Seq::<FieldV>::empty());
        push_string(&mut fs, 1, &self.audio_encoding);
        push_string(&mut fs, 2, &self.source_language_code);
        push_string(&mut fs, 3, &self.target_language_code);
        push_int32(&mut fs, 4, self.sample_rate_hertz);
        push_string(&mut fs, 5, &self.model);
        assert(fields_view(fs@) =~= self.fields());
        fs
    }

    /// The wire encoding of this message.
    pub fn encode_to_vec(&self) -> (r: Vec<u8>)
        ensures
            r@ == self.spec_encoding(),
    {
        let fs = self.to_fields();
        encode_fields(&fs)
    }

    /// The message that the decoded fields `fs` describe.
    pub fn from_fields(fs: &Vec<Field>) -> (r: Result<Self, DecodeError>)
        ensures
            r is Ok <==> Self::decodable(fields_view(fs@)),
            r matches Ok(m) ==> m.decoded_from(fields_view(fs@)),
    {
        let audio_encoding = match get_string(fs, 1) {
            Ok(v) => v,
            Err(e) => {
                return Err(e);
            },
        };
        let source_language_code = match get_string(fs, 2) {
            Ok(v) => v,
            Err(e) => {
                return Err(e);
            },
        };
        let target_language_code = match get_string(fs, 3) {
            Ok(v) => v,
            Err(e) => {
                return Err(e);
            },
        };
        let sample_rate_hertz = match get_varint_value(fs, 4) {
            Ok(v) => v as i32,
            Err(e) => {
                return Err(e);
            },
        };
        let model = match get_string(fs, 5) {
            Ok(v) => v,
            Err(e) => {
                return Err(e);
            },
        };
        Ok(TranslateSpeechConfig { audio_encoding, source_language_code, target_language_code, sample_rate_hertz, model })
    }

    /// Decodes a message from its wire encoding.
    pub fn decode(b: &[u8]) -> (r: Result<Self, DecodeError>)
        ensures
            r is Ok <==> Self::decodable_bytes(b@),
            r matches Ok(m) ==> m.decoded_from(parse_fields(b@)->Some_0),
    {
        match decode_fields(b) {
            Ok(fs) => Self::from_fields(&fs),
            Err(e) => Err(e),
        }
    }

    /// The values that decoding gives back unchanged: the keys of each map
    /// are distinct and no float is negative zero, here and in every nested
    /// message.
    pub open spec fn canonical(&self) -> bool {
        true
    }

    /// Decoding the encoding of a canonical message gives that message back.
    pub proof fn lemma_round_trip(self)
        requires
            self.spec_encoding().len() <= u64::MAX,
            self.canonical(),
        ensures
            Self::decodable_bytes(self.spec_encoding()),
            self.decoded_from(parse_fields(self.spec_encoding())->Some_0),
    {
        let p1 = string_field(1, self.audio_encoding@);
        let p2 = string_field(2, self.source_language_code@);
        let p3 = string_field(3, self.target_language_code@);
        let p4 = int32_field(4, self.sample_rate_hertz);
        let p5 = string_field(5, self.model@);
        let fs = self.fields();
        assert(fs == p1 + p2 + p3 + p4 + p5);
        lemma_string_piece(1, self.audio_encoding@);
        lemma_string_piece(2, self.source_language_code@);
        lemma_string_piece(3, self.target_language_code@);
        lemma_varint_piece(4, self.sample_rate_hertz as u64);
        lemma_int32_cast(self.sample_rate_hertz);
        lemma_string_piece(5, self.model@);
        lemma_only_numbers_ok(p1, 1);
        lemma_only_numbers_ok(p2, 2);
        lemma_only_numbers_ok(p3, 3);
        lemma_only_numbers_ok(p4, 4);
        lemma_only_numbers_ok(p5, 5);
        lemma_numbers_ok_add(p1, p2);
        lemma_numbers_ok_add(p1 + p2, p3);
        lemma_numbers_ok_add(p1 + p2 + p3, p4);
        lemma_numbers_ok_add(p1 + p2 + p3 + p4, p5);
        lemma_fields_ok_when_small(fs);
        lemma_payloads_within(fs);
        assert(all_text(fs, 1) && self.audio_encoding@ == string_value(fs, 1)) by {
            lemma_only_lacks(p5, 5, 1);
            lemma_agree_suffix(p1 + p2 + p3 + p4, p5, 1);
            lemma_only_lacks(p4, 4, 1);
            lemma_agree_suffix(p1 + p2 + p3, p4, 1);
            lemma_only_lacks(p3, 3, 1);
            lemma_agree_suffix(p1 + p2, p3, 1);
            lemma_only_lacks(p2, 2, 1);
            lemma_agree_suffix(p1, p2, 1);
        }
        assert(all_text(fs, 2) && self.source_language_code@ == string_value(fs, 2)) by {
            lemma_only_lacks(p5, 5, 2);
            lemma_agree_suffix(p1 + p2 + p3 + p4, p5, 2);
            lemma_only_lacks(p4, 4, 2);
            lemma_agree_suffix(p1 + p2 + p3, p4, 2);
            lemma_only_lacks(p3, 3, 2);
            lemma_agree_suffix(p1 + p2, p3, 2);
            lemma_only_lacks(p1, 1, 2);
            lemma_agree_prefix(p1, p2, 2);
        }
        assert(all_text(fs, 3) && self.target_language_code@ == string_value(fs, 3)) by {
            lemma_only_lacks(p5, 5, 3);
            lemma_agree_suffix(p1 + p2 + p3 + p4, p5, 3);
            lemma_only_lacks(p4, 4, 3);
            lemma_agree_suffix(p1 + p2 + p3, p4, 3);
            lemma_only_lacks(p1, 1, 3);
            lemma_only_lacks(p2, 2, 3);
            lemma_no_field_add(p1, p2, 3);
            lemma_agree_prefix(p1 + p2, p3, 3);
        }
        assert(all_of_type(fs, 4, 0) && self.sample_rate_hertz == varint_value(fs, 4) as i32) by {
            lemma_only_lacks(p5, 5, 4);
            lemma_agree_suffix(p1 + p2 + p3 + p4, p5, 4);
            lemma_only_lacks(p1, 1, 4);
            lemma_only_lacks(p2, 2, 4);
            lemma_no_field_add(p1, p2, 4);
            lemma_only_lacks(p3, 3, 4);
            lemma_no_field_add(p1 + p2, p3, 4);
            lemma_agree_prefix(p1 + p2 + p3, p4, 4);
        }
        assert(all_text(fs, 5) && self.model@ == string_value(fs, 5)) by {
            lemma_only_lacks(p1, 1, 5);
            lemma_only_lacks(p2, 2, 5);
            lemma_no_field_add(p1, p2, 5);
            lemma_only_lacks(p3, 3, 5);
            lemma_no_field_add(p1 + p2, p3, 5);
            lemma_only_lacks(p4, 4, 5);
            lemma_no_field_add(p1 + p2 + p3, p4, 5);
            lemma_agree_prefix(p1 + p2 + p3 + p4, p5, 5);
        }
    }
}

/// Config used for streaming translation.
#[derive(Clone, Debug, PartialEq, Default)]
pub struct StreamingTranslateSpeechConfig {
    /// Required. The common config for all the following audio contents.
    pub audio_config: Option<TranslateSpeechConfig>,
    /// Optional. If `false` or omitted, the system translates continuously until
    /// the client closes the input stream; if `true`, it detects a single spoken
    /// utterance, returns an `END_OF_SINGLE_UTTERANCE` event and stops.
    pub single_utterance: bool,
}

impl StreamingTranslateSpeechConfig {
    /// The fields of this message in field-number order, the ones that
    /// hold a default value left out.
    pub open spec fn fields(&self) -> Seq<FieldV> {
        message_field(1, TranslateSpeechConfig::option_encoding(self.audio_config))
            + bool_field(2, self.single_utterance)
    }

    /// The wire encoding of this message.
    pub open spec fn spec_encoding(&self) -> Seq<u8> {
        fields_bytes(self.fields())
    }

    /// The decoded fields `fs` are well-formed for this message: each
    /// field has its declared wire type and each nested part decodes.
    pub open spec fn decodable(fs: Seq<FieldV>) -> bool {
        &&& (all_of_type(fs, 1, 2) && TranslateSpeechConfig::option_decodable(message_value(fs, 1)))
        &&& all_of_type(fs, 2, 0)
    }

    /// The encoding of an optional nested message of this type.
    pub open spec fn option_encoding(m: Option<Self>) -> Option<Seq<u8>> {
        match m {
            Some(m) => Some(m.spec_encoding()),
            None => None,
        }
    }

    /// An optional nested message of this type, as bytes to decode, is
    /// well-formed.
    pub open spec fn option_decodable(b: Option<Seq<u8>>) -> bool {
        match b {
            Some(b) => Self::decodable_bytes(b),
            None => true,
        }
    }

    /// `m` is the optional nested message that the bytes `b` decode to.
    pub open spec fn option_decoded_from(m: Option<Self>, b: Option<Seq<u8>>) -> bool {
        match b {
            Some(b) => m matches Some(m) && m.decoded_from(parse_fields(b)->Some_0),
            None => m is None,
        }
    }

    /// `b` is a well-formed encoding of this message.
    pub open spec fn decodable_bytes(b: Seq<u8>) -> bool {
        parse_fields(b) matches Some(fs) && Self::decodable(fs)
    }

    /// This message is the one that the decoded fields `fs` describe.
    pub open spec fn decoded_from(&self, fs: Seq<FieldV>) -> bool {
        &&& TranslateSpeechConfig::option_decoded_from(self.audio_config, message_value(fs, 1))
        &&& self.single_utterance == (varint_value(fs, 2) != 0)
    }

    /// The fields of this message, ready to be written.
    pub fn to_fields(&self) -> (r: Vec<Field>)
        ensures
            fields_view(r@) == self.fields(),
    {
        let mut fs: Vec<Field> = Vec::new();
        assert(fields_view(fs@) =~= Seq::<FieldV>::empty());
        let audio_config_bytes: Option<Vec<u8>> = match &self.audio_config {
            Some(m) => Some(m.encode_to_vec()),
            None => None,
        };
        push_message(&mut fs, 1, audio_config_bytes);
        push_bool(&mut fs, 2, self.single_utterance);
        assert(fields_view(fs@) =~= self.fields());
        fs
    }

    /// The wire encoding of this message.
    pub fn encode_to_vec(&self) -> (r: Vec<u8>)
        ensures
            r@ == self.spec_encoding(),
    {
        let fs = self.to_fields();
        encode_fields(&fs)
    }

    /// The message that the decoded fields `fs` describe.
    pub fn from_fields(fs: &Vec<Field>) -> (r: Result<Self, DecodeError>)
        ensures
            r is Ok <==> Self::decodable(fields_view(fs@)),
            r matches Ok(m) ==> m.decoded_from(fields_view(fs@)),
    {
        let audio_config = match get_payloads(fs, 1) {
            Ok((_, joined)) => match joined {
                Some(b) => match TranslateSpeechConfig::decode(b.as_slice()) {
                    Ok(m) => Some(m),
                    Err(e) => {
                        return Err(e);
                    },
                },
                None => None,
            },
            Err(e) => {
                return Err(e);
            },
        };
        let single_utterance = match get_varint_value(fs, 2) {
            Ok(v) => v != 0,
            Err(e) => {
                return Err(e);
            },
        };
        Ok(StreamingTranslateSpeechConfig { audio_config, single_utterance })
    }

    /// Decodes a message from its wire encoding.
    pub fn decode(b: &[u8]) -> (r: Result<Self, DecodeError>)
        ensures
            r is Ok <==> Self::decodable_bytes(b@),
            r matches Ok(m) ==> m.decoded_from(parse_fields(b@)->Some_0),
    {
        match decode_fields(b) {
            Ok(fs) => Self::from_fields(&fs),
            Err(e) => Err(e),
        }
    }

    /// The values that decoding gives back unchanged: the keys of each map
    /// are distinct and no float is negative zero, here and in every nested
    /// message.
    pub open spec fn canonical(&self) -> bool {
        &&& match self.audio_config { Some(m) => m.canonical(), None => true }
    }

    /// Decoding the encoding of a canonical message gives that message back.
    pub proof fn lemma_round_trip(self)
        requires
            self.spec_encoding().len() <= u64::MAX,
            self.canonical(),
        ensures
            Self::decodable_bytes(self.spec_encoding()),
            self.decoded_from(parse_fields(self.spec_encoding())->Some_0),
    {
        let p1 = message_field(1, TranslateSpeechConfig::option_encoding(self.audio_config));
        let p2 = bool_field(2, self.single_utterance);
        let fs = self.fields();
        assert(fs == p1 + p2);
        lemma_message_piece(1, TranslateSpeechConfig::option_encoding(self.audio_config));
        lemma_varint_piece(2, if self.single_utterance { 1 } else { 0 });
        lemma_only_numbers_ok(p1, 1);
        lemma_only_numbers_ok(p2, 2);
        lemma_numbers_ok_add(p1, p2);
        lemma_fields_ok_when_small(fs);
        lemma_payloads_within(fs);
        assert((all_of_type(fs, 1, 2) && TranslateSpeechConfig::option_decodable(message_value(fs, 1))) && TranslateSpeechConfig::option_decoded_from(self.audio_config, message_value(fs, 1))) by {
            lemma_only_lacks(p2, 2, 1);
            lemma_agree_suffix(p1, p2, 1);
            match self.audio_config {
                Some(m) => {
                    assert(fs[0] == p1[0]);
                    m.lemma_round_trip();
                },
                None => {},
            }
        }
        assert(all_of_type(fs, 2, 0) && self.single_utterance == (varint_value(fs, 2) != 0)) by {
            lemma_only_lacks(p1, 1, 2);
            lemma_agree_prefix(p1, p2, 2);
        }
    }
}

/// The top-level message sent by the client for the `StreamingTranslateSpeech`
/// method. The first message holds a `streaming_config` and no audio; all
/// later ones hold `audio_content` and no config.
#[derive(Clone, Debug, PartialEq, Default)]
pub struct StreamingTranslateSpeechRequest {
    /// The streaming request, which is either a streaming config or content.
    pub streaming_request: Option<streaming_translate_speech_request::StreamingRequest>,
}

impl StreamingTranslateSpeechRequest {
    /// The fields of this message in field-number order, the ones that
    /// hold a default value left out.
    pub open spec fn fields(&self) -> Seq<FieldV> {
        streaming_translate_speech_request::StreamingRequest::option_fields(self.streaming_request)
    }

    /// The wire encoding of this message.
    pub open spec fn spec_encoding(&self) -> Seq<u8> {
        fields_bytes(self.fields())
    }

    /// The decoded fields `fs` are well-formed for this message: each
    /// field has its declared wire type and each nested part decodes.
    pub open spec fn decodable(fs: Seq<FieldV>) -> bool {
        &&& (oneof_ok(fs, seq![1u32, 2u32]) && streaming_translate_speech_request::StreamingRequest::decodable(oneof_value(fs, seq![1u32, 2u32])))
    }

    /// The encoding of an optional nested message of this type.
    pub open spec fn option_encoding(m: Option<Self>) -> Option<Seq<u8>> {
        match m {
            Some(m) => Some(m.spec_encoding()),
            None => None,
        }
    }

    /// An optional nested message of this type, as bytes to decode, is
    /// well-formed.
    pub open spec fn option_decodable(b: Option<Seq<u8>>) -> bool {
        match b {
            Some(b) => Self::decodable_bytes(b),
            None => true,
        }
    }

    /// `m` is the optional nested message that the bytes `b` decode to.
    pub open spec fn option_decoded_from(m: Option<Self>, b: Option<Seq<u8>>) -> bool {
        match b {
            Some(b) => m matches Some(m) && m.decoded_from(parse_fields(b)->Some_0),
            None => m is None,
        }
    }

    /// `b` is a well-formed encoding of this message.
    pub open spec fn decodable_bytes(b: Seq<u8>) -> bool {
        parse_fields(b) matches Some(fs) && Self::decodable(fs)
    }

    /// This message is the one that the decoded fields `fs` describe.
    pub open spec fn decoded_from(&self, fs: Seq<FieldV>) -> bool {
        &&& streaming_translate_speech_request::StreamingRequest::decoded_from(self.streaming_request, oneof_value(fs, seq![1u32, 2u32]))
    }

    /// The fields of this message, ready to be written.
    pub fn to_fields(&self) -> (r: Vec<Field>)
        ensures
            fields_view(r@) == self.fields(),
    {
        let mut fs: Vec<Field> = Vec::new();
        assert(fields_view(fs@) =~= Seq::<FieldV>::empty());
        match &self.streaming_request {
            Some(streaming_translate_speech_request::StreamingRequest::StreamingConfig(m)) => push_payload(&mut fs, 1, m.encode_to_vec()),
            Some(streaming_translate_speech_request::StreamingRequest::AudioContent(b)) => push_payload(&mut fs, 2, b.clone()),
            None => {
                assert(fields_view(fs@) =~= fields_view(fs@) + Seq::<FieldV>::empty());
            },
        }
        assert(fields_view(fs@) =~= self.fields());
        fs
    }

    /// The wire encoding of this message.
    pub fn encode_to_vec(&self) -> (r: Vec<u8>)
        ensures
            r@ == self.spec_encoding(),
    {
        let fs = self.to_fields();
        encode_fields(&fs)
    }

    /// The message that the decoded fields `fs` describe.
    pub fn from_fields(fs: &Vec<Field>) -> (r: Result<Self, DecodeError>)
        ensures
            r is Ok <==> Self::decodable(fields_view(fs@)),
            r matches Ok(m) ==> m.decoded_from(fields_view(fs@)),
    {
        let streaming_request_members: Vec<u32> = vec![1u32, 2u32];
        assert(streaming_request_members@ =~= seq![1u32, 2u32]);
        let streaming_request = match get_oneof(fs, &streaming_request_members) {
            Ok(o) => match o {
                Some((t, j, l)) => if t == 1 {
                    match StreamingTranslateSpeechConfig::decode(j.as_slice()) {
                        Ok(m) => Some(streaming_translate_speech_request::StreamingRequest::StreamingConfig(m)),
                        Err(e) => {
                            return Err(e);
                        },
                    }
                } else {
                    Some(streaming_translate_speech_request::StreamingRequest::AudioContent(l))
                },
                None => None,
            },
            Err(e) => {
                return Err(e);
            },
        };
        Ok(StreamingTranslateSpeechRequest { streaming_request })
    }

    /// Decodes a message from its wire encoding.
    pub fn decode(b: &[u8]) -> (r: Result<Self, DecodeError>)
        ensures
            r is Ok <==> Self::decodable_bytes(b@),
            r matches Ok(m) ==> m.decoded_from(parse_fields(b@)->Some_0),
    {
        match decode_fields(b) {
            Ok(fs) => Self::from_fields(&fs),
            Err(e) => Err(e),
        }
    }

    /// The values that decoding gives back unchanged: the keys of each map
    /// are distinct and no float is negative zero, here and in every nested
    /// message.
    pub open spec fn canonical(&self) -> bool {
        &&& match self.streaming_request { Some(streaming_translate_speech_request::StreamingRequest::StreamingConfig(m)) => m.canonical(), _ => true }
    }

    /// Decoding the encoding of a canonical message gives that message back.
    pub proof fn lemma_round_trip(self)
        requires
            self.spec_encoding().len() <= u64::MAX,
            self.canonical(),
        ensures
            Self::decodable_bytes(self.spec_encoding()),
            self.decoded_from(parse_fields(self.spec_encoding())->Some_0),
    {
        let p1 = streaming_translate_speech_request::StreamingRequest::option_fields(self.streaming_request);
        let fs = self.fields();
        assert(fs == p1);
        let ns1 = seq![1u32, 2u32];
        match self.streaming_request {
            Some(streaming_translate_speech_request::StreamingRequest::StreamingConfig(m)) => {
                lemma_payload_piece(1, m.spec_encoding());
                assert(ns1[0] == 1);
            },
            Some(streaming_translate_speech_request::StreamingRequest::AudioContent(b)) => {
                lemma_payload_piece(2, b@);
                assert(ns1[1] == 2);
            },
            None => {
                lemma_no_piece(ns1);
            },
        }
        assert(only_members(p1, ns1));
        lemma_members_numbers_ok(p1, ns1);
        lemma_fields_ok_when_small(fs);
        lemma_payloads_within(fs);
        assert((oneof_ok(fs, seq![1u32, 2u32]) && streaming_translate_speech_request::StreamingRequest::decodable(oneof_value(fs, seq![1u32, 2u32]))) && streaming_translate_speech_request::StreamingRequest::decoded_from(self.streaming_request, oneof_value(fs, seq![1u32, 2u32]))) by {
            match self.streaming_request {
                Some(streaming_translate_speech_request::StreamingRequest::StreamingConfig(m)) => {
                    assert(fs[0] == p1[0]);
                    m.lemma_round_trip();
                },
                _ => {},
            }
        }
    }
}

/// A streaming speech translation result for a portion of the audio that is
/// currently being processed.
#[derive(Clone, Debug, PartialEq, Default)]
pub struct StreamingTranslateSpeechResult {
    /// Translation result.
    pub result: Option<streaming_translate_speech_result::Result>,
}

impl StreamingTranslateSpeechResult {
    /// The fields of this message in field-number order, the ones that
    /// hold a default value left out.
    pub open spec fn fields(&self) -> Seq<FieldV> {
        streaming_translate_speech_result::Result::option_fields(self.result)
    }

    /// The wire encoding of this message.
    pub open spec fn spec_encoding(&self) -> Seq<u8> {
        fields_bytes(self.fields())
    }

    /// The decoded fields `fs` are well-formed for this message: each
    /// field has its declared wire type and each nested part decodes.
    pub open spec fn decodable(fs: Seq<FieldV>) -> bool {
        &&& (oneof_ok(fs, seq![1u32]) && streaming_translate_speech_result::Result::decodable(oneof_value(fs, seq![1u32])))
    }

    /// The encoding of an optional nested message of this type.
    pub open spec fn option_encoding(m: Option<Self>) -> Option<Seq<u8>> {
        match m {
            Some(m) => Some(m.spec_encoding()),
            None => None,
        }
    }

    /// An optional nested message of this type, as bytes to decode, is
    /// well-formed.
    pub open spec fn option_decodable(b: Option<Seq<u8>>) -> bool {
        match b {
            Some(b) => Self::decodable_bytes(b),
            None => true,
        }
    }

    /// `m` is the optional nested message that the bytes `b` decode to.
    pub open spec fn option_decoded_from(m: Option<Self>, b: Option<Seq<u8>>) -> bool {
        match b {
            Some(b) => m matches Some(m) && m.decoded_from(parse_fields(b)->Some_0),
            None => m is None,
        }
    }

    /// `b` is a well-formed encoding of this message.
    pub open spec fn decodable_bytes(b: Seq<u8>) -> bool {
        parse_fields(b) matches Some(fs) && Self::decodable(fs)
    }

    /// This message is the one that the decoded fields `fs` describe.
    pub open spec fn decoded_from(&self, fs: Seq<FieldV>) -> bool {
        &&& streaming_translate_speech_result::Result::decoded_from(self.result, oneof_value(fs, seq![1u32]))
    }

    /// The fields of this message, ready to be written.
    pub fn to_fields(&self) -> (r: Vec<Field>)
        ensures
            fields_view(r@) == self.fields(),
    {
        let mut fs: Vec<Field> = Vec::new();
        assert(fields_view(fs@) =~= Seq::<FieldV>::empty());
        match &self.result {
            Some(streaming_translate_speech_result::Result::TextTranslationResult(m)) => push_payload(&mut fs, 1, m.encode_to_vec()),
            None => {
                assert(fields_view(fs@) =~= fields_view(fs@) + Seq::<FieldV>::empty());
            },
        }
        assert(fields_view(fs@) =~= self.fields());
        fs
    }

    /// The wire encoding of this message.
    pub fn encode_to_vec(&self) -> (r: Vec<u8>)
        ensures
            r@ == self.spec_encoding(),
    {
        let fs = self.to_fields();
        encode_fields(&fs)
    }

    /// The message that the decoded fields `fs` describe.
    pub fn from_fields(fs: &Vec<Field>) -> (r: Result<Self, DecodeError>)
        ensures
            r is Ok <==> Self::decodable(fields_view(fs@)),
            r matches Ok(m) ==> m.decoded_from(fields_view(fs@)),
    {
        let result_members: Vec<u32> = vec![1u32];
        assert(result_members@ =~= seq![1u32]);
        let result = match get_oneof(fs, &result_members) {
            Ok(o) => match o {
                Some((t, j, l)) => match streaming_translate_speech_result::TextTranslationResult::decode(j.as_slice()) {
                        Ok(m) => Some(streaming_translate_speech_result::Result::TextTranslationResult(m)),
                        Err(e) => {
                            return Err(e);
                        },
                    },
                None => None,
            },
            Err(e) => {
                return Err(e);
            },
        };
        Ok(StreamingTranslateSpeechResult { result })
    }

    /// Decodes a message from its wire encoding.
    pub fn decode(b: &[u8]) -> (r: Result<Self, DecodeError>)
        ensures
            r is Ok <==> Self::decodable_bytes(b@),
            r matches Ok(m) ==> m.decoded_from(parse_fields(b@)->Some_0),
    {
        match decode_fields(b) {
            Ok(fs) => Self::from_fields(&fs),
            Err(e) => Err(e),
        }
    }

    /// The values that decoding gives back unchanged: the keys of each map
    /// are distinct and no float is negative zero, here and in every nested
    /// message.
    pub open spec fn canonical(&self) -> bool {
        &&& match self.result { Some(streaming_translate_speech_result::Result::TextTranslationResult(m)) => m.canonical(), _ => true }
    }

    /// Decoding the encoding of a canonical message gives that message back.
    pub proof fn lemma_round_trip(self)
        requires
            self.spec_encoding().len() <= u64::MAX,
            self.canonical(),
        ensures
            Self::decodable_bytes(self.spec_encoding()),
            self.decoded_from(parse_fields(self.spec_encoding())->Some_0),
    {
        let p1 = streaming_translate_speech_result::Result::option_fields(self.result);
        let fs = self.fields();
        assert(fs == p1);
        let ns1 = seq![1u32];
        match self.result {
            Some(streaming_translate_speech_result::Result::TextTranslationResult(m)) => {
                lemma_payload_piece(1, m.spec_encoding());
                assert(ns1[0] == 1);
            },
            None => {
                lemma_no_piece(ns1);
            },
        }
        assert(only_members(p1, ns1));
        lemma_members_numbers_ok(p1, ns1);
        lemma_fields_ok_when_small(fs);
        lemma_payloads_within(fs);
        assert((oneof_ok(fs, seq![1u32]) && streaming_translate_speech_result::Result::decodable(oneof_value(fs, seq![1u32]))) && streaming_translate_speech_result::Result::decoded_from(self.result, oneof_value(fs, seq![1u32]))) by {
            match self.result {
                Some(streaming_translate_speech_result::Result::TextTranslationResult(m)) => {
                    assert(fs[0] == p1[0]);
                    m.lemma_round_trip();
                },
                _ => {},
            }
        }
    }
}

/// A streaming speech translation response for a portion of the audio
/// currently processed.
#[derive(Clone, Debug, PartialEq, Default)]
pub struct StreamingTranslateSpeechResponse {
    /// Output only. If set, the error for the operation.
    pub error: Option<Status>,
    /// Output only. The translation result that is currently being processed.
    pub result: Option<StreamingTranslateSpeechResult>,
    /// Output only. The type of speech event, a value of
    /// `streaming_translate_speech_response::SpeechEventType`.
    pub speech_event_type: i32,
}

impl StreamingTranslateSpeechResponse {
    /// The fields of this message in field-number order, the ones that
    /// hold a default value left out.
    pub open spec fn fields(&self) -> Seq<FieldV> {
        message_field(1, Status::option_encoding(self.error))
            + message_field(2, StreamingTranslateSpeechResult::option_encoding(self.result))
            + int32_field(3, self.speech_event_type)
    }

    /// The wire encoding of this message.
    pub open spec fn spec_encoding(&self) -> Seq<u8> {
        fields_bytes(self.fields())
    }

    /// The decoded fields `fs` are well-formed for this message: each
    /// field has its declared wire type and each nested part decodes.
    pub open spec fn decodable(fs: Seq<FieldV>) -> bool {
        &&& (all_of_type(fs, 1, 2) && Status::option_decodable(message_value(fs, 1)))
        &&& (all_of_type(fs, 2, 2) && StreamingTranslateSpeechResult::option_decodable(message_value(fs, 2)))
        &&& all_of_type(fs, 3, 0)
    }

    /// The encoding of an optional nested message of this type.
    pub open spec fn option_encoding(m: Option<Self>) -> Option<Seq<u8>> {
        match m {
            Some(m) => Some(m.spec_encoding()),
            None => None,
        }
    }

    /// An optional nested message of this type, as bytes to decode, is
    /// well-formed.
    pub open spec fn option_decodable(b: Option<Seq<u8>>) -> bool {
        match b {
            Some(b) => Self::decodable_bytes(b),
            None => true,
        }
    }

    /// `m` is the optional nested message that the bytes `b` decode to.
    pub open spec fn option_decoded_from(m: Option<Self>, b: Option<Seq<u8>>) -> bool {
        match b {
            Some(b) => m matches Some(m) && m.decoded_from(parse_fields(b)->Some_0),
            None => m is None,
        }
    }

    /// `b` is a well-formed encoding of this message.
    pub open spec fn decodable_bytes(b: Seq<u8>) -> bool {
        parse_fields(b) matches Some(fs) && Self::decodable(fs)
    }

    /// This message is the one that the decoded fields `fs` describe.
    pub open spec fn decoded_from(&self, fs: Seq<FieldV>) -> bool {
        &&& Status::option_decoded_from(self.error, message_value(fs, 1))
        &&& StreamingTranslateSpeechResult::option_decoded_from(self.result, message_value(fs, 2))
        &&& self.speech_event_type == varint_value(fs, 3) as i32
    }

    /// The fields of this message, ready to be written.
    pub fn to_fields(&self) -> (r: Vec<Field>)
        ensures
            fields_view(r@) == self.fields(),
    {
        let mut fs: Vec<Field> = Vec::new();
        assert(fields_view(fs@) =~= Seq::<FieldV>::empty());
        let error_bytes: Option<Vec<u8>> = match &self.error {
            Some(m) => Some(m.encode_to_vec()),
            None => None,
        };
        push_message(&mut fs, 1, error_bytes);
        let result_bytes: Option<Vec<u8>> = match &self.result {
            Some(m) => Some(m.encode_to_vec()),
            None => None,
        };
        push_message(&mut fs, 2, result_bytes);
        push_int32(&mut fs, 3, self.speech_event_type);
        assert(fields_view(fs@) =~= self.fields());
        fs
    }

    /// The wire encoding of this message.
    pub fn encode_to_vec(&self) -> (r: Vec<u8>)
        ensures
            r@ == self.spec_encoding(),
    {
        let fs = self.to_fields();
        encode_fields(&fs)
    }

    /// The message that the decoded fields `fs` describe.
    pub fn from_fields(fs: &Vec<Field>) -> (r: Result<Self, DecodeError>)
        ensures
            r is Ok <==> Self::decodable(fields_view(fs@)),
            r matches Ok(m) ==> m.decoded_from(fields_view(fs@)),
    {
        let error = match get_payloads(fs, 1) {
            Ok((_, joined)) => match joined {
                Some(b) => match Status::decode(b.as_slice()) {
                    Ok(m) => Some(m),
                    Err(e) => {
                        return Err(e);
                    },
                },
                None => None,
            },
            Err(e) => {
                return Err(e);
            },
        };
        let result = match get_payloads(fs, 2) {
            Ok((_, joined)) => match joined {
                Some(b) => match StreamingTranslateSpeechResult::decode(b.as_slice()) {
                    Ok(m) => Some(m),
                    Err(e) => {
                        return Err(e);
                    },
                },
                None => None,
            },
            Err(e) => {
                return Err(e);
            },
        };
        let speech_event_type = match get_varint_value(fs, 3) {
            Ok(v) => v as i32,
            Err(e) => {
                return Err(e);
            },
        };
        Ok(StreamingTranslateSpeechResponse { error, result, speech_event_type })
    }

    /// Decodes a message from its wire encoding.
    pub fn decode(b: &[u8]) -> (r: Result<Self, DecodeError>)
        ensures
            r is Ok <==> Self::decodable_bytes(b@),
            r matches Ok(m) ==> m.decoded_from(parse_fields(b@)->Some_0),
    {
        match decode_fields(b) {
            Ok(fs) => Self::from_fields(&fs),
            Err(e) => Err(e),
        }
    }

    /// The values that decoding gives back unchanged: the keys of each map
    /// are distinct and no float is negative zero, here and in every nested
    /// message.
    pub open spec fn canonical(&self) -> bool {
        &&& match self.error { Some(m) => m.canonical(), None => true }
        &&& match self.result { Some(m) => m.canonical(), None => true }
    }

    /// Decoding the encoding of a canonical message gives that message back.
    pub proof fn lemma_round_trip(self)
        requires
            self.spec_encoding().len() <= u64::MAX,
            self.canonical(),
        ensures
            Self::decodable_bytes(self.spec_encoding()),
            self.decoded_from(parse_fields(self.spec_encoding())->Some_0),
    {
        let p1 = message_field(1, Status::option_encoding(self.error));
        let p2 = message_field(2, StreamingTranslateSpeechResult::option_encoding(self.result));
        let p3 = int32_field(3, self.speech_event_type);
        let fs = self.fields();
        assert(fs == p1 + p2 + p3);
        lemma_message_piece(1, Status::option_encoding(self.error));
        lemma_message_piece(2, StreamingTranslateSpeechResult::option_encoding(self.result));
        lemma_varint_piece(3, self.speech_event_type as u64);
        lemma_int32_cast(self.speech_event_type);
        lemma_only_numbers_ok(p1, 1);
        lemma_only_numbers_ok(p2, 2);
        lemma_only_numbers_ok(p3, 3);
        lemma_numbers_ok_add(p1, p2);
        lemma_numbers_ok_add(p1 + p2, p3);
        lemma_fields_ok_when_small(fs);
        lemma_payloads_within(fs);
        assert((all_of_type(fs, 1, 2) && Status::option_decodable(message_value(fs, 1))) && Status::option_decoded_from(self.error, message_value(fs, 1))) by {
            lemma_only_lacks(p3, 3, 1);
            lemma_agree_suffix(p1 + p2, p3, 1);
            lemma_only_lacks(p2, 2, 1);
            lemma_agree_suffix(p1, p2, 1);
            match self.error {
                Some(m) => {
                    assert(fs[0] == p1[0]);
                    m.lemma_round_trip();
                },
                None => {},
            }
        }
        assert((all_of_type(fs, 2, 2) && StreamingTranslateSpeechResult::option_decodable(message_value(fs, 2))) && StreamingTranslateSpeechResult::option_decoded_from(self.result, message_value(fs, 2))) by {
            lemma_only_lacks(p3, 3, 2);
            lemma_agree_suffix(p1 + p2, p3, 2);
            lemma_only_lacks(p1, 1, 2);
            lemma_agree_prefix(p1, p2, 2);
            match self.result {
                Some(m) => {
                    assert(fs[(p1).len() as int] == p2[0]);
                    m.lemma_round_trip();
                },
                None => {},
            }
        }
        assert(all_of_type(fs, 3, 0) && self.speech_event_type == varint_value(fs, 3) as i32) by {
            lemma_only_lacks(p1, 1, 3);
            lemma_only_lacks(p2, 2, 3);
            lemma_no_field_add(p1, p2, 3);
            lemma_agree_prefix(p1 + p2, p3, 3);
        }
    }
}

} // verus!
