//! The long-running operation message.
pub mod operation;
use vstd::prelude::*;
use crate::codec::{all_of_type, all_text, bool_field, get_oneof, get_payloads, get_string, get_varint_value, message_field, message_value, oneof_ok, oneof_value, push_bool, push_message, push_payload, push_string, string_field, string_value, varint_value};
use crate::field::{DecodeError, Field, FieldV, decode_fields, encode_fields, fields_bytes, fields_view, parse_fields};
use crate::roundtrip::{lemma_agree_prefix, lemma_agree_suffix, lemma_fields_ok_when_small, lemma_members_lack, lemma_members_numbers_ok, lemma_message_piece, lemma_no_field_add, lemma_no_member_add, lemma_no_piece, lemma_numbers_ok_add, lemma_oneof_prefix, lemma_only_lacks, lemma_only_numbers_ok, lemma_only_outside, lemma_payload_piece, lemma_payloads_within, lemma_string_piece, lemma_varint_piece, only_members};
use crate::protobuf::Any;
use crate::rpc::Status;

verus! {

/// A long-running operation that a network call started.
#[derive(Clone, Debug, PartialEq, Default)]
pub struct Operation {
    /// The server-assigned name of the operation.
    pub name: String,
    /// Service-specific metadata, such as progress.
    pub metadata: Option<Any>,
    /// Whether the operation has finished.
    pub done: bool,
    /// The outcome of a finished operation.
    pub result: Option<operation::Result>,
}

impl Operation {
    /// The fields of this message in field-number order, the ones that
    /// hold a default value left out.
    pub open spec fn fields(&self) -> Seq<FieldV> {
        string_field(1, self.name@)
            + message_field(2, Any::option_encoding(self.metadata))
            + bool_field(3, self.done)
            + operation::Result::option_fields(self.result)
    }

    /// The wire encoding of this message.
    pub open spec fn spec_encoding(&self) -> Seq<u8> {
        fields_bytes(self.fields())
    }

    /// The decoded fields `fs` are well-formed for this message: each
    /// field has its declared wire type and each nested part decodes.
    pub open spec fn decodable(fs: Seq<FieldV>) -> bool {
        &&& all_text(fs, 1)
        &&& (all_of_type(fs, 2, 2) && Any::option_decodable(message_value(fs, 2)))
        &&& all_of_type(fs, 3, 0)
        &&& (oneof_ok(fs, seq![4u32, 5u32]) && operation::Result::decodable(oneof_value(fs, seq![4u32, 5u32])))
    }

    /// The encoding of an optional nested message of this type.
    pub open spec fn option_encoding(m: Option<Self>) -> Option<Seq<u8>> {
        match m {
            Some(m) => Some(m.spec_encoding()),
            None => None,
        }
    }

    /// An optional nested message of this type, as bytes to decode, is
    /// well-formed.
    pub open spec fn option_decodable(b: Option<Seq<u8>>) -> bool {
        match b {
            Some(b) => Self::decodable_bytes(b),
            None => true,
        }
    }

    /// `m` is the optional nested message that the bytes `b` decode to.
    pub open spec fn option_decoded_from(m: Option<Self>, b: Option<Seq<u8>>) -> bool {
        match b {
            Some(b) => m matches Some(m) && m.decoded_from(parse_fields(b)->Some_0),
            None => m is None,
        }
    }

    /// `b` is a well-formed encoding of this message.
    pub open spec fn decodable_bytes(b: Seq<u8>) -> bool {
        parse_fields(b) matches Some(fs) && Self::decodable(fs)
    }

    /// This message is the one that the decoded fields `fs` describe.
    pub open spec fn decoded_from(&self, fs: Seq<FieldV>) -> bool {
        &&& self.name@ == string_value(fs, 1)
        &&& Any::option_decoded_from(self.metadata, message_value(fs, 2))
        &&& self.done == (varint_value(fs, 3) != 0)
        &&& operation::Result::decoded_from(self.result, oneof_value(fs, seq![4u32, 5u32]))
    }

    /// The fields of this message, ready to be written.
    pub fn to_fields(&self) -> (r: Vec<Field>)
        ensures
            fields_view(r@) == self.fields(),
    {
        let mut fs: Vec<Field> = Vec::new();
        assert(fields_view(fs@) =~= Seq::<FieldV>::empty());
        push_string(&mut fs, 1, &self.name);
        let metadata_bytes: Option<Vec<u8>> = match &self.metadata {
            Some(m) => Some(m.encode_to_vec()),
            None => None,
        };
        push_message(&mut fs, 2, metadata_bytes);
        push_bool(&mut fs, 3, self.done);
        match &self.result {
            Some(operation::Result::Error(m)) => push_payload(&mut fs, 4, m.encode_to_vec()),
            Some(operation::Result::Response(m)) => push_payload(&mut fs, 5, m.encode_to_vec()),
            None => {
                assert(fields_view(fs@) =~= fields_view(fs@) + Seq::<FieldV>::empty());
            },
        }
        assert(fields_view(fs@) =~= self.fields());
        fs
    }

    /// The wire encoding of this message.
    pub fn encode_to_vec(&self) -> (r: Vec<u8>)
        ensures
            r@ == self.spec_encoding(),
    {
        let fs = self.to_fields();
        encode_fields(&fs)
    }

    /// The message that the decoded fields `fs` describe.
    pub fn from_fields(fs: &Vec<Field>) -> (r: core::result::Result<Self, DecodeError>)
        ensures
            r is Ok <==> Self::decodable(fields_view(fs@)),
            r matches Ok(m) ==> m.decoded_from(fields_view(fs@)),
    {
        let name = match get_string(fs, 1) {
            Ok(v) => v,
            Err(e) => {
                return Err(e);
            },
        };
        let metadata = match get_payloads(fs, 2) {
            Ok((_, joined)) => match joined {
                Some(b) => match Any::decode(b.as_slice()) {
                    Ok(m) => Some(m),
                    Err(e) => {
                        return Err(e);
                    },
                },
                None => None,
            },
            Err(e) => {
                return Err(e);
            },
        };
        let done = match get_varint_value(fs, 3) {
            Ok(v) => v != 0,
            Err(e) => {
                return Err(e);
            },
        };
        let result_members: Vec<u32> = vec![4u32, 5u32];
        assert(result_members@ =~= seq![4u32, 5u32]);
        let result = match get_oneof(fs, &result_members) {
            Ok(o) => match o {
                Some((t, j, l)) => if t == 4 {
                    match Status::decode(j.as_slice()) {
                        Ok(m) => Some(operation::Result::Error(m)),
                        Err(e) => {
                            return Err(e);
                        },
                    }
                } else {
                    match Any::decode(j.as_slice()) {
                        Ok(m) => Some(operation::Result::Response(m)),
                        Err(e) => {
                            return Err(e);
                        },
                    }
                },
                None => None,
            },
            Err(e) => {
                return Err(e);
            },
        };
        Ok(Operation { name, metadata, done, result })
    }

    /// Decodes a message from its wire encoding.
    pub fn decode(b: &[u8]) -> (r: core::result::Result<Self, DecodeError>)
        ensures
            r is Ok <==> Self::decodable_bytes(b@),
            r matches Ok(m) ==> m.decoded_from(parse_fields(b@)->Some_0),
    {
        match decode_fields(b) {
            Ok(fs) => Self::from_fields(&fs),
            Err(e) => Err(e),
        }
    }

    /// The values that decoding gives back unchanged: the keys of each map
    /// are distinct and no float is negative zero, here and in every nested
    /// message.
    pub open spec fn canonical(&self) -> bool {
        &&& match self.metadata { Some(m) => m.canonical(), None => true }
        &&& match self.result { Some(operation::Result::Error(m)) => m.canonical(), Some(operation::Result::Response(m)) => m.canonical(), _ => true }
    }

    /// Decoding the encoding of a canonical message gives that message back.
    #[verifier::rlimit(50)]
    pub proof fn lemma_round_trip(self)
        requires
            self.spec_encoding().len() <= u64::MAX,
            self.canonical(),
        ensures
            Self::decodable_bytes(self.spec_encoding()),
            self.decoded_from(parse_fields(self.spec_encoding())->Some_0),
    {
        let p1 = string_field(1, self.name@);
        let p2 = message_field(2, Any::option_encoding(self.metadata));
        let p3 = bool_field(3, self.done);
        let p4 = operation::Result::option_fields(self.result);
        let fs = self.fields();
        assert(fs == p1 + p2 + p3 + p4);
        lemma_string_piece(1, self.name@);
        lemma_message_piece(2, Any::option_encoding(self.metadata));
        lemma_varint_piece(3, if self.done { 1 } else { 0 });
        let ns4 = seq![4u32, 5u32];
        match self.result {
            Some(operation::Result::Error(m)) => {
                lemma_payload_piece(4, m.spec_encoding());
                assert(ns4[0] == 4);
            },
            Some(operation::Result::Response(m)) => {
                lemma_payload_piece(5, m.spec_encoding());
                assert(ns4[1] == 5);
            },
            None => {
                lemma_no_piece(ns4);
            },
        }
        assert(only_members(p4, ns4));
        lemma_only_numbers_ok(p1, 1);
        lemma_only_numbers_ok(p2, 2);
        lemma_only_numbers_ok(p3, 3);
        lemma_members_numbers_ok(p4, ns4);
        lemma_numbers_ok_add(p1, p2);
        lemma_numbers_ok_add(p1 + p2, p3);
        lemma_numbers_ok_add(p1 + p2 + p3, p4);
        lemma_fields_ok_when_small(fs);
        lemma_payloads_within(fs);
        assert(all_text(fs, 1) && self.name@ == string_value(fs, 1)) by {
            lemma_members_lack(p4, ns4, 1);
            lemma_agree_suffix(p1 + p2 + p3, p4, 1);
            lemma_only_lacks(p3, 3, 1);
            lemma_agree_suffix(p1 + p2, p3, 1);
            lemma_only_lacks(p2, 2, 1);
            lemma_agree_suffix(p1, p2, 1);
        }
        assert((all_of_type(fs, 2, 2) && Any::option_decodable(message_value(fs, 2))) && Any::option_decoded_from(self.metadata, message_value(fs, 2))) by {
            lemma_members_lack(p4, ns4, 2);
            lemma_agree_suffix(p1 + p2 + p3, p4, 2);
            lemma_only_lacks(p3, 3, 2);
            lemma_agree_suffix(p1 + p2, p3, 2);
            lemma_only_lacks(p1, 1, 2);
            lemma_agree_prefix(p1, p2, 2);
            match self.metadata {
                Some(m) => {
                    assert(fs[(p1).len() as int] == p2[0]);
                    m.lemma_round_trip();
                },
                None => {},
            }
        }
        assert(all_of_type(fs, 3, 0) && self.done == (varint_value(fs, 3) != 0)) by {
            lemma_members_lack(p4, ns4, 3);
            lemma_agree_suffix(p1 + p2 + p3, p4, 3);
            lemma_only_lacks(p1, 1, 3);
            lemma_only_lacks(p2, 2, 3);
            lemma_no_field_add(p1, p2, 3);
            lemma_agree_prefix(p1 + p2, p3, 3);
        }
        assert((oneof_ok(fs, seq![4u32, 5u32]) && operation::Result::decodable(oneof_value(fs, seq![4u32, 5u32]))) && operation::Result::decoded_from(self.result, oneof_value(fs, seq![4u32, 5u32]))) by {
            lemma_only_outside(p1, 1, ns4);
            lemma_only_outside(p2, 2, ns4);
            lemma_no_member_add(p1, p2, ns4);
            lemma_only_outside(p3, 3, ns4);
            lemma_no_member_add(p1 + p2, p3, ns4);
            lemma_oneof_prefix(p1 + p2 + p3, p4, ns4);
            match self.result {
                Some(operation::Result::Error(m)) => {
                    assert(fs[(p1 + p2 + p3).len() as int] == p4[0]);
                    m.lemma_round_trip();
                },
                Some(operation::Result::Response(m)) => {
                    assert(fs[(p1 + p2 + p3).len() as int] == p4[0]);
                    m.lemma_round_trip();
                },
                _ => {},
            }
        }
    }
}

} // verus!
