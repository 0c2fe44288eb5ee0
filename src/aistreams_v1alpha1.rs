//! Messages of the AI Streams API (v1alpha1): clusters and streams.
use vstd::prelude::*;
use crate::codec::{all_of_type, all_text, bool_field, bytes_view, decode_labels, encode_labels, get_payloads, get_string, get_strings, get_varint_value, int32_field, labels_encoding, labels_ok, labels_value, labels_view, message_field, message_value, messages_field, payload_of, payloads_value, push_bool, push_int32, push_message, push_messages, push_string, push_strings, string_field, string_value, strings_field, strings_value, strings_view, varint_value};
use crate::field::{DecodeError, Field, FieldV, decode_fields, encode_fields, fields_bytes, fields_view, parse_fields};
use crate::roundtrip::{keys_distinct, lemma_agree_prefix, lemma_agree_suffix, lemma_fields_ok_when_small, lemma_int32_cast, lemma_labels_round_trip, lemma_message_piece, lemma_messages_piece, lemma_no_field_add, lemma_numbers_ok_add, lemma_only_lacks, lemma_only_numbers_ok, lemma_payloads_within, lemma_string_piece, lemma_strings_piece, lemma_varint_piece};
use crate::protobuf::{FieldMask, Timestamp};

verus! {

/// Cluster resource.
#[derive(Clone, Debug, PartialEq, Default)]
pub struct Cluster {
    /// The name of the cluster, in the format
    /// projects/<projectid>/locations/<locationid>/clusters/<clusterid>.
    pub name: String,
    /// Output only. The time at which this cluster was created.
    pub create_time: Option<Timestamp>,
    /// Output only. The time at which this cluster was updated.
    pub update_time: Option<Timestamp>,
    /// Labels with user-defined metadata, each key at most once.
    pub labels: Vec<(String, String)>,
    /// Output only. The certificate for creating the secure connection between the
    /// client and the AI Streams data plane.
    pub certificate: String,
    /// Output only. The endpoint of the data plane cluster.
    pub service_endpoint: String,
}

impl Cluster {
    /// The fields of this message in field-number order, the ones that
    /// hold a default value left out.
    pub open spec fn fields(&self) -> Seq<FieldV> {
        string_field(1, self.name@)
            + message_field(2, Timestamp::option_encoding(self.create_time))
            + message_field(3, Timestamp::option_encoding(self.update_time))
            + messages_field(4, labels_encoding(labels_view(self.labels@)))
            + string_field(5, self.certificate@)
            + string_field(6, self.service_endpoint@)
    }

    /// The wire encoding of this message.
    pub open spec fn spec_encoding(&self) -> Seq<u8> {
        fields_bytes(self.fields())
    }

    /// The decoded fields `fs` are well-formed for this message: each
    /// field has its declared wire type and each nested part decodes.
    pub open spec fn decodable(fs: Seq<FieldV>) -> bool {
        &&& all_text(fs, 1)
        &&& (all_of_type(fs, 2, 2) && Timestamp::option_decodable(message_value(fs, 2)))
        &&& (all_of_type(fs, 3, 2) && Timestamp::option_decodable(message_value(fs, 3)))
        &&& (all_of_type(fs, 4, 2) && labels_ok(payloads_value(fs, 4)))
        &&& all_text(fs, 5)
        &&& all_text(fs, 6)
    }

    /// The encoding of an optional nested message of this type.
    pub open spec fn option_encoding(m: Option<Self>) -> Option<Seq<u8>> {
        match m {
            Some(m) => Some(m.spec_encoding()),
            None => None,
        }
    }

    /// An optional nested message of this type, as bytes to decode, is
    /// well-formed.
    pub open spec fn option_decodable(b: Option<Seq<u8>>) -> bool {
        match b {
            Some(b) => Self::decodable_bytes(b),
            None => true,
        }
    }

    /// `m` is the optional nested message that the bytes `b` decode to.
    pub open spec fn option_decoded_from(m: Option<Self>, b: Option<Seq<u8>>) -> bool {
        match b {
            Some(b) => m matches Some(m) && m.decoded_from(parse_fields(b)->Some_0),
            None => m is None,
        }
    }

    /// `b` is a well-formed encoding of this message.
    pub open spec fn decodable_bytes(b: Seq<u8>) -> bool {
        parse_fields(b) matches Some(fs) && Self::decodable(fs)
    }

    /// This message is the one that the decoded fields `fs` describe.
    pub open spec fn decoded_from(&self, fs: Seq<FieldV>) -> bool {
        &&& self.name@ == string_value(fs, 1)
        &&& Timestamp::option_decoded_from(self.create_time, message_value(fs, 2))
        &&& Timestamp::option_decoded_from(self.update_time, message_value(fs, 3))
        &&& labels_view(self.labels@) == labels_value(payloads_value(fs, 4))
        &&& self.certificate@ == string_value(fs, 5)
        &&& self.service_endpoint@ == string_value(fs, 6)
    }

    /// The fields of this message, ready to be written.
    pub fn to_fields(&self) -> (r: Vec<Field>)
        ensures
            fields_view(r@) == self.fields(),
    {
        let mut fs: Vec<Field> = Vec::new();
        assert(fields_view(fs@) =~= Seq::<FieldV>::empty());
        push_string(&mut fs, 1, &self.name);
        let create_time_bytes: Option<Vec<u8>> = match &self.create_time {
            Some(m) => Some(m.encode_to_vec()),
            None => None,
        };
        push_message(&mut fs, 2, create_time_bytes);
        let update_time_bytes: Option<Vec<u8>> = match &self.update_time {
            Some(m) => Some(m.encode_to_vec()),
            None => None,
        };
        push_message(&mut fs, 3, update_time_bytes);
        push_messages(&mut fs, 4, encode_labels(&self.labels));
        push_string(&mut fs, 5, &self.certificate);
        push_string(&mut fs, 6, &self.service_endpoint);
        assert(fields_view(fs@) =~= self.fields());
        fs
    }

    /// The wire encoding of this message.
    pub fn encode_to_vec(&self) -> (r: Vec<u8>)
        ensures
            r@ == self.spec_encoding(),
    {
        let fs = self.to_fields();
        encode_fields(&fs)
    }

    /// The message that the decoded fields `fs` describe.
    pub fn from_fields(fs: &Vec<Field>) -> (r: Result<Self, DecodeError>)
        ensures
            r is Ok <==> Self::decodable(fields_view(fs@)),
            r matches Ok(m) ==> m.decoded_from(fields_view(fs@)),
    {
        let name = match get_string(fs, 1) {
            Ok(v) => v,
            Err(e) => {
                return Err(e);
            },
        };
        let create_time = match get_payloads(fs, 2) {
            Ok((_, joined)) => match joined {
                Some(b) => match Timestamp::decode(b.as_slice()) {
                    Ok(m) => Some(m),
                    Err(e) => {
                        return Err(e);
                    },
                },
                None => None,
            },
            Err(e) => {
                return Err(e);
            },
        };
        let update_time = match get_payloads(fs, 3) {
            Ok((_, joined)) => match joined {
                Some(b) => match Timestamp::decode(b.as_slice()) {
                    Ok(m) => Some(m),
                    Err(e) => {
                        return Err(e);
                    },
                },
                None => None,
            },
            Err(e) => {
                return Err(e);
            },
        };
        let labels = match get_payloads(fs, 4) {
            Ok((each, _)) => match decode_labels(&each) {
                Ok(v) => v,
                Err(e) => {
                    return Err(e);
                },
            },
            Err(e) => {
                return Err(e);
            },
        };
        let certificate = match get_string(fs, 5) {
            Ok(v) => v,
            Err(e) => {
                return Err(e);
            },
        };
        let service_endpoint = match get_string(fs, 6) {
            Ok(v) => v,
            Err(e) => {
                return Err(e);
            },
        };
        Ok(Cluster { name, create_time, update_time, labels, certificate, service_endpoint })
    }

    /// Decodes a message from its wire encoding.
    pub fn decode(b: &[u8]) -> (r: Result<Self, DecodeError>)
        ensures
            r is Ok <==> Self::decodable_bytes(b@),
            r matches Ok(m) ==> m.decoded_from(parse_fields(b@)->Some_0),
    {
        match decode_fields(b) {
            Ok(fs) => Self::from_fields(&fs),
            Err(e) => Err(e),
        }
    }

    /// The values that decoding gives back unchanged: the keys of each map
    /// are distinct and no float is negative zero, here and in every nested
    /// message.
    pub open spec fn canonical(&self) -> bool {
        &&& match self.create_time { Some(m) => m.canonical(), None => true }
        &&& match self.update_time { Some(m) => m.canonical(), None => true }
        &&& keys_distinct(labels_view(self.labels@))
    }

    /// Decoding the encoding of a canonical message gives that message back.
    #[verifier::rlimit(50)]
    pub proof fn lemma_round_trip(self)
        requires
            self.spec_encoding().len() <= u64::MAX,
            self.canonical(),
        ensures
            Self::decodable_bytes(self.spec_encoding()),
            self.decoded_from(parse_fields(self.spec_encoding())->Some_0),
    {
        let p1 = string_field(1, self.name@);
        let p2 = message_field(2, Timestamp::option_encoding(self.create_time));
        let p3 = message_field(3, Timestamp::option_encoding(self.update_time));
        let p4 = messages_field(4, labels_encoding(labels_view(self.labels@)));
        let p5 = string_field(5, self.certificate@);
        let p6 = string_field(6, self.service_endpoint@);
        let fs = self.fields();
        assert(fs == p1 + p2 + p3 + p4 + p5 + p6);
        lemma_string_piece(1, self.name@);
        lemma_message_piece(2, Timestamp::option_encoding(self.create_time));
        lemma_message_piece(3, Timestamp::option_encoding(self.update_time));
        lemma_messages_piece(4, labels_encoding(labels_view(self.labels@)));
        lemma_string_piece(5, self.certificate@);
        lemma_string_piece(6, self.service_endpoint@);
        lemma_only_numbers_ok(p1, 1);
        lemma_only_numbers_ok(p2, 2);
        lemma_only_numbers_ok(p3, 3);
        lemma_only_numbers_ok(p4, 4);
        lemma_only_numbers_ok(p5, 5);
        lemma_only_numbers_ok(p6, 6);
        lemma_numbers_ok_add(p1, p2);
        lemma_numbers_ok_add(p1 + p2, p3);
        lemma_numbers_ok_add(p1 + p2 + p3, p4);
        lemma_numbers_ok_add(p1 + p2 + p3 + p4, p5);
        lemma_numbers_ok_add(p1 + p2 + p3 + p4 + p5, p6);
        lemma_fields_ok_when_small(fs);
        lemma_payloads_within(fs);
        assert(all_text(fs, 1) && self.name@ == string_value(fs, 1)) by {
            lemma_only_lacks(p6, 6, 1);
            lemma_agree_suffix(p1 + p2 + p3 + p4 + p5, p6, 1);
            lemma_only_lacks(p5, 5, 1);
            lemma_agree_suffix(p1 + p2 + p3 + p4, p5, 1);
            lemma_only_lacks(p4, 4, 1);
            lemma_agree_suffix(p1 + p2 + p3, p4, 1);
            lemma_only_lacks(p3, 3, 1);
            lemma_agree_suffix(p1 + p2, p3, 1);
            lemma_only_lacks(p2, 2, 1);
            lemma_agree_suffix(p1, p2, 1);
        }
        assert((all_of_type(fs, 2, 2) && Timestamp::option_decodable(message_value(fs, 2))) && Timestamp::option_decoded_from(self.create_time, message_value(fs, 2))) by {
            lemma_only_lacks(p6, 6, 2);
            lemma_agree_suffix(p1 + p2 + p3 + p4 + p5, p6, 2);
            lemma_only_lacks(p5, 5, 2);
            lemma_agree_suffix(p1 + p2 + p3 + p4, p5, 2);
            lemma_only_lacks(p4, 4, 2);
            lemma_agree_suffix(p1 + p2 + p3, p4, 2);
            lemma_only_lacks(p3, 3, 2);
            lemma_agree_suffix(p1 + p2, p3, 2);
            lemma_only_lacks(p1, 1, 2);
            lemma_agree_prefix(p1, p2, 2);
            match self.create_time {
                Some(m) => {
                    assert(fs[(p1).len() as int] == p2[0]);
                    m.lemma_round_trip();
                },
                None => {},
            }
        }
        assert((all_of_type(fs, 3, 2) && Timestamp::option_decodable(message_value(fs, 3))) && Timestamp::option_decoded_from(self.update_time, message_value(fs, 3))) by {
            lemma_only_lacks(p6, 6, 3);
            lemma_agree_suffix(p1 + p2 + p3 + p4 + p5, p6, 3);
            lemma_only_lacks(p5, 5, 3);
            lemma_agree_suffix(p1 + p2 + p3 + p4, p5, 3);
            lemma_only_lacks(p4, 4, 3);
            lemma_agree_suffix(p1 + p2 + p3, p4, 3);
            lemma_only_lacks(p1, 1, 3);
            lemma_only_lacks(p2, 2, 3);
            lemma_no_field_add(p1, p2, 3);
            lemma_agree_prefix(p1 + p2, p3, 3);
            match self.update_time {
                Some(m) => {
                    assert(fs[(p1 + p2).len() as int] == p3[0]);
                    m.lemma_round_trip();
                },
                None => {},
            }
        }
        assert((all_of_type(fs, 4, 2) && labels_ok(payloads_value(fs, 4))) && labels_view(self.labels@) == labels_value(payloads_value(fs, 4))) by {
            lemma_only_lacks(p6, 6, 4);
            lemma_agree_suffix(p1 + p2 + p3 + p4 + p5, p6, 4);
            lemma_only_lacks(p5, 5, 4);
            lemma_agree_suffix(p1 + p2 + p3 + p4, p5, 4);
            lemma_only_lacks(p1, 1, 4);
            lemma_only_lacks(p2, 2, 4);
            lemma_no_field_add(p1, p2, 4);
            lemma_only_lacks(p3, 3, 4);
            lemma_no_field_add(p1 + p2, p3, 4);
            lemma_agree_prefix(p1 + p2 + p3, p4, 4);
            assert forall|j: int| 0 <= j < labels_view(self.labels@).len() implies (#[trigger] labels_encoding(labels_view(self.labels@))[j]).len() <= u64::MAX by {
                let w = choose|w: int| 0 <= w < p4.len() && labels_encoding(labels_view(self.labels@))[j] == payload_of(p4[w].value);
                assert(fs[(p1 + p2 + p3).len() as int + w] == p4[w]);
            }
            lemma_labels_round_trip(labels_view(self.labels@));
        }
        assert(all_text(fs, 5) && self.certificate@ == string_value(fs, 5)) by {
            lemma_only_lacks(p6, 6, 5);
            lemma_agree_suffix(p1 + p2 + p3 + p4 + p5, p6, 5);
            lemma_only_lacks(p1, 1, 5);
            lemma_only_lacks(p2, 2, 5);
            lemma_no_field_add(p1, p2, 5);
            lemma_only_lacks(p3, 3, 5);
            lemma_no_field_add(p1 + p2, p3, 5);
            lemma_only_lacks(p4, 4, 5);
            lemma_no_field_add(p1 + p2 + p3, p4, 5);
            lemma_agree_prefix(p1 + p2 + p3 + p4, p5, 5);
        }
        assert(all_text(fs, 6) && self.service_endpoint@ == string_value(fs, 6)) by {
            lemma_only_lacks(p1, 1, 6);
            lemma_only_lacks(p2, 2, 6);
            lemma_no_field_add(p1, p2, 6);
            lemma_only_lacks(p3, 3, 6);
            lemma_no_field_add(p1 + p2, p3, 6);
            lemma_only_lacks(p4, 4, 6);
            lemma_no_field_add(p1 + p2 + p3, p4, 6);
            lemma_only_lacks(p5, 5, 6);
            lemma_no_field_add(p1 + p2 + p3 + p4, p5, 6);
            lemma_agree_prefix(p1 + p2 + p3 + p4 + p5, p6, 6);
        }
    }

    /// The encodings of a sequence of messages.
    pub open spec fn list_encoding(ms: Seq<Self>) -> Seq<Seq<u8>> {
        ms.map_values(|m: Self| m.spec_encoding())
    }

    /// Every payload is a well-formed encoding of this message.
    pub open spec fn list_decodable(ps: Seq<Seq<u8>>) -> bool {
        forall|i: int| 0 <= i < ps.len() ==> Self::decodable_bytes(#[trigger] ps[i])
    }

    /// `ms` are the messages that the payloads `ps` decode to, one for one.
    pub open spec fn list_decoded_from(ms: Seq<Self>, ps: Seq<Seq<u8>>) -> bool {
        &&& ms.len() == ps.len()
        &&& forall|i: int| 0 <= i < ps.len() ==> #[trigger] ms[i].decoded_from(parse_fields(ps[i])->Some_0)
    }

    /// The encodings of the messages of a repeated field.
    pub fn encode_list(ms: &Vec<Self>) -> (r: Vec<Vec<u8>>)
        ensures
            bytes_view(r@) == Self::list_encoding(ms@),
    {
        let mut out: Vec<Vec<u8>> = Vec::new();
        let mut i: usize = 0;
        while i < ms.len()
            invariant
                i <= ms@.len(),
                bytes_view(out@) == Self::list_encoding(ms@.subrange(0, i as int)),
            decreases ms@.len() - i,
        {
            let ghost before = out@;
            let b = ms[i].encode_to_vec();
            out.push(b);
            proof {
                let pre = ms@.subrange(0, i as int);
                assert(ms@.subrange(0, i + 1) =~= pre.push(ms@[i as int]));
                assert(Self::list_encoding(pre.push(ms@[i as int])) =~= Self::list_encoding(pre).push(
                    ms@[i as int].spec_encoding(),
                ));
                assert(bytes_view(out@) =~= bytes_view(before).push(b@));
            }
            i = i + 1;
        }
        assert(ms@.subrange(0, ms@.len() as int) =~= ms@);
        out
    }

    /// The messages of a repeated field, decoded from their payloads.
    pub fn decode_list(ps: &Vec<Vec<u8>>) -> (r: Result<Vec<Self>, DecodeError>)
        ensures
            r is Ok <==> Self::list_decodable(bytes_view(ps@)),
            r matches Ok(ms) ==> Self::list_decoded_from(ms@, bytes_view(ps@)),
    {
        let ghost pv = bytes_view(ps@);
        let mut out: Vec<Self> = Vec::new();
        let mut i: usize = 0;
        while i < ps.len()
            invariant
                i <= ps@.len(),
                pv == bytes_view(ps@),
                out@.len() == i,
                forall|j: int| 0 <= j < i ==> Self::decodable_bytes(#[trigger] pv[j]),
                forall|j: int| 0 <= j < i ==> #[trigger] out@[j].decoded_from(parse_fields(pv[j])->Some_0),
            decreases ps@.len() - i,
        {
            assert(pv[i as int] == ps@[i as int]@);
            match Self::decode(ps[i].as_slice()) {
                Ok(m) => {
                    out.push(m);
                },
                Err(e) => {
                    return Err(e);
                },
            }
            i = i + 1;
        }
        Ok(out)
    }
}

/// Request message for 'ListClusters'.
#[derive(Clone, Debug, PartialEq, Default)]
pub struct ListClustersRequest {
    /// Required. The parent that owns the collection of Clusters.
    pub parent: String,
    /// Maximum number of Clusters to return.
    pub page_size: i32,
    /// Page token received from a previous `ListClusters` call, to retrieve the
    /// subsequent page.
    pub page_token: String,
    /// Filter request.
    pub filter: String,
    /// Order by fields for the result.
    pub order_by: String,
}

impl ListClustersRequest {
    /// The fields of this message in field-number order, the ones that
    /// hold a default value left out.
    pub open spec fn fields(&self) -> Seq<FieldV> {
        string_field(1, self.parent@)
            + int32_field(2, self.page_size)
            + string_field(3, self.page_token@)
            + string_field(4, self.filter@)
            + string_field(5, self.order_by@)
    }

    /// The wire encoding of this message.
    pub open spec fn spec_encoding(&self) -> Seq<u8> {
        fields_bytes(self.fields())
    }

    /// The decoded fields `fs` are well-formed for this message: each
    /// field has its declared wire type and each nested part decodes.
    pub open spec fn decodable(fs: Seq<FieldV>) -> bool {
        &&& all_text(fs, 1)
        &&& all_of_type(fs, 2, 0)
        &&& all_text(fs, 3)
        &&& all_text(fs, 4)
        &&& all_text(fs, 5)
    }

    /// The encoding of an optional nested message of this type.
    pub open spec fn option_encoding(m: Option<Self>) -> Option<Seq<u8>> {
        match m {
            Some(m) => Some(m.spec_encoding()),
            None => None,
        }
    }

    /// An optional nested message of this type, as bytes to decode, is
    /// well-formed.
    pub open spec fn option_decodable(b: Option<Seq<u8>>) -> bool {
        match b {
            Some(b) => Self::decodable_bytes(b),
            None => true,
        }
    }

    /// `m` is the optional nested message that the bytes `b` decode to.
    pub open spec fn option_decoded_from(m: Option<Self>, b: Option<Seq<u8>>) -> bool {
        match b {
            Some(b) => m matches Some(m) && m.decoded_from(parse_fields(b)->Some_0),
            None => m is None,
        }
    }

    /// `b` is a well-formed encoding of this message.
    pub open spec fn decodable_bytes(b: Seq<u8>) -> bool {
        parse_fields(b) matches Some(fs) && Self::decodable(fs)
    }

    /// This message is the one that the decoded fields `fs` describe.
    pub open spec fn decoded_from(&self, fs: Seq<FieldV>) -> bool {
        &&& self.parent@ == string_value(fs, 1)
        &&& self.page_size == varint_value(fs, 2) as i32
        &&& self.page_token@ == string_value(fs, 3)
        &&& self.filter@ == string_value(fs, 4)
        &&& self.order_by@ == string_value(fs, 5)
    }

    /// The fields of this message, ready to be written.
    pub fn to_fields(&self) -> (r: Vec<Field>)
        ensures
            fields_view(r@) == self.fields(),
    {
        let mut fs: Vec<Field> = Vec::new();
        assert(fields_view(fs@) =~= Seq::<FieldV>::empty());
        push_string(&mut fs, 1, &self.parent);
        push_int32(&mut fs, 2, self.page_size);
        push_string(&mut fs, 3, &self.page_token);
        push_string(&mut fs, 4, &self.filter);
        push_string(&mut fs, 5, &self.order_by);
        assert(fields_view(fs@) =~= self.fields());
        fs
    }

    /// The wire encoding of this message.
    pub fn encode_to_vec(&self) -> (r: Vec<u8>)
        ensures
            r@ == self.spec_encoding(),
    {
        let fs = self.to_fields();
        encode_fields(&fs)
    }

    /// The message that the decoded fields `fs` describe.
    pub fn from_fields(fs: &Vec<Field>) -> (r: Result<Self, DecodeError>)
        ensures
            r is Ok <==> Self::decodable(fields_view(fs@)),
            r matches Ok(m) ==> m.decoded_from(fields_view(fs@)),
    {
        let parent = match get_string(fs, 1) {
            Ok(v) => v,
            Err(e) => {
                return Err(e);
            },
        };
        let page_size = match get_varint_value(fs, 2) {
            Ok(v) => v as i32,
            Err(e) => {
                return Err(e);
            },
        };
        let page_token = match get_string(fs, 3) {
            Ok(v) => v,
            Err(e) => {
                return Err(e);
            },
        };
        let filter = match get_string(fs, 4) {
            Ok(v) => v,
            Err(e) => {
                return Err(e);
            },
        };
        let order_by = match get_string(fs, 5) {
            Ok(v) => v,
            Err(e) => {
                return Err(e);
            },
        };
        Ok(ListClustersRequest { parent, page_size, page_token, filter, order_by })
    }

    /// Decodes a message from its wire encoding.
    pub fn decode(b: &[u8]) -> (r: Result<Self, DecodeError>)
        ensures
            r is Ok <==> Self::decodable_bytes(b@),
            r matches Ok(m) ==> m.decoded_from(parse_fields(b@)->Some_0),
    {
        match decode_fields(b) {
            Ok(fs) => Self::from_fields(&fs),
            Err(e) => Err(e),
        }
    }

    /// The values that decoding gives back unchanged: the keys of each map
    /// are distinct and no float is negative zero, here and in every nested
    /// message.
    pub open spec fn canonical(&self) -> bool {
        true
    }

    /// Decoding the encoding of a canonical message gives that message back.
    pub proof fn lemma_round_trip(self)
        requires
            self.spec_encoding().len() <= u64::MAX,
            self.canonical(),
        ensures
            Self::decodable_bytes(self.spec_encoding()),
            self.decoded_from(parse_fields(self.spec_encoding())->Some_0),
    {
        let p1 = string_field(1, self.parent@);
        let p2 = int32_field(2, self.page_size);
        let p3 = string_field(3, self.page_token@);
        let p4 = string_field(4, self.filter@);
        let p5 = string_field(5, self.order_by@);
        let fs = self.fields();
        assert(fs == p1 + p2 + p3 + p4 + p5);
        lemma_string_piece(1, self.parent@);
        lemma_varint_piece(2, self.page_size as u64);
        lemma_int32_cast(self.page_size);
        lemma_string_piece(3, self.page_token@);
        lemma_string_piece(4, self.filter@);
        lemma_string_piece(5, self.order_by@);
        lemma_only_numbers_ok(p1, 1);
        lemma_only_numbers_ok(p2, 2);
        lemma_only_numbers_ok(p3, 3);
        lemma_only_numbers_ok(p4, 4);
        lemma_only_numbers_ok(p5, 5);
        lemma_numbers_ok_add(p1, p2);
        lemma_numbers_ok_add(p1 + p2, p3);
        lemma_numbers_ok_add(p1 + p2 + p3, p4);
        lemma_numbers_ok_add(p1 + p2 + p3 + p4, p5);
        lemma_fields_ok_when_small(fs);
        lemma_payloads_within(fs);
        assert(all_text(fs, 1) && self.parent@ == string_value(fs, 1)) by {
            lemma_only_lacks(p5, 5, 1);
            lemma_agree_suffix(p1 + p2 + p3 + p4, p5, 1);
            lemma_only_lacks(p4, 4, 1);
            lemma_agree_suffix(p1 + p2 + p3, p4, 1);
            lemma_only_lacks(p3, 3, 1);
            lemma_agree_suffix(p1 + p2, p3, 1);
            lemma_only_lacks(p2, 2, 1);
            lemma_agree_suffix(p1, p2, 1);
        }
        assert(all_of_type(fs, 2, 0) && self.page_size == varint_value(fs, 2) as i32) by {
            lemma_only_lacks(p5, 5, 2);
            lemma_agree_suffix(p1 + p2 + p3 + p4, p5, 2);
            lemma_only_lacks(p4, 4, 2);
            lemma_agree_suffix(p1 + p2 + p3, p4, 2);
            lemma_only_lacks(p3, 3, 2);
            lemma_agree_suffix(p1 + p2, p3, 2);
            lemma_only_lacks(p1, 1, 2);
            lemma_agree_prefix(p1, p2, 2);
        }
        assert(all_text(fs, 3) && self.page_token@ == string_value(fs, 3)) by {
            lemma_only_lacks(p5, 5, 3);
            lemma_agree_suffix(p1 + p2 + p3 + p4, p5, 3);
            lemma_only_lacks(p4, 4, 3);
            lemma_agree_suffix(p1 + p2 + p3, p4, 3);
            lemma_only_lacks(p1, 1, 3);
            lemma_only_lacks(p2, 2, 3);
            lemma_no_field_add(p1, p2, 3);
            lemma_agree_prefix(p1 + p2, p3, 3);
        }
        assert(all_text(fs, 4) && self.filter@ == string_value(fs, 4)) by {
            lemma_only_lacks(p5, 5, 4);
            lemma_agree_suffix(p1 + p2 + p3 + p4, p5, 4);
            lemma_only_lacks(p1, 1, 4);
            lemma_only_lacks(p2, 2, 4);
            lemma_no_field_add(p1, p2, 4);
            lemma_only_lacks(p3, 3, 4);
            lemma_no_field_add(p1 + p2, p3, 4);
            lemma_agree_prefix(p1 + p2 + p3, p4, 4);
        }
        assert(all_text(fs, 5) && self.order_by@ == string_value(fs, 5)) by {
            lemma_only_lacks(p1, 1, 5);
            lemma_only_lacks(p2, 2, 5);
            lemma_no_field_add(p1, p2, 5);
            lemma_only_lacks(p3, 3, 5);
            lemma_no_field_add(p1 + p2, p3, 5);
            lemma_only_lacks(p4, 4, 5);
            lemma_no_field_add(p1 + p2 + p3, p4, 5);
            lemma_agree_prefix(p1 + p2 + p3 + p4, p5, 5);
        }
    }
}

/// Response message from 'ListClusters'.
#[derive(Clone, Debug, PartialEq, Default)]
pub struct ListClustersResponse {
    /// List of clusters.
    pub clusters: Vec<Cluster>,
    /// A token, which can be sent as `page_token` to retrieve the next page; empty
    /// when there are no subsequent pages.
    pub next_page_token: String,
    /// Locations that could not be reached.
    pub unreachable: Vec<String>,
}

impl ListClustersResponse {
    /// The fields of this message in field-number order, the ones that
    /// hold a default value left out.
    pub open spec fn fields(&self) -> Seq<FieldV> {
        messages_field(1, Cluster::list_encoding(self.clusters@))
            + string_field(2, self.next_page_token@)
            + strings_field(3, strings_view(self.unreachable@))
    }

    /// The wire encoding of this message.
    pub open spec fn spec_encoding(&self) -> Seq<u8> {
        fields_bytes(self.fields())
    }

    /// The decoded fields `fs` are well-formed for this message: each
    /// field has its declared wire type and each nested part decodes.
    pub open spec fn decodable(fs: Seq<FieldV>) -> bool {
        &&& (all_of_type(fs, 1, 2) && Cluster::list_decodable(payloads_value(fs, 1)))
        &&& all_text(fs, 2)
        &&& all_text(fs, 3)
    }

    /// The encoding of an optional nested message of this type.
    pub open spec fn option_encoding(m: Option<Self>) -> Option<Seq<u8>> {
        match m {
            Some(m) => Some(m.spec_encoding()),
            None => None,
        }
    }

    /// An optional nested message of this type, as bytes to decode, is
    /// well-formed.
    pub open spec fn option_decodable(b: Option<Seq<u8>>) -> bool {
        match b {
            Some(b) => Self::decodable_bytes(b),
            None => true,
        }
    }

    /// `m` is the optional nested message that the bytes `b` decode to.
    pub open spec fn option_decoded_from(m: Option<Self>, b: Option<Seq<u8>>) -> bool {
        match b {
            Some(b) => m matches Some(m) && m.decoded_from(parse_fields(b)->Some_0),
            None => m is None,
        }
    }

    /// `b` is a well-formed encoding of this message.
    pub open spec fn decodable_bytes(b: Seq<u8>) -> bool {
        parse_fields(b) matches Some(fs) && Self::decodable(fs)
    }

    /// This message is the one that the decoded fields `fs` describe.
    pub open spec fn decoded_from(&self, fs: Seq<FieldV>) -> bool {
        &&& Cluster::list_decoded_from(self.clusters@, payloads_value(fs, 1))
        &&& self.next_page_token@ == string_value(fs, 2)
        &&& strings_view(self.unreachable@) == strings_value(fs, 3)
    }

    /// The fields of this message, ready to be written.
    pub fn to_fields(&self) -> (r: Vec<Field>)
        ensures
            fields_view(r@) == self.fields(),
    {
        let mut fs: Vec<Field> = Vec::new();
        assert(fields_view(fs@) =~= Seq::<FieldV>::empty());
        push_messages(&mut fs, 1, Cluster::encode_list(&self.clusters));
        push_string(&mut fs, 2, &self.next_page_token);
        push_strings(&mut fs, 3, &self.unreachable);
        assert(fields_view(fs@) =~= self.fields());
        fs
    }

    /// The wire encoding of this message.
    pub fn encode_to_vec(&self) -> (r: Vec<u8>)
        ensures
            r@ == self.spec_encoding(),
    {
        let fs = self.to_fields();
        encode_fields(&fs)
    }

    /// The message that the decoded fields `fs` describe.
    pub fn from_fields(fs: &Vec<Field>) -> (r: Result<Self, DecodeError>)
        ensures
            r is Ok <==> Self::decodable(fields_view(fs@)),
            r matches Ok(m) ==> m.decoded_from(fields_view(fs@)),
    {
        let clusters = match get_payloads(fs, 1) {
            Ok((each, _)) => match Cluster::decode_list(&each) {
                Ok(v) => v,
                Err(e) => {
                    return Err(e);
                },
            },
            Err(e) => {
                return Err(e);
            },
        };
        let next_page_token = match get_string(fs, 2) {
            Ok(v) => v,
            Err(e) => {
                return Err(e);
            },
        };
        let unreachable = match get_strings(fs, 3) {
            Ok(v) => v,
            Err(e) => {
                return Err(e);
            },
        };
        Ok(ListClustersResponse { clusters, next_page_token, unreachable })
    }

    /// Decodes a message from its wire encoding.
    pub fn decode(b: &[u8]) -> (r: Result<Self, DecodeError>)
        ensures
            r is Ok <==> Self::decodable_bytes(b@),
            r matches Ok(m) ==> m.decoded_from(parse_fields(b@)->Some_0),
    {
        match decode_fields(b) {
            Ok(fs) => Self::from_fields(&fs),
            Err(e) => Err(e),
        }
    }

    /// The values that decoding gives back unchanged: the keys of each map
    /// are distinct and no float is negative zero, here and in every nested
    /// message.
    pub open spec fn canonical(&self) -> bool {
        &&& forall|i: int| 0 <= i < self.clusters@.len() ==> #[trigger] self.clusters@[i].canonical()
    }

    /// Decoding the encoding of a canonical message gives that message back.
    pub proof fn lemma_round_trip(self)
        requires
            self.spec_encoding().len() <= u64::MAX,
            self.canonical(),
        ensures
            Self::decodable_bytes(self.spec_encoding()),
            self.decoded_from(parse_fields(self.spec_encoding())->Some_0),
    {
        let p1 = messages_field(1, Cluster::list_encoding(self.clusters@));
        let p2 = string_field(2, self.next_page_token@);
        let p3 = strings_field(3, strings_view(self.unreachable@));
        let fs = self.fields();
        assert(fs == p1 + p2 + p3);
        lemma_messages_piece(1, Cluster::list_encoding(self.clusters@));
        lemma_string_piece(2, self.next_page_token@);
        lemma_strings_piece(3, strings_view(self.unreachable@));
        lemma_only_numbers_ok(p1, 1);
        lemma_only_numbers_ok(p2, 2);
        lemma_only_numbers_ok(p3, 3);
        lemma_numbers_ok_add(p1, p2);
        lemma_numbers_ok_add(p1 + p2, p3);
        lemma_fields_ok_when_small(fs);
        lemma_payloads_within(fs);
        assert((all_of_type(fs, 1, 2) && Cluster::list_decodable(payloads_value(fs, 1))) && Cluster::list_decoded_from(self.clusters@, payloads_value(fs, 1))) by {
            lemma_only_lacks(p3, 3, 1);
            lemma_agree_suffix(p1 + p2, p3, 1);
            lemma_only_lacks(p2, 2, 1);
            lemma_agree_suffix(p1, p2, 1);
            assert forall|j: int| 0 <= j < self.clusters@.len() implies Cluster::decodable_bytes(#[trigger] Cluster::list_encoding(self.clusters@)[j])
                && self.clusters@[j].decoded_from(parse_fields(Cluster::list_encoding(self.clusters@)[j])->Some_0) by {
                let w = choose|w: int| 0 <= w < p1.len() && Cluster::list_encoding(self.clusters@)[j] == payload_of(p1[w].value);
                assert(fs[0 + w] == p1[w]);
                self.clusters@[j].lemma_round_trip();
            }
        }
        assert(all_text(fs, 2) && self.next_page_token@ == string_value(fs, 2)) by {
            lemma_only_lacks(p3, 3, 2);
            lemma_agree_suffix(p1 + p2, p3, 2);
            lemma_only_lacks(p1, 1, 2);
            lemma_agree_prefix(p1, p2, 2);
        }
        assert(all_text(fs, 3) && strings_view(self.unreachable@) == strings_value(fs, 3)) by {
            lemma_only_lacks(p1, 1, 3);
            lemma_only_lacks(p2, 2, 3);
            lemma_no_field_add(p1, p2, 3);
            lemma_agree_prefix(p1 + p2, p3, 3);
        }
    }
}

/// Request message for 'GetCluster'.
#[derive(Clone, Debug, PartialEq, Default)]
pub struct GetClusterRequest {
    /// Required. The name of the Cluster resource to get.
    pub name: String,
}

impl GetClusterRequest {
    /// The fields of this message in field-number order, the ones that
    /// hold a default value left out.
    pub open spec fn fields(&self) -> Seq<FieldV> {
        string_field(1, self.name@)
    }

    /// The wire encoding of this message.
    pub open spec fn spec_encoding(&self) -> Seq<u8> {
        fields_bytes(self.fields())
    }

    /// The decoded fields `fs` are well-formed for this message: each
    /// field has its declared wire type and each nested part decodes.
    pub open spec fn decodable(fs: Seq<FieldV>) -> bool {
        &&& all_text(fs, 1)
    }

    /// The encoding of an optional nested message of this type.
    pub open spec fn option_encoding(m: Option<Self>) -> Option<Seq<u8>> {
        match m {
            Some(m) => Some(m.spec_encoding()),
            None => None,
        }
    }

    /// An optional nested message of this type, as bytes to decode, is
    /// well-formed.
    pub open spec fn option_decodable(b: Option<Seq<u8>>) -> bool {
        match b {
            Some(b) => Self::decodable_bytes(b),
            None => true,
        }
    }

    /// `m` is the optional nested message that the bytes `b` decode to.
    pub open spec fn option_decoded_from(m: Option<Self>, b: Option<Seq<u8>>) -> bool {
        match b {
            Some(b) => m matches Some(m) && m.decoded_from(parse_fields(b)->Some_0),
            None => m is None,
        }
    }

    /// `b` is a well-formed encoding of this message.
    pub open spec fn decodable_bytes(b: Seq<u8>) -> bool {
        parse_fields(b) matches Some(fs) && Self::decodable(fs)
    }

    /// This message is the one that the decoded fields `fs` describe.
    pub open spec fn decoded_from(&self, fs: Seq<FieldV>) -> bool {
        &&& self.name@ == string_value(fs, 1)
    }

    /// The fields of this message, ready to be written.
    pub fn to_fields(&self) -> (r: Vec<Field>)
        ensures
            fields_view(r@) == self.fields(),
    {
        let mut fs: Vec<Field> = Vec::new();
        assert(fields_view(fs@) =~= Seq::<FieldV>::empty());
        push_string(&mut fs, 1, &self.name);
        assert(fields_view(fs@) =~= self.fields());
        fs
    }

    /// The wire encoding of this message.
    pub fn encode_to_vec(&self) -> (r: Vec<u8>)
        ensures
            r@ == self.spec_encoding(),
    {
        let fs = self.to_fields();
        encode_fields(&fs)
    }

    /// The message that the decoded fields `fs` describe.
    pub fn from_fields(fs: &Vec<Field>) -> (r: Result<Self, DecodeError>)
        ensures
            r is Ok <==> Self::decodable(fields_view(fs@)),
            r matches Ok(m) ==> m.decoded_from(fields_view(fs@)),
    {
        let name = match get_string(fs, 1) {
            Ok(v) => v,
            Err(e) => {
                return Err(e);
            },
        };
        Ok(GetClusterRequest { name })
    }

    /// Decodes a message from its wire encoding.
    pub fn decode(b: &[u8]) -> (r: Result<Self, DecodeError>)
        ensures
            r is Ok <==> Self::decodable_bytes(b@),
            r matches Ok(m) ==> m.decoded_from(parse_fields(b@)->Some_0),
    {
        match decode_fields(b) {
            Ok(fs) => Self::from_fields(&fs),
            Err(e) => Err(e),
        }
    }

    /// The values that decoding gives back unchanged: the keys of each map
    /// are distinct and no float is negative zero, here and in every nested
    /// message.
    pub open spec fn canonical(&self) -> bool {
        true
    }

    /// Decoding the encoding of a canonical message gives that message back.
    pub proof fn lemma_round_trip(self)
        requires
            self.spec_encoding().len() <= u64::MAX,
            self.canonical(),
        ensures
            Self::decodable_bytes(self.spec_encoding()),
            self.decoded_from(parse_fields(self.spec_encoding())->Some_0),
    {
        let p1 = string_field(1, self.name@);
        let fs = self.fields();
        assert(fs == p1);
        lemma_string_piece(1, self.name@);
        lemma_only_numbers_ok(p1, 1);
        lemma_fields_ok_when_small(fs);
        lemma_payloads_within(fs);
        assert(all_text(fs, 1) && self.name@ == string_value(fs, 1)) by {

        }
    }
}

/// Request message for 'CreateCluster'.
#[derive(Clone, Debug, PartialEq, Default)]
pub struct CreateClusterRequest {
    /// Required. The parent that owns the collection of Clusters.
    pub parent: String,
    /// Required. The cluster identifier.
    pub cluster_id: String,
    /// Required. The cluster resource to create.
    pub cluster: Option<Cluster>,
    /// Optional. A request ID that identifies the request, so that a server can
    /// ignore a retry of a request that it has already completed. It must be a
    /// valid UUID other than the zero UUID.
    pub request_id: String,
}

impl CreateClusterRequest {
    /// The fields of this message in field-number order, the ones that
    /// hold a default value left out.
    pub open spec fn fields(&self) -> Seq<FieldV> {
        string_field(1, self.parent@)
            + string_field(2, self.cluster_id@)
            + message_field(3, Cluster::option_encoding(self.cluster))
            + string_field(4, self.request_id@)
    }

    /// The wire encoding of this message.
    pub open spec fn spec_encoding(&self) -> Seq<u8> {
        fields_bytes(self.fields())
    }

    /// The decoded fields `fs` are well-formed for this message: each
    /// field has its declared wire type and each nested part decodes.
    pub open spec fn decodable(fs: Seq<FieldV>) -> bool {
        &&& all_text(fs, 1)
        &&& all_text(fs, 2)
        &&& (all_of_type(fs, 3, 2) && Cluster::option_decodable(message_value(fs, 3)))
        &&& all_text(fs, 4)
    }

    /// The encoding of an optional nested message of this type.
    pub open spec fn option_encoding(m: Option<Self>) -> Option<Seq<u8>> {
        match m {
            Some(m) => Some(m.spec_encoding()),
            None => None,
        }
    }

    /// An optional nested message of this type, as bytes to decode, is
    /// well-formed.
    pub open spec fn option_decodable(b: Option<Seq<u8>>) -> bool {
        match b {
            Some(b) => Self::decodable_bytes(b),
            None => true,
        }
    }

    /// `m` is the optional nested message that the bytes `b` decode to.
    pub open spec fn option_decoded_from(m: Option<Self>, b: Option<Seq<u8>>) -> bool {
        match b {
            Some(b) => m matches Some(m) && m.decoded_from(parse_fields(b)->Some_0),
            None => m is None,
        }
    }

    /// `b` is a well-formed encoding of this message.
    pub open spec fn decodable_bytes(b: Seq<u8>) -> bool {
        parse_fields(b) matches Some(fs) && Self::decodable(fs)
    }

    /// This message is the one that the decoded fields `fs` describe.
    pub open spec fn decoded_from(&self, fs: Seq<FieldV>) -> bool {
        &&& self.parent@ == string_value(fs, 1)
        &&& self.cluster_id@ == string_value(fs, 2)
        &&& Cluster::option_decoded_from(self.cluster, message_value(fs, 3))
        &&& self.request_id@ == string_value(fs, 4)
    }

    /// The fields of this message, ready to be written.
    pub fn to_fields(&self) -> (r: Vec<Field>)
        ensures
            fields_view(r@) == self.fields(),
    {
        let mut fs: Vec<Field> = Vec::new();
        assert(fields_view(fs@) =~= Seq::<FieldV>::empty());
        push_string(&mut fs, 1, &self.parent);
        push_string(&mut fs, 2, &self.cluster_id);
        let cluster_bytes: Option<Vec<u8>> = match &self.cluster {
            Some(m) => Some(m.encode_to_vec()),
            None => None,
        };
        push_message(&mut fs, 3, cluster_bytes);
        push_string(&mut fs, 4, &self.request_id);
        assert(fields_view(fs@) =~= self.fields());
        fs
    }

    /// The wire encoding of this message.
    pub fn encode_to_vec(&self) -> (r: Vec<u8>)
        ensures
            r@ == self.spec_encoding(),
    {
        let fs = self.to_fields();
        encode_fields(&fs)
    }

    /// The message that the decoded fields `fs` describe.
    pub fn from_fields(fs: &Vec<Field>) -> (r: Result<Self, DecodeError>)
        ensures
            r is Ok <==> Self::decodable(fields_view(fs@)),
            r matches Ok(m) ==> m.decoded_from(fields_view(fs@)),
    {
        let parent = match get_string(fs, 1) {
            Ok(v) => v,
            Err(e) => {
                return Err(e);
            },
        };
        let cluster_id = match get_string(fs, 2) {
            Ok(v) => v,
            Err(e) => {
                return Err(e);
            },
        };
        let cluster = match get_payloads(fs, 3) {
            Ok((_, joined)) => match joined {
                Some(b) => match Cluster::decode(b.as_slice()) {
                    Ok(m) => Some(m),
                    Err(e) => {
                        return Err(e);
                    },
                },
                None => None,
            },
            Err(e) => {
                return Err(e);
            },
        };
        let request_id = match get_string(fs, 4) {
            Ok(v) => v,
            Err(e) => {
                return Err(e);
            },
        };
        Ok(CreateClusterRequest { parent, cluster_id, cluster, request_id })
    }

    /// Decodes a message from its wire encoding.
    pub fn decode(b: &[u8]) -> (r: Result<Self, DecodeError>)
        ensures
            r is Ok <==> Self::decodable_bytes(b@),
            r matches Ok(m) ==> m.decoded_from(parse_fields(b@)->Some_0),
    {
        match decode_fields(b) {
            Ok(fs) => Self::from_fields(&fs),
            Err(e) => Err(e),
        }
    }

    /// The values that decoding gives back unchanged: the keys of each map
    /// are distinct and no float is negative zero, here and in every nested
    /// message.
    pub open spec fn canonical(&self) -> bool {
        &&& match self.cluster { Some(m) => m.canonical(), None => true }
    }

    /// Decoding the encoding of a canonical message gives that message back.
    pub proof fn lemma_round_trip(self)
        requires
            self.spec_encoding().len() <= u64::MAX,
            self.canonical(),
        ensures
            Self::decodable_bytes(self.spec_encoding()),
            self.decoded_from(parse_fields(self.spec_encoding())->Some_0),
    {
        let p1 = string_field(1, self.parent@);
        let p2 = string_field(2, self.cluster_id@);
        let p3 = message_field(3, Cluster::option_encoding(self.cluster));
        let p4 = string_field(4, self.request_id@);
        let fs = self.fields();
        assert(fs == p1 + p2 + p3 + p4);
        lemma_string_piece(1, self.parent@);
        lemma_string_piece(2, self.cluster_id@);
        lemma_message_piece(3, Cluster::option_encoding(self.cluster));
        lemma_string_piece(4, self.request_id@);
        lemma_only_numbers_ok(p1, 1);
        lemma_only_numbers_ok(p2, 2);
        lemma_only_numbers_ok(p3, 3);
        lemma_only_numbers_ok(p4, 4);
        lemma_numbers_ok_add(p1, p2);
        lemma_numbers_ok_add(p1 + p2, p3);
        lemma_numbers_ok_add(p1 + p2 + p3, p4);
        lemma_fields_ok_when_small(fs);
        lemma_payloads_within(fs);
        assert(all_text(fs, 1) && self.parent@ == string_value(fs, 1)) by {
            lemma_only_lacks(p4, 4, 1);
            lemma_agree_suffix(p1 + p2 + p3, p4, 1);
            lemma_only_lacks(p3, 3, 1);
            lemma_agree_suffix(p1 + p2, p3, 1);
            lemma_only_lacks(p2, 2, 1);
            lemma_agree_suffix(p1, p2, 1);
        }
        assert(all_text(fs, 2) && self.cluster_id@ == string_value(fs, 2)) by {
            lemma_only_lacks(p4, 4, 2);
            lemma_agree_suffix(p1 + p2 + p3, p4, 2);
            lemma_only_lacks(p3, 3, 2);
            lemma_agree_suffix(p1 + p2, p3, 2);
            lemma_only_lacks(p1, 1, 2);
            lemma_agree_prefix(p1, p2, 2);
        }
        assert((all_of_type(fs, 3, 2) && Cluster::option_decodable(message_value(fs, 3))) && Cluster::option_decoded_from(self.cluster, message_value(fs, 3))) by {
            lemma_only_lacks(p4, 4, 3);
            lemma_agree_suffix(p1 + p2 + p3, p4, 3);
            lemma_only_lacks(p1, 1, 3);
            lemma_only_lacks(p2, 2, 3);
            lemma_no_field_add(p1, p2, 3);
            lemma_agree_prefix(p1 + p2, p3, 3);
            match self.cluster {
                Some(m) => {
                    assert(fs[(p1 + p2).len() as int] == p3[0]);
                    m.lemma_round_trip();
                },
                None => {},
            }
        }
        assert(all_text(fs, 4) && self.request_id@ == string_value(fs, 4)) by {
            lemma_only_lacks(p1, 1, 4);
            lemma_only_lacks(p2, 2, 4);
            lemma_no_field_add(p1, p2, 4);
            lemma_only_lacks(p3, 3, 4);
            lemma_no_field_add(p1 + p2, p3, 4);
            lemma_agree_prefix(p1 + p2 + p3, p4, 4);
        }
    }
}

/// Request message for 'UpdateCluster'.
#[derive(Clone, Debug, PartialEq, Default)]
pub struct UpdateClusterRequest {
    /// Required. The fields of the Cluster resource that the update overwrites; all
    /// of them when no mask is given.
    pub update_mask: Option<FieldMask>,
    /// Required. The Cluster resource to update.
    pub cluster: Option<Cluster>,
    /// Optional. A request ID that identifies the request, so that a server can
    /// ignore a retry of a request that it has already completed. It must be a
    /// valid UUID other than the zero UUID.
    pub request_id: String,
}

impl UpdateClusterRequest {
    /// The fields of this message in field-number order, the ones that
    /// hold a default value left out.
    pub open spec fn fields(&self) -> Seq<FieldV> {
        message_field(1, FieldMask::option_encoding(self.update_mask))
            + message_field(2, Cluster::option_encoding(self.cluster))
            + string_field(3, self.request_id@)
    }

    /// The wire encoding of this message.
    pub open spec fn spec_encoding(&self) -> Seq<u8> {
        fields_bytes(self.fields())
    }

    /// The decoded fields `fs` are well-formed for this message: each
    /// field has its declared wire type and each nested part decodes.
    pub open spec fn decodable(fs: Seq<FieldV>) -> bool {
        &&& (all_of_type(fs, 1, 2) && FieldMask::option_decodable(message_value(fs, 1)))
        &&& (all_of_type(fs, 2, 2) && Cluster::option_decodable(message_value(fs, 2)))
        &&& all_text(fs, 3)
    }

    /// The encoding of an optional nested message of this type.
    pub open spec fn option_encoding(m: Option<Self>) -> Option<Seq<u8>> {
        match m {
            Some(m) => Some(m.spec_encoding()),
            None => None,
        }
    }

    /// An optional nested message of this type, as bytes to decode, is
    /// well-formed.
    pub open spec fn option_decodable(b: Option<Seq<u8>>) -> bool {
        match b {
            Some(b) => Self::decodable_bytes(b),
            None => true,
        }
    }

    /// `m` is the optional nested message that the bytes `b` decode to.
    pub open spec fn option_decoded_from(m: Option<Self>, b: Option<Seq<u8>>) -> bool {
        match b {
            Some(b) => m matches Some(m) && m.decoded_from(parse_fields(b)->Some_0),
            None => m is None,
        }
    }

    /// `b` is a well-formed encoding of this message.
    pub open spec fn decodable_bytes(b: Seq<u8>) -> bool {
        parse_fields(b) matches Some(fs) && Self::decodable(fs)
    }

    /// This message is the one that the decoded fields `fs` describe.
    pub open spec fn decoded_from(&self, fs: Seq<FieldV>) -> bool {
        &&& FieldMask::option_decoded_from(self.update_mask, message_value(fs, 1))
        &&& Cluster::option_decoded_from(self.cluster, message_value(fs, 2))
        &&& self.request_id@ == string_value(fs, 3)
    }

    /// The fields of this message, ready to be written.
    pub fn to_fields(&self) -> (r: Vec<Field>)
        ensures
            fields_view(r@) == self.fields(),
    {
        let mut fs: Vec<Field> = Vec::new();
        assert(fields_view(fs@) =~= Seq::<FieldV>::empty());
        let update_mask_bytes: Option<Vec<u8>> = match &self.update_mask {
            Some(m) => Some(m.encode_to_vec()),
            None => None,
        };
        push_message(&mut fs, 1, update_mask_bytes);
        let cluster_bytes: Option<Vec<u8>> = match &self.cluster {
            Some(m) => Some(m.encode_to_vec()),
            None => None,
        };
        push_message(&mut fs, 2, cluster_bytes);
        push_string(&mut fs, 3, &self.request_id);
        assert(fields_view(fs@) =~= self.fields());
        fs
    }

    /// The wire encoding of this message.
    pub fn encode_to_vec(&self) -> (r: Vec<u8>)
        ensures
            r@ == self.spec_encoding(),
    {
        let fs = self.to_fields();
        encode_fields(&fs)
    }

    /// The message that the decoded fields `fs` describe.
    pub fn from_fields(fs: &Vec<Field>) -> (r: Result<Self, DecodeError>)
        ensures
            r is Ok <==> Self::decodable(fields_view(fs@)),
            r matches Ok(m) ==> m.decoded_from(fields_view(fs@)),
    {
        let update_mask = match get_payloads(fs, 1) {
            Ok((_, joined)) => match joined {
                Some(b) => match FieldMask::decode(b.as_slice()) {
                    Ok(m) => Some(m),
                    Err(e) => {
                        return Err(e);
                    },
                },
                None => None,
            },
            Err(e) => {
                return Err(e);
            },
        };
        let cluster = match get_payloads(fs, 2) {
            Ok((_, joined)) => match joined {
                Some(b) => match Cluster::decode(b.as_slice()) {
                    Ok(m) => Some(m),
                    Err(e) => {
                        return Err(e);
                    },
                },
                None => None,
            },
            Err(e) => {
                return Err(e);
            },
        };
        let request_id = match get_string(fs, 3) {
            Ok(v) => v,
            Err(e) => {
                return Err(e);
            },
        };
        Ok(UpdateClusterRequest { update_mask, cluster, request_id })
    }

    /// Decodes a message from its wire encoding.
    pub fn decode(b: &[u8]) -> (r: Result<Self, DecodeError>)
        ensures
            r is Ok <==> Self::decodable_bytes(b@),
            r matches Ok(m) ==> m.decoded_from(parse_fields(b@)->Some_0),
    {
        match decode_fields(b) {
            Ok(fs) => Self::from_fields(&fs),
            Err(e) => Err(e),
        }
    }

    /// The values that decoding gives back unchanged: the keys of each map
    /// are distinct and no float is negative zero, here and in every nested
    /// message.
    pub open spec fn canonical(&self) -> bool {
        &&& match self.update_mask { Some(m) => m.canonical(), None => true }
        &&& match self.cluster { Some(m) => m.canonical(), None => true }
    }

    /// Decoding the encoding of a canonical message gives that message back.
    pub proof fn lemma_round_trip(self)
        requires
            self.spec_encoding().len() <= u64::MAX,
            self.canonical(),
        ensures
            Self::decodable_bytes(self.spec_encoding()),
            self.decoded_from(parse_fields(self.spec_encoding())->Some_0),
    {
        let p1 = message_field(1, FieldMask::option_encoding(self.update_mask));
        let p2 = message_field(2, Cluster::option_encoding(self.cluster));
        let p3 = string_field(3, self.request_id@);
        let fs = self.fields();
        assert(fs == p1 + p2 + p3);
        lemma_message_piece(1, FieldMask::option_encoding(self.update_mask));
        lemma_message_piece(2, Cluster::option_encoding(self.cluster));
        lemma_string_piece(3, self.request_id@);
        lemma_only_numbers_ok(p1, 1);
        lemma_only_numbers_ok(p2, 2);
        lemma_only_numbers_ok(p3, 3);
        lemma_numbers_ok_add(p1, p2);
        lemma_numbers_ok_add(p1 + p2, p3);
        lemma_fields_ok_when_small(fs);
        lemma_payloads_within(fs);
        assert((all_of_type(fs, 1, 2) && FieldMask::option_decodable(message_value(fs, 1))) && FieldMask::option_decoded_from(self.update_mask, message_value(fs, 1))) by {
            lemma_only_lacks(p3, 3, 1);
            lemma_agree_suffix(p1 + p2, p3, 1);
            lemma_only_lacks(p2, 2, 1);
            lemma_agree_suffix(p1, p2, 1);
            match self.update_mask {
                Some(m) => {
                    assert(fs[0] == p1[0]);
                    m.lemma_round_trip();
                },
                None => {},
            }
        }
        assert((all_of_type(fs, 2, 2) && Cluster::option_decodable(message_value(fs, 2))) && Cluster::option_decoded_from(self.cluster, message_value(fs, 2))) by {
            lemma_only_lacks(p3, 3, 2);
            lemma_agree_suffix(p1 + p2, p3, 2);
            lemma_only_lacks(p1, 1, 2);
            lemma_agree_prefix(p1, p2, 2);
            match self.cluster {
                Some(m) => {
                    assert(fs[(p1).len() as int] == p2[0]);
                    m.lemma_round_trip();
                },
                None => {},
            }
        }
        assert(all_text(fs, 3) && self.request_id@ == string_value(fs, 3)) by {
            lemma_only_lacks(p1, 1, 3);
            lemma_only_lacks(p2, 2, 3);
            lemma_no_field_add(p1, p2, 3);
            lemma_agree_prefix(p1 + p2, p3, 3);
        }
    }
}

/// Request message for 'DeleteCluster'.
#[derive(Clone, Debug, PartialEq, Default)]
pub struct DeleteClusterRequest {
    /// Required. The name of cluster to delete.
    pub name: String,
    /// Optional. A request ID that identifies the request, so that a server can
    /// ignore a retry of a request that it has already completed. It must be a
    /// valid UUID other than the zero UUID.
    pub request_id: String,
}

impl DeleteClusterRequest {
    /// The fields of this message in field-number order, the ones that
    /// hold a default value left out.
    pub open spec fn fields(&self) -> Seq<FieldV> {
        string_field(1, self.name@)
            + string_field(2, self.request_id@)
    }

    /// The wire encoding of this message.
    pub open spec fn spec_encoding(&self) -> Seq<u8> {
        fields_bytes(self.fields())
    }

    /// The decoded fields `fs` are well-formed for this message: each
    /// field has its declared wire type and each nested part decodes.
    pub open spec fn decodable(fs: Seq<FieldV>) -> bool {
        &&& all_text(fs, 1)
        &&& all_text(fs, 2)
    }

    /// The encoding of an optional nested message of this type.
    pub open spec fn option_encoding(m: Option<Self>) -> Option<Seq<u8>> {
        match m {
            Some(m) => Some(m.spec_encoding()),
            None => None,
        }
    }

    /// An optional nested message of this type, as bytes to decode, is
    /// well-formed.
    pub open spec fn option_decodable(b: Option<Seq<u8>>) -> bool {
        match b {
            Some(b) => Self::decodable_bytes(b),
            None => true,
        }
    }

    /// `m` is the optional nested message that the bytes `b` decode to.
    pub open spec fn option_decoded_from(m: Option<Self>, b: Option<Seq<u8>>) -> bool {
        match b {
            Some(b) => m matches Some(m) && m.decoded_from(parse_fields(b)->Some_0),
            None => m is None,
        }
    }

    /// `b` is a well-formed encoding of this message.
    pub open spec fn decodable_bytes(b: Seq<u8>) -> bool {
        parse_fields(b) matches Some(fs) && Self::decodable(fs)
    }

    /// This message is the one that the decoded fields `fs` describe.
    pub open spec fn decoded_from(&self, fs: Seq<FieldV>) -> bool {
        &&& self.name@ == string_value(fs, 1)
        &&& self.request_id@ == string_value(fs, 2)
    }

    /// The fields of this message, ready to be written.
    pub fn to_fields(&self) -> (r: Vec<Field>)
        ensures
            fields_view(r@) == self.fields(),
    {
        let mut fs: Vec<Field> = Vec::new();
        assert(fields_view(fs@) =~= Seq::<FieldV>::empty());
        push_string(&mut fs, 1, &self.name);
        push_string(&mut fs, 2, &self.request_id);
        assert(fields_view(fs@) =~= self.fields());
        fs
    }

    /// The wire encoding of this message.
    pub fn encode_to_vec(&self) -> (r: Vec<u8>)
        ensures
            r@ == self.spec_encoding(),
    {
        let fs = self.to_fields();
        encode_fields(&fs)
    }

    /// The message that the decoded fields `fs` describe.
    pub fn from_fields(fs: &Vec<Field>) -> (r: Result<Self, DecodeError>)
        ensures
            r is Ok <==> Self::decodable(fields_view(fs@)),
            r matches Ok(m) ==> m.decoded_from(fields_view(fs@)),
    {
        let name = match get_string(fs, 1) {
            Ok(v) => v,
            Err(e) => {
                return Err(e);
            },
        };
        let request_id = match get_string(fs, 2) {
            Ok(v) => v,
            Err(e) => {
                return Err(e);
            },
        };
        Ok(DeleteClusterRequest { name, request_id })
    }

    /// Decodes a message from its wire encoding.
    pub fn decode(b: &[u8]) -> (r: Result<Self, DecodeError>)
        ensures
            r is Ok <==> Self::decodable_bytes(b@),
            r matches Ok(m) ==> m.decoded_from(parse_fields(b@)->Some_0),
    {
        match decode_fields(b) {
            Ok(fs) => Self::from_fields(&fs),
            Err(e) => Err(e),
        }
    }

    /// The values that decoding gives back unchanged: the keys of each map
    /// are distinct and no float is negative zero, here and in every nested
    /// message.
    pub open spec fn canonical(&self) -> bool {
        true
    }

    /// Decoding the encoding of a canonical message gives that message back.
    pub proof fn lemma_round_trip(self)
        requires
            self.spec_encoding().len() <= u64::MAX,
            self.canonical(),
        ensures
            Self::decodable_bytes(self.spec_encoding()),
            self.decoded_from(parse_fields(self.spec_encoding())->Some_0),
    {
        let p1 = string_field(1, self.name@);
        let p2 = string_field(2, self.request_id@);
        let fs = self.fields();
        assert(fs == p1 + p2);
        lemma_string_piece(1, self.name@);
        lemma_string_piece(2, self.request_id@);
        lemma_only_numbers_ok(p1, 1);
        lemma_only_numbers_ok(p2, 2);
        lemma_numbers_ok_add(p1, p2);
        lemma_fields_ok_when_small(fs);
        lemma_payloads_within(fs);
        assert(all_text(fs, 1) && self.name@ == string_value(fs, 1)) by {
            lemma_only_lacks(p2, 2, 1);
            lemma_agree_suffix(p1, p2, 1);
        }
        assert(all_text(fs, 2) && self.request_id@ == string_value(fs, 2)) by {
            lemma_only_lacks(p1, 1, 2);
            lemma_agree_prefix(p1, p2, 2);
        }
    }
}

/// Stream resource.
#[derive(Clone, Debug, PartialEq, Default)]
pub struct Stream {
    /// The name of the stream, in the format
    /// projects/<projectid>/location/<locationid>/clusters/<clusterid>/streams/<streamid>.
    pub name: String,
    /// Output only. The time at which this Stream was created.
    pub create_time: Option<Timestamp>,
    /// Output only. The time at which this Stream was updated.
    pub update_time: Option<Timestamp>,
    /// The labels of the stream, each key at most once.
    pub labels: Vec<(String, String)>,
}

impl Stream {
    /// The fields of this message in field-number order, the ones that
    /// hold a default value left out.
    pub open spec fn fields(&self) -> Seq<FieldV> {
        string_field(1, self.name@)
            + message_field(2, Timestamp::option_encoding(self.create_time))
            + message_field(3, Timestamp::option_encoding(self.update_time))
            + messages_field(4, labels_encoding(labels_view(self.labels@)))
    }

    /// The wire encoding of this message.
    pub open spec fn spec_encoding(&self) -> Seq<u8> {
        fields_bytes(self.fields())
    }

    /// The decoded fields `fs` are well-formed for this message: each
    /// field has its declared wire type and each nested part decodes.
    pub open spec fn decodable(fs: Seq<FieldV>) -> bool {
        &&& all_text(fs, 1)
        &&& (all_of_type(fs, 2, 2) && Timestamp::option_decodable(message_value(fs, 2)))
        &&& (all_of_type(fs, 3, 2) && Timestamp::option_decodable(message_value(fs, 3)))
        &&& (all_of_type(fs, 4, 2) && labels_ok(payloads_value(fs, 4)))
    }

    /// The encoding of an optional nested message of this type.
    pub open spec fn option_encoding(m: Option<Self>) -> Option<Seq<u8>> {
        match m {
            Some(m) => Some(m.spec_encoding()),
            None => None,
        }
    }

    /// An optional nested message of this type, as bytes to decode, is
    /// well-formed.
    pub open spec fn option_decodable(b: Option<Seq<u8>>) -> bool {
        match b {
            Some(b) => Self::decodable_bytes(b),
            None => true,
        }
    }

    /// `m` is the optional nested message that the bytes `b` decode to.
    pub open spec fn option_decoded_from(m: Option<Self>, b: Option<Seq<u8>>) -> bool {
        match b {
            Some(b) => m matches Some(m) && m.decoded_from(parse_fields(b)->Some_0),
            None => m is None,
        }
    }

    /// `b` is a well-formed encoding of this message.
    pub open spec fn decodable_bytes(b: Seq<u8>) -> bool {
        parse_fields(b) matches Some(fs) && Self::decodable(fs)
    }

    /// This message is the one that the decoded fields `fs` describe.
    pub open spec fn decoded_from(&self, fs: Seq<FieldV>) -> bool {
        &&& self.name@ == string_value(fs, 1)
        &&& Timestamp::option_decoded_from(self.create_time, message_value(fs, 2))
        &&& Timestamp::option_decoded_from(self.update_time, message_value(fs, 3))
        &&& labels_view(self.labels@) == labels_value(payloads_value(fs, 4))
    }

    /// The fields of this message, ready to be written.
    pub fn to_fields(&self) -> (r: Vec<Field>)
        ensures
            fields_view(r@) == self.fields(),
    {
        let mut fs: Vec<Field> = Vec::new();
        assert(fields_view(fs@) =~= Seq::<FieldV>::empty());
        push_string(&mut fs, 1, &self.name);
        let create_time_bytes: Option<Vec<u8>> = match &self.create_time {
            Some(m) => Some(m.encode_to_vec()),
            None => None,
        };
        push_message(&mut fs, 2, create_time_bytes);
        let update_time_bytes: Option<Vec<u8>> = match &self.update_time {
            Some(m) => Some(m.encode_to_vec()),
            None => None,
        };
        push_message(&mut fs, 3, update_time_bytes);
        push_messages(&mut fs, 4, encode_labels(&self.labels));
        assert(fields_view(fs@) =~= self.fields());
        fs
    }

    /// The wire encoding of this message.
    pub fn encode_to_vec(&self) -> (r: Vec<u8>)
        ensures
            r@ == self.spec_encoding(),
    {
        let fs = self.to_fields();
        encode_fields(&fs)
    }

    /// The message that the decoded fields `fs` describe.
    pub fn from_fields(fs: &Vec<Field>) -> (r: Result<Self, DecodeError>)
        ensures
            r is Ok <==> Self::decodable(fields_view(fs@)),
            r matches Ok(m) ==> m.decoded_from(fields_view(fs@)),
    {
        let name = match get_string(fs, 1) {
            Ok(v) => v,
            Err(e) => {
                return Err(e);
            },
        };
        let create_time = match get_payloads(fs, 2) {
            Ok((_, joined)) => match joined {
                Some(b) => match Timestamp::decode(b.as_slice()) {
                    Ok(m) => Some(m),
                    Err(e) => {
                        return Err(e);
                    },
                },
                None => None,
            },
            Err(e) => {
                return Err(e);
            },
        };
        let update_time = match get_payloads(fs, 3) {
            Ok((_, joined)) => match joined {
                Some(b) => match Timestamp::decode(b.as_slice()) {
                    Ok(m) => Some(m),
                    Err(e) => {
                        return Err(e);
                    },
                },
                None => None,
            },
            Err(e) => {
                return Err(e);
            },
        };
        let labels = match get_payloads(fs, 4) {
            Ok((each, _)) => match decode_labels(&each) {
                Ok(v) => v,
                Err(e) => {
                    return Err(e);
                },
            },
            Err(e) => {
                return Err(e);
            },
        };
        Ok(Stream { name, create_time, update_time, labels })
    }

    /// Decodes a message from its wire encoding.
    pub fn decode(b: &[u8]) -> (r: Result<Self, DecodeError>)
        ensures
            r is Ok <==> Self::decodable_bytes(b@),
            r matches Ok(m) ==> m.decoded_from(parse_fields(b@)->Some_0),
    {
        match decode_fields(b) {
            Ok(fs) => Self::from_fields(&fs),
            Err(e) => Err(e),
        }
    }

    /// The values that decoding gives back unchanged: the keys of each map
    /// are distinct and no float is negative zero, here and in every nested
    /// message.
    pub open spec fn canonical(&self) -> bool {
        &&& match self.create_time { Some(m) => m.canonical(), None => true }
        &&& match self.update_time { Some(m) => m.canonical(), None => true }
        &&& keys_distinct(labels_view(self.labels@))
    }

    /// Decoding the encoding of a canonical message gives that message back.
    #[verifier::rlimit(50)]
    pub proof fn lemma_round_trip(self)
        requires
            self.spec_encoding().len() <= u64::MAX,
            self.canonical(),
        ensures
            Self::decodable_bytes(self.spec_encoding()),
            self.decoded_from(parse_fields(self.spec_encoding())->Some_0),
    {
        let p1 = string_field(1, self.name@);
        let p2 = message_field(2, Timestamp::option_encoding(self.create_time));
        let p3 = message_field(3, Timestamp::option_encoding(self.update_time));
        let p4 = messages_field(4, labels_encoding(labels_view(self.labels@)));
        let fs = self.fields();
        assert(fs == p1 + p2 + p3 + p4);
        lemma_string_piece(1, self.name@);
        lemma_message_piece(2, Timestamp::option_encoding(self.create_time));
        lemma_message_piece(3, Timestamp::option_encoding(self.update_time));
        lemma_messages_piece(4, labels_encoding(labels_view(self.labels@)));
        lemma_only_numbers_ok(p1, 1);
        lemma_only_numbers_ok(p2, 2);
        lemma_only_numbers_ok(p3, 3);
        lemma_only_numbers_ok(p4, 4);
        lemma_numbers_ok_add(p1, p2);
        lemma_numbers_ok_add(p1 + p2, p3);
        lemma_numbers_ok_add(p1 + p2 + p3, p4);
        lemma_fields_ok_when_small(fs);
        lemma_payloads_within(fs);
        assert(all_text(fs, 1) && self.name@ == string_value(fs, 1)) by {
            lemma_only_lacks(p4, 4, 1);
            lemma_agree_suffix(p1 + p2 + p3, p4, 1);
            lemma_only_lacks(p3, 3, 1);
            lemma_agree_suffix(p1 + p2, p3, 1);
            lemma_only_lacks(p2, 2, 1);
            lemma_agree_suffix(p1, p2, 1);
        }
        assert((all_of_type(fs, 2, 2) && Timestamp::option_decodable(message_value(fs, 2))) && Timestamp::option_decoded_from(self.create_time, message_value(fs, 2))) by {
            lemma_only_lacks(p4, 4, 2);
            lemma_agree_suffix(p1 + p2 + p3, p4, 2);
            lemma_only_lacks(p3, 3, 2);
            lemma_agree_suffix(p1 + p2, p3, 2);
            lemma_only_lacks(p1, 1, 2);
            lemma_agree_prefix(p1, p2, 2);
            match self.create_time {
                Some(m) => {
                    assert(fs[(p1).len() as int] == p2[0]);
                    m.lemma_round_trip();
                },
                None => {},
            }
        }
        assert((all_of_type(fs, 3, 2) && Timestamp::option_decodable(message_value(fs, 3))) && Timestamp::option_decoded_from(self.update_time, message_value(fs, 3))) by {
            lemma_only_lacks(p4, 4, 3);
            lemma_agree_suffix(p1 + p2 + p3, p4, 3);
            lemma_only_lacks(p1, 1, 3);
            lemma_only_lacks(p2, 2, 3);
            lemma_no_field_add(p1, p2, 3);
            lemma_agree_prefix(p1 + p2, p3, 3);
            match self.update_time {
                Some(m) => {
                    assert(fs[(p1 + p2).len() as int] == p3[0]);
                    m.lemma_round_trip();
                },
                None => {},
            }
        }
        assert((all_of_type(fs, 4, 2) && labels_ok(payloads_value(fs, 4))) && labels_view(self.labels@) == labels_value(payloads_value(fs, 4))) by {
            lemma_only_lacks(p1, 1, 4);
            lemma_only_lacks(p2, 2, 4);
            lemma_no_field_add(p1, p2, 4);
            lemma_only_lacks(p3, 3, 4);
            lemma_no_field_add(p1 + p2, p3, 4);
            lemma_agree_prefix(p1 + p2 + p3, p4, 4);
            assert forall|j: int| 0 <= j < labels_view(self.labels@).len() implies (#[trigger] labels_encoding(labels_view(self.labels@))[j]).len() <= u64::MAX by {
                let w = choose|w: int| 0 <= w < p4.len() && labels_encoding(labels_view(self.labels@))[j] == payload_of(p4[w].value);
                assert(fs[(p1 + p2 + p3).len() as int + w] == p4[w]);
            }
            lemma_labels_round_trip(labels_view(self.labels@));
        }
    }

    /// The encodings of a sequence of messages.
    pub open spec fn list_encoding(ms: Seq<Self>) -> Seq<Seq<u8>> {
        ms.map_values(|m: Self| m.spec_encoding())
    }

    /// Every payload is a well-formed encoding of this message.
    pub open spec fn list_decodable(ps: Seq<Seq<u8>>) -> bool {
        forall|i: int| 0 <= i < ps.len() ==> Self::decodable_bytes(#[trigger] ps[i])
    }

    /// `ms` are the messages that the payloads `ps` decode to, one for one.
    pub open spec fn list_decoded_from(ms: Seq<Self>, ps: Seq<Seq<u8>>) -> bool {
        &&& ms.len() == ps.len()
        &&& forall|i: int| 0 <= i < ps.len() ==> #[trigger] ms[i].decoded_from(parse_fields(ps[i])->Some_0)
    }

    /// The encodings of the messages of a repeated field.
    pub fn encode_list(ms: &Vec<Self>) -> (r: Vec<Vec<u8>>)
        ensures
            bytes_view(r@) == Self::list_encoding(ms@),
    {
        let mut out: Vec<Vec<u8>> = Vec::new();
        let mut i: usize = 0;
        while i < ms.len()
            invariant
                i <= ms@.len(),
                bytes_view(out@) == Self::list_encoding(ms@.subrange(0, i as int)),
            decreases ms@.len() - i,
        {
            let ghost before = out@;
            let b = ms[i].encode_to_vec();
            out.push(b);
            proof {
                let pre = ms@.subrange(0, i as int);
                assert(ms@.subrange(0, i + 1) =~= pre.push(ms@[i as int]));
                assert(Self::list_encoding(pre.push(ms@[i as int])) =~= Self::list_encoding(pre).push(
                    ms@[i as int].spec_encoding(),
                ));
                assert(bytes_view(out@) =~= bytes_view(before).push(b@));
            }
            i = i + 1;
        }
        assert(ms@.subrange(0, ms@.len() as int) =~= ms@);
        out
    }

    /// The messages of a repeated field, decoded from their payloads.
    pub fn decode_list(ps: &Vec<Vec<u8>>) -> (r: Result<Vec<Self>, DecodeError>)
        ensures
            r is Ok <==> Self::list_decodable(bytes_view(ps@)),
            r matches Ok(ms) ==> Self::list_decoded_from(ms@, bytes_view(ps@)),
    {
        let ghost pv = bytes_view(ps@);
        let mut out: Vec<Self> = Vec::new();
        let mut i: usize = 0;
        while i < ps.len()
            invariant
                i <= ps@.len(),
                pv == bytes_view(ps@),
                out@.len() == i,
                forall|j: int| 0 <= j < i ==> Self::decodable_bytes(#[trigger] pv[j]),
                forall|j: int| 0 <= j < i ==> #[trigger] out@[j].decoded_from(parse_fields(pv[j])->Some_0),
            decreases ps@.len() - i,
        {
            assert(pv[i as int] == ps@[i as int]@);
            match Self::decode(ps[i].as_slice()) {
                Ok(m) => {
                    out.push(m);
                },
                Err(e) => {
                    return Err(e);
                },
            }
            i = i + 1;
        }
        Ok(out)
    }
}

/// Request message for 'ListStreams'.
#[derive(Clone, Debug, PartialEq, Default)]
pub struct ListStreamsRequest {
    /// Required. The parent that owns the collection of Streams.
    pub parent: String,
    /// Maximum number of Streams to return.
    pub page_size: i32,
    /// Page token received from a previous `ListStreams` call, to retrieve the
    /// subsequent page.
    pub page_token: String,
    /// Filter request.
    pub filter: String,
    /// Order by fields for the result.
    pub order_by: String,
}

impl ListStreamsRequest {
    /// The fields of this message in field-number order, the ones that
    /// hold a default value left out.
    pub open spec fn fields(&self) -> Seq<FieldV> {
        string_field(1, self.parent@)
            + int32_field(2, self.page_size)
            + string_field(3, self.page_token@)
            + string_field(4, self.filter@)
            + string_field(5, self.order_by@)
    }

    /// The wire encoding of this message.
    pub open spec fn spec_encoding(&self) -> Seq<u8> {
        fields_bytes(self.fields())
    }

    /// The decoded fields `fs` are well-formed for this message: each
    /// field has its declared wire type and each nested part decodes.
    pub open spec fn decodable(fs: Seq<FieldV>) -> bool {
        &&& all_text(fs, 1)
        &&& all_of_type(fs, 2, 0)
        &&& all_text(fs, 3)
        &&& all_text(fs, 4)
        &&& all_text(fs, 5)
    }

    /// The encoding of an optional nested message of this type.
    pub open spec fn option_encoding(m: Option<Self>) -> Option<Seq<u8>> {
        match m {
            Some(m) => Some(m.spec_encoding()),
            None => None,
        }
    }

    /// An optional nested message of this type, as bytes to decode, is
    /// well-formed.
    pub open spec fn option_decodable(b: Option<Seq<u8>>) -> bool {
        match b {
            Some(b) => Self::decodable_bytes(b),
            None => true,
        }
    }

    /// `m` is the optional nested message that the bytes `b` decode to.
    pub open spec fn option_decoded_from(m: Option<Self>, b: Option<Seq<u8>>) -> bool {
        match b {
            Some(b) => m matches Some(m) && m.decoded_from(parse_fields(b)->Some_0),
            None => m is None,
        }
    }

    /// `b` is a well-formed encoding of this message.
    pub open spec fn decodable_bytes(b: Seq<u8>) -> bool {
        parse_fields(b) matches Some(fs) && Self::decodable(fs)
    }

    /// This message is the one that the decoded fields `fs` describe.
    pub open spec fn decoded_from(&self, fs: Seq<FieldV>) -> bool {
        &&& self.parent@ == string_value(fs, 1)
        &&& self.page_size == varint_value(fs, 2) as i32
        &&& self.page_token@ == string_value(fs, 3)
        &&& self.filter@ == string_value(fs, 4)
        &&& self.order_by@ == string_value(fs, 5)
    }

    /// The fields of this message, ready to be written.
    pub fn to_fields(&self) -> (r: Vec<Field>)
        ensures
            fields_view(r@) == self.fields(),
    {
        let mut fs: Vec<Field> = Vec::new();
        assert(fields_view(fs@) =~= Seq::<FieldV>::empty());
        push_string(&mut fs, 1, &self.parent);
        push_int32(&mut fs, 2, self.page_size);
        push_string(&mut fs, 3, &self.page_token);
        push_string(&mut fs, 4, &self.filter);
        push_string(&mut fs, 5, &self.order_by);
        assert(fields_view(fs@) =~= self.fields());
        fs
    }

    /// The wire encoding of this message.
    pub fn encode_to_vec(&self) -> (r: Vec<u8>)
        ensures
            r@ == self.spec_encoding(),
    {
        let fs = self.to_fields();
        encode_fields(&fs)
    }

    /// The message that the decoded fields `fs` describe.
    pub fn from_fields(fs: &Vec<Field>) -> (r: Result<Self, DecodeError>)
        ensures
            r is Ok <==> Self::decodable(fields_view(fs@)),
            r matches Ok(m) ==> m.decoded_from(fields_view(fs@)),
    {
        let parent = match get_string(fs, 1) {
            Ok(v) => v,
            Err(e) => {
                return Err(e);
            },
        };
        let page_size = match get_varint_value(fs, 2) {
            Ok(v) => v as i32,
            Err(e) => {
                return Err(e);
            },
        };
        let page_token = match get_string(fs, 3) {
            Ok(v) => v,
            Err(e) => {
                return Err(e);
            },
        };
        let filter = match get_string(fs, 4) {
            Ok(v) => v,
            Err(e) => {
                return Err(e);
            },
        };
        let order_by = match get_string(fs, 5) {
            Ok(v) => v,
            Err(e) => {
                return Err(e);
            },
        };
        Ok(ListStreamsRequest { parent, page_size, page_token, filter, order_by })
    }

    /// Decodes a message from its wire encoding.
    pub fn decode(b: &[u8]) -> (r: Result<Self, DecodeError>)
        ensures
            r is Ok <==> Self::decodable_bytes(b@),
            r matches Ok(m) ==> m.decoded_from(parse_fields(b@)->Some_0),
    {
        match decode_fields(b) {
            Ok(fs) => Self::from_fields(&fs),
            Err(e) => Err(e),
        }
    }

    /// The values that decoding gives back unchanged: the keys of each map
    /// are distinct and no float is negative zero, here and in every nested
    /// message.
    pub open spec fn canonical(&self) -> bool {
        true
    }

    /// Decoding the encoding of a canonical message gives that message back.
    pub proof fn lemma_round_trip(self)
        requires
            self.spec_encoding().len() <= u64::MAX,
            self.canonical(),
        ensures
            Self::decodable_bytes(self.spec_encoding()),
            self.decoded_from(parse_fields(self.spec_encoding())->Some_0),
    {
        let p1 = string_field(1, self.parent@);
        let p2 = int32_field(2, self.page_size);
        let p3 = string_field(3, self.page_token@);
        let p4 = string_field(4, self.filter@);
        let p5 = string_field(5, self.order_by@);
        let fs = self.fields();
        assert(fs == p1 + p2 + p3 + p4 + p5);
        lemma_string_piece(1, self.parent@);
        lemma_varint_piece(2, self.page_size as u64);
        lemma_int32_cast(self.page_size);
        lemma_string_piece(3, self.page_token@);
        lemma_string_piece(4, self.filter@);
        lemma_string_piece(5, self.order_by@);
        lemma_only_numbers_ok(p1, 1);
        lemma_only_numbers_ok(p2, 2);
        lemma_only_numbers_ok(p3, 3);
        lemma_only_numbers_ok(p4, 4);
        lemma_only_numbers_ok(p5, 5);
        lemma_numbers_ok_add(p1, p2);
        lemma_numbers_ok_add(p1 + p2, p3);
        lemma_numbers_ok_add(p1 + p2 + p3, p4);
        lemma_numbers_ok_add(p1 + p2 + p3 + p4, p5);
        lemma_fields_ok_when_small(fs);
        lemma_payloads_within(fs);
        assert(all_text(fs, 1) && self.parent@ == string_value(fs, 1)) by {
            lemma_only_lacks(p5, 5, 1);
            lemma_agree_suffix(p1 + p2 + p3 + p4, p5, 1);
            lemma_only_lacks(p4, 4, 1);
            lemma_agree_suffix(p1 + p2 + p3, p4, 1);
            lemma_only_lacks(p3, 3, 1);
            lemma_agree_suffix(p1 + p2, p3, 1);
            lemma_only_lacks(p2, 2, 1);
            lemma_agree_suffix(p1, p2, 1);
        }
        assert(all_of_type(fs, 2, 0) && self.page_size == varint_value(fs, 2) as i32) by {
            lemma_only_lacks(p5, 5, 2);
            lemma_agree_suffix(p1 + p2 + p3 + p4, p5, 2);
            lemma_only_lacks(p4, 4, 2);
            lemma_agree_suffix(p1 + p2 + p3, p4, 2);
            lemma_only_lacks(p3, 3, 2);
            lemma_agree_suffix(p1 + p2, p3, 2);
            lemma_only_lacks(p1, 1, 2);
            lemma_agree_prefix(p1, p2, 2);
        }
        assert(all_text(fs, 3) && self.page_token@ == string_value(fs, 3)) by {
            lemma_only_lacks(p5, 5, 3);
            lemma_agree_suffix(p1 + p2 + p3 + p4, p5, 3);
            lemma_only_lacks(p4, 4, 3);
            lemma_agree_suffix(p1 + p2 + p3, p4, 3);
            lemma_only_lacks(p1, 1, 3);
            lemma_only_lacks(p2, 2, 3);
            lemma_no_field_add(p1, p2, 3);
            lemma_agree_prefix(p1 + p2, p3, 3);
        }
        assert(all_text(fs, 4) && self.filter@ == string_value(fs, 4)) by {
            lemma_only_lacks(p5, 5, 4);
            lemma_agree_suffix(p1 + p2 + p3 + p4, p5, 4);
            lemma_only_lacks(p1, 1, 4);
            lemma_only_lacks(p2, 2, 4);
            lemma_no_field_add(p1, p2, 4);
            lemma_only_lacks(p3, 3, 4);
            lemma_no_field_add(p1 + p2, p3, 4);
            lemma_agree_prefix(p1 + p2 + p3, p4, 4);
        }
        assert(all_text(fs, 5) && self.order_by@ == string_value(fs, 5)) by {
            lemma_only_lacks(p1, 1, 5);
            lemma_only_lacks(p2, 2, 5);
            lemma_no_field_add(p1, p2, 5);
            lemma_only_lacks(p3, 3, 5);
            lemma_no_field_add(p1 + p2, p3, 5);
            lemma_only_lacks(p4, 4, 5);
            lemma_no_field_add(p1 + p2 + p3, p4, 5);
            lemma_agree_prefix(p1 + p2 + p3 + p4, p5, 5);
        }
    }
}

/// Response message from 'ListStreams'.
#[derive(Clone, Debug, PartialEq, Default)]
pub struct ListStreamsResponse {
    /// List of the streams.
    pub streams: Vec<Stream>,
    /// A token, which can be sent as `page_token` to retrieve the next page; empty
    /// when there are no subsequent pages.
    pub next_page_token: String,
    /// Locations that could not be reached.
    pub unreachable: Vec<String>,
}

impl ListStreamsResponse {
    /// The fields of this message in field-number order, the ones that
    /// hold a default value left out.
    pub open spec fn fields(&self) -> Seq<FieldV> {
        messages_field(1, Stream::list_encoding(self.streams@))
            + string_field(2, self.next_page_token@)
            + strings_field(3, strings_view(self.unreachable@))
    }

    /// The wire encoding of this message.
    pub open spec fn spec_encoding(&self) -> Seq<u8> {
        fields_bytes(self.fields())
    }

    /// The decoded fields `fs` are well-formed for this message: each
    /// field has its declared wire type and each nested part decodes.
    pub open spec fn decodable(fs: Seq<FieldV>) -> bool {
        &&& (all_of_type(fs, 1, 2) && Stream::list_decodable(payloads_value(fs, 1)))
        &&& all_text(fs, 2)
        &&& all_text(fs, 3)
    }

    /// The encoding of an optional nested message of this type.
    pub open spec fn option_encoding(m: Option<Self>) -> Option<Seq<u8>> {
        match m {
            Some(m) => Some(m.spec_encoding()),
            None => None,
        }
    }

    /// An optional nested message of this type, as bytes to decode, is
    /// well-formed.
    pub open spec fn option_decodable(b: Option<Seq<u8>>) -> bool {
        match b {
            Some(b) => Self::decodable_bytes(b),
            None => true,
        }
    }

    /// `m` is the optional nested message that the bytes `b` decode to.
    pub open spec fn option_decoded_from(m: Option<Self>, b: Option<Seq<u8>>) -> bool {
        match b {
            Some(b) => m matches Some(m) && m.decoded_from(parse_fields(b)->Some_0),
            None => m is None,
        }
    }

    /// `b` is a well-formed encoding of this message.
    pub open spec fn decodable_bytes(b: Seq<u8>) -> bool {
        parse_fields(b) matches Some(fs) && Self::decodable(fs)
    }

    /// This message is the one that the decoded fields `fs` describe.
    pub open spec fn decoded_from(&self, fs: Seq<FieldV>) -> bool {
        &&& Stream::list_decoded_from(self.streams@, payloads_value(fs, 1))
        &&& self.next_page_token@ == string_value(fs, 2)
        &&& strings_view(self.unreachable@) == strings_value(fs, 3)
    }

    /// The fields of this message, ready to be written.
    pub fn to_fields(&self) -> (r: Vec<Field>)
        ensures
            fields_view(r@) == self.fields(),
    {
        let mut fs: Vec<Field> = Vec::new();
        assert(fields_view(fs@) =~= Seq::<FieldV>::empty());
        push_messages(&mut fs, 1, Stream::encode_list(&self.streams));
        push_string(&mut fs, 2, &self.next_page_token);
        push_strings(&mut fs, 3, &self.unreachable);
        assert(fields_view(fs@) =~= self.fields());
        fs
    }

    /// The wire encoding of this message.
    pub fn encode_to_vec(&self) -> (r: Vec<u8>)
        ensures
            r@ == self.spec_encoding(),
    {
        let fs = self.to_fields();
        encode_fields(&fs)
    }

    /// The message that the decoded fields `fs` describe.
    pub fn from_fields(fs: &Vec<Field>) -> (r: Result<Self, DecodeError>)
        ensures
            r is Ok <==> Self::decodable(fields_view(fs@)),
            r matches Ok(m) ==> m.decoded_from(fields_view(fs@)),
    {
        let streams = match get_payloads(fs, 1) {
            Ok((each, _)) => match Stream::decode_list(&each) {
                Ok(v) => v,
                Err(e) => {
                    return Err(e);
                },
            },
            Err(e) => {
                return Err(e);
            },
        };
        let next_page_token = match get_string(fs, 2) {
            Ok(v) => v,
            Err(e) => {
                return Err(e);
            },
        };
        let unreachable = match get_strings(fs, 3) {
            Ok(v) => v,
            Err(e) => {
                return Err(e);
            },
        };
        Ok(ListStreamsResponse { streams, next_page_token, unreachable })
    }

    /// Decodes a message from its wire encoding.
    pub fn decode(b: &[u8]) -> (r: Result<Self, DecodeError>)
        ensures
            r is Ok <==> Self::decodable_bytes(b@),
            r matches Ok(m) ==> m.decoded_from(parse_fields(b@)->Some_0),
    {
        match decode_fields(b) {
            Ok(fs) => Self::from_fields(&fs),
            Err(e) => Err(e),
        }
    }

    /// The values that decoding gives back unchanged: the keys of each map
    /// are distinct and no float is negative zero, here and in every nested
    /// message.
    pub open spec fn canonical(&self) -> bool {
        &&& forall|i: int| 0 <= i < self.streams@.len() ==> #[trigger] self.streams@[i].canonical()
    }

    /// Decoding the encoding of a canonical message gives that message back.
    pub proof fn lemma_round_trip(self)
        requires
            self.spec_encoding().len() <= u64::MAX,
            self.canonical(),
        ensures
            Self::decodable_bytes(self.spec_encoding()),
            self.decoded_from(parse_fields(self.spec_encoding())->Some_0),
    {
        let p1 = messages_field(1, Stream::list_encoding(self.streams@));
        let p2 = string_field(2, self.next_page_token@);
        let p3 = strings_field(3, strings_view(self.unreachable@));
        let fs = self.fields();
        assert(fs == p1 + p2 + p3);
        lemma_messages_piece(1, Stream::list_encoding(self.streams@));
        lemma_string_piece(2, self.next_page_token@);
        lemma_strings_piece(3, strings_view(self.unreachable@));
        lemma_only_numbers_ok(p1, 1);
        lemma_only_numbers_ok(p2, 2);
        lemma_only_numbers_ok(p3, 3);
        lemma_numbers_ok_add(p1, p2);
        lemma_numbers_ok_add(p1 + p2, p3);
        lemma_fields_ok_when_small(fs);
        lemma_payloads_within(fs);
        assert((all_of_type(fs, 1, 2) && Stream::list_decodable(payloads_value(fs, 1))) && Stream::list_decoded_from(self.streams@, payloads_value(fs, 1))) by {
            lemma_only_lacks(p3, 3, 1);
            lemma_agree_suffix(p1 + p2, p3, 1);
            lemma_only_lacks(p2, 2, 1);
            lemma_agree_suffix(p1, p2, 1);
            assert forall|j: int| 0 <= j < self.streams@.len() implies Stream::decodable_bytes(#[trigger] Stream::list_encoding(self.streams@)[j])
                && self.streams@[j].decoded_from(parse_fields(Stream::list_encoding(self.streams@)[j])->Some_0) by {
                let w = choose|w: int| 0 <= w < p1.len() && Stream::list_encoding(self.streams@)[j] == payload_of(p1[w].value);
                assert(fs[0 + w] == p1[w]);
                self.streams@[j].lemma_round_trip();
            }
        }
        assert(all_text(fs, 2) && self.next_page_token@ == string_value(fs, 2)) by {
            lemma_only_lacks(p3, 3, 2);
            lemma_agree_suffix(p1 + p2, p3, 2);
            lemma_only_lacks(p1, 1, 2);
            lemma_agree_prefix(p1, p2, 2);
        }
        assert(all_text(fs, 3) && strings_view(self.unreachable@) == strings_value(fs, 3)) by {
            lemma_only_lacks(p1, 1, 3);
            lemma_only_lacks(p2, 2, 3);
            lemma_no_field_add(p1, p2, 3);
            lemma_agree_prefix(p1 + p2, p3, 3);
        }
    }
}

/// Request message for 'GetStream'.
#[derive(Clone, Debug, PartialEq, Default)]
pub struct GetStreamRequest {
    /// Required. The name of the stream.
    pub name: String,
}

impl GetStreamRequest {
    /// The fields of this message in field-number order, the ones that
    /// hold a default value left out.
    pub open spec fn fields(&self) -> Seq<FieldV> {
        string_field(1, self.name@)
    }

    /// The wire encoding of this message.
    pub open spec fn spec_encoding(&self) -> Seq<u8> {
        fields_bytes(self.fields())
    }

    /// The decoded fields `fs` are well-formed for this message: each
    /// field has its declared wire type and each nested part decodes.
    pub open spec fn decodable(fs: Seq<FieldV>) -> bool {
        &&& all_text(fs, 1)
    }

    /// The encoding of an optional nested message of this type.
    pub open spec fn option_encoding(m: Option<Self>) -> Option<Seq<u8>> {
        match m {
            Some(m) => Some(m.spec_encoding()),
            None => None,
        }
    }

    /// An optional nested message of this type, as bytes to decode, is
    /// well-formed.
    pub open spec fn option_decodable(b: Option<Seq<u8>>) -> bool {
        match b {
            Some(b) => Self::decodable_bytes(b),
            None => true,
        }
    }

    /// `m` is the optional nested message that the bytes `b` decode to.
    pub open spec fn option_decoded_from(m: Option<Self>, b: Option<Seq<u8>>) -> bool {
        match b {
            Some(b) => m matches Some(m) && m.decoded_from(parse_fields(b)->Some_0),
            None => m is None,
        }
    }

    /// `b` is a well-formed encoding of this message.
    pub open spec fn decodable_bytes(b: Seq<u8>) -> bool {
        parse_fields(b) matches Some(fs) && Self::decodable(fs)
    }

    /// This message is the one that the decoded fields `fs` describe.
    pub open spec fn decoded_from(&self, fs: Seq<FieldV>) -> bool {
        &&& self.name@ == string_value(fs, 1)
    }

    /// The fields of this message, ready to be written.
    pub fn to_fields(&self) -> (r: Vec<Field>)
        ensures
            fields_view(r@) == self.fields(),
    {
        let mut fs: Vec<Field> = Vec::new();
        assert(fields_view(fs@) =~= Seq::<FieldV>::empty());
        push_string(&mut fs, 1, &self.name);
        assert(fields_view(fs@) =~= self.fields());
        fs
    }

    /// The wire encoding of this message.
    pub fn encode_to_vec(&self) -> (r: Vec<u8>)
        ensures
            r@ == self.spec_encoding(),
    {
        let fs = self.to_fields();
        encode_fields(&fs)
    }

    /// The message that the decoded fields `fs` describe.
    pub fn from_fields(fs: &Vec<Field>) -> (r: Result<Self, DecodeError>)
        ensures
            r is Ok <==> Self::decodable(fields_view(fs@)),
            r matches Ok(m) ==> m.decoded_from(fields_view(fs@)),
    {
        let name = match get_string(fs, 1) {
            Ok(v) => v,
            Err(e) => {
                return Err(e);
            },
        };
        Ok(GetStreamRequest { name })
    }

    /// Decodes a message from its wire encoding.
    pub fn decode(b: &[u8]) -> (r: Result<Self, DecodeError>)
        ensures
            r is Ok <==> Self::decodable_bytes(b@),
            r matches Ok(m) ==> m.decoded_from(parse_fields(b@)->Some_0),
    {
        match decode_fields(b) {
            Ok(fs) => Self::from_fields(&fs),
            Err(e) => Err(e),
        }
    }

    /// The values that decoding gives back unchanged: the keys of each map
    /// are distinct and no float is negative zero, here and in every nested
    /// message.
    pub open spec fn canonical(&self) -> bool {
        true
    }

    /// Decoding the encoding of a canonical message gives that message back.
    pub proof fn lemma_round_trip(self)
        requires
            self.spec_encoding().len() <= u64::MAX,
            self.canonical(),
        ensures
            Self::decodable_bytes(self.spec_encoding()),
            self.decoded_from(parse_fields(self.spec_encoding())->Some_0),
    {
        let p1 = string_field(1, self.name@);
        let fs = self.fields();
        assert(fs == p1);
        lemma_string_piece(1, self.name@);
        lemma_only_numbers_ok(p1, 1);
        lemma_fields_ok_when_small(fs);
        lemma_payloads_within(fs);
        assert(all_text(fs, 1) && self.name@ == string_value(fs, 1)) by {

        }
    }
}

/// Request message for 'CreateStream'.
#[derive(Clone, Debug, PartialEq, Default)]
pub struct CreateStreamRequest {
    /// Required. The parent that owns the collection of streams.
    pub parent: String,
    /// Required. The stream identifier.
    pub stream_id: String,
    /// Required. The stream to create.
    pub stream: Option<Stream>,
    /// Optional. A request ID that identifies the request, so that a server can
    /// ignore a retry of a request that it has already completed. It must be a
    /// valid UUID other than the zero UUID.
    pub request_id: String,
}

impl CreateStreamRequest {
    /// The fields of this message in field-number order, the ones that
    /// hold a default value left out.
    pub open spec fn fields(&self) -> Seq<FieldV> {
        string_field(1, self.parent@)
            + string_field(2, self.stream_id@)
            + message_field(3, Stream::option_encoding(self.stream))
            + string_field(4, self.request_id@)
    }

    /// The wire encoding of this message.
    pub open spec fn spec_encoding(&self) -> Seq<u8> {
        fields_bytes(self.fields())
    }

    /// The decoded fields `fs` are well-formed for this message: each
    /// field has its declared wire type and each nested part decodes.
    pub open spec fn decodable(fs: Seq<FieldV>) -> bool {
        &&& all_text(fs, 1)
        &&& all_text(fs, 2)
        &&& (all_of_type(fs, 3, 2) && Stream::option_decodable(message_value(fs, 3)))
        &&& all_text(fs, 4)
    }

    /// The encoding of an optional nested message of this type.
    pub open spec fn option_encoding(m: Option<Self>) -> Option<Seq<u8>> {
        match m {
            Some(m) => Some(m.spec_encoding()),
            None => None,
        }
    }

    /// An optional nested message of this type, as bytes to decode, is
    /// well-formed.
    pub open spec fn option_decodable(b: Option<Seq<u8>>) -> bool {
        match b {
            Some(b) => Self::decodable_bytes(b),
            None => true,
        }
    }

    /// `m` is the optional nested message that the bytes `b` decode to.
    pub open spec fn option_decoded_from(m: Option<Self>, b: Option<Seq<u8>>) -> bool {
        match b {
            Some(b) => m matches Some(m) && m.decoded_from(parse_fields(b)->Some_0),
            None => m is None,
        }
    }

    /// `b` is a well-formed encoding of this message.
    pub open spec fn decodable_bytes(b: Seq<u8>) -> bool {
        parse_fields(b) matches Some(fs) && Self::decodable(fs)
    }

    /// This message is the one that the decoded fields `fs` describe.
    pub open spec fn decoded_from(&self, fs: Seq<FieldV>) -> bool {
        &&& self.parent@ == string_value(fs, 1)
        &&& self.stream_id@ == string_value(fs, 2)
        &&& Stream::option_decoded_from(self.stream, message_value(fs, 3))
        &&& self.request_id@ == string_value(fs, 4)
    }

    /// The fields of this message, ready to be written.
    pub fn to_fields(&self) -> (r: Vec<Field>)
        ensures
            fields_view(r@) == self.fields(),
    {
        let mut fs: Vec<Field> = Vec::new();
        assert(fields_view(fs@) =~= Seq::<FieldV>::empty());
        push_string(&mut fs, 1, &self.parent);
        push_string(&mut fs, 2, &self.stream_id);
        let stream_bytes: Option<Vec<u8>> = match &self.stream {
            Some(m) => Some(m.encode_to_vec()),
            None => None,
        };
        push_message(&mut fs, 3, stream_bytes);
        push_string(&mut fs, 4, &self.request_id);
        assert(fields_view(fs@) =~= self.fields());
        fs
    }

    /// The wire encoding of this message.
    pub fn encode_to_vec(&self) -> (r: Vec<u8>)
        ensures
            r@ == self.spec_encoding(),
    {
        let fs = self.to_fields();
        encode_fields(&fs)
    }

    /// The message that the decoded fields `fs` describe.
    pub fn from_fields(fs: &Vec<Field>) -> (r: Result<Self, DecodeError>)
        ensures
            r is Ok <==> Self::decodable(fields_view(fs@)),
            r matches Ok(m) ==> m.decoded_from(fields_view(fs@)),
    {
        let parent = match get_string(fs, 1) {
            Ok(v) => v,
            Err(e) => {
                return Err(e);
            },
        };
        let stream_id = match get_string(fs, 2) {
            Ok(v) => v,
            Err(e) => {
                return Err(e);
            },
        };
        let stream = match get_payloads(fs, 3) {
            Ok((_, joined)) => match joined {
                Some(b) => match Stream::decode(b.as_slice()) {
                    Ok(m) => Some(m),
                    Err(e) => {
                        return Err(e);
                    },
                },
                None => None,
            },
            Err(e) => {
                return Err(e);
            },
        };
        let request_id = match get_string(fs, 4) {
            Ok(v) => v,
            Err(e) => {
                return Err(e);
            },
        };
        Ok(CreateStreamRequest { parent, stream_id, stream, request_id })
    }

    /// Decodes a message from its wire encoding.
    pub fn decode(b: &[u8]) -> (r: Result<Self, DecodeError>)
        ensures
            r is Ok <==> Self::decodable_bytes(b@),
            r matches Ok(m) ==> m.decoded_from(parse_fields(b@)->Some_0),
    {
        match decode_fields(b) {
            Ok(fs) => Self::from_fields(&fs),
            Err(e) => Err(e),
        }
    }

    /// The values that decoding gives back unchanged: the keys of each map
    /// are distinct and no float is negative zero, here and in every nested
    /// message.
    pub open spec fn canonical(&self) -> bool {
        &&& match self.stream { Some(m) => m.canonical(), None => true }
    }

    /// Decoding the encoding of a canonical message gives that message back.
    pub proof fn lemma_round_trip(self)
        requires
            self.spec_encoding().len() <= u64::MAX,
            self.canonical(),
        ensures
            Self::decodable_bytes(self.spec_encoding()),
            self.decoded_from(parse_fields(self.spec_encoding())->Some_0),
    {
        let p1 = string_field(1, self.parent@);
        let p2 = string_field(2, self.stream_id@);
        let p3 = message_field(3, Stream::option_encoding(self.stream));
        let p4 = string_field(4, self.request_id@);
        let fs = self.fields();
        assert(fs == p1 + p2 + p3 + p4);
        lemma_string_piece(1, self.parent@);
        lemma_string_piece(2, self.stream_id@);
        lemma_message_piece(3, Stream::option_encoding(self.stream));
        lemma_string_piece(4, self.request_id@);
        lemma_only_numbers_ok(p1, 1);
        lemma_only_numbers_ok(p2, 2);
        lemma_only_numbers_ok(p3, 3);
        lemma_only_numbers_ok(p4, 4);
        lemma_numbers_ok_add(p1, p2);
        lemma_numbers_ok_add(p1 + p2, p3);
        lemma_numbers_ok_add(p1 + p2 + p3, p4);
        lemma_fields_ok_when_small(fs);
        lemma_payloads_within(fs);
        assert(all_text(fs, 1) && self.parent@ == string_value(fs, 1)) by {
            lemma_only_lacks(p4, 4, 1);
            lemma_agree_suffix(p1 + p2 + p3, p4, 1);
            lemma_only_lacks(p3, 3, 1);
            lemma_agree_suffix(p1 + p2, p3, 1);
            lemma_only_lacks(p2, 2, 1);
            lemma_agree_suffix(p1, p2, 1);
        }
        assert(all_text(fs, 2) && self.stream_id@ == string_value(fs, 2)) by {
            lemma_only_lacks(p4, 4, 2);
            lemma_agree_suffix(p1 + p2 + p3, p4, 2);
            lemma_only_lacks(p3, 3, 2);
            lemma_agree_suffix(p1 + p2, p3, 2);
            lemma_only_lacks(p1, 1, 2);
            lemma_agree_prefix(p1, p2, 2);
        }
        assert((all_of_type(fs, 3, 2) && Stream::option_decodable(message_value(fs, 3))) && Stream::option_decoded_from(self.stream, message_value(fs, 3))) by {
            lemma_only_lacks(p4, 4, 3);
            lemma_agree_suffix(p1 + p2 + p3, p4, 3);
            lemma_only_lacks(p1, 1, 3);
            lemma_only_lacks(p2, 2, 3);
            lemma_no_field_add(p1, p2, 3);
            lemma_agree_prefix(p1 + p2, p3, 3);
            match self.stream {
                Some(m) => {
                    assert(fs[(p1 + p2).len() as int] == p3[0]);
                    m.lemma_round_trip();
                },
                None => {},
            }
        }
        assert(all_text(fs, 4) && self.request_id@ == string_value(fs, 4)) by {
            lemma_only_lacks(p1, 1, 4);
            lemma_only_lacks(p2, 2, 4);
            lemma_no_field_add(p1, p2, 4);
            lemma_only_lacks(p3, 3, 4);
            lemma_no_field_add(p1 + p2, p3, 4);
            lemma_agree_prefix(p1 + p2 + p3, p4, 4);
        }
    }
}

/// Request message for 'UpdateStream'.
#[derive(Clone, Debug, PartialEq, Default)]
pub struct UpdateStreamRequest {
    /// Required. The fields of the Stream resource that the update overwrites; all
    /// of them when no mask is given.
    pub update_mask: Option<FieldMask>,
    /// Required. The stream resource to update.
    pub stream: Option<Stream>,
    /// Optional. A request ID that identifies the request, so that a server can
    /// ignore a retry of a request that it has already completed. It must be a
    /// valid UUID other than the zero UUID.
    pub request_id: String,
}

impl UpdateStreamRequest {
    /// The fields of this message in field-number order, the ones that
    /// hold a default value left out.
    pub open spec fn fields(&self) -> Seq<FieldV> {
        message_field(1, FieldMask::option_encoding(self.update_mask))
            + message_field(2, Stream::option_encoding(self.stream))
            + string_field(3, self.request_id@)
    }

    /// The wire encoding of this message.
    pub open spec fn spec_encoding(&self) -> Seq<u8> {
        fields_bytes(self.fields())
    }

    /// The decoded fields `fs` are well-formed for this message: each
    /// field has its declared wire type and each nested part decodes.
    pub open spec fn decodable(fs: Seq<FieldV>) -> bool {
        &&& (all_of_type(fs, 1, 2) && FieldMask::option_decodable(message_value(fs, 1)))
        &&& (all_of_type(fs, 2, 2) && Stream::option_decodable(message_value(fs, 2)))
        &&& all_text(fs, 3)
    }

    /// The encoding of an optional nested message of this type.
    pub open spec fn option_encoding(m: Option<Self>) -> Option<Seq<u8>> {
        match m {
            Some(m) => Some(m.spec_encoding()),
            None => None,
        }
    }

    /// An optional nested message of this type, as bytes to decode, is
    /// well-formed.
    pub open spec fn option_decodable(b: Option<Seq<u8>>) -> bool {
        match b {
            Some(b) => Self::decodable_bytes(b),
            None => true,
        }
    }

    /// `m` is the optional nested message that the bytes `b` decode to.
    pub open spec fn option_decoded_from(m: Option<Self>, b: Option<Seq<u8>>) -> bool {
        match b {
            Some(b) => m matches Some(m) && m.decoded_from(parse_fields(b)->Some_0),
            None => m is None,
        }
    }

    /// `b` is a well-formed encoding of this message.
    pub open spec fn decodable_bytes(b: Seq<u8>) -> bool {
        parse_fields(b) matches Some(fs) && Self::decodable(fs)
    }

    /// This message is the one that the decoded fields `fs` describe.
    pub open spec fn decoded_from(&self, fs: Seq<FieldV>) -> bool {
        &&& FieldMask::option_decoded_from(self.update_mask, message_value(fs, 1))
        &&& Stream::option_decoded_from(self.stream, message_value(fs, 2))
        &&& self.request_id@ == string_value(fs, 3)
    }

    /// The fields of this message, ready to be written.
    pub fn to_fields(&self) -> (r: Vec<Field>)
        ensures
            fields_view(r@) == self.fields(),
    {
        let mut fs: Vec<Field> = Vec::new();
        assert(fields_view(fs@) =~= Seq::<FieldV>::empty());
        let update_mask_bytes: Option<Vec<u8>> = match &self.update_mask {
            Some(m) => Some(m.encode_to_vec()),
            None => None,
        };
        push_message(&mut fs, 1, update_mask_bytes);
        let stream_bytes: Option<Vec<u8>> = match &self.stream {
            Some(m) => Some(m.encode_to_vec()),
            None => None,
        };
        push_message(&mut fs, 2, stream_bytes);
        push_string(&mut fs, 3, &self.request_id);
        assert(fields_view(fs@) =~= self.fields());
        fs
    }

    /// The wire encoding of this message.
    pub fn encode_to_vec(&self) -> (r: Vec<u8>)
        ensures
            r@ == self.spec_encoding(),
    {
        let fs = self.to_fields();
        encode_fields(&fs)
    }

    /// The message that the decoded fields `fs` describe.
    pub fn from_fields(fs: &Vec<Field>) -> (r: Result<Self, DecodeError>)
        ensures
            r is Ok <==> Self::decodable(fields_view(fs@)),
            r matches Ok(m) ==> m.decoded_from(fields_view(fs@)),
    {
        let update_mask = match get_payloads(fs, 1) {
            Ok((_, joined)) => match joined {
                Some(b) => match FieldMask::decode(b.as_slice()) {
                    Ok(m) => Some(m),
                    Err(e) => {
                        return Err(e);
                    },
                },
                None => None,
            },
            Err(e) => {
                return Err(e);
            },
        };
        let stream = match get_payloads(fs, 2) {
            Ok((_, joined)) => match joined {
                Some(b) => match Stream::decode(b.as_slice()) {
                    Ok(m) => Some(m),
                    Err(e) => {
                        return Err(e);
                    },
                },
                None => None,
            },
            Err(e) => {
                return Err(e);
            },
        };
        let request_id = match get_string(fs, 3) {
            Ok(v) => v,
            Err(e) => {
                return Err(e);
            },
        };
        Ok(UpdateStreamRequest { update_mask, stream, request_id })
    }

    /// Decodes a message from its wire encoding.
    pub fn decode(b: &[u8]) -> (r: Result<Self, DecodeError>)
        ensures
            r is Ok <==> Self::decodable_bytes(b@),
            r matches Ok(m) ==> m.decoded_from(parse_fields(b@)->Some_0),
    {
        match decode_fields(b) {
            Ok(fs) => Self::from_fields(&fs),
            Err(e) => Err(e),
        }
    }

    /// The values that decoding gives back unchanged: the keys of each map
    /// are distinct and no float is negative zero, here and in every nested
    /// message.
    pub open spec fn canonical(&self) -> bool {
        &&& match self.update_mask { Some(m) => m.canonical(), None => true }
        &&& match self.stream { Some(m) => m.canonical(), None => true }
    }

    /// Decoding the encoding of a canonical message gives that message back.
    pub proof fn lemma_round_trip(self)
        requires
            self.spec_encoding().len() <= u64::MAX,
            self.canonical(),
        ensures
            Self::decodable_bytes(self.spec_encoding()),
            self.decoded_from(parse_fields(self.spec_encoding())->Some_0),
    {
        let p1 = message_field(1, FieldMask::option_encoding(self.update_mask));
        let p2 = message_field(2, Stream::option_encoding(self.stream));
        let p3 = string_field(3, self.request_id@);
        let fs = self.fields();
        assert(fs == p1 + p2 + p3);
        lemma_message_piece(1, FieldMask::option_encoding(self.update_mask));
        lemma_message_piece(2, Stream::option_encoding(self.stream));
        lemma_string_piece(3, self.request_id@);
        lemma_only_numbers_ok(p1, 1);
        lemma_only_numbers_ok(p2, 2);
        lemma_only_numbers_ok(p3, 3);
        lemma_numbers_ok_add(p1, p2);
        lemma_numbers_ok_add(p1 + p2, p3);
        lemma_fields_ok_when_small(fs);
        lemma_payloads_within(fs);
        assert((all_of_type(fs, 1, 2) && FieldMask::option_decodable(message_value(fs, 1))) && FieldMask::option_decoded_from(self.update_mask, message_value(fs, 1))) by {
            lemma_only_lacks(p3, 3, 1);
            lemma_agree_suffix(p1 + p2, p3, 1);
            lemma_only_lacks(p2, 2, 1);
            lemma_agree_suffix(p1, p2, 1);
            match self.update_mask {
                Some(m) => {
                    assert(fs[0] == p1[0]);
                    m.lemma_round_trip();
                },
                None => {},
            }
        }
        assert((all_of_type(fs, 2, 2) && Stream::option_decodable(message_value(fs, 2))) && Stream::option_decoded_from(self.stream, message_value(fs, 2))) by {
            lemma_only_lacks(p3, 3, 2);
            lemma_agree_suffix(p1 + p2, p3, 2);
            lemma_only_lacks(p1, 1, 2);
            lemma_agree_prefix(p1, p2, 2);
            match self.stream {
                Some(m) => {
                    assert(fs[(p1).len() as int] == p2[0]);
                    m.lemma_round_trip();
                },
                None => {},
            }
        }
        assert(all_text(fs, 3) && self.request_id@ == string_value(fs, 3)) by {
            lemma_only_lacks(p1, 1, 3);
            lemma_only_lacks(p2, 2, 3);
            lemma_no_field_add(p1, p2, 3);
            lemma_agree_prefix(p1 + p2, p3, 3);
        }
    }
}

/// Request message for 'DeleteStream'.
#[derive(Clone, Debug, PartialEq, Default)]
pub struct DeleteStreamRequest {
    /// Required. The name of the stream.
    pub name: String,
    /// Optional. A request ID that identifies the request, so that a server can
    /// ignore a retry of a request that it has already completed. It must be a
    /// valid UUID other than the zero UUID.
    pub request_id: String,
}

impl DeleteStreamRequest {
    /// The fields of this message in field-number order, the ones that
    /// hold a default value left out.
    pub open spec fn fields(&self) -> Seq<FieldV> {
        string_field(1, self.name@)
            + string_field(2, self.request_id@)
    }

    /// The wire encoding of this message.
    pub open spec fn spec_encoding(&self) -> Seq<u8> {
        fields_bytes(self.fields())
    }

    /// The decoded fields `fs` are well-formed for this message: each
    /// field has its declared wire type and each nested part decodes.
    pub open spec fn decodable(fs: Seq<FieldV>) -> bool {
        &&& all_text(fs, 1)
        &&& all_text(fs, 2)
    }

    /// The encoding of an optional nested message of this type.
    pub open spec fn option_encoding(m: Option<Self>) -> Option<Seq<u8>> {
        match m {
            Some(m) => Some(m.spec_encoding()),
            None => None,
        }
    }

    /// An optional nested message of this type, as bytes to decode, is
    /// well-formed.
    pub open spec fn option_decodable(b: Option<Seq<u8>>) -> bool {
        match b {
            Some(b) => Self::decodable_bytes(b),
            None => true,
        }
    }

    /// `m` is the optional nested message that the bytes `b` decode to.
    pub open spec fn option_decoded_from(m: Option<Self>, b: Option<Seq<u8>>) -> bool {
        match b {
            Some(b) => m matches Some(m) && m.decoded_from(parse_fields(b)->Some_0),
            None => m is None,
        }
    }

    /// `b` is a well-formed encoding of this message.
    pub open spec fn decodable_bytes(b: Seq<u8>) -> bool {
        parse_fields(b) matches Some(fs) && Self::decodable(fs)
    }

    /// This message is the one that the decoded fields `fs` describe.
    pub open spec fn decoded_from(&self, fs: Seq<FieldV>) -> bool {
        &&& self.name@ == string_value(fs, 1)
        &&& self.request_id@ == string_value(fs, 2)
    }

    /// The fields of this message, ready to be written.
    pub fn to_fields(&self) -> (r: Vec<Field>)
        ensures
            fields_view(r@) == self.fields(),
    {
        let mut fs: Vec<Field> = Vec::new();
        assert(fields_view(fs@) =~= Seq::<FieldV>::empty());
        push_string(&mut fs, 1, &self.name);
        push_string(&mut fs, 2, &self.request_id);
        assert(fields_view(fs@) =~= self.fields());
        fs
    }

    /// The wire encoding of this message.
    pub fn encode_to_vec(&self) -> (r: Vec<u8>)
        ensures
            r@ == self.spec_encoding(),
    {
        let fs = self.to_fields();
        encode_fields(&fs)
    }

    /// The message that the decoded fields `fs` describe.
    pub fn from_fields(fs: &Vec<Field>) -> (r: Result<Self, DecodeError>)
        ensures
            r is Ok <==> Self::decodable(fields_view(fs@)),
            r matches Ok(m) ==> m.decoded_from(fields_view(fs@)),
    {
        let name = match get_string(fs, 1) {
            Ok(v) => v,
            Err(e) => {
                return Err(e);
            },
        };
        let request_id = match get_string(fs, 2) {
            Ok(v) => v,
            Err(e) => {
                return Err(e);
            },
        };
        Ok(DeleteStreamRequest { name, request_id })
    }

    /// Decodes a message from its wire encoding.
    pub fn decode(b: &[u8]) -> (r: Result<Self, DecodeError>)
        ensures
            r is Ok <==> Self::decodable_bytes(b@),
            r matches Ok(m) ==> m.decoded_from(parse_fields(b@)->Some_0),
    {
        match decode_fields(b) {
            Ok(fs) => Self::from_fields(&fs),
            Err(e) => Err(e),
        }
    }

    /// The values that decoding gives back unchanged: the keys of each map
    /// are distinct and no float is negative zero, here and in every nested
    /// message.
    pub open spec fn canonical(&self) -> bool {
        true
    }

    /// Decoding the encoding of a canonical message gives that message back.
    pub proof fn lemma_round_trip(self)
        requires
            self.spec_encoding().len() <= u64::MAX,
            self.canonical(),
        ensures
            Self::decodable_bytes(self.spec_encoding()),
            self.decoded_from(parse_fields(self.spec_encoding())->Some_0),
    {
        let p1 = string_field(1, self.name@);
        let p2 = string_field(2, self.request_id@);
        let fs = self.fields();
        assert(fs == p1 + p2);
        lemma_string_piece(1, self.name@);
        lemma_string_piece(2, self.request_id@);
        lemma_only_numbers_ok(p1, 1);
        lemma_only_numbers_ok(p2, 2);
        lemma_numbers_ok_add(p1, p2);
        lemma_fields_ok_when_small(fs);
        lemma_payloads_within(fs);
        assert(all_text(fs, 1) && self.name@ == string_value(fs, 1)) by {
            lemma_only_lacks(p2, 2, 1);
            lemma_agree_suffix(p1, p2, 1);
        }
        assert(all_text(fs, 2) && self.request_id@ == string_value(fs, 2)) by {
            lemma_only_lacks(p1, 1, 2);
            lemma_agree_prefix(p1, p2, 2);
        }
    }
}

/// The metadata of a long-running operation.
#[derive(Clone, Debug, PartialEq, Default)]
pub struct OperationMetadata {
    /// Output only. The time the operation was created.
    pub create_time: Option<Timestamp>,
    /// Output only. The time the operation finished running.
    pub end_time: Option<Timestamp>,
    /// Output only. Server-defined resource path for the target of the operation.
    pub target: String,
    /// Output only. Name of the verb executed by the operation.
    pub verb: String,
    /// Output only. Human-readable status of the operation, if any.
    pub status_message: String,
    /// Output only. Whether the user has requested cancellation of the
    /// operation.
    pub requested_cancellation: bool,
    /// Output only. API version used to start the operation.
    pub api_version: String,
}

impl OperationMetadata {
    /// The fields of this message in field-number order, the ones that
    /// hold a default value left out.
    pub open spec fn fields(&self) -> Seq<FieldV> {
        message_field(1, Timestamp::option_encoding(self.create_time))
            + message_field(2, Timestamp::option_encoding(self.end_time))
            + string_field(3, self.target@)
            + string_field(4, self.verb@)
            + string_field(5, self.status_message@)
            + bool_field(6, self.requested_cancellation)
            + string_field(7, self.api_version@)
    }

    /// The wire encoding of this message.
    pub open spec fn spec_encoding(&self) -> Seq<u8> {
        fields_bytes(self.fields())
    }

    /// The decoded fields `fs` are well-formed for this message: each
    /// field has its declared wire type and each nested part decodes.
    pub open spec fn decodable(fs: Seq<FieldV>) -> bool {
        &&& (all_of_type(fs, 1, 2) && Timestamp::option_decodable(message_value(fs, 1)))
        &&& (all_of_type(fs, 2, 2) && Timestamp::option_decodable(message_value(fs, 2)))
        &&& all_text(fs, 3)
        &&& all_text(fs, 4)
        &&& all_text(fs, 5)
        &&& all_of_type(fs, 6, 0)
        &&& all_text(fs, 7)
    }

    /// The encoding of an optional nested message of this type.
    pub open spec fn option_encoding(m: Option<Self>) -> Option<Seq<u8>> {
        match m {
            Some(m) => Some(m.spec_encoding()),
            None => None,
        }
    }

    /// An optional nested message of this type, as bytes to decode, is
    /// well-formed.
    pub open spec fn option_decodable(b: Option<Seq<u8>>) -> bool {
        match b {
            Some(b) => Self::decodable_bytes(b),
            None => true,
        }
    }

    /// `m` is the optional nested message that the bytes `b` decode to.
    pub open spec fn option_decoded_from(m: Option<Self>, b: Option<Seq<u8>>) -> bool {
        match b {
            Some(b) => m matches Some(m) && m.decoded_from(parse_fields(b)->Some_0),
            None => m is None,
        }
    }

    /// `b` is a well-formed encoding of this message.
    pub open spec fn decodable_bytes(b: Seq<u8>) -> bool {
        parse_fields(b) matches Some(fs) && Self::decodable(fs)
    }

    /// This message is the one that the decoded fields `fs` describe.
    pub open spec fn decoded_from(&self, fs: Seq<FieldV>) -> bool {
        &&& Timestamp::option_decoded_from(self.create_time, message_value(fs, 1))
        &&& Timestamp::option_decoded_from(self.end_time, message_value(fs, 2))
        &&& self.target@ == string_value(fs, 3)
        &&& self.verb@ == string_value(fs, 4)
        &&& self.status_message@ == string_value(fs, 5)
        &&& self.requested_cancellation == (varint_value(fs, 6) != 0)
        &&& self.api_version@ == string_value(fs, 7)
    }

    /// The fields of this message, ready to be written.
    pub fn to_fields(&self) -> (r: Vec<Field>)
        ensures
            fields_view(r@) == self.fields(),
    {
        let mut fs: Vec<Field> = Vec::new();
        assert(fields_view(fs@) =~= Seq::<FieldV>::empty());
        let create_time_bytes: Option<Vec<u8>> = match &self.create_time {
            Some(m) => Some(m.encode_to_vec()),
            None => None,
        };
        push_message(&mut fs, 1, create_time_bytes);
        let end_time_bytes: Option<Vec<u8>> = match &self.end_time {
            Some(m) => Some(m.encode_to_vec()),
            None => None,
        };
        push_message(&mut fs, 2, end_time_bytes);
        push_string(&mut fs, 3, &self.target);
        push_string(&mut fs, 4, &self.verb);
        push_string(&mut fs, 5, &self.status_message);
        push_bool(&mut fs, 6, self.requested_cancellation);
        push_string(&mut fs, 7, &self.api_version);
        assert(fields_view(fs@) =~= self.fields());
        fs
    }

    /// The wire encoding of this message.
    pub fn encode_to_vec(&self) -> (r: Vec<u8>)
        ensures
            r@ == self.spec_encoding(),
    {
        let fs = self.to_fields();
        encode_fields(&fs)
    }

    /// The message that the decoded fields `fs` describe.
    pub fn from_fields(fs: &Vec<Field>) -> (r: Result<Self, DecodeError>)
        ensures
            r is Ok <==> Self::decodable(fields_view(fs@)),
            r matches Ok(m) ==> m.decoded_from(fields_view(fs@)),
    {
        let create_time = match get_payloads(fs, 1) {
            Ok((_, joined)) => match joined {
                Some(b) => match Timestamp::decode(b.as_slice()) {
                    Ok(m) => Some(m),
                    Err(e) => {
                        return Err(e);
                    },
                },
                None => None,
            },
            Err(e) => {
                return Err(e);
            },
        };
        let end_time = match get_payloads(fs, 2) {
            Ok((_, joined)) => match joined {
                Some(b) => match Timestamp::decode(b.as_slice()) {
                    Ok(m) => Some(m),
                    Err(e) => {
                        return Err(e);
                    },
                },
                None => None,
            },
            Err(e) => {
                return Err(e);
            },
        };
        let target = match get_string(fs, 3) {
            Ok(v) => v,
            Err(e) => {
                return Err(e);
            },
        };
        let verb = match get_string(fs, 4) {
            Ok(v) => v,
            Err(e) => {
                return Err(e);
            },
        };
        let status_message = match get_string(fs, 5) {
            Ok(v) => v,
            Err(e) => {
                return Err(e);
            },
        };
        let requested_cancellation = match get_varint_value(fs, 6) {
            Ok(v) => v != 0,
            Err(e) => {
                return Err(e);
            },
        };
        let api_version = match get_string(fs, 7) {
            Ok(v) => v,
            Err(e) => {
                return Err(e);
            },
        };
        Ok(OperationMetadata { create_time, end_time, target, verb, status_message, requested_cancellation, api_version })
    }

    /// Decodes a message from its wire encoding.
    pub fn decode(b: &[u8]) -> (r: Result<Self, DecodeError>)
        ensures
            r is Ok <==> Self::decodable_bytes(b@),
            r matches Ok(m) ==> m.decoded_from(parse_fields(b@)->Some_0),
    {
        match decode_fields(b) {
            Ok(fs) => Self::from_fields(&fs),
            Err(e) => Err(e),
        }
    }

    /// The values that decoding gives back unchanged: the keys of each map
    /// are distinct and no float is negative zero, here and in every nested
    /// message.
    pub open spec fn canonical(&self) -> bool {
        &&& match self.create_time { Some(m) => m.canonical(), None => true }
        &&& match self.end_time { Some(m) => m.canonical(), None => true }
    }

    /// Decoding the encoding of a canonical message gives that message back.
    pub proof fn lemma_round_trip(self)
        requires
            self.spec_encoding().len() <= u64::MAX,
            self.canonical(),
        ensures
            Self::decodable_bytes(self.spec_encoding()),
            self.decoded_from(parse_fields(self.spec_encoding())->Some_0),
    {
        let p1 = message_field(1, Timestamp::option_encoding(self.create_time));
        let p2 = message_field(2, Timestamp::option_encoding(self.end_time));
        let p3 = string_field(3, self.target@);
        let p4 = string_field(4, self.verb@);
        let p5 = string_field(5, self.status_message@);
        let p6 = bool_field(6, self.requested_cancellation);
        let p7 = string_field(7, self.api_version@);
        let fs = self.fields();
        assert(fs == p1 + p2 + p3 + p4 + p5 + p6 + p7);
        lemma_message_piece(1, Timestamp::option_encoding(self.create_time));
        lemma_message_piece(2, Timestamp::option_encoding(self.end_time));
        lemma_string_piece(3, self.target@);
        lemma_string_piece(4, self.verb@);
        lemma_string_piece(5, self.status_message@);
        lemma_varint_piece(6, if self.requested_cancellation { 1 } else { 0 });
        lemma_string_piece(7, self.api_version@);
        lemma_only_numbers_ok(p1, 1);
        lemma_only_numbers_ok(p2, 2);
        lemma_only_numbers_ok(p3, 3);
        lemma_only_numbers_ok(p4, 4);
        lemma_only_numbers_ok(p5, 5);
        lemma_only_numbers_ok(p6, 6);
        lemma_only_numbers_ok(p7, 7);
        lemma_numbers_ok_add(p1, p2);
        lemma_numbers_ok_add(p1 + p2, p3);
        lemma_numbers_ok_add(p1 + p2 + p3, p4);
        lemma_numbers_ok_add(p1 + p2 + p3 + p4, p5);
        lemma_numbers_ok_add(p1 + p2 + p3 + p4 + p5, p6);
        lemma_numbers_ok_add(p1 + p2 + p3 + p4 + p5 + p6, p7);
        lemma_fields_ok_when_small(fs);
        lemma_payloads_within(fs);
        assert((all_of_type(fs, 1, 2) && Timestamp::option_decodable(message_value(fs, 1))) && Timestamp::option_decoded_from(self.create_time, message_value(fs, 1))) by {
            lemma_only_lacks(p7, 7, 1);
            lemma_agree_suffix(p1 + p2 + p3 + p4 + p5 + p6, p7, 1);
            lemma_only_lacks(p6, 6, 1);
            lemma_agree_suffix(p1 + p2 + p3 + p4 + p5, p6, 1);
            lemma_only_lacks(p5, 5, 1);
            lemma_agree_suffix(p1 + p2 + p3 + p4, p5, 1);
            lemma_only_lacks(p4, 4, 1);
            lemma_agree_suffix(p1 + p2 + p3, p4, 1);
            lemma_only_lacks(p3, 3, 1);
            lemma_agree_suffix(p1 + p2, p3, 1);
            lemma_only_lacks(p2, 2, 1);
            lemma_agree_suffix(p1, p2, 1);
            match self.create_time {
                Some(m) => {
                    assert(fs[0] == p1[0]);
                    m.lemma_round_trip();
                },
                None => {},
            }
        }
        assert((all_of_type(fs, 2, 2) && Timestamp::option_decodable(message_value(fs, 2))) && Timestamp::option_decoded_from(self.end_time, message_value(fs, 2))) by {
            lemma_only_lacks(p7, 7, 2);
            lemma_agree_suffix(p1 + p2 + p3 + p4 + p5 + p6, p7, 2);
            lemma_only_lacks(p6, 6, 2);
            lemma_agree_suffix(p1 + p2 + p3 + p4 + p5, p6, 2);
            lemma_only_lacks(p5, 5, 2);
            lemma_agree_suffix(p1 + p2 + p3 + p4, p5, 2);
            lemma_only_lacks(p4, 4, 2);
            lemma_agree_suffix(p1 + p2 + p3, p4, 2);
            lemma_only_lacks(p3, 3, 2);
            lemma_agree_suffix(p1 + p2, p3, 2);
            lemma_only_lacks(p1, 1, 2);
            lemma_agree_prefix(p1, p2, 2);
            match self.end_time {
                Some(m) => {
                    assert(fs[(p1).len() as int] == p2[0]);
                    m.lemma_round_trip();
                },
                None => {},
            }
        }
        assert(all_text(fs, 3) && self.target@ == string_value(fs, 3)) by {
            lemma_only_lacks(p7, 7, 3);
            lemma_agree_suffix(p1 + p2 + p3 + p4 + p5 + p6, p7, 3);
            lemma_only_lacks(p6, 6, 3);
            lemma_agree_suffix(p1 + p2 + p3 + p4 + p5, p6, 3);
            lemma_only_lacks(p5, 5, 3);
            lemma_agree_suffix(p1 + p2 + p3 + p4, p5, 3);
            lemma_only_lacks(p4, 4, 3);
            lemma_agree_suffix(p1 + p2 + p3, p4, 3);
            lemma_only_lacks(p1, 1, 3);
            lemma_only_lacks(p2, 2, 3);
            lemma_no_field_add(p1, p2, 3);
            lemma_agree_prefix(p1 + p2, p3, 3);
        }
        assert(all_text(fs, 4) && self.verb@ == string_value(fs, 4)) by {
            lemma_only_lacks(p7, 7, 4);
            lemma_agree_suffix(p1 + p2 + p3 + p4 + p5 + p6, p7, 4);
            lemma_only_lacks(p6, 6, 4);
            lemma_agree_suffix(p1 + p2 + p3 + p4 + p5, p6, 4);
            lemma_only_lacks(p5, 5, 4);
            lemma_agree_suffix(p1 + p2 + p3 + p4, p5, 4);
            lemma_only_lacks(p1, 1, 4);
            lemma_only_lacks(p2, 2, 4);
            lemma_no_field_add(p1, p2, 4);
            lemma_only_lacks(p3, 3, 4);
            lemma_no_field_add(p1 + p2, p3, 4);
            lemma_agree_prefix(p1 + p2 + p3, p4, 4);
        }
        assert(all_text(fs, 5) && self.status_message@ == string_value(fs, 5)) by {
            lemma_only_lacks(p7, 7, 5);
            lemma_agree_suffix(p1 + p2 + p3 + p4 + p5 + p6, p7, 5);
            lemma_only_lacks(p6, 6, 5);
            lemma_agree_suffix(p1 + p2 + p3 + p4 + p5, p6, 5);
            lemma_only_lacks(p1, 1, 5);
            lemma_only_lacks(p2, 2, 5);
            lemma_no_field_add(p1, p2, 5);
            lemma_only_lacks(p3, 3, 5);
            lemma_no_field_add(p1 + p2, p3, 5);
            lemma_only_lacks(p4, 4, 5);
            lemma_no_field_add(p1 + p2 + p3, p4, 5);
            lemma_agree_prefix(p1 + p2 + p3 + p4, p5, 5);
        }
        assert(all_of_type(fs, 6, 0) && self.requested_cancellation == (varint_value(fs, 6) != 0)) by {
            lemma_only_lacks(p7, 7, 6);
            lemma_agree_suffix(p1 + p2 + p3 + p4 + p5 + p6, p7, 6);
            lemma_only_lacks(p1, 1, 6);
            lemma_only_lacks(p2, 2, 6);
            lemma_no_field_add(p1, p2, 6);
            lemma_only_lacks(p3, 3, 6);
            lemma_no_field_add(p1 + p2, p3, 6);
            lemma_only_lacks(p4, 4, 6);
            lemma_no_field_add(p1 + p2 + p3, p4, 6);
            lemma_only_lacks(p5, 5, 6);
            lemma_no_field_add(p1 + p2 + p3 + p4, p5, 6);
            lemma_agree_prefix(p1 + p2 + p3 + p4 + p5, p6, 6);
        }
        assert(all_text(fs, 7) && self.api_version@ == string_value(fs, 7)) by {
            lemma_only_lacks(p1, 1, 7);
            lemma_only_lacks(p2, 2, 7);
            lemma_no_field_add(p1, p2, 7);
            lemma_only_lacks(p3, 3, 7);
            lemma_no_field_add(p1 + p2, p3, 7);
            lemma_only_lacks(p4, 4, 7);
            lemma_no_field_add(p1 + p2 + p3, p4, 7);
            lemma_only_lacks(p5, 5, 7);
            lemma_no_field_add(p1 + p2 + p3 + p4, p5, 7);
            lemma_only_lacks(p6, 6, 7);
            lemma_no_field_add(p1 + p2 + p3 + p4 + p5, p6, 7);
            lemma_agree_prefix(p1 + p2 + p3 + p4 + p5 + p6, p7, 7);
        }
    }
}

} // verus!
