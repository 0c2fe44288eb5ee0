//! Nested types of `StreamingTranslateSpeechRequest`.
use vstd::prelude::*;
use crate::codec::payload_field;
use crate::field::{FieldV, parse_fields};

verus! {

/// The streaming request, which is either a streaming config or content.
#[derive(Clone, Debug, PartialEq)]
pub enum StreamingRequest {
    /// How to process the request; the first request message must hold it.
    StreamingConfig(super::StreamingTranslateSpeechConfig),
    /// The audio data to be translated, in sequential chunks, encoded as the
    /// config says.
    AudioContent(Vec<u8>),
}

impl StreamingRequest {
    /// The field that an optional member becomes: none when absent.
    pub open spec fn option_fields(o: Option<Self>) -> Seq<FieldV> {
        match o {
            Some(StreamingRequest::StreamingConfig(m)) => payload_field(1, m.spec_encoding()),
            Some(StreamingRequest::AudioContent(b)) => payload_field(2, b@),
            None => seq![],
        }
    }

    /// The member that the oneof reading `v` gives is well-formed.
    pub open spec fn decodable(v: Option<(u32, Seq<u8>, Seq<u8>)>) -> bool {
        match v {
            Some((t, j, l)) => if t == 1 {
                super::StreamingTranslateSpeechConfig::decodable_bytes(j)
            } else {
                true
            },
            None => true,
        }
    }

    /// `o` is the member that the oneof reading `v` gives.
    pub open spec fn decoded_from(o: Option<Self>, v: Option<(u32, Seq<u8>, Seq<u8>)>) -> bool {
        match v {
            Some((t, j, l)) => if t == 1 {
                o matches Some(StreamingRequest::StreamingConfig(m)) && m.decoded_from(parse_fields(j)->Some_0)
            } else {
                o matches Some(StreamingRequest::AudioContent(b)) && b@ == l
            },
            None => o is None,
        }
    }
}

} // verus!
