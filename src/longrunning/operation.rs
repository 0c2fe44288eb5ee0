//! Nested types of `Operation`.
use vstd::prelude::*;
use crate::codec::payload_field;
use crate::field::{FieldV, parse_fields};

verus! {

/// The outcome of a finished operation.
#[derive(Clone, Debug, PartialEq)]
pub enum Result {
    /// The error of a failed operation.
    Error(super::Status),
    /// The response of a successful operation.
    Response(super::Any),
}

impl Result {
    /// The field that an optional member becomes: none when absent.
    pub open spec fn option_fields(o: Option<Self>) -> Seq<FieldV> {
        match o {
            Some(Result::Error(m)) => payload_field(4, m.spec_encoding()),
            Some(Result::Response(m)) => payload_field(5, m.spec_encoding()),
            None => seq![],
        }
    }

    /// The member that the oneof reading `v` gives is well-formed.
    pub open spec fn decodable(v: Option<(u32, Seq<u8>, Seq<u8>)>) -> bool {
        match v {
            Some((t, j, l)) => if t == 4 {
                super::Status::decodable_bytes(j)
            } else {
                super::Any::decodable_bytes(j)
            },
            None => true,
        }
    }

    /// `o` is the member that the oneof reading `v` gives.
    pub open spec fn decoded_from(o: Option<Self>, v: Option<(u32, Seq<u8>, Seq<u8>)>) -> bool {
        match v {
            Some((t, j, l)) => if t == 4 {
                o matches Some(Result::Error(m)) && m.decoded_from(parse_fields(j)->Some_0)
            } else {
                o matches Some(Result::Response(m)) && m.decoded_from(parse_fields(j)->Some_0)
            },
            None => o is None,
        }
    }
}

} // verus!
