//! Nested types of `TokenProperties`.
use vstd::prelude::*;

verus! {

/// The types of invalid token reasons.
#[derive(Clone, Copy, Debug, PartialEq, Eq, Hash, PartialOrd, Ord)]
pub enum InvalidReason {
    /// Default unspecified type.
    Unspecified,
    /// If the failure reason was not accounted for.
    UnknownInvalidReason,
    /// The provided user verification token was malformed.
    Malformed,
    /// The user verification token had expired.
    Expired,
    /// The user verification had already been seen.
    Dupe,
    /// The user verification token was not present.
    Missing,
}

impl InvalidReason {
    /// The number that stands for this value on the wire.
    pub open spec fn spec_value(self) -> i32 {
        match self {
            InvalidReason::Unspecified => 0,
            InvalidReason::UnknownInvalidReason => 1,
            InvalidReason::Malformed => 2,
            InvalidReason::Expired => 3,
            InvalidReason::Dupe => 4,
            InvalidReason::Missing => 5,
        }
    }

    /// The number that stands for this value on the wire.
    pub fn value(self) -> (r: i32)
        ensures
            r == self.spec_value(),
    {
        match self {
            InvalidReason::Unspecified => 0,
            InvalidReason::UnknownInvalidReason => 1,
            InvalidReason::Malformed => 2,
            InvalidReason::Expired => 3,
            InvalidReason::Dupe => 4,
            InvalidReason::Missing => 5,
        }
    }

    /// The value that the number `v` stands for, if any.
    pub fn from_i32(v: i32) -> (r: Option<Self>)
        ensures
            r is Some <==> 0 <= v < 6,
            r matches Some(e) ==> e.spec_value() == v,
    {
        match v {
            0 => Some(InvalidReason::Unspecified),
            1 => Some(InvalidReason::UnknownInvalidReason),
            2 => Some(InvalidReason::Malformed),
            3 => Some(InvalidReason::Expired),
            4 => Some(InvalidReason::Dupe),
            5 => Some(InvalidReason::Missing),
            _ => None,
        }
    }

    /// Whether the number `v` stands for a value.
    pub fn is_valid(v: i32) -> (r: bool)
        ensures
            r == (0 <= v < 6),
    {
        0 <= v && v < 6
    }
}

} // verus!
