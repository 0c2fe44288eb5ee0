//! Nested types of `AnnotateAssessmentRequest`.
use vstd::prelude::*;

verus! {

/// The types of annotations.
#[derive(Clone, Copy, Debug, PartialEq, Eq, Hash, PartialOrd, Ord)]
pub enum Annotation {
    /// Default unspecified type.
    Unspecified,
    /// The event turned out to be legitimate.
    Legitimate,
    /// The event turned out to be fraudulent.
    Fraudulent,
    /// A login event in which the user typed the correct password.
    PasswordCorrect,
    /// A login event in which the user typed the incorrect password.
    PasswordIncorrect,
}

impl Annotation {
    /// The number that stands for this value on the wire.
    pub open spec fn spec_value(self) -> i32 {
        match self {
            Annotation::Unspecified => 0,
            Annotation::Legitimate => 1,
            Annotation::Fraudulent => 2,
            Annotation::PasswordCorrect => 3,
            Annotation::PasswordIncorrect => 4,
        }
    }

    /// The number that stands for this value on the wire.
    pub fn value(self) -> (r: i32)
        ensures
            r == self.spec_value(),
    {
        match self {
            Annotation::Unspecified => 0,
            Annotation::Legitimate => 1,
            Annotation::Fraudulent => 2,
            Annotation::PasswordCorrect => 3,
            Annotation::PasswordIncorrect => 4,
        }
    }

    /// The value that the number `v` stands for, if any.
    pub fn from_i32(v: i32) -> (r: Option<Self>)
        ensures
            r is Some <==> 0 <= v < 5,
            r matches Some(e) ==> e.spec_value() == v,
    {
        match v {
            0 => Some(Annotation::Unspecified),
            1 => Some(Annotation::Legitimate),
            2 => Some(Annotation::Fraudulent),
            3 => Some(Annotation::PasswordCorrect),
            4 => Some(Annotation::PasswordIncorrect),
            _ => None,
        }
    }

    /// Whether the number `v` stands for a value.
    pub fn is_valid(v: i32) -> (r: bool)
        ensures
            r == (0 <= v < 5),
    {
        0 <= v && v < 5
    }
}

} // verus!
