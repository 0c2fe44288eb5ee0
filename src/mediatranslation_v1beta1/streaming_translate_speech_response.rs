//! Nested types of `StreamingTranslateSpeechResponse`.
use vstd::prelude::*;

verus! {

/// The type of a speech event.
#[derive(Clone, Copy, Debug, PartialEq, Eq, Hash, PartialOrd, Ord)]
pub enum SpeechEventType {
    /// No speech event specified.
    Unspecified,
    /// The server has detected the end of the user's speech utterance and expects
    /// no additional speech; sent only when `single_utterance` was set.
    EndOfSingleUtterance,
}

impl SpeechEventType {
    /// The number that stands for this value on the wire.
    pub open spec fn spec_value(self) -> i32 {
        match self {
            SpeechEventType::Unspecified => 0,
            SpeechEventType::EndOfSingleUtterance => 1,
        }
    }

    /// The number that stands for this value on the wire.
    pub fn value(self) -> (r: i32)
        ensures
            r == self.spec_value(),
    {
        match self {
            SpeechEventType::Unspecified => 0,
            SpeechEventType::EndOfSingleUtterance => 1,
        }
    }

    /// The value that the number `v` stands for, if any.
    pub fn from_i32(v: i32) -> (r: Option<Self>)
        ensures
            r is Some <==> 0 <= v < 2,
            r matches Some(e) ==> e.spec_value() == v,
    {
        match v {
            0 => Some(SpeechEventType::Unspecified),
            1 => Some(SpeechEventType::EndOfSingleUtterance),
            _ => None,
        }
    }

    /// Whether the number `v` stands for a value.
    pub fn is_valid(v: i32) -> (r: bool)
        ensures
            r == (0 <= v < 2),
    {
        0 <= v && v < 2
    }
}

} // verus!
