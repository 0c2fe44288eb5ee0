//! Nested types of `RiskAnalysis`.
use vstd::prelude::*;

verus! {

/// Reasons contributing to the risk analysis verdict.
#[derive(Clone, Copy, Debug, PartialEq, Eq, Hash, PartialOrd, Ord)]
pub enum ClassificationReason {
    /// Default unspecified type.
    Unspecified,
    /// Interactions matched the behavior of an automated agent.
    Automation,
    /// The event originated from an illegitimate environment.
    UnexpectedEnvironment,
    /// Traffic volume from the event source is higher than normal.
    TooMuchTraffic,
    /// Interactions with the site were significantly different than expected patterns.
    UnexpectedUsagePatterns,
    /// Too little traffic has been received from this site thus far to generate quality risk analysis.
    LowConfidenceScore,
}

impl ClassificationReason {
    /// The number that stands for this value on the wire.
    pub open spec fn spec_value(self) -> i32 {
        match self {
            ClassificationReason::Unspecified => 0,
            ClassificationReason::Automation => 1,
            ClassificationReason::UnexpectedEnvironment => 2,
            ClassificationReason::TooMuchTraffic => 3,
            ClassificationReason::UnexpectedUsagePatterns => 4,
            ClassificationReason::LowConfidenceScore => 5,
        }
    }

    /// The number that stands for this value on the wire.
    pub fn value(self) -> (r: i32)
        ensures
            r == self.spec_value(),
    {
        match self {
            ClassificationReason::Unspecified => 0,
            ClassificationReason::Automation => 1,
            ClassificationReason::UnexpectedEnvironment => 2,
            ClassificationReason::TooMuchTraffic => 3,
            ClassificationReason::UnexpectedUsagePatterns => 4,
            ClassificationReason::LowConfidenceScore => 5,
        }
    }

    /// The value that the number `v` stands for, if any.
    pub fn from_i32(v: i32) -> (r: Option<Self>)
        ensures
            r is Some <==> 0 <= v < 6,
            r matches Some(e) ==> e.spec_value() == v,
    {
        match v {
            0 => Some(ClassificationReason::Unspecified),
            1 => Some(ClassificationReason::Automation),
            2 => Some(ClassificationReason::UnexpectedEnvironment),
            3 => Some(ClassificationReason::TooMuchTraffic),
            4 => Some(ClassificationReason::UnexpectedUsagePatterns),
            5 => Some(ClassificationReason::LowConfidenceScore),
            _ => None,
        }
    }

    /// Whether the number `v` stands for a value.
    pub fn is_valid(v: i32) -> (r: bool)
        ensures
            r == (0 <= v < 6),
    {
        0 <= v && v < 6
    }
}

} // verus!
