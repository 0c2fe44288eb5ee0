//! Nested types of `WebKeySettings`.
use vstd::prelude::*;

verus! {

/// The integration types for web keys.
#[derive(Clone, Copy, Debug, PartialEq, Eq, Hash, PartialOrd, Ord)]
pub enum IntegrationType {
    /// Not specified; not a valid integration type.
    Unspecified,
    /// Only used to produce scores. It doesn't display the "I'm not a robot"
    /// checkbox and never shows captcha challenges.
    Score,
    /// Displays the "I'm not a robot" checkbox and may show captcha challenges
    /// after it is checked.
    Checkbox,
    /// Doesn't display the "I'm not a robot" checkbox, but may show captcha
    /// challenges after risk analysis.
    Invisible,
}

impl IntegrationType {
    /// The number that stands for this value on the wire.
    pub open spec fn spec_value(self) -> i32 {
        match self {
            IntegrationType::Unspecified => 0,
            IntegrationType::Score => 1,
            IntegrationType::Checkbox => 2,
            IntegrationType::Invisible => 3,
        }
    }

    /// The number that stands for this value on the wire.
    pub fn value(self) -> (r: i32)
        ensures
            r == self.spec_value(),
    {
        match self {
            IntegrationType::Unspecified => 0,
            IntegrationType::Score => 1,
            IntegrationType::Checkbox => 2,
            IntegrationType::Invisible => 3,
        }
    }

    /// The value that the number `v` stands for, if any.
    pub fn from_i32(v: i32) -> (r: Option<Self>)
        ensures
            r is Some <==> 0 <= v < 4,
            r matches Some(e) ==> e.spec_value() == v,
    {
        match v {
            0 => Some(IntegrationType::Unspecified),
            1 => Some(IntegrationType::Score),
            2 => Some(IntegrationType::Checkbox),
            3 => Some(IntegrationType::Invisible),
            _ => None,
        }
    }

    /// Whether the number `v` stands for a value.
    pub fn is_valid(v: i32) -> (r: bool)
        ensures
            r == (0 <= v < 4),
    {
        0 <= v && v < 4
    }
}

/// The possible challenge frequency and difficulty configurations for a web
/// key.
#[derive(Clone, Copy, Debug, PartialEq, Eq, Hash, PartialOrd, Ord)]
pub enum ChallengeSecurityPreference {
    /// Default type that indicates this enum hasn't been specified.
    Unspecified,
    /// Key tends to show fewer and easier challenges.
    Usability,
    /// Key tends to show balanced (in amount and difficulty) challenges.
    Balance,
    /// Key tends to show more and harder challenges.
    Security,
}

impl ChallengeSecurityPreference {
    /// The number that stands for this value on the wire.
    pub open spec fn spec_value(self) -> i32 {
        match self {
            ChallengeSecurityPreference::Unspecified => 0,
            ChallengeSecurityPreference::Usability => 1,
            ChallengeSecurityPreference::Balance => 2,
            ChallengeSecurityPreference::Security => 3,
        }
    }

    /// The number that stands for this value on the wire.
    pub fn value(self) -> (r: i32)
        ensures
            r == self.spec_value(),
    {
        match self {
            ChallengeSecurityPreference::Unspecified => 0,
            ChallengeSecurityPreference::Usability => 1,
            ChallengeSecurityPreference::Balance => 2,
            ChallengeSecurityPreference::Security => 3,
        }
    }

    /// The value that the number `v` stands for, if any.
    pub fn from_i32(v: i32) -> (r: Option<Self>)
        ensures
            r is Some <==> 0 <= v < 4,
            r matches Some(e) ==> e.spec_value() == v,
    {
        match v {
            0 => Some(ChallengeSecurityPreference::Unspecified),
            1 => Some(ChallengeSecurityPreference::Usability),
            2 => Some(ChallengeSecurityPreference::Balance),
            3 => Some(ChallengeSecurityPreference::Security),
            _ => None,
        }
    }

    /// Whether the number `v` stands for a value.
    pub fn is_valid(v: i32) -> (r: bool)
        ensures
            r == (0 <= v < 4),
    {
        0 <= v && v < 4
    }
}

} // verus!
