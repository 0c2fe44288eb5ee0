//! Nested types of `Key`.
use vstd::prelude::*;
use crate::codec::payload_field;
use crate::field::{FieldV, parse_fields};

verus! {

/// Platform specific settings for a key. The key can only be used on one
/// platform, the one it has settings for.
#[derive(Clone, Debug, PartialEq)]
pub enum PlatformSettings {
    /// Settings for keys that can be used by websites.
    WebSettings(super::WebKeySettings),
    /// Settings for keys that can be used by Android apps.
    AndroidSettings(super::AndroidKeySettings),
    /// Settings for keys that can be used by iOS apps.
    IosSettings(super::IosKeySettings),
}

impl PlatformSettings {
    /// The field that an optional member becomes: none when absent.
    pub open spec fn option_fields(o: Option<Self>) -> Seq<FieldV> {
        match o {
            Some(PlatformSettings::WebSettings(m)) => payload_field(3, m.spec_encoding()),
            Some(PlatformSettings::AndroidSettings(m)) => payload_field(4, m.spec_encoding()),
            Some(PlatformSettings::IosSettings(m)) => payload_field(5, m.spec_encoding()),
            None => seq![],
        }
    }

    /// The member that the oneof reading `v` gives is well-formed.
    pub open spec fn decodable(v: Option<(u32, Seq<u8>, Seq<u8>)>) -> bool {
        match v {
            Some((t, j, l)) => if t == 3 {
                super::WebKeySettings::decodable_bytes(j)
            } else if t == 4 {
                super::AndroidKeySettings::decodable_bytes(j)
            } else {
                super::IosKeySettings::decodable_bytes(j)
            },
            None => true,
        }
    }

    /// `o` is the member that the oneof reading `v` gives.
    pub open spec fn decoded_from(o: Option<Self>, v: Option<(u32, Seq<u8>, Seq<u8>)>) -> bool {
        match v {
            Some((t, j, l)) => if t == 3 {
                o matches Some(PlatformSettings::WebSettings(m)) && m.decoded_from(parse_fields(j)->Some_0)
            } else if t == 4 {
                o matches Some(PlatformSettings::AndroidSettings(m)) && m.decoded_from(parse_fields(j)->Some_0)
            } else {
                o matches Some(PlatformSettings::IosSettings(m)) && m.decoded_from(parse_fields(j)->Some_0)
            },
            None => o is None,
        }
    }
}

} // verus!
