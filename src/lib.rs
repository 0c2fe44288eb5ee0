//! Protocol-buffer messages of the media translation, reCAPTCHA Enterprise
//! and AI Streams APIs, with a verified codec for their binary wire format.
//!
//! - [`wire`]: base-128 varints and fixed-width integers.
//! - [`field`]: a message as a sequence of numbered fields, encoded and
//!   parsed; parsing an encoding gives the same fields back.
//! - [`codec`]: how each kind of value (scalar, string, nested message,
//!   repeated value, oneof, string map) becomes fields and is read back.
//! - [`roundtrip`]: the lemmas behind each message's round-trip law.
//! - [`protobuf`], [`rpc`], [`longrunning`]: the well-known and shared
//!   messages that the APIs use.
//! - [`mediatranslation_v1beta1`], [`recaptchaenterprise_v1`],
//!   [`aistreams_v1alpha1`]: the messages of the three APIs.
//!
//! Every message type `M` has `encode_to_vec`, whose result is exactly
//! `M::spec_encoding`, and `decode`, which succeeds exactly on the bytes
//! that `M::decodable_bytes` accepts and returns the message that
//! `decoded_from` describes. `M::lemma_round_trip` proves that decoding the
//! encoding of a canonical message describes that same message.
pub mod wire;
pub mod field;
pub mod codec;
pub mod roundtrip;
pub mod protobuf;
pub mod rpc;
pub mod longrunning;
pub mod mediatranslation_v1beta1;
pub mod recaptchaenterprise_v1;
pub mod aistreams_v1alpha1;
