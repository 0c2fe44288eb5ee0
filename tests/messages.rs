use googapis::aistreams_v1alpha1::{Cluster, CreateClusterRequest, ListClustersResponse, OperationMetadata, Stream};
use googapis::codec::{decode_labels, encode_labels, insert_label};
use googapis::field::DecodeError;
use googapis::longrunning::operation;
use googapis::longrunning::Operation;
use googapis::mediatranslation_v1beta1::streaming_translate_speech_request::StreamingRequest;
use googapis::mediatranslation_v1beta1::streaming_translate_speech_response::SpeechEventType;
use googapis::mediatranslation_v1beta1::streaming_translate_speech_result::{self, TextTranslationResult};
use googapis::mediatranslation_v1beta1::{
    StreamingTranslateSpeechConfig, StreamingTranslateSpeechRequest, StreamingTranslateSpeechResponse,
    StreamingTranslateSpeechResult, TranslateSpeechConfig,
};
use googapis::protobuf::{Any, FieldMask, Timestamp};
use googapis::recaptchaenterprise_v1::annotate_assessment_request::Annotation;
use googapis::recaptchaenterprise_v1::key::PlatformSettings;
use googapis::recaptchaenterprise_v1::risk_analysis::ClassificationReason;
use googapis::recaptchaenterprise_v1::token_properties::InvalidReason;
use googapis::recaptchaenterprise_v1::web_key_settings::{ChallengeSecurityPreference, IntegrationType};
use googapis::recaptchaenterprise_v1::{
    AnnotateAssessmentRequest, AnnotateAssessmentResponse, AndroidKeySettings, Assessment, Event, GetKeyRequest,
    Key, ListKeysRequest, ListKeysResponse, RiskAnalysis, TokenProperties, WebKeySettings,
};
use googapis::rpc::Status;
use prost::Message;

fn s(x: &str) -> String {
    x.to_string()
}

#[test]
fn default_message_encodes_to_nothing() {
    assert_eq!(Event::default().encode_to_vec(), Vec::<u8>::new());
    assert_eq!(Key::default().encode_to_vec(), Vec::<u8>::new());
    assert_eq!(AnnotateAssessmentResponse::default().encode_to_vec(), Vec::<u8>::new());
    assert_eq!(AnnotateAssessmentResponse::decode(&[]), Ok(AnnotateAssessmentResponse::default()));
}

#[test]
fn string_field_encoding() {
    let e = Event { token: s("ab"), ..Default::default() };
    assert_eq!(e.encode_to_vec(), vec![0x0a, 0x02, b'a', b'b']);
    let e = Event { expected_action: s("é"), ..Default::default() };
    assert_eq!(e.encode_to_vec(), vec![0x2a, 0x02, 0xc3, 0xa9]);
}

#[test]
fn scalar_field_encoding() {
    let r = ListKeysRequest { parent: s("projects/p"), page_size: 10, page_token: s("") };
    let mut want = vec![0x0a, 0x0a];
    want.extend_from_slice(b"projects/p");
    want.extend_from_slice(&[0x10, 0x0a]);
    assert_eq!(r.encode_to_vec(), want);
}

#[test]
fn negative_int32_takes_ten_bytes() {
    let t = TranslateSpeechConfig { sample_rate_hertz: -1, ..Default::default() };
    assert_eq!(t.encode_to_vec(), vec![0x20, 0xff, 0xff, 0xff, 0xff, 0xff, 0xff, 0xff, 0xff, 0xff, 0x01]);
    assert_eq!(TranslateSpeechConfig::decode(&t.encode_to_vec()), Ok(t));
}

#[test]
fn enum_field_encoding() {
    let a = AnnotateAssessmentRequest { name: s("a"), annotation: Annotation::Fraudulent.value() };
    assert_eq!(a.encode_to_vec(), vec![0x0a, 0x01, b'a', 0x10, 0x02]);
}

#[test]
fn float_and_packed_enum_encoding() {
    let r = RiskAnalysis {
        score_bits: 0.5f32.to_bits(),
        reasons: vec![ClassificationReason::Automation.value(), ClassificationReason::TooMuchTraffic.value()],
    };
    assert_eq!(r.encode_to_vec(), vec![0x0d, 0x00, 0x00, 0x00, 0x3f, 0x12, 0x02, 0x01, 0x03]);
    assert_eq!(RiskAnalysis::decode(&r.encode_to_vec()), Ok(r));
}

#[test]
fn zero_scores_are_left_out() {
    let plus = RiskAnalysis { score_bits: 0.0f32.to_bits(), reasons: vec![] };
    let minus = RiskAnalysis { score_bits: (-0.0f32).to_bits(), reasons: vec![] };
    assert_eq!(plus.encode_to_vec(), Vec::<u8>::new());
    assert_eq!(minus.encode_to_vec(), Vec::<u8>::new());
}

#[test]
fn unpacked_and_packed_reasons_both_decode() {
    let b = vec![0x10, 0x01, 0x12, 0x02, 0x02, 0x03, 0x10, 0x05];
    let r = RiskAnalysis::decode(&b).unwrap();
    assert_eq!(r.reasons, vec![1, 2, 3, 5]);
    assert_eq!(RiskAnalysis::decode(&[0x12, 0x01, 0x80]), Err(DecodeError));
    assert_eq!(RiskAnalysis::decode(&[0x15, 0, 0, 0, 0]), Err(DecodeError));
}

#[test]
fn present_empty_message_is_still_written() {
    let c = StreamingTranslateSpeechConfig { audio_config: Some(TranslateSpeechConfig::default()), single_utterance: true };
    assert_eq!(c.encode_to_vec(), vec![0x0a, 0x00, 0x10, 0x01]);
    assert_eq!(StreamingTranslateSpeechConfig::decode(&c.encode_to_vec()), Ok(c));
}

#[test]
fn oneof_members_are_written_with_their_numbers() {
    let audio = StreamingTranslateSpeechRequest { streaming_request: Some(StreamingRequest::AudioContent(vec![1, 2, 3])) };
    assert_eq!(audio.encode_to_vec(), vec![0x12, 0x03, 0x01, 0x02, 0x03]);
    let empty_audio = StreamingTranslateSpeechRequest { streaming_request: Some(StreamingRequest::AudioContent(vec![])) };
    assert_eq!(empty_audio.encode_to_vec(), vec![0x12, 0x00]);
    let config = StreamingTranslateSpeechRequest {
        streaming_request: Some(StreamingRequest::StreamingConfig(StreamingTranslateSpeechConfig::default())),
    };
    assert_eq!(config.encode_to_vec(), vec![0x0a, 0x00]);
    assert_eq!(StreamingTranslateSpeechRequest::decode(&config.encode_to_vec()), Ok(config));
}

#[test]
fn last_oneof_member_wins() {
    let b = vec![0x1a, 0x00, 0x22, 0x02, 0x0a, 0x00];
    let k = Key::decode(&b).unwrap();
    assert_eq!(
        k.platform_settings,
        Some(PlatformSettings::AndroidSettings(AndroidKeySettings { allowed_package_names: vec![s("")] }))
    );
    let b = vec![0x22, 0x02, 0x0a, 0x00, 0x1a, 0x02, 0x10, 0x01];
    let k = Key::decode(&b).unwrap();
    assert_eq!(
        k.platform_settings,
        Some(PlatformSettings::WebSettings(WebKeySettings { allow_amp_traffic: true, ..Default::default() }))
    );
}

#[test]
fn repeated_oneof_member_merges_or_replaces() {
    // a nested message merges: both parts survive
    let b = vec![0x1a, 0x02, 0x10, 0x01, 0x1a, 0x02, 0x18, 0x01];
    let k = Key::decode(&b).unwrap();
    assert_eq!(
        k.platform_settings,
        Some(PlatformSettings::WebSettings(WebKeySettings {
            allow_amp_traffic: true,
            allow_all_domains: true,
            ..Default::default()
        }))
    );
    // a byte string is replaced
    let b = vec![0x12, 0x01, 0x01, 0x12, 0x01, 0x02];
    let r = StreamingTranslateSpeechRequest::decode(&b).unwrap();
    assert_eq!(r.streaming_request, Some(StreamingRequest::AudioContent(vec![2])));
}

#[test]
fn last_scalar_wins() {
    let e = Event::decode(&[0x0a, 0x01, b'a', 0x0a, 0x01, b'b']).unwrap();
    assert_eq!(e.token, s("b"));
}

#[test]
fn repeated_nested_message_occurrences_merge() {
    let b = vec![0x12, 0x03, 0x0a, 0x01, b'a', 0x12, 0x03, 0x12, 0x01, b'b'];
    let a = Assessment::decode(&b).unwrap();
    assert_eq!(a.event, Some(Event { token: s("a"), site_key: s("b"), ..Default::default() }));
}

#[test]
fn unknown_fields_are_skipped() {
    let b = vec![0x48, 0x01, 0x0a, 0x01, b'a', 0x55, 1, 2, 3, 4, 0x59, 1, 2, 3, 4, 5, 6, 7, 8, 0x62, 0x00];
    let e = Event::decode(&b).unwrap();
    assert_eq!(e, Event { token: s("a"), ..Default::default() });
}

#[test]
fn wrong_wire_type_is_refused() {
    assert_eq!(Event::decode(&[0x08, 0x01]), Err(DecodeError));
    assert_eq!(ListKeysRequest::decode(&[0x12, 0x00]), Err(DecodeError));
    assert_eq!(Assessment::decode(&[0x10, 0x01]), Err(DecodeError));
    assert_eq!(Key::decode(&[0x18, 0x01]), Err(DecodeError));
}

#[test]
fn invalid_text_is_refused() {
    assert_eq!(Event::decode(&[0x0a, 0x01, 0xff]), Err(DecodeError));
    assert_eq!(Event::decode(&[0x0a, 0x03, 0xed, 0xa0, 0x80]), Err(DecodeError));
    assert_eq!(Assessment::decode(&[0x12, 0x03, 0x0a, 0x01, 0xff]), Err(DecodeError));
}

#[test]
fn truncated_message_is_refused() {
    assert_eq!(GetKeyRequest::decode(&[0x0a, 0x05, b'a']), Err(DecodeError));
}

#[test]
fn key_with_every_field_round_trips() {
    let k = Key {
        name: s("projects/p/keys/k"),
        display_name: s("checkout"),
        platform_settings: Some(PlatformSettings::WebSettings(WebKeySettings {
            allowed_domains: vec![s("example.com"), s("sub.example.com")],
            allow_amp_traffic: true,
            allow_all_domains: false,
            integration_type: IntegrationType::Checkbox.value(),
            challenge_security_preference: ChallengeSecurityPreference::Security.value(),
        })),
        labels: vec![(s("env"), s("prod")), (s("team"), s(""))],
        create_time: Some(Timestamp { seconds: 1_600_000_000, nanos: 7 }),
    };
    let b = k.encode_to_vec();
    assert_eq!(Key::decode(&b), Ok(k.clone()));
    let list = ListKeysResponse { keys: vec![k.clone(), Key::default(), k], next_page_token: s("t") };
    assert_eq!(ListKeysResponse::decode(&list.encode_to_vec()), Ok(list));
}

#[test]
fn key_web_settings_bytes() {
    let k = Key {
        name: s("k"),
        platform_settings: Some(PlatformSettings::WebSettings(WebKeySettings {
            allowed_domains: vec![s("example.com")],
            allow_amp_traffic: true,
            integration_type: IntegrationType::Score.value(),
            ..Default::default()
        })),
        ..Default::default()
    };
    let mut want = vec![0x0a, 0x01, b'k', 0x1a, 0x11, 0x0a, 0x0b];
    want.extend_from_slice(b"example.com");
    want.extend_from_slice(&[0x10, 0x01, 0x20, 0x01]);
    assert_eq!(k.encode_to_vec(), want);
}

#[test]
fn labels_are_map_entries() {
    let k = Key { labels: vec![(s("env"), s("prod"))], ..Default::default() };
    let mut want = vec![0x32, 0x0b, 0x0a, 0x03];
    want.extend_from_slice(b"env");
    want.extend_from_slice(&[0x12, 0x04]);
    want.extend_from_slice(b"prod");
    assert_eq!(k.encode_to_vec(), want);
}

#[test]
fn repeated_label_key_keeps_last_value_in_place() {
    let entries = encode_labels(&vec![(s("env"), s("a")), (s("zone"), s("z")), (s("env"), s("b"))]);
    assert_eq!(decode_labels(&entries), Ok(vec![(s("env"), s("b")), (s("zone"), s("z"))]));
    let c = Cluster::decode(&[0x22, 0x05, 0x0a, 0x01, b'k', 0x12, 0x00, 0x22, 0x03, 0x12, 0x01, b'v']).unwrap();
    assert_eq!(c.labels, vec![(s("k"), s("")), (s(""), s("v"))]);
}

#[test]
fn insert_label_replaces_or_appends() {
    let mut ls = vec![(s("a"), s("1")), (s("b"), s("2"))];
    insert_label(&mut ls, s("b"), s("3"));
    assert_eq!(ls, vec![(s("a"), s("1")), (s("b"), s("3"))]);
    insert_label(&mut ls, s("c"), s("4"));
    assert_eq!(ls, vec![(s("a"), s("1")), (s("b"), s("3")), (s("c"), s("4"))]);
}

#[test]
fn malformed_label_entry_is_refused() {
    assert_eq!(decode_labels(&vec![vec![0x0a, 0x01, 0xff]]), Err(DecodeError));
    assert_eq!(decode_labels(&vec![vec![0x08, 0x01]]), Err(DecodeError));
}

#[test]
fn assessment_round_trips() {
    let a = Assessment {
        name: s("projects/p/assessments/a"),
        event: Some(Event {
            token: s("tok"),
            site_key: s("site"),
            user_agent: s("agent"),
            user_ip_address: s("10.0.0.1"),
            expected_action: s("login"),
        }),
        risk_analysis: Some(RiskAnalysis {
            score_bits: 0.9f32.to_bits(),
            reasons: vec![ClassificationReason::LowConfidenceScore.value()],
        }),
        token_properties: Some(TokenProperties {
            valid: false,
            invalid_reason: InvalidReason::Expired.value(),
            create_time: Some(Timestamp { seconds: -5, nanos: 0 }),
            hostname: s("example.com"),
            action: s("login"),
        }),
    };
    assert_eq!(Assessment::decode(&a.encode_to_vec()), Ok(a));
}

#[test]
fn speech_response_round_trips() {
    let r = StreamingTranslateSpeechResponse {
        error: Some(Status {
            code: 3,
            message: s("bad audio"),
            details: vec![Any { type_url: s("type.googleapis.com/x"), value: vec![1, 2] }],
        }),
        result: Some(StreamingTranslateSpeechResult {
            result: Some(streaming_translate_speech_result::Result::TextTranslationResult(TextTranslationResult {
                translation: s("hola"),
                is_final: true,
            })),
        }),
        speech_event_type: SpeechEventType::EndOfSingleUtterance.value(),
    };
    assert_eq!(StreamingTranslateSpeechResponse::decode(&r.encode_to_vec()), Ok(r));
}

#[test]
fn operation_round_trips() {
    let meta = OperationMetadata {
        create_time: Some(Timestamp { seconds: 10, nanos: 0 }),
        end_time: None,
        target: s("projects/p/locations/l/clusters/c"),
        verb: s("create"),
        status_message: s(""),
        requested_cancellation: true,
        api_version: s("v1alpha1"),
    };
    let cluster = Cluster { name: s("c"), labels: vec![(s("a"), s("b"))], ..Default::default() };
    let op = Operation {
        name: s("operations/1"),
        metadata: Some(Any { type_url: s("m"), value: meta.encode_to_vec() }),
        done: true,
        result: Some(operation::Result::Response(Any { type_url: s("c"), value: cluster.encode_to_vec() })),
    };
    let back = Operation::decode(&op.encode_to_vec()).unwrap();
    assert_eq!(back, op);
    let m = OperationMetadata::decode(&back.metadata.unwrap().value).unwrap();
    assert_eq!(m, meta);
    let failed = Operation {
        result: Some(operation::Result::Error(Status { code: 5, message: s("not found"), details: vec![] })),
        ..Default::default()
    };
    assert_eq!(Operation::decode(&failed.encode_to_vec()), Ok(failed));
}

#[test]
fn cluster_requests_round_trip() {
    let req = CreateClusterRequest {
        parent: s("projects/p/locations/l"),
        cluster_id: s("c1"),
        cluster: Some(Cluster {
            name: s("c1"),
            create_time: Some(Timestamp { seconds: 1, nanos: 2 }),
            update_time: None,
            labels: vec![],
            certificate: s("cert"),
            service_endpoint: s("endpoint"),
        }),
        request_id: s("123e4567-e89b-12d3-a456-426614174000"),
    };
    assert_eq!(CreateClusterRequest::decode(&req.encode_to_vec()), Ok(req));
    let resp = ListClustersResponse {
        clusters: vec![Cluster::default(), Cluster { name: s("x"), ..Default::default() }],
        next_page_token: s(""),
        unreachable: vec![s("us-east1"), s("")],
    };
    assert_eq!(ListClustersResponse::decode(&resp.encode_to_vec()), Ok(resp));
    let st = Stream { name: s("s"), labels: vec![(s("k"), s("v"))], ..Default::default() };
    assert_eq!(Stream::decode(&st.encode_to_vec()), Ok(st));
}

#[test]
fn enum_numbers() {
    assert_eq!(Annotation::from_i32(2), Some(Annotation::Fraudulent));
    assert_eq!(Annotation::from_i32(5), None);
    assert_eq!(Annotation::from_i32(-1), None);
    assert!(Annotation::is_valid(4));
    assert!(!Annotation::is_valid(5));
    assert_eq!(Annotation::PasswordIncorrect.value(), 4);
    assert_eq!(InvalidReason::from_i32(5), Some(InvalidReason::Missing));
    assert_eq!(ClassificationReason::UnexpectedUsagePatterns.value(), 4);
    assert_eq!(ChallengeSecurityPreference::from_i32(0), Some(ChallengeSecurityPreference::Unspecified));
    assert_eq!(SpeechEventType::from_i32(1), Some(SpeechEventType::EndOfSingleUtterance));
    assert!(!IntegrationType::is_valid(4));
}

#[test]
fn well_known_types_match_prost() {
    let t = Timestamp { seconds: 1_600_000_000, nanos: 123 };
    let pt = prost_types::Timestamp { seconds: 1_600_000_000, nanos: 123 };
    assert_eq!(t.encode_to_vec(), pt.encode_to_vec());
    let neg = prost_types::Timestamp { seconds: -62_135_596_800, nanos: -1 };
    let back = Timestamp::decode(&neg.encode_to_vec()).unwrap();
    assert_eq!(back, Timestamp { seconds: -62_135_596_800, nanos: -1 });
    let m = FieldMask { paths: vec![s("display_name"), s(""), s("web_settings.allowed_domains")] };
    let pm = prost_types::FieldMask { paths: m.paths.clone() };
    assert_eq!(m.encode_to_vec(), pm.encode_to_vec());
    assert_eq!(prost_types::FieldMask::decode(m.encode_to_vec().as_slice()).unwrap(), pm);
    let a = Any { type_url: s("type.googleapis.com/google.protobuf.Timestamp"), value: pt.encode_to_vec() };
    let pa = prost_types::Any { type_url: a.type_url.clone(), value: a.value.clone() };
    assert_eq!(a.encode_to_vec(), pa.encode_to_vec());
    assert_eq!(Any::decode(&pa.encode_to_vec()), Ok(a));
}

#[test]
fn negative_zero_score_decodes_as_zero() {
    let r = RiskAnalysis { score_bits: (-0.0f32).to_bits(), reasons: vec![2] };
    let back = RiskAnalysis::decode(&r.encode_to_vec()).unwrap();
    assert_eq!(back.score_bits, 0);
    assert_eq!(back.reasons, vec![2]);
}

#[test]
fn multi_byte_text_decodes() {
    let e = Event::decode(&[0x2a, 0x02, 0xc3, 0xa9, 0x0a, 0x04, 0xf0, 0x9f, 0x98, 0x80]).unwrap();
    assert_eq!(e.expected_action, s("é"));
    assert_eq!(e.token, s("😀"));
    assert_eq!(Event::decode(&e.encode_to_vec()), Ok(e));
}

#[test]
fn field_masks_and_requests_round_trip() {
    let u = googapis::recaptchaenterprise_v1::UpdateKeyRequest {
        key: Some(Key { name: s("k"), ..Default::default() }),
        update_mask: Some(FieldMask { paths: vec![s("display_name"), s("labels")] }),
    };
    let back = googapis::recaptchaenterprise_v1::UpdateKeyRequest::decode(&u.encode_to_vec()).unwrap();
    assert_eq!(back, u);
    let audio = TranslateSpeechConfig {
        audio_encoding: s("linear16"),
        source_language_code: s("en-US"),
        target_language_code: s("fr-FR"),
        sample_rate_hertz: 16000,
        model: s("google-provided-model/video"),
    };
    let req = StreamingTranslateSpeechRequest {
        streaming_request: Some(StreamingRequest::StreamingConfig(StreamingTranslateSpeechConfig {
            audio_config: Some(audio),
            single_utterance: false,
        })),
    };
    assert_eq!(StreamingTranslateSpeechRequest::decode(&req.encode_to_vec()), Ok(req));
}

#[test]
fn empty_and_absent_nested_messages_differ() {
    let with = Assessment { event: Some(Event::default()), ..Default::default() };
    let without = Assessment::default();
    assert_eq!(with.encode_to_vec(), vec![0x12, 0x00]);
    assert_eq!(Assessment::decode(&[0x12, 0x00]), Ok(with));
    assert_eq!(Assessment::decode(&[]), Ok(without));
}
