use feature_probe_event::collector::{FPEventError, SdkAuthorization};
use feature_probe_event::event::{AccessEvent, Variation};
use serde_json::Value;

#[test]
fn error_messages_name_their_cause() {
    let not_found = FPEventError::NotFound("toggle".to_string());
    assert_eq!(not_found.message(), "not found toggle");

    let decode = FPEventError::UserDecodeError;
    assert_eq!(decode.message(), "user base64 decode error");

    let config = FPEventError::ConfigError("missing url".to_string());
    assert_eq!(config.message(), "config error: missing url");
}

#[test]
fn sdk_authorization_carries_the_credential() {
    let auth = SdkAuthorization("sdk-key".to_string());
    assert_eq!(auth.0, "sdk-key");
}

#[test]
fn variation_of_an_access_event() {
    let event = AccessEvent {
        kind: "access".to_string(),
        time: 1,
        key: "key".to_string(),
        user: "user_key".to_string(),
        value: Value::String("1".to_string()),
        variation_index: 2,
        version: Some(7),
        rule_index: None,
        track_access_events: true,
    };
    let variation: Variation = event.variation();
    assert_eq!(variation.key, "key");
    assert_eq!(variation.index, 2);
    assert_eq!(variation.version, Some(7));
}
