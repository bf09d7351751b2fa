use iox_db::readiness::{ServingReadiness, ServingReadinessState};
use iox_db::service::{IoxHttpError, KeyValue, ReturnCode};
use std::sync::atomic::AtomicBool;
use std::sync::Arc;

#[test]
fn readiness_is_shared_between_clones() {
    let r = ServingReadiness::new(Arc::new(AtomicBool::new(false)));
    let other = r.clone();
    assert_eq!(r.get(), ServingReadinessState::Unavailable);
    other.set(ServingReadinessState::Serving);
    assert_eq!(r.get(), ServingReadinessState::Serving);
    r.set(ServingReadinessState::Unavailable);
    assert_eq!(other.get(), ServingReadinessState::Unavailable);
}

#[test]
fn readiness_state_and_bool() {
    assert_eq!(ServingReadinessState::from_bool(true), ServingReadinessState::Serving);
    assert_eq!(ServingReadinessState::from_bool(false), ServingReadinessState::Unavailable);
    assert!(ServingReadinessState::Serving.to_bool());
    assert!(!ServingReadinessState::Unavailable.to_bool());
}

#[test]
fn small_service_values() {
    assert_eq!(ReturnCode::Failure.code(), 1);
    assert_eq!(IoxHttpError::NotFound.status_code(), 404);
    assert_eq!(IoxHttpError::NotFound.message(), "NotFound");
    let kv = KeyValue::new("a".to_string(), 1u32);
    assert_eq!(kv.key, "a");
    assert_eq!(kv.value, 1);
}

#[test]
fn readiness_state_parses_ignoring_case() {
    assert_eq!("serving".parse::<ServingReadinessState>(), Ok(ServingReadinessState::Serving));
    assert_eq!("SERVING".parse::<ServingReadinessState>(), Ok(ServingReadinessState::Serving));
    assert_eq!(
        ServingReadinessState::parse("UnAvailable"),
        Ok(ServingReadinessState::Unavailable)
    );
    assert_eq!(
        ServingReadinessState::parse("ready"),
        Err("Invalid serving readiness format 'ready'. Valid options: unavailable, serving".to_string())
    );
}

#[test]
fn key_value_splits_at_first_colon() {
    let kv = KeyValue::parse("key:val:ue").unwrap();
    assert_eq!(kv.key, "key");
    assert_eq!(kv.value, "val:ue");
    let kv: KeyValue<String, String> = ":x".parse().unwrap();
    assert_eq!(kv.key, "");
    assert_eq!(kv.value, "x");
    assert_eq!(
        KeyValue::parse("novalue").err(),
        Some("Invalid key value pair - expected 'KEY:VALUE' got 'novalue'".to_string())
    );
}
