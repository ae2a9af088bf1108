use plugin_boundary::auth::Auth;
use plugin_boundary::logger::Logger;
use plugin_boundary::validator::Validator;
use plugin_boundary::marshal::{encode, decode};
use plugin_boundary::value::Value;

fn record_field(v: &Value, name: &[u8]) -> Value {
    match v {
        Value::Record(fields) => {
            for (k, val) in fields {
                if k.as_slice() == name {
                    return decode(&encode(val)).unwrap();
                }
            }
            panic!("field missing");
        },
        _ => panic!("expected a record"),
    }
}

#[test]
fn auth_scenario() {
    let mut auth = Auth::new();
    let env = auth.login(&b"admin".to_vec(), &b"any-password".to_vec());
    assert!(matches!(record_field(&env, b"success"), Value::Bool(true)));
    match record_field(&env, b"role") {
        Value::Text(t) => assert_eq!(t, b"admin".to_vec()),
        _ => panic!("role must be text"),
    }
    match record_field(&env, b"token") {
        Value::Text(t) => assert_eq!(t, b"admin-token".to_vec()),
        _ => panic!("token must be text"),
    }
    assert!(auth.verify_token(&b"admin-token".to_vec()));
    assert!(!auth.verify_token(&b"user-token".to_vec()));
    auth.logout();
    assert!(!auth.verify_token(&b"admin-token".to_vec()));
    assert_eq!(auth.get_user_role(), b"guest".to_vec());
}

#[test]
fn auth_rejects_unknown_user() {
    let mut auth = Auth::new();
    let env = auth.login(&b"nobody".to_vec(), &b"pw".to_vec());
    assert!(matches!(record_field(&env, b"success"), Value::Bool(false)));
    match record_field(&env, b"error") {
        Value::Text(t) => assert_eq!(t, b"Invalid credentials".to_vec()),
        _ => panic!("error must be text"),
    }
    assert_eq!(auth.get_user_role(), b"guest".to_vec());
}

#[test]
fn auth_second_account() {
    let mut auth = Auth::new();
    let env = auth.login(&b"user".to_vec(), &b"pw".to_vec());
    assert!(matches!(record_field(&env, b"success"), Value::Bool(true)));
    assert!(auth.verify_token(&b"user-token".to_vec()));
    assert_eq!(auth.get_user_role(), b"user".to_vec());
}

#[test]
fn logger_retention_bound() {
    let mut logger = Logger::new();
    let extra = 5usize;
    let total = 1000 + extra;
    for i in 0..total {
        let msg = format!("message-{}", i).into_bytes();
        logger.info(&msg);
    }
    assert_eq!(logger.entries.len(), 1000);
    assert_eq!(logger.entries[0].message, format!("message-{}", extra).into_bytes());
    assert_eq!(
        logger.entries[999].message,
        format!("message-{}", total - 1).into_bytes()
    );
    for w in 0..999 {
        assert!(logger.entries[w].message < logger.entries[w + 1].message
            || logger.entries[w].message.len() < logger.entries[w + 1].message.len());
    }
}

#[test]
fn logger_levels_and_clear() {
    let mut logger = Logger::new();
    logger.info(&b"a".to_vec());
    logger.warn(&b"b".to_vec());
    logger.error(&b"c".to_vec());
    logger.debug(&b"d".to_vec(), &b"meta".to_vec());
    assert_eq!(logger.entries.len(), 4);
    assert_eq!(logger.entries[0].level, b"INFO".to_vec());
    assert_eq!(logger.entries[1].level, b"WARN".to_vec());
    assert_eq!(logger.entries[2].level, b"ERROR".to_vec());
    assert_eq!(logger.entries[3].level, b"DEBUG".to_vec());
    assert_eq!(logger.entries[3].metadata, Some(b"meta".to_vec()));
    logger.clear();
    assert_eq!(logger.entries.len(), 0);
}

#[test]
fn logger_get_logs_encodes_the_buffer() {
    let mut logger = Logger::new();
    logger.info(&b"first".to_vec());
    logger.error(&b"second".to_vec());
    let wire = logger.get_logs();
    let v = decode(&wire).expect("the encoded buffer must decode");
    match v {
        Value::List(items) => {
            assert_eq!(items.len(), 2);
            match record_field(&items[0], b"level") {
                Value::Text(t) => assert_eq!(t, b"INFO".to_vec()),
                _ => panic!("level must be text"),
            }
            match record_field(&items[0], b"message") {
                Value::Text(t) => assert_eq!(t, b"first".to_vec()),
                _ => panic!("message must be text"),
            }
            match record_field(&items[1], b"level") {
                Value::Text(t) => assert_eq!(t, b"ERROR".to_vec()),
                _ => panic!("level must be text"),
            }
            match record_field(&items[0], b"timestamp") {
                Value::Text(t) => assert!(!t.is_empty()),
                _ => panic!("timestamp must be text"),
            }
        },
        _ => panic!("expected a list"),
    }
}

#[test]
fn validator_email_scenarios() {
    let v = Validator::new().expect("the shipped patterns compile");
    let (ok, none) = v.validate_email(&b"a@b.com".to_vec());
    assert!(ok);
    assert!(none.is_none(), "no callback registered: a silent no-op");
    let (bad, _) = v.validate_email(&b"not-an-email".to_vec());
    assert!(!bad);
}

#[test]
fn validator_email_emits_envelope() {
    let mut v = Validator::new().expect("the shipped patterns compile");
    v.on(7);
    let (ok, delivery) = v.validate_email(&b"not-an-email".to_vec());
    assert!(!ok);
    let d = delivery.expect("a registered callback receives the event");
    assert_eq!(d.target, 7);
    let expected = encode(&Value::Record(vec![
        (b"field".to_vec(), Value::Text(b"email".to_vec())),
        (b"valid".to_vec(), Value::Bool(false)),
        (b"message".to_vec(), Value::Text(b"Invalid email format".to_vec())),
    ]));
    assert_eq!(d.payload, expected);
    let (good, delivery2) = v.validate_email(&b"a@b.com".to_vec());
    assert!(good);
    let d2 = delivery2.expect("still registered");
    let expected2 = encode(&Value::Record(vec![
        (b"field".to_vec(), Value::Text(b"email".to_vec())),
        (b"valid".to_vec(), Value::Bool(true)),
        (b"message".to_vec(), Value::Text(b"Valid email".to_vec())),
    ]));
    assert_eq!(d2.payload, expected2);
}

#[test]
fn validator_replaces_callback_on_register() {
    let mut v = Validator::new().expect("the shipped patterns compile");
    v.on(1);
    v.on(2);
    let (_, delivery) = v.validate_email(&b"a@b.com".to_vec());
    assert_eq!(delivery.expect("registered").target, 2);
}

#[test]
fn validator_url_json_length_alnum() {
    let v = Validator::new().expect("the shipped patterns compile");
    assert!(v.validate_url(&b"https://example.com/path".to_vec()));
    assert!(!v.validate_url(&b"not a url".to_vec()));
    assert!(v.validate_json(&b"{\"a\": [1, 2, false]}".to_vec()));
    assert!(!v.validate_json(&b"{".to_vec()));
    assert!(v.validate_length(&b"hello".to_vec(), 1, 10));
    assert!(!v.validate_length(&b"hello".to_vec(), 10, 20));
    assert!(v.validate_alphanumeric("abc123"));
    assert!(!v.validate_alphanumeric("a b"));
    assert!(v.validate_alphanumeric(""));
}

#[test]
fn validator_alphanumeric_is_unicode_aware() {
    let v = Validator::new().expect("the shipped patterns compile");
    assert!(v.validate_alphanumeric("caf\u{e9}1"));
    assert!(v.validate_alphanumeric("\u{0394}\u{4e2d}7"));
    assert!(!v.validate_alphanumeric("caf\u{e9}!"));
}
