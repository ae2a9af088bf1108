use plugin_boundary::capability::{PluginKind, descriptor};
use plugin_boundary::lifecycle::{Module, LifecycleError, add, STATUS_OK,
    STATUS_ALREADY_INITIALIZED, STATUS_NOT_LOADED};
use plugin_boundary::registry::{Registry, InvokeError, ConstructError};
use plugin_boundary::marshal::{encode, decode};
use plugin_boundary::value::Value;

fn ready_module() -> Module {
    let mut m = Module::new();
    m.load().expect("a fresh module loads");
    assert_eq!(m.init(), STATUS_OK);
    m
}

#[test]
fn arithmetic_and_init() {
    assert_eq!(add(2, 3), 5);
    let mut m = Module::new();
    assert_eq!(m.init(), STATUS_NOT_LOADED);
    m.load().expect("a fresh module loads");
    assert_eq!(m.init(), STATUS_OK);
    assert_eq!(m.init(), STATUS_ALREADY_INITIALIZED);
}

#[test]
fn handles_are_pairwise_distinct() {
    let mut reg = Registry::new();
    let a = reg.construct(PluginKind::Auth).unwrap();
    let b = reg.construct(PluginKind::Logger).unwrap();
    let c = reg.construct(PluginKind::Validator).unwrap();
    let d = reg.construct(PluginKind::Auth).unwrap();
    assert!(a != b && a != c && a != d && b != c && b != d && c != d);
}

#[test]
fn destroyed_handle_is_rejected() {
    let mut reg = Registry::new();
    let h = reg.construct(PluginKind::Auth).unwrap();
    let keep = reg.construct(PluginKind::Auth).unwrap();
    reg.destroy(h).expect("a live handle destroys");
    let r = reg.invoke(h, &b"logout".to_vec(), &Vec::new());
    assert!(matches!(r, Err(InvokeError::UnknownHandle)));
    assert!(matches!(reg.destroy(h), Err(InvokeError::UnknownHandle)));
    let r2 = reg.invoke(keep, &b"logout".to_vec(), &Vec::new());
    assert!(r2.is_ok(), "other instances are untouched");
}

#[test]
fn handle_reuse_never_aliases_live_handles() {
    let mut reg = Registry::new();
    let a = reg.construct(PluginKind::Logger).unwrap();
    reg.destroy(a).unwrap();
    let b = reg.construct(PluginKind::Logger).unwrap();
    assert!(a != b, "fresh handles stay distinct from every handle seen");
}

#[test]
fn invoke_reports_unknown_operation() {
    let mut reg = Registry::new();
    let h = reg.construct(PluginKind::Auth).unwrap();
    let r = reg.invoke(h, &b"frobnicate".to_vec(), &Vec::new());
    assert!(matches!(r, Err(InvokeError::UnknownOperation)));
    let r2 = reg.invoke(h, &b"info".to_vec(), &vec![Value::Text(b"x".to_vec())]);
    assert!(
        matches!(r2, Err(InvokeError::UnknownOperation)),
        "a logger operation is not an auth operation"
    );
}

#[test]
fn invoke_reports_arity_and_type_mismatch() {
    let mut reg = Registry::new();
    let h = reg.construct(PluginKind::Auth).unwrap();
    let r = reg.invoke(h, &b"login".to_vec(), &vec![Value::Text(b"admin".to_vec())]);
    assert!(matches!(r, Err(InvokeError::ArityOrTypeMismatch)));
    let r2 = reg.invoke(
        h,
        &b"login".to_vec(),
        &vec![Value::Int(1), Value::Text(b"pw".to_vec())],
    );
    assert!(matches!(r2, Err(InvokeError::ArityOrTypeMismatch)));
    let r3 = reg.invoke(
        h,
        &b"login".to_vec(),
        &vec![Value::Text(b"admin".to_vec()), Value::Text(b"pw".to_vec())],
    );
    assert!(r3.is_ok());
}

#[test]
fn full_session_through_the_module() {
    let mut m = ready_module();
    let auth = m.construct(PluginKind::Auth).unwrap();
    let out = m
        .invoke(
            auth,
            &b"login".to_vec(),
            &vec![Value::Text(b"admin".to_vec()), Value::Text(b"pw".to_vec())],
        )
        .unwrap();
    let expected = encode(&Value::Record(vec![
        (b"success".to_vec(), Value::Bool(true)),
        (b"token".to_vec(), Value::Text(b"admin-token".to_vec())),
        (b"role".to_vec(), Value::Text(b"admin-token".to_vec())),
    ]));
    assert_ne!(encode(&out.result), expected, "the role is admin, not the token");
    let expected_env = encode(&Value::Record(vec![
        (b"success".to_vec(), Value::Bool(true)),
        (b"token".to_vec(), Value::Text(b"admin-token".to_vec())),
        (b"role".to_vec(), Value::Text(b"admin".to_vec())),
    ]));
    assert_eq!(encode(&out.result), expected_env);
    let check = m
        .invoke(
            auth,
            &b"verify_token".to_vec(),
            &vec![Value::Text(b"admin-token".to_vec())],
        )
        .unwrap();
    assert!(matches!(check.result, Value::Bool(true)));
    let out2 = m.invoke(auth, &b"logout".to_vec(), &Vec::new()).unwrap();
    assert!(matches!(out2.result, Value::Bool(true)));
    let role = m.invoke(auth, &b"get_user_role".to_vec(), &Vec::new()).unwrap();
    match role.result {
        Value::Text(t) => assert_eq!(t, b"guest".to_vec()),
        _ => panic!("role must be text"),
    }
    m.destroy(auth).unwrap();
    m.unload().expect("no instance is live any more");
}

#[test]
fn validator_emission_travels_through_invoke() {
    let mut m = ready_module();
    let v = m.construct(PluginKind::Validator).unwrap();
    let on = m.invoke(v, &b"on".to_vec(), &vec![Value::Int(42)]).unwrap();
    assert!(on.emission.is_none());
    let out = m
        .invoke(v, &b"validate_email".to_vec(), &vec![Value::Text(b"a@b.com".to_vec())])
        .unwrap();
    assert!(matches!(out.result, Value::Bool(true)));
    let d = out.emission.expect("registered callback fires");
    assert_eq!(d.target, 42);
    let env = decode(&d.payload).expect("the payload is an envelope");
    match env {
        Value::Record(fields) => {
            assert_eq!(fields[0].0, b"field".to_vec());
            assert!(matches!(fields[1].1, Value::Bool(true)));
        },
        _ => panic!("expected a record"),
    }
}

#[test]
fn validator_length_through_invoke() {
    let mut m = ready_module();
    let v = m.construct(PluginKind::Validator).unwrap();
    let ok = m
        .invoke(
            v,
            &b"validate_length".to_vec(),
            &vec![Value::Text(b"hello".to_vec()), Value::Int(1), Value::Int(10)],
        )
        .unwrap();
    assert!(matches!(ok.result, Value::Bool(true)));
    let bad = m
        .invoke(
            v,
            &b"validate_length".to_vec(),
            &vec![Value::Text(b"hello".to_vec()), Value::Int(10), Value::Int(20)],
        )
        .unwrap();
    assert!(matches!(bad.result, Value::Bool(false)));
    let neg = m
        .invoke(
            v,
            &b"validate_length".to_vec(),
            &vec![Value::Text(b"hello".to_vec()), Value::Int(-3), Value::Int(20)],
        )
        .unwrap();
    assert!(matches!(neg.result, Value::Bool(true)));
}

#[test]
fn lifecycle_gates_operations() {
    let mut m = Module::new();
    assert!(matches!(
        m.construct(PluginKind::Auth),
        Err(ConstructError::ModuleNotReady)
    ));
    m.load().expect("a fresh module loads");
    assert!(matches!(
        m.invoke(0, &b"logout".to_vec(), &Vec::new()),
        Err(InvokeError::ModuleNotReady)
    ));
    assert_eq!(m.init(), STATUS_OK);
    let h = m.construct(PluginKind::Auth).unwrap();
    assert!(m.unload().is_err(), "an instance is still live");
    m.destroy(h).unwrap();
    m.unload().expect("now every instance is destroyed");
}

#[test]
fn descriptors_list_each_operation_once() {
    for kind in [PluginKind::Auth, PluginKind::Logger, PluginKind::Validator] {
        let entries = descriptor(&kind);
        assert!(!entries.is_empty());
        for i in 0..entries.len() {
            for j in (i + 1)..entries.len() {
                assert_ne!(entries[i].name, entries[j].name);
            }
        }
    }
    let auth_ops = descriptor(&PluginKind::Auth);
    assert_eq!(auth_ops.len(), 4);
    let logger_ops = descriptor(&PluginKind::Logger);
    assert_eq!(logger_ops.len(), 6);
    let validator_ops = descriptor(&PluginKind::Validator);
    assert_eq!(validator_ops.len(), 6);
}

#[test]
fn logger_through_invoke() {
    let mut m = ready_module();
    let l = m.construct(PluginKind::Logger).unwrap();
    m.invoke(l, &b"info".to_vec(), &vec![Value::Text(b"one".to_vec())]).unwrap();
    m.invoke(
        l,
        &b"debug".to_vec(),
        &vec![Value::Text(b"two".to_vec()), Value::Text(b"m".to_vec())],
    )
    .unwrap();
    let out = m.invoke(l, &b"get_logs".to_vec(), &Vec::new()).unwrap();
    let wire = match out.result {
        Value::Text(t) => t,
        _ => panic!("get_logs answers encoded text"),
    };
    match decode(&wire).expect("the buffer decodes") {
        Value::List(items) => assert_eq!(items.len(), 2),
        _ => panic!("expected a list"),
    }
    m.invoke(l, &b"clear".to_vec(), &Vec::new()).unwrap();
    let out2 = m.invoke(l, &b"get_logs".to_vec(), &Vec::new()).unwrap();
    let wire2 = match out2.result {
        Value::Text(t) => t,
        _ => panic!("get_logs answers encoded text"),
    };
    match decode(&wire2).expect("the buffer decodes") {
        Value::List(items) => assert_eq!(items.len(), 0),
        _ => panic!("expected a list"),
    }
}

#[test]
fn lifecycle_transition_errors() {
    let mut m = Module::new();
    assert!(matches!(m.unload(), Err(LifecycleError::NotLoaded)));
    m.load().expect("a fresh module loads");
    assert!(matches!(m.load(), Err(LifecycleError::AlreadyLoaded)));
    assert_eq!(m.init(), STATUS_OK);
    let h = m.construct(PluginKind::Logger).unwrap();
    assert!(matches!(m.unload(), Err(LifecycleError::InstancesStillLive)));
    m.destroy(h).unwrap();
    m.unload().expect("every instance is destroyed");
    assert!(matches!(m.unload(), Err(LifecycleError::NotLoaded)));
}

#[test]
fn alphanumeric_through_invoke_handles_utf8() {
    let mut m = ready_module();
    let v = m.construct(PluginKind::Validator).unwrap();
    let accented = m
        .invoke(
            v,
            &b"validate_alphanumeric".to_vec(),
            &vec![Value::Text("caf\u{e9}1".as_bytes().to_vec())],
        )
        .unwrap();
    assert!(matches!(accented.result, Value::Bool(true)));
    let spaced = m
        .invoke(
            v,
            &b"validate_alphanumeric".to_vec(),
            &vec![Value::Text(b"a b".to_vec())],
        )
        .unwrap();
    assert!(matches!(spaced.result, Value::Bool(false)));
    let broken = m
        .invoke(
            v,
            &b"validate_alphanumeric".to_vec(),
            &vec![Value::Text(vec![0xffu8, 0xfe])],
        )
        .unwrap();
    assert!(
        matches!(broken.result, Value::Bool(false)),
        "bytes that are not UTF-8 validate as false"
    );
}
