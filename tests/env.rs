use artichoke_env_load::env::{EnvErrorKind, GetPlan, PutPlan, System};

fn pairs(items: &[(&str, &str)]) -> Vec<(Vec<u8>, Vec<u8>)> {
    items
        .iter()
        .map(|(k, v)| (k.as_bytes().to_vec(), v.as_bytes().to_vec()))
        .collect()
}

#[test]
fn get_empty_name_is_absent() {
    let env = System::new();
    assert_eq!(env.plan_get(b"").unwrap(), GetPlan::Absent);
}

#[test]
fn get_name_with_equals_is_absent() {
    let env = System::new();
    assert_eq!(env.plan_get(b"A=B").unwrap(), GetPlan::Absent);
    assert_eq!(env.plan_get(b"=").unwrap(), GetPlan::Absent);
}

#[test]
fn get_name_with_nul_is_refused() {
    let env = System::new();
    let err = env.plan_get(b"A\0B").unwrap_err();
    assert_eq!(err.kind, EnvErrorKind::NameContainsNul);
    assert_eq!(err.name, b"A\0B".to_vec());
    assert_eq!(err.message(), "bad environment variable name: contains null byte");
}

#[test]
fn get_valid_name_reads() {
    let env = System::new();
    assert_eq!(env.plan_get(b"HOME").unwrap(), GetPlan::Read);
}

#[test]
fn equals_is_checked_before_nul() {
    let env = System::new();
    assert_eq!(env.plan_get(b"A=\0").unwrap(), GetPlan::Absent);
    let err = env.plan_put(b"A=\0", Some(b"v")).unwrap_err();
    assert_eq!(err.kind, EnvErrorKind::InvalidName);
}

#[test]
fn put_empty_name_is_invalid() {
    let env = System::new();
    let err = env.plan_put(b"", Some(b"v")).unwrap_err();
    assert_eq!(err.kind, EnvErrorKind::InvalidName);
    assert_eq!(err.message(), "Invalid argument - setenv(\"\")");
}

#[test]
fn put_name_with_equals_is_invalid() {
    let env = System::new();
    let err = env.plan_put(b"A=B", None).unwrap_err();
    assert_eq!(err.kind, EnvErrorKind::InvalidName);
    assert_eq!(err.message(), "Invalid argument - setenv(\"A=B\")");
}

#[test]
fn invalid_name_message_escapes_bytes() {
    let env = System::new();
    let err = env.plan_put(b"=\n\xff", Some(b"v")).unwrap_err();
    assert_eq!(err.message(), "Invalid argument - setenv(\"=\\n\\xFF\")");
}

#[test]
fn put_name_with_nul_is_refused() {
    let env = System::new();
    let err = env.plan_put(b"A\0", Some(b"v")).unwrap_err();
    assert_eq!(err.kind, EnvErrorKind::NameContainsNul);
    assert_eq!(err.message(), "bad environment variable name: contains null byte");
    let err = env.plan_put(b"A\0", None).unwrap_err();
    assert_eq!(err.kind, EnvErrorKind::NameContainsNul);
}

#[test]
fn put_value_with_nul_is_refused() {
    let env = System::new();
    let err = env.plan_put(b"A", Some(b"x\0y")).unwrap_err();
    assert_eq!(err.kind, EnvErrorKind::ValueContainsNul);
    assert_eq!(err.message(), "bad environment variable value: contains null byte");
}

#[test]
fn put_valid_value_assigns() {
    let env = System::new();
    assert_eq!(env.plan_put(b"A", Some(b"1")).unwrap(), PutPlan::Assign);
    assert_eq!(env.plan_put(b"A", Some(b"")).unwrap(), PutPlan::Assign);
}

#[test]
fn put_without_value_removes() {
    let env = System::new();
    assert_eq!(env.plan_put(b"A", None).unwrap(), PutPlan::Remove);
}

#[test]
fn as_map_holds_exactly_the_pairs() {
    let env = System::new();
    let map = env.as_map(&pairs(&[("A", "1"), ("B", "2")]));
    assert_eq!(map, pairs(&[("A", "1"), ("B", "2")]));
}

#[test]
fn as_map_later_pair_wins() {
    let env = System::new();
    let map = env.as_map(&pairs(&[("A", "1"), ("B", "2"), ("A", "3")]));
    assert_eq!(map, pairs(&[("A", "3"), ("B", "2")]));
}

#[test]
fn as_map_of_nothing_is_empty() {
    let env = System::new();
    assert!(env.as_map(&Vec::new()).is_empty());
}
