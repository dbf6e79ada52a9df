use file_shards::principal::Principal;
use file_shards::utils::{validate_anonymous, validate_admin, validate_anonymous_and_admin};
use file_shards::whitelist::whitelist;
use file_shards::api_error::{ApiError, CanisterFailedError};

#[test]
fn anonymous_caller_is_rejected() {
    let anon = Principal::anonymous();
    assert_eq!(anon.bytes, vec![4]);
    match validate_anonymous(&anon) {
        Err(ApiError::Unauthorized(m)) => assert_eq!(m, "UNAUTHORIZED"),
        _ => panic!("expected Unauthorized"),
    }
    let real = Principal::from_bytes(vec![1, 2, 3]);
    let passed = validate_anonymous(&real).unwrap();
    assert_eq!(passed.bytes, real.bytes);
}

#[test]
fn only_allow_listed_callers_pass_the_admin_gate() {
    let allow = whitelist();
    assert_eq!(allow.len(), 5);
    for admin in &allow {
        let passed = validate_admin(admin).unwrap();
        assert_eq!(passed.bytes, admin.bytes);
    }
    let outsider = Principal::from_bytes(vec![1, 2, 3]);
    match validate_admin(&outsider) {
        Err(ApiError::Unauthorized(m)) => assert_eq!(m, "UNAUTHORIZED"),
        _ => panic!("expected Unauthorized"),
    }
}

#[test]
fn errors_carry_their_message() {
    let e = ApiError::Unauthorized("UNAUTHORIZED".to_string());
    assert_eq!(e.message(), "UNAUTHORIZED");
    let p = ApiError::CanisterFailed(CanisterFailedError {
        code: 5,
        message: "out of cycles".to_string(),
    });
    assert_eq!(p.message(), "out of cycles");
}

#[test]
fn combined_gate_needs_both() {
    let anon = Principal::anonymous();
    assert!(validate_anonymous_and_admin(&anon).is_err());
    let outsider = Principal::from_bytes(vec![1, 2, 3]);
    assert!(validate_anonymous_and_admin(&outsider).is_err());
    let admin = whitelist().remove(0);
    assert!(validate_anonymous_and_admin(&admin).is_ok());
}
