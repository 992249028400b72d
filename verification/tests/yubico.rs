use sibsecsh::auth_yubico::{
    build_verify_query, check_verify_response, RemoteError, RemoteOutcome, YubicoAuthenticator,
    YubicoStep,
};
use sibsecsh::config::SecRcCfg;
use sibsecsh::decision::Decision;

fn configured() -> YubicoAuthenticator {
    YubicoAuthenticator { yubico_id: Some(String::from("ccccccdefghi")) }
}

#[test]
fn response_all_fields_match_verifies() {
    let body = "otp=abc\r\nnonce=xyz\r\nstatus=OK";
    let r = check_verify_response(body, &String::from("abc"), &String::from("xyz"));
    assert_eq!(r, Ok(true));
}

#[test]
fn response_bad_status_denies() {
    let body = "otp=abc\r\nnonce=xyz\r\nstatus=REPLAYED_OTP";
    let r = check_verify_response(body, &String::from("abc"), &String::from("xyz"));
    assert_eq!(r, Ok(false));
}

#[test]
fn response_otp_mismatch_denies_despite_ok_status() {
    let body = "otp=else\r\nnonce=xyz\r\nstatus=OK";
    let r = check_verify_response(body, &String::from("abc"), &String::from("xyz"));
    assert_eq!(r, Ok(false));
}

#[test]
fn response_nonce_mismatch_denies_despite_ok_status() {
    let body = "otp=abc\r\nnonce=other\r\nstatus=OK";
    let r = check_verify_response(body, &String::from("abc"), &String::from("xyz"));
    assert_eq!(r, Ok(false));
}

#[test]
fn response_missing_status_is_distinct_error() {
    let body = "otp=abc\r\nnonce=xyz";
    let r = check_verify_response(body, &String::from("abc"), &String::from("xyz"));
    assert_eq!(r, Err(RemoteError::MissingStatus));
}

#[test]
fn response_missing_otp_and_nonce_are_errors() {
    let body = "nonce=xyz\r\nstatus=OK";
    assert_eq!(
        check_verify_response(body, &String::from("abc"), &String::from("xyz")),
        Err(RemoteError::MissingOtp)
    );
    let body2 = "otp=abc\r\nstatus=OK";
    assert_eq!(
        check_verify_response(body2, &String::from("abc"), &String::from("xyz")),
        Err(RemoteError::MissingNonce)
    );
}

#[test]
fn response_line_without_separator_is_malformed() {
    let body = "otp=abc\r\ngarbage\r\nstatus=OK";
    assert_eq!(
        check_verify_response(body, &String::from("abc"), &String::from("xyz")),
        Err(RemoteError::MalformedLine)
    );
}

#[test]
fn response_skips_empty_lines_and_keeps_last_duplicate() {
    let body = "\r\notp=abc\r\n\r\nnonce=bad\r\nnonce=xyz\r\nstatus=OK\r\n";
    let r = check_verify_response(body, &String::from("abc"), &String::from("xyz"));
    assert_eq!(r, Ok(true));
}

#[test]
fn response_value_may_contain_separator() {
    let body = "otp=a=b\r\nnonce=xyz\r\nstatus=OK";
    let r = check_verify_response(body, &String::from("a=b"), &String::from("xyz"));
    assert_eq!(r, Ok(true));
}

#[test]
fn query_id_and_nonce_are_in_documented_ranges() {
    for _ in 0..20 {
        let (id, nonce) = build_verify_query();
        assert!(id < 1000);
        let n = nonce.chars().count();
        assert!(16 <= n && n <= 40);
    }
}

#[test]
fn init_keeps_first_twelve_characters() {
    let mut cfg = SecRcCfg::default();
    cfg.yubico_id = Some(String::from("ccccccdefghiEXTRA"));
    let auth = YubicoAuthenticator::init(&cfg);
    assert_eq!(auth.yubico_id, Some(String::from("ccccccdefghi")));
    cfg.yubico_id = Some(String::from("short"));
    assert_eq!(YubicoAuthenticator::init(&cfg).yubico_id, None);
    cfg.yubico_id = None;
    assert_eq!(YubicoAuthenticator::init(&cfg).yubico_id, None);
}

#[test]
fn login_step_classifies_inputs() {
    let auth = configured();
    assert_eq!(auth.login_step("  \n"), YubicoStep::Cancel);
    assert_eq!(auth.login_step("ccccccdefgh"), YubicoStep::Reject);
    assert_eq!(auth.login_step("ffffffdefghijkjburnvjrlkej"), YubicoStep::Reject);
    match auth.login_step("ccccccdefghijkjburnvjrlkej\n") {
        YubicoStep::Submit(s) => assert_eq!(s, String::from("ccccccdefghijkjburnvjrlkej")),
        _ => panic!("expected a submission"),
    }
    let disabled = YubicoAuthenticator { yubico_id: None };
    assert_eq!(disabled.login_step("ccccccdefghijkjburnvjrlkej"), YubicoStep::Cancel);
}

#[test]
fn login_conclusion_maps_remote_outcomes() {
    let auth = configured();
    assert_eq!(auth.login_conclude(RemoteOutcome::Verified), Decision::Accept);
    assert_eq!(auth.login_conclude(RemoteOutcome::Denied), Decision::Cancel);
    assert_eq!(auth.login_conclude(RemoteOutcome::Failed), Decision::Cancel);
}

#[test]
fn exec_requires_forty_four_characters() {
    let auth = configured();
    let short = String::from("ccccccdefghijk");
    assert_eq!(auth.exec_request(&short), None);
    let presented = "x".repeat(44);
    let cmd = format!("{}ls -l", presented);
    let otp = auth.exec_request(&cmd).unwrap();
    assert_eq!(otp.chars().count(), 44);
    assert_eq!(otp, presented);
}

#[test]
fn exec_conclusion_strips_on_success_only() {
    let auth = configured();
    let mut cmd = format!("{}ls -l", "x".repeat(44));
    assert_eq!(auth.exec_conclude(&mut cmd, RemoteOutcome::Verified), Decision::Accept);
    assert_eq!(cmd, String::from("ls -l"));
    let mut cmd2 = format!("{}ls -l", "x".repeat(44));
    assert_eq!(auth.exec_conclude(&mut cmd2, RemoteOutcome::Denied), Decision::Cancel);
    assert_eq!(cmd2, format!("{}ls -l", "x".repeat(44)));
}
