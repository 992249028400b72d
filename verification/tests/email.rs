use sibsecsh::auth_email::{shadow_email, ChallengeStore, EmailAuthenticator};
use sibsecsh::config::SecRcCfg;
use sibsecsh::decision::{Decision, LoginResult};

fn configured() -> EmailAuthenticator {
    EmailAuthenticator {
        email: Some(String::from("target@example.com")),
        enabled: true,
        code: 123456,
    }
}

#[test]
fn init_requires_all_mail_settings() {
    let mut cfg = SecRcCfg::default();
    cfg.email = Some(String::from("a@b.c"));
    cfg.mail_host = Some(String::from("relay"));
    cfg.mail_from = Some(String::from("from@b.c"));
    let auth = EmailAuthenticator::init(&cfg);
    assert!(auth.enabled);
    assert!(100000 <= auth.code && auth.code < 1000000);
    cfg.mail_host = None;
    assert!(!EmailAuthenticator::init(&cfg).enabled);
}

#[test]
fn shadowing_splits_local_part_at_midpoint() {
    let (display, expected) = shadow_email("john.doe@example.com").unwrap();
    assert_eq!(display, String::from("john****@example.com"));
    assert_eq!(expected, String::from(".doe"));
    assert_eq!(shadow_email("no-at-sign"), None);
}

#[test]
fn login_confirms_identity_then_code() {
    let auth = configured();
    let inputs = vec![String::from("get\n"), String::from("123456\n")];
    let mails = vec![true];
    assert_eq!(auth.is_accepted_login(&inputs, &mails), LoginResult::Accept);
}

#[test]
fn login_accepts_full_address_as_identity() {
    let auth = configured();
    let inputs = vec![String::from("target@example.com"), String::from("123456")];
    assert_eq!(auth.is_accepted_login(&inputs, &vec![true]), LoginResult::Accept);
}

#[test]
fn login_three_wrong_identities_reject() {
    let auth = configured();
    let inputs = vec![String::from("a"), String::from("b"), String::from("c")];
    assert_eq!(auth.is_accepted_login(&inputs, &vec![]), LoginResult::Reject);
}

#[test]
fn login_empty_identity_opts_out() {
    let auth = configured();
    let inputs = vec![String::from("")];
    assert_eq!(auth.is_accepted_login(&inputs, &vec![]), LoginResult::Cancel);
}

#[test]
fn login_three_wrong_code_entries_reject() {
    let auth = configured();
    let inputs = vec![
        String::from("get"),
        String::from("111111"),
        String::from("222222"),
        String::from("333333"),
    ];
    assert_eq!(auth.is_accepted_login(&inputs, &vec![true]), LoginResult::Reject);
}

#[test]
fn login_zero_resends_without_spending_a_try() {
    let auth = configured();
    let inputs = vec![
        String::from("get"),
        String::from("111111"),
        String::from("222222"),
        String::from("0"),
        String::from("123456"),
    ];
    assert_eq!(auth.is_accepted_login(&inputs, &vec![true, true]), LoginResult::Accept);
}

#[test]
fn login_failed_mail_cancels() {
    let auth = configured();
    let inputs = vec![String::from("get"), String::from("123456")];
    assert_eq!(auth.is_accepted_login(&inputs, &vec![false]), LoginResult::Cancel);
    let resend = vec![String::from("get"), String::from("0")];
    assert_eq!(auth.is_accepted_login(&resend, &vec![true, false]), LoginResult::Cancel);
}

#[test]
fn login_disabled_cancels() {
    let mut auth = configured();
    auth.enabled = false;
    assert_eq!(auth.is_accepted_login(&vec![], &vec![]), LoginResult::Cancel);
}

#[test]
fn exec_request_stores_code_and_rejects_this_call() {
    let auth = configured();
    let mut cmd = String::from("target@example.com");
    let mut store = ChallengeStore { stored: None };
    let (d, send) = auth.is_accepted_exec(&mut cmd, &mut store);
    assert_eq!(d, Decision::Reject);
    assert!(send);
    assert_eq!(cmd, String::from("target@example.com"));
    assert_eq!(store.stored, Some(String::from("123456")));
}

#[test]
fn exec_match_consumes_challenge_and_strips_prefix() {
    let auth = configured();
    let mut store = ChallengeStore { stored: None };
    let mut request = String::from("target@example.com");
    auth.is_accepted_exec(&mut request, &mut store);

    let mut cmd = String::from("123456rest-of-command");
    let (d, send) = auth.is_accepted_exec(&mut cmd, &mut store);
    assert_eq!(d, Decision::Accept);
    assert!(!send);
    assert_eq!(cmd, String::from("rest-of-command"));
    // single use: the challenge is gone
    assert_eq!(store.stored, None);

    // a second presentation of the same code cancels instead of accepting
    let mut again = String::from("123456rest-of-command");
    let (d2, send2) = auth.is_accepted_exec(&mut again, &mut store);
    assert_eq!(d2, Decision::Cancel);
    assert!(!send2);
    assert_eq!(again, String::from("123456rest-of-command"));
}

#[test]
fn exec_wrong_code_defers_and_keeps_challenge() {
    let auth = configured();
    let mut store = ChallengeStore { stored: Some(String::from("123456\n")) };
    let mut cmd = String::from("654321rest");
    let (d, send) = auth.is_accepted_exec(&mut cmd, &mut store);
    assert_eq!(d, Decision::Cancel);
    assert!(!send);
    assert_eq!(cmd, String::from("654321rest"));
    assert_eq!(store.stored, Some(String::from("123456\n")));
}

#[test]
fn exec_stored_code_is_trimmed_before_comparison() {
    let auth = configured();
    let mut store = ChallengeStore { stored: Some(String::from("  123456\n")) };
    let mut cmd = String::from("123456 ls");
    let (d, _send) = auth.is_accepted_exec(&mut cmd, &mut store);
    assert_eq!(d, Decision::Accept);
    assert_eq!(cmd, String::from(" ls"));
}

#[test]
fn exec_without_challenge_defers() {
    let auth = configured();
    let mut store = ChallengeStore { stored: None };
    let mut cmd = String::from("123456rest");
    assert_eq!(auth.is_accepted_exec(&mut cmd, &mut store).0, Decision::Cancel);
    assert_eq!(cmd, String::from("123456rest"));
}

#[test]
fn exec_without_configured_email_cancels() {
    let auth = EmailAuthenticator { email: None, enabled: false, code: 123456 };
    let mut store = ChallengeStore { stored: Some(String::from("123456")) };
    let mut cmd = String::from("123456rest");
    assert_eq!(auth.is_accepted_exec(&mut cmd, &mut store).0, Decision::Cancel);
}

#[test]
fn generated_codes_are_six_digits() {
    for _ in 0..50 {
        let c = EmailAuthenticator::gen_code();
        assert!(100000 <= c && c < 1000000);
    }
}
