use sibsecsh::auth_totp::{HashAlgo, TotpAuthenticator};
use sibsecsh::codec::b64_to_bytes;
use sibsecsh::config::SecRcCfg;
use sibsecsh::decision::{Decision, LoginResult};

fn reference_auth(digits: u32) -> TotpAuthenticator {
    TotpAuthenticator {
        enabled: true,
        secret: b"12345678901234567890".to_vec(),
        digits,
        timestep: 30,
        hash: HashAlgo::Sha1,
    }
}

#[test]
fn reference_code_matches_at_its_own_step() {
    // the documented SHA1 reference: eight digits, time 59
    let auth = reference_auth(8);
    assert!(auth.compare_code(94287082, 59));
    assert!(auth.compare_code(94287082, 30));
}

#[test]
fn reference_code_tolerates_one_step_of_skew() {
    let auth = reference_auth(8);
    // one step later and one step earlier both still accept
    assert!(auth.compare_code(94287082, 89));
    assert!(auth.compare_code(94287082, 29));
}

#[test]
fn reference_code_expires_after_two_steps() {
    let auth = reference_auth(8);
    assert!(!auth.compare_code(94287082, 119));
    assert!(!auth.compare_code(94287082, 150));
}

#[test]
fn six_digit_code_is_the_truncated_reference() {
    let auth = reference_auth(6);
    assert!(auth.compare_code(287082, 59));
    assert!(!auth.compare_code(94287082, 59));
}

#[test]
fn init_decodes_configured_secret() {
    let mut cfg = SecRcCfg::default();
    cfg.totp_secret = Some(String::from("GEZDGNBVGY3TQOJQGEZDGNBVGY3TQOJQ"));
    let auth = TotpAuthenticator::init(&cfg);
    assert!(auth.enabled);
    assert_eq!(auth.secret, b"12345678901234567890".to_vec());
    assert_eq!(auth.digits, 6);
    assert_eq!(auth.timestep, 30);
    assert_eq!(auth.hash, HashAlgo::Sha1);
}

#[test]
fn init_without_secret_disables() {
    let cfg = SecRcCfg::default();
    let auth = TotpAuthenticator::init(&cfg);
    assert!(!auth.enabled);
    assert_eq!(auth.is_accepted_login(&vec![String::from("287082")], 59), LoginResult::Cancel);
}

#[test]
fn init_with_undecodable_secret_disables() {
    let mut cfg = SecRcCfg::default();
    cfg.totp_secret = Some(String::from("not base32!"));
    assert!(!TotpAuthenticator::init(&cfg).enabled);
}

#[test]
fn hash_names_decode_with_sha1_fallback() {
    let mut cfg = SecRcCfg::default();
    cfg.totp_secret = Some(String::from("MZXW6==="));
    cfg.totp_hash = Some(String::from("sha256"));
    assert_eq!(TotpAuthenticator::init(&cfg).hash, HashAlgo::Sha256);
    cfg.totp_hash = Some(String::from("SHA512"));
    assert_eq!(TotpAuthenticator::init(&cfg).hash, HashAlgo::Sha512);
    cfg.totp_hash = Some(String::from("md5"));
    assert_eq!(TotpAuthenticator::init(&cfg).hash, HashAlgo::Sha1);
    cfg.totp_hash = Some(String::from("SHA999"));
    assert_eq!(TotpAuthenticator::init(&cfg).hash, HashAlgo::Sha1);
}

#[test]
fn login_accepts_correct_code() {
    let auth = reference_auth(8);
    let inputs = vec![String::from("94287082\n")];
    assert_eq!(auth.is_accepted_login(&inputs, 59), LoginResult::Accept);
}

#[test]
fn login_three_wrong_codes_reject() {
    let auth = reference_auth(8);
    let inputs = vec![
        String::from("00000000"),
        String::from("11111111"),
        String::from("22222222"),
    ];
    assert_eq!(auth.is_accepted_login(&inputs, 59), LoginResult::Reject);
}

#[test]
fn login_empty_line_opts_out() {
    let auth = reference_auth(8);
    let inputs = vec![String::from("\n")];
    assert_eq!(auth.is_accepted_login(&inputs, 59), LoginResult::Cancel);
}

#[test]
fn login_recovers_after_wrong_attempt() {
    let auth = reference_auth(8);
    let inputs = vec![String::from("123"), String::from("94287082")];
    assert_eq!(auth.is_accepted_login(&inputs, 59), LoginResult::Accept);
}

#[test]
fn login_short_transcript_needs_input() {
    let auth = reference_auth(8);
    let inputs = vec![String::from("123")];
    assert_eq!(auth.is_accepted_login(&inputs, 59), LoginResult::NeedInput);
}

#[test]
fn exec_strips_matching_prefix() {
    let auth = reference_auth(8);
    let mut cmd = String::from("94287082ls -l");
    assert_eq!(auth.is_accepted_exec(&mut cmd, 59), Decision::Accept);
    assert_eq!(cmd, String::from("ls -l"));
}

#[test]
fn exec_short_command_cancels_unchanged() {
    let auth = reference_auth(8);
    let mut cmd = String::from("9428708");
    assert_eq!(auth.is_accepted_exec(&mut cmd, 59), Decision::Cancel);
    assert_eq!(cmd, String::from("9428708"));
}

#[test]
fn exec_wrong_prefix_cancels_unchanged() {
    let auth = reference_auth(8);
    let mut cmd = String::from("00000000ls -l");
    assert_eq!(auth.is_accepted_exec(&mut cmd, 59), Decision::Cancel);
    assert_eq!(cmd, String::from("00000000ls -l"));
}

#[test]
fn secret_from_codec_computes_reference_code() {
    let secret = b64_to_bytes("GEZDGNBVGY3TQOJQGEZDGNBVGY3TQOJQ").unwrap();
    let auth = TotpAuthenticator {
        enabled: true,
        secret,
        digits: 8,
        timestep: 30,
        hash: HashAlgo::Sha1,
    };
    assert!(auth.compare_code(94287082, 59));
}
