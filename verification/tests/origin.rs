use sibsecsh::auth::{Authenticator, BypassAuthenticator, LocalIPAuthenticator};
use sibsecsh::config::SecRcCfg;
use sibsecsh::decision::Decision;

fn local(from: &str, ranges: Vec<&str>) -> LocalIPAuthenticator {
    let mut cfg = SecRcCfg::default();
    cfg.accepted_ips = Some(ranges.into_iter().map(String::from).collect());
    LocalIPAuthenticator::new(&cfg, String::from(from))
}

#[test]
fn origin_inside_configured_range_accepts() {
    let auth = local("10.0.0.5", vec!["10.0.0.0/24"]);
    assert_eq!(auth.is_accepted_login(), Decision::Accept);
}

#[test]
fn origin_outside_configured_range_cancels() {
    let auth = local("10.0.0.5", vec!["192.168.0.0/24"]);
    assert_eq!(auth.is_accepted_login(), Decision::Cancel);
}

#[test]
fn malformed_range_is_skipped_not_fatal() {
    let auth = local("10.0.0.5", vec!["not-a-range", "10.0.0.0/8"]);
    assert_eq!(auth.is_accepted_login(), Decision::Accept);
    let auth2 = local("10.0.0.5", vec!["not-a-range"]);
    assert_eq!(auth2.is_accepted_login(), Decision::Cancel);
}

#[test]
fn unparsable_origin_cancels() {
    let auth = local("", vec!["10.0.0.0/24"]);
    assert_eq!(auth.is_accepted_login(), Decision::Cancel);
    let auth2 = local("reverse.shell.example", vec!["0.0.0.0/0"]);
    assert_eq!(auth2.is_accepted_login(), Decision::Cancel);
}

#[test]
fn range_boundaries_are_respected() {
    assert_eq!(local("10.0.0.255", vec!["10.0.0.0/24"]).is_accepted_login(), Decision::Accept);
    assert_eq!(local("10.0.1.0", vec!["10.0.0.0/24"]).is_accepted_login(), Decision::Cancel);
    assert_eq!(local("127.0.0.1", vec!["127.0.0.1"]).is_accepted_login(), Decision::Accept);
    assert_eq!(local("127.0.0.2", vec!["127.0.0.1"]).is_accepted_login(), Decision::Cancel);
}

#[test]
fn zero_length_range_admits_every_address_of_its_family() {
    assert_eq!(local("203.0.113.9", vec!["0.0.0.0/0"]).is_accepted_login(), Decision::Accept);
    assert_eq!(local("2001:db8::1", vec!["0.0.0.0/0"]).is_accepted_login(), Decision::Cancel);
    assert_eq!(local("2001:db8::1", vec!["::/0"]).is_accepted_login(), Decision::Accept);
}

#[test]
fn six_byte_addresses_match_their_prefix() {
    assert_eq!(local("2001:db8::1", vec!["2001:db8::/32"]).is_accepted_login(), Decision::Accept);
    assert_eq!(local("2001:db9::1", vec!["2001:db8::/32"]).is_accepted_login(), Decision::Cancel);
}

#[test]
fn exec_mode_leaves_command_untouched() {
    let auth = local("10.0.0.5", vec!["10.0.0.0/24"]);
    let mut cmd = String::from("ls -l");
    assert_eq!(auth.is_accepted_exec(&mut cmd), Decision::Accept);
    assert_eq!(cmd, String::from("ls -l"));
}

#[test]
fn bypass_fires_on_either_marker() {
    assert_eq!(BypassAuthenticator::new(true, false).is_accepted_login(), Decision::Accept);
    assert_eq!(BypassAuthenticator::new(false, true).is_accepted_login(), Decision::Accept);
    assert_eq!(BypassAuthenticator::new(false, false).is_accepted_login(), Decision::Cancel);
}

#[test]
fn bypass_init_from_config_alone_stays_cancelled() {
    let cfg = SecRcCfg::default();
    let auth = <BypassAuthenticator as Authenticator>::init(&cfg);
    assert_eq!(auth.is_accepted_login(), Decision::Cancel);
    let mut cmd = String::from("x");
    assert_eq!(auth.is_accepted_exec(&mut cmd), Decision::Cancel);
    assert_eq!(cmd, String::from("x"));
}
