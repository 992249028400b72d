use sibsecsh::config::SecRcCfg;
use sibsecsh::digits::{parse_u64_digits, u32_to_dec_string};
use sibsecsh::parse_args::parse_args;
use sibsecsh::config::shell_invocation;
use sibsecsh::strutil::{extract_parenthesized, splice_prefix, split_ws, trim, trim_end, ws_list_contains};

fn args(v: Vec<&str>) -> Vec<String> {
    v.into_iter().map(String::from).collect()
}

#[test]
fn args_with_command_flag() {
    let (cmd, rest) = parse_args(args(vec!["sibsecsh", "-c", "ls -l", "-x"]));
    assert_eq!(cmd, Some(String::from("ls -l")));
    assert_eq!(rest, args(vec!["-x"]));
}

#[test]
fn args_flag_in_the_middle() {
    let (cmd, rest) = parse_args(args(vec!["sibsecsh", "-a", "-c", "cmd", "-b"]));
    assert_eq!(cmd, Some(String::from("cmd")));
    assert_eq!(rest, args(vec!["-a", "-b"]));
}

#[test]
fn args_without_command_flag_pass_through() {
    let (cmd, rest) = parse_args(args(vec!["sibsecsh", "-l", "extra"]));
    assert_eq!(cmd, None);
    assert_eq!(rest, args(vec!["-l", "extra"]));
}

#[test]
fn args_trailing_lone_flag_is_not_a_command() {
    let (cmd, rest) = parse_args(args(vec!["sibsecsh", "-l", "-c"]));
    assert_eq!(cmd, None);
    assert_eq!(rest, args(vec!["-l", "-c"]));
}

#[test]
fn splice_removes_exactly_the_prefix() {
    let (p, rest) = splice_prefix("123456rest-of-command", 6).unwrap();
    assert_eq!(p, String::from("123456"));
    assert_eq!(rest, String::from("rest-of-command"));
    let whole = splice_prefix("abc", 3).unwrap();
    assert_eq!(whole.0, String::from("abc"));
    assert_eq!(whole.1, String::from(""));
}

#[test]
fn splice_refuses_short_commands() {
    assert_eq!(splice_prefix("12345", 6), None);
    assert_eq!(splice_prefix("", 1), None);
}

#[test]
fn trimming_matches_console_cleanup() {
    assert_eq!(trim_end("code\r\n"), String::from("code"));
    assert_eq!(trim_end("  code  "), String::from("  code"));
    assert_eq!(trim(" \t123456\n "), String::from("123456"));
    assert_eq!(trim("   "), String::from(""));
}

#[test]
fn decimal_parse_and_format_agree() {
    assert_eq!(parse_u64_digits("123456"), Some(123456));
    assert_eq!(parse_u64_digits("007"), Some(7));
    assert_eq!(parse_u64_digits("0"), Some(0));
    assert_eq!(parse_u64_digits(""), None);
    assert_eq!(parse_u64_digits("12a"), None);
    assert_eq!(parse_u64_digits("-1"), None);
    assert_eq!(parse_u64_digits("18446744073709551615"), Some(u64::MAX));
    assert_eq!(parse_u64_digits("18446744073709551616"), None);
    assert_eq!(u32_to_dec_string(0), String::from("0"));
    assert_eq!(u32_to_dec_string(123456), String::from("123456"));
    assert_eq!(u32_to_dec_string(u32::MAX), String::from("4294967295"));
    assert_eq!(parse_u64_digits(&u32_to_dec_string(100000)), Some(100000));
}

#[test]
fn origin_is_read_from_parenthesized_report() {
    let who = "user     pts/0        2021-01-01 00:00 01:02   12345 (10.0.0.5)";
    assert_eq!(extract_parenthesized(who), Some(String::from("10.0.0.5")));
    assert_eq!(extract_parenthesized("no parens here"), None);
    assert_eq!(extract_parenthesized(")("), None);
}

#[test]
fn config_defaults_are_documented_values() {
    let cfg = SecRcCfg::default();
    assert_eq!(cfg.accepted_ips, Some(vec![]));
    assert_eq!(cfg.mail_port, Some(587));
    assert_eq!(cfg.totp_digits, Some(6));
    assert_eq!(cfg.totp_timestep, Some(30));
    assert_eq!(cfg.totp_hash, Some(String::from("SHA1")));
    assert_eq!(cfg.log_file, Some(String::from("/var/log/sibsecsh.log")));
    assert_eq!(cfg.tmpdir, Some(String::from("/tmp/sibsecsh")));
    assert_eq!(cfg.email, None);
    assert_eq!(cfg.totp_secret, None);
    assert_eq!(cfg.yubico_id, None);
}

#[test]
fn config_merge_overrides_and_accumulates_ranges() {
    let mut base = SecRcCfg::default();
    base.accepted_ips = Some(args(vec!["10.0.0.0/24"]));
    base.email = Some(String::from("old@example.com"));
    let mut incoming = SecRcCfg::default();
    incoming.accepted_ips = Some(args(vec!["192.168.0.0/16"]));
    incoming.email = Some(String::from("new@example.com"));
    incoming.totp_secret = Some(String::from("MZXW6==="));
    incoming.mail_port = None;
    base.merge_from(incoming);
    assert_eq!(base.accepted_ips, Some(args(vec!["10.0.0.0/24", "192.168.0.0/16"])));
    assert_eq!(base.email, Some(String::from("new@example.com")));
    assert_eq!(base.totp_secret, Some(String::from("MZXW6===")));
    assert_eq!(base.mail_port, Some(587));
}

#[test]
fn whitespace_split_collapses_runs() {
    assert_eq!(split_ws("  -l  --color auto\n"), args(vec!["-l", "--color", "auto"]));
    assert_eq!(split_ws(""), Vec::<String>::new());
    assert_eq!(split_ws(" \t\n"), Vec::<String>::new());
    assert_eq!(split_ws("one"), args(vec!["one"]));
    assert!(ws_list_contains("/bin/sh\n/bin/bash\n", &String::from("/bin/bash")));
    assert!(!ws_list_contains("/bin/sh\n/bin/bash\n", &String::from("/bin/zsh")));
}

#[test]
fn shell_invocation_appends_per_login_arguments() {
    let built = shell_invocation("-i --restricted", args(vec!["-c", "ls"]));
    assert_eq!(built, args(vec!["-i", "--restricted", "-c", "ls"]));
}
