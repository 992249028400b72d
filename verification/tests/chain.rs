use sibsecsh::decision::{do_check_auth, evaluate_chain, print_err_exit, ChainStep, Decision};

#[test]
fn chain_first_non_cancel_accept_wins() {
    let ds = vec![Decision::Cancel, Decision::Accept, Decision::Reject];
    assert_eq!(evaluate_chain(&ds), Decision::Accept);
}

#[test]
fn chain_first_non_cancel_reject_wins() {
    let ds = vec![Decision::Cancel, Decision::Cancel, Decision::Reject, Decision::Accept];
    assert_eq!(evaluate_chain(&ds), Decision::Reject);
}

#[test]
fn chain_all_cancel_fails_closed() {
    let ds = vec![Decision::Cancel, Decision::Cancel, Decision::Cancel];
    assert_eq!(evaluate_chain(&ds), Decision::Cancel);
    let empty: Vec<Decision> = Vec::new();
    assert_eq!(evaluate_chain(&empty), Decision::Cancel);
}

#[test]
fn chain_single_decision() {
    assert_eq!(evaluate_chain(&vec![Decision::Accept]), Decision::Accept);
    assert_eq!(evaluate_chain(&vec![Decision::Reject]), Decision::Reject);
}

#[test]
fn check_auth_cancel_continues() {
    let r = do_check_auth(Decision::Cancel, Some(String::from("rest")), vec![]);
    assert_eq!(r, ChainStep::Continue);
}

#[test]
fn check_auth_reject_aborts_generic() {
    let r = do_check_auth(Decision::Reject, None, vec![String::from("-l")]);
    assert_eq!(r, ChainStep::Abort(String::from("Rejected")));
}

#[test]
fn check_auth_accept_login_launches_passthrough() {
    let r = do_check_auth(Decision::Accept, None, vec![String::from("-l")]);
    assert_eq!(r, ChainStep::Launch(vec![String::from("-l")]));
}

#[test]
fn check_auth_accept_exec_prepends_command() {
    let r = do_check_auth(
        Decision::Accept,
        Some(String::from("rest-of-command")),
        vec![String::from("-l")],
    );
    assert_eq!(
        r,
        ChainStep::Launch(vec![
            String::from("-c"),
            String::from("rest-of-command"),
            String::from("-l")
        ])
    );
}

#[test]
fn err_message_has_fixed_salutation() {
    assert_eq!(print_err_exit(String::from("Rejected")), String::from("Sorry: Rejected"));
}
