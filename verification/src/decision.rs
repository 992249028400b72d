//! The tri-state decision type and the chain evaluation protocol.
//!
//! Authenticators are consulted in a fixed order.  The first one that
//! renders a verdict (accept or reject) ends the chain; an authenticator
//! that cancels defers to the next one.  A chain that runs out of
//! authenticators fails closed.

use vstd::prelude::*;

verus! {

/// The verdict of a single authenticator.
#[derive(Clone, Copy, PartialEq, Eq, Structural, Debug)]
pub enum Decision {
    /// Proof of possession succeeded: let the login proceed at once.
    Accept,
    /// Proof was attempted and failed definitively: abort the whole chain.
    Reject,
    /// This authenticator does not apply or cannot decide:
    /// the chain must continue with the next authenticator.
    Cancel,
}

/// The first non-cancel decision of a sequence, or `Cancel` if every
/// authenticator cancelled.
pub open spec fn first_verdict(s: Seq<Decision>) -> Decision
    decreases s.len(),
{
    if s.len() == 0 {
        Decision::Cancel
    } else if s[0] != Decision::Cancel {
        s[0]
    } else {
        first_verdict(s.drop_first())
    }
}

/// Evaluate a whole chain of already-rendered decisions: the result is the
/// first non-cancel decision, and `Cancel` when all of them cancelled
/// (which the caller must treat as a rejection: fail closed).
pub fn evaluate_chain(decisions: &Vec<Decision>) -> (r: Decision)
    ensures
        r == first_verdict(decisions@),
{
    let n = decisions.len();
    proof {
        assert(decisions@.skip(0) =~= decisions@);
    }
    for i in 0..n
        invariant
            n == decisions@.len(),
            first_verdict(decisions@) == first_verdict(decisions@.skip(i as int)),
    {
        proof {
            assert(decisions@.skip(i as int).drop_first() =~= decisions@.skip(i + 1));
        }
        if decisions[i] != Decision::Cancel {
            return decisions[i];
        }
    }
    proof {
        assert(decisions@.skip(n as int) =~= Seq::<Decision>::empty());
    }
    Decision::Cancel
}

/// Every decision before index `i` is a cancellation.
pub open spec fn prefix_cancelled(s: Seq<Decision>, i: int) -> bool {
    forall|j: int| 0 <= j < i ==> s[j] == Decision::Cancel
}

/// The chain evaluator renders verdict `d` (accept or reject) exactly when
/// some authenticator decided `d` and every authenticator before it
/// cancelled; an all-cancel sequence yields no verdict (the caller must
/// fail closed).
pub proof fn lemma_chain_first_verdict(s: Seq<Decision>, d: Decision)
    requires
        d != Decision::Cancel,
    ensures
        first_verdict(s) == d <==> exists|i: int|
            0 <= i < s.len() && s[i] == d && #[trigger] prefix_cancelled(s, i),
        (forall|i: int| 0 <= i < s.len() ==> s[i] == Decision::Cancel) ==> first_verdict(s)
            == Decision::Cancel,
    decreases s.len(),
{
    if s.len() == 0 {
    } else if s[0] != Decision::Cancel {
        if first_verdict(s) == d {
            assert(s[0] == d && prefix_cancelled(s, 0));
        }
        if exists|i: int| 0 <= i < s.len() && s[i] == d && #[trigger] prefix_cancelled(s, i) {
            let i = choose|i: int|
                0 <= i < s.len() && s[i] == d && #[trigger] prefix_cancelled(s, i);
            assert(i == 0);
        }
    } else {
        let t = s.drop_first();
        lemma_chain_first_verdict(t, d);
        if first_verdict(t) == d {
            let i = choose|i: int|
                0 <= i < t.len() && t[i] == d && #[trigger] prefix_cancelled(t, i);
            assert(s[i + 1] == d);
            assert(prefix_cancelled(s, i + 1)) by {
                assert(forall|j: int| 1 <= j < i + 1 ==> s[j] == t[j - 1]);
            }
        }
        if exists|i: int| 0 <= i < s.len() && s[i] == d && #[trigger] prefix_cancelled(s, i) {
            let i = choose|i: int|
                0 <= i < s.len() && s[i] == d && #[trigger] prefix_cancelled(s, i);
            assert(i != 0);
            assert(t[i - 1] == d);
            assert(prefix_cancelled(t, i - 1)) by {
                assert(forall|j: int| 0 <= j < i - 1 ==> t[j] == s[j + 1]);
            }
        }
        assert(forall|j: int| 0 <= j < t.len() ==> t[j] == s[j + 1]);
    }
}

/// How far an interactive authentication protocol got on a transcript of
/// events: a verdict, or a need for the next outside event.
#[derive(Clone, Copy, PartialEq, Eq, Structural, Debug)]
pub enum LoginResult {
    /// Proof succeeded.
    Accept,
    /// Proof failed definitively (retries exhausted).
    Reject,
    /// The user opted out or the authenticator cannot decide.
    Cancel,
    /// The transcript ended where another input line is consumed.
    NeedInput,
    /// The transcript ended where a mail submission outcome is consumed.
    NeedMail,
}

/// The chain decision an interactive outcome stands for: a transcript that
/// ended early counts as a cancellation, exactly as a failed console read
/// does.
pub fn login_result_decision(r: LoginResult) -> (d: Decision)
    ensures
        d == (match r {
            LoginResult::Accept => Decision::Accept,
            LoginResult::Reject => Decision::Reject,
            _ => Decision::Cancel,
        }),
{
    match r {
        LoginResult::Accept => Decision::Accept,
        LoginResult::Reject => Decision::Reject,
        _ => Decision::Cancel,
    }
}

/// What the process must do after one authenticator has been consulted.
#[derive(PartialEq, Eq, Debug)]
pub enum ChainStep {
    /// The authenticator cancelled: consult the next one.
    Continue,
    /// The authenticator accepted: replace this process with the real
    /// shell, called with the given arguments.
    Launch(Vec<String>),
    /// The authenticator rejected: abort with the given generic message.
    Abort(String),
}

/// Act on one authenticator's decision.
///
/// In exec mode (`exec_cmd` present) the accepted launch carries `-c` and
/// the command remainder the authenticator handed back, followed by the
/// passthrough arguments; in login mode only the passthrough arguments.
/// A rejection aborts with a fixed message that does not say which
/// authenticator failed or why.
pub fn do_check_auth(decision: Decision, exec_cmd: Option<String>, passthrough: Vec<String>) -> (r:
    ChainStep)
    ensures
        decision == Decision::Cancel ==> r == ChainStep::Continue,
        decision == Decision::Reject ==> (r matches ChainStep::Abort(m) && m@ == "Rejected"@),
        decision == Decision::Accept && exec_cmd is None ==> r == ChainStep::Launch(passthrough),
        decision == Decision::Accept ==> (exec_cmd matches Some(cmd) ==> (r matches
            ChainStep::Launch(args) && args@.len() == 2 + passthrough@.len() && args@[0]@ == "-c"@
            && args@[1] == cmd && args@.skip(2) == passthrough@)),
{
    match decision {
        Decision::Cancel => ChainStep::Continue,
        Decision::Reject => ChainStep::Abort(rejected_message()),
        Decision::Accept => {
            match exec_cmd {
                None => ChainStep::Launch(passthrough),
                Some(cmd) => {
                    let mut args: Vec<String> = Vec::new();
                    args.push(String::from_str("-c"));
                    args.push(cmd);
                    let mut rest = passthrough;
                    args.append(&mut rest);
                    ChainStep::Launch(args)
                },
            }
        },
    }
}

/// The generic user-visible message for a definitive rejection.
pub fn rejected_message() -> (r: String)
    ensures
        r@ == "Rejected"@,
{
    String::from_str("Rejected")
}

/// Prefix a failure message with the fixed salutation shown to the user.
pub fn print_err_exit(msg: String) -> (r: String)
    ensures
        r@ == "Sorry: "@ + msg@,
{
    let mut out = String::from_str("Sorry: ");
    out.append(msg.as_str());
    out
}

} // verus!
