//! The email-challenge authenticator: a random six-digit code is mailed to
//! the configured address, and the login proceeds only when the user echoes
//! it back.
//!
//! Interactive logins confirm the recipient's identity against a shadowed
//! form of the address, then collect the mailed code.  Non-interactive
//! (exec) requests bridge two process invocations through a single-use
//! challenge store: the first call mails and stores the code, the second
//! presents it as a command prefix, which consumes the challenge.

use vstd::prelude::*;
use crate::config::SecRcCfg;
use crate::decision::{Decision, LoginResult};
use crate::digits::{all_digits, digits_val, u32_to_dec_string};
use crate::rng::rand_in_range;
use crate::strutil::{splice_prefix, trim, trim_end, trim_back_spec, trim_spec};

verus! {

/// The single-use challenge bridging the two process invocations of an
/// exec-mode login; the host keeps it as a file under the configured
/// temporary directory and mirrors every change made here.
pub struct ChallengeStore {
    /// The stored code text, `None` when no challenge is outstanding.
    pub stored: Option<String>,
}

/// The index of the last `@` in a string, if any.
pub open spec fn last_at_idx(s: Seq<char>) -> Option<int>
    decreases s.len(),
{
    if s.len() == 0 {
        None
    } else if s.last() == '@' {
        Some(s.len() - 1)
    } else {
        last_at_idx(s.drop_last())
    }
}

proof fn lemma_last_at(s: Seq<char>, i: int)
    requires
        0 <= i < s.len(),
        s[i] == '@',
        forall|j: int| i < j < s.len() ==> s[j] != '@',
    ensures
        last_at_idx(s) == Some(i),
    decreases s.len(),
{
    if s.last() == '@' {
        assert(i == s.len() - 1);
    } else {
        assert(forall|j: int| i < j < s.drop_last().len() ==> s.drop_last()[j] != '@');
        assert(s.drop_last()[i] == '@');
        lemma_last_at(s.drop_last(), i);
    }
}

proof fn lemma_no_at(s: Seq<char>)
    requires
        forall|j: int| 0 <= j < s.len() ==> s[j] != '@',
    ensures
        last_at_idx(s) is None,
    decreases s.len(),
{
    if s.len() > 0 {
        lemma_no_at(s.drop_last());
    }
}

/// The shadowed display form of an address: the first half of the local
/// part shown, the rest of it masked with `*`, the domain in full.
pub open spec fn shadow_display(email: Seq<char>, k: int) -> Seq<char> {
    email.take(k / 2) + Seq::new((k - k / 2) as nat, |x: int| '*') + email.skip(k)
}

/// What the user must type to confirm identity: the hidden second half of
/// the local part.
pub open spec fn shadow_expected(email: Seq<char>, k: int) -> Seq<char> {
    email.subrange(k / 2, k)
}

/// Split an address at its last `@` into the shadowed display form and the
/// expected reply; `None` when the string has no `@`.
pub fn shadow_email(email: &str) -> (r: Option<(String, String)>)
    ensures
        r is Some <==> last_at_idx(email@) is Some,
        r matches Some(p) ==> (last_at_idx(email@) matches Some(k) && p.0@ == shadow_display(
            email@,
            k,
        ) && p.1@ == shadow_expected(email@, k)),
{
    let n = email.unicode_len();
    let k = match crate::strutil::rfind_char(email, '@') {
        Some(k) => {
            proof {
                lemma_last_at(email@, k as int);
            }
            k
        },
        None => {
            proof {
                lemma_no_at(email@);
            }
            return None;
        },
    };
    let half = k / 2;
    let mut display = String::from_str(email.substring_char(0, half));
    let mut stars: usize = 0;
    while stars < k - half
        invariant
            stars <= k - half,
            half == k as int / 2,
            k < n == email@.len(),
            display@ =~= email@.take(k as int / 2) + Seq::new(stars as nat, |x: int| '*'),
        decreases k - half - stars,
    {
        display.push('*');
        proof {
            assert(display@ =~= email@.take(k as int / 2) + Seq::new(
                (stars + 1) as nat,
                |x: int| '*',
            ));
        }
        stars = stars + 1;
    }
    display.append(email.substring_char(k, n));
    let expected = String::from_str(email.substring_char(half, k));
    proof {
        assert(display@ =~= shadow_display(email@, k as int));
        assert(email@.subrange(0, k as int / 2) =~= email@.take(k as int / 2));
        assert(email@.subrange(k as int, n as int) =~= email@.skip(k as int));
    }
    Some((display, expected))
}

/// The identity-confirmation phase over a transcript: up to three inputs,
/// each trimmed of trailing whitespace; an empty line opts out, a line
/// matching the hidden half or the full address passes, three misses
/// reject.  The returned index is where the transcript continues.
pub open spec fn phase1_spec(
    expected: Seq<char>,
    full: Seq<char>,
    inputs: Seq<Seq<char>>,
    idx: int,
    tries: nat,
) -> (LoginResult, int)
    decreases 3 - tries,
{
    if tries >= 3 {
        (LoginResult::Reject, idx)
    } else if idx >= inputs.len() || idx < 0 {
        (LoginResult::NeedInput, idx)
    } else {
        let t = trim_back_spec(inputs[idx]);
        if t.len() == 0 {
            (LoginResult::Cancel, idx + 1)
        } else if t == expected || t == full {
            (LoginResult::Accept, idx + 1)
        } else {
            phase1_spec(expected, full, inputs, idx + 1, (tries + 1) as nat)
        }
    }
}

/// The code-collection phase over a transcript: up to three inputs; a `0`
/// asks for a resend (consuming a mail outcome, not a retry); a line
/// naming the mailed code accepts; three misses reject; a failed mail
/// submission cancels the authenticator.
pub open spec fn phase2_spec(
    code: u32,
    inputs: Seq<Seq<char>>,
    idx: int,
    tries: nat,
    mails: Seq<bool>,
    m: int,
) -> LoginResult
    decreases inputs.len() - idx,
{
    if tries >= 3 {
        LoginResult::Reject
    } else if idx >= inputs.len() || idx < 0 {
        LoginResult::NeedInput
    } else {
        let t = trim_back_spec(inputs[idx]);
        if t.len() > 0 && all_digits(t) && digits_val(t) == 0 {
            if m >= mails.len() || m < 0 {
                LoginResult::NeedMail
            } else if !mails[m] {
                LoginResult::Cancel
            } else {
                phase2_spec(code, inputs, idx + 1, tries, mails, m + 1)
            }
        } else if t.len() > 0 && all_digits(t) && digits_val(t) == code {
            LoginResult::Accept
        } else {
            phase2_spec(code, inputs, idx + 1, (tries + 1) as nat, mails, m)
        }
    }
}

/// The email-challenge authenticator.
pub struct EmailAuthenticator {
    /// The configured recipient address.
    pub email: Option<String>,
    /// Recipient, relay host, port and sender are all configured.
    pub enabled: bool,
    /// This session's challenge code.
    pub code: u32,
}

impl EmailAuthenticator {
    /// Draw a fresh six-digit challenge code.
    pub fn gen_code() -> (r: u32)
        ensures
            100000 <= r < 1000000,
    {
        rand_in_range(100000, 1000000)
    }

    /// Build the authenticator: enabled only when recipient, relay host,
    /// port and sender address are all configured; a missing field
    /// disables it (the host logs which).
    pub fn init(config: &SecRcCfg) -> (r: EmailAuthenticator)
        ensures
            r.email == config.email,
            r.enabled <==> (config.email is Some && config.mail_host is Some
                && config.mail_port is Some && config.mail_from is Some),
            100000 <= r.code < 1000000,
    {
        let code = EmailAuthenticator::gen_code();
        let enabled = config.email.is_some() && config.mail_host.is_some()
            && config.mail_port.is_some() && config.mail_from.is_some();
        EmailAuthenticator { email: config.email.clone(), enabled, code }
    }

    /// The whole interactive protocol over a transcript of input lines and
    /// mail-submission outcomes: identity confirmation, one code mail,
    /// then code collection.
    pub open spec fn login_spec(&self, inputs: Seq<Seq<char>>, mails: Seq<bool>) -> LoginResult {
        if !self.enabled {
            LoginResult::Cancel
        } else {
            match self.email {
                None => LoginResult::Cancel,
                Some(e) => match last_at_idx(e@) {
                    None => LoginResult::Cancel,
                    Some(k) => {
                        let confirm = phase1_spec(shadow_expected(e@, k), e@, inputs, 0, 0);
                        if confirm.0 != LoginResult::Accept {
                            confirm.0
                        } else if mails.len() < 1 {
                            LoginResult::NeedMail
                        } else if !mails[0] {
                            LoginResult::Cancel
                        } else {
                            phase2_spec(self.code, inputs, confirm.1, 0, mails, 1)
                        }
                    },
                },
            }
        }
    }

    /// Decide an interactive login from the lines the user enters and the
    /// outcomes of the mail submissions, both in consumption order.
    pub fn is_accepted_login(&self, inputs: &Vec<String>, mails: &Vec<bool>) -> (r: LoginResult)
        ensures
            r == self.login_spec(inputs@.map_values(|s: String| s@), mails@),
    {
        let ghost lines = inputs@.map_values(|s: String| s@);
        if !self.enabled {
            return LoginResult::Cancel;
        }
        let email = match &self.email {
            Some(e) => e,
            None => {
                return LoginResult::Cancel;
            },
        };
        let (_display, expected) = match shadow_email(email.as_str()) {
            Some(p) => p,
            None => {
                return LoginResult::Cancel;
            },
        };
        let (confirm, next) = confirm_identity(&expected, email, inputs, 0);
        if confirm != LoginResult::Accept {
            return confirm;
        }
        if mails.len() < 1 {
            return LoginResult::NeedMail;
        }
        if !mails[0] {
            return LoginResult::Cancel;
        }
        collect_code(self.code, inputs, next, mails, 1)
    }

    /// The exec-mode protocol, deciding one call against the single-use
    /// challenge store.  The returned flag asks the host to mail the
    /// code.
    ///
    /// A command naming the configured address requests a code: it is
    /// stored and mailed, and this call is rejected so the caller retries
    /// with the code prefixed.  Any other command is matched against the
    /// stored code's first six characters: a match consumes the challenge
    /// (single use) and accepts with the prefix spliced off; a miss or an
    /// absent challenge defers to the next authenticator.
    pub fn is_accepted_exec(&self, cmd: &mut String, store: &mut ChallengeStore) -> (r: (
        Decision,
        bool,
    ))
        ensures
            self.email is None ==> (r == (Decision::Cancel, false) && final(cmd)@ == old(cmd)@
                && final(store).stored == old(store).stored),
            (self.email matches Some(e) && old(cmd)@ == e@) ==> ({
                &&& r.0 == Decision::Reject
                &&& r.1 == true
                &&& final(cmd)@ == old(cmd)@
                &&& (final(store).stored matches Some(s) && all_digits(s@) && digits_val(s@)
                    == self.code && s@.len() >= 1)
            }),
            (self.email matches Some(e) && old(cmd)@ != e@) ==> ({
                &&& r.1 == false
                &&& match old(store).stored {
                    None => r.0 == Decision::Cancel && final(cmd)@ == old(cmd)@ && final(store).stored is None,
                    Some(st) => {
                        let t = trim_spec(st@);
                        if old(cmd)@.len() >= 6 && old(cmd)@.take(6) == t {
                            r.0 == Decision::Accept && final(cmd)@ == old(cmd)@.skip(6) && final(store).stored is None
                        } else {
                            r.0 == Decision::Cancel && final(cmd)@ == old(cmd)@ && final(store).stored == old(store).stored
                        }
                    },
                }
            }),
    {
        let email = match &self.email {
            Some(e) => e,
            None => {
                return (Decision::Cancel, false);
            },
        };
        if *cmd == *email {
            store.stored = Some(u32_to_dec_string(self.code));
            return (Decision::Reject, true);
        }
        let stored_trimmed = match &store.stored {
            Some(st) => Some(trim(st.as_str())),
            None => None,
        };
        match stored_trimmed {
            None => (Decision::Cancel, false),
            Some(t) => {
                match splice_prefix(cmd.as_str(), 6) {
                    Some((p, rest)) => {
                        if p == t {
                            *cmd = rest;
                            store.stored = None;
                            (Decision::Accept, false)
                        } else {
                            (Decision::Cancel, false)
                        }
                    },
                    None => (Decision::Cancel, false),
                }
            },
        }
    }
}

/// Run the identity-confirmation phase against a transcript, starting at
/// line `start`.
pub fn confirm_identity(expected: &String, full: &String, inputs: &Vec<String>, start: usize) -> (r:
    (LoginResult, usize))
    ensures
        ({
            let s = phase1_spec(
                expected@,
                full@,
                inputs@.map_values(|x: String| x@),
                start as int,
                0,
            );
            r.0 == s.0 && r.1 as int == s.1
        }),
{
    let ghost lines = inputs@.map_values(|x: String| x@);
    let mut idx = start;
    let mut tries: u8 = 0;
    while tries < 3
        invariant
            tries <= 3,
            start <= idx <= inputs@.len() || idx == start,
            idx <= inputs@.len() || idx == start,
            lines == inputs@.map_values(|x: String| x@),
            phase1_spec(expected@, full@, lines, start as int, 0) == phase1_spec(
                expected@,
                full@,
                lines,
                idx as int,
                tries as nat,
            ),
        decreases 3 - tries,
    {
        if idx >= inputs.len() {
            return (LoginResult::NeedInput, idx);
        }
        let t = trim_end(inputs[idx].as_str());
        proof {
            assert(lines[idx as int] == inputs@[idx as int]@);
        }
        if t.as_str().unicode_len() == 0 {
            return (LoginResult::Cancel, idx + 1);
        }
        if t == *expected || t == *full {
            return (LoginResult::Accept, idx + 1);
        }
        idx = idx + 1;
        tries = tries + 1;
    }
    (LoginResult::Reject, idx)
}

/// Run the code-collection phase against a transcript, starting at line
/// `start` with mail outcomes from `mstart`.
pub fn collect_code(
    code: u32,
    inputs: &Vec<String>,
    start: usize,
    mails: &Vec<bool>,
    mstart: usize,
) -> (r: LoginResult)
    ensures
        r == phase2_spec(
            code,
            inputs@.map_values(|x: String| x@),
            start as int,
            0,
            mails@,
            mstart as int,
        ),
{
    let ghost lines = inputs@.map_values(|x: String| x@);
    let mut idx = start;
    let mut m = mstart;
    let mut tries: u8 = 0;
    loop
        invariant
            tries <= 3,
            idx <= inputs@.len() || idx == start,
            m >= mstart,
            lines == inputs@.map_values(|x: String| x@),
            phase2_spec(code, lines, start as int, 0, mails@, mstart as int) == phase2_spec(
                code,
                lines,
                idx as int,
                tries as nat,
                mails@,
                m as int,
            ),
        decreases inputs@.len() - idx,
    {
        if tries >= 3 {
            return LoginResult::Reject;
        }
        if idx >= inputs.len() {
            return LoginResult::NeedInput;
        }
        let t = trim_end(inputs[idx].as_str());
        proof {
            assert(lines[idx as int] == inputs@[idx as int]@);
        }
        let parsed = crate::digits::parse_u64_digits(t.as_str());
        match parsed {
            Some(v) => {
                if v == 0 {
                    if m >= mails.len() {
                        return LoginResult::NeedMail;
                    }
                    if !mails[m] {
                        return LoginResult::Cancel;
                    }
                    idx = idx + 1;
                    m = m + 1;
                } else if v == code as u64 {
                    return LoginResult::Accept;
                } else {
                    idx = idx + 1;
                    tries = tries + 1;
                }
            },
            None => {
                idx = idx + 1;
                tries = tries + 1;
            },
        }
    }
}

} // verus!
