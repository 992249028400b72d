//! The time-based one-time-code authenticator: codes are computed from a
//! shared secret and the current time step, and a presented code is
//! accepted for the current step and its two neighbours, to tolerate clock
//! and network skew.

use vstd::prelude::*;
use crate::codec::{b32_well_formed, b64_to_bytes, decodes};
use crate::config::SecRcCfg;
use crate::decision::{Decision, LoginResult};
use crate::digits::{all_digits, digits_val, parse_u64_digits};
use crate::strutil::{splice_prefix, trim, trim_spec};

verus! {

/// The hash the one-time codes are computed with.
#[derive(Clone, Copy, PartialEq, Eq, Structural, Debug)]
pub enum HashAlgo {
    /// HMAC-SHA1, the default.
    Sha1,
    /// HMAC-SHA256.
    Sha256,
    /// HMAC-SHA512.
    Sha512,
}

/// A plain tag for each hash algorithm, used to index the named code
/// function.
pub open spec fn alg_id(h: HashAlgo) -> u32 {
    match h {
        HashAlgo::Sha1 => 1,
        HashAlgo::Sha256 => 256,
        HashAlgo::Sha512 => 512,
    }
}

/// What the one-time-code computation returns for a key, counter, digit
/// count and hash: a function of its arguments alone.
pub uninterp spec fn hotp_of(key: Seq<u8>, counter: u64, digits: u32, alg: u32) -> u64;

/// Relies on oath::hotp_custom: the crate's HMAC-based one-time code for a
/// key and counter, truncated to `digits` decimal digits; the digest
/// instance passed in selects the HMAC hash.  The result depends on the
/// arguments alone.
#[verifier::external_body]
fn hotp_at(key: &Vec<u8>, counter: u64, digits: u32, alg: &HashAlgo) -> (r: u64)
    requires
        digits <= 19,
    ensures
        r == hotp_of(key@, counter, digits, alg_id(*alg)),
{
    match alg {
        HashAlgo::Sha1 => oath::hotp_custom(key.as_slice(), counter, digits, crypto::sha1::Sha1::new()),
        HashAlgo::Sha256 => oath::hotp_custom(
            key.as_slice(),
            counter,
            digits,
            crypto::sha2::Sha256::new(),
        ),
        HashAlgo::Sha512 => oath::hotp_custom(
            key.as_slice(),
            counter,
            digits,
            crypto::sha2::Sha512::new(),
        ),
    }
}

/// Relies on std::time::SystemTime::now and its distance from the epoch:
/// the current time in whole seconds, `None` for a clock set before the
/// epoch.  Nothing is assumed of the value; time is environmental.
#[verifier::external_body]
pub fn unix_time_now() -> (r: Option<u64>) {
    match std::time::SystemTime::now().duration_since(std::time::UNIX_EPOCH) {
        Ok(d) => Some(d.as_secs()),
        Err(_) => None,
    }
}

/// `c` matches the upper-case letter `u`, ignoring case.
pub open spec fn eqi(c: char, u: char) -> bool {
    c == u || c as int == u as int + 32
}

/// Whether `c` matches the upper-case letter `u` ignoring case, decided in
/// executable code.
fn char_eqi(c: char, u: char) -> (b: bool)
    requires
        65 <= u as int <= 90,
    ensures
        b == eqi(c, u),
{
    let cv = c as u32;
    let uv = u as u32;
    cv == uv || cv == uv + 32
}

/// The hash named by a configured string: a `SHA` prefix in any case
/// followed by `512` or `256` selects that family; anything else —
/// including an unrecognized name — falls back to SHA1.
pub open spec fn hash_from_name(s: Seq<char>) -> HashAlgo {
    if s.len() >= 3 && eqi(s[0], 'S') && eqi(s[1], 'H') && eqi(s[2], 'A') {
        if s[s.len() - 3] == '5' && s[s.len() - 2] == '1' && s[s.len() - 1] == '2' {
            HashAlgo::Sha512
        } else if s[s.len() - 3] == '2' && s[s.len() - 2] == '5' && s[s.len() - 1] == '6' {
            HashAlgo::Sha256
        } else {
            HashAlgo::Sha1
        }
    } else {
        HashAlgo::Sha1
    }
}

/// Decode a configured hash name.
pub fn hash_algo_of(name: &str) -> (h: HashAlgo)
    ensures
        h == hash_from_name(name@),
{
    let n = name.unicode_len();
    if n < 3 {
        return HashAlgo::Sha1;
    }
    if !(char_eqi(name.get_char(0), 'S') && char_eqi(name.get_char(1), 'H') && char_eqi(
        name.get_char(2),
        'A',
    )) {
        return HashAlgo::Sha1;
    }
    let a = name.get_char(n - 3);
    let b = name.get_char(n - 2);
    let c = name.get_char(n - 1);
    if a == '5' && b == '1' && c == '2' {
        HashAlgo::Sha512
    } else if a == '2' && b == '5' && c == '6' {
        HashAlgo::Sha256
    } else {
        HashAlgo::Sha1
    }
}

/// The configured digit count, defaulting to six.
pub open spec fn digits_cfg(c: &SecRcCfg) -> u32 {
    match c.totp_digits {
        Some(d) => d,
        None => 6,
    }
}

/// The configured time step, defaulting to thirty seconds.
pub open spec fn step_cfg(c: &SecRcCfg) -> u64 {
    match c.totp_timestep {
        Some(s) => s,
        None => 30,
    }
}

/// The configured hash name, defaulting to SHA1.
pub open spec fn hash_cfg(c: &SecRcCfg) -> HashAlgo {
    match c.totp_hash {
        Some(h) => hash_from_name(h@),
        None => HashAlgo::Sha1,
    }
}

/// The time-based one-time-code authenticator.
pub struct TotpAuthenticator {
    /// A usable secret and sane parameters were configured.
    pub enabled: bool,
    /// The decoded secret bytes.
    pub secret: Vec<u8>,
    /// Digits per code.
    pub digits: u32,
    /// Seconds per time step.
    pub timestep: u64,
    /// The HMAC hash family.
    pub hash: HashAlgo,
}

impl TotpAuthenticator {
    /// An enabled authenticator carries parameters the code computation
    /// accepts.
    pub open spec fn wf(&self) -> bool {
        self.enabled ==> (self.digits <= 19 && 1 <= self.timestep)
    }

    /// The presented code equals the code of the step containing time `t`.
    pub open spec fn code_matches_at(&self, code: u64, t: u64) -> bool {
        code == hotp_of(self.secret@, t / self.timestep, self.digits, alg_id(self.hash))
    }

    /// The presented code equals the code of the current step or of one of
    /// its two neighbours ("skew 1").
    pub open spec fn window_match(&self, code: u64, now: u64) -> bool {
        ||| self.code_matches_at(code, now)
        ||| (now >= self.timestep && self.code_matches_at(code, (now - self.timestep) as u64))
        ||| (now + self.timestep <= u64::MAX && self.code_matches_at(
            code,
            (now + self.timestep) as u64,
        ))
    }

    /// Build the authenticator: enabled only when a secret is configured,
    /// decodes, and the digit count and time step are usable; parameters
    /// take their documented defaults when unset.
    pub fn init(config: &SecRcCfg) -> (r: TotpAuthenticator)
        ensures
            r.wf(),
            r.enabled <==> (config.totp_secret matches Some(s) && b32_well_formed(s@)
                && digits_cfg(config) <= 19 && step_cfg(config) >= 1),
            r.enabled ==> (config.totp_secret matches Some(s) && decodes(s@, r.secret@)),
            r.digits == digits_cfg(config),
            r.timestep == step_cfg(config),
            r.hash == hash_cfg(config),
    {
        let digits = match config.totp_digits {
            Some(d) => d,
            None => 6,
        };
        let timestep = match config.totp_timestep {
            Some(s) => s,
            None => 30,
        };
        let hash = match &config.totp_hash {
            Some(h) => hash_algo_of(h.as_str()),
            None => HashAlgo::Sha1,
        };
        let (enabled, secret) = match &config.totp_secret {
            Some(s) => match b64_to_bytes(s.as_str()) {
                Some(bytes) => (digits <= 19 && timestep >= 1, bytes),
                None => (false, Vec::new()),
            },
            None => (false, Vec::new()),
        };
        TotpAuthenticator { enabled, secret, digits, timestep, hash }
    }

    /// Compare a presented code against the current window: the code of
    /// the step containing `now` and of the immediately preceding and
    /// following steps.
    pub fn compare_code(&self, code: u64, now: u64) -> (b: bool)
        requires
            self.wf(),
            self.enabled,
        ensures
            b == self.window_match(code, now),
    {
        let c1 = hotp_at(&self.secret, now / self.timestep, self.digits, &self.hash);
        let mut m = code == c1;
        if now >= self.timestep {
            let c2 = hotp_at(
                &self.secret,
                (now - self.timestep) / self.timestep,
                self.digits,
                &self.hash,
            );
            m = m || code == c2;
        }
        if now <= u64::MAX - self.timestep {
            let c3 = hotp_at(
                &self.secret,
                (now + self.timestep) / self.timestep,
                self.digits,
                &self.hash,
            );
            m = m || code == c3;
        }
        m
    }

    /// A trimmed input line names a matching code: all digits, in range,
    /// and inside the verification window.
    pub open spec fn input_matches(&self, t: Seq<char>, now: u64) -> bool {
        t.len() > 0 && all_digits(t) && digits_val(t) <= u64::MAX && self.window_match(
            digits_val(t) as u64,
            now,
        )
    }

    /// The login protocol over a transcript of input lines, starting at
    /// line `idx` with `tries` attempts already spent: an empty line
    /// cancels, a matching code accepts, and the third failed attempt
    /// rejects.
    pub open spec fn login_spec(&self, inputs: Seq<Seq<char>>, idx: int, tries: nat, now: u64) -> LoginResult
        decreases 3 - tries,
    {
        if tries >= 3 {
            LoginResult::Reject
        } else if idx >= inputs.len() || idx < 0 {
            LoginResult::NeedInput
        } else {
            let t = trim_spec(inputs[idx]);
            if t.len() == 0 {
                LoginResult::Cancel
            } else if self.input_matches(t, now) {
                LoginResult::Accept
            } else {
                self.login_spec(inputs, idx + 1, (tries + 1) as nat, now)
            }
        }
    }

    /// Decide an interactive login from the lines the user enters, in
    /// order.  Up to three attempts; an empty line opts out (cancel);
    /// three failures reject; a transcript too short to decide asks for
    /// more input.
    pub fn is_accepted_login(&self, inputs: &Vec<String>, now: u64) -> (r: LoginResult)
        requires
            self.wf(),
        ensures
            !self.enabled ==> r == LoginResult::Cancel,
            self.enabled ==> r == self.login_spec(
                inputs@.map_values(|s: String| s@),
                0,
                0,
                now,
            ),
            r != LoginResult::NeedMail,
    {
        if !self.enabled {
            return LoginResult::Cancel;
        }
        let ghost lines = inputs@.map_values(|s: String| s@);
        let mut idx: usize = 0;
        let mut tries: u8 = 0;
        while tries < 3
            invariant
                self.wf(),
                self.enabled,
                tries <= 3,
                idx <= inputs@.len(),
                lines == inputs@.map_values(|s: String| s@),
                self.login_spec(lines, 0, 0, now) == self.login_spec(
                    lines,
                    idx as int,
                    tries as nat,
                    now,
                ),
            decreases 3 - tries,
        {
            if idx >= inputs.len() {
                return LoginResult::NeedInput;
            }
            let t = trim(inputs[idx].as_str());
            proof {
                assert(lines[idx as int] == inputs@[idx as int]@);
            }
            if t.as_str().unicode_len() == 0 {
                return LoginResult::Cancel;
            }
            match parse_u64_digits(t.as_str()) {
                Some(code) => {
                    if self.compare_code(code, now) {
                        return LoginResult::Accept;
                    }
                },
                None => {},
            }
            idx = idx + 1;
            tries = tries + 1;
        }
        LoginResult::Reject
    }

    /// The exec-mode decision: the authenticator owns the first
    /// `digits` characters of the command; a matching prefix is stripped
    /// and accepted, anything else — a short command, a non-numeric
    /// prefix, a wrong code — defers to the next authenticator with the
    /// command untouched.
    pub open spec fn exec_spec(&self, cmd: Seq<char>, now: u64) -> (Decision, Seq<char>) {
        if !self.enabled {
            (Decision::Cancel, cmd)
        } else if cmd.len() < self.digits {
            (Decision::Cancel, cmd)
        } else {
            let p = cmd.take(self.digits as int);
            if self.input_matches(p, now) {
                (Decision::Accept, cmd.skip(self.digits as int))
            } else {
                (Decision::Cancel, cmd)
            }
        }
    }

    /// Decide an exec request at time `now`.  Never rejects: in this mode
    /// a wrong or missing code defers to the next authenticator.
    pub fn is_accepted_exec(&self, cmd: &mut String, now: u64) -> (d: Decision)
        requires
            self.wf(),
        ensures
            d == self.exec_spec(old(cmd)@, now).0,
            final(cmd)@ == self.exec_spec(old(cmd)@, now).1,
            d != Decision::Reject,
    {
        if !self.enabled {
            return Decision::Cancel;
        }
        let w = self.digits as usize;
        match splice_prefix(cmd.as_str(), w) {
            None => Decision::Cancel,
            Some((prefix, rest)) => {
                match parse_u64_digits(prefix.as_str()) {
                    Some(code) => {
                        if self.compare_code(code, now) {
                            *cmd = rest;
                            Decision::Accept
                        } else {
                            Decision::Cancel
                        }
                    },
                    None => Decision::Cancel,
                }
            },
        }
    }
}

/// A code computed for the time step of `t` is accepted when verified at
/// `t` itself, one step earlier, and one step later.
pub proof fn lemma_totp_skew_accept(auth: TotpAuthenticator, t: u64)
    requires
        auth.timestep >= 1,
    ensures
        ({
            let c = hotp_of(auth.secret@, t / auth.timestep, auth.digits, alg_id(auth.hash));
            &&& auth.window_match(c, t)
            &&& t >= auth.timestep ==> auth.window_match(c, (t - auth.timestep) as u64)
            &&& t + auth.timestep <= u64::MAX ==> auth.window_match(c, (t + auth.timestep) as u64)
        }),
{
    let c = hotp_of(auth.secret@, t / auth.timestep, auth.digits, alg_id(auth.hash));
    assert(auth.code_matches_at(c, t));
    if t >= auth.timestep {
        let earlier = (t - auth.timestep) as u64;
        assert(earlier + auth.timestep == t);
        assert(earlier + auth.timestep <= u64::MAX);
        assert(auth.code_matches_at(c, (earlier + auth.timestep) as u64));
    }
    if t + auth.timestep <= u64::MAX {
        let later = (t + auth.timestep) as u64;
        assert(later >= auth.timestep);
        assert((later - auth.timestep) as u64 == t);
        assert(auth.code_matches_at(c, (later - auth.timestep) as u64));
    }
}

/// A code from two or more steps in the past is no longer accepted —
/// unless it happens to collide with one of the three codes of the
/// verification window, which the premises rule out.
pub proof fn lemma_totp_stale_reject(auth: TotpAuthenticator, t: u64, stale: u64)
    requires
        auth.timestep >= 1,
        t >= 2 * auth.timestep,
        t + auth.timestep <= u64::MAX,
        ({
            let q = t / auth.timestep;
            &&& stale == hotp_of(auth.secret@, (q - 2) as u64, auth.digits, alg_id(auth.hash))
            &&& stale != hotp_of(auth.secret@, (q - 1) as u64, auth.digits, alg_id(auth.hash))
            &&& stale != hotp_of(auth.secret@, q, auth.digits, alg_id(auth.hash))
            &&& stale != hotp_of(auth.secret@, (q + 1) as u64, auth.digits, alg_id(auth.hash))
        }),
    ensures
        stale == hotp_of(
            auth.secret@,
            (t - 2 * auth.timestep) as u64 / auth.timestep,
            auth.digits,
            alg_id(auth.hash),
        ),
        !auth.window_match(stale, t),
{
    let step = auth.timestep as int;
    let stepn = auth.timestep as nat;
    let q = t / auth.timestep;
    vstd::arithmetic::div_mod::lemma_hoist_over_denominator(t - 2 * step, 2, stepn);
    assert((t - 2 * step) / step + 2 == t as int / step);
    vstd::arithmetic::div_mod::lemma_hoist_over_denominator(t - step, 1, stepn);
    assert((t - step) / step + 1 == t as int / step);
    vstd::arithmetic::div_mod::lemma_hoist_over_denominator(t as int, 1, stepn);
    assert(t as int / step + 1 == (t + step) / step);
    assert((t - 2 * auth.timestep) as u64 / auth.timestep == (q - 2) as u64);
    assert((t - auth.timestep) as u64 / auth.timestep == (q - 1) as u64);
    assert((t + auth.timestep) as u64 / auth.timestep == (q + 1) as u64);
    assert(q >= 2) by {
        vstd::arithmetic::div_mod::lemma_div_is_ordered(2 * step, t as int, step);
        vstd::arithmetic::div_mod::lemma_div_by_multiple(2, step);
    }
}

} // verus!
