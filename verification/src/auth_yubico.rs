//! The hardware-token authenticator: a presented one-time password is
//! checked against the configured token identifier and then submitted to a
//! remote verification service.
//!
//! The service's reply is a sequence of `key=value` lines.  Three fields
//! are validated in order: the echoed `otp` must equal the submitted one,
//! the echoed `nonce` must equal the generated one, and `status` must be
//! the literal success marker.  A missing field is a malformed reply — an
//! internal error kept distinct from a legitimate negative verdict.

use vstd::prelude::*;
use crate::config::SecRcCfg;
use crate::decision::Decision;
use crate::rng::{rand_alphanumeric, rand_in_range};
use crate::strutil::{find_char, splice_prefix, trim, trim_spec};

verus! {

/// Why a verification reply could not be trusted: these are internal
/// errors, surfaced distinctly from a legitimate negative verdict.
#[derive(Clone, Copy, PartialEq, Eq, Structural, Debug)]
pub enum RemoteError {
    /// A non-empty reply line without a `key=value` shape.
    MalformedLine,
    /// The reply does not echo the submitted one-time password.
    MissingOtp,
    /// The reply does not echo the request nonce.
    MissingNonce,
    /// The reply carries no verdict at all.
    MissingStatus,
}

/// A reply body split at each two-character line separator; the result
/// always holds at least one (possibly empty) line.
pub open spec fn split_lines_spec(s: Seq<char>) -> Seq<Seq<char>>
    decreases s.len(),
{
    if s.len() == 0 {
        seq![Seq::<char>::empty()]
    } else if s.len() >= 2 && s[0] == '\r' && s[1] == '\n' {
        seq![Seq::<char>::empty()] + split_lines_spec(s.skip(2))
    } else {
        let rest = split_lines_spec(s.drop_first());
        seq![seq![s[0]] + rest[0]] + rest.drop_first()
    }
}

proof fn lemma_split_lines_nonempty(s: Seq<char>)
    ensures
        split_lines_spec(s).len() >= 1,
    decreases s.len(),
{
    if s.len() == 0 {
    } else if s.len() >= 2 && s[0] == '\r' && s[1] == '\n' {
        lemma_split_lines_nonempty(s.skip(2));
    } else {
        lemma_split_lines_nonempty(s.drop_first());
    }
}

/// The given prefix glued onto the first of the lines.
pub open spec fn prepend_first(prefix: Seq<char>, ls: Seq<Seq<char>>) -> Seq<Seq<char>> {
    seq![prefix + ls[0]] + ls.drop_first()
}

/// Split a reply body into its lines.
pub fn split_lines(s: &str) -> (r: Vec<String>)
    ensures
        r@.map_values(|l: String| l@) == split_lines_spec(s@),
{
    let n = s.unicode_len();
    let mut out: Vec<String> = Vec::new();
    let mut cur = String::new();
    let mut i: usize = 0;
    proof {
        assert(s@.skip(0) =~= s@);
        lemma_split_lines_nonempty(s@);
        assert(Seq::<char>::empty() + split_lines_spec(s@)[0] =~= split_lines_spec(s@)[0]);
        assert(prepend_first(Seq::<char>::empty(), split_lines_spec(s@)) =~= split_lines_spec(s@));
        assert(out@.map_values(|l: String| l@) =~= Seq::<Seq<char>>::empty());
    }
    while i < n
        invariant
            i <= n,
            n == s@.len(),
            split_lines_spec(s@) =~= out@.map_values(|l: String| l@) + prepend_first(
                cur@,
                split_lines_spec(s@.skip(i as int)),
            ),
        decreases n - i,
    {
        let ghost rem = s@.skip(i as int);
        proof {
            assert(rem[0] == s@[i as int]);
            lemma_split_lines_nonempty(rem);
        }
        let c = s.get_char(i);
        if c == '\r' && i + 1 < n && s.get_char(i + 1) == '\n' {
            proof {
                assert(rem.len() >= 2 && rem[0] == '\r' && rem[1] == '\n');
                assert(rem.skip(2) =~= s@.skip(i + 2));
                let tail = split_lines_spec(s@.skip(i + 2));
                lemma_split_lines_nonempty(s@.skip(i + 2));
                assert(split_lines_spec(rem) =~= seq![Seq::<char>::empty()] + tail);
                assert(prepend_first(cur@, split_lines_spec(rem)) =~= seq![cur@] + tail);
                assert((out@.push(cur)).map_values(|l: String| l@) =~= out@.map_values(
                    |l: String| l@,
                ).push(cur@));
                assert(Seq::<char>::empty() + tail[0] =~= tail[0]);
                assert(prepend_first(Seq::<char>::empty(), tail) =~= tail);
            }
            out.push(cur);
            cur = String::new();
            i = i + 2;
        } else {
            proof {
                assert(!(rem.len() >= 2 && rem[0] == '\r' && rem[1] == '\n'));
                assert(rem.drop_first() =~= s@.skip(i + 1));
                let tail = split_lines_spec(s@.skip(i + 1));
                lemma_split_lines_nonempty(s@.skip(i + 1));
                assert(split_lines_spec(rem) =~= seq![seq![s@[i as int]] + tail[0]]
                    + tail.drop_first());
                assert(cur@ + (seq![s@[i as int]] + tail[0]) =~= cur@.push(s@[i as int]) + tail[0]);
                assert(prepend_first(cur@, split_lines_spec(rem)) =~= prepend_first(
                    cur@.push(s@[i as int]),
                    tail,
                ));
            }
            cur.push(c);
            i = i + 1;
        }
    }
    proof {
        assert(s@.skip(n as int) =~= Seq::<char>::empty());
        assert(prepend_first(cur@, split_lines_spec(Seq::<char>::empty())) =~= seq![cur@]);
        assert((out@.push(cur)).map_values(|l: String| l@) =~= out@.map_values(|l: String| l@).push(
            cur@,
        ));
    }
    out.push(cur);
    out
}

/// A line split at its first `=` into key and value; `None` when it has no
/// `=` at all.
pub open spec fn kv_of_line(l: Seq<char>) -> Option<(Seq<char>, Seq<char>)>
    decreases l.len(),
{
    if l.len() == 0 {
        None
    } else if l[0] == '=' {
        Some((Seq::<char>::empty(), l.drop_first()))
    } else {
        match kv_of_line(l.drop_first()) {
            None => None,
            Some(kv) => Some((seq![l[0]] + kv.0, kv.1)),
        }
    }
}

proof fn lemma_kv_at(l: Seq<char>, i: int)
    requires
        0 <= i < l.len(),
        l[i] == '=',
        forall|j: int| 0 <= j < i ==> l[j] != '=',
    ensures
        kv_of_line(l) == Some((l.take(i), l.skip(i + 1))),
    decreases i,
{
    if i == 0 {
        assert(l.take(0) =~= Seq::<char>::empty());
        assert(l.skip(1) =~= l.drop_first());
    } else {
        let d = l.drop_first();
        assert(d[i - 1] == '=');
        assert(forall|j: int| 0 <= j < i - 1 ==> d[j] == l[j + 1] && d[j] != '=');
        lemma_kv_at(d, i - 1);
        assert(seq![l[0]] + d.take(i - 1) =~= l.take(i));
        assert(d.skip(i) =~= l.skip(i + 1));
    }
}

proof fn lemma_kv_none(l: Seq<char>)
    requires
        forall|j: int| 0 <= j < l.len() ==> l[j] != '=',
    ensures
        kv_of_line(l) is None,
    decreases l.len(),
{
    if l.len() > 0 {
        lemma_kv_none(l.drop_first());
    }
}

/// The key/value pairs of a reply: empty lines are skipped, and any other
/// line without an `=` makes the whole reply malformed.
pub open spec fn kvs_of_lines(ls: Seq<Seq<char>>) -> Option<Seq<(Seq<char>, Seq<char>)>>
    decreases ls.len(),
{
    if ls.len() == 0 {
        Some(Seq::<(Seq<char>, Seq<char>)>::empty())
    } else {
        let rest = kvs_of_lines(ls.drop_first());
        if ls[0].len() == 0 {
            rest
        } else {
            match (kv_of_line(ls[0]), rest) {
                (Some(kv), Some(r)) => Some(seq![kv] + r),
                _ => None,
            }
        }
    }
}

/// Split each non-empty line of a reply at its first `=`.
pub fn parse_kvs(lines: &Vec<String>) -> (r: Option<Vec<(String, String)>>)
    ensures
        ({
            let spec = kvs_of_lines(lines@.map_values(|l: String| l@));
            &&& r is Some <==> spec is Some
            &&& (r matches Some(v) ==> spec matches Some(sv) && v@.map_values(
                |p: (String, String)| (p.0@, p.1@),
            ) == sv)
        }),
{
    let ghost views = lines@.map_values(|l: String| l@);
    let mut acc: Vec<(String, String)> = Vec::new();
    let n = lines.len();
    let mut i: usize = 0;
    proof {
        assert(views.skip(0) =~= views);
        assert(acc@.map_values(|p: (String, String)| (p.0@, p.1@)) =~= Seq::<(
            Seq<char>,
            Seq<char>,
        )>::empty());
    }
    while i < n
        invariant
            i <= n,
            n == lines@.len(),
            views == lines@.map_values(|l: String| l@),
            ({
                let done = acc@.map_values(|p: (String, String)| (p.0@, p.1@));
                match kvs_of_lines(views.skip(i as int)) {
                    Some(rest) => kvs_of_lines(views) == Some(done + rest),
                    None => kvs_of_lines(views) is None,
                }
            }),
        decreases n - i,
    {
        let ghost rem = views.skip(i as int);
        proof {
            assert(rem[0] == views[i as int]);
            assert(rem.drop_first() =~= views.skip(i + 1));
            assert(views[i as int] == lines@[i as int]@);
        }
        let line = &lines[i];
        if line.as_str().unicode_len() == 0 {
            i = i + 1;
            continue ;
        }
        match find_char(line.as_str(), '=') {
            Some(p) => {
                proof {
                    lemma_kv_at(line@, p as int);
                }
                let ll = line.as_str().unicode_len();
                let key = String::from_str(line.as_str().substring_char(0, p));
                let value = String::from_str(line.as_str().substring_char(p + 1, ll));
                proof {
                    assert(line@.subrange(0, p as int) =~= line@.take(p as int));
                    assert(line@.subrange(p + 1, line@.len() as int) =~= line@.skip(p + 1));
                    let done = acc@.map_values(|q: (String, String)| (q.0@, q.1@));
                    let kv = (line@.take(p as int), line@.skip(p + 1));
                    assert((acc@.push((key, value))).map_values(|q: (String, String)| (q.0@, q.1@))
                        =~= done.push(kv));
                    match kvs_of_lines(views.skip(i + 1)) {
                        Some(rest) => {
                            assert(kvs_of_lines(rem) == Some(seq![kv] + rest));
                            assert(done + (seq![kv] + rest) =~= done.push(kv) + rest);
                        },
                        None => {},
                    }
                }
                acc.push((key, value));
                i = i + 1;
            },
            None => {
                proof {
                    lemma_kv_none(line@);
                    assert(kvs_of_lines(rem) is None);
                }
                return None;
            },
        }
    }
    proof {
        assert(views.skip(n as int) =~= Seq::<Seq<char>>::empty());
    }
    Some(acc)
}

/// The value of the last pair carrying the key, as the reply map keeps the
/// final occurrence of a repeated key.
pub open spec fn lookup_last(kvs: Seq<(Seq<char>, Seq<char>)>, key: Seq<char>) -> Option<Seq<char>>
    decreases kvs.len(),
{
    if kvs.len() == 0 {
        None
    } else if kvs.last().0 == key {
        Some(kvs.last().1)
    } else {
        lookup_last(kvs.drop_last(), key)
    }
}

/// Look a key up among the parsed pairs, last occurrence winning.
fn lookup_kv(kvs: &Vec<(String, String)>, key: &String) -> (r: Option<String>)
    ensures
        ({
            let spec = lookup_last(kvs@.map_values(|p: (String, String)| (p.0@, p.1@)), key@);
            match r {
                Some(v) => spec == Some(v@),
                None => spec is None,
            }
        }),
{
    let ghost views = kvs@.map_values(|p: (String, String)| (p.0@, p.1@));
    let mut j = kvs.len();
    proof {
        assert(views.take(j as int) =~= views);
    }
    while j > 0
        invariant
            j <= kvs@.len(),
            views == kvs@.map_values(|p: (String, String)| (p.0@, p.1@)),
            lookup_last(views, key@) == lookup_last(views.take(j as int), key@),
        decreases j,
    {
        proof {
            assert(views.take(j as int).last() == views[j - 1]);
            assert(views.take(j as int).drop_last() =~= views.take(j - 1));
        }
        if kvs[j - 1].0 == *key {
            return Some(kvs[j - 1].1.clone());
        }
        j = j - 1;
    }
    proof {
        assert(views.take(0) =~= Seq::<(Seq<char>, Seq<char>)>::empty());
    }
    None
}

/// The verdict a verification reply earns against the submitted one-time
/// password and nonce: the echoed `otp` and `nonce` must match and the
/// `status` must be the success marker; a missing field is an error, not a
/// verdict.
pub open spec fn response_verdict(body: Seq<char>, otp: Seq<char>, nonce: Seq<char>) -> Result<
    bool,
    RemoteError,
> {
    match kvs_of_lines(split_lines_spec(body)) {
        None => Err(RemoteError::MalformedLine),
        Some(kvs) => match lookup_last(kvs, "otp"@) {
            None => Err(RemoteError::MissingOtp),
            Some(ro) => if ro != otp {
                Ok(false)
            } else {
                match lookup_last(kvs, "nonce"@) {
                    None => Err(RemoteError::MissingNonce),
                    Some(rn) => if rn != nonce {
                        Ok(false)
                    } else {
                        match lookup_last(kvs, "status"@) {
                            None => Err(RemoteError::MissingStatus),
                            Some(st) => Ok(st == "OK"@),
                        }
                    },
                }
            },
        },
    }
}

/// Validate a verification reply.
pub fn check_verify_response(body: &str, otp: &String, nonce: &String) -> (r: Result<
    bool,
    RemoteError,
>)
    ensures
        r == response_verdict(body@, otp@, nonce@),
{
    let lines = split_lines(body);
    let kvs = match parse_kvs(&lines) {
        Some(kvs) => kvs,
        None => {
            return Err(RemoteError::MalformedLine);
        },
    };
    let ro = match lookup_kv(&kvs, &String::from_str("otp")) {
        Some(v) => v,
        None => {
            return Err(RemoteError::MissingOtp);
        },
    };
    if ro != *otp {
        return Ok(false);
    }
    let rn = match lookup_kv(&kvs, &String::from_str("nonce")) {
        Some(v) => v,
        None => {
            return Err(RemoteError::MissingNonce);
        },
    };
    if rn != *nonce {
        return Ok(false);
    }
    let st = match lookup_kv(&kvs, &String::from_str("status")) {
        Some(v) => v,
        None => {
            return Err(RemoteError::MissingStatus);
        },
    };
    Ok(st == String::from_str("OK"))
}

/// A reply whose echoed `otp` differs from the submitted one is rejected,
/// whatever its `status` says.
pub proof fn lemma_response_otp_mismatch(body: Seq<char>, otp: Seq<char>, nonce: Seq<char>)
    requires
        kvs_of_lines(split_lines_spec(body)) matches Some(kvs) && lookup_last(kvs, "otp"@)
            matches Some(ro) && ro != otp,
    ensures
        response_verdict(body, otp, nonce) == Result::<bool, RemoteError>::Ok(false),
{
}

/// A reply that matches the request but carries no `status` field raises
/// the distinct internal error, not a plain rejection.
pub proof fn lemma_response_missing_status(body: Seq<char>, otp: Seq<char>, nonce: Seq<char>)
    requires
        kvs_of_lines(split_lines_spec(body)) matches Some(kvs) && lookup_last(kvs, "otp"@)
            == Some(otp) && lookup_last(kvs, "nonce"@) == Some(nonce) && lookup_last(kvs, "status"@)
            is None,
    ensures
        response_verdict(body, otp, nonce) == Result::<bool, RemoteError>::Err(
            RemoteError::MissingStatus,
        ),
{
}

/// What the remote verification amounted to, as the host reports it back
/// to the library.
#[derive(Clone, Copy, PartialEq, Eq, Structural, Debug)]
pub enum RemoteOutcome {
    /// The service confirmed the one-time password.
    Verified,
    /// The service rejected it, or the reply failed validation.
    Denied,
    /// Transport failed or the reply was malformed.
    Failed,
}

/// Build the outbound verification query: a small random transaction id
/// and a random alphanumeric nonce of admissible length.
pub fn build_verify_query() -> (r: (u32, String))
    ensures
        r.0 < 1000,
        16 <= r.1@.len() <= 40,
{
    let id = rand_in_range(0, 1000);
    let nonce_len = rand_in_range(16, 41);
    let nonce = rand_alphanumeric(nonce_len as usize);
    (id, nonce)
}

/// What the login prompt step asks the host to do next.
#[derive(PartialEq, Eq, Debug)]
pub enum YubicoStep {
    /// No token identifier is configured, or the user opted out: cancel.
    Cancel,
    /// The input is malformed or names a foreign token: reject.
    Reject,
    /// Submit this one-time password for remote verification.
    Submit(String),
}

/// The hardware-token authenticator; the configured identifier prefix
/// doubles as its enablement.
pub struct YubicoAuthenticator {
    /// The first twelve characters of the configured token identifier.
    pub yubico_id: Option<String>,
}

impl YubicoAuthenticator {
    /// Build the authenticator: enabled only when the configured
    /// identifier has at least twelve characters, of which the first
    /// twelve are kept.
    pub fn init(config: &SecRcCfg) -> (r: YubicoAuthenticator)
        ensures
            ({
                match config.yubico_id {
                    Some(s) => if s@.len() >= 12 {
                        r.yubico_id matches Some(p) && p@ == s@.take(12)
                    } else {
                        r.yubico_id is None
                    },
                    None => r.yubico_id is None,
                }
            }),
    {
        let yubico_id = match &config.yubico_id {
            Some(s) => {
                match splice_prefix(s.as_str(), 12) {
                    Some((p, _rest)) => Some(p),
                    None => None,
                }
            },
            None => None,
        };
        YubicoAuthenticator { yubico_id }
    }

    /// Classify one interactive input line: an empty line opts out; fewer
    /// than fourteen characters or a mismatched identifier prefix is a
    /// definitive rejection; anything else is submitted for remote
    /// verification.
    pub fn login_step(&self, input: &str) -> (r: YubicoStep)
        ensures
            ({
                let t = trim_spec(input@);
                match self.yubico_id {
                    None => r == YubicoStep::Cancel,
                    Some(id) => if t.len() == 0 {
                        r == YubicoStep::Cancel
                    } else if t.len() < 14 {
                        r == YubicoStep::Reject
                    } else if t.take(12) != id@ {
                        r == YubicoStep::Reject
                    } else {
                        r matches YubicoStep::Submit(s) && s@ == t
                    },
                }
            }),
    {
        let id = match &self.yubico_id {
            Some(id) => id,
            None => {
                return YubicoStep::Cancel;
            },
        };
        let t = trim(input);
        let n = t.as_str().unicode_len();
        if n == 0 {
            return YubicoStep::Cancel;
        }
        if n < 14 {
            return YubicoStep::Reject;
        }
        match splice_prefix(t.as_str(), 12) {
            Some((p, _rest)) => {
                if p == *id {
                    YubicoStep::Submit(t)
                } else {
                    YubicoStep::Reject
                }
            },
            None => YubicoStep::Reject,
        }
    }

    /// Conclude an interactive login from the remote outcome: only a
    /// confirmed password accepts; a denial or a failure cancels, so that
    /// service trouble cannot lock the login out through this one factor.
    pub fn login_conclude(&self, outcome: RemoteOutcome) -> (d: Decision)
        ensures
            d == (if outcome == RemoteOutcome::Verified {
                Decision::Accept
            } else {
                Decision::Cancel
            }),
    {
        if outcome == RemoteOutcome::Verified {
            Decision::Accept
        } else {
            Decision::Cancel
        }
    }

    /// The one-time password an exec request presents: the first
    /// forty-four characters of the command; a shorter command cancels.
    pub fn exec_request(&self, cmd: &String) -> (r: Option<String>)
        ensures
            r is Some <==> cmd@.len() >= 44,
            r matches Some(p) ==> p@ == cmd@.take(44),
    {
        match splice_prefix(cmd.as_str(), 44) {
            Some((p, _rest)) => Some(p),
            None => None,
        }
    }

    /// Conclude an exec request from the remote outcome: a confirmed
    /// password strips its forty-four characters and accepts; anything
    /// else cancels with the command untouched.
    pub fn exec_conclude(&self, cmd: &mut String, outcome: RemoteOutcome) -> (d: Decision)
        requires
            old(cmd)@.len() >= 44,
        ensures
            outcome == RemoteOutcome::Verified ==> d == Decision::Accept && final(cmd)@ == old(
                cmd,
            )@.skip(44),
            outcome != RemoteOutcome::Verified ==> d == Decision::Cancel && final(cmd)@ == old(
                cmd,
            )@,
    {
        if outcome == RemoteOutcome::Verified {
            match splice_prefix(cmd.as_str(), 44) {
                Some((_p, rest)) => {
                    *cmd = rest;
                    Decision::Accept
                },
                // unreachable: the precondition gives the command 44 characters
                None => Decision::Accept,
            }
        } else {
            Decision::Cancel
        }
    }
}

} // verus!
