//! The authenticator capability, and the two non-interactive
//! authenticators: the administrative bypass and the local-origin check.
//!
//! Every authenticator yields a [`Decision`]; one whose configuration or
//! environment does not apply must cancel, never accept, so that absence of
//! evidence never lets a login through.

use vstd::prelude::*;
use crate::config::SecRcCfg;
use crate::decision::Decision;
use crate::strutil::contains_char;
use vstd::arithmetic::power2::{lemma_pow2_pos, pow2};

verus! {

/// What every authentication method offers the chain evaluator: a verdict
/// for an interactive login, and a verdict plus a possibly spliced command
/// for an exec request.  Each implementation pins its behaviour down in the
/// two spec functions.
pub trait Authenticator: Sized {
    /// The decision this authenticator renders for an interactive login.
    spec fn login_decision_spec(&self) -> Decision;

    /// The decision and the resulting command for an exec request.
    spec fn exec_decision_spec(&self, cmd: Seq<char>) -> (Decision, Seq<char>);

    /// Build the authenticator from the resolved configuration alone;
    /// environmental facts (origin address, marker flags) default to
    /// absent and are injected by the host through the type's own
    /// constructor.
    fn init(config: &SecRcCfg) -> Self;

    /// Decide an interactive login.
    fn is_accepted_login(&self) -> (d: Decision)
        ensures
            d == self.login_decision_spec(),
    ;

    /// Decide an exec request, splicing the command string when the
    /// decision consumes a proof-of-possession prefix.
    fn is_accepted_exec(&self, cmd: &mut String) -> (d: Decision)
        ensures
            d == self.exec_decision_spec(old(cmd)@).0,
            final(cmd)@ == self.exec_decision_spec(old(cmd)@).1,
    ;
}

/// The administrative escape hatch: accepts outright when the sentinel
/// file exists in the user's home directory or when this process already
/// sits inside an authenticated invocation; cancels otherwise.
pub struct BypassAuthenticator {
    /// The sentinel marker file exists in the home directory.
    pub sentinel_present: bool,
    /// The environment carries the marker of an authenticated parent.
    pub nested: bool,
}

impl BypassAuthenticator {
    /// Build from the two environmental facts the host inspected.
    pub fn new(sentinel_present: bool, nested: bool) -> (r: BypassAuthenticator)
        ensures
            r.sentinel_present == sentinel_present,
            r.nested == nested,
    {
        BypassAuthenticator { sentinel_present, nested }
    }
}

impl Authenticator for BypassAuthenticator {
    open spec fn login_decision_spec(&self) -> Decision {
        if self.sentinel_present || self.nested {
            Decision::Accept
        } else {
            Decision::Cancel
        }
    }

    open spec fn exec_decision_spec(&self, cmd: Seq<char>) -> (Decision, Seq<char>) {
        (self.login_decision_spec(), cmd)
    }

    fn init(config: &SecRcCfg) -> Self {
        BypassAuthenticator { sentinel_present: false, nested: false }
    }

    fn is_accepted_login(&self) -> (d: Decision) {
        if self.sentinel_present || self.nested {
            Decision::Accept
        } else {
            Decision::Cancel
        }
    }

    fn is_accepted_exec(&self, cmd: &mut String) -> (d: Decision) {
        self.is_accepted_login()
    }
}

/// What the network-range parser returned for a string, as plain values:
/// address family (true for the 32-bit one), the address bits, and the
/// prefix length.
pub uninterp spec fn parsed_net(s: Seq<char>) -> Option<(bool, u128, u8)>;

/// Relies on cidr::IpCidr's string parser (`FromStr`), which reads
/// `address/length` and treats a bare address as a host network of full
/// length, rejecting host bits set beyond the prefix; `first_address` and
/// `network_length` hand the parsed value out as plain integers.
#[verifier::external_body]
fn parse_network(s: &str) -> (r: Option<(bool, u128, u8)>)
    ensures
        r == parsed_net(s@),
        r matches Some(t) ==> ((t.0 ==> t.2 <= 32 && t.1 < 0x1_0000_0000u128) && (!t.0 ==> t.2
            <= 128)),
{
    let c: cidr::IpCidr = match s.parse() {
        Ok(c) => c,
        Err(_) => return None,
    };
    match c {
        cidr::IpCidr::V4(c4) => Some(
            (true, u32::from_be_bytes(c4.first_address().octets()) as u128, c4.network_length()),
        ),
        cidr::IpCidr::V6(c6) => Some(
            (false, u128::from_be_bytes(c6.first_address().octets()), c6.network_length()),
        ),
    }
}

/// A host address belongs to a network exactly when the families agree and
/// the address bits above the prefix length agree.
pub open spec fn net_contains_spec(net: (bool, u128, u8), host: (bool, u128)) -> bool {
    let bits: int = if net.0 {
        32
    } else {
        128
    };
    net.0 == host.0 && net.1 as int / pow2((bits - net.2) as nat) as int == host.1 as int / pow2(
        (bits - net.2) as nat,
    ) as int
}

/// The origin address of a login attempt, as plain values: `None` when the
/// string is not a bare host address.
pub open spec fn origin_host(s: Seq<char>) -> Option<(bool, u128)> {
    if exists|j: int| 0 <= j < s.len() && s[j] == '/' {
        None
    } else {
        match parsed_net(s) {
            Some(t) => Some((t.0, t.1)),
            None => None,
        }
    }
}

/// A configured range string admits a host when it parses and contains it;
/// a malformed range admits nothing (it is skipped, never fatal).
pub open spec fn range_admits(r: Seq<char>, host: (bool, u128)) -> bool {
    match parsed_net(r) {
        Some(net) => net_contains_spec(net, host),
        None => false,
    }
}

/// Decide membership from the plain parsed values.
fn net_contains(net: (bool, u128, u8), host: (bool, u128)) -> (b: bool)
    requires
        net.0 ==> net.2 <= 32,
        !net.0 ==> net.2 <= 128,
    ensures
        b == net_contains_spec(net, host),
{
    let (v4, nval, plen) = net;
    let (hv4, hval) = host;
    if v4 != hv4 {
        return false;
    }
    let bits: u8 = if v4 {
        32
    } else {
        128
    };
    let sh = bits - plen;
    if sh == 128 {
        proof {
            lemma_pow2_pos(128);
            assert(pow2(128) == 0x100000000000000000000000000000000) by {
                vstd::arithmetic::power2::lemma2_to64();
                vstd::arithmetic::power2::lemma_pow2_adds(64, 64);
            }
            vstd::arithmetic::div_mod::lemma_fundamental_div_mod_converse(
                nval as int,
                pow2(128) as int,
                0,
                nval as int,
            );
            vstd::arithmetic::div_mod::lemma_fundamental_div_mod_converse(
                hval as int,
                pow2(128) as int,
                0,
                hval as int,
            );
        }
        return true;
    }
    proof {
        vstd::bits::lemma_u128_shr_is_div(nval, sh as u128);
        vstd::bits::lemma_u128_shr_is_div(hval, sh as u128);
    }
    (nval >> (sh as u128)) == (hval >> (sh as u128))
}

/// The local-origin authenticator: accepts a login whose origin address
/// lies in one of the configured network ranges, and cancels otherwise —
/// absence of a match must not block the other factors.
pub struct LocalIPAuthenticator {
    /// The remote origin address; empty when none could be determined.
    pub from_ip: String,
    /// The configured ranges, in configured order.
    pub accepted_ips: Option<Vec<String>>,
}

impl LocalIPAuthenticator {
    /// Build from the configured ranges and the origin address the host
    /// determined.
    pub fn new(config: &SecRcCfg, from_ip: String) -> (r: LocalIPAuthenticator)
        ensures
            r.from_ip == from_ip,
            r.accepted_ips is Some <==> config.accepted_ips is Some,
            config.accepted_ips matches Some(v) ==> r.accepted_ips matches Some(w) && v@ == w@,
    {
        LocalIPAuthenticator {
            from_ip,
            accepted_ips: match &config.accepted_ips {
                Some(v) => Some(v.clone()),
                None => None,
            },
        }
    }
}

impl Authenticator for LocalIPAuthenticator {
    open spec fn login_decision_spec(&self) -> Decision {
        match origin_host(self.from_ip@) {
            None => Decision::Cancel,
            Some(h) => match self.accepted_ips {
                None => Decision::Cancel,
                Some(rs) => if exists|k: int|
                    0 <= k < rs@.len() && range_admits(#[trigger] rs@[k]@, h) {
                    Decision::Accept
                } else {
                    Decision::Cancel
                },
            },
        }
    }

    open spec fn exec_decision_spec(&self, cmd: Seq<char>) -> (Decision, Seq<char>) {
        (self.login_decision_spec(), cmd)
    }

    fn init(config: &SecRcCfg) -> Self {
        LocalIPAuthenticator::new(config, String::new())
    }

    fn is_accepted_login(&self) -> (d: Decision) {
        let host = if contains_char(self.from_ip.as_str(), '/') {
            None
        } else {
            match parse_network(self.from_ip.as_str()) {
                Some((v4, val, _plen)) => Some((v4, val)),
                None => None,
            }
        };
        let host = match host {
            Some(h) => h,
            None => {
                return Decision::Cancel;
            },
        };
        let ranges = match &self.accepted_ips {
            Some(rs) => rs,
            None => {
                return Decision::Cancel;
            },
        };
        let n = ranges.len();
        for k in 0..n
            invariant
                n == ranges@.len(),
                Some(host) == origin_host(self.from_ip@),
                self.accepted_ips matches Some(rs) && rs@ == ranges@,
                forall|j: int| 0 <= j < k ==> !range_admits(#[trigger] ranges@[j]@, host),
        {
            // a malformed range is skipped without affecting the rest
            if let Some(net) = parse_network(ranges[k].as_str()) {
                if net_contains(net, host) {
                    proof {
                        assert(range_admits(ranges@[k as int]@, host));
                    }
                    return Decision::Accept;
                }
            }
        }
        Decision::Cancel
    }

    fn is_accepted_exec(&self, cmd: &mut String) -> (d: Decision) {
        self.is_accepted_login()
    }
}

} // verus!
