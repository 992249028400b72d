//! The resolved shell configuration: every authenticator parameter is
//! optional, and an unset value disables the authenticator it belongs to.
//!
//! Configuration files are read and parsed outside the library; what is
//! verified here is the merge rule between an already-loaded configuration
//! and an incoming one, and the documented defaults.

use vstd::prelude::*;
use crate::strutil::{split_ws, split_ws_spec};

verus! {

/// A resolved configuration for the secure shell.
pub struct SecRcCfg {
    /// Network ranges whose logins are accepted outright.
    pub accepted_ips: Option<Vec<String>>,
    /// Recipient of challenge codes; unset disables the email authenticator.
    pub email: Option<String>,
    /// The real shell to hand control to.
    pub shell: Option<String>,
    /// Whitespace-separated arguments always passed to the real shell.
    pub shell_args: Option<String>,
    /// Where diagnostics are appended.
    pub log_file: Option<String>,
    /// Directory holding the single-use challenge file.
    pub tmpdir: Option<String>,
    /// Mail relay host.
    pub mail_host: Option<String>,
    /// Mail relay port.
    pub mail_port: Option<u16>,
    /// Sender address and relay account.
    pub mail_from: Option<String>,
    /// Command printing the relay password.
    pub mail_passwdcmd: Option<String>,
    /// Base32 secret; unset disables the one-time-code authenticator.
    pub totp_secret: Option<String>,
    /// Digits per one-time code.
    pub totp_digits: Option<u32>,
    /// Seconds per time step.
    pub totp_timestep: Option<u64>,
    /// Hash algorithm name for one-time codes.
    pub totp_hash: Option<String>,
    /// Hardware token identifier prefix; unset disables that authenticator.
    pub yubico_id: Option<String>,
}

impl SecRcCfg {
    /// Overlay an incoming configuration: every set incoming value replaces
    /// the current one, except accepted network ranges, which accumulate.
    #[verifier::rlimit(60)]
    pub fn merge_from(&mut self, incoming: SecRcCfg)
        ensures
            match (old(self).accepted_ips, incoming.accepted_ips) {
                (Some(a), Some(b)) => final(self).accepted_ips matches Some(m) && m@ == a@ + b@,
                (None, Some(b)) => final(self).accepted_ips matches Some(m) && m@ == b@,
                (_, None) => final(self).accepted_ips == old(self).accepted_ips,
            },
            final(self).email == if incoming.email is Some {
                incoming.email
            } else {
                old(self).email
            },
            final(self).shell == if incoming.shell is Some {
                incoming.shell
            } else {
                old(self).shell
            },
            final(self).shell_args == if incoming.shell_args is Some {
                incoming.shell_args
            } else {
                old(self).shell_args
            },
            final(self).log_file == if incoming.log_file is Some {
                incoming.log_file
            } else {
                old(self).log_file
            },
            final(self).tmpdir == if incoming.tmpdir is Some {
                incoming.tmpdir
            } else {
                old(self).tmpdir
            },
            final(self).mail_host == if incoming.mail_host is Some {
                incoming.mail_host
            } else {
                old(self).mail_host
            },
            final(self).mail_port == if incoming.mail_port is Some {
                incoming.mail_port
            } else {
                old(self).mail_port
            },
            final(self).mail_from == if incoming.mail_from is Some {
                incoming.mail_from
            } else {
                old(self).mail_from
            },
            final(self).mail_passwdcmd == if incoming.mail_passwdcmd is Some {
                incoming.mail_passwdcmd
            } else {
                old(self).mail_passwdcmd
            },
            final(self).totp_secret == if incoming.totp_secret is Some {
                incoming.totp_secret
            } else {
                old(self).totp_secret
            },
            final(self).totp_digits == if incoming.totp_digits is Some {
                incoming.totp_digits
            } else {
                old(self).totp_digits
            },
            final(self).totp_timestep == if incoming.totp_timestep is Some {
                incoming.totp_timestep
            } else {
                old(self).totp_timestep
            },
            final(self).totp_hash == if incoming.totp_hash is Some {
                incoming.totp_hash
            } else {
                old(self).totp_hash
            },
            final(self).yubico_id == if incoming.yubico_id is Some {
                incoming.yubico_id
            } else {
                old(self).yubico_id
            },
    {
        let SecRcCfg {
            accepted_ips,
            email,
            shell,
            shell_args,
            log_file,
            tmpdir,
            mail_host,
            mail_port,
            mail_from,
            mail_passwdcmd,
            totp_secret,
            totp_digits,
            totp_timestep,
            totp_hash,
            yubico_id,
        } = incoming;
        match accepted_ips {
            Some(mut inc) => {
                match &mut self.accepted_ips {
                    Some(cur) => {
                        cur.append(&mut inc);
                    },
                    None => {
                        self.accepted_ips = Some(inc);
                    },
                }
            },
            None => {},
        }
        if email.is_some() {
            self.email = email;
        }
        if shell.is_some() {
            self.shell = shell;
        }
        if shell_args.is_some() {
            self.shell_args = shell_args;
        }
        if log_file.is_some() {
            self.log_file = log_file;
        }
        if tmpdir.is_some() {
            self.tmpdir = tmpdir;
        }
        if mail_host.is_some() {
            self.mail_host = mail_host;
        }
        if mail_port.is_some() {
            self.mail_port = mail_port;
        }
        if mail_from.is_some() {
            self.mail_from = mail_from;
        }
        if mail_passwdcmd.is_some() {
            self.mail_passwdcmd = mail_passwdcmd;
        }
        if totp_secret.is_some() {
            self.totp_secret = totp_secret;
        }
        if totp_digits.is_some() {
            self.totp_digits = totp_digits;
        }
        if totp_timestep.is_some() {
            self.totp_timestep = totp_timestep;
        }
        if totp_hash.is_some() {
            self.totp_hash = totp_hash;
        }
        if yubico_id.is_some() {
            self.yubico_id = yubico_id;
        }
    }
}

/// The argument list the real shell is launched with: the configured
/// always-on arguments, split at whitespace, followed by the per-login
/// additions in order.
pub fn shell_invocation(shell_args: &str, additional: Vec<String>) -> (r: Vec<String>)
    ensures
        r@.map_values(|t: String| t@) == split_ws_spec(shell_args@) + additional@.map_values(
            |t: String| t@,
        ),
{
    let mut args = split_ws(shell_args);
    let ghost base = args@;
    let mut rest = additional;
    args.append(&mut rest);
    proof {
        assert(args@.map_values(|t: String| t@) =~= base.map_values(|t: String| t@)
            + additional@.map_values(|t: String| t@));
    }
    args
}

impl Default for SecRcCfg {
    /// The documented defaults: an empty accepted-range list, port 587,
    /// six-digit codes over 30-second steps hashed with SHA1, and the
    /// world-readable fallback temporary directory (callers are expected
    /// to replace it with a per-user one).
    fn default() -> (r: SecRcCfg)
        ensures
            r.accepted_ips matches Some(v) && v@ =~= Seq::<String>::empty(),
            r.email is None,
            r.shell is None,
            r.shell_args matches Some(a) && a@ == Seq::<char>::empty(),
            r.log_file matches Some(l) && l@ == "/var/log/sibsecsh.log"@,
            r.tmpdir matches Some(t) && t@ == "/tmp/sibsecsh"@,
            r.mail_host is None,
            r.mail_port == Some(587u16),
            r.mail_from is None,
            r.mail_passwdcmd is None,
            r.totp_secret is None,
            r.totp_digits == Some(6u32),
            r.totp_timestep == Some(30u64),
            r.totp_hash matches Some(h) && h@ == "SHA1"@,
            r.yubico_id is None,
    {
        SecRcCfg {
            accepted_ips: Some(Vec::new()),
            email: None,
            shell: None,
            shell_args: Some(String::new()),
            log_file: Some(String::from_str("/var/log/sibsecsh.log")),
            tmpdir: Some(String::from_str("/tmp/sibsecsh")),
            mail_host: None,
            mail_port: Some(587),
            mail_from: None,
            mail_passwdcmd: None,
            totp_secret: None,
            totp_digits: Some(6),
            totp_timestep: Some(30),
            totp_hash: Some(String::from_str("SHA1")),
            yubico_id: None,
        }
    }
}

} // verus!
