//! A second-factor authentication gate meant to run as a login shell.
//!
//! Before control reaches the user's real shell, a fixed chain of
//! authenticators is consulted; the login proceeds only if one of them
//! accepts it.  Each authenticator renders a tri-state [`decision::Decision`]:
//! accept, reject, or cancel (meaning "not my call, ask the next one").

use vstd::prelude::*;

pub mod auth;
pub mod auth_yubico;
pub mod auth_email;
pub mod auth_totp;
pub mod codec;
pub mod config;
pub mod decision;
pub mod digits;
pub mod parse_args;
pub mod rng;
pub mod strutil;

verus! {

} // verus!
