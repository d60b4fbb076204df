//! Inspection of X.509 certificates given as PEM text, rendered as a
//! deterministic plain-text report, with a few small text utilities.

pub mod text;
pub mod bignum;
pub mod hex;
pub mod error;
pub mod der;
pub mod oid;
pub mod time;
pub mod cert;
pub mod pem;
pub mod name;
pub mod sigalg;
pub mod pubkey;
pub mod ext;
pub mod report;
pub mod codec;
pub mod http;
pub mod dns;
pub mod pattern;
pub mod random;
pub mod format;
