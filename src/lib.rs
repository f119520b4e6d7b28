//! Time-based one-time passcodes (RFC 6238) and the Base32 text encoding
//! (RFC 4648) that their shared secrets are usually written in.

pub mod base32;
pub mod totp;
pub mod hex;
pub mod token;
pub mod uri;
