//! What is kept of one account.

use vstd::prelude::*;

verus! {

/// One account: its label for people, who issued it, and its Base32 secret.
#[derive(Debug, Clone)]
pub struct TokenInfo {
    pub label: String,
    pub issuer: String,
    pub token: String,
}

} // verus!
