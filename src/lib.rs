use vstd::prelude::*;

pub mod address;
pub mod hexfmt;
pub mod pattern;
pub mod search;

verus! {

/// What can stop a derivation or a search before it starts.
#[derive(Debug, Clone, Copy, PartialEq, Eq, Structural)]
pub enum VanityError {
    /// The bytes or text given spell no valid secret key.
    InvalidKey,
    /// The search was asked for an empty pattern, an unknown position or no match at all.
    InvalidCriteria,
    /// The operating system's entropy source failed.
    EntropySourceUnavailable,
}

/// A key found by a search: the address it derives and the secret key as `0x` and hex.
#[derive(Debug)]
pub struct VanitySearchResult {
    pub private_key: String,
    pub address: String,
}

impl VanitySearchResult {
    /// The address and key texts.
    pub open spec fn pair(&self) -> (Seq<char>, Seq<char>) {
        (self.address@, self.private_key@)
    }
}

} // verus!
