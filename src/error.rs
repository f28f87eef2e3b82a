use vstd::prelude::*;

verus! {

/// Why decoding one container failed.
///
/// Every failure is fatal for the container being decoded, and only for it.
#[derive(Clone, Copy, Debug, PartialEq, Eq, Structural)]
pub enum DecodeError {
    /// Fewer bytes remained than a read required; `offset` is where that
    /// read began.
    TruncatedInput { offset: usize },
    /// The leading format-version byte was not the expected sentinel.
    BadMagic { found: u8 },
    /// A length-prefixed string declared more bytes than the sanity ceiling
    /// allows; `offset` is where its length prefix began.
    OversizedString { offset: usize, length: u64 },
}

} // verus!
