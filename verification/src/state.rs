use vstd::prelude::*;

verus! {

/// A self promise: only its creator can fulfill it. The creator is not stored;
/// it is part of the seed tuple from which the record's address is derived, so
/// only a caller who knows (and, for fulfillment, signs as) the creator can
/// reach the record at all.
#[derive(Clone, Copy, Debug)]
pub struct SelfPromise {
    /// Opaque 8-byte label chosen by the creator; part of the address seed.
    pub text: [u8; 8],
    /// Absolute deadline, seconds since the epoch.
    pub unix_seconds: u64,
    /// Lamports held in escrow for this promise.
    pub size: u64,
    /// Discriminant returned by address derivation for this record's seeds.
    pub bump: u8,
}

/// A partner promise: only the named partner can confirm fulfillment.
#[derive(Clone, Copy, Debug)]
pub struct PartnerPromise {
    /// The counterparty who alone may confirm fulfillment; never the creator.
    pub partner: [u8; 32],
    /// Opaque 8-byte label chosen by the creator; part of the address seed.
    pub text: [u8; 8],
    /// Absolute deadline, seconds since the epoch.
    pub unix_seconds: u64,
    /// Lamports held in escrow for this promise.
    pub size: u64,
    /// Discriminant returned by address derivation for this record's seeds.
    pub bump: u8,
}

} // verus!
