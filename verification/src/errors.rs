use vstd::prelude::*;

verus! {

/// Every way a lifecycle transition can be refused. Each transition's contract
/// says exactly which variant comes back on which inputs; any error leaves the
/// ledger untouched.
#[derive(Clone, Copy, Debug, PartialEq, Eq, Structural)]
pub enum PromiseError {
    /// The escrow amount offered at creation is below `MIN_DEPOSIT`.
    InsufficientDeposit,
    /// The deadline given at creation is not strictly in the future.
    DeadlineNotFuture,
    /// A fulfillment arrived after the deadline.
    DeadlinePassed,
    /// A break arrived before the deadline.
    DeadlineNotYetPassed,
    /// The named partner of a partner promise equals its creator.
    InvalidPartner,
    /// The signer is not allowed to drive this transition.
    Unauthorized,
    /// A record already sits at the derived address.
    RecordAlreadyExists,
    /// No record sits at the derived address.
    RecordNotFound,
    /// The creator cannot cover the fee plus the deposit.
    InsufficientBalance,
}

} // verus!
