use vstd::prelude::*;

verus! {

/// Why a pool operation was refused. Every failing operation returns one of
/// these without having mutated any ledger.
#[derive(Clone, Copy, Debug, PartialEq, Eq, Structural)]
pub enum AmmError {
    /// Two arguments name the same asset where distinct assets are required,
    /// or the operation is meaningless for the pool's current state (for
    /// example pricing a swap against an empty reserve).
    InvalidArguments,
    /// The operation names an asset that is not registered with the pool.
    UnknownAsset,
    /// The amounts offered to `add_tokens_to_pool` do not match the current
    /// reserve ratio exactly.
    ProportionMismatch,
    /// A debit would exceed the paying account's ledger balance.
    InsufficientBalance,
    /// A redemption was attempted by an account that holds no shares.
    ZeroShareBalance,
    /// The external transfer capability reported failure; the internal
    /// ledger was left unchanged.
    ExternalTransferFailed,
}

} // verus!
