//! Core of a constant-product decentralized exchange: pair pricing and
//! liquidity math, a registry of trading pairs with a two-phase creation
//! protocol, and a router that chains swap legs into one atomic route.

use vstd::prelude::*;

pub mod asset;
pub mod decimal;
pub mod factory;
pub mod lex;
pub mod pair;
pub mod router;
pub mod wide_uint;

verus! {

/// Errors surfaced by the exchange core. Every failure aborts the enclosing
/// transaction; nothing is retried internally.
#[derive(Clone, Copy, Debug, PartialEq, Eq, Structural)]
pub enum ContractError {
    /// A mutating call from an address that does not hold the required role.
    PermissionDenied,
    /// Malformed input: bad fee bounds, or a malformed or oversized route.
    ValidationError,
    /// The pair is already registered.
    ConflictError,
    /// No pair is registered under the given key.
    NotFoundError,
    /// A balance subtraction underflowed.
    ArithmeticError,
    /// A pair was constructed over two identical assets.
    DoublingAssets,
    /// The offered or asked asset is not one of the pair's two pool slots.
    AssetMismatch,
    /// A liquidity provision would mint zero shares.
    InvalidZeroAmount,
    /// The swap moved the price beyond the caller's spread limit.
    SlippageExceeded,
    /// The route delivered less than the declared minimum; carries the
    /// minimum asked for and the amount actually received.
    MinimumReceiveNotMet { minimum_receive: u128, swap_amount: u128 },
}

} // verus!
