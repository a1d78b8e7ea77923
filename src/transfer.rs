//! Token movements that the vault asks the token ledger to perform.
use vstd::prelude::*;
use crate::identity::Identity;

verus! {

/// A balance container of the vault's token.
#[derive(Clone, Copy, Debug, PartialEq, Eq)]
pub enum Holding {
    /// The depositor's own holding.
    Depositor(Identity),
    /// The escrow holding of a depositor, controlled by the vault's authority.
    Escrow(Identity),
    /// The shared reserve that pays interest.
    Reserve,
}

/// A transfer of `amount` tokens of `mint` from `source` to `destination`,
/// signed by `authority`.
#[derive(Clone, Copy, Debug)]
pub struct Transfer {
    pub source: Holding,
    pub destination: Holding,
    pub mint: Identity,
    pub authority: Identity,
    pub amount: u64,
}

} // verus!
