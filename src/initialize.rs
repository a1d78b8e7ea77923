//! The vault's configuration record and its one-time creation.
use vstd::prelude::*;
use crate::constants::{INTEREST_RATE_TENTHBPS, MAX_RESERVE_TOKEN_AMOUNT};
use crate::identity::Identity;

verus! {

/// The vault's configuration, created once and never changed.
#[derive(Clone, Copy, Debug)]
pub struct VaultInfo {
    /// Maximum number of tokens in the reserve.
    pub max_tokens: u64,
    /// Interest rate, in tenths of a basis point per second.
    pub interest_rate: u64,
    /// The authority that replenishes the reserve and moves funds out of the
    /// reserve and escrow holdings.
    pub vault_admin: Identity,
    /// The token this vault holds.
    pub token_mint: Identity,
    /// The reserve holding.
    pub token_vault: Identity,
}

#[derive(Clone, Copy, Debug, PartialEq, Eq, Structural)]
pub enum InitializeError {
    /// A configuration already exists.
    AlreadyInitialized,
}

/// The configuration that `handler` creates from its arguments.
pub open spec fn initial_vault_info(
    vault_admin: Identity,
    token_mint: Identity,
    token_vault: Identity,
) -> VaultInfo {
    VaultInfo {
        max_tokens: MAX_RESERVE_TOKEN_AMOUNT,
        interest_rate: INTEREST_RATE_TENTHBPS,
        vault_admin,
        token_mint,
        token_vault,
    }
}

/// Creates the configuration in `slot`, its one canonical location, with the
/// protocol's cap and rate. Fails if the slot is already taken.
pub fn handler(
    slot: &mut Option<VaultInfo>,
    vault_admin: Identity,
    token_mint: Identity,
    token_vault: Identity,
) -> (r: Result<(), InitializeError>)
    ensures
        old(slot).is_some() ==> r == Err::<(), InitializeError>(
            InitializeError::AlreadyInitialized,
        ) && *final(slot) == *old(slot),
        old(slot).is_none() ==> r is Ok && *final(slot) == Some(
            initial_vault_info(vault_admin, token_mint, token_vault),
        ),
{
    if slot.is_some() {
        return Err(InitializeError::AlreadyInitialized);
    }
    *slot = Some(
        VaultInfo {
            max_tokens: MAX_RESERVE_TOKEN_AMOUNT,
            interest_rate: INTEREST_RATE_TENTHBPS,
            vault_admin,
            token_mint,
            token_vault,
        },
    );
    Ok(())
}

} // verus!
