//! Replenishing the reserve up to its cap.
use vstd::prelude::*;
use crate::identity::Identity;
use crate::initialize::VaultInfo;

verus! {

#[derive(Clone, Copy, Debug, PartialEq, Eq, Structural)]
pub enum RefreshError {
    /// The reserve already holds more than its cap.
    MaxReserveLimit,
    /// The program identity handed in is not the vault's own.
    InvalidProgramId,
}

/// What refreshing a reserve of `reserve_balance` under `cap` gives: the
/// amount to mint, or the first rule broken.
pub open spec fn refresh_outcome(cap: u64, reserve_balance: u64, program_ok: bool) -> Result<
    u64,
    RefreshError,
> {
    if reserve_balance > cap {
        Err(RefreshError::MaxReserveLimit)
    } else if !program_ok {
        Err(RefreshError::InvalidProgramId)
    } else {
        Ok((cap - reserve_balance) as u64)
    }
}

/// The amount to mint into the reserve so that it holds exactly its cap.
/// A full reserve gives zero. Minting is signed by the vault's authority.
pub fn handler(
    vault: &VaultInfo,
    reserve_balance: u64,
    program_id: &Identity,
    program: &Identity,
) -> (r: Result<u64, RefreshError>)
    ensures
        r == refresh_outcome(
            vault.max_tokens,
            reserve_balance,
            program.bytes@ == program_id.bytes@,
        ),
{
    let refresh_amount = vault.max_tokens.checked_sub(reserve_balance);
    let amount = match refresh_amount {
        Some(a) => a,
        None => {
            return Err(RefreshError::MaxReserveLimit);
        },
    };
    if !program.same_as(program_id) {
        return Err(RefreshError::InvalidProgramId);
    }
    Ok(amount)
}

/// The reserve's balance after a run of refreshes, one for each entry of
/// `program_ok`, starting from `balance`.
pub open spec fn balance_after_refreshes(cap: u64, balance: u64, program_ok: Seq<bool>) -> u64
    decreases program_ok.len(),
{
    if program_ok.len() == 0 {
        balance
    } else {
        let before = balance_after_refreshes(cap, balance, program_ok.drop_last());
        match refresh_outcome(cap, before, program_ok.last()) {
            Ok(minted) => (before + minted) as u64,
            Err(_) => before,
        }
    }
}

/// No run of refreshes takes a reserve within its cap beyond it, and a
/// refresh that succeeds leaves the reserve exactly at its cap.
pub proof fn lemma_refresh_keeps_cap(cap: u64, balance: u64, program_ok: Seq<bool>)
    requires
        balance <= cap,
    ensures
        balance_after_refreshes(cap, balance, program_ok) <= cap,
        forall|b: u64, ok: bool|
            #[trigger] refresh_outcome(cap, b, ok) matches Ok(minted) ==> b + minted == cap,
    decreases program_ok.len(),
{
    if program_ok.len() > 0 {
        lemma_refresh_keeps_cap(cap, balance, program_ok.drop_last());
    }
}

} // verus!
