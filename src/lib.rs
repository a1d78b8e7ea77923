//! A time-locked, interest-bearing escrow vault.
//!
//! Depositors lock a bounded amount of a token for a chosen number of seconds
//! and later take back the principal plus interest compounded every second,
//! paid out of a reserve that is never filled beyond a fixed cap. The token
//! ledger itself (balances, transfers, minting) lives outside this crate: the
//! functions here decide, hand back the transfers to perform, and encode them
//! as token-program instructions.

pub mod constants;
pub mod interest;
pub mod identity;
pub mod initialize;
pub mod transfer;
pub mod deposit;
pub mod withdraw;
pub mod refresh_reserve;
pub mod token_instruction;

use vstd::prelude::*;
use crate::deposit::{
    admission_error, deposit_index, holds_deposit, DepositError, DepositInfo, DepositLedgers,
};
use crate::interest::capped_interest;
use crate::identity::Identity;
use crate::initialize::{initial_vault_info, InitializeError, VaultInfo};
use crate::refresh_reserve::{refresh_outcome, RefreshError};
use crate::transfer::Transfer;
use crate::withdraw::{withdraw_error, WithdrawError, WithdrawPlan};

verus! {

/// Everything the vault keeps: its own program identity, its configuration
/// and the live deposits. Balances stay with the token ledger.
pub struct VaultState {
    pub program_id: Identity,
    pub vault: VaultInfo,
    pub ledgers: DepositLedgers,
}

impl VaultState {
    pub open spec fn wf(&self) -> bool {
        self.ledgers.wf()
    }
}

/// Creates the vault in `slot`, its canonical location, owned by
/// `program_id`, with no deposits. Fails if the slot is already taken.
pub fn initialize(
    slot: &mut Option<VaultState>,
    program_id: Identity,
    vault_admin: Identity,
    token_mint: Identity,
    token_vault: Identity,
) -> (r: Result<(), InitializeError>)
    ensures
        old(slot).is_some() ==> r == Err::<(), InitializeError>(
            InitializeError::AlreadyInitialized,
        ) && *final(slot) == *old(slot),
        old(slot).is_none() ==> r is Ok && final(slot).is_some(),
        old(slot).is_none() ==> ({
            let state = final(slot)->Some_0;
            &&& state.wf()
            &&& state.program_id == program_id
            &&& state.vault == initial_vault_info(vault_admin, token_mint, token_vault)
            &&& state.ledgers@ == Seq::<DepositInfo>::empty()
        }),
{
    if slot.is_some() {
        return Err(InitializeError::AlreadyInitialized);
    }
    let mut config: Option<VaultInfo> = None;
    let created = initialize::handler(&mut config, vault_admin, token_mint, token_vault);
    match config {
        Some(vault) => {
            *slot = Some(VaultState { program_id, vault, ledgers: DepositLedgers::new() });
            created
        },
        None => Err(InitializeError::AlreadyInitialized),
    }
}

/// Locks `deposit_lamports` tokens of `depositor` for `seconds_locked`
/// seconds from `now`; see `deposit::handler`.
pub fn deposit(
    state: &mut VaultState,
    depositor: Identity,
    now: i64,
    seconds_locked: u64,
    deposit_lamports: u64,
) -> (r: Result<Transfer, DepositError>)
    requires
        old(state).wf(),
    ensures
        final(state).wf(),
        final(state).program_id == old(state).program_id,
        final(state).vault == old(state).vault,
        admission_error(deposit_lamports, seconds_locked) matches Some(e) ==> r == Err::<
            Transfer,
            DepositError,
        >(e),
        admission_error(deposit_lamports, seconds_locked) is None && holds_deposit(
            old(state).ledgers@,
            depositor.bytes@,
        ) ==> r == Err::<Transfer, DepositError>(DepositError::DuplicateDeposit),
        r is Err ==> final(state).ledgers@ == old(state).ledgers@,
        r is Ok <==> admission_error(deposit_lamports, seconds_locked) is None && !holds_deposit(
            old(state).ledgers@,
            depositor.bytes@,
        ),
        r matches Ok(t) ==> t.amount == deposit_lamports && final(state).ledgers@ == old(
            state,
        ).ledgers@.push(
            (DepositInfo { seconds_locked, deposit_lamports, depositor, deposit_time: now }),
        ),
{
    deposit::handler(&state.vault, &mut state.ledgers, depositor, now, seconds_locked, deposit_lamports)
}

/// Pays out `depositor`'s matured deposit; `program` is the identity the
/// caller hands in for the vault's program. See `withdraw::handler`.
pub fn withdraw(
    state: &mut VaultState,
    depositor: &Identity,
    now: i64,
    reserve_balance: u64,
    program: &Identity,
) -> (r: Result<WithdrawPlan, WithdrawError>)
    requires
        old(state).wf(),
    ensures
        final(state).wf(),
        final(state).program_id == old(state).program_id,
        final(state).vault == old(state).vault,
        withdraw_error(
            old(state).ledgers@,
            depositor.bytes@,
            now as int,
            reserve_balance,
            program.bytes@ == old(state).program_id.bytes@,
        ) matches Some(e) ==> r == Err::<WithdrawPlan, WithdrawError>(e)
            && final(state).ledgers@ == old(state).ledgers@,
        r is Ok <==> withdraw_error(
            old(state).ledgers@,
            depositor.bytes@,
            now as int,
            reserve_balance,
            program.bytes@ == old(state).program_id.bytes@,
        ) is None,
        r matches Ok(plan) ==> {
            let d = old(state).ledgers@[deposit_index(old(state).ledgers@, depositor.bytes@)];
            &&& !holds_deposit(final(state).ledgers@, depositor.bytes@)
            &&& final(state).ledgers@ == old(state).ledgers@.remove(
                deposit_index(old(state).ledgers@, depositor.bytes@),
            )
            &&& plan.principal == d.deposit_lamports
            &&& plan.interest == capped_interest(
                d.deposit_lamports as nat,
                d.seconds_locked as nat,
            )
            &&& plan.to_escrow.amount == plan.interest
            &&& plan.to_depositor.amount == plan.principal + plan.interest
        },
{
    withdraw::handler(
        &state.vault,
        &mut state.ledgers,
        depositor,
        now,
        reserve_balance,
        &state.program_id,
        program,
    )
}

/// The amount to mint so that the reserve, now holding `reserve_balance`,
/// is full; see `refresh_reserve::handler`.
pub fn refresh_reserve(state: &VaultState, reserve_balance: u64, program: &Identity) -> (r: Result<
    u64,
    RefreshError,
>)
    ensures
        r == refresh_outcome(
            state.vault.max_tokens,
            reserve_balance,
            program.bytes@ == state.program_id.bytes@,
        ),
{
    refresh_reserve::handler(&state.vault, reserve_balance, &state.program_id, program)
}

} // verus!
