//! Withdrawal of a matured deposit with its interest.
use vstd::prelude::*;
use crate::constants::MAX_RESERVE_TOKEN_AMOUNT;
use crate::constants::MAX_USER_DEPOSIT;
use crate::deposit::{
    admission_error, deposit_index, holds_deposit, is_admitted, key_of, lemma_below_max_time,
    lemma_remove_keeps_wf, ledgers_wf, reserve_ceiling, DepositInfo, DepositLedgers,
};
use crate::identity::Identity;
use crate::initialize::VaultInfo;
use crate::interest::{
    capped_interest, grown, is_max_admissible, lemma_grown_monotone_seconds, lemma_interest_nonnegative,
};
use vstd::arithmetic::div_mod::{lemma_div_is_ordered, lemma_div_multiples_vanish};
use crate::transfer::{Holding, Transfer};

verus! {

#[derive(Clone, Copy, Debug, PartialEq, Eq, Structural)]
pub enum WithdrawError {
    /// The depositor has no deposit to withdraw.
    NoDeposit,
    /// The lock has not run out yet.
    TooSoon,
    /// The reserve cannot pay the interest owed.
    NotEnoughTokensInReserve,
    /// The program identity handed in is not the vault's own.
    InvalidProgramId,
}

/// What a withdrawal pays and the two transfers that pay it: the interest
/// from the reserve into the escrow holding, then everything in escrow to
/// the depositor.
#[derive(Clone, Copy, Debug)]
pub struct WithdrawPlan {
    pub principal: u64,
    pub interest: u64,
    pub to_escrow: Transfer,
    pub to_depositor: Transfer,
}

/// The first withdrawal rule broken by the depositor `k` at `now`, given the
/// reserve's balance and whether the program identity handed in is the
/// vault's own; `None` when the withdrawal goes through.
pub open spec fn withdraw_error(
    s: Seq<DepositInfo>,
    k: Seq<u8>,
    now: int,
    reserve_balance: u64,
    program_ok: bool,
) -> Option<WithdrawError> {
    if !holds_deposit(s, k) {
        Some(WithdrawError::NoDeposit)
    } else {
        let d = s[deposit_index(s, k)];
        if now - d.deposit_time < d.seconds_locked {
            Some(WithdrawError::TooSoon)
        } else if reserve_balance < capped_interest(
            d.deposit_lamports as nat,
            d.seconds_locked as nat,
        ) {
            Some(WithdrawError::NotEnoughTokensInReserve)
        } else if !program_ok {
            Some(WithdrawError::InvalidProgramId)
        } else {
            None
        }
    }
}

/// An admitted deposit's principal and interest together fit in the reserve cap.
pub proof fn lemma_admitted_payout_fits(principal: u64, seconds: u64)
    requires
        admission_error(principal, seconds) is None,
    ensures
        principal + capped_interest(principal as nat, seconds as nat) <= MAX_RESERVE_TOKEN_AMOUNT,
{
    let p = principal as nat;
    let t = seconds as nat;
    lemma_grown_monotone_seconds(p, t, t + 1);
    lemma_interest_nonnegative(p, t);
    lemma_div_is_ordered(grown(p, t) as int, reserve_ceiling() as int, 1_000_000_000_000);
    lemma_div_multiples_vanish(MAX_RESERVE_TOKEN_AMOUNT as int, 1_000_000_000_000);
}

/// Pays out the depositor's matured deposit: checks that a deposit exists,
/// that its lock has run out at `now`, that `reserve_balance` covers the
/// interest, and that `program` is the vault's own `program_id`, in that
/// order. On success the deposit is removed, so it cannot be paid twice, and
/// the plan of the two transfers is returned; on an error nothing changes.
pub fn handler(
    vault: &VaultInfo,
    ledgers: &mut DepositLedgers,
    depositor: &Identity,
    now: i64,
    reserve_balance: u64,
    program_id: &Identity,
    program: &Identity,
) -> (r: Result<WithdrawPlan, WithdrawError>)
    requires
        old(ledgers).wf(),
    ensures
        final(ledgers).wf(),
        withdraw_error(
            old(ledgers)@,
            depositor.bytes@,
            now as int,
            reserve_balance,
            program.bytes@ == program_id.bytes@,
        ) matches Some(e) ==> r == Err::<WithdrawPlan, WithdrawError>(e) && final(ledgers)@ == old(
            ledgers,
        )@,
        r is Ok <==> withdraw_error(
            old(ledgers)@,
            depositor.bytes@,
            now as int,
            reserve_balance,
            program.bytes@ == program_id.bytes@,
        ) is None,
        r matches Ok(plan) ==> {
            let d = old(ledgers)@[deposit_index(old(ledgers)@, depositor.bytes@)];
            let interest = capped_interest(d.deposit_lamports as nat, d.seconds_locked as nat);
            &&& final(ledgers)@ == old(ledgers)@.remove(
                deposit_index(old(ledgers)@, depositor.bytes@),
            )
            &&& !holds_deposit(final(ledgers)@, depositor.bytes@)
            &&& plan.principal == d.deposit_lamports
            &&& plan.interest == interest
            &&& d.deposit_lamports + interest <= MAX_RESERVE_TOKEN_AMOUNT
            &&& plan.to_escrow == (Transfer {
                source: Holding::Reserve,
                destination: Holding::Escrow(*depositor),
                mint: vault.token_mint,
                authority: vault.vault_admin,
                amount: interest,
            })
            &&& plan.to_depositor == (Transfer {
                source: Holding::Escrow(*depositor),
                destination: Holding::Depositor(*depositor),
                mint: vault.token_mint,
                authority: vault.vault_admin,
                amount: (d.deposit_lamports + interest) as u64,
            })
        },
{
    let i = match ledgers.find(depositor) {
        Some(i) => i,
        None => {
            return Err(WithdrawError::NoDeposit);
        },
    };
    let d = match ledgers.get(depositor) {
        Some(d) => d,
        None => {
            return Err(WithdrawError::NoDeposit);
        },
    };
    if !d.after_lockout(now) {
        return Err(WithdrawError::TooSoon);
    }
    let interest = d.compute_interest();
    if reserve_balance < interest {
        return Err(WithdrawError::NotEnoughTokensInReserve);
    }
    if !program.same_as(program_id) {
        return Err(WithdrawError::InvalidProgramId);
    }
    proof {
        assert(is_admitted(ledgers@[i as int]));
        lemma_admitted_payout_fits(d.deposit_lamports, d.seconds_locked);
    }
    ledgers.take(i);
    Ok(
        WithdrawPlan {
            principal: d.deposit_lamports,
            interest,
            to_escrow: Transfer {
                source: Holding::Reserve,
                destination: Holding::Escrow(*depositor),
                mint: vault.token_mint,
                authority: vault.vault_admin,
                amount: interest,
            },
            to_depositor: Transfer {
                source: Holding::Escrow(*depositor),
                destination: Holding::Depositor(*depositor),
                mint: vault.token_mint,
                authority: vault.vault_admin,
                amount: d.deposit_lamports + interest,
            },
        },
    )
}

/// Every deposit that admission lets through (a principal within the
/// per-user cap, locked for a positive time shorter than the longest
/// admissible lock `max_lock`) is accepted, and its principal and interest
/// together never exceed what a full reserve holds.
pub proof fn lemma_admitted_deposit_is_covered(principal: u64, seconds: u64, max_lock: u64)
    requires
        0 < principal <= MAX_USER_DEPOSIT,
        is_max_admissible(principal as nat, MAX_RESERVE_TOKEN_AMOUNT as nat, max_lock as nat),
        0 < seconds < max_lock,
    ensures
        admission_error(principal, seconds) is None,
        principal + capped_interest(principal as nat, seconds as nat) <= MAX_RESERVE_TOKEN_AMOUNT,
{
    lemma_below_max_time(principal, seconds, max_lock);
    lemma_admitted_payout_fits(principal, seconds);
}

/// A deposit is paid at most once: after a withdrawal goes through, every
/// later withdrawal by the same depositor fails with `NoDeposit`.
pub proof fn lemma_withdraw_only_once(
    s: Seq<DepositInfo>,
    k: Seq<u8>,
    now: int,
    reserve_balance: u64,
    program_ok: bool,
    later: int,
    later_balance: u64,
    later_program_ok: bool,
)
    requires
        ledgers_wf(s),
        withdraw_error(s, k, now, reserve_balance, program_ok) is None,
    ensures
        withdraw_error(s.remove(deposit_index(s, k)), k, later, later_balance, later_program_ok)
            == Some(WithdrawError::NoDeposit),
{
    let i = deposit_index(s, k);
    assert(0 <= i < s.len() && key_of(s[i]) == k);
    lemma_remove_keeps_wf(s, i);
}

/// The lock ends exactly `seconds_locked` seconds after the deposit: one
/// second earlier a withdrawal fails with `TooSoon`; from then on it goes
/// through when the reserve covers the interest and the program is the
/// vault's own.
pub proof fn lemma_lockout_boundary(
    s: Seq<DepositInfo>,
    k: Seq<u8>,
    reserve_balance: u64,
    program_ok: bool,
)
    requires
        holds_deposit(s, k),
    ensures
        ({
            let d = s[deposit_index(s, k)];
            &&& withdraw_error(
                s,
                k,
                d.deposit_time + d.seconds_locked - 1,
                reserve_balance,
                program_ok,
            ) == Some(WithdrawError::TooSoon)
            &&& reserve_balance >= capped_interest(
                d.deposit_lamports as nat,
                d.seconds_locked as nat,
            ) && program_ok ==> withdraw_error(
                s,
                k,
                d.deposit_time + d.seconds_locked,
                reserve_balance,
                program_ok,
            ) is None
        }),
{
}

} // verus!
