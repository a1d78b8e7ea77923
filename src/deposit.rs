//! Deposits: the per-depositor ledger records, their store, and admission.
use vstd::prelude::*;
use crate::constants::{MAX_RESERVE_TOKEN_AMOUNT, MAX_USER_DEPOSIT};
use crate::identity::Identity;
use crate::initialize::VaultInfo;
use crate::interest::{
    accrued_interest, capped_interest, grown, is_max_admissible, lemma_grown_gains,
    lemma_grown_monotone_seconds, max_time, FIXED_POINT_SCALE,
};
use crate::transfer::{Holding, Transfer};

verus! {

/// One depositor's locked deposit.
#[derive(Clone, Copy, Debug)]
pub struct DepositInfo {
    /// Time in seconds the deposit is locked for.
    pub seconds_locked: u64,
    /// Deposited amount.
    pub deposit_lamports: u64,
    /// The depositor.
    pub depositor: Identity,
    /// Time of the deposit.
    pub deposit_time: i64,
}

impl DepositInfo {
    /// Seconds from the deposit to `now`.
    pub fn get_elapsed(&self, now: i64) -> (r: i64)
        requires
            i64::MIN <= now - self.deposit_time <= i64::MAX,
        ensures
            r == now - self.deposit_time,
    {
        now - self.deposit_time
    }

    /// Whether the lock has run out at `now`.
    pub fn after_lockout(&self, now: i64) -> (r: bool)
        ensures
            r == (now - self.deposit_time >= self.seconds_locked),
    {
        (now as i128) - (self.deposit_time as i128) >= self.seconds_locked as i128
    }

    /// Interest owed at the end of the lock.
    pub fn compute_interest(&self) -> (r: u64)
        ensures
            r == capped_interest(self.deposit_lamports as nat, self.seconds_locked as nat),
    {
        accrued_interest(self.deposit_lamports, self.seconds_locked)
    }
}

#[derive(Clone, Copy, Debug, PartialEq, Eq, Structural)]
pub enum DepositError {
    /// The principal is zero or above the per-user cap.
    MaxDepositLimit,
    /// The lock is zero seconds long.
    ZeroTimeDeposit,
    /// The principal with its interest would exceed the reserve cap.
    BreakingTheBank,
    /// The depositor already has a deposit that has not been withdrawn.
    DuplicateDeposit,
}

/// The scaled value a deposit may reach and still be paid from a full reserve.
pub open spec fn reserve_ceiling() -> nat {
    (MAX_RESERVE_TOKEN_AMOUNT as nat) * (FIXED_POINT_SCALE as nat)
}

/// The first admission rule that a deposit of `principal` for `seconds`
/// breaks, if any.
pub open spec fn admission_error(principal: u64, seconds: u64) -> Option<DepositError> {
    if !(0 < principal <= MAX_USER_DEPOSIT) {
        Some(DepositError::MaxDepositLimit)
    } else if seconds == 0 {
        Some(DepositError::ZeroTimeDeposit)
    } else if !(grown(principal as nat, seconds as nat + 1) <= reserve_ceiling()) {
        Some(DepositError::BreakingTheBank)
    } else {
        None
    }
}

/// A deposit that admission lets through.
pub open spec fn is_admitted(d: DepositInfo) -> bool {
    admission_error(d.deposit_lamports, d.seconds_locked).is_none()
}

pub open spec fn key_of(d: DepositInfo) -> Seq<u8> {
    d.depositor.bytes@
}

/// Whether `s` holds a deposit of the depositor `k`.
pub open spec fn holds_deposit(s: Seq<DepositInfo>, k: Seq<u8>) -> bool {
    exists|i: int| 0 <= i < s.len() && key_of(#[trigger] s[i]) == k
}

/// The position of the depositor `k`'s deposit in `s`.
pub open spec fn deposit_index(s: Seq<DepositInfo>, k: Seq<u8>) -> int {
    choose|i: int| 0 <= i < s.len() && key_of(#[trigger] s[i]) == k
}

/// At most one deposit per depositor, and each one admitted.
pub open spec fn ledgers_wf(s: Seq<DepositInfo>) -> bool {
    &&& forall|i: int, j: int|
        0 <= i < j < s.len() ==> key_of(#[trigger] s[i]) != key_of(#[trigger] s[j])
    &&& forall|i: int| 0 <= i < s.len() ==> is_admitted(#[trigger] s[i])
}

/// The live deposits, at most one per depositor.
pub struct DepositLedgers {
    entries: Vec<DepositInfo>,
}

impl View for DepositLedgers {
    type V = Seq<DepositInfo>;

    closed spec fn view(&self) -> Seq<DepositInfo> {
        self.entries@
    }
}

impl DepositLedgers {
    pub open spec fn wf(&self) -> bool {
        ledgers_wf(self@)
    }

    pub fn new() -> (r: DepositLedgers)
        ensures
            r.wf(),
            r@ == Seq::<DepositInfo>::empty(),
    {
        DepositLedgers { entries: Vec::new() }
    }

    /// A store that holds `d` alone, if admission lets `d` through; used to
    /// take up a deposit that was recorded earlier.
    pub fn from_record(d: DepositInfo) -> (r: Option<DepositLedgers>)
        ensures
            r is Some <==> is_admitted(d),
            r matches Some(l) ==> l.wf() && l@ == seq![d],
    {
        if check_admission(d.deposit_lamports, d.seconds_locked).is_some() {
            return None;
        }
        let mut l = DepositLedgers::new();
        l.record(d);
        proof {
            assert(l@ =~= seq![d]);
        }
        Some(l)
    }

    pub fn len(&self) -> (r: usize)
        ensures
            r == self@.len(),
    {
        self.entries.len()
    }

    /// Where the deposit of `depositor` stands, if there is one.
    pub fn find(&self, depositor: &Identity) -> (r: Option<usize>)
        requires
            self.wf(),
        ensures
            r is None <==> !holds_deposit(self@, depositor.bytes@),
            r matches Some(i) ==> i == deposit_index(self@, depositor.bytes@) && i < self@.len()
                && key_of(self@[i as int]) == depositor.bytes@,
    {
        let mut i: usize = 0;
        while i < self.entries.len()
            invariant
                self.wf(),
                i <= self@.len(),
                forall|j: int| 0 <= j < i ==> key_of(#[trigger] self@[j]) != depositor.bytes@,
            decreases self@.len() - i,
        {
            if self.entries[i].depositor.same_as(depositor) {
                proof {
                    let c = deposit_index(self@, depositor.bytes@);
                    assert(key_of(self@[i as int]) == depositor.bytes@);
                    assert(0 <= c < self@.len() && key_of(self@[c]) == depositor.bytes@);
                    if c < i {
                        assert(key_of(self@[c]) != depositor.bytes@);
                    } else if c > i {
                        assert(key_of(self@[i as int]) != key_of(self@[c]));
                    }
                }
                return Some(i);
            }
            i = i + 1;
        }
        None
    }

    /// The deposit of `depositor`, if there is one.
    pub fn get(&self, depositor: &Identity) -> (r: Option<DepositInfo>)
        requires
            self.wf(),
        ensures
            r is None <==> !holds_deposit(self@, depositor.bytes@),
            r matches Some(d) ==> d == self@[deposit_index(self@, depositor.bytes@)],
    {
        match self.find(depositor) {
            Some(i) => Some(self.entries[i]),
            None => None,
        }
    }

    fn record(&mut self, d: DepositInfo)
        requires
            old(self).wf(),
            is_admitted(d),
            !holds_deposit(old(self)@, key_of(d)),
        ensures
            final(self).wf(),
            final(self)@ == old(self)@.push(d),
    {
        self.entries.push(d);
        proof {
            let s = self@;
            assert forall|i: int, j: int| 0 <= i < j < s.len() implies key_of(#[trigger] s[i])
                != key_of(#[trigger] s[j]) by {
                if j == s.len() - 1 {
                    assert(s[i] == old(self)@[i]);
                }
            }
        }
    }

    pub(crate) fn take(&mut self, i: usize) -> (r: DepositInfo)
        requires
            old(self).wf(),
            i < old(self)@.len(),
        ensures
            final(self).wf(),
            final(self)@ == old(self)@.remove(i as int),
            r == old(self)@[i as int],
            !holds_deposit(final(self)@, key_of(r)),
    {
        let r = self.entries.remove(i);
        proof {
            lemma_remove_keeps_wf(old(self)@, i as int);
        }
        r
    }
}

/// Removing a deposit from a well-formed store keeps it well formed and
/// leaves no deposit of that depositor.
pub proof fn lemma_remove_keeps_wf(s: Seq<DepositInfo>, i: int)
    requires
        ledgers_wf(s),
        0 <= i < s.len(),
    ensures
        ledgers_wf(s.remove(i)),
        !holds_deposit(s.remove(i), key_of(s[i])),
{
    let t = s.remove(i);
    assert forall|a: int, b: int| 0 <= a < b < t.len() implies key_of(#[trigger] t[a]) != key_of(
        #[trigger] t[b],
    ) by {
        let a2 = if a < i { a } else { a + 1 };
        let b2 = if b < i { b } else { b + 1 };
        assert(t[a] == s[a2] && t[b] == s[b2]);
    }
    assert forall|a: int| 0 <= a < t.len() implies is_admitted(#[trigger] t[a]) by {
        let a2 = if a < i { a } else { a + 1 };
        assert(t[a] == s[a2]);
    }
    if holds_deposit(t, key_of(s[i])) {
        let a = choose|a: int| 0 <= a < t.len() && key_of(#[trigger] t[a]) == key_of(s[i]);
        let a2 = if a < i { a } else { a + 1 };
        assert(t[a] == s[a2]);
        if a2 < i {
            assert(key_of(s[a2]) != key_of(s[i]));
        } else {
            assert(key_of(s[i]) != key_of(s[a2]));
        }
    }
}

/// `seconds < max_time(principal)` says the same as the admission bound on
/// the scaled value one second past the lock.
pub proof fn lemma_below_max_time(principal: u64, seconds: u64, m: u64)
    requires
        0 < principal <= MAX_RESERVE_TOKEN_AMOUNT,
        is_max_admissible(principal as nat, MAX_RESERVE_TOKEN_AMOUNT as nat, m as nat),
    ensures
        (seconds < m) == (grown(principal as nat, seconds as nat + 1) <= reserve_ceiling()),
{
    if seconds < m {
        lemma_grown_monotone_seconds(principal as nat, seconds as nat + 1, m as nat);
    } else {
        lemma_grown_gains(principal as nat, m as nat + 1, seconds as nat + 1);
    }
}

/// The first admission rule that a deposit of `deposit_lamports` tokens for
/// `seconds_locked` seconds breaks, if any.
pub fn check_admission(deposit_lamports: u64, seconds_locked: u64) -> (r: Option<DepositError>)
    ensures
        r == admission_error(deposit_lamports, seconds_locked),
{
    if deposit_lamports == 0 || deposit_lamports > MAX_USER_DEPOSIT {
        return Some(DepositError::MaxDepositLimit);
    }
    if seconds_locked == 0 {
        return Some(DepositError::ZeroTimeDeposit);
    }
    let limit = max_time(deposit_lamports);
    proof {
        lemma_below_max_time(deposit_lamports, seconds_locked, limit);
    }
    if seconds_locked >= limit {
        return Some(DepositError::BreakingTheBank);
    }
    None
}

/// Admits a deposit of `deposit_lamports` tokens locked for `seconds_locked`
/// seconds from `now`, records it, and returns the transfer of the principal
/// from the depositor's own holding into their escrow holding. The checks
/// run in order and the first that fails decides the error; on an error
/// nothing is recorded.
pub fn handler(
    vault: &VaultInfo,
    ledgers: &mut DepositLedgers,
    depositor: Identity,
    now: i64,
    seconds_locked: u64,
    deposit_lamports: u64,
) -> (r: Result<Transfer, DepositError>)
    requires
        old(ledgers).wf(),
    ensures
        final(ledgers).wf(),
        admission_error(deposit_lamports, seconds_locked) matches Some(e) ==> r == Err::<
            Transfer,
            DepositError,
        >(e),
        admission_error(deposit_lamports, seconds_locked) is None && holds_deposit(
            old(ledgers)@,
            depositor.bytes@,
        ) ==> r == Err::<Transfer, DepositError>(DepositError::DuplicateDeposit),
        r is Err ==> final(ledgers)@ == old(ledgers)@,
        r is Ok <==> admission_error(deposit_lamports, seconds_locked) is None && !holds_deposit(
            old(ledgers)@,
            depositor.bytes@,
        ),
        r matches Ok(t) ==> final(ledgers)@ == old(ledgers)@.push(
            (DepositInfo { seconds_locked, deposit_lamports, depositor, deposit_time: now }),
        ) && t == (Transfer {
            source: Holding::Depositor(depositor),
            destination: Holding::Escrow(depositor),
            mint: vault.token_mint,
            authority: depositor,
            amount: deposit_lamports,
        }),
{
    if let Some(e) = check_admission(deposit_lamports, seconds_locked) {
        return Err(e);
    }
    if ledgers.find(&depositor).is_some() {
        return Err(DepositError::DuplicateDeposit);
    }
    let info = DepositInfo { seconds_locked, deposit_lamports, depositor, deposit_time: now };
    ledgers.record(info);
    Ok(
        Transfer {
            source: Holding::Depositor(depositor),
            destination: Holding::Escrow(depositor),
            mint: vault.token_mint,
            authority: depositor,
            amount: deposit_lamports,
        },
    )
}

} // verus!
