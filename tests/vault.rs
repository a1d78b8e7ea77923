use genesys_banking::constants::{MAX_RESERVE_TOKEN_AMOUNT, MAX_USER_DEPOSIT};
use genesys_banking::deposit::{check_admission, DepositError, DepositInfo, DepositLedgers};
use genesys_banking::identity::Identity;
use genesys_banking::initialize::InitializeError;
use genesys_banking::interest::{accrued_interest, max_admissible_duration, max_time};
use genesys_banking::refresh_reserve::RefreshError;
use genesys_banking::transfer::Holding;
use genesys_banking::withdraw::WithdrawError;
use genesys_banking::{deposit, initialize, refresh_reserve, withdraw, VaultState};

fn id(b: u8) -> Identity {
    Identity::new([b; 32])
}

fn program() -> Identity {
    id(9)
}

fn fresh_vault() -> VaultState {
    let mut slot: Option<VaultState> = None;
    assert_eq!(initialize(&mut slot, program(), id(1), id(2), id(3)), Ok(()));
    slot.unwrap()
}

#[test]
fn test_max_time() {
    assert_eq!(max_time(100_000), 13_159)
}

#[test]
fn max_admissible_edges() {
    assert_eq!(max_admissible_duration(0, MAX_RESERVE_TOKEN_AMOUNT), u64::MAX);
    assert_eq!(max_admissible_duration(MAX_RESERVE_TOKEN_AMOUNT, MAX_RESERVE_TOKEN_AMOUNT), 0);
    assert_eq!(max_admissible_duration(MAX_RESERVE_TOKEN_AMOUNT + 1, MAX_RESERVE_TOKEN_AMOUNT), 0);
    assert_eq!(max_admissible_duration(1, MAX_RESERVE_TOKEN_AMOUNT), 46_059);
    assert_eq!(max_time(1_000), 26_319);
    assert!(max_time(1_000) > max_time(100_000));
}

#[test]
fn interest_exact_values() {
    assert_eq!(accrued_interest(1_000, 10), 3);
    assert_eq!(accrued_interest(100_000, 1), 35);
    assert_eq!(accrued_interest(100_000, 13_158), 9_893_243);
    assert_eq!(accrued_interest(100_000, 0), 0);
    assert_eq!(accrued_interest(0, 1_000), 0);
    assert_eq!(accrued_interest(1, 46_059), 9_997_338);
}

#[test]
fn interest_saturates() {
    assert_eq!(accrued_interest(100_000, 200_000), u64::MAX);
}

#[test]
fn interest_monotone() {
    assert_eq!(accrued_interest(5_000, 10), 17);
    assert_eq!(accrued_interest(5_000, 11), 19);
    assert!(accrued_interest(5_000, 10) < accrued_interest(5_000, 11));
    assert!(accrued_interest(1_000, 10) <= accrued_interest(5_000, 10));
    assert_eq!(accrued_interest(1, 1), accrued_interest(1, 2));
}

#[test]
fn deposit_info_methods() {
    let d = DepositInfo { seconds_locked: 10, deposit_lamports: 1_000, depositor: id(4), deposit_time: 100 };
    assert_eq!(d.get_elapsed(105), 5);
    assert!(!d.after_lockout(109));
    assert!(d.after_lockout(110));
    assert!(!d.after_lockout(50));
    assert_eq!(d.compute_interest(), 3);
}

#[test]
fn identity_comparison() {
    assert!(id(1).same_as(&id(1)));
    assert!(!id(1).same_as(&id(2)));
    let mut b = [7u8; 32];
    b[31] = 8;
    assert!(!Identity::new(b).same_as(&id(7)));
}

#[test]
fn initialize_only_once() {
    let mut slot: Option<VaultState> = None;
    assert_eq!(initialize(&mut slot, program(), id(1), id(2), id(3)), Ok(()));
    {
        let state = slot.as_ref().unwrap();
        assert_eq!(state.vault.max_tokens, 10_000_000);
        assert_eq!(state.vault.interest_rate, 35);
        assert_eq!(state.vault.vault_admin, id(1));
        assert_eq!(state.vault.token_mint, id(2));
        assert_eq!(state.vault.token_vault, id(3));
        assert_eq!(state.ledgers.len(), 0);
    }
    assert_eq!(initialize(&mut slot, program(), id(5), id(6), id(7)), Err(InitializeError::AlreadyInitialized));
    assert_eq!(slot.as_ref().unwrap().vault.vault_admin, id(1));
}

#[test]
fn deposit_admission_boundary() {
    let mut vault = fresh_vault();
    assert!(deposit(&mut vault, id(20), 0, 13_158, 100_000).is_ok());
    assert_eq!(deposit(&mut vault, id(21), 0, 13_159, 100_000).unwrap_err(), DepositError::BreakingTheBank);
    assert_eq!(vault.ledgers.len(), 1);
}

#[test]
fn deposit_errors() {
    let mut vault = fresh_vault();
    assert_eq!(deposit(&mut vault, id(20), 0, 10, 0).unwrap_err(), DepositError::MaxDepositLimit);
    assert_eq!(deposit(&mut vault, id(20), 0, 10, MAX_USER_DEPOSIT + 1).unwrap_err(), DepositError::MaxDepositLimit);
    assert_eq!(deposit(&mut vault, id(20), 0, 0, 1_000).unwrap_err(), DepositError::ZeroTimeDeposit);
    assert_eq!(deposit(&mut vault, id(20), 0, 0, 0).unwrap_err(), DepositError::MaxDepositLimit);
    assert!(deposit(&mut vault, id(20), 0, 10, 1_000).is_ok());
    assert_eq!(deposit(&mut vault, id(20), 5, 10, 1_000).unwrap_err(), DepositError::DuplicateDeposit);
    assert_eq!(vault.ledgers.len(), 1);
}

#[test]
fn deposit_transfer_plan() {
    let mut vault = fresh_vault();
    let t = deposit(&mut vault, id(20), 77, 10, 1_000).unwrap();
    assert_eq!(t.source, Holding::Depositor(id(20)));
    assert_eq!(t.destination, Holding::Escrow(id(20)));
    assert_eq!(t.mint, id(2));
    assert_eq!(t.authority, id(20));
    assert_eq!(t.amount, 1_000);
    let d = vault.ledgers.get(&id(20)).unwrap();
    assert_eq!(d.deposit_time, 77);
    assert_eq!(d.seconds_locked, 10);
    assert_eq!(d.deposit_lamports, 1_000);
}

#[test]
fn withdraw_lifecycle() {
    let mut vault = fresh_vault();
    assert!(deposit(&mut vault, id(20), 1_000, 10, 1_000).is_ok());
    assert_eq!(withdraw(&mut vault, &id(20), 1_009, MAX_RESERVE_TOKEN_AMOUNT, &program()).unwrap_err(), WithdrawError::TooSoon);
    let plan = withdraw(&mut vault, &id(20), 1_010, MAX_RESERVE_TOKEN_AMOUNT, &program()).unwrap();
    assert_eq!(plan.principal, 1_000);
    assert_eq!(plan.interest, 3);
    assert_eq!(plan.to_escrow.source, Holding::Reserve);
    assert_eq!(plan.to_escrow.destination, Holding::Escrow(id(20)));
    assert_eq!(plan.to_escrow.authority, id(1));
    assert_eq!(plan.to_escrow.amount, 3);
    assert_eq!(plan.to_depositor.source, Holding::Escrow(id(20)));
    assert_eq!(plan.to_depositor.destination, Holding::Depositor(id(20)));
    assert_eq!(plan.to_depositor.amount, 1_003);
    assert_eq!(withdraw(&mut vault, &id(20), 2_000, MAX_RESERVE_TOKEN_AMOUNT, &program()).unwrap_err(), WithdrawError::NoDeposit);
    assert_eq!(vault.ledgers.len(), 0);
}

#[test]
fn withdraw_errors() {
    let mut vault = fresh_vault();
    assert_eq!(withdraw(&mut vault, &id(20), 0, 0, &program()).unwrap_err(), WithdrawError::NoDeposit);
    assert!(deposit(&mut vault, id(20), 0, 10, 1_000).is_ok());
    assert_eq!(withdraw(&mut vault, &id(20), 10, 2, &program()).unwrap_err(), WithdrawError::NotEnoughTokensInReserve);
    assert_eq!(withdraw(&mut vault, &id(20), 10, 3, &id(8)).unwrap_err(), WithdrawError::InvalidProgramId);
    assert_eq!(vault.ledgers.len(), 1);
    assert!(withdraw(&mut vault, &id(20), 10, 3, &program()).is_ok());
}

#[test]
fn withdraw_keeps_other_deposits() {
    let mut vault = fresh_vault();
    assert!(deposit(&mut vault, id(20), 0, 10, 1_000).is_ok());
    assert!(deposit(&mut vault, id(21), 0, 20, 2_000).is_ok());
    assert!(withdraw(&mut vault, &id(20), 10, MAX_RESERVE_TOKEN_AMOUNT, &program()).is_ok());
    assert!(vault.ledgers.get(&id(20)).is_none());
    assert_eq!(vault.ledgers.get(&id(21)).unwrap().deposit_lamports, 2_000);
}

#[test]
fn refresh_reserve_fills_to_cap() {
    let vault = fresh_vault();
    assert_eq!(refresh_reserve(&vault, 9_999_000, &program()), Ok(1_000));
    assert_eq!(refresh_reserve(&vault, 0, &program()), Ok(MAX_RESERVE_TOKEN_AMOUNT));
    assert_eq!(refresh_reserve(&vault, MAX_RESERVE_TOKEN_AMOUNT, &program()), Ok(0));
    assert_eq!(refresh_reserve(&vault, MAX_RESERVE_TOKEN_AMOUNT + 1, &program()), Err(RefreshError::MaxReserveLimit));
    assert_eq!(refresh_reserve(&vault, 5, &id(8)), Err(RefreshError::InvalidProgramId));
    assert_eq!(refresh_reserve(&vault, MAX_RESERVE_TOKEN_AMOUNT + 1, &id(8)), Err(RefreshError::MaxReserveLimit));
}

#[test]
fn refresh_sequence_stays_within_cap() {
    let vault = fresh_vault();
    let mut balance: u64 = 123;
    for _ in 0..3 {
        if let Ok(minted) = refresh_reserve(&vault, balance, &program()) {
            balance += minted;
        }
        assert!(balance <= MAX_RESERVE_TOKEN_AMOUNT);
    }
    assert_eq!(balance, MAX_RESERVE_TOKEN_AMOUNT);
}

#[test]
fn ledger_store_lookup() {
    let ledgers = DepositLedgers::new();
    assert_eq!(ledgers.len(), 0);
    assert!(ledgers.find(&id(1)).is_none());
}

#[test]
fn admission_check_and_record_loading() {
    assert_eq!(check_admission(0, 5), Some(DepositError::MaxDepositLimit));
    assert_eq!(check_admission(10, 0), Some(DepositError::ZeroTimeDeposit));
    assert_eq!(check_admission(100_000, 13_159), Some(DepositError::BreakingTheBank));
    assert_eq!(check_admission(100_000, 13_158), None);
    let good = DepositInfo { seconds_locked: 10, deposit_lamports: 1_000, depositor: id(4), deposit_time: 0 };
    let store = DepositLedgers::from_record(good).unwrap();
    assert_eq!(store.len(), 1);
    assert_eq!(store.find(&id(4)), Some(0));
    let bad = DepositInfo { seconds_locked: 0, deposit_lamports: 1_000, depositor: id(4), deposit_time: 0 };
    assert!(DepositLedgers::from_record(bad).is_none());
}
