use genesys_banking::identity::Identity;
use genesys_banking::initialize::VaultInfo;
use genesys_banking::token_instruction::{mint_instruction, transfer_instruction, TokenInstructionError};
use genesys_banking::transfer::{Holding, Transfer};

fn id(b: u8) -> Identity {
    Identity::new([b; 32])
}

fn token_program() -> Identity {
    Identity::new(spl_token::id().to_bytes())
}

#[test]
fn transfer_instruction_encodes_call() {
    let t = Transfer {
        source: Holding::Reserve,
        destination: Holding::Escrow(id(20)),
        mint: id(2),
        authority: id(1),
        amount: 0x0102_0304_0506_0708,
    };
    let ix = transfer_instruction(&token_program(), &t, &id(3), &id(4), 0).unwrap();
    assert_eq!(ix.program_id, token_program());
    assert_eq!(ix.data, vec![12, 8, 7, 6, 5, 4, 3, 2, 1, 0]);
    assert_eq!(ix.accounts.len(), 5);
    assert_eq!(ix.accounts[0].key, id(3));
    assert!(ix.accounts[0].is_writable && !ix.accounts[0].is_signer);
    assert_eq!(ix.accounts[1].key, id(2));
    assert!(!ix.accounts[1].is_writable);
    assert_eq!(ix.accounts[2].key, id(4));
    assert!(ix.accounts[2].is_writable);
    assert_eq!(ix.accounts[3].key, id(1));
    assert!(!ix.accounts[3].is_signer);
    assert_eq!(ix.accounts[4].key, id(1));
    assert!(ix.accounts[4].is_signer && !ix.accounts[4].is_writable);
}

#[test]
fn transfer_instruction_rejects_other_program() {
    let t = Transfer { source: Holding::Reserve, destination: Holding::Reserve, mint: id(2), authority: id(1), amount: 5 };
    assert_eq!(transfer_instruction(&id(7), &t, &id(3), &id(4), 0).unwrap_err(), TokenInstructionError::IncorrectProgramId);
}

#[test]
fn mint_instruction_encodes_call() {
    let vault = VaultInfo { max_tokens: 10_000_000, interest_rate: 35, vault_admin: id(1), token_mint: id(2), token_vault: id(3) };
    let ix = mint_instruction(&token_program(), &vault, 1_000).unwrap();
    assert_eq!(ix.program_id, token_program());
    assert_eq!(ix.data, vec![7, 0xe8, 0x03, 0, 0, 0, 0, 0, 0]);
    assert_eq!(ix.accounts.len(), 3);
    assert_eq!(ix.accounts[0].key, id(2));
    assert!(ix.accounts[0].is_writable);
    assert_eq!(ix.accounts[1].key, id(3));
    assert!(ix.accounts[1].is_writable);
    assert_eq!(ix.accounts[2].key, id(1));
    assert!(ix.accounts[2].is_signer && !ix.accounts[2].is_writable);
    assert_eq!(mint_instruction(&id(7), &vault, 1_000).unwrap_err(), TokenInstructionError::IncorrectProgramId);
}
