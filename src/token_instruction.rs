//! Token-program instructions that carry out the vault's transfers and mints.
use vstd::prelude::*;
use solana_program::program_error::ProgramError;
use solana_program::pubkey::Pubkey;
use crate::identity::Identity;
use crate::initialize::VaultInfo;
use crate::transfer::Transfer;

verus! {

#[verifier::external_type_specification]
#[verifier::external_body]
pub struct ExProgramError(ProgramError);

/// An account an instruction reads or writes.
#[derive(Clone, Copy, Debug)]
pub struct AccountRef {
    pub key: Identity,
    pub is_signer: bool,
    pub is_writable: bool,
}

/// An instruction for the token program: the program, its accounts in
/// order, and the encoded call.
#[derive(Clone, Debug)]
pub struct TokenInstruction {
    pub program_id: Identity,
    pub accounts: Vec<AccountRef>,
    pub data: Vec<u8>,
}

#[derive(Clone, Copy, Debug, PartialEq, Eq, Structural)]
pub enum TokenInstructionError {
    /// The program handed in is not the token program.
    IncorrectProgramId,
}

/// The token program's identity.
pub open spec fn token_program_id() -> Seq<u8> {
    seq![
        6u8, 221, 246, 225, 215, 101, 161, 147, 217, 203, 225, 70, 206, 235, 121, 172, 28, 180,
        133, 237, 95, 91, 55, 145, 58, 140, 245, 133, 126, 255, 0, 169,
    ]
}

/// The eight little-endian bytes of `x`.
pub open spec fn le_bytes(x: u64) -> Seq<u8> {
    Seq::new(8, |i: int| ((x >> ((8 * i) as u64)) & 0xff) as u8)
}

/// The encoded `TransferChecked` call.
pub open spec fn transfer_checked_data(amount: u64, decimals: u8) -> Seq<u8> {
    seq![12u8] + le_bytes(amount) + seq![decimals]
}

/// The encoded `MintTo` call.
pub open spec fn mint_to_data(amount: u64) -> Seq<u8> {
    seq![7u8] + le_bytes(amount)
}

pub open spec fn account_ref(key: Identity, is_signer: bool, is_writable: bool) -> AccountRef {
    AccountRef { key, is_signer, is_writable }
}

/// Extra signers of a multisignature authority, each read-only.
pub open spec fn signer_refs(signers: Seq<Identity>) -> Seq<AccountRef> {
    signers.map_values(|s: Identity| account_ref(s, true, false))
}

/// The accounts of a `TransferChecked` call, in order.
pub open spec fn transfer_checked_accounts(
    source: Identity,
    mint: Identity,
    destination: Identity,
    authority: Identity,
    signers: Seq<Identity>,
) -> Seq<AccountRef> {
    seq![
        account_ref(source, false, true),
        account_ref(mint, false, false),
        account_ref(destination, false, true),
        account_ref(authority, signers.len() == 0, false),
    ] + signer_refs(signers)
}

/// The accounts of a `MintTo` call, in order.
pub open spec fn mint_to_accounts(
    mint: Identity,
    account: Identity,
    owner: Identity,
    signers: Seq<Identity>,
) -> Seq<AccountRef> {
    seq![
        account_ref(mint, false, true),
        account_ref(account, false, true),
        account_ref(owner, signers.len() == 0, false),
    ] + signer_refs(signers)
}

/// Relies on spl_token::instruction::transfer_checked: it fails exactly when
/// `token_program` is not the token program, and otherwise encodes the call
/// with the accounts in the order given here.
#[verifier::external_body]
fn transfer_checked_ix(
    token_program: &Identity,
    source: &Identity,
    mint: &Identity,
    destination: &Identity,
    authority: &Identity,
    signers: &Vec<Identity>,
    amount: u64,
    decimals: u8,
) -> (r: Result<TokenInstruction, ProgramError>)
    ensures
        r is Ok <==> token_program.bytes@ == token_program_id(),
        r matches Ok(ix) ==> ix.program_id == *token_program && ix.data@ == transfer_checked_data(
            amount,
            decimals,
        ) && ix.accounts@ == transfer_checked_accounts(
            *source,
            *mint,
            *destination,
            *authority,
            signers@,
        ),
{
    let k = |i: &Identity| Pubkey::new_from_array(i.bytes);
    let keys: Vec<Pubkey> = signers.iter().map(k).collect();
    let refs: Vec<&Pubkey> = keys.iter().collect();
    let ix = spl_token::instruction::transfer_checked(
        &k(token_program), &k(source), &k(mint), &k(destination), &k(authority), &refs, amount,
        decimals,
    )?;
    let accounts = ix.accounts.iter().map(|m| AccountRef {
        key: Identity { bytes: m.pubkey.to_bytes() }, is_signer: m.is_signer, is_writable: m.is_writable,
    }).collect();
    Ok(TokenInstruction { program_id: Identity { bytes: ix.program_id.to_bytes() }, accounts, data: ix.data })
}

/// Relies on spl_token::instruction::mint_to: it fails exactly when
/// `token_program` is not the token program, and otherwise encodes the call
/// with the accounts in the order given here.
#[verifier::external_body]
fn mint_to_ix(
    token_program: &Identity,
    mint: &Identity,
    account: &Identity,
    owner: &Identity,
    signers: &Vec<Identity>,
    amount: u64,
) -> (r: Result<TokenInstruction, ProgramError>)
    ensures
        r is Ok <==> token_program.bytes@ == token_program_id(),
        r matches Ok(ix) ==> ix.program_id == *token_program && ix.data@ == mint_to_data(amount)
            && ix.accounts@ == mint_to_accounts(*mint, *account, *owner, signers@),
{
    let k = |i: &Identity| Pubkey::new_from_array(i.bytes);
    let keys: Vec<Pubkey> = signers.iter().map(k).collect();
    let refs: Vec<&Pubkey> = keys.iter().collect();
    let ix = spl_token::instruction::mint_to(&k(token_program), &k(mint), &k(account), &k(owner), &refs, amount)?;
    let accounts = ix.accounts.iter().map(|m| AccountRef {
        key: Identity { bytes: m.pubkey.to_bytes() }, is_signer: m.is_signer, is_writable: m.is_writable,
    }).collect();
    Ok(TokenInstruction { program_id: Identity { bytes: ix.program_id.to_bytes() }, accounts, data: ix.data })
}

/// The token-program call that performs `transfer` between the holdings at
/// `source` and `destination`, for a token of `decimals` decimals. The
/// transfer's authority signs it as the single signer.
pub fn transfer_instruction(
    token_program: &Identity,
    transfer: &Transfer,
    source: &Identity,
    destination: &Identity,
    decimals: u8,
) -> (r: Result<TokenInstruction, TokenInstructionError>)
    ensures
        r is Ok <==> token_program.bytes@ == token_program_id(),
        r is Err ==> r == Err::<TokenInstruction, TokenInstructionError>(
            TokenInstructionError::IncorrectProgramId,
        ),
        r matches Ok(ix) ==> ix.program_id == *token_program && ix.data@ == transfer_checked_data(
            transfer.amount,
            decimals,
        ) && ix.accounts@ == transfer_checked_accounts(
            *source,
            transfer.mint,
            *destination,
            transfer.authority,
            seq![transfer.authority],
        ),
{
    let signers = vec![transfer.authority];
    proof {
        assert(signers@ =~= seq![transfer.authority]);
    }
    match transfer_checked_ix(
        token_program,
        source,
        &transfer.mint,
        destination,
        &transfer.authority,
        &signers,
        transfer.amount,
        decimals,
    ) {
        Ok(ix) => Ok(ix),
        Err(_) => Err(TokenInstructionError::IncorrectProgramId),
    }
}

/// The token-program call that mints `amount` tokens into the reserve,
/// signed by the vault's authority as mint authority.
pub fn mint_instruction(token_program: &Identity, vault: &VaultInfo, amount: u64) -> (r: Result<
    TokenInstruction,
    TokenInstructionError,
>)
    ensures
        r is Ok <==> token_program.bytes@ == token_program_id(),
        r is Err ==> r == Err::<TokenInstruction, TokenInstructionError>(
            TokenInstructionError::IncorrectProgramId,
        ),
        r matches Ok(ix) ==> ix.program_id == *token_program && ix.data@ == mint_to_data(amount)
            && ix.accounts@ == mint_to_accounts(
            vault.token_mint,
            vault.token_vault,
            vault.vault_admin,
            Seq::<Identity>::empty(),
        ),
{
    let signers: Vec<Identity> = Vec::new();
    match mint_to_ix(
        token_program,
        &vault.token_mint,
        &vault.token_vault,
        &vault.vault_admin,
        &signers,
        amount,
    ) {
        Ok(ix) => Ok(ix),
        Err(_) => Err(TokenInstructionError::IncorrectProgramId),
    }
}

} // verus!
