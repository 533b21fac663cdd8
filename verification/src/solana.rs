//! The boundary to `solana_program`. Nothing in this file is proved: the types
//! are opaque to the verifier and the contracts of the functions are believed.
use crate::codec::{Operation, OperationView};
use crate::dispatch::{Call, Handle};
use solana_program::account_info::AccountInfo;
use solana_program::instruction::{AccountMeta, Instruction};
use solana_program::program::invoke;
use solana_program::program_error::ProgramError;
use solana_program::pubkey::Pubkey;
use vstd::prelude::*;

verus! {

/// `solana_program::program_error::ProgramError`, carried through unread.
#[verifier::external_type_specification]
#[verifier::external_body]
pub struct ExProgramError(ProgramError);

/// `solana_program::pubkey::Pubkey`: 32 bytes that name an account or a
/// program.
#[verifier::external_type_specification]
#[verifier::external_body]
pub struct ExPubkey(Pubkey);

/// `solana_program::account_info::AccountInfo`, the runtime's record of one
/// account of the transaction.
#[verifier::external_type_specification]
#[verifier::external_body]
pub struct ExAccountInfo<'a>(AccountInfo<'a>);

/// `solana_program::instruction::Instruction`: a target program, the accounts
/// it is given and an opaque payload.
#[verifier::external_type_specification]
#[verifier::external_body]
pub struct ExInstruction(Instruction);

/// The 32 bytes of a `Pubkey`.
pub uninterp spec fn pubkey_bytes(key: Pubkey) -> [u8; 32];

/// What an `AccountInfo` says of its account: the account's key and whether
/// it is writable and a signer in the running transaction.
pub uninterp spec fn account_handle(info: AccountInfo) -> Handle;

/// What an `Instruction` holds: its program, its accounts and its payload.
pub uninterp spec fn instruction_operation(instruction: Instruction) -> OperationView;

/// `Pubkey::to_bytes`: the key's 32 bytes, which depend on the key alone.
#[verifier::external_body]
pub(crate) fn key_bytes(key: &Pubkey) -> (bytes: [u8; 32])
    ensures
        bytes == pubkey_bytes(*key),
{
    key.to_bytes()
}

/// Reads the fields `key`, `is_writable` and `is_signer` of an `AccountInfo`,
/// the key through `Pubkey::to_bytes`. They are plain fields, fixed when the
/// `AccountInfo` is made, so they depend on the value alone.
#[verifier::external_body]
pub(crate) fn read_handle(info: &AccountInfo) -> (handle: Handle)
    ensures
        handle == account_handle(*info),
{
    Handle { key: info.key.to_bytes(), is_writable: info.is_writable, is_signer: info.is_signer }
}

/// `solana_program::program::invoke`, on the instruction that `call`
/// describes and on `infos`. The instruction names `call.target` as its
/// program, carries `call.payload`, and lists `call.resources` in order, each
/// with the flags it has.
///
/// Nothing is claimed of the outcome: it is the invoked program's, and the
/// runtime's. `invoke` returns `AccountBorrowFailed` where an account's cells
/// are borrowed elsewhere, and otherwise what the runtime returns. On chain
/// the runtime ends the whole transaction where the invoked program fails,
/// and then the call does not return at all.
#[verifier::external_body]
pub(crate) fn invoke_call(call: &Call, infos: &[AccountInfo]) -> (outcome: Result<(), ProgramError>) {
    let accounts = call.resources.iter().map(
        |h| AccountMeta {
            pubkey: Pubkey::new_from_array(h.key),
            is_signer: h.is_signer,
            is_writable: h.is_writable,
        },
    ).collect();
    let program_id = Pubkey::new_from_array(call.target);
    invoke(&Instruction { program_id, accounts, data: call.payload.clone() }, infos)
}

/// Reads the fields `program_id`, `accounts` and `data` of an `Instruction`,
/// the keys through `Pubkey::to_bytes`, the accounts in their order. They are
/// plain fields, so what is read depends on the instruction alone.
#[verifier::external_body]
pub(crate) fn read_operation(instruction: &Instruction) -> (operation: Operation)
    ensures
        operation@ == instruction_operation(*instruction),
{
    let handles = instruction.accounts.iter().map(
        |m| Handle { key: m.pubkey.to_bytes(), is_writable: m.is_writable, is_signer: m.is_signer },
    ).collect();
    Operation { target: instruction.program_id.to_bytes(), handles, payload: instruction.data.clone() }
}

} // verus!
