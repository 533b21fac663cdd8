use std::sync::{Arc, Mutex};

use anyix::{handle_anyix, plan_call, settle, AnyIx, AnyIxError, Call, Handle};
use solana_program::account_info::AccountInfo;
use solana_program::entrypoint::ProgramResult;
use solana_program::instruction::{AccountMeta, Instruction};
use solana_program::program_error::ProgramError;
use solana_program::program_stubs::{set_syscall_stubs, SyscallStubs};
use solana_program::pubkey::Pubkey;

static STUBS: Mutex<()> = Mutex::new(());

/// One invocation as the runtime saw it.
#[derive(Clone, Debug, PartialEq)]
struct Seen {
    program: Pubkey,
    metas: Vec<AccountMeta>,
    data: Vec<u8>,
    infos: Vec<Pubkey>,
}

/// Stands in for the runtime: records every invocation, and fails the one at
/// position `fail_at`.
struct Recorder {
    seen: Arc<Mutex<Vec<Seen>>>,
    fail_at: Option<(usize, ProgramError)>,
}

impl SyscallStubs for Recorder {
    fn sol_invoke_signed(
        &self,
        instruction: &Instruction,
        account_infos: &[AccountInfo],
        _signers_seeds: &[&[&[u8]]],
    ) -> ProgramResult {
        let mut seen = self.seen.lock().unwrap();
        seen.push(Seen {
            program: instruction.program_id.clone(),
            metas: instruction.accounts.clone(),
            data: instruction.data.clone(),
            infos: account_infos.iter().map(|info| info.key.clone()).collect(),
        });
        match &self.fail_at {
            Some((at, error)) if *at + 1 == seen.len() => Err(error.clone()),
            _ => Ok(()),
        }
    }

    fn sol_log(&self, _message: &str) {}
}

struct Account {
    key: Pubkey,
    owner: Pubkey,
    lamports: u64,
    data: Vec<u8>,
    is_signer: bool,
    is_writable: bool,
}

fn key(tag: u8) -> Pubkey {
    Pubkey::new_from_array([tag; 32])
}

fn account(tag: u8, is_writable: bool, is_signer: bool) -> Account {
    Account { key: key(tag), owner: key(200), lamports: 1, data: vec![0; 4], is_signer, is_writable }
}

fn plain_accounts(tags: &[u8]) -> Vec<Account> {
    tags.iter().map(|tag| account(*tag, false, false)).collect()
}

fn batch(counts: &[u8], payloads: &[&[u8]]) -> Vec<u8> {
    AnyIx {
        num_instructions: counts.len() as u8,
        instruction_data_sizes: payloads.iter().map(|p| p.len() as u8).collect(),
        instruction_account_counts: counts.to_vec(),
        instruction_datas: payloads.iter().map(|p| p.to_vec()).collect(),
    }
    .pack()
    .unwrap()
}

/// Dispatches `data` against `accounts` for the program `identity`, with a
/// runtime that fails the invocation at `fail_at`, and returns the result
/// with the invocations that the runtime saw.
fn run(
    identity: Pubkey,
    accounts: &mut [Account],
    data: &[u8],
    fail_at: Option<(usize, ProgramError)>,
) -> (Result<(), AnyIxError>, Vec<Seen>) {
    let guard = STUBS.lock().unwrap_or_else(|poisoned| poisoned.into_inner());
    let seen = Arc::new(Mutex::new(Vec::new()));
    let before = set_syscall_stubs(Box::new(Recorder { seen: seen.clone(), fail_at }));
    let infos: Vec<AccountInfo> = accounts
        .iter_mut()
        .map(|a| {
            AccountInfo::new(
                &a.key,
                a.is_signer,
                a.is_writable,
                &mut a.lamports,
                &mut a.data,
                &a.owner,
                false,
            )
        })
        .collect();
    let result = handle_anyix(identity, &infos, data);
    set_syscall_stubs(before);
    drop(guard);
    let seen = seen.lock().unwrap().clone();
    (result, seen)
}

fn handle(tag: u8, is_writable: bool, is_signer: bool) -> Handle {
    Handle { key: [tag; 32], is_writable, is_signer }
}

fn two_operations() -> AnyIx {
    AnyIx {
        num_instructions: 2,
        instruction_data_sizes: vec![1, 2],
        instruction_account_counts: vec![2, 3],
        instruction_datas: vec![vec![0xA0], vec![0xB0, 0xB1]],
    }
}

fn five_handles() -> Vec<Handle> {
    vec![
        handle(10, false, false),
        handle(11, true, false),
        handle(12, false, false),
        handle(13, false, true),
        handle(14, true, true),
    ]
}

#[test]
fn dispatch_of_empty_buffer_is_format_error() {
    let (result, seen) = run(key(1), &mut plain_accounts(&[10, 11]), &[], None);
    assert_eq!(result, Err(AnyIxError::FormatError));
    assert!(seen.is_empty());
}

#[test]
fn dispatch_of_truncated_buffer_is_format_error() {
    let mut data = batch(&[2], &[&[1, 2, 3]]);
    data.pop();
    let (result, seen) = run(key(1), &mut plain_accounts(&[10, 11]), &data, None);
    assert_eq!(result, Err(AnyIxError::FormatError));
    assert!(seen.is_empty());
}

#[test]
fn dispatch_of_zero_operations_makes_no_call() {
    let batch = AnyIx::unpack(&[0]).unwrap();
    assert_eq!(batch.num_instructions, 0);
    let (result, seen) = run(key(1), &mut plain_accounts(&[10, 11]), &[0], None);
    assert_eq!(result, Ok(()));
    assert!(seen.is_empty());
    let (result, seen) = run(key(1), &mut [], &[0], None);
    assert_eq!(result, Ok(()));
    assert!(seen.is_empty());
}

#[test]
fn dispatch_slices_handles_by_running_offset() {
    let data = batch(&[2, 3], &[&[0xA0], &[0xB0, 0xB1]]);
    let mut accounts = plain_accounts(&[10, 11, 12, 13, 14]);
    let (result, seen) = run(key(1), &mut accounts, &data, None);
    assert_eq!(result, Ok(()));
    assert_eq!(
        seen,
        vec![
            Seen {
                program: key(10),
                metas: vec![AccountMeta::new_readonly(key(11), false)],
                data: vec![0xA0],
                infos: vec![key(10), key(11)],
            },
            Seen {
                program: key(12),
                metas: vec![
                    AccountMeta::new_readonly(key(13), false),
                    AccountMeta::new_readonly(key(14), false),
                ],
                data: vec![0xB0, 0xB1],
                infos: vec![key(12), key(13), key(14)],
            },
        ]
    );
}

#[test]
fn dispatch_leaves_handles_behind_the_batch_unused() {
    let data = batch(&[1], &[&[]]);
    let (result, seen) = run(key(1), &mut plain_accounts(&[10, 11, 12]), &data, None);
    assert_eq!(result, Ok(()));
    assert_eq!(
        seen,
        vec![Seen { program: key(10), metas: vec![], data: vec![], infos: vec![key(10)] }]
    );
}

#[test]
fn dispatch_refuses_self_target_before_any_call() {
    let data = batch(&[2, 1], &[&[1], &[2]]);
    let (result, seen) = run(key(10), &mut plain_accounts(&[10, 11, 12]), &data, None);
    assert_eq!(result, Err(AnyIxError::SelfTargetViolation { index: 0 }));
    assert!(seen.is_empty());
}

#[test]
fn dispatch_refuses_self_target_behind_a_call() {
    let data = batch(&[2, 1, 1], &[&[1], &[2], &[3]]);
    let (result, seen) = run(key(12), &mut plain_accounts(&[10, 11, 12, 13]), &data, None);
    assert_eq!(result, Err(AnyIxError::SelfTargetViolation { index: 1 }));
    assert_eq!(seen.len(), 1);
    assert_eq!(seen[0].program, key(10));
}

#[test]
fn dispatch_takes_own_identity_among_the_resources() {
    let data = batch(&[2], &[&[1]]);
    let (result, seen) = run(key(11), &mut plain_accounts(&[10, 11]), &data, None);
    assert_eq!(result, Ok(()));
    assert_eq!(seen.len(), 1);
    assert_eq!(seen[0].metas, vec![AccountMeta::new_readonly(key(11), false)]);
}

#[test]
fn dispatch_stops_at_first_failed_call() {
    let data = batch(&[1, 1, 1], &[&[1], &[2], &[3]]);
    let failure = Some((1, ProgramError::Custom(42)));
    let (result, seen) = run(key(1), &mut plain_accounts(&[10, 11, 12]), &data, failure);
    assert_eq!(
        result,
        Err(AnyIxError::ExecutorError { index: 1, cause: ProgramError::Custom(42) })
    );
    assert_eq!(seen.len(), 2);
    assert_eq!(seen[0].program, key(10));
    assert_eq!(seen[1].program, key(11));
}

#[test]
fn dispatch_reports_failure_of_first_call() {
    let data = batch(&[1, 1], &[&[1], &[2]]);
    let failure = Some((0, ProgramError::InvalidArgument));
    let (result, seen) = run(key(1), &mut plain_accounts(&[10, 11]), &data, failure);
    assert_eq!(
        result,
        Err(AnyIxError::ExecutorError { index: 0, cause: ProgramError::InvalidArgument })
    );
    assert_eq!(seen.len(), 1);
}

#[test]
fn dispatch_carries_flags_unchanged() {
    let data = batch(&[5], &[&[9]]);
    let mut accounts = vec![
        account(10, false, false),
        account(11, false, false),
        account(12, true, false),
        account(13, false, true),
        account(14, true, true),
    ];
    let (result, seen) = run(key(1), &mut accounts, &data, None);
    assert_eq!(result, Ok(()));
    assert_eq!(seen.len(), 1);
    assert_eq!(
        seen[0].metas,
        vec![
            AccountMeta { pubkey: key(11), is_signer: false, is_writable: false },
            AccountMeta { pubkey: key(12), is_signer: false, is_writable: true },
            AccountMeta { pubkey: key(13), is_signer: true, is_writable: false },
            AccountMeta { pubkey: key(14), is_signer: true, is_writable: true },
        ]
    );
}

#[test]
fn dispatch_with_too_few_handles_is_format_error() {
    let data = batch(&[3], &[&[1]]);
    let (result, seen) = run(key(1), &mut plain_accounts(&[10, 11]), &data, None);
    assert_eq!(result, Err(AnyIxError::FormatError));
    assert!(seen.is_empty());

    let data = batch(&[2, 3], &[&[1], &[2]]);
    let (result, seen) = run(key(1), &mut plain_accounts(&[10, 11, 12, 13]), &data, None);
    assert_eq!(result, Err(AnyIxError::FormatError));
    assert_eq!(seen.len(), 1);
}

#[test]
fn dispatch_of_operation_without_target_is_format_error() {
    let data = batch(&[1, 0, 1], &[&[1], &[2], &[3]]);
    let (result, seen) = run(key(1), &mut plain_accounts(&[10, 11, 12]), &data, None);
    assert_eq!(result, Err(AnyIxError::FormatError));
    assert_eq!(seen.len(), 1);
}

#[test]
fn plan_call_slices_by_running_offset() {
    let handles = five_handles();
    let first = plan_call(&[1; 32], &handles, &two_operations(), 0);
    assert_eq!(
        first,
        Ok(Call { target: [10; 32], payload: vec![0xA0], resources: vec![handle(11, true, false)] })
    );
    let second = plan_call(&[1; 32], &handles, &two_operations(), 1);
    assert_eq!(
        second,
        Ok(Call {
            target: [12; 32],
            payload: vec![0xB0, 0xB1],
            resources: vec![handle(13, false, true), handle(14, true, true)],
        })
    );
}

#[test]
fn plan_call_refuses_self_target() {
    let handles = five_handles();
    assert_eq!(
        plan_call(&[10; 32], &handles, &two_operations(), 0),
        Err(AnyIxError::SelfTargetViolation { index: 0 })
    );
    assert_eq!(
        plan_call(&[12; 32], &handles, &two_operations(), 1),
        Err(AnyIxError::SelfTargetViolation { index: 1 })
    );
    assert!(plan_call(&[12; 32], &handles, &two_operations(), 0).is_ok());
    assert!(plan_call(&[11; 32], &handles, &two_operations(), 0).is_ok());
}

#[test]
fn plan_call_tells_identities_apart_by_every_byte() {
    let mut near = [10u8; 32];
    near[31] = 11;
    assert!(plan_call(&near, &five_handles(), &two_operations(), 0).is_ok());
    let mut near = [10u8; 32];
    near[0] = 0;
    assert!(plan_call(&near, &five_handles(), &two_operations(), 0).is_ok());
}

#[test]
fn plan_call_beyond_the_handle_list_is_format_error() {
    let handles = five_handles();
    assert!(plan_call(&[1; 32], &handles[..4], &two_operations(), 0).is_ok());
    assert_eq!(
        plan_call(&[1; 32], &handles[..4], &two_operations(), 1),
        Err(AnyIxError::FormatError)
    );
    assert_eq!(
        plan_call(&[1; 32], &handles[..1], &two_operations(), 0),
        Err(AnyIxError::FormatError)
    );
    assert_eq!(plan_call(&[1; 32], &[], &two_operations(), 0), Err(AnyIxError::FormatError));
}

#[test]
fn plan_call_without_target_is_format_error() {
    let batch = AnyIx {
        num_instructions: 1,
        instruction_data_sizes: vec![0],
        instruction_account_counts: vec![0],
        instruction_datas: vec![vec![]],
    };
    assert_eq!(plan_call(&[1; 32], &five_handles(), &batch, 0), Err(AnyIxError::FormatError));
}

#[test]
fn plan_call_outside_the_batch_is_format_error() {
    assert_eq!(
        plan_call(&[1; 32], &five_handles(), &two_operations(), 2),
        Err(AnyIxError::FormatError)
    );
    let mut short = two_operations();
    short.instruction_account_counts.pop();
    assert_eq!(plan_call(&[1; 32], &five_handles(), &short, 1), Err(AnyIxError::FormatError));
    let mut short = two_operations();
    short.instruction_datas.pop();
    assert_eq!(plan_call(&[1; 32], &five_handles(), &short, 1), Err(AnyIxError::FormatError));
}

#[test]
fn plan_call_at_largest_offset() {
    let batch = AnyIx {
        num_instructions: 255,
        instruction_data_sizes: vec![0; 255],
        instruction_account_counts: vec![255; 255],
        instruction_datas: vec![vec![]; 255],
    };
    let mut handles = vec![handle(10, false, false); 255 * 255];
    handles[254 * 255] = handle(77, false, false);
    let call = plan_call(&[1; 32], &handles, &batch, 254).unwrap();
    assert_eq!(call.target, [77; 32]);
    assert_eq!(call.resources.len(), 254);
    assert_eq!(
        plan_call(&[1; 32], &handles[..255 * 255 - 1], &batch, 254),
        Err(AnyIxError::FormatError)
    );
}

#[test]
fn settle_passes_success_on() {
    assert_eq!(settle(3, Ok(())), Ok(()));
}

#[test]
fn settle_marks_failure_with_index() {
    assert_eq!(
        settle(1, Err(ProgramError::Custom(7))),
        Err(AnyIxError::ExecutorError { index: 1, cause: ProgramError::Custom(7) })
    );
    assert_eq!(
        settle(0, Err(ProgramError::InvalidAccountData)),
        Err(AnyIxError::ExecutorError { index: 0, cause: ProgramError::InvalidAccountData })
    );
}
