//! Running a batch against one flat list of handles.
//!
//! Sub-operation `i` consumes the next `handle_counts[i]` handles of the
//! list, starting where sub-operation `i - 1` stopped. The first of them
//! designates the program to invoke, the others are handed to that program
//! with the flags they came with.
use crate::codec::AnyIx;
use crate::error::AnyIxError;
use crate::solana::{account_handle, invoke_call, key_bytes, pubkey_bytes, read_handle};
use crate::wire::{
    decode_spec, lemma_decoded_wf, lemma_total_take_grows, lemma_total_take_next, total, Batch,
};
use solana_program::account_info::AccountInfo;
use solana_program::program_error::ProgramError;
use solana_program::pubkey::Pubkey;
use vstd::prelude::*;
use vstd::slice::{slice_subrange, slice_to_vec};

verus! {

/// A resource handle as the dispatcher sees it: an identity and two flags.
#[derive(Clone, Copy, Debug, PartialEq, Eq)]
pub struct Handle {
    /// The identity of the account.
    pub key: [u8; 32],
    /// Whether the account may be written to.
    pub is_writable: bool,
    /// Whether the account has signed.
    pub is_signer: bool,
}

/// One outbound call: the program to invoke, the payload to pass, and the
/// handles the program is given.
#[derive(Clone, Debug, PartialEq, Eq)]
pub struct Call {
    pub target: [u8; 32],
    pub payload: Vec<u8>,
    pub resources: Vec<Handle>,
}

/// A `Call` as mathematics.
pub struct CallView {
    pub target: [u8; 32],
    pub payload: Seq<u8>,
    pub resources: Seq<Handle>,
}

impl View for Call {
    type V = CallView;

    open spec fn view(&self) -> CallView {
        CallView { target: self.target, payload: self.payload@, resources: self.resources@ }
    }
}

/// The position in the handle list at which sub-operation `index` begins: the
/// handles that the sub-operations before it consume.
pub open spec fn offset_of(batch: Batch, index: int) -> int {
    total(batch.handle_counts.take(index))
}

/// What the dispatcher does with sub-operation `index`: the call it makes, or
/// the failure it stops with before calling.
///
/// The sub-operation is refused with `FormatError` where the batch has no such
/// sub-operation, where it consumes no handle (so names no target), or where
/// the list ends before its handles do; with `SelfTargetViolation` where its
/// target is `identity`.
pub open spec fn planned(identity: [u8; 32], handles: Seq<Handle>, batch: Batch, index: int)
    -> Result<CallView, AnyIxError> {
    let first = offset_of(batch, index);
    if !(0 <= index < batch.operation_count && index < batch.handle_counts.len() && index
        < batch.payloads.len()) {
        Err(AnyIxError::FormatError)
    } else if batch.handle_counts[index] == 0 || handles.len() < first
        + batch.handle_counts[index] {
        Err(AnyIxError::FormatError)
    } else if handles[first].key == identity {
        Err(AnyIxError::SelfTargetViolation { index: index as u8 })
    } else {
        Ok(
            CallView {
                target: handles[first].key,
                payload: batch.payloads[index],
                resources: handles.subrange(first + 1, first + batch.handle_counts[index]),
            },
        )
    }
}

/// `r` is what `plan` says, the call taken by its view.
pub open spec fn follows_plan(r: Result<Call, AnyIxError>, plan: Result<CallView, AnyIxError>)
    -> bool {
    match plan {
        Ok(call) => r matches Ok(c) && c@ == call,
        Err(e) => r == Err::<Call, _>(e),
    }
}

/// The first sub-operation at or behind `from` that the dispatcher refuses,
/// or `operation_count` where it refuses none of them.
pub open spec fn first_refused(
    identity: [u8; 32],
    handles: Seq<Handle>,
    batch: Batch,
    from: int,
) -> int
    decreases batch.operation_count - from,
{
    if from >= batch.operation_count {
        batch.operation_count as int
    } else if planned(identity, handles, batch, from) is Err {
        from
    } else {
        first_refused(identity, handles, batch, from + 1)
    }
}

/// The handles that a list of account records stands for.
pub open spec fn account_handles(accounts: Seq<AccountInfo>) -> Seq<Handle> {
    Seq::new(accounts.len(), |i: int| account_handle(accounts[i]))
}

/// Whether two identities are the same 32 bytes.
fn same_key(a: &[u8; 32], b: &[u8; 32]) -> (same: bool)
    ensures
        same == (*a == *b),
{
    let mut i: usize = 0;
    while i < 32
        invariant
            i <= 32,
            forall|j: int| 0 <= j < i ==> a[j] == b[j],
        decreases 32 - i,
    {
        if a[i] != b[i] {
            return false;
        }
        i += 1;
    }
    assert(*a =~= *b);
    true
}

/// Plans sub-operation `index`, which begins at `first` in the handle list.
fn plan_at(
    identity: &[u8; 32],
    handles: &[Handle],
    batch: &AnyIx,
    index: usize,
    first: usize,
) -> (r: Result<Call, AnyIxError>)
    requires
        index < batch@.operation_count,
        index < batch@.handle_counts.len(),
        index < batch@.payloads.len(),
        first == offset_of(batch@, index as int),
    ensures
        follows_plan(r, planned(*identity, handles@, batch@, index as int)),
{
    let count = batch.instruction_account_counts[index] as usize;
    if count == 0 || handles.len() < first || handles.len() - first < count {
        return Err(AnyIxError::FormatError);
    }
    let target = handles[first].key;
    if same_key(&target, identity) {
        return Err(AnyIxError::SelfTargetViolation { index: index as u8 });
    }
    let resources = slice_to_vec(slice_subrange(handles, first + 1, first + count));
    let payload = batch.instruction_datas[index].clone();
    Ok(Call { target, payload, resources })
}

/// Plans one sub-operation of `batch` against `handles`: slices its handles
/// off the list, refuses a target that is `identity`, and builds the call.
/// The flags of the handles are passed on as they are.
pub fn plan_call(identity: &[u8; 32], handles: &[Handle], batch: &AnyIx, index: usize) -> (r:
    Result<Call, AnyIxError>)
    ensures
        follows_plan(r, planned(*identity, handles@, batch@, index as int)),
{
    if index >= batch.num_instructions as usize || index >= batch.instruction_account_counts.len()
        || index >= batch.instruction_datas.len() {
        return Err(AnyIxError::FormatError);
    }
    let mut first: usize = 0;
    let mut i: usize = 0;
    proof {
        lemma_total_take_grows(batch@.handle_counts, 0, 0);
    }
    while i < index
        invariant
            i <= index < batch@.handle_counts.len(),
            index < 256,
            first == offset_of(batch@, i as int),
            first <= 255 * i,
        decreases index - i,
    {
        proof {
            lemma_total_take_next(batch@.handle_counts, i as int);
        }
        first += batch.instruction_account_counts[i] as usize;
        i += 1;
    }
    plan_at(identity, handles, batch, index, first)
}

/// What the dispatcher makes of the outcome of the call for sub-operation
/// `index`: it goes on after a success, and stops with the failure, marked
/// with the index, otherwise.
pub fn settle(index: u8, outcome: Result<(), ProgramError>) -> (r: Result<(), AnyIxError>)
    ensures
        r == match outcome {
            Ok(_) => Ok::<(), AnyIxError>(()),
            Err(cause) => Err(AnyIxError::ExecutorError { index, cause }),
        },
{
    match outcome {
        Ok(_) => Ok(()),
        Err(cause) => Err(AnyIxError::ExecutorError { index, cause }),
    }
}

/// The first refused sub-operation at or behind `from` is not before `from`
/// and not behind the end of the batch.
pub proof fn lemma_first_refused_bounds(
    identity: [u8; 32],
    handles: Seq<Handle>,
    batch: Batch,
    from: int,
)
    requires
        0 <= from <= batch.operation_count,
    ensures
        from <= first_refused(identity, handles, batch, from) <= batch.operation_count,
    decreases batch.operation_count - from,
{
    if from < batch.operation_count && planned(identity, handles, batch, from) is Ok {
        lemma_first_refused_bounds(identity, handles, batch, from + 1);
    }
}

/// Whether a dispatch of the buffer `data` against `handles`, on behalf of
/// `identity`, can end with `r`.
///
/// A buffer that does not decode ends it with `FormatError`. Otherwise the
/// sub-operations are taken in order up to the first that is refused. The
/// dispatch succeeds only where none is refused; it ends with the failure of
/// an invoked program only at a sub-operation before the first refused one;
/// and any other failure is the refusal of the first refused sub-operation.
pub open spec fn is_dispatch_result(
    identity: [u8; 32],
    handles: Seq<Handle>,
    data: Seq<u8>,
    r: Result<(), AnyIxError>,
) -> bool {
    match decode_spec(data) {
        None => r == Err::<(), _>(AnyIxError::FormatError),
        Some(batch) => {
            let stop = first_refused(identity, handles, batch, 0);
            match r {
                Ok(_) => stop == batch.operation_count,
                Err(AnyIxError::ExecutorError { index, .. }) => index < stop,
                Err(e) => stop < batch.operation_count && planned(identity, handles, batch, stop)
                    == Err::<CallView, _>(e),
            }
        },
    }
}

/// A batch without sub-operations is dispatched successfully, whatever the
/// handle list holds.
pub proof fn lemma_empty_batch_succeeds(
    identity: [u8; 32],
    handles: Seq<Handle>,
    data: Seq<u8>,
    r: Result<(), AnyIxError>,
)
    requires
        decode_spec(data) matches Some(batch) && batch.operation_count == 0,
        is_dispatch_result(identity, handles, data, r),
    ensures
        r is Ok,
{
}

/// A batch whose first sub-operation targets the dispatching program itself
/// is refused with `SelfTargetViolation`, whatever the programs behind it
/// would have done.
pub proof fn lemma_self_target_refused(
    identity: [u8; 32],
    handles: Seq<Handle>,
    data: Seq<u8>,
    r: Result<(), AnyIxError>,
)
    requires
        decode_spec(data) matches Some(batch) && batch.operation_count > 0 && 1
            <= batch.handle_counts[0] <= handles.len() && handles[0].key == identity,
        is_dispatch_result(identity, handles, data, r),
    ensures
        r == Err::<(), _>(AnyIxError::SelfTargetViolation { index: 0 }),
{
    let batch = decode_spec(data).unwrap();
    lemma_decoded_wf(data);
}

/// Decodes `data` and runs the batch it holds against `accounts`, on behalf
/// of the program `program_id`.
///
/// The sub-operations run in order, each invoked through
/// `solana_program::program::invoke` with the call that [`planned`] gives for
/// it and with its own slice of `accounts`. The dispatch stops at the first
/// sub-operation that is refused or whose invocation fails; nothing behind it
/// is invoked. Which invocations fail is the runtime's to say, so the result
/// is pinned down as far as [`is_dispatch_result`] does.
pub fn handle_anyix<'info>(program_id: Pubkey, accounts: &[AccountInfo<'info>], data: &[u8]) -> (r:
    Result<(), AnyIxError>)
    ensures
        is_dispatch_result(pubkey_bytes(program_id), account_handles(accounts@), data@, r),
{
    let batch = match AnyIx::unpack(data) {
        Ok(batch) => batch,
        Err(e) => { return Err(e); },
    };
    let identity = key_bytes(&program_id);
    let mut handles: Vec<Handle> = Vec::with_capacity(accounts.len());
    let mut k: usize = 0;
    while k < accounts.len()
        invariant
            k <= accounts@.len(),
            handles@ == account_handles(accounts@.take(k as int)),
        decreases accounts@.len() - k,
    {
        handles.push(read_handle(&accounts[k]));
        k += 1;
    }
    let count = batch.num_instructions as usize;
    let mut offset: usize = 0;
    let mut index: usize = 0;
    proof {
        lemma_total_take_grows(batch@.handle_counts, 0, 0);
    }
    while index < count
        invariant
            batch@.wf(),
            batch@ == decode_spec(data@).unwrap(),
            decode_spec(data@) is Some,
            identity == pubkey_bytes(program_id),
            handles@ == account_handles(accounts@),
            handles@.len() == accounts@.len() <= usize::MAX,
            count == batch@.operation_count,
            index <= count,
            offset == offset_of(batch@, index as int),
            offset <= accounts@.len(),
            first_refused(identity, handles@, batch@, 0) == first_refused(
                identity,
                handles@,
                batch@,
                index as int,
            ),
        decreases count - index,
    {
        proof {
            lemma_total_take_next(batch@.handle_counts, index as int);
            lemma_first_refused_bounds(identity, handles@, batch@, index as int + 1);
        }
        let call = match plan_at(&identity, handles.as_slice(), &batch, index, offset) {
            Ok(call) => call,
            Err(e) => { return Err(e); },
        };
        let consumed = batch.instruction_account_counts[index] as usize;
        let outcome = invoke_call(&call, slice_subrange(accounts, offset, offset + consumed));
        match settle(index as u8, outcome) {
            Ok(_) => {},
            Err(e) => { return Err(e); },
        }
        offset += consumed;
        index += 1;
    }
    Ok(())
}

} // verus!
