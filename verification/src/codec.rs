//! The decoded batch and its two directions: bytes to batch, batch to bytes.
use crate::dispatch::Handle;
use crate::error::AnyIxError;
use crate::solana::{instruction_operation, read_operation};
use crate::wire::{
    decode_spec, encode_spec, lemma_decoded_wf, lemma_total_take_grows, lemma_total_take_next,
    payload_start, Batch,
};
use solana_program::instruction::Instruction;
use vstd::prelude::*;
use vstd::slice::slice_to_vec;

verus! {

/// A batch of sub-operations. The four fields are aligned by position: entry
/// `i` of each belongs to sub-operation `i`.
#[derive(Clone, PartialEq, Eq, Debug)]
pub struct AnyIx {
    /// The number of sub-operations.
    pub num_instructions: u8,
    /// The byte length of each payload.
    pub instruction_data_sizes: Vec<u8>,
    /// The number of handles that each sub-operation consumes from the flat
    /// handle list, the handle that designates its target included.
    pub instruction_account_counts: Vec<u8>,
    /// The payload of each sub-operation.
    pub instruction_datas: Vec<Vec<u8>>,
}

impl View for AnyIx {
    type V = Batch;

    open spec fn view(&self) -> Batch {
        Batch {
            operation_count: self.num_instructions,
            payload_sizes: self.instruction_data_sizes@,
            handle_counts: self.instruction_account_counts@,
            payloads: Seq::new(
                self.instruction_datas@.len(),
                |i: int| self.instruction_datas@[i]@,
            ),
        }
    }
}

/// One sub-operation before it is packed: the program it targets, the
/// handles it needs from the flat handle list (the one that designates the
/// target among them), and its payload.
///
/// A batch records how many handles a sub-operation needs, not which: the
/// target is what the first of them turns out to be when the batch is
/// dispatched.
#[derive(Clone, PartialEq, Eq, Debug)]
pub struct Operation {
    pub target: [u8; 32],
    pub handles: Vec<Handle>,
    pub payload: Vec<u8>,
}

/// An `Operation` as mathematics.
pub struct OperationView {
    pub target: [u8; 32],
    pub handles: Seq<Handle>,
    pub payload: Seq<u8>,
}

impl View for Operation {
    type V = OperationView;

    open spec fn view(&self) -> OperationView {
        OperationView { target: self.target, handles: self.handles@, payload: self.payload@ }
    }
}

/// The operations of a list, each by its view.
pub open spec fn operation_views(operations: Seq<Operation>) -> Seq<OperationView> {
    Seq::new(operations.len(), |i: int| operations[i]@)
}

/// What a list of instructions holds.
pub open spec fn instruction_operations(instructions: Seq<Instruction>) -> Seq<OperationView> {
    Seq::new(instructions.len(), |i: int| instruction_operation(instructions[i]))
}

/// No more than 255 operations, each with a payload of no more than 255
/// bytes and no more than 255 handles.
pub open spec fn within_limits(operations: Seq<OperationView>) -> bool {
    &&& operations.len() <= 255
    &&& forall|i: int|
        0 <= i < operations.len() ==> (#[trigger] operations[i]).payload.len() <= 255
            && operations[i].handles.len() <= 255
}

/// The batch that stands for `operations`: entry `i` records the payload of
/// operation `i`, its length, and the number of its handles.
pub open spec fn batch_of(operations: Seq<OperationView>) -> Batch {
    Batch {
        operation_count: operations.len() as u8,
        payload_sizes: Seq::new(operations.len(), |i: int| operations[i].payload.len() as u8),
        handle_counts: Seq::new(operations.len(), |i: int| operations[i].handles.len() as u8),
        payloads: Seq::new(operations.len(), |i: int| operations[i].payload),
    }
}

/// `r` is the batch of `operations`, or `LimitExceeded` where they are not
/// within the limits.
pub open spec fn is_batch_of(r: Result<AnyIx, AnyIxError>, operations: Seq<OperationView>) -> bool {
    if within_limits(operations) {
        r matches Ok(batch) && batch@ == batch_of(operations) && batch@.wf()
    } else {
        r == Err::<AnyIx, _>(AnyIxError::LimitExceeded)
    }
}

/// Builds the batch that stands for `ixs`: one sub-operation for each
/// instruction, with the instruction's payload and the number of its
/// accounts.
///
/// The program of an instruction is not recorded. The dispatcher takes the
/// first handle of a sub-operation for its target, so the accounts of each
/// instruction are expected to begin with the one that names the program.
pub fn encode_instructions(ixs: &[Instruction]) -> (r: Result<AnyIx, AnyIxError>)
    ensures
        is_batch_of(r, instruction_operations(ixs@)),
{
    let mut operations: Vec<Operation> = Vec::new();
    let mut i: usize = 0;
    while i < ixs.len()
        invariant
            i <= ixs@.len(),
            operations@.len() == i,
            operation_views(operations@) == instruction_operations(ixs@.take(i as int)),
        decreases ixs@.len() - i,
    {
        let ghost before = operation_views(operations@);
        operations.push(read_operation(&ixs[i]));
        assert forall|j: int| 0 <= j < i + 1 implies operation_views(operations@)[j]
            == instruction_operations(ixs@.take(i as int + 1))[j] by {
            if j < i {
                assert(operation_views(operations@)[j] == before[j]);
            }
        }
        i += 1;
    }
    assert(ixs@.take(i as int) =~= ixs@);
    AnyIx::from_operations(operations.as_slice())
}

impl AnyIx {
    /// Builds the batch that stands for `operations`, or fails with
    /// `LimitExceeded` where there are more than 255 of them, or one has a
    /// payload or a handle list longer than 255.
    pub fn from_operations(operations: &[Operation]) -> (r: Result<AnyIx, AnyIxError>)
        ensures
            is_batch_of(r, operation_views(operations@)),
    {
        let n = operations.len();
        if n > 255 {
            return Err(AnyIxError::LimitExceeded);
        }
        let ghost views = operation_views(operations@);
        let mut sizes: Vec<u8> = Vec::with_capacity(n);
        let mut counts: Vec<u8> = Vec::with_capacity(n);
        let mut datas: Vec<Vec<u8>> = Vec::with_capacity(n);
        let mut i: usize = 0;
        while i < n
            invariant
                i <= n == operations@.len(),
                n <= 255,
                views == operation_views(operations@),
                within_limits(views.take(i as int)),
                sizes@ == batch_of(views).payload_sizes.take(i as int),
                counts@ == batch_of(views).handle_counts.take(i as int),
                datas@.len() == i,
                forall|j: int| 0 <= j < i ==> (#[trigger] datas@[j])@ == views[j].payload,
            decreases n - i,
        {
            let operation = &operations[i];
            if operation.payload.len() > 255 || operation.handles.len() > 255 {
                assert(views[i as int].payload.len() > 255 || views[i as int].handles.len() > 255);
                return Err(AnyIxError::LimitExceeded);
            }
            sizes.push(operation.payload.len() as u8);
            counts.push(operation.handles.len() as u8);
            let payload = operation.payload.clone();
            datas.push(payload);
            i += 1;
        }
        assert(views.take(n as int) =~= views);
        let batch = AnyIx {
            num_instructions: n as u8,
            instruction_data_sizes: sizes,
            instruction_account_counts: counts,
            instruction_datas: datas,
        };
        assert(batch@.payload_sizes =~= batch_of(views).payload_sizes);
        assert(batch@.handle_counts =~= batch_of(views).handle_counts);
        assert(batch@.payloads =~= batch_of(views).payloads);
        Ok(batch)
    }

    /// Splits `input` behind its first `count` bytes, or fails where it has
    /// fewer.
    pub fn unpack_u8_slice(input: &[u8], count: usize) -> (r: Result<(&[u8], &[u8]), AnyIxError>)
        ensures
            count <= input@.len() ==> (r matches Ok(parts) && parts.0@ == input@.take(count as int)
                && parts.1@ == input@.skip(count as int)),
            count > input@.len() ==> r == Err::<(&[u8], &[u8]), _>(AnyIxError::FormatError),
    {
        if count > input.len() {
            return Err(AnyIxError::FormatError);
        }
        let parts = input.split_at(count);
        Ok(parts)
    }

    /// Decodes the batch at the front of `input`. Bytes behind the last
    /// payload are ignored; a buffer that ends before the batch does is a
    /// `FormatError`.
    pub fn unpack(input: &[u8]) -> (r: Result<AnyIx, AnyIxError>)
        ensures
            match decode_spec(input@) {
                Some(b) => r matches Ok(v) && v@ == b && b.wf(),
                None => r == Err::<AnyIx, _>(AnyIxError::FormatError),
            },
    {
        let (head, body) = match Self::unpack_u8_slice(input, 1) {
            Ok(parts) => parts,
            Err(e) => { return Err(e); },
        };
        let n = head[0] as usize;
        let (sizes, body) = match Self::unpack_u8_slice(body, n) {
            Ok(parts) => parts,
            Err(e) => { return Err(e); },
        };
        let (counts, body) = match Self::unpack_u8_slice(body, n) {
            Ok(parts) => parts,
            Err(e) => { return Err(e); },
        };
        assert(counts@ =~= input@.subrange(1 + n, 1 + 2 * n));
        proof {
            lemma_total_take_grows(sizes@, 0, 0);
        }
        let mut rest = body;
        let mut datas: Vec<Vec<u8>> = Vec::with_capacity(n);
        let mut i: usize = 0;
        while i < n
            invariant
                i <= n == sizes@.len(),
                n == input@[0],
                1 + 2 * n <= input@.len(),
                sizes@ == input@.subrange(1, 1 + n),
                payload_start(sizes@, i as int) <= input@.len(),
                rest@ == input@.skip(payload_start(sizes@, i as int)),
                datas@.len() == i,
                forall|j: int|
                    0 <= j < i ==> (#[trigger] datas@[j])@ == input@.subrange(
                        payload_start(sizes@, j),
                        payload_start(sizes@, j + 1),
                    ),
            decreases n - i,
        {
            proof {
                lemma_total_take_next(sizes@, i as int);
                lemma_total_take_grows(sizes@, i as int, i as int + 1);
                lemma_total_take_grows(sizes@, i as int + 1, n as int);
            }
            let (payload, behind) = match Self::unpack_u8_slice(rest, sizes[i] as usize) {
                Ok(parts) => parts,
                Err(e) => { return Err(e); },
            };
            datas.push(slice_to_vec(payload));
            rest = behind;
            i += 1;
        }
        let decoded = AnyIx {
            num_instructions: head[0],
            instruction_data_sizes: slice_to_vec(sizes),
            instruction_account_counts: slice_to_vec(counts),
            instruction_datas: datas,
        };
        proof {
            lemma_total_take_grows(sizes@, n as int, n as int);
            assert(sizes@.take(n as int) =~= sizes@);
            assert(decoded@.payloads =~= decode_spec(input@).unwrap().payloads);
            lemma_decoded_wf(input@);
        }
        Ok(decoded)
    }

    /// Encodes the batch: the count, the payload sizes, the handle counts,
    /// then the payloads one behind the other.
    ///
    /// A batch whose fields disagree has no encoding. It is refused with
    /// `LimitExceeded` where an array or a payload is longer than 255, and
    /// with `FormatError` otherwise.
    pub fn pack(&self) -> (r: Result<Vec<u8>, AnyIxError>)
        ensures
            self@.over_limit() ==> r == Err::<Vec<u8>, _>(AnyIxError::LimitExceeded),
            !self@.over_limit() && !self@.wf() ==> r == Err::<Vec<u8>, _>(AnyIxError::FormatError),
            self@.wf() ==> (r matches Ok(bytes) && bytes@ == encode_spec(self@)),
    {
        let n = self.instruction_datas.len();
        if n > 255 || self.instruction_data_sizes.len() > 255
            || self.instruction_account_counts.len() > 255 {
            return Err(AnyIxError::LimitExceeded);
        }
        let mut i: usize = 0;
        while i < n
            invariant
                i <= n == self.instruction_datas@.len(),
                forall|j: int| 0 <= j < i ==> (#[trigger] self@.payloads[j]).len() <= 255,
            decreases n - i,
        {
            if self.instruction_datas[i].len() > 255 {
                assert(self@.payloads[i as int].len() > 255);
                return Err(AnyIxError::LimitExceeded);
            }
            i += 1;
        }
        if self.num_instructions as usize != n || self.instruction_data_sizes.len() != n
            || self.instruction_account_counts.len() != n {
            return Err(AnyIxError::FormatError);
        }
        let mut bytes: Vec<u8> = Vec::with_capacity(1 + 2 * n);
        bytes.push(self.num_instructions);
        bytes.extend_from_slice(self.instruction_data_sizes.as_slice());
        bytes.extend_from_slice(self.instruction_account_counts.as_slice());
        let ghost header = seq![self@.operation_count] + self@.payload_sizes + self@.handle_counts;
        let mut i: usize = 0;
        while i < n
            invariant
                i <= n == self@.payloads.len(),
                n == self@.payload_sizes.len(),
                !self@.over_limit(),
                header == seq![self@.operation_count] + self@.payload_sizes + self@.handle_counts,
                forall|j: int|
                    0 <= j < i ==> (#[trigger] self@.payloads[j]).len() == self@.payload_sizes[j],
                bytes@ == header + self@.payloads.take(i as int).flatten(),
            decreases n - i,
        {
            let payload = &self.instruction_datas[i];
            if payload.len() != self.instruction_data_sizes[i] as usize {
                assert(self@.payloads[i as int].len() != self@.payload_sizes[i as int]);
                return Err(AnyIxError::FormatError);
            }
            bytes.extend_from_slice(payload.as_slice());
            proof {
                broadcast use Seq::lemma_flatten_push;

                assert(self@.payloads.take(i as int + 1) =~= self@.payloads.take(i as int).push(
                    self@.payloads[i as int],
                ));
            }
            i += 1;
        }
        assert(self@.payloads.take(n as int) =~= self@.payloads);
        Ok(bytes)
    }
}

} // verus!
