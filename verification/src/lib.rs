//! A compact format that packs a sequence of sub-operations into one flat byte
//! buffer, and a dispatcher that unpacks such a buffer and forwards each
//! sub-operation, in order, to the program that its first handle designates.
//!
//! * [`wire`] is the mathematical model of the byte layout.
//! * [`codec`] holds [`AnyIx`], the decoded batch, with `unpack` and `pack`.
//! * [`dispatch`] partitions a flat handle list across the sub-operations and
//!   runs them, failing fast.
//! * [`solana`] is the boundary to `solana_program`: every item in it is
//!   believed, not proved.
pub mod codec;
pub mod dispatch;
pub mod error;
pub mod solana;
pub mod wire;

pub use codec::{encode_instructions, AnyIx, Operation};
pub use dispatch::{handle_anyix, plan_call, settle, Call, Handle};
pub use error::AnyIxError;
