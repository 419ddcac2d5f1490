//! Arithmetization of half-gate garbling over byte-valued cells.
//!
//! Labels and the global offset are 16 cells, each holding one byte.
//! Byte-wise XOR and AND are enforced by lookups into exhaustive tables,
//! the tweakable hash by a fixed-key cipher relation, and the half-gate chip
//! recomputes both garbled rows and the output zero-label from its inputs.

mod eval_circuit;
mod gen_circuit;
mod half_gate;
mod hash;
mod hash_chip;
mod layout;
mod table;
mod u8_and_chip;
mod u8_xor_chip;

pub use eval_circuit::EvalCircuit;
pub use gen_circuit::{EncryptedGate, Gate, GateKind, GenCells, GenCircuit, GenConfig};
pub use half_gate::{half_gate_reference, CircuitError, HalfGateCells, HalfGateChip, HalfGateConfig};
pub use hash::{be_bytes, encrypt_block, tccr, xor_blocks, FIXED_KEY};
pub use hash_chip::HashChip;
pub use layout::{Constraint, ConstraintSystem, Layouter};
pub use table::{BitOp, ByteOpTable};
pub use u8_and_chip::{and_bytes, U8AndChip, U8AndConfig};
pub use u8_xor_chip::{xor_bytes, U8XorChip, U8XorConfig};
