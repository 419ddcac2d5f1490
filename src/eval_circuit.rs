use vstd::prelude::*;
use crate::gen_circuit::{EncryptedGate, Gate};

verus! {

/// A boolean circuit with its published garbled table and one active label
/// per input wire, as the evaluator holds them.
pub struct EvalCircuit {
    pub gates: Vec<Gate>,
    pub encrypted_gates: Vec<EncryptedGate>,
    pub inputs: Vec<Vec<u8>>,
}

impl EvalCircuit {
    pub fn new(gates: Vec<Gate>, encrypted_gates: Vec<EncryptedGate>, inputs: Vec<Vec<u8>>) -> (r: Self)
        ensures
            r.gates@ == gates@,
            r.encrypted_gates@ == encrypted_gates@,
            r.inputs@ == inputs@,
    {
        EvalCircuit { gates, encrypted_gates, inputs }
    }
}

} // verus!
