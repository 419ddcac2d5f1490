use vstd::prelude::*;
use crate::half_gate::{half_gate_spec, lsb, CircuitError, HalfGateChip, HalfGateConfig};
use crate::hash::xor_spec;
use crate::layout::{
    byte_cells, cell_bytes, extends, lemma_extends_keeps, lemma_extends_trans,
    satisfied, ConstraintSystem, Layouter,
};
use crate::table::BitOp;
use crate::u8_and_chip::U8AndChip;
use crate::u8_xor_chip::U8XorChip;

verus! {

/// The kind of a boolean gate.
#[derive(Clone, Copy, Debug, PartialEq, Eq, Structural)]
pub enum GateKind {
    Xor,
    And,
}

/// A boolean gate on wires `x` and `y`. Gate `k` of a circuit with `n`
/// inputs drives wire `n + k`. An AND gate takes the tweaks `gid` and
/// `gid + 1`, as the garbler numbered it; an XOR gate takes none.
#[derive(Clone, Copy, Debug, PartialEq, Eq, Structural)]
pub struct Gate {
    pub kind: GateKind,
    pub x: usize,
    pub y: usize,
    pub gid: u128,
}

/// The committed garbled rows of one AND gate.
pub struct EncryptedGate {
    pub t_g: Vec<u8>,
    pub t_e: Vec<u8>,
}

/// A boolean circuit with its committed garbled table.
pub struct GenCircuit {
    pub num_inputs: usize,
    pub gates: Vec<Gate>,
    pub encrypted_gates: Vec<EncryptedGate>,
}

/// Every gate reads only inputs and the wires of earlier gates.
pub open spec fn wired(gates: Seq<Gate>, num_inputs: nat) -> bool {
    forall|k: int| 0 <= k < gates.len() ==> #[trigger] gates[k].x < num_inputs + k && gates[k].y < num_inputs + k
}

/// The zero-labels of all wires and the garbled rows of the AND gates, after
/// the first `n` gates.
pub open spec fn garble_spec(gates: Seq<Gate>, n: nat, inputs: Seq<Seq<u8>>, delta: Seq<u8>) -> (Seq<Seq<u8>>, Seq<(Seq<u8>, Seq<u8>)>)
    decreases n,
{
    if n == 0 {
        (inputs, Seq::empty())
    } else {
        let (labels, rows) = garble_spec(gates, (n - 1) as nat, inputs, delta);
        let g = gates[n - 1];
        match g.kind {
            GateKind::Xor => (labels.push(xor_spec(labels[g.x as int], labels[g.y as int])), rows),
            GateKind::And => {
                let h = half_gate_spec(labels[g.x as int], labels[g.y as int], delta, g.gid);
                (labels.push(h.2), rows.push((h.0, h.1)))
            },
        }
    }
}

/// The bytes that the first `n` wires' cells hold.
pub open spec fn witness_inputs(adv: Seq<u64>, wires: Seq<Vec<usize>>, n: nat) -> Seq<Seq<u8>> {
    Seq::new(n, |i: int| cell_bytes(adv, wires[i]@))
}

/// The advice is a garbling of the committed table: the offset cells have
/// color bit 1, each of the `wires` holds the label that garbling the first
/// `k` gates from the input labels in the advice gives, and the first
/// `num_and` committed rows are the garbled rows.
pub open spec fn garbles(
    adv: Seq<u64>,
    gates: Seq<Gate>,
    k: nat,
    num_inputs: nat,
    wires: Seq<Vec<usize>>,
    delta: Seq<usize>,
    enc: Seq<EncryptedGate>,
    num_and: nat,
) -> bool {
    let d = cell_bytes(adv, delta);
    let (labels, rows) = garble_spec(gates, k, witness_inputs(adv, wires, num_inputs), d);
    &&& lsb(d)
    &&& forall|w: int| 0 <= w < wires.len() ==> cell_bytes(adv, (#[trigger] wires[w])@) == labels[w]
    &&& forall|j: int| 0 <= j < num_and ==> (#[trigger] enc[j]).t_g@ == rows[j].0 && enc[j].t_e@ == rows[j].1
}

/// The cells that the generation circuit lays out: each wire's zero-label
/// and the offset.
pub struct GenCells {
    pub wires: Vec<Vec<usize>>,
    pub delta: Vec<usize>,
}

/// Every AND gate has a tweak pair `(gid, gid + 1)` of its own: the GateIds
/// of AND gates rise by at least 2 along the gates, and none is the largest
/// `u128`.
pub open spec fn fresh_tweaks(gates: Seq<Gate>) -> bool {
    &&& forall|i: int| 0 <= i < gates.len() && (#[trigger] gates[i]).kind == GateKind::And ==> gates[i].gid < u128::MAX
    &&& forall|i: int, j: int|
        0 <= i < j < gates.len() && (#[trigger] gates[i]).kind == GateKind::And && (#[trigger] gates[j]).kind == GateKind::And
            ==> gates[i].gid + 1 < gates[j].gid
}

/// The number of AND gates among the first `n`.
pub open spec fn and_count(gates: Seq<Gate>, n: nat) -> nat
    decreases n,
{
    if n == 0 {
        0
    } else {
        and_count(gates, (n - 1) as nat) + if gates[n - 1].kind == GateKind::And { 1nat } else { 0nat }
    }
}

/// Each input label and the offset are 16 bytes wide.
pub open spec fn inputs_ok(inputs: Seq<Vec<u8>>, num_inputs: nat, delta: Seq<u8>) -> bool {
    &&& inputs.len() == num_inputs
    &&& delta.len() == 16
    &&& forall|i: int| 0 <= i < inputs.len() ==> (#[trigger] inputs[i])@.len() == 16
}

/// The committed table holds two 16-byte rows for each AND gate.
pub open spec fn table_ok(gates: Seq<Gate>, enc: Seq<EncryptedGate>) -> bool {
    &&& enc.len() == and_count(gates, gates.len())
    &&& forall|j: int| 0 <= j < enc.len() ==> (#[trigger] enc[j]).t_g@.len() == 16 && enc[j].t_e@.len() == 16
}

/// The committed table equals the garbled rows.
pub open spec fn table_matches(enc: Seq<EncryptedGate>, rows: Seq<(Seq<u8>, Seq<u8>)>) -> bool {
    &&& enc.len() == rows.len()
    &&& forall|j: int| 0 <= j < enc.len() ==> (#[trigger] enc[j]).t_g@ == rows[j].0 && enc[j].t_e@ == rows[j].1
}

/// The views of the input labels.
pub open spec fn label_views(inputs: Seq<Vec<u8>>) -> Seq<Seq<u8>> {
    inputs.map_values(|v: Vec<u8>| v@)
}

/// One garbled row for each AND gate so far.
pub proof fn lemma_rows_count(gates: Seq<Gate>, n: nat, inputs: Seq<Seq<u8>>, delta: Seq<u8>)
    requires
        n <= gates.len(),
    ensures
        garble_spec(gates, n, inputs, delta).1.len() == and_count(gates, n),
        and_count(gates, n) <= n,
    decreases n,
{
    if n > 0 {
        lemma_rows_count(gates, (n - 1) as nat, inputs, delta);
    }
}

/// Counting AND gates over a longer prefix gives no fewer.
pub proof fn lemma_and_count_mono(gates: Seq<Gate>, a: nat, b: nat)
    requires
        a <= b,
    ensures
        and_count(gates, a) <= and_count(gates, b),
    decreases b - a,
{
    if a < b {
        lemma_and_count_mono(gates, a, (b - 1) as nat);
    }
}

/// The labels and rows have one entry for each wire and AND gate so far.
pub proof fn lemma_garble_len(gates: Seq<Gate>, n: nat, inputs: Seq<Seq<u8>>, delta: Seq<u8>)
    requires
        n <= gates.len(),
    ensures
        garble_spec(gates, n, inputs, delta).0.len() == inputs.len() + n,
        garble_spec(gates, n, inputs, delta).1.len() <= n,
    decreases n,
{
    if n > 0 {
        lemma_garble_len(gates, (n - 1) as nat, inputs, delta);
    }
}

impl GenCircuit {
    pub fn new(num_inputs: usize, gates: Vec<Gate>, encrypted_gates: Vec<EncryptedGate>) -> (r: Self)
        ensures
            r.num_inputs == num_inputs,
            r.gates@ == gates@,
            r.encrypted_gates@ == encrypted_gates@,
    {
        GenCircuit { num_inputs, gates, encrypted_gates }
    }

    /// Whether every gate reads only inputs and earlier gates' wires.
    pub fn is_wired(&self) -> (r: bool)
        ensures
            r == wired(self.gates@, self.num_inputs as nat),
    {
        let mut k: usize = 0;
        while k < self.gates.len()
            invariant
                k <= self.gates@.len(),
                forall|j: int| 0 <= j < k ==> #[trigger] self.gates@[j].x < self.num_inputs + j
                    && self.gates@[j].y < self.num_inputs + j,
            decreases self.gates@.len() - k,
        {
            let g = self.gates[k];
            let x_ok = g.x < self.num_inputs || g.x - self.num_inputs < k;
            let y_ok = g.y < self.num_inputs || g.y - self.num_inputs < k;
            if !x_ok || !y_ok {
                assert(!(self.gates@[k as int].x < self.num_inputs + k && self.gates@[k as int].y < self.num_inputs + k));
                return false;
            }
            k = k + 1;
        }
        true
    }

    /// Whether every AND gate has a tweak pair of its own.
    pub fn has_fresh_tweaks(&self) -> (r: bool)
        ensures
            r == fresh_tweaks(self.gates@),
    {
        let ghost gs = self.gates@;
        let mut last: Option<usize> = None;
        let mut k: usize = 0;
        while k < self.gates.len()
            invariant
                gs == self.gates@,
                k <= gs.len(),
                forall|i: int| 0 <= i < k && (#[trigger] gs[i]).kind == GateKind::And ==> gs[i].gid < u128::MAX,
                forall|i: int, j: int|
                    0 <= i < j < k && (#[trigger] gs[i]).kind == GateKind::And && (#[trigger] gs[j]).kind == GateKind::And
                        ==> gs[i].gid + 1 < gs[j].gid,
                last matches Some(li) ==> li < k && gs[li as int].kind == GateKind::And
                    && forall|i: int| 0 <= i < k && (#[trigger] gs[i]).kind == GateKind::And ==> gs[i].gid <= gs[li as int].gid,
                last is None ==> forall|i: int| 0 <= i < k ==> (#[trigger] gs[i]).kind != GateKind::And,
            decreases gs.len() - k,
        {
            let g = self.gates[k];
            if g.kind == GateKind::And {
                if g.gid == u128::MAX {
                    assert(gs[k as int].kind == GateKind::And);
                    return false;
                }
                match last {
                    Some(li) => {
                        let prev = self.gates[li].gid;
                        if prev + 1 >= g.gid {
                            assert(gs[li as int].kind == GateKind::And && gs[k as int].kind == GateKind::And);
                            assert(!(gs[li as int].gid + 1 < gs[k as int].gid));
                            return false;
                        }
                    },
                    None => {},
                }
                last = Some(k);
            }
            k = k + 1;
        }
        true
    }

    /// The number of AND gates.
    pub fn num_and_gates(&self) -> (r: usize)
        ensures
            r == and_count(self.gates@, self.gates@.len()),
    {
        let mut k: usize = 0;
        let mut n: usize = 0;
        while k < self.gates.len()
            invariant
                k <= self.gates@.len(),
                n == and_count(self.gates@, k as nat),
                n <= k,
            decreases self.gates@.len() - k,
        {
            if self.gates[k].kind == GateKind::And {
                n = n + 1;
            }
            k = k + 1;
        }
        n
    }

    /// Whether the committed table holds two 16-byte rows per AND gate.
    pub fn is_table_ok(&self) -> (r: bool)
        ensures
            r == table_ok(self.gates@, self.encrypted_gates@),
    {
        if self.encrypted_gates.len() != self.num_and_gates() {
            return false;
        }
        let mut j: usize = 0;
        while j < self.encrypted_gates.len()
            invariant
                j <= self.encrypted_gates@.len(),
                forall|i: int| 0 <= i < j ==> (#[trigger] self.encrypted_gates@[i]).t_g@.len() == 16
                    && self.encrypted_gates@[i].t_e@.len() == 16,
            decreases self.encrypted_gates@.len() - j,
        {
            if self.encrypted_gates[j].t_g.len() != 16 || self.encrypted_gates[j].t_e.len() != 16 {
                return false;
            }
            j = j + 1;
        }
        true
    }
}

/// Whether every input label and the offset are 16 bytes wide.
fn check_inputs(inputs: &Vec<Vec<u8>>, num_inputs: usize, delta: &Vec<u8>) -> (r: bool)
    ensures
        r == inputs_ok(inputs@, num_inputs as nat, delta@),
{
    if inputs.len() != num_inputs || delta.len() != 16 {
        return false;
    }
    let mut i: usize = 0;
    while i < inputs.len()
        invariant
            i <= inputs@.len(),
            forall|j: int| 0 <= j < i ==> (#[trigger] inputs@[j])@.len() == 16,
        decreases inputs@.len() - i,
    {
        if inputs[i].len() != 16 {
            return false;
        }
        i = i + 1;
    }
    true
}

/// The configuration of the whole generation circuit.
#[derive(Clone, Copy, Debug)]
pub struct GenConfig {
    half_gate: HalfGateConfig,
}

impl GenConfig {
    pub closed spec fn half_gate(&self) -> HalfGateConfig {
        self.half_gate
    }

    /// Registers the XOR and AND tables and wires the half-gate chip to them.
    pub fn configure(meta: &mut ConstraintSystem) -> (r: Self)
        requires
            old(meta).wf(),
        ensures
            final(meta).wf(),
            final(meta).ops() == old(meta).ops().push(BitOp::Xor).push(BitOp::And),
            r.half_gate().xor_config().table() == old(meta).ops().len(),
            r.half_gate().and_config().table() == old(meta).ops().len() + 1,
            r.half_gate().valid(final(meta).ops()),
    {
        let xor_config = U8XorChip::configure(meta);
        let and_config = U8AndChip::configure(meta);
        GenConfig { half_gate: HalfGateChip::configure(xor_config, and_config) }
    }

    /// Lays out the generation of the garbled table of `circuit`: assigns the
    /// input zero-labels and the offset, fixes the offset's color bit to 1,
    /// walks the gates in order, XORing labels for XOR gates and laying out
    /// a half gate for AND gates, and binds each half gate's rows to the
    /// committed table. Returns the cells of every wire's zero-label.
    #[verifier::rlimit(100)]
    pub fn assign(
        &self,
        meta: &ConstraintSystem,
        layouter: &mut Layouter,
        circuit: &GenCircuit,
        inputs: &Vec<Vec<u8>>,
        delta: &Vec<u8>,
    ) -> (r: Result<GenCells, CircuitError>)
        requires
            self.half_gate().valid(meta.ops()),
        ensures
            !inputs_ok(inputs@, circuit.num_inputs as nat, delta@)
                ==> r == Err::<GenCells, CircuitError>(CircuitError::WitnessShape),
            inputs_ok(inputs@, circuit.num_inputs as nat, delta@) && !wired(circuit.gates@, circuit.num_inputs as nat)
                ==> r == Err::<GenCells, CircuitError>(CircuitError::UnknownWire),
            inputs_ok(inputs@, circuit.num_inputs as nat, delta@) && wired(circuit.gates@, circuit.num_inputs as nat)
                && !fresh_tweaks(circuit.gates@)
                ==> r == Err::<GenCells, CircuitError>(CircuitError::TweakReuse),
            inputs_ok(inputs@, circuit.num_inputs as nat, delta@) && wired(circuit.gates@, circuit.num_inputs as nat)
                && fresh_tweaks(circuit.gates@) && !table_ok(circuit.gates@, circuit.encrypted_gates@)
                ==> r == Err::<GenCells, CircuitError>(CircuitError::TableShape),
            r is Ok <==> inputs_ok(inputs@, circuit.num_inputs as nat, delta@)
                && wired(circuit.gates@, circuit.num_inputs as nat)
                && fresh_tweaks(circuit.gates@)
                && table_ok(circuit.gates@, circuit.encrypted_gates@),
            r matches Ok(g) ==> g.delta@.len() == 16 && byte_cells(final(layouter).advice(), g.delta@)
                && cell_bytes(final(layouter).advice(), g.delta@) == delta@,
            r is Err ==> *final(layouter) == *old(layouter),
            extends(old(layouter).advice(), final(layouter).advice()),
            r matches Ok(g) ==> forall|adv: Seq<u64>| #[trigger] satisfied(meta.ops(), adv, final(layouter).constraints())
                ==> garbles(adv, circuit.gates@, circuit.gates@.len(), circuit.num_inputs as nat, g.wires@, g.delta@,
                    circuit.encrypted_gates@, circuit.encrypted_gates@.len()),
            r matches Ok(g) ==> {
                let w = g.wires;
                let (labels, rows) = garble_spec(circuit.gates@, circuit.gates@.len(), label_views(inputs@), delta@);
                &&& w@.len() == labels.len()
                &&& forall|i: int| 0 <= i < w@.len() ==> byte_cells(final(layouter).advice(), (#[trigger] w@[i])@)
                    && cell_bytes(final(layouter).advice(), w@[i]@) == labels[i]
                &&& satisfied(meta.ops(), old(layouter).advice(), old(layouter).constraints())
                    && lsb(delta@) && table_matches(circuit.encrypted_gates@, rows)
                    ==> satisfied(meta.ops(), final(layouter).advice(), final(layouter).constraints())
            },
    {
        proof {
            let a = layouter.advice();
            assert(a.subrange(0, a.len() as int) =~= a);
        }
        if !check_inputs(inputs, circuit.num_inputs, delta) {
            return Err(CircuitError::WitnessShape);
        }
        if !circuit.is_wired() {
            return Err(CircuitError::UnknownWire);
        }
        if !circuit.has_fresh_tweaks() {
            return Err(CircuitError::TweakReuse);
        }
        if !circuit.is_table_ok() {
            return Err(CircuitError::TableShape);
        }
        let ghost ops = meta.ops();
        let ghost a0 = layouter.advice();
        let ghost c0 = layouter.constraints();
        let ghost iv = label_views(inputs@);
        let ghost gates = circuit.gates@;
        let ghost enc = circuit.encrypted_gates@;
        let ghost pre = satisfied(ops, a0, c0) && lsb(delta@);
        let chip = HalfGateChip::construct(self.half_gate);
        let xor_chip = U8XorChip::construct(self.half_gate.u8_xor_config());

        let delta_cells = layouter.assign_bytes(delta);
        let ghost a1 = layouter.advice();
        proof { lemma_extends_keeps(a0, a1); }
        proof {
            if pre {
                crate::layout::lemma_satisfied_extend(ops, a0, a1, c0);
            }
        }
        let _ = chip.constrain_delta_lsb(meta, layouter, &delta_cells);
        let ghost a2 = layouter.advice();
        let ghost c2 = layouter.constraints();
        proof {
            assert forall|adv: Seq<u64>| #[trigger] satisfied(ops, adv, c2) implies lsb(cell_bytes(adv, delta_cells@)) by {
                assert(cell_bytes(adv, delta_cells@)[0] == adv[delta_cells@[0] as int] as u8);
            }
        }
        proof { lemma_extends_keeps(a1, a2); lemma_extends_trans(a0, a1, a2); }

        let mut wires: Vec<Vec<usize>> = Vec::new();
        let mut i: usize = 0;
        while i < inputs.len()
            invariant
                i <= inputs@.len(),
                inputs_ok(inputs@, circuit.num_inputs as nat, delta@),
                iv == label_views(inputs@),
                wires@.len() == i,
                extends(a0, layouter.advice()),
                byte_cells(layouter.advice(), delta_cells@),
                cell_bytes(layouter.advice(), delta_cells@) == delta@,
                delta_cells@.len() == 16,
                forall|w: int| 0 <= w < i ==> (#[trigger] wires@[w])@.len() == 16
                    && byte_cells(layouter.advice(), wires@[w]@)
                    && cell_bytes(layouter.advice(), wires@[w]@) == iv[w],
                pre ==> satisfied(ops, layouter.advice(), layouter.constraints()),
                ops == meta.ops(),
                layouter.constraints() == c2,
                forall|adv: Seq<u64>| #[trigger] satisfied(ops, adv, c2) ==> lsb(cell_bytes(adv, delta_cells@)),
            decreases inputs@.len() - i,
        {
            let ghost prev = layouter.advice();
            let cells = layouter.assign_bytes(&inputs[i]);
            proof {
                lemma_extends_keeps(prev, layouter.advice());
                lemma_extends_trans(a0, prev, layouter.advice());
                assert forall|w: int| 0 <= w < i implies (#[trigger] wires@[w])@.len() == 16
                    && byte_cells(layouter.advice(), wires@[w]@)
                    && cell_bytes(layouter.advice(), wires@[w]@) == iv[w] by {
                    assert(byte_cells(prev, wires@[w]@));
                }
                if pre {
                    crate::layout::lemma_satisfied_extend(ops, prev, layouter.advice(), layouter.constraints());
                }
            }
            wires.push(cells);
            proof {
                assert(wires@[i as int] == cells);
            }
            i = i + 1;
        }
        assert(garble_spec(gates, 0, iv, delta@).0 == iv);

        let mut k: usize = 0;
        let mut and_idx: usize = 0;
        while k < circuit.gates.len()
            invariant
                k <= gates.len(),
                gates == circuit.gates@,
                enc == circuit.encrypted_gates@,
                wired(gates, circuit.num_inputs as nat),
                fresh_tweaks(gates),
                table_ok(gates, enc),
                wires@.len() == circuit.num_inputs + k,
                iv.len() == circuit.num_inputs,
                and_idx == and_count(gates, k as nat),
                and_idx <= k,
                chip.config() == self.half_gate(),
                xor_chip.config() == self.half_gate().xor_config(),
                self.half_gate().valid(ops),
                ops == meta.ops(),
                extends(a0, layouter.advice()),
                byte_cells(layouter.advice(), delta_cells@),
                cell_bytes(layouter.advice(), delta_cells@) == delta@,
                delta_cells@.len() == 16,
                forall|w: int| 0 <= w < wires@.len() ==> (#[trigger] wires@[w])@.len() == 16
                    && byte_cells(layouter.advice(), wires@[w]@)
                    && cell_bytes(layouter.advice(), wires@[w]@) == garble_spec(gates, k as nat, iv, delta@).0[w],
                forall|adv: Seq<u64>| #[trigger] satisfied(ops, adv, layouter.constraints())
                    ==> garbles(adv, gates, k as nat, circuit.num_inputs as nat, wires@, delta_cells@, enc, and_idx as nat),
                (pre && forall|j: int| 0 <= j < and_idx ==> (#[trigger] enc[j]).t_g@ == garble_spec(gates, k as nat, iv, delta@).1[j].0
                    && enc[j].t_e@ == garble_spec(gates, k as nat, iv, delta@).1[j].1)
                    ==> satisfied(ops, layouter.advice(), layouter.constraints()),
            decreases gates.len() - k,
        {
            let g = circuit.gates[k];
            let ghost prev = layouter.advice();
            let ghost wprev = wires@;
            let ghost cprev = layouter.constraints();
            let ghost lk = garble_spec(gates, k as nat, iv, delta@);
            proof {
                lemma_garble_len(gates, k as nat, iv, delta@);
                lemma_rows_count(gates, k as nat, iv, delta@);
                lemma_rows_count(gates, gates.len(), iv, delta@);
                assert(gates[k as int].x < circuit.num_inputs + k && gates[k as int].y < circuit.num_inputs + k);
                assert(wires@[g.x as int]@.len() == 16 && wires@[g.y as int]@.len() == 16);
            }
            if g.kind == GateKind::Xor {
                let z = xor_chip.xor_block(meta, layouter, &wires[g.x], &wires[g.y]);
                proof {
                    lemma_extends_keeps(prev, layouter.advice());
                    lemma_extends_trans(a0, prev, layouter.advice());
                    assert(cell_bytes(prev, wprev[g.x as int]@) == lk.0[g.x as int]);
                    assert(cell_bytes(prev, wprev[g.y as int]@) == lk.0[g.y as int]);
                    assert(cell_bytes(layouter.advice(), z@) == xor_spec(lk.0[g.x as int], lk.0[g.y as int]));
                }
                wires.push(z);
                proof {
                    let cn = layouter.constraints();
                    assert forall|adv: Seq<u64>| #[trigger] satisfied(ops, adv, cn)
                        implies garbles(adv, gates, (k + 1) as nat, circuit.num_inputs as nat, wires@, delta_cells@, enc, and_idx as nat) by {
                        crate::layout::lemma_satisfied_grows(ops, adv, cprev, cn);
                        assert(garbles(adv, gates, k as nat, circuit.num_inputs as nat, wprev, delta_cells@, enc, and_idx as nat));
                        let wi = witness_inputs(adv, wires@, circuit.num_inputs as nat);
                        assert(wi =~= witness_inputs(adv, wprev, circuit.num_inputs as nat));
                        let d = cell_bytes(adv, delta_cells@);
                        let lka = garble_spec(gates, k as nat, wi, d);
                        let lk1a = garble_spec(gates, (k + 1) as nat, wi, d);
                        lemma_garble_len(gates, k as nat, wi, d);
                        assert(lk1a.0 == lka.0.push(xor_spec(lka.0[g.x as int], lka.0[g.y as int])));
                        assert(lk1a.1 == lka.1);
                        assert(cell_bytes(adv, wprev[g.x as int]@) == lka.0[g.x as int]);
                        assert(cell_bytes(adv, wprev[g.y as int]@) == lka.0[g.y as int]);
                        assert forall|w: int| 0 <= w < wires@.len() implies cell_bytes(adv, (#[trigger] wires@[w])@) == lk1a.0[w] by {
                            if w < wprev.len() {
                                assert(wires@[w] == wprev[w]);
                            }
                        }
                    }
                }
            } else {
                proof {
                    lemma_and_count_mono(gates, (k + 1) as nat, gates.len());
                    assert(gates[k as int].kind == GateKind::And);
                }
                let cells = chip.generate_half_gate(
                    meta,
                    layouter,
                    &wires[g.x],
                    &wires[g.y],
                    &delta_cells,
                    g.gid,
                    &circuit.encrypted_gates[and_idx].t_g,
                    &circuit.encrypted_gates[and_idx].t_e,
                ).unwrap();
                let ghost mid = layouter.advice();
                proof {
                    lemma_extends_keeps(prev, mid);
                    lemma_extends_trans(a0, prev, mid);
                    assert(cell_bytes(prev, wprev[g.x as int]@) == lk.0[g.x as int]);
                    assert(cell_bytes(prev, wprev[g.y as int]@) == lk.0[g.y as int]);
                    assert(lk.1.len() == and_idx);
                    let h = half_gate_spec(lk.0[g.x as int], lk.0[g.y as int], delta@, g.gid);
                    if pre && forall|j: int| 0 <= j < and_idx + 1 ==> (#[trigger] enc[j]).t_g@ == lk.1.push((h.0, h.1))[j].0
                        && enc[j].t_e@ == lk.1.push((h.0, h.1))[j].1 {
                        assert forall|j: int| 0 <= j < and_idx implies (#[trigger] enc[j]).t_g@ == lk.1[j].0
                            && enc[j].t_e@ == lk.1[j].1 by {
                            assert(lk.1.push((h.0, h.1))[j] == lk.1[j]);
                        }
                        assert(enc[and_idx as int].t_g@ == h.0);
                        assert(enc[and_idx as int].t_e@ == h.1);
                    }
                }
                let ghost z0 = cells.z_0@;
                wires.push(cells.z_0);
                proof {
                    let cn = layouter.constraints();
                    assert forall|adv: Seq<u64>| #[trigger] satisfied(ops, adv, cn)
                        implies garbles(adv, gates, (k + 1) as nat, circuit.num_inputs as nat, wires@, delta_cells@, enc, (and_idx + 1) as nat) by {
                        crate::layout::lemma_satisfied_grows(ops, adv, cprev, cn);
                        assert(garbles(adv, gates, k as nat, circuit.num_inputs as nat, wprev, delta_cells@, enc, and_idx as nat));
                        let wi = witness_inputs(adv, wires@, circuit.num_inputs as nat);
                        assert(wi =~= witness_inputs(adv, wprev, circuit.num_inputs as nat));
                        let d = cell_bytes(adv, delta_cells@);
                        let lka = garble_spec(gates, k as nat, wi, d);
                        let lk1a = garble_spec(gates, (k + 1) as nat, wi, d);
                        lemma_garble_len(gates, k as nat, wi, d);
                        lemma_rows_count(gates, k as nat, wi, d);
                        let h = half_gate_spec(lka.0[g.x as int], lka.0[g.y as int], d, g.gid);
                        assert(lk1a.0 == lka.0.push(h.2));
                        assert(lk1a.1 == lka.1.push((h.0, h.1)));
                        assert(cell_bytes(adv, wprev[g.x as int]@) == lka.0[g.x as int]);
                        assert(cell_bytes(adv, wprev[g.y as int]@) == lka.0[g.y as int]);
                        assert(cell_bytes(adv, z0) == h.2);
                        assert forall|w: int| 0 <= w < wires@.len() implies cell_bytes(adv, (#[trigger] wires@[w])@) == lk1a.0[w] by {
                            if w < wprev.len() {
                                assert(wires@[w] == wprev[w]);
                            }
                        }
                        assert forall|j: int| 0 <= j < and_idx + 1 implies (#[trigger] enc[j]).t_g@ == lk1a.1[j].0
                            && enc[j].t_e@ == lk1a.1[j].1 by {
                            if j < and_idx {
                                assert(lk1a.1[j] == lka.1[j]);
                            }
                        }
                    }
                    assert(layouter.advice() == mid);
                    assert(wires@[wprev.len() as int]@ == z0);
                    assert(cell_bytes(layouter.advice(), wires@[wprev.len() as int]@)
                        == half_gate_spec(lk.0[g.x as int], lk.0[g.y as int], delta@, g.gid).2);
                }
                and_idx = and_idx + 1;
            }
            proof {
                let lk1 = garble_spec(gates, (k + 1) as nat, iv, delta@);
                let last = wprev.len() as int;
                assert(cell_bytes(prev, wprev[g.x as int]@) == lk.0[g.x as int]);
                assert(cell_bytes(prev, wprev[g.y as int]@) == lk.0[g.y as int]);
                if g.kind == GateKind::Xor {
                    assert(lk1.0 == lk.0.push(xor_spec(lk.0[g.x as int], lk.0[g.y as int])));
                    assert(lk1.1 == lk.1);
                    assert(cell_bytes(layouter.advice(), wires@[last]@) == lk1.0[last]);
                } else {
                    let h = half_gate_spec(lk.0[g.x as int], lk.0[g.y as int], delta@, g.gid);
                    assert(lk1.0 == lk.0.push(h.2));
                    assert(lk1.1 == lk.1.push((h.0, h.1)));
                    assert(cell_bytes(layouter.advice(), wires@[last]@) == lk1.0[last]);
                }
                assert forall|w: int| 0 <= w < wires@.len() implies (#[trigger] wires@[w])@.len() == 16
                    && byte_cells(layouter.advice(), wires@[w]@)
                    && cell_bytes(layouter.advice(), wires@[w]@) == lk1.0[w] by {
                    if w < wires@.len() - 1 {
                        assert(wires@[w] == wprev[w]);
                        assert(byte_cells(prev, wprev[w]@));
                    }
                }

            }
            k = k + 1;
        }
        proof {
            lemma_rows_count(gates, gates.len(), iv, delta@);
            lemma_garble_len(gates, gates.len(), iv, delta@);
        }
        Ok(GenCells { wires, delta: delta_cells })
    }
}

} // verus!
