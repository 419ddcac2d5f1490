use vstd::prelude::*;
use crate::hash::{tccr, tccr_spec, xor_blocks, xor_spec};
use crate::hash_chip::HashChip;
use crate::layout::{
    byte_cells, cell_bytes, extends, grows, holds, lemma_extends_keeps, lemma_extends_trans,
    lemma_grows_push, lemma_grows_trans, lemma_satisfied_grows,
    lemma_cell_values, lemma_push_extends, lemma_satisfied_push, lemma_satisfied_push_iff, satisfied, Constraint, ConstraintSystem, Layouter,
};
use crate::table::BitOp;
use crate::u8_and_chip::{and_mask_spec, U8AndChip, U8AndConfig};
use crate::u8_xor_chip::{U8XorChip, U8XorConfig};

verus! {

/// The color bit of a block: the lowest bit of its first byte.
pub open spec fn lsb(b: Seq<u8>) -> bool {
    b[0] & 1u8 == 1u8
}

/// `v` where `p` holds, else a block of zeros.
pub open spec fn select_spec(p: bool, v: Seq<u8>) -> Seq<u8> {
    if p {
        v
    } else {
        Seq::new(v.len(), |i: int| 0u8)
    }
}

/// Half-gate garbling of one AND gate. Given the zero-labels `x_0`, `y_0`
/// of its two inputs, the offset `delta` and the tweak `gid`, it gives the
/// rows `t_g`, `t_e` and the zero-label `z_0` of its output wire.
pub open spec fn half_gate_spec(x_0: Seq<u8>, y_0: Seq<u8>, delta: Seq<u8>, gid: u128) -> (Seq<u8>, Seq<u8>, Seq<u8>) {
    let x_1 = xor_spec(x_0, delta);
    let y_1 = xor_spec(y_0, delta);
    let p_a = lsb(x_0);
    let p_b = lsb(y_0);
    let hx_0 = tccr_spec(x_0, gid);
    let hx_1 = tccr_spec(x_1, (gid + 1) as u128);
    let hy_0 = tccr_spec(y_0, gid);
    let hy_1 = tccr_spec(y_1, (gid + 1) as u128);
    let t_g = xor_spec(xor_spec(hx_0, hx_1), select_spec(p_b, delta));
    let w_g = xor_spec(hx_0, select_spec(p_a, t_g));
    let t_e = xor_spec(xor_spec(hy_0, hy_1), x_0);
    let w_e = xor_spec(hy_0, select_spec(p_b, xor_spec(t_e, x_0)));
    (t_g, t_e, xor_spec(w_g, w_e))
}

/// ANDing with the mask made from a byte's lowest bit selects the block or zeros.
pub proof fn lemma_color_mask(v: Seq<u8>, b: u8)
    ensures
        and_mask_spec(v, (255 * ((b & 1u8) as u64)) as u8) == select_spec(b & 1u8 == 1u8, v),
{
    assert((b & 1u8) == 0u8 || (b & 1u8) == 1u8) by (bit_vector);
    if b & 1u8 == 1u8 {
        assert forall|i: int| 0 <= i < v.len() implies #[trigger] v[i] & 255u8 == v[i] by {
            let x = v[i];
            assert(x & 255u8 == x) by (bit_vector);
        }
        assert(and_mask_spec(v, 255u8) =~= v);
    } else {
        assert forall|i: int| 0 <= i < v.len() implies #[trigger] v[i] & 0u8 == 0u8 by {
            let x = v[i];
            assert(x & 0u8 == 0u8) by (bit_vector);
        }
        assert(and_mask_spec(v, 0u8) =~= select_spec(false, v));
    }
}

/// Where a satisfied layout holds a constant cell of 1, a lookup of
/// `d & one` into an AND table and a cell of that result fixed to 1, the
/// lowest bit of cell `d` is 1.
pub proof fn lemma_lsb_enforced(
    ops: Seq<BitOp>,
    adv: Seq<u64>,
    cs: Seq<Constraint>,
    table: usize,
    d: usize,
    one: usize,
    bit: usize,
    i: int,
    j: int,
    k: int,
)
    requires
        satisfied(ops, adv, cs),
        table < ops.len(),
        ops[table as int] == BitOp::And,
        0 <= i < cs.len() && 0 <= j < cs.len() && 0 <= k < cs.len(),
        cs[i] == (Constraint::Fixed { cell: one, value: 1 }),
        cs[j] == (Constraint::Lookup { table, x: d, y: one, z: bit }),
        cs[k] == (Constraint::Fixed { cell: bit, value: 1 }),
    ensures
        d < adv.len(),
        adv[d as int] < 256,
        adv[d as int] as u8 & 1u8 == 1u8,
{
    assert(holds(ops, adv, cs[i]));
    assert(holds(ops, adv, cs[j]));
    assert(holds(ops, adv, cs[k]));
}

/// Garbling depends on the bytes of the labels and offset alone: two layouts
/// whose input cells hold the same bytes derive the same rows and output
/// label, whatever else they hold.
pub proof fn lemma_half_gate_deterministic(
    adv1: Seq<u64>,
    x1: Seq<usize>,
    y1: Seq<usize>,
    d1: Seq<usize>,
    adv2: Seq<u64>,
    x2: Seq<usize>,
    y2: Seq<usize>,
    d2: Seq<usize>,
    gid: u128,
)
    requires
        cell_bytes(adv1, x1) == cell_bytes(adv2, x2),
        cell_bytes(adv1, y1) == cell_bytes(adv2, y2),
        cell_bytes(adv1, d1) == cell_bytes(adv2, d2),
    ensures
        half_gate_spec(cell_bytes(adv1, x1), cell_bytes(adv1, y1), cell_bytes(adv1, d1), gid)
            == half_gate_spec(cell_bytes(adv2, x2), cell_bytes(adv2, y2), cell_bytes(adv2, d2), gid),
{
}

/// The half-gate garbling computed outside any circuit.
pub fn half_gate_reference(x_0: &Vec<u8>, y_0: &Vec<u8>, delta: &Vec<u8>, gid: u128) -> (r: (Vec<u8>, Vec<u8>, Vec<u8>))
    requires
        x_0@.len() == 16,
        y_0@.len() == 16,
        delta@.len() == 16,
        gid < u128::MAX,
    ensures
        (r.0@, r.1@, r.2@) == half_gate_spec(x_0@, y_0@, delta@, gid),
{
    let zero: Vec<u8> = vec![0u8; 16];
    let x_1 = xor_blocks(x_0, delta);
    let y_1 = xor_blocks(y_0, delta);
    let hx_0 = tccr(x_0, gid);
    let hx_1 = tccr(&x_1, gid + 1);
    let hy_0 = tccr(y_0, gid);
    let hy_1 = tccr(&y_1, gid + 1);
    let p_a = x_0[0] & 1 == 1;
    let p_b = y_0[0] & 1 == 1;
    let s_g = xor_blocks(&hx_0, &hx_1);
    let t_g = xor_blocks(&s_g, if p_b { delta } else { &zero });
    let w_g = xor_blocks(&hx_0, if p_a { &t_g } else { &zero });
    let s_e = xor_blocks(&hy_0, &hy_1);
    let t_e = xor_blocks(&s_e, x_0);
    let u_e = xor_blocks(&t_e, x_0);
    let w_e = xor_blocks(&hy_0, if p_b { &u_e } else { &zero });
    let z_0 = xor_blocks(&w_g, &w_e);
    proof {
        assert(zero@ =~= select_spec(false, delta@));
        assert(zero@ =~= select_spec(false, t_g@));
        assert(zero@ =~= select_spec(false, u_e@));
    }
    (t_g, t_e, z_0)
}

/// Why a chip refused its inputs.
#[derive(Clone, Copy, Debug, PartialEq, Eq, Structural)]
pub enum CircuitError {
    /// A label or the offset is not 16 cells or bytes wide.
    WitnessShape,
    /// A gate reads a wire that no input or earlier gate drives.
    UnknownWire,
    /// The committed table does not hold two 16-byte rows per AND gate.
    TableShape,
    /// Two AND gates would share a tweak, or a GateId leaves no room for
    /// its second tweak.
    TweakReuse,
}

/// The cells that the half-gate chip derives for one AND gate.
pub struct HalfGateCells {
    pub t_g: Vec<usize>,
    pub t_e: Vec<usize>,
    pub z_0: Vec<usize>,
}

/// The handles of the byte chips that the half-gate chip builds on.
#[derive(Clone, Copy, Debug)]
pub struct HalfGateConfig {
    u8_xor_config: U8XorConfig,
    u8_and_config: U8AndConfig,
}

impl HalfGateConfig {
    pub closed spec fn xor_config(&self) -> U8XorConfig {
        self.u8_xor_config
    }

    pub closed spec fn and_config(&self) -> U8AndConfig {
        self.u8_and_config
    }

    /// The XOR chip's handle.
    pub fn u8_xor_config(&self) -> (r: U8XorConfig)
        ensures
            r == self.xor_config(),
    {
        self.u8_xor_config
    }

    /// Both byte chips point at tables of the right operation.
    pub open spec fn valid(&self, ops: Seq<BitOp>) -> bool {
        self.xor_config().valid(ops) && self.and_config().valid(ops)
    }
}

/// Recomputes the half-gate garbling of an AND gate in the circuit.
#[derive(Clone, Copy, Debug)]
pub struct HalfGateChip {
    config: HalfGateConfig,
}

/// Assigns a cell fixed to `v`.
fn assign_constant(meta: &ConstraintSystem, layouter: &mut Layouter, v: u64) -> (c: usize)
    ensures
        c == old(layouter).advice().len(),
        final(layouter).advice() == old(layouter).advice().push(v),
        final(layouter).constraints() == old(layouter).constraints().push(Constraint::Fixed { cell: c, value: v }),
        satisfied(meta.ops(), old(layouter).advice(), old(layouter).constraints())
            ==> satisfied(meta.ops(), final(layouter).advice(), final(layouter).constraints()),
        grows(old(layouter).constraints(), final(layouter).constraints()),
        forall|adv: Seq<u64>| #[trigger] satisfied(meta.ops(), adv, final(layouter).constraints())
            ==> c < adv.len() && adv[c as int] == v,
{
    let c = layouter.assign_advice(v);
    let k = Constraint::Fixed { cell: c, value: v };
    proof {
        lemma_push_extends(old(layouter).advice(), v);
        if satisfied(meta.ops(), old(layouter).advice(), old(layouter).constraints()) {
            lemma_satisfied_push(meta.ops(), old(layouter).advice(), layouter.advice(), old(layouter).constraints(), k);
        }
    }
    layouter.constrain(k);
    proof {
        lemma_grows_push(old(layouter).constraints(), k);
        let cf = layouter.constraints();
        assert forall|adv: Seq<u64>| #[trigger] satisfied(meta.ops(), adv, cf) implies c < adv.len() && adv[c as int] == v by {
            assert(cf[cf.len() - 1] == k);
            assert(holds(meta.ops(), adv, cf[cf.len() - 1]));
        }
    }
    c
}

/// Assigns `factor * src` to a new cell, constrained linearly.
fn assign_scaled(meta: &ConstraintSystem, layouter: &mut Layouter, src: usize, factor: u64) -> (c: usize)
    requires
        src < old(layouter).advice().len(),
        old(layouter).advice()[src as int] as int * factor as int <= u64::MAX,
    ensures
        c == old(layouter).advice().len(),
        final(layouter).advice() == old(layouter).advice().push(
            (old(layouter).advice()[src as int] * factor) as u64,
        ),
        final(layouter).constraints() == old(layouter).constraints().push(
            Constraint::Scale { out: c, src, factor },
        ),
        satisfied(meta.ops(), old(layouter).advice(), old(layouter).constraints())
            ==> satisfied(meta.ops(), final(layouter).advice(), final(layouter).constraints()),
        grows(old(layouter).constraints(), final(layouter).constraints()),
        forall|adv: Seq<u64>| #[trigger] satisfied(meta.ops(), adv, final(layouter).constraints())
            ==> c < adv.len() && src < adv.len() && adv[c as int] as int == factor as int * adv[src as int] as int,
{
    let v = layouter.value(src) * factor;
    let c = layouter.assign_advice(v);
    let k = Constraint::Scale { out: c, src, factor };
    proof {
        lemma_push_extends(old(layouter).advice(), v);
        let a = layouter.advice();
        assert(a[src as int] == old(layouter).advice()[src as int]);
        assert(a[c as int] == v);
        assert(a[c as int] as int == factor as int * a[src as int] as int) by (nonlinear_arith)
            requires
                a[c as int] as int == a[src as int] as int * factor as int,
        ;
        assert(holds(meta.ops(), layouter.advice(), k));
        if satisfied(meta.ops(), old(layouter).advice(), old(layouter).constraints()) {
            lemma_satisfied_push(meta.ops(), old(layouter).advice(), layouter.advice(), old(layouter).constraints(), k);
        }
    }
    layouter.constrain(k);
    proof {
        lemma_grows_push(old(layouter).constraints(), k);
        let cf = layouter.constraints();
        assert forall|adv: Seq<u64>| #[trigger] satisfied(meta.ops(), adv, cf)
            implies c < adv.len() && src < adv.len() && adv[c as int] as int == factor as int * adv[src as int] as int by {
            assert(cf[cf.len() - 1] == k);
            assert(holds(meta.ops(), adv, cf[cf.len() - 1]));
        }
    }
    c
}

impl HalfGateChip {
    pub closed spec fn config(&self) -> HalfGateConfig {
        self.config
    }

    pub fn construct(config: HalfGateConfig) -> (r: Self)
        ensures
            r.config() == config,
    {
        Self { config }
    }

    /// Builds the configuration from the byte chips' handles.
    pub fn configure(u8_xor_config: U8XorConfig, u8_and_config: U8AndConfig) -> (r: HalfGateConfig)
        ensures
            r.xor_config() == u8_xor_config,
            r.and_config() == u8_and_config,
    {
        HalfGateConfig { u8_xor_config, u8_and_config }
    }

    /// Constrains the lowest bit of the offset's first byte to 1. The
    /// layout then stays satisfied exactly when that bit is 1.
    pub fn constrain_delta_lsb(&self, meta: &ConstraintSystem, layouter: &mut Layouter, delta: &Vec<usize>) -> (r: Result<(), CircuitError>)
        requires
            self.config().valid(meta.ops()),
            byte_cells(old(layouter).advice(), delta@),
        ensures
            r is Err <==> delta@.len() != 16,
            r is Err ==> r == Err::<(), CircuitError>(CircuitError::WitnessShape) && *final(layouter) == *old(layouter),
            extends(old(layouter).advice(), final(layouter).advice()),
            r is Ok ==> (satisfied(meta.ops(), final(layouter).advice(), final(layouter).constraints())
                <==> satisfied(meta.ops(), final(layouter).advice(), old(layouter).constraints())
                    && lsb(cell_bytes(old(layouter).advice(), delta@))),
            satisfied(meta.ops(), old(layouter).advice(), old(layouter).constraints())
                && lsb(cell_bytes(old(layouter).advice(), delta@))
                ==> satisfied(meta.ops(), final(layouter).advice(), final(layouter).constraints()),
            grows(old(layouter).constraints(), final(layouter).constraints()),
            r is Ok ==> forall|adv: Seq<u64>| #[trigger] satisfied(meta.ops(), adv, final(layouter).constraints())
                ==> delta@[0] < adv.len() && adv[delta@[0] as int] < 256 && adv[delta@[0] as int] as u8 & 1u8 == 1u8,
    {
        if delta.len() != 16 {
            proof {
                let a = layouter.advice();
                assert(a.subrange(0, a.len() as int) =~= a);
                crate::layout::lemma_grows_refl(layouter.constraints());
            }
            return Err(CircuitError::WitnessShape);
        }
        let ghost a0 = layouter.advice();
        let ghost c0 = layouter.constraints();
        let and_chip = U8AndChip::construct(self.config.u8_and_config);
        let one = assign_constant(meta, layouter, 1);
        let ghost a1 = layouter.advice();
        let ghost c1 = layouter.constraints();
        proof { lemma_push_extends(a0, 1); lemma_extends_keeps(a0, a1); }
        let bit = and_chip.and(meta, layouter, delta[0], one);
        let ghost a2 = layouter.advice();
        let ghost c2 = layouter.constraints();
        proof { lemma_push_extends(a1, a2[bit as int]); lemma_extends_keeps(a1, a2); lemma_extends_trans(a0, a1, a2); }
        let k = Constraint::Fixed { cell: bit, value: 1 };
        layouter.constrain(k);
        proof {
            let ops = meta.ops();
            let db = cell_bytes(a0, delta@);
            assert(db[0] == a0[delta@[0] as int] as u8);
            let k1 = Constraint::Fixed { cell: one, value: 1 };
            let k2 = Constraint::Lookup { table: self.config().and_config().table(), x: delta@[0], y: one, z: bit };
            lemma_satisfied_push_iff(ops, a2, c0, k1);
            lemma_satisfied_push_iff(ops, a2, c1, k2);
            lemma_satisfied_push_iff(ops, a2, c2, k);
            assert(holds(ops, a2, k1));
            assert(holds(ops, a2, k2));
            assert(holds(ops, a2, k) <==> lsb(db));
            if satisfied(ops, a0, c0) {
                crate::layout::lemma_satisfied_extend(ops, a0, a2, c0);
            }
            let cf = layouter.constraints();
            assert(cf == c0.push(k1).push(k2).push(k));
            lemma_grows_push(c0, k1);
            lemma_grows_push(c1, k2);
            lemma_grows_push(c2, k);
            lemma_grows_trans(c0, c1, c2);
            lemma_grows_trans(c0, c2, cf);
            assert forall|adv: Seq<u64>| #[trigger] satisfied(ops, adv, cf)
                implies delta@[0] < adv.len() && adv[delta@[0] as int] < 256 && adv[delta@[0] as int] as u8 & 1u8 == 1u8 by {
                lemma_lsb_enforced(ops, adv, cf, self.config().and_config().table(), delta@[0], one, bit,
                    c0.len() as int, c0.len() + 1 as int, c0.len() + 2 as int);
            }
        }
        Ok(())
    }

    /// Lays out the half-gate garbling of one AND gate with tweaks `gid`
    /// and `gid + 1`, from the zero-label cells `x_0`, `y_0` and the offset
    /// cells `delta`. It fixes the offset's color bit to 1 and binds the
    /// derived rows to the committed rows `t_g_pub`, `t_e_pub`. Returns the
    /// cells of both rows and of the output zero-label. Refuses labels or
    /// rows that are not 16 wide.
    pub fn generate_half_gate(
        &self,
        meta: &ConstraintSystem,
        layouter: &mut Layouter,
        x_0: &Vec<usize>,
        y_0: &Vec<usize>,
        delta: &Vec<usize>,
        gid: u128,
        t_g_pub: &Vec<u8>,
        t_e_pub: &Vec<u8>,
    ) -> (r: Result<HalfGateCells, CircuitError>)
        requires
            self.config().valid(meta.ops()),
            gid < u128::MAX,
            byte_cells(old(layouter).advice(), x_0@),
            byte_cells(old(layouter).advice(), y_0@),
            byte_cells(old(layouter).advice(), delta@),
        ensures
            r is Err <==> (x_0@.len() != 16 || y_0@.len() != 16 || delta@.len() != 16
                || t_g_pub@.len() != 16 || t_e_pub@.len() != 16),
            r is Err ==> r == Err::<HalfGateCells, CircuitError>(CircuitError::WitnessShape)
                && *final(layouter) == *old(layouter),
            extends(old(layouter).advice(), final(layouter).advice()),
            grows(old(layouter).constraints(), final(layouter).constraints()),
            ({
                let (t_g, t_e, z_0) = half_gate_spec(
                    cell_bytes(old(layouter).advice(), x_0@),
                    cell_bytes(old(layouter).advice(), y_0@),
                    cell_bytes(old(layouter).advice(), delta@),
                    gid,
                );
                &&& satisfied(meta.ops(), old(layouter).advice(), old(layouter).constraints())
                    && lsb(cell_bytes(old(layouter).advice(), delta@))
                    && t_g_pub@ == t_g && t_e_pub@ == t_e
                    ==> satisfied(meta.ops(), final(layouter).advice(), final(layouter).constraints())
                &&& r is Ok && satisfied(meta.ops(), old(layouter).advice(), old(layouter).constraints())
                    ==> (satisfied(meta.ops(), final(layouter).advice(), final(layouter).constraints())
                        <==> lsb(cell_bytes(old(layouter).advice(), delta@)) && t_g_pub@ == t_g && t_e_pub@ == t_e)
            }),
            r matches Ok(c) ==> {
                let (t_g, t_e, z_0) = half_gate_spec(
                    cell_bytes(old(layouter).advice(), x_0@),
                    cell_bytes(old(layouter).advice(), y_0@),
                    cell_bytes(old(layouter).advice(), delta@),
                    gid,
                );
                &&& c.t_g@.len() == 16 && c.t_e@.len() == 16 && c.z_0@.len() == 16
                &&& byte_cells(final(layouter).advice(), c.t_g@)
                &&& byte_cells(final(layouter).advice(), c.t_e@)
                &&& byte_cells(final(layouter).advice(), c.z_0@)
                &&& cell_bytes(final(layouter).advice(), c.t_g@) == t_g
                &&& cell_bytes(final(layouter).advice(), c.t_e@) == t_e
                &&& cell_bytes(final(layouter).advice(), c.z_0@) == z_0
            },
            r matches Ok(c) ==> forall|adv: Seq<u64>| #[trigger] satisfied(meta.ops(), adv, final(layouter).constraints())
                ==> {
                    let (t_g, t_e, z_0) = half_gate_spec(
                        cell_bytes(adv, x_0@),
                        cell_bytes(adv, y_0@),
                        cell_bytes(adv, delta@),
                        gid,
                    );
                    &&& byte_cells(adv, x_0@) && byte_cells(adv, y_0@) && byte_cells(adv, delta@)
                    &&& lsb(cell_bytes(adv, delta@))
                    &&& t_g_pub@ == t_g && t_e_pub@ == t_e
                    &&& byte_cells(adv, c.t_g@) && byte_cells(adv, c.t_e@) && byte_cells(adv, c.z_0@)
                    &&& cell_bytes(adv, c.t_g@) == t_g
                    &&& cell_bytes(adv, c.t_e@) == t_e
                    &&& cell_bytes(adv, c.z_0@) == z_0
                },
    {
        if x_0.len() != 16 || y_0.len() != 16 || delta.len() != 16 || t_g_pub.len() != 16 || t_e_pub.len() != 16 {
            proof {
                let a = layouter.advice();
                assert(a.subrange(0, a.len() as int) =~= a);
                crate::layout::lemma_grows_refl(layouter.constraints());
            }
            return Err(CircuitError::WitnessShape);
        }
        let ghost ops = meta.ops();
        let ghost a0 = layouter.advice();
        let ghost c0 = layouter.constraints();
        let _ = self.constrain_delta_lsb(meta, layouter, delta);
        let ghost a1 = layouter.advice();
        let ghost c1 = layouter.constraints();
        proof { lemma_extends_keeps(a0, a1); }
        let cells = self.derive_half_gate(meta, layouter, x_0, y_0, delta, gid).unwrap();
        let ghost a2 = layouter.advice();
        let ghost c2 = layouter.constraints();
        proof { lemma_extends_trans(a0, a1, a2); lemma_grows_trans(c0, c1, c2); }
        layouter.constrain_bytes(&cells.t_g, t_g_pub);
        let ghost c3 = layouter.constraints();
        layouter.constrain_bytes(&cells.t_e, t_e_pub);
        let ghost c4 = layouter.constraints();
        proof {
            lemma_grows_trans(c0, c2, c3);
            lemma_grows_trans(c0, c3, c4);
            let spec = half_gate_spec(cell_bytes(a0, x_0@), cell_bytes(a0, y_0@), cell_bytes(a0, delta@), gid);
            assert(cell_bytes(a1, x_0@) == cell_bytes(a0, x_0@));
            assert(cell_bytes(a1, y_0@) == cell_bytes(a0, y_0@));
            assert(cell_bytes(a1, delta@) == cell_bytes(a0, delta@));
            assert(cell_bytes(a0, delta@)[0] == a0[delta@[0] as int] as u8);
            if satisfied(ops, a0, c0) && lsb(cell_bytes(a0, delta@)) && t_g_pub@ == spec.0 && t_e_pub@ == spec.1 {
                lemma_cell_values(a2, cells.t_g@, t_g_pub@);
                lemma_cell_values(a2, cells.t_e@, t_e_pub@);
                assert(satisfied(ops, a2, c3));
            }
            if satisfied(ops, a2, c4) {
                assert(satisfied(ops, a2, c3));
                assert(satisfied(ops, a2, c2));
                crate::layout::lemma_satisfied_grows(ops, a2, c1, c2);
                lemma_extends_keeps(a0, a2);
                assert(a2[delta@[0] as int] == a0[delta@[0] as int]);
                assert(cell_bytes(a2, cells.t_g@) =~= t_g_pub@);
                assert(cell_bytes(a2, cells.t_e@) =~= t_e_pub@);
            }
            assert forall|adv: Seq<u64>| #[trigger] satisfied(ops, adv, c4) implies ({
                let (sg, se, sz) = half_gate_spec(cell_bytes(adv, x_0@), cell_bytes(adv, y_0@), cell_bytes(adv, delta@), gid);
                &&& lsb(cell_bytes(adv, delta@))
                &&& t_g_pub@ == sg && t_e_pub@ == se
            }) by {
                assert(satisfied(ops, adv, c3));
                assert(satisfied(ops, adv, c2));
                crate::layout::lemma_satisfied_grows(ops, adv, c1, c2);
                assert(cell_bytes(adv, delta@)[0] == adv[delta@[0] as int] as u8);
                assert(cell_bytes(adv, cells.t_g@) =~= t_g_pub@);
                assert(cell_bytes(adv, cells.t_e@) =~= t_e_pub@);
            }
            assert forall|adv: Seq<u64>| #[trigger] satisfied(ops, adv, c4) implies satisfied(ops, adv, c2) by {
                assert(satisfied(ops, adv, c3));
            }
        }
        Ok(cells)
    }

    /// Lays out the derivation of both garbled rows and the output
    /// zero-label of one AND gate from the zero-label cells `x_0`, `y_0` and
    /// the offset cells `delta`, with tweaks `gid` and `gid + 1`.
    #[verifier::rlimit(60)]
    fn derive_half_gate(
        &self,
        meta: &ConstraintSystem,
        layouter: &mut Layouter,
        x_0: &Vec<usize>,
        y_0: &Vec<usize>,
        delta: &Vec<usize>,
        gid: u128,
    ) -> (r: Result<HalfGateCells, CircuitError>)
        requires
            self.config().valid(meta.ops()),
            gid < u128::MAX,
            byte_cells(old(layouter).advice(), x_0@),
            byte_cells(old(layouter).advice(), y_0@),
            byte_cells(old(layouter).advice(), delta@),
        ensures
            r is Err <==> (x_0@.len() != 16 || y_0@.len() != 16 || delta@.len() != 16),
            r is Err ==> r == Err::<HalfGateCells, CircuitError>(CircuitError::WitnessShape)
                && *final(layouter) == *old(layouter),
            extends(old(layouter).advice(), final(layouter).advice()),
            grows(old(layouter).constraints(), final(layouter).constraints()),
            satisfied(meta.ops(), old(layouter).advice(), old(layouter).constraints())
                ==> satisfied(meta.ops(), final(layouter).advice(), final(layouter).constraints()),
            r matches Ok(c) ==> {
                let (t_g, t_e, z_0) = half_gate_spec(
                    cell_bytes(old(layouter).advice(), x_0@),
                    cell_bytes(old(layouter).advice(), y_0@),
                    cell_bytes(old(layouter).advice(), delta@),
                    gid,
                );
                &&& c.t_g@.len() == 16 && c.t_e@.len() == 16 && c.z_0@.len() == 16
                &&& byte_cells(final(layouter).advice(), c.t_g@)
                &&& byte_cells(final(layouter).advice(), c.t_e@)
                &&& byte_cells(final(layouter).advice(), c.z_0@)
                &&& cell_bytes(final(layouter).advice(), c.t_g@) == t_g
                &&& cell_bytes(final(layouter).advice(), c.t_e@) == t_e
                &&& cell_bytes(final(layouter).advice(), c.z_0@) == z_0
            },
            r matches Ok(c) ==> forall|adv: Seq<u64>| #[trigger] satisfied(meta.ops(), adv, final(layouter).constraints())
                ==> {
                    let (t_g, t_e, z_0) = half_gate_spec(
                        cell_bytes(adv, x_0@),
                        cell_bytes(adv, y_0@),
                        cell_bytes(adv, delta@),
                        gid,
                    );
                    &&& byte_cells(adv, x_0@) && byte_cells(adv, y_0@) && byte_cells(adv, delta@)
                    &&& byte_cells(adv, c.t_g@) && byte_cells(adv, c.t_e@) && byte_cells(adv, c.z_0@)
                    &&& cell_bytes(adv, c.t_g@) == t_g
                    &&& cell_bytes(adv, c.t_e@) == t_e
                    &&& cell_bytes(adv, c.z_0@) == z_0
                },
    {
        if x_0.len() != 16 || y_0.len() != 16 || delta.len() != 16 {
            proof {
                let a = layouter.advice();
                assert(a.subrange(0, a.len() as int) =~= a);
                crate::layout::lemma_grows_refl(layouter.constraints());
            }
            return Err(CircuitError::WitnessShape);
        }
        let ghost a0 = layouter.advice();
        let ghost c0 = layouter.constraints();
        proof { crate::layout::lemma_grows_refl(c0); }
        let ghost xb = cell_bytes(a0, x_0@);
        let ghost yb = cell_bytes(a0, y_0@);
        let ghost db = cell_bytes(a0, delta@);
        let xor_chip = U8XorChip::construct(self.config.u8_xor_config);
        let and_chip = U8AndChip::construct(self.config.u8_and_config);
        let hash_chip = HashChip::construct();

        // Labels of the true values.
        let x_1 = xor_chip.xor_block(meta, layouter, x_0, delta);
        let ghost a1 = layouter.advice();
        let ghost c1 = layouter.constraints();
        proof { lemma_grows_trans(c0, c0, c1); lemma_extends_keeps(a0, a1); }
        let y_1 = xor_chip.xor_block(meta, layouter, y_0, delta);
        let ghost a2 = layouter.advice();
        let ghost c2 = layouter.constraints();
        proof { lemma_grows_trans(c0, c1, c2); lemma_extends_keeps(a1, a2); lemma_extends_trans(a0, a1, a2); lemma_extends_keeps(a0, a2); }

        // Color bits, and the masks that select by them.
        let one = assign_constant(meta, layouter, 1);
        let ghost a3 = layouter.advice();
        let ghost c3 = layouter.constraints();
        proof { lemma_grows_trans(c0, c2, c3); lemma_push_extends(a2, 1); lemma_extends_keeps(a2, a3); lemma_extends_trans(a0, a2, a3); lemma_extends_keeps(a0, a3); }
        let p_a = and_chip.and(meta, layouter, x_0[0], one);
        let ghost a4 = layouter.advice();
        let ghost c4 = layouter.constraints();
        proof { lemma_grows_trans(c0, c3, c4); lemma_push_extends(a3, a4[p_a as int]); lemma_extends_keeps(a3, a4); lemma_extends_trans(a0, a3, a4); lemma_extends_keeps(a0, a4); }
        let p_b = and_chip.and(meta, layouter, y_0[0], one);
        let ghost a5 = layouter.advice();
        let ghost c5 = layouter.constraints();
        proof {
            lemma_grows_trans(c0, c4, c5);
            lemma_push_extends(a4, a5[p_b as int]); lemma_extends_keeps(a4, a5); lemma_extends_trans(a0, a4, a5); lemma_extends_keeps(a0, a5);
            assert(xb[0] == a0[x_0@[0] as int] as u8);
            assert(yb[0] == a0[y_0@[0] as int] as u8);
            let bx = xb[0];
            let by_ = yb[0];
            assert((bx & 1u8) as u64 <= 1) by (bit_vector);
            assert((by_ & 1u8) as u64 <= 1) by (bit_vector);
        }
        let m_a = assign_scaled(meta, layouter, p_a, 255);
        let ghost a6 = layouter.advice();
        let ghost c6 = layouter.constraints();
        proof { lemma_grows_trans(c0, c5, c6); lemma_push_extends(a5, a6[m_a as int]); lemma_extends_keeps(a5, a6); lemma_extends_trans(a0, a5, a6); lemma_extends_keeps(a0, a6); }
        let m_b = assign_scaled(meta, layouter, p_b, 255);
        let ghost a7 = layouter.advice();
        let ghost c7 = layouter.constraints();
        proof {
            lemma_grows_trans(c0, c6, c7);
            lemma_push_extends(a6, a7[m_b as int]); lemma_extends_keeps(a6, a7); lemma_extends_trans(a0, a6, a7); lemma_extends_keeps(a0, a7);
            assert(a7[m_a as int] == 255 * ((xb[0] & 1u8) as u64));
            assert(a7[m_b as int] == 255 * ((yb[0] & 1u8) as u64));
        }

        // The four hashes.
        let hx_0 = hash_chip.hash(meta, layouter, x_0, gid);
        let ghost a8 = layouter.advice();
        let ghost c8 = layouter.constraints();
        proof { lemma_grows_trans(c0, c7, c8); lemma_extends_keeps(a7, a8); lemma_extends_trans(a0, a7, a8); }
        let hx_1 = hash_chip.hash(meta, layouter, &x_1, gid + 1);
        let ghost a9 = layouter.advice();
        let ghost c9 = layouter.constraints();
        proof { lemma_grows_trans(c0, c8, c9); lemma_extends_keeps(a8, a9); lemma_extends_trans(a0, a8, a9); }
        let hy_0 = hash_chip.hash(meta, layouter, y_0, gid);
        let ghost a10 = layouter.advice();
        let ghost c10 = layouter.constraints();
        proof { lemma_grows_trans(c0, c9, c10); lemma_extends_keeps(a9, a10); lemma_extends_trans(a0, a9, a10); }
        let hy_1 = hash_chip.hash(meta, layouter, &y_1, gid + 1);
        let ghost a11 = layouter.advice();
        let ghost c11 = layouter.constraints();
        proof { lemma_grows_trans(c0, c10, c11); lemma_extends_keeps(a10, a11); lemma_extends_trans(a0, a10, a11); }

        // Garbler's row.
        let s_g = xor_chip.xor_block(meta, layouter, &hx_0, &hx_1);
        let ghost a12 = layouter.advice();
        let ghost c12 = layouter.constraints();
        proof { lemma_grows_trans(c0, c11, c12); lemma_extends_keeps(a11, a12); lemma_extends_trans(a0, a11, a12); }
        let d_b = and_chip.and_mask(meta, layouter, delta, m_b);
        let ghost a13 = layouter.advice();
        let ghost c13 = layouter.constraints();
        proof { lemma_grows_trans(c0, c12, c13); lemma_extends_keeps(a12, a13); lemma_extends_trans(a0, a12, a13); }
        let t_g = xor_chip.xor_block(meta, layouter, &s_g, &d_b);
        let ghost a14 = layouter.advice();
        let ghost c14 = layouter.constraints();
        proof { lemma_grows_trans(c0, c13, c14); lemma_extends_keeps(a13, a14); lemma_extends_trans(a0, a13, a14); }
        let g_a = and_chip.and_mask(meta, layouter, &t_g, m_a);
        let ghost a15 = layouter.advice();
        let ghost c15 = layouter.constraints();
        proof { lemma_grows_trans(c0, c14, c15); lemma_extends_keeps(a14, a15); lemma_extends_trans(a0, a14, a15); }
        let w_g = xor_chip.xor_block(meta, layouter, &hx_0, &g_a);
        let ghost a16 = layouter.advice();
        let ghost c16 = layouter.constraints();
        proof { lemma_grows_trans(c0, c15, c16); lemma_extends_keeps(a15, a16); lemma_extends_trans(a0, a15, a16); }

        // Evaluator's row.
        let s_e = xor_chip.xor_block(meta, layouter, &hy_0, &hy_1);
        let ghost a17 = layouter.advice();
        let ghost c17 = layouter.constraints();
        proof { lemma_grows_trans(c0, c16, c17); lemma_extends_keeps(a16, a17); lemma_extends_trans(a0, a16, a17); }
        let t_e = xor_chip.xor_block(meta, layouter, &s_e, x_0);
        let ghost a18 = layouter.advice();
        let ghost c18 = layouter.constraints();
        proof { lemma_grows_trans(c0, c17, c18); lemma_extends_keeps(a17, a18); lemma_extends_trans(a0, a17, a18); }
        let u_e = xor_chip.xor_block(meta, layouter, &t_e, x_0);
        let ghost a19 = layouter.advice();
        let ghost c19 = layouter.constraints();
        proof { lemma_grows_trans(c0, c18, c19); lemma_extends_keeps(a18, a19); lemma_extends_trans(a0, a18, a19); }
        let e_b = and_chip.and_mask(meta, layouter, &u_e, m_b);
        let ghost a20 = layouter.advice();
        let ghost c20 = layouter.constraints();
        proof { lemma_grows_trans(c0, c19, c20); lemma_extends_keeps(a19, a20); lemma_extends_trans(a0, a19, a20); }
        let w_e = xor_chip.xor_block(meta, layouter, &hy_0, &e_b);
        let ghost a21 = layouter.advice();
        let ghost c21 = layouter.constraints();
        proof { lemma_grows_trans(c0, c20, c21); lemma_extends_keeps(a20, a21); lemma_extends_trans(a0, a20, a21); }

        // Output zero-label.
        let z_0 = xor_chip.xor_block(meta, layouter, &w_g, &w_e);
        let ghost a22 = layouter.advice();
        let ghost c22 = layouter.constraints();
        proof {
            lemma_grows_trans(c0, c21, c22);
            lemma_extends_keeps(a21, a22);
            lemma_extends_trans(a0, a21, a22);
            lemma_color_mask(db, yb[0]);
            lemma_color_mask(cell_bytes(a14, t_g@), xb[0]);
            lemma_color_mask(cell_bytes(a19, u_e@), yb[0]);
            let ops = meta.ops();
            assert forall|adv: Seq<u64>| #[trigger] satisfied(ops, adv, c22) implies ({
                let (sg, se, sz) = half_gate_spec(
                    cell_bytes(adv, x_0@),
                    cell_bytes(adv, y_0@),
                    cell_bytes(adv, delta@),
                    gid,
                );
                &&& byte_cells(adv, x_0@) && byte_cells(adv, y_0@) && byte_cells(adv, delta@)
                &&& byte_cells(adv, t_g@) && byte_cells(adv, t_e@) && byte_cells(adv, z_0@)
                &&& cell_bytes(adv, t_g@) == sg
                &&& cell_bytes(adv, t_e@) == se
                &&& cell_bytes(adv, z_0@) == sz
            }) by {
                crate::layout::lemma_satisfied_grows(ops, adv, c21, c22);
                crate::layout::lemma_satisfied_grows(ops, adv, c20, c21);
                crate::layout::lemma_satisfied_grows(ops, adv, c19, c20);
                crate::layout::lemma_satisfied_grows(ops, adv, c18, c19);
                crate::layout::lemma_satisfied_grows(ops, adv, c17, c18);
                crate::layout::lemma_satisfied_grows(ops, adv, c16, c17);
                crate::layout::lemma_satisfied_grows(ops, adv, c15, c16);
                crate::layout::lemma_satisfied_grows(ops, adv, c14, c15);
                crate::layout::lemma_satisfied_grows(ops, adv, c13, c14);
                crate::layout::lemma_satisfied_grows(ops, adv, c12, c13);
                crate::layout::lemma_satisfied_grows(ops, adv, c11, c12);
                crate::layout::lemma_satisfied_grows(ops, adv, c10, c11);
                crate::layout::lemma_satisfied_grows(ops, adv, c9, c10);
                crate::layout::lemma_satisfied_grows(ops, adv, c8, c9);
                crate::layout::lemma_satisfied_grows(ops, adv, c7, c8);
                crate::layout::lemma_satisfied_grows(ops, adv, c6, c7);
                crate::layout::lemma_satisfied_grows(ops, adv, c5, c6);
                crate::layout::lemma_satisfied_grows(ops, adv, c4, c5);
                crate::layout::lemma_satisfied_grows(ops, adv, c3, c4);
                crate::layout::lemma_satisfied_grows(ops, adv, c2, c3);
                crate::layout::lemma_satisfied_grows(ops, adv, c1, c2);
                crate::layout::lemma_satisfied_grows(ops, adv, c0, c1);
                let xw = cell_bytes(adv, x_0@);
                let yw = cell_bytes(adv, y_0@);
                let dw = cell_bytes(adv, delta@);
                assert(xw[0] == adv[x_0@[0] as int] as u8);
                assert(yw[0] == adv[y_0@[0] as int] as u8);
                let bx = xw[0];
                let by_ = yw[0];
                assert((bx & 1u8) as u64 <= 1) by (bit_vector);
                assert((by_ & 1u8) as u64 <= 1) by (bit_vector);
                assert(adv[m_a as int] == 255 * ((xw[0] & 1u8) as u64));
                assert(adv[m_b as int] == 255 * ((yw[0] & 1u8) as u64));
                lemma_color_mask(dw, yw[0]);
                lemma_color_mask(cell_bytes(adv, t_g@), xw[0]);
                lemma_color_mask(cell_bytes(adv, u_e@), yw[0]);
            }
        }
        Ok(HalfGateCells { t_g, t_e, z_0 })
    }
}

} // verus!
