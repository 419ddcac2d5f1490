use vstd::prelude::*;
use crate::hash::xor_spec;
use crate::layout::{
    byte_cells, cell_bytes, grows, lemma_cells_extend, lemma_extends_trans, lemma_grows_push,
    lemma_grows_trans,
    extends, holds, lemma_push_extends, lemma_satisfied_push, satisfied, Constraint,
    ConstraintSystem, Layouter,
};
use crate::table::{op_spec, BitOp};

verus! {

/// Where the AND chip's lookup goes: the index of the XOR table.
#[derive(Clone, Copy, Debug)]
pub struct U8XorConfig {
    table: usize,
}

impl U8XorConfig {
    pub closed spec fn table(&self) -> usize {
        self.table
    }

    /// The configuration names an XOR table of `ops`.
    pub open spec fn valid(&self, ops: Seq<BitOp>) -> bool {
        self.table() < ops.len() && ops[self.table() as int] == BitOp::Xor
    }
}

/// Cell `j` of `zs` is forced to the XOR of cell `j` of `xs` and `ys`.
pub open spec fn xor_pinned(adv: Seq<u64>, xs: Seq<usize>, ys: Seq<usize>, zs: Seq<usize>, j: int) -> bool {
    &&& xs[j] < adv.len() && ys[j] < adv.len() && zs[j] < adv.len()
    &&& adv[xs[j] as int] < 256 && adv[ys[j] as int] < 256
    &&& adv[zs[j] as int] == (adv[xs[j] as int] as u8 ^ adv[ys[j] as int] as u8) as u64
}

/// Enforces `z == x ^ y` on byte cells by a lookup into the XOR table.
#[derive(Clone, Copy, Debug)]
pub struct U8XorChip {
    config: U8XorConfig,
}

impl U8XorChip {
    pub closed spec fn config(&self) -> U8XorConfig {
        self.config
    }

    pub fn construct(config: U8XorConfig) -> (r: Self)
        ensures
            r.config() == config,
    {
        Self { config }
    }

    /// Registers the exhaustive XOR table.
    pub fn configure(meta: &mut ConstraintSystem) -> (r: U8XorConfig)
        requires
            old(meta).wf(),
        ensures
            final(meta).wf(),
            final(meta).ops() == old(meta).ops().push(BitOp::Xor),
            r.valid(final(meta).ops()),
            r.table() == old(meta).ops().len(),
    {
        let table = meta.lookup_table(BitOp::Xor);
        U8XorConfig { table }
    }

    /// Assigns `x ^ y` to a new cell and constrains it by lookup.
    pub fn xor(&self, meta: &ConstraintSystem, layouter: &mut Layouter, x: usize, y: usize) -> (z: usize)
        requires
            self.config().valid(meta.ops()),
            x < old(layouter).advice().len(),
            y < old(layouter).advice().len(),
        ensures
            z == old(layouter).advice().len(),
            final(layouter).advice() == old(layouter).advice().push(
                old(layouter).advice()[x as int] ^ old(layouter).advice()[y as int],
            ),
            old(layouter).advice()[x as int] < 256 && old(layouter).advice()[y as int] < 256
                ==> old(layouter).advice()[x as int] ^ old(layouter).advice()[y as int]
                    == (old(layouter).advice()[x as int] as u8 ^ old(layouter).advice()[y as int] as u8) as u64,
            final(layouter).constraints() == old(layouter).constraints().push(
                Constraint::Lookup { table: self.config().table(), x, y, z },
            ),
            grows(old(layouter).constraints(), final(layouter).constraints()),
            satisfied(meta.ops(), old(layouter).advice(), old(layouter).constraints())
                && old(layouter).advice()[x as int] < 256 && old(layouter).advice()[y as int] < 256
                ==> satisfied(meta.ops(), final(layouter).advice(), final(layouter).constraints()),
            forall|adv: Seq<u64>| #[trigger] satisfied(meta.ops(), adv, final(layouter).constraints())
                ==> x < adv.len() && y < adv.len() && z < adv.len() && adv[x as int] < 256 && adv[y as int] < 256
                    && adv[z as int] == (adv[x as int] as u8 ^ adv[y as int] as u8) as u64,
    {
        let v = xor_bytes(layouter.value(x), layouter.value(y));
        let z = layouter.assign_advice(v);
        let c = Constraint::Lookup { table: self.config.table, x, y, z };
        proof {
            lemma_push_extends(old(layouter).advice(), v);
            if satisfied(meta.ops(), old(layouter).advice(), old(layouter).constraints())
                && old(layouter).advice()[x as int] < 256 && old(layouter).advice()[y as int] < 256 {
                assert(holds(meta.ops(), layouter.advice(), c));
                lemma_satisfied_push(meta.ops(), old(layouter).advice(), layouter.advice(), old(layouter).constraints(), c);
            }
        }
        layouter.constrain(c);
        proof {
            lemma_grows_push(old(layouter).constraints(), c);
            let cf = layouter.constraints();
            assert forall|adv: Seq<u64>| #[trigger] satisfied(meta.ops(), adv, cf)
                implies x < adv.len() && y < adv.len() && z < adv.len() && adv[x as int] < 256 && adv[y as int] < 256
                    && adv[z as int] == (adv[x as int] as u8 ^ adv[y as int] as u8) as u64 by {
                assert(cf[cf.len() - 1] == c);
                assert(holds(meta.ops(), adv, cf[cf.len() - 1]));
            }
        }
        z
    }

    /// XORs two blocks of byte cells, one lookup per byte.
    pub fn xor_block(
        &self,
        meta: &ConstraintSystem,
        layouter: &mut Layouter,
        xs: &Vec<usize>,
        ys: &Vec<usize>,
    ) -> (zs: Vec<usize>)
        requires
            self.config().valid(meta.ops()),
            xs@.len() == ys@.len(),
            byte_cells(old(layouter).advice(), xs@),
            byte_cells(old(layouter).advice(), ys@),
        ensures
            zs@.len() == xs@.len(),
            extends(old(layouter).advice(), final(layouter).advice()),
            grows(old(layouter).constraints(), final(layouter).constraints()),
            byte_cells(final(layouter).advice(), zs@),
            cell_bytes(final(layouter).advice(), zs@) == xor_spec(
                cell_bytes(old(layouter).advice(), xs@),
                cell_bytes(old(layouter).advice(), ys@),
            ),
            satisfied(meta.ops(), old(layouter).advice(), old(layouter).constraints())
                ==> satisfied(meta.ops(), final(layouter).advice(), final(layouter).constraints()),
            forall|adv: Seq<u64>| #[trigger] satisfied(meta.ops(), adv, final(layouter).constraints())
                ==> byte_cells(adv, xs@) && byte_cells(adv, ys@) && byte_cells(adv, zs@) && cell_bytes(adv, zs@) == xor_spec(cell_bytes(adv, xs@), cell_bytes(adv, ys@)),
    {
        let ghost a0 = old(layouter).advice();
        let ghost xb = cell_bytes(a0, xs@);
        let ghost yb = cell_bytes(a0, ys@);
        let mut zs: Vec<usize> = Vec::new();
        let mut i: usize = 0;
        proof {
            assert(a0.subrange(0, a0.len() as int) =~= a0);
            crate::layout::lemma_grows_refl(layouter.constraints());
        }
        while i < xs.len()
            invariant
                self.config().valid(meta.ops()),
                xs@.len() == ys@.len(),
                i <= xs@.len(),
                zs@.len() == i,
                a0 == old(layouter).advice(),
                xb == cell_bytes(a0, xs@),
                yb == cell_bytes(a0, ys@),
                extends(a0, layouter.advice()),
                grows(old(layouter).constraints(), layouter.constraints()),
                byte_cells(layouter.advice(), xs@),
                byte_cells(layouter.advice(), ys@),
                cell_bytes(layouter.advice(), xs@) == xb,
                cell_bytes(layouter.advice(), ys@) == yb,
                forall|j: int| 0 <= j < i ==> #[trigger] zs@[j] < layouter.advice().len()
                    && layouter.advice()[zs@[j] as int] == (xb[j] ^ yb[j]) as u64,
                satisfied(meta.ops(), a0, old(layouter).constraints())
                    ==> satisfied(meta.ops(), layouter.advice(), layouter.constraints()),
                forall|adv: Seq<u64>| #[trigger] satisfied(meta.ops(), adv, layouter.constraints())
                    ==> forall|j: int| 0 <= j < i ==> #[trigger] xor_pinned(adv, xs@, ys@, zs@, j),
            decreases xs@.len() - i,
        {
            let ghost prev = layouter.advice();
            let ghost cprev = layouter.constraints();
            proof {
                assert(cell_bytes(prev, xs@)[i as int] == xb[i as int]);
                assert(cell_bytes(prev, ys@)[i as int] == yb[i as int]);
                assert(xs@[i as int] < prev.len() && prev[xs@[i as int] as int] < 256);
                assert(ys@[i as int] < prev.len() && prev[ys@[i as int] as int] < 256);
            }
            let ghost zprev = zs@;
            let z = self.xor(meta, layouter, xs[i], ys[i]);
            proof {
                lemma_push_extends(prev, layouter.advice()[z as int]);
                lemma_extends_trans(a0, prev, layouter.advice());
                lemma_grows_push(cprev, layouter.constraints().last());
                lemma_grows_trans(old(layouter).constraints(), cprev, layouter.constraints());
                lemma_cells_extend(prev, layouter.advice(), xs@);
                lemma_cells_extend(prev, layouter.advice(), ys@);
                assert forall|j: int| 0 <= j < i implies #[trigger] zs@[j] < layouter.advice().len()
                    && layouter.advice()[zs@[j] as int] == (xb[j] ^ yb[j]) as u64 by {
                    assert(layouter.advice()[zs@[j] as int] == prev[zs@[j] as int]);
                }
            }
            zs.push(z);
            proof {
                let cf = layouter.constraints();
                assert forall|adv: Seq<u64>| #[trigger] satisfied(meta.ops(), adv, cf)
                    implies forall|j: int| 0 <= j < i + 1 ==> #[trigger] xor_pinned(adv, xs@, ys@, zs@, j) by {
                    crate::layout::lemma_satisfied_grows(meta.ops(), adv, cprev, cf);
                    assert(forall|j: int| 0 <= j < i ==> #[trigger] xor_pinned(adv, xs@, ys@, zprev, j));
                    assert forall|j: int| 0 <= j < i + 1 implies #[trigger] xor_pinned(adv, xs@, ys@, zs@, j) by {
                        if j < i {
                            assert(xor_pinned(adv, xs@, ys@, zprev, j));
                        }
                    }
                }
            }
            i = i + 1;
        }
        assert(cell_bytes(layouter.advice(), zs@) =~= xor_spec(xb, yb));
        proof {
            let cf = layouter.constraints();
            assert forall|adv: Seq<u64>| #[trigger] satisfied(meta.ops(), adv, cf)
                implies byte_cells(adv, xs@) && byte_cells(adv, ys@) && byte_cells(adv, zs@) && cell_bytes(adv, zs@) == xor_spec(cell_bytes(adv, xs@), cell_bytes(adv, ys@)) by {
                assert(forall|j: int| 0 <= j < xs@.len() ==> #[trigger] xor_pinned(adv, xs@, ys@, zs@, j));
                assert forall|j: int| 0 <= j < xs@.len() implies #[trigger] xs@[j] < adv.len() && adv[xs@[j] as int] < 256 by {
                    assert(xor_pinned(adv, xs@, ys@, zs@, j));
                }
                assert forall|j: int| 0 <= j < zs@.len() implies #[trigger] zs@[j] < adv.len() && adv[zs@[j] as int] < 256 by {
                    assert(xor_pinned(adv, xs@, ys@, zs@, j));
                }
                assert forall|j: int| 0 <= j < ys@.len() implies #[trigger] ys@[j] < adv.len() && adv[ys@[j] as int] < 256 by {
                    assert(xor_pinned(adv, xs@, ys@, zs@, j));
                }
                assert forall|j: int| 0 <= j < zs@.len() implies #[trigger] cell_bytes(adv, zs@)[j] == (xor_spec(cell_bytes(adv, xs@), cell_bytes(adv, ys@)))[j] by {
                    assert(xor_pinned(adv, xs@, ys@, zs@, j));
                }
                assert(cell_bytes(adv, zs@) =~= xor_spec(cell_bytes(adv, xs@), cell_bytes(adv, ys@)));
            }
        }
        zs
    }
}

/// XOR of two values; on bytes, the byte XOR.
pub fn xor_bytes(x: u64, y: u64) -> (r: u64)
    ensures
        r == x ^ y,
        x < 256 && y < 256 ==> r == (x as u8 ^ y as u8) as u64,
        x < 256 && y < 256 ==> r == op_spec(BitOp::Xor, x as u8, y as u8) as u64,
{
    assert(x < 256 && y < 256 ==> x ^ y == (x as u8 ^ y as u8) as u64) by (bit_vector);
    x ^ y
}

} // verus!
