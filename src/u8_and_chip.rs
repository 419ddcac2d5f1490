use vstd::prelude::*;
use crate::layout::{
    byte_cells, cell_bytes, grows, lemma_cells_extend, lemma_extends_trans, lemma_grows_push,
    lemma_grows_trans,
    extends, holds, lemma_push_extends, lemma_satisfied_push, satisfied, Constraint,
    ConstraintSystem, Layouter,
};
use crate::table::{op_spec, BitOp};

verus! {

/// Each byte of `a` ANDed with the mask `m`.
pub open spec fn and_mask_spec(a: Seq<u8>, m: u8) -> Seq<u8> {
    Seq::new(a.len(), |i: int| a[i] & m)
}

/// Where the AND chip's lookup goes: the index of the AND table.
#[derive(Clone, Copy, Debug)]
pub struct U8AndConfig {
    table: usize,
}

impl U8AndConfig {
    pub closed spec fn table(&self) -> usize {
        self.table
    }

    /// The configuration names an AND table of `ops`.
    pub open spec fn valid(&self, ops: Seq<BitOp>) -> bool {
        self.table() < ops.len() && ops[self.table() as int] == BitOp::And
    }
}

/// Cell `j` of `zs` is forced to the AND of cell `j` of `xs` and cell `m`.
pub open spec fn and_pinned(adv: Seq<u64>, xs: Seq<usize>, m: usize, zs: Seq<usize>, j: int) -> bool {
    &&& xs[j] < adv.len() && m < adv.len() && zs[j] < adv.len()
    &&& adv[xs[j] as int] < 256 && adv[m as int] < 256
    &&& adv[zs[j] as int] == (adv[xs[j] as int] as u8 & adv[m as int] as u8) as u64
}

/// Enforces `z == x & y` on byte cells by a lookup into the AND table.
#[derive(Clone, Copy, Debug)]
pub struct U8AndChip {
    config: U8AndConfig,
}

impl U8AndChip {
    pub closed spec fn config(&self) -> U8AndConfig {
        self.config
    }

    pub fn construct(config: U8AndConfig) -> (r: Self)
        ensures
            r.config() == config,
    {
        Self { config }
    }

    /// Registers the exhaustive AND table.
    pub fn configure(meta: &mut ConstraintSystem) -> (r: U8AndConfig)
        requires
            old(meta).wf(),
        ensures
            final(meta).wf(),
            final(meta).ops() == old(meta).ops().push(BitOp::And),
            r.valid(final(meta).ops()),
            r.table() == old(meta).ops().len(),
    {
        let table = meta.lookup_table(BitOp::And);
        U8AndConfig { table }
    }

    /// Assigns `x & y` to a new cell and constrains it by lookup.
    pub fn and(&self, meta: &ConstraintSystem, layouter: &mut Layouter, x: usize, y: usize) -> (z: usize)
        requires
            self.config().valid(meta.ops()),
            x < old(layouter).advice().len(),
            y < old(layouter).advice().len(),
        ensures
            z == old(layouter).advice().len(),
            final(layouter).advice() == old(layouter).advice().push(
                old(layouter).advice()[x as int] & old(layouter).advice()[y as int],
            ),
            old(layouter).advice()[x as int] < 256 && old(layouter).advice()[y as int] < 256
                ==> old(layouter).advice()[x as int] & old(layouter).advice()[y as int]
                    == (old(layouter).advice()[x as int] as u8 & old(layouter).advice()[y as int] as u8) as u64,
            final(layouter).constraints() == old(layouter).constraints().push(
                Constraint::Lookup { table: self.config().table(), x, y, z },
            ),
            grows(old(layouter).constraints(), final(layouter).constraints()),
            satisfied(meta.ops(), old(layouter).advice(), old(layouter).constraints())
                && old(layouter).advice()[x as int] < 256 && old(layouter).advice()[y as int] < 256
                ==> satisfied(meta.ops(), final(layouter).advice(), final(layouter).constraints()),
            forall|adv: Seq<u64>| #[trigger] satisfied(meta.ops(), adv, final(layouter).constraints())
                ==> x < adv.len() && y < adv.len() && z < adv.len() && adv[x as int] < 256 && adv[y as int] < 256
                    && adv[z as int] == (adv[x as int] as u8 & adv[y as int] as u8) as u64,
    {
        let v = and_bytes(layouter.value(x), layouter.value(y));
        let z = layouter.assign_advice(v);
        let c = Constraint::Lookup { table: self.config.table, x, y, z };
        proof {
            lemma_push_extends(old(layouter).advice(), v);
            if satisfied(meta.ops(), old(layouter).advice(), old(layouter).constraints())
                && old(layouter).advice()[x as int] < 256 && old(layouter).advice()[y as int] < 256 {
                assert(holds(meta.ops(), layouter.advice(), c));
                lemma_satisfied_push(meta.ops(), old(layouter).advice(), layouter.advice(), old(layouter).constraints(), c);
            }
        }
        layouter.constrain(c);
        proof {
            lemma_grows_push(old(layouter).constraints(), c);
            let cf = layouter.constraints();
            assert forall|adv: Seq<u64>| #[trigger] satisfied(meta.ops(), adv, cf)
                implies x < adv.len() && y < adv.len() && z < adv.len() && adv[x as int] < 256 && adv[y as int] < 256
                    && adv[z as int] == (adv[x as int] as u8 & adv[y as int] as u8) as u64 by {
                assert(cf[cf.len() - 1] == c);
                assert(holds(meta.ops(), adv, cf[cf.len() - 1]));
            }
        }
        z
    }

    /// ANDs every cell of a block with one mask cell, one lookup per byte.
    pub fn and_mask(
        &self,
        meta: &ConstraintSystem,
        layouter: &mut Layouter,
        xs: &Vec<usize>,
        m: usize,
    ) -> (zs: Vec<usize>)
        requires
            self.config().valid(meta.ops()),
            byte_cells(old(layouter).advice(), xs@),
            m < old(layouter).advice().len(),
            old(layouter).advice()[m as int] < 256,
        ensures
            zs@.len() == xs@.len(),
            extends(old(layouter).advice(), final(layouter).advice()),
            grows(old(layouter).constraints(), final(layouter).constraints()),
            byte_cells(final(layouter).advice(), zs@),
            cell_bytes(final(layouter).advice(), zs@) == and_mask_spec(
                cell_bytes(old(layouter).advice(), xs@),
                old(layouter).advice()[m as int] as u8,
            ),
            satisfied(meta.ops(), old(layouter).advice(), old(layouter).constraints())
                ==> satisfied(meta.ops(), final(layouter).advice(), final(layouter).constraints()),
            forall|adv: Seq<u64>| #[trigger] satisfied(meta.ops(), adv, final(layouter).constraints())
                ==> byte_cells(adv, xs@) && byte_cells(adv, zs@) && cell_bytes(adv, zs@) == and_mask_spec(cell_bytes(adv, xs@), adv[m as int] as u8),
    {
        let ghost a0 = old(layouter).advice();
        let ghost xb = cell_bytes(a0, xs@);
        let ghost mb = a0[m as int] as u8;
        let mut zs: Vec<usize> = Vec::new();
        let mut i: usize = 0;
        proof {
            assert(a0.subrange(0, a0.len() as int) =~= a0);
            crate::layout::lemma_grows_refl(layouter.constraints());
        }
        while i < xs.len()
            invariant
                self.config().valid(meta.ops()),
                i <= xs@.len(),
                zs@.len() == i,
                a0 == old(layouter).advice(),
                xb == cell_bytes(a0, xs@),
                m < a0.len(),
                a0[m as int] < 256,
                mb == a0[m as int] as u8,
                extends(a0, layouter.advice()),
                grows(old(layouter).constraints(), layouter.constraints()),
                byte_cells(layouter.advice(), xs@),
                cell_bytes(layouter.advice(), xs@) == xb,
                forall|j: int| 0 <= j < i ==> #[trigger] zs@[j] < layouter.advice().len()
                    && layouter.advice()[zs@[j] as int] == (xb[j] & mb) as u64,
                satisfied(meta.ops(), a0, old(layouter).constraints())
                    ==> satisfied(meta.ops(), layouter.advice(), layouter.constraints()),
                forall|adv: Seq<u64>| #[trigger] satisfied(meta.ops(), adv, layouter.constraints())
                    ==> forall|j: int| 0 <= j < i ==> #[trigger] and_pinned(adv, xs@, m, zs@, j),
            decreases xs@.len() - i,
        {
            let ghost prev = layouter.advice();
            let ghost cprev = layouter.constraints();
            proof {
                assert(cell_bytes(prev, xs@)[i as int] == xb[i as int]);
                assert(xs@[i as int] < prev.len() && prev[xs@[i as int] as int] < 256);
                assert(prev.subrange(0, a0.len() as int)[m as int] == prev[m as int]);
            }
            let ghost zprev = zs@;
            let z = self.and(meta, layouter, xs[i], m);
            proof {
                lemma_push_extends(prev, layouter.advice()[z as int]);
                lemma_extends_trans(a0, prev, layouter.advice());
                lemma_grows_push(cprev, layouter.constraints().last());
                lemma_grows_trans(old(layouter).constraints(), cprev, layouter.constraints());
                lemma_cells_extend(prev, layouter.advice(), xs@);
                assert forall|j: int| 0 <= j < i implies #[trigger] zs@[j] < layouter.advice().len()
                    && layouter.advice()[zs@[j] as int] == (xb[j] & mb) as u64 by {
                    assert(layouter.advice()[zs@[j] as int] == prev[zs@[j] as int]);
                }
            }
            zs.push(z);
            proof {
                let cf = layouter.constraints();
                assert forall|adv: Seq<u64>| #[trigger] satisfied(meta.ops(), adv, cf)
                    implies forall|j: int| 0 <= j < i + 1 ==> #[trigger] and_pinned(adv, xs@, m, zs@, j) by {
                    crate::layout::lemma_satisfied_grows(meta.ops(), adv, cprev, cf);
                    assert(forall|j: int| 0 <= j < i ==> #[trigger] and_pinned(adv, xs@, m, zprev, j));
                    assert forall|j: int| 0 <= j < i + 1 implies #[trigger] and_pinned(adv, xs@, m, zs@, j) by {
                        if j < i {
                            assert(and_pinned(adv, xs@, m, zprev, j));
                        }
                    }
                }
            }
            i = i + 1;
        }
        assert(cell_bytes(layouter.advice(), zs@) =~= and_mask_spec(xb, mb));
        proof {
            let cf = layouter.constraints();
            assert forall|adv: Seq<u64>| #[trigger] satisfied(meta.ops(), adv, cf)
                implies byte_cells(adv, xs@) && byte_cells(adv, zs@) && cell_bytes(adv, zs@) == and_mask_spec(cell_bytes(adv, xs@), adv[m as int] as u8) by {
                assert(forall|j: int| 0 <= j < xs@.len() ==> #[trigger] and_pinned(adv, xs@, m, zs@, j));
                assert forall|j: int| 0 <= j < xs@.len() implies #[trigger] xs@[j] < adv.len() && adv[xs@[j] as int] < 256 by {
                    assert(and_pinned(adv, xs@, m, zs@, j));
                }
                assert forall|j: int| 0 <= j < zs@.len() implies #[trigger] zs@[j] < adv.len() && adv[zs@[j] as int] < 256 by {
                    assert(and_pinned(adv, xs@, m, zs@, j));
                }
                
                assert forall|j: int| 0 <= j < zs@.len() implies #[trigger] cell_bytes(adv, zs@)[j] == (and_mask_spec(cell_bytes(adv, xs@), adv[m as int] as u8))[j] by {
                    assert(and_pinned(adv, xs@, m, zs@, j));
                }
                assert(cell_bytes(adv, zs@) =~= and_mask_spec(cell_bytes(adv, xs@), adv[m as int] as u8));
            }
        }
        zs
    }
}

/// AND of two values; on bytes, the byte AND.
pub fn and_bytes(x: u64, y: u64) -> (r: u64)
    ensures
        r == x & y,
        x < 256 && y < 256 ==> r == (x as u8 & y as u8) as u64,
        x < 256 && y < 256 ==> r == op_spec(BitOp::And, x as u8, y as u8) as u64,
{
    assert(x < 256 && y < 256 ==> x & y == (x as u8 & y as u8) as u64) by (bit_vector);
    x & y
}

} // verus!
