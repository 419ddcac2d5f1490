use vstd::prelude::*;
use crate::hash::{tccr, tccr_spec};
use crate::layout::{
    byte_cells, cell_bytes, extends, grows, holds, lemma_cells_extend, lemma_grows_push, lemma_satisfied_push, satisfied, Constraint, ConstraintSystem, Layouter,
};

verus! {

/// Computes the tweakable hash of a block of byte cells and constrains the
/// result by the fixed-key cipher relation.
#[derive(Clone, Copy, Debug)]
pub struct HashChip {}

impl HashChip {
    pub fn construct() -> (r: Self) {
        HashChip {}
    }

    /// Assigns the hash of the 16 byte cells `xs` under `tweak` to 16 new
    /// cells and constrains them.
    pub fn hash(&self, meta: &ConstraintSystem, layouter: &mut Layouter, xs: &Vec<usize>, tweak: u128) -> (hs: Vec<usize>)
        requires
            xs@.len() == 16,
            byte_cells(old(layouter).advice(), xs@),
        ensures
            hs@.len() == 16,
            extends(old(layouter).advice(), final(layouter).advice()),
            grows(old(layouter).constraints(), final(layouter).constraints()),
            byte_cells(final(layouter).advice(), hs@),
            cell_bytes(final(layouter).advice(), hs@) == tccr_spec(cell_bytes(old(layouter).advice(), xs@), tweak),
            satisfied(meta.ops(), old(layouter).advice(), old(layouter).constraints())
                ==> satisfied(meta.ops(), final(layouter).advice(), final(layouter).constraints()),
            forall|adv: Seq<u64>| #[trigger] satisfied(meta.ops(), adv, final(layouter).constraints())
                ==> byte_cells(adv, xs@) && byte_cells(adv, hs@)
                    && cell_bytes(adv, hs@) == tccr_spec(cell_bytes(adv, xs@), tweak),
    {
        let ghost a0 = layouter.advice();
        let ib = layouter.read_bytes(xs).unwrap();
        let h = tccr(&ib, tweak);
        let hs = layouter.assign_bytes(&h);
        let c = Constraint::Hash { input: xs.clone(), tweak, output: hs.clone() };
        proof {
            lemma_cells_extend(a0, layouter.advice(), xs@);
            assert(holds(meta.ops(), layouter.advice(), c));
            if satisfied(meta.ops(), a0, old(layouter).constraints()) {
                lemma_satisfied_push(meta.ops(), a0, layouter.advice(), old(layouter).constraints(), c);
            }
        }
        layouter.constrain(c);
        proof {
            lemma_grows_push(old(layouter).constraints(), c);
            let cf = layouter.constraints();
            assert forall|adv: Seq<u64>| #[trigger] satisfied(meta.ops(), adv, cf)
                implies byte_cells(adv, xs@) && byte_cells(adv, hs@)
                    && cell_bytes(adv, hs@) == tccr_spec(cell_bytes(adv, xs@), tweak) by {
                assert(cf[cf.len() - 1] == c);
                assert(holds(meta.ops(), adv, cf[cf.len() - 1]));
            }
        }
        hs
    }
}

} // verus!
