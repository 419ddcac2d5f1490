use vstd::prelude::*;
use crate::hash::{tccr, tccr_spec};
use crate::table::{op_spec, BitOp, ByteOpTable};

verus! {

/// The fixed part of the circuit, built once at setup: its lookup tables.
pub struct ConstraintSystem {
    tables: Vec<ByteOpTable>,
}

/// One constraint over advice cells, named by their row.
pub enum Constraint {
    /// `(x, y, z)` is a row of lookup table `table`.
    Lookup { table: usize, x: usize, y: usize, z: usize },
    /// The cell holds a value fixed by the circuit or the public instance.
    Fixed { cell: usize, value: u64 },
    /// `out == factor * src`, a linear relation.
    Scale { out: usize, src: usize, factor: u64 },
    /// The 16 byte cells `output` are the tweakable hash of the 16 byte cells
    /// `input` under `tweak`.
    Hash { input: Vec<usize>, tweak: u128, output: Vec<usize> },
}

/// The witness of a circuit: advice cells and the constraints on them.
pub struct Layouter {
    advice: Vec<u64>,
    constraints: Vec<Constraint>,
}

/// Whether every cell named is a byte-valued advice cell.
pub open spec fn byte_cells(adv: Seq<u64>, cells: Seq<usize>) -> bool {
    forall|i: int| 0 <= i < cells.len() ==> #[trigger] cells[i] < adv.len() && adv[cells[i] as int] < 256
}

/// The bytes that the cells named hold.
pub open spec fn cell_bytes(adv: Seq<u64>, cells: Seq<usize>) -> Seq<u8> {
    Seq::new(cells.len(), |i: int| adv[cells[i] as int] as u8)
}

/// Whether a constraint holds of the advice, under the lookup tables `ops`.
pub open spec fn holds(ops: Seq<BitOp>, adv: Seq<u64>, c: Constraint) -> bool {
    match c {
        Constraint::Lookup { table, x, y, z } => {
            &&& table < ops.len()
            &&& x < adv.len() && y < adv.len() && z < adv.len()
            &&& adv[x as int] < 256 && adv[y as int] < 256
            &&& adv[z as int] == op_spec(ops[table as int], adv[x as int] as u8, adv[y as int] as u8) as u64
        },
        Constraint::Fixed { cell, value } => cell < adv.len() && adv[cell as int] == value,
        Constraint::Scale { out, src, factor } => {
            &&& out < adv.len() && src < adv.len()
            &&& adv[out as int] as int == factor as int * adv[src as int] as int
        },
        Constraint::Hash { input, tweak, output } => {
            &&& input@.len() == 16 && output@.len() == 16
            &&& byte_cells(adv, input@) && byte_cells(adv, output@)
            &&& cell_bytes(adv, output@) == tccr_spec(cell_bytes(adv, input@), tweak)
        },
    }
}

/// Whether every constraint holds.
pub open spec fn satisfied(ops: Seq<BitOp>, adv: Seq<u64>, cs: Seq<Constraint>) -> bool {
    forall|i: int| 0 <= i < cs.len() ==> #[trigger] holds(ops, adv, cs[i])
}

/// `adv2` keeps the cells of `adv` and may append more.
pub open spec fn extends(adv: Seq<u64>, adv2: Seq<u64>) -> bool {
    adv.len() <= adv2.len() && adv2.subrange(0, adv.len() as int) == adv
}

/// `cs2` keeps the constraints of `cs1` and may add more.
pub open spec fn grows(cs1: Seq<Constraint>, cs2: Seq<Constraint>) -> bool {
    cs1.len() <= cs2.len() && cs2.subrange(0, cs1.len() as int) == cs1
}

/// Constraints that grow twice grow.
pub proof fn lemma_grows_trans(a: Seq<Constraint>, b: Seq<Constraint>, c: Seq<Constraint>)
    requires
        grows(a, b),
        grows(b, c),
    ensures
        grows(a, c),
{
    assert(c.subrange(0, a.len() as int) =~= b.subrange(0, a.len() as int));
}

/// Adding a constraint grows the constraints.
pub proof fn lemma_grows_push(cs: Seq<Constraint>, c: Constraint)
    ensures
        grows(cs, cs.push(c)),
{
    assert(cs.push(c).subrange(0, cs.len() as int) =~= cs);
}

/// Constraints grow into themselves.
pub proof fn lemma_grows_refl(cs: Seq<Constraint>)
    ensures
        grows(cs, cs),
{
    assert(cs.subrange(0, cs.len() as int) =~= cs);
}

/// Whatever satisfies all constraints satisfies those it grew from.
pub proof fn lemma_satisfied_grows(ops: Seq<BitOp>, adv: Seq<u64>, cs1: Seq<Constraint>, cs2: Seq<Constraint>)
    requires
        grows(cs1, cs2),
        satisfied(ops, adv, cs2),
    ensures
        satisfied(ops, adv, cs1),
{
    assert forall|i: int| 0 <= i < cs1.len() implies #[trigger] holds(ops, adv, cs1[i]) by {
        assert(cs2.subrange(0, cs1.len() as int)[i] == cs2[i]);
        assert(holds(ops, adv, cs2[i]));
    }
}

/// Appending a cell extends the advice.
pub proof fn lemma_push_extends(adv: Seq<u64>, v: u64)
    ensures
        extends(adv, adv.push(v)),
{
    assert(adv.push(v).subrange(0, adv.len() as int) =~= adv);
}

/// Extension is transitive.
pub proof fn lemma_extends_trans(a: Seq<u64>, b: Seq<u64>, c: Seq<u64>)
    requires
        extends(a, b),
        extends(b, c),
    ensures
        extends(a, c),
{
    assert(c.subrange(0, a.len() as int) =~= b.subrange(0, a.len() as int));
}

/// A satisfied layout stays satisfied when cells are appended and a
/// constraint that holds is added.
pub proof fn lemma_satisfied_push(ops: Seq<BitOp>, adv: Seq<u64>, adv2: Seq<u64>, cs: Seq<Constraint>, c: Constraint)
    requires
        satisfied(ops, adv, cs),
        extends(adv, adv2),
        holds(ops, adv2, c),
    ensures
        satisfied(ops, adv2, cs.push(c)),
{
    lemma_satisfied_extend(ops, adv, adv2, cs);
    assert forall|i: int| 0 <= i < cs.push(c).len() implies #[trigger] holds(ops, adv2, cs.push(c)[i]) by {
        if i < cs.len() {
            assert(cs.push(c)[i] == cs[i]);
        }
    }
}

/// Byte cells keep their values when cells are appended.
pub proof fn lemma_cells_extend(adv: Seq<u64>, adv2: Seq<u64>, cells: Seq<usize>)
    requires
        extends(adv, adv2),
        byte_cells(adv, cells),
    ensures
        byte_cells(adv2, cells),
        cell_bytes(adv2, cells) == cell_bytes(adv, cells),
{
    assert forall|i: int| 0 <= i < cells.len() implies adv2[#[trigger] cells[i] as int] == adv[cells[i] as int] by {
        assert(adv2.subrange(0, adv.len() as int)[cells[i] as int] == adv2[cells[i] as int]);
    }
    assert(cell_bytes(adv2, cells) =~= cell_bytes(adv, cells));
}

/// Appending cells keeps every cell's value and every block of byte cells.
pub proof fn lemma_extends_keeps(adv: Seq<u64>, adv2: Seq<u64>)
    requires
        extends(adv, adv2),
    ensures
        forall|i: int| 0 <= i < adv.len() ==> #[trigger] adv2[i] == adv[i],
        forall|cells: Seq<usize>| #[trigger] byte_cells(adv, cells)
            ==> byte_cells(adv2, cells) && cell_bytes(adv2, cells) == cell_bytes(adv, cells),
{
    assert forall|i: int| 0 <= i < adv.len() implies #[trigger] adv2[i] == adv[i] by {
        assert(adv2.subrange(0, adv.len() as int)[i] == adv2[i]);
    }
    assert forall|cells: Seq<usize>| #[trigger] byte_cells(adv, cells)
        implies byte_cells(adv2, cells) && cell_bytes(adv2, cells) == cell_bytes(adv, cells) by {
        lemma_cells_extend(adv, adv2, cells);
    }
}

/// Adding a constraint keeps satisfaction exactly when the constraint holds.
pub proof fn lemma_satisfied_push_iff(ops: Seq<BitOp>, adv: Seq<u64>, cs: Seq<Constraint>, c: Constraint)
    ensures
        satisfied(ops, adv, cs.push(c)) <==> satisfied(ops, adv, cs) && holds(ops, adv, c),
{
    if satisfied(ops, adv, cs.push(c)) {
        assert(holds(ops, adv, cs.push(c)[cs.len() as int]));
        assert forall|i: int| 0 <= i < cs.len() implies #[trigger] holds(ops, adv, cs[i]) by {
            assert(holds(ops, adv, cs.push(c)[i]));
        }
    }
    if satisfied(ops, adv, cs) && holds(ops, adv, c) {
        assert forall|i: int| 0 <= i < cs.push(c).len() implies #[trigger] holds(ops, adv, cs.push(c)[i]) by {
            if i < cs.len() {
                assert(cs.push(c)[i] == cs[i]);
            }
        }
    }
}

/// Byte cells whose bytes are `vals` hold exactly those values.
pub proof fn lemma_cell_values(adv: Seq<u64>, cells: Seq<usize>, vals: Seq<u8>)
    requires
        byte_cells(adv, cells),
        cell_bytes(adv, cells) == vals,
    ensures
        forall|i: int| 0 <= i < cells.len() ==> #[trigger] cells[i] < adv.len()
            && adv[cells[i] as int] == vals[i] as u64,
{
    assert forall|i: int| 0 <= i < cells.len() implies #[trigger] cells[i] < adv.len()
        && adv[cells[i] as int] == vals[i] as u64 by {
        assert(cell_bytes(adv, cells)[i] == adv[cells[i] as int] as u8);
        assert(adv[cells[i] as int] < 256);
    }
}

/// A constraint that holds keeps holding when advice cells are appended.
pub proof fn lemma_holds_extend(ops: Seq<BitOp>, adv: Seq<u64>, adv2: Seq<u64>, c: Constraint)
    requires
        holds(ops, adv, c),
        adv.len() <= adv2.len(),
        adv2.subrange(0, adv.len() as int) == adv,
    ensures
        holds(ops, adv2, c),
{
    assert forall|i: int| 0 <= i < adv.len() implies adv2[i] == adv[i] by {
        assert(adv2.subrange(0, adv.len() as int)[i] == adv2[i]);
    }
    match c {
        Constraint::Hash { input, tweak, output } => {
            assert(cell_bytes(adv2, output@) =~= cell_bytes(adv, output@));
            assert(cell_bytes(adv2, input@) =~= cell_bytes(adv, input@));
        },
        _ => {},
    }
}

/// Satisfaction is kept when advice cells are appended.
pub proof fn lemma_satisfied_extend(ops: Seq<BitOp>, adv: Seq<u64>, adv2: Seq<u64>, cs: Seq<Constraint>)
    requires
        satisfied(ops, adv, cs),
        adv.len() <= adv2.len(),
        adv2.subrange(0, adv.len() as int) == adv,
    ensures
        satisfied(ops, adv2, cs),
{
    assert forall|i: int| 0 <= i < cs.len() implies #[trigger] holds(ops, adv2, cs[i]) by {
        lemma_holds_extend(ops, adv, adv2, cs[i]);
    }
}

/// Whether two byte strings are equal.
fn bytes_equal(a: &Vec<u8>, b: &Vec<u8>) -> (r: bool)
    ensures
        r == (a@ == b@),
{
    if a.len() != b.len() {
        return false;
    }
    let mut i: usize = 0;
    while i < a.len()
        invariant
            i <= a@.len(),
            a@.len() == b@.len(),
            forall|j: int| 0 <= j < i ==> a@[j] == b@[j],
        decreases a@.len() - i,
    {
        if a[i] != b[i] {
            assert(a@[i as int] != b@[i as int]);
            return false;
        }
        i = i + 1;
    }
    assert(a@ =~= b@);
    true
}

impl ConstraintSystem {
    /// The operations of the lookup tables, by table index.
    pub closed spec fn ops(&self) -> Seq<BitOp> {
        self.tables@.map_values(|t: ByteOpTable| t.op())
    }

    /// Every table is exhaustive and correct.
    pub closed spec fn wf(&self) -> bool {
        forall|i: int| 0 <= i < self.tables@.len() ==> #[trigger] self.tables@[i].wf()
    }

    /// A constraint system with no tables.
    pub fn new() -> (cs: Self)
        ensures
            cs.wf(),
            cs.ops() == Seq::<BitOp>::empty(),
    {
        let cs = ConstraintSystem { tables: Vec::new() };
        assert(cs.ops() =~= Seq::<BitOp>::empty());
        cs
    }

    /// Registers the exhaustive table of `op` and returns its index.
    pub fn lookup_table(&mut self, op: BitOp) -> (r: usize)
        requires
            old(self).wf(),
        ensures
            final(self).wf(),
            final(self).ops() == old(self).ops().push(op),
            r == old(self).ops().len(),
    {
        let t = ByteOpTable::new(op);
        let r = self.tables.len();
        self.tables.push(t);
        assert(self.ops() =~= old(self).ops().push(op));
        r
    }

    /// Whether `(x, y, z)` is a row of table `table`.
    fn lookup(&self, table: usize, x: u64, y: u64, z: u64) -> (r: bool)
        requires
            self.wf(),
            table < self.ops().len(),
        ensures
            r == (x < 256 && y < 256 && z == op_spec(self.ops()[table as int], x as u8, y as u8) as u64),
    {
        assert(self.tables@[table as int].wf());
        self.tables[table].contains(x, y, z)
    }
}

impl Layouter {
    /// The values of the advice cells.
    pub closed spec fn advice(&self) -> Seq<u64> {
        self.advice@
    }

    /// The constraints laid out so far.
    pub closed spec fn constraints(&self) -> Seq<Constraint> {
        self.constraints@
    }

    /// A layouter with no cells and no constraints.
    pub fn new() -> (l: Self)
        ensures
            l.advice() == Seq::<u64>::empty(),
            l.constraints() == Seq::<Constraint>::empty(),
    {
        Layouter { advice: Vec::new(), constraints: Vec::new() }
    }

    /// Number of advice cells.
    pub fn num_cells(&self) -> (r: usize)
        ensures
            r == self.advice().len(),
    {
        self.advice.len()
    }

    /// The value of one advice cell.
    pub fn value(&self, cell: usize) -> (r: u64)
        requires
            cell < self.advice().len(),
        ensures
            r == self.advice()[cell as int],
    {
        self.advice[cell]
    }

    /// Assigns a new advice cell and returns its row.
    pub fn assign_advice(&mut self, v: u64) -> (r: usize)
        ensures
            final(self).advice() == old(self).advice().push(v),
            final(self).constraints() == old(self).constraints(),
            r == old(self).advice().len(),
    {
        let r = self.advice.len();
        self.advice.push(v);
        r
    }

    /// Assigns one new advice cell for each byte and returns their rows.
    pub fn assign_bytes(&mut self, bytes: &Vec<u8>) -> (r: Vec<usize>)
        ensures
            r@.len() == bytes@.len(),
            extends(old(self).advice(), final(self).advice()),
            final(self).constraints() == old(self).constraints(),
            grows(old(self).constraints(), final(self).constraints()),
            byte_cells(final(self).advice(), r@),
            cell_bytes(final(self).advice(), r@) == bytes@,
    {
        let mut r: Vec<usize> = Vec::new();
        let mut i: usize = 0;
        proof {
            assert(old(self).advice().subrange(0, old(self).advice().len() as int) =~= old(self).advice());
        }
        while i < bytes.len()
            invariant
                i <= bytes@.len(),
                r@.len() == i,
                extends(old(self).advice(), self.advice()),
                self.constraints() == old(self).constraints(),
                forall|j: int| 0 <= j < i ==> #[trigger] r@[j] < self.advice().len()
                    && self.advice()[r@[j] as int] == bytes@[j] as u64,
            decreases bytes@.len() - i,
        {
            let ghost prev = self.advice();
            let c = self.assign_advice(bytes[i] as u64);
            proof {
                lemma_push_extends(prev, bytes@[i as int] as u64);
                lemma_extends_trans(old(self).advice(), prev, self.advice());
                assert forall|j: int| 0 <= j < i implies #[trigger] r@[j] < self.advice().len()
                    && self.advice()[r@[j] as int] == bytes@[j] as u64 by {
                    assert(self.advice()[r@[j] as int] == prev[r@[j] as int]);
                }
            }
            r.push(c);
            i = i + 1;
        }
        assert(cell_bytes(self.advice(), r@) =~= bytes@);
        assert(self.constraints().subrange(0, self.constraints().len() as int) =~= self.constraints());
        r
    }

    /// Fixes each cell named to the byte at the same place of `values`, as a
    /// public instance does.
    pub fn constrain_bytes(&mut self, cells: &Vec<usize>, values: &Vec<u8>)
        requires
            cells@.len() == values@.len(),
        ensures
            final(self).advice() == old(self).advice(),
            grows(old(self).constraints(), final(self).constraints()),
            forall|ops: Seq<BitOp>, adv: Seq<u64>| #[trigger] satisfied(ops, adv, final(self).constraints())
                <==> satisfied(ops, adv, old(self).constraints())
                    && (forall|i: int| 0 <= i < cells@.len() ==> #[trigger] cells@[i] < adv.len()
                        && adv[cells@[i] as int] == values@[i] as u64),
    {
        let ghost c0 = self.constraints();
        let mut i: usize = 0;
        while i < cells.len()
            invariant
                i <= cells@.len(),
                cells@.len() == values@.len(),
                self.advice() == old(self).advice(),
                c0 == old(self).constraints(),
                self.constraints().len() == c0.len() + i,
                forall|j: int| 0 <= j < c0.len() ==> #[trigger] self.constraints()[j] == c0[j],
                forall|j: int| 0 <= j < i ==> #[trigger] self.constraints()[c0.len() + j]
                    == (Constraint::Fixed { cell: cells@[j], value: values@[j] as u64 }),
            decreases cells@.len() - i,
        {
            self.constrain(Constraint::Fixed { cell: cells[i], value: values[i] as u64 });
            i = i + 1;
        }
        assert(self.constraints().subrange(0, c0.len() as int) =~= c0);
        assert forall|ops: Seq<BitOp>, adv: Seq<u64>| #[trigger] satisfied(ops, adv, self.constraints())
            <==> satisfied(ops, adv, c0)
                && (forall|i: int| 0 <= i < cells@.len() ==> #[trigger] cells@[i] < adv.len()
                    && adv[cells@[i] as int] == values@[i] as u64) by {
            if satisfied(ops, adv, self.constraints()) {
                assert forall|j: int| 0 <= j < c0.len() implies #[trigger] holds(ops, adv, c0[j]) by {
                    assert(holds(ops, adv, self.constraints()[j]));
                }
                assert forall|k: int| 0 <= k < cells@.len() implies #[trigger] cells@[k] < adv.len()
                    && adv[cells@[k] as int] == values@[k] as u64 by {
                    assert(holds(ops, adv, self.constraints()[c0.len() + k]));
                }
            }
            if satisfied(ops, adv, c0) && (forall|k: int| 0 <= k < cells@.len() ==> #[trigger] cells@[k] < adv.len()
                && adv[cells@[k] as int] == values@[k] as u64) {
                assert forall|j: int| 0 <= j < self.constraints().len() implies #[trigger] holds(ops, adv, self.constraints()[j]) by {
                    if j < c0.len() {
                        assert(holds(ops, adv, c0[j]));
                    } else {
                        let k = j - c0.len();
                        assert(self.constraints()[c0.len() + k] == self.constraints()[j]);
                    }
                }
            }
        }
    }

    /// Overwrites the value of an advice cell, as a prover may.
    pub fn set_advice(&mut self, cell: usize, v: u64)
        requires
            cell < old(self).advice().len(),
        ensures
            final(self).advice() == old(self).advice().update(cell as int, v),
            final(self).constraints() == old(self).constraints(),
    {
        self.advice.set(cell, v);
    }

    /// Adds a constraint.
    pub fn constrain(&mut self, c: Constraint)
        ensures
            final(self).advice() == old(self).advice(),
            final(self).constraints() == old(self).constraints().push(c),
    {
        self.constraints.push(c);
    }

    /// Whether one constraint holds.
    fn check(&self, cs: &ConstraintSystem, c: &Constraint) -> (r: bool)
        requires
            cs.wf(),
        ensures
            r == holds(cs.ops(), self.advice(), *c),
    {
        let n = self.advice.len();
        match c {
            Constraint::Lookup { table, x, y, z } => {
                if *table < cs.tables.len() && *x < n && *y < n && *z < n {
                    cs.lookup(*table, self.advice[*x], self.advice[*y], self.advice[*z])
                } else {
                    false
                }
            },
            Constraint::Fixed { cell, value } => *cell < n && self.advice[*cell] == *value,
            Constraint::Scale { out, src, factor } => {
                if *out < n && *src < n {
                    let v = self.advice[*src] as u128;
                    let o = self.advice[*out] as u128;
                    assert((*factor as u128) * v <= 0xffff_ffff_ffff_ffffu128 * 0xffff_ffff_ffff_ffffu128) by (nonlinear_arith)
                        requires
                            v <= 0xffff_ffff_ffff_ffffu128,
                            *factor <= 0xffff_ffff_ffff_ffffu64,
                    ;
                    (*factor as u128) * v == o
                } else {
                    false
                }
            },
            Constraint::Hash { input, tweak, output } => {
                if input.len() != 16 || output.len() != 16 {
                    return false;
                }
                let ib = match self.read_bytes(input) {
                    Some(b) => b,
                    None => return false,
                };
                let ob = match self.read_bytes(output) {
                    Some(b) => b,
                    None => return false,
                };
                let h = tccr(&ib, *tweak);
                bytes_equal(&ob, &h)
            },
        }
    }

    /// The bytes that the cells named hold, or `None` where one is not a
    /// byte-valued advice cell.
    pub fn read_bytes(&self, cells: &Vec<usize>) -> (r: Option<Vec<u8>>)
        ensures
            r.is_some() == byte_cells(self.advice(), cells@),
            r.is_some() ==> r.unwrap()@ == cell_bytes(self.advice(), cells@),
    {
        let mut out: Vec<u8> = Vec::new();
        let mut i: usize = 0;
        while i < cells.len()
            invariant
                i <= cells@.len(),
                out@.len() == i,
                byte_cells(self.advice(), cells@.subrange(0, i as int)),
                forall|j: int| 0 <= j < i ==> out@[j] == self.advice()[cells@[j] as int] as u8,
            decreases cells@.len() - i,
        {
            let c = cells[i];
            if c >= self.advice.len() || self.advice[c] >= 256 {
                assert(!(cells@[i as int] < self.advice().len() && self.advice()[cells@[i as int] as int] < 256));
                return None;
            }
            proof {
                assert forall|j: int| 0 <= j < i + 1 implies
                    #[trigger] cells@.subrange(0, i + 1)[j] < self.advice().len()
                    && self.advice()[cells@.subrange(0, i + 1)[j] as int] < 256 by {
                    if j < i {
                        assert(cells@.subrange(0, i as int)[j] == cells@[j]);
                    }
                }
            }
            out.push(self.advice[c] as u8);
            i = i + 1;
        }
        assert(cells@.subrange(0, cells@.len() as int) =~= cells@);
        assert(out@ =~= cell_bytes(self.advice(), cells@));
        Some(out)
    }

    /// Whether every constraint holds of the advice cells.
    pub fn is_satisfied(&self, cs: &ConstraintSystem) -> (r: bool)
        requires
            cs.wf(),
        ensures
            r == satisfied(cs.ops(), self.advice(), self.constraints()),
    {
        let mut i: usize = 0;
        while i < self.constraints.len()
            invariant
                cs.wf(),
                i <= self.constraints@.len(),
                forall|j: int| 0 <= j < i ==> #[trigger] holds(cs.ops(), self.advice(), self.constraints@[j]),
            decreases self.constraints@.len() - i,
        {
            if !self.check(cs, &self.constraints[i]) {
                return false;
            }
            i = i + 1;
        }
        true
    }
}

} // verus!
