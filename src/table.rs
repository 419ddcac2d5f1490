use vstd::prelude::*;

verus! {

/// The byte operation that a lookup table holds.
#[derive(Clone, Copy, Debug, PartialEq, Eq, Structural)]
pub enum BitOp {
    Xor,
    And,
}

/// What a byte operation gives on two bytes.
pub open spec fn op_spec(op: BitOp, a: u8, b: u8) -> u8 {
    match op {
        BitOp::Xor => a ^ b,
        BitOp::And => a & b,
    }
}

/// Computes a byte operation.
pub fn apply_op(op: BitOp, a: u8, b: u8) -> (r: u8)
    ensures
        r == op_spec(op, a, b),
{
    match op {
        BitOp::Xor => a ^ b,
        BitOp::And => a & b,
    }
}

/// The exhaustive table of `(a, b, a op b)` for every pair of bytes; row
/// `256 * a + b` holds the pair `(a, b)`.
pub struct ByteOpTable {
    op: BitOp,
    rows: Vec<(u8, u8, u8)>,
}

impl ByteOpTable {
    pub closed spec fn op(&self) -> BitOp {
        self.op
    }

    /// Every row holds its pair and the operation's result on it.
    pub closed spec fn wf(&self) -> bool {
        &&& self.rows@.len() == 65536
        &&& forall|i: int|
            0 <= i < 65536 ==> {
                let r = #[trigger] self.rows@[i];
                &&& r.0 as int == i / 256
                &&& r.1 as int == i % 256
                &&& r.2 == op_spec(self.op, r.0, r.1)
            }
    }

    /// Builds the table of `op` over all byte pairs.
    pub fn new(op: BitOp) -> (t: Self)
        ensures
            t.wf(),
            t.op() == op,
    {
        let mut rows: Vec<(u8, u8, u8)> = Vec::new();
        let mut a: u16 = 0;
        while a < 256
            invariant
                a <= 256,
                rows@.len() == 256 * a,
                forall|i: int|
                    0 <= i < rows@.len() ==> {
                        let r = #[trigger] rows@[i];
                        &&& r.0 as int == i / 256
                        &&& r.1 as int == i % 256
                        &&& r.2 == op_spec(op, r.0, r.1)
                    },
            decreases 256 - a,
        {
            let mut b: u16 = 0;
            while b < 256
                invariant
                    a < 256,
                    b <= 256,
                    rows@.len() == 256 * a + b,
                    forall|i: int|
                        0 <= i < rows@.len() ==> {
                            let r = #[trigger] rows@[i];
                            &&& r.0 as int == i / 256
                            &&& r.1 as int == i % 256
                            &&& r.2 == op_spec(op, r.0, r.1)
                        },
                decreases 256 - b,
            {
                let x = a as u8;
                let y = b as u8;
                let z = apply_op(op, x, y);
                proof {
                    let i = 256 * a + b;
                    assert(i / 256 == a as int && i % 256 == b as int) by (nonlinear_arith)
                        requires
                            i == 256 * a + b,
                            0 <= b < 256,
                    ;
                }
                rows.push((x, y, z));
                b = b + 1;
            }
            a = a + 1;
        }
        ByteOpTable { op, rows }
    }

    /// Whether `(x, y, z)` is a row of the table: both inputs are bytes and
    /// `z` is the operation's result on them.
    pub fn contains(&self, x: u64, y: u64, z: u64) -> (r: bool)
        requires
            self.wf(),
        ensures
            r == (x < 256 && y < 256 && z == op_spec(self.op(), x as u8, y as u8) as u64),
    {
        if x < 256 && y < 256 {
            let i = (x * 256 + y) as usize;
            let row = self.rows[i];
            proof {
                let ii = i as int;
                assert(ii / 256 == x as int && ii % 256 == y as int) by (nonlinear_arith)
                    requires
                        ii == 256 * x + y,
                        0 <= y < 256,
                ;
                assert(row == self.rows@[ii]);
            }
            row.2 as u64 == z
        } else {
            false
        }
    }
}

} // verus!
