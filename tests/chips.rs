use proof_of_gc::{
    and_bytes, xor_bytes, BitOp, ByteOpTable, ConstraintSystem, Layouter, U8AndChip, U8XorChip,
};

#[test]
fn xor_and_tables_hold_every_byte_pair() {
    let xor = ByteOpTable::new(BitOp::Xor);
    let and = ByteOpTable::new(BitOp::And);
    for a in 0u64..256 {
        for b in 0u64..256 {
            assert!(xor.contains(a, b, a ^ b));
            assert!(and.contains(a, b, a & b));
            assert_eq!(xor_bytes(a, b), a ^ b);
            assert_eq!(and_bytes(a, b), a & b);
        }
    }
}

#[test]
fn lookup_rejects_wrong_outputs() {
    let xor = ByteOpTable::new(BitOp::Xor);
    let and = ByteOpTable::new(BitOp::And);
    assert!(!xor.contains(3, 5, 7));
    assert!(xor.contains(3, 5, 6));
    assert!(!and.contains(3, 5, 7));
    assert!(and.contains(3, 5, 1));
    assert!(!and.contains(256, 1, 0));
    assert!(!xor.contains(1, 300, 301));
}

#[test]
fn byte_chips_assign_and_constrain() {
    let mut cs = ConstraintSystem::new();
    let xor_cfg = U8XorChip::configure(&mut cs);
    let and_cfg = U8AndChip::configure(&mut cs);
    let xor_chip = U8XorChip::construct(xor_cfg);
    let and_chip = U8AndChip::construct(and_cfg);
    let mut l = Layouter::new();
    let cells = l.assign_bytes(&vec![0xac, 0x35]);
    let z = xor_chip.xor(&cs, &mut l, cells[0], cells[1]);
    let w = and_chip.and(&cs, &mut l, cells[0], cells[1]);
    assert_eq!(l.value(z), 0x99);
    assert_eq!(l.value(w), 0x24);
    assert!(l.is_satisfied(&cs));
    // A claimed output that is not the XOR is caught by the lookup.
    l.set_advice(z, 0x98);
    assert!(!l.is_satisfied(&cs));
}

#[test]
fn non_byte_inputs_are_laid_out_and_rejected() {
    assert_eq!(and_bytes(0x1ff, 0x10f), 0x10f);
    assert_eq!(xor_bytes(0x100, 0x001), 0x101);
    let mut cs = ConstraintSystem::new();
    let and_chip = U8AndChip::construct(U8AndChip::configure(&mut cs));
    let mut l = Layouter::new();
    let x = l.assign_advice(300);
    let y = l.assign_advice(0xff);
    let z = and_chip.and(&cs, &mut l, x, y);
    assert_eq!(l.value(z), 300 & 0xff);
    assert!(!l.is_satisfied(&cs));
}

#[test]
fn xor_block_and_mask() {
    let mut cs = ConstraintSystem::new();
    let xor_chip = U8XorChip::construct(U8XorChip::configure(&mut cs));
    let and_chip = U8AndChip::construct(U8AndChip::configure(&mut cs));
    let mut l = Layouter::new();
    let a = l.assign_bytes(&vec![1, 2, 3]);
    let b = l.assign_bytes(&vec![3, 3, 3]);
    let m = l.assign_bytes(&vec![0x02]);
    let x = xor_chip.xor_block(&cs, &mut l, &a, &b);
    let y = and_chip.and_mask(&cs, &mut l, &a, m[0]);
    assert_eq!(l.read_bytes(&x), Some(vec![2, 1, 0]));
    assert_eq!(l.read_bytes(&y), Some(vec![0, 2, 2]));
    assert!(l.is_satisfied(&cs));
}
