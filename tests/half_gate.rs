use proof_of_gc::{
    half_gate_reference, CircuitError, ConstraintSystem, EncryptedGate, EvalCircuit, Gate, GateKind,
    GenCircuit, GenConfig, HalfGateChip, HalfGateConfig, Layouter, U8AndChip, U8XorChip,
};

fn setup() -> (ConstraintSystem, HalfGateConfig) {
    let mut cs = ConstraintSystem::new();
    let xor_cfg = U8XorChip::configure(&mut cs);
    let and_cfg = U8AndChip::configure(&mut cs);
    let cfg = HalfGateChip::configure(xor_cfg, and_cfg);
    (cs, cfg)
}

/// Lays out one half gate against committed rows and returns the layouter,
/// the derived rows and output label, and whether the layout is satisfied.
fn run_with(
    x: &Vec<u8>,
    y: &Vec<u8>,
    d: &Vec<u8>,
    gid: u128,
    t_g_pub: &Vec<u8>,
    t_e_pub: &Vec<u8>,
) -> (Layouter, Vec<u8>, Vec<u8>, Vec<u8>, bool) {
    let (cs, cfg) = setup();
    let chip = HalfGateChip::construct(cfg);
    let mut l = Layouter::new();
    let xs = l.assign_bytes(x);
    let ys = l.assign_bytes(y);
    let ds = l.assign_bytes(d);
    let out = chip.generate_half_gate(&cs, &mut l, &xs, &ys, &ds, gid, t_g_pub, t_e_pub).unwrap();
    let t_g = l.read_bytes(&out.t_g).unwrap();
    let t_e = l.read_bytes(&out.t_e).unwrap();
    let z_0 = l.read_bytes(&out.z_0).unwrap();
    let ok = l.is_satisfied(&cs);
    (l, t_g, t_e, z_0, ok)
}

/// Lays out one half gate against the honestly garbled rows.
fn run(x: &Vec<u8>, y: &Vec<u8>, d: &Vec<u8>, gid: u128) -> (Layouter, Vec<u8>, Vec<u8>, Vec<u8>, bool) {
    let (t_g, t_e, _) = half_gate_reference(x, y, d, gid);
    run_with(x, y, d, gid, &t_g, &t_e)
}

#[test]
fn test_half_gate_chip() {
    // The offset's lowest bit is 0 here, which the chip must reject.
    let (_, _, _, _, ok) = run(&vec![0u8; 16], &vec![1u8; 16], &vec![2u8; 16], 0);
    assert!(!ok);
    let mut d = vec![2u8; 16];
    d[0] |= 1;
    let (_, _, _, _, ok) = run(&vec![0u8; 16], &vec![1u8; 16], &d, 0);
    assert!(ok);
}

#[test]
fn chip_binds_committed_rows() {
    let x = vec![0u8; 16];
    let y = vec![1u8; 16];
    let mut d = vec![2u8; 16];
    d[0] |= 1;
    let (t_g, t_e, z_0) = half_gate_reference(&x, &y, &d, 0);
    let (_, g, e, z, ok) = run_with(&x, &y, &d, 0, &t_g, &t_e);
    assert!(ok);
    assert_eq!((g, e, z), (t_g.clone(), t_e.clone(), z_0.clone()));
    let mut bad = t_g.clone();
    bad[0] ^= 0x01;
    let (_, _, _, z, ok) = run_with(&x, &y, &d, 0, &bad, &t_e);
    assert!(!ok);
    assert_eq!(z, z_0);
    let mut bad = t_e.clone();
    bad[15] ^= 0x80;
    let (_, _, _, _, ok) = run_with(&x, &y, &d, 0, &t_g, &bad);
    assert!(!ok);
}

#[test]
fn in_circuit_matches_reference() {
    let cases: Vec<(Vec<u8>, Vec<u8>, Vec<u8>, u128)> = vec![
        (vec![0u8; 16], vec![1u8; 16], vec![3u8; 16], 0),
        ((0u8..16).collect(), (16u8..32).collect(), (100u8..116).collect(), 7),
        (vec![0xff; 16], vec![0xfe; 16], vec![0x81; 16], 1 << 100),
        ((0u8..16).map(|i| i * 17).collect(), vec![0x55; 16], vec![0xa5; 16], 42),
    ];
    for (x, y, d, gid) in cases {
        let (_, t_g, t_e, z_0, ok) = run(&x, &y, &d, gid);
        let (rt_g, rt_e, rz_0) = half_gate_reference(&x, &y, &d, gid);
        assert_eq!(t_g, rt_g);
        assert_eq!(t_e, rt_e);
        assert_eq!(z_0, rz_0);
        assert_eq!(ok, d[0] & 1 == 1);
    }
}

#[test]
fn reference_formula_by_color_bits() {
    // With both color bits 0 the selections drop out.
    let x = vec![0u8; 16];
    let y = vec![2u8; 16];
    let d = vec![3u8; 16];
    let (t_g, t_e, z_0) = half_gate_reference(&x, &y, &d, 4);
    let h = |b: &Vec<u8>, t: u128| proof_of_gc::tccr(b, t);
    let xr = proof_of_gc::xor_blocks;
    let x1 = xr(&x, &d);
    let y1 = xr(&y, &d);
    assert_eq!(t_g, xr(&h(&x, 4), &h(&x1, 5)));
    assert_eq!(t_e, xr(&xr(&h(&y, 4), &h(&y1, 5)), &x));
    assert_eq!(z_0, xr(&h(&x, 4), &h(&y, 4)));
    // With the color bit of y set, t_g also takes delta in.
    let y = vec![1u8; 16];
    let y1 = xr(&y, &d);
    let (t_g, _, _) = half_gate_reference(&x, &y, &d, 4);
    assert_eq!(t_g, xr(&xr(&h(&x, 4), &h(&x1, 5)), &d));
    let _ = y1;
}

#[test]
fn witness_assignment_is_deterministic() {
    let x: Vec<u8> = (3u8..19).collect();
    let y: Vec<u8> = (40u8..56).collect();
    let d = vec![0x11u8; 16];
    let a = run(&x, &y, &d, 10);
    let b = run(&x, &y, &d, 10);
    assert_eq!(a.1, b.1);
    assert_eq!(a.2, b.2);
    assert_eq!(a.3, b.3);
}

#[test]
fn wrong_label_width_is_refused() {
    let (cs, cfg) = setup();
    let chip = HalfGateChip::construct(cfg);
    let mut l = Layouter::new();
    let xs = l.assign_bytes(&vec![0u8; 15]);
    let ys = l.assign_bytes(&vec![0u8; 16]);
    let ds = l.assign_bytes(&vec![1u8; 16]);
    let before = l.num_cells();
    let row = vec![0u8; 16];
    let r = chip.generate_half_gate(&cs, &mut l, &xs, &ys, &ds, 0, &row, &row);
    assert!(matches!(r, Err(CircuitError::WitnessShape)));
    assert_eq!(l.num_cells(), before);
    let r = chip.generate_half_gate(&cs, &mut l, &ys, &ys, &ds, 0, &vec![0u8; 15], &row);
    assert!(matches!(r, Err(CircuitError::WitnessShape)));
    assert_eq!(l.num_cells(), before);
    assert!(matches!(chip.constrain_delta_lsb(&cs, &mut l, &xs), Err(CircuitError::WitnessShape)));
}

#[test]
fn delta_lsb_must_be_one() {
    for (d0, expect) in [(2u8, false), (3u8, true), (0u8, false), (0xffu8, true)] {
        let (cs, cfg) = setup();
        let chip = HalfGateChip::construct(cfg);
        let mut l = Layouter::new();
        let mut d = vec![2u8; 16];
        d[0] = d0;
        let ds = l.assign_bytes(&d);
        chip.constrain_delta_lsb(&cs, &mut l, &ds).unwrap();
        assert_eq!(l.is_satisfied(&cs), expect);
    }
}

fn and_circuit(rows: Vec<EncryptedGate>) -> GenCircuit {
    GenCircuit::new(2, vec![Gate { kind: GateKind::And, x: 0, y: 1, gid: 0 }], rows)
}

#[test]
fn end_to_end_single_and_gate() {
    let x = vec![0u8; 16];
    let y = vec![1u8; 16];
    let mut d = vec![2u8; 16];
    d[0] |= 1;
    let (t_g, t_e, z_0) = half_gate_reference(&x, &y, &d, 0);

    let mut cs = ConstraintSystem::new();
    let cfg = GenConfig::configure(&mut cs);
    let circ = and_circuit(vec![EncryptedGate { t_g: t_g.clone(), t_e: t_e.clone() }]);
    let mut l = Layouter::new();
    let wires = cfg.assign(&cs, &mut l, &circ, &vec![x.clone(), y.clone()], &d).unwrap().wires;
    assert_eq!(wires.len(), 3);
    assert_eq!(l.read_bytes(&wires[2]), Some(z_0));
    assert!(l.is_satisfied(&cs));

    // A committed row that differs in one byte does not verify.
    let mut bad = t_g.clone();
    bad[5] ^= 1;
    let circ = and_circuit(vec![EncryptedGate { t_g: bad, t_e }]);
    let mut l = Layouter::new();
    cfg.assign(&cs, &mut l, &circ, &vec![x.clone(), y.clone()], &d).unwrap();
    assert!(!l.is_satisfied(&cs));

    // An offset whose color bit is 0 does not verify either.
    let (t_g, t_e, _) = half_gate_reference(&x, &y, &vec![2u8; 16], 0);
    let circ = and_circuit(vec![EncryptedGate { t_g, t_e }]);
    let mut l = Layouter::new();
    cfg.assign(&cs, &mut l, &circ, &vec![x, y], &vec![2u8; 16]).unwrap();
    assert!(!l.is_satisfied(&cs));
}

#[test]
fn tampered_output_label_is_caught() {
    let x = vec![9u8; 16];
    let y = vec![4u8; 16];
    let d = vec![5u8; 16];
    let (t_g, t_e, _) = half_gate_reference(&x, &y, &d, 0);
    let mut cs = ConstraintSystem::new();
    let cfg = GenConfig::configure(&mut cs);
    let circ = and_circuit(vec![EncryptedGate { t_g, t_e }]);
    let mut l = Layouter::new();
    let cells = cfg.assign(&cs, &mut l, &circ, &vec![x, y], &d).unwrap();
    assert!(l.is_satisfied(&cs));
    let c = cells.wires[2][0];
    let v = l.value(c);
    l.set_advice(c, v ^ 1);
    assert!(!l.is_satisfied(&cs));
}

#[test]
fn xor_gates_are_free_and_labels_thread_through() {
    let a = vec![0x10u8; 16];
    let b = vec![0x22u8; 16];
    let c = vec![0x04u8; 16];
    let d = vec![0x81u8; 16];
    // w3 = a ^ b; w4 = w3 & c (GateId 1); w5 = w4 & a (GateId 7)
    let ab = proof_of_gc::xor_blocks(&a, &b);
    let (tg0, te0, z4) = half_gate_reference(&ab, &c, &d, 1);
    let (tg1, te1, z5) = half_gate_reference(&z4, &a, &d, 7);
    let gates = vec![
        Gate { kind: GateKind::Xor, x: 0, y: 1, gid: 0 },
        Gate { kind: GateKind::And, x: 3, y: 2, gid: 1 },
        Gate { kind: GateKind::And, x: 4, y: 0, gid: 7 },
    ];
    let rows = vec![
        EncryptedGate { t_g: tg0, t_e: te0 },
        EncryptedGate { t_g: tg1, t_e: te1 },
    ];
    let circ = GenCircuit::new(3, gates, rows);
    let mut cs = ConstraintSystem::new();
    let cfg = GenConfig::configure(&mut cs);
    let mut l = Layouter::new();
    let cells = cfg.assign(&cs, &mut l, &circ, &vec![a, b, c], &d).unwrap();
    assert_eq!(l.read_bytes(&cells.delta), Some(d.clone()));
    let wires = cells.wires;
    assert_eq!(l.read_bytes(&wires[3]), Some(ab));
    assert_eq!(l.read_bytes(&wires[4]), Some(z4));
    assert_eq!(l.read_bytes(&wires[5]), Some(z5));
    assert!(l.is_satisfied(&cs));
}

#[test]
fn circuit_shape_errors() {
    let mut cs = ConstraintSystem::new();
    let cfg = GenConfig::configure(&mut cs);
    let d = vec![1u8; 16];
    let inputs = vec![vec![0u8; 16], vec![1u8; 16]];
    let row = || EncryptedGate { t_g: vec![0u8; 16], t_e: vec![0u8; 16] };

    let mut l = Layouter::new();
    let r = cfg.assign(&cs, &mut l, &and_circuit(vec![row()]), &vec![vec![0u8; 16]], &d);
    assert!(matches!(r, Err(CircuitError::WitnessShape)));
    let r = cfg.assign(&cs, &mut l, &and_circuit(vec![row()]), &inputs, &vec![1u8; 8]);
    assert!(matches!(r, Err(CircuitError::WitnessShape)));

    let circ = GenCircuit::new(2, vec![Gate { kind: GateKind::And, x: 0, y: 2, gid: 0 }], vec![row()]);
    let r = cfg.assign(&cs, &mut l, &circ, &inputs, &d);
    assert!(matches!(r, Err(CircuitError::UnknownWire)));

    // Tweak pairs (4, 5) and (5, 6) overlap; so would a GateId of u128::MAX.
    let gates = vec![
        Gate { kind: GateKind::And, x: 0, y: 1, gid: 4 },
        Gate { kind: GateKind::And, x: 2, y: 1, gid: 5 },
    ];
    let circ = GenCircuit::new(2, gates, vec![row(), row()]);
    let r = cfg.assign(&cs, &mut l, &circ, &inputs, &d);
    assert!(matches!(r, Err(CircuitError::TweakReuse)));
    let circ = GenCircuit::new(2, vec![Gate { kind: GateKind::And, x: 0, y: 1, gid: u128::MAX }], vec![row()]);
    let r = cfg.assign(&cs, &mut l, &circ, &inputs, &d);
    assert!(matches!(r, Err(CircuitError::TweakReuse)));

    let r = cfg.assign(&cs, &mut l, &and_circuit(vec![]), &inputs, &d);
    assert!(matches!(r, Err(CircuitError::TableShape)));
    let short = EncryptedGate { t_g: vec![0u8; 15], t_e: vec![0u8; 16] };
    let r = cfg.assign(&cs, &mut l, &and_circuit(vec![short]), &inputs, &d);
    assert!(matches!(r, Err(CircuitError::TableShape)));
    assert_eq!(l.num_cells(), 0);
}

#[test]
fn eval_circuit_holds_its_parts() {
    let gates = vec![Gate { kind: GateKind::And, x: 0, y: 1, gid: 0 }];
    let rows = vec![EncryptedGate { t_g: vec![1u8; 16], t_e: vec![2u8; 16] }];
    let e = EvalCircuit::new(gates, rows, vec![vec![3u8; 16], vec![4u8; 16]]);
    assert_eq!(e.gates.len(), 1);
    assert_eq!(e.encrypted_gates[0].t_e, vec![2u8; 16]);
    assert_eq!(e.inputs[1], vec![4u8; 16]);
}
