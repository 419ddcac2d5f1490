use proof_of_gc::{be_bytes, encrypt_block, tccr, xor_blocks, ConstraintSystem, HashChip, Layouter, FIXED_KEY};

fn hex(s: &str) -> Vec<u8> {
    (0..s.len()).step_by(2).map(|i| u8::from_str_radix(&s[i..i + 2], 16).unwrap()).collect()
}

#[test]
fn aes128_known_answer() {
    let key: u128 = 0x000102030405060708090a0b0c0d0e0f;
    let pt = hex("00112233445566778899aabbccddeeff");
    assert_eq!(encrypt_block(key, &pt), hex("69c4e0d86a7b0430d8cdb78070b4c55a"));
    let key2: u128 = 0x2b7e151628aed2a6abf7158809cf4f3c;
    let pt2 = hex("3243f6a8885a308d313198a2e0370734");
    assert_eq!(encrypt_block(key2, &pt2), hex("3925841d02dc09fbdc118597196a0b32"));
}

#[test]
fn big_endian_tweak_bytes() {
    assert_eq!(be_bytes(0), vec![0u8; 16]);
    let mut one = vec![0u8; 16];
    one[15] = 1;
    assert_eq!(be_bytes(1), one);
    assert_eq!(
        be_bytes(0x0102030405060708090a0b0c0d0e0f10),
        (1u8..=16).collect::<Vec<u8>>()
    );
}

#[test]
fn xor_of_blocks() {
    assert_eq!(xor_blocks(&vec![0xff, 0x0f], &vec![0x0f, 0x0f]), vec![0xf0, 0x00]);
}

#[test]
fn tccr_is_davies_meyer_over_fixed_key() {
    let x: Vec<u8> = (0u8..16).collect();
    let tweak: u128 = 5;
    let m = xor_blocks(&x, &be_bytes(tweak));
    let e = encrypt_block(FIXED_KEY, &m);
    let expected = xor_blocks(&e, &m);
    let h = tccr(&x, tweak);
    assert_eq!(h, expected);
    assert_ne!(h, x);
    assert_ne!(tccr(&x, 6), h);
}

#[test]
fn hash_chip_constrains_its_output() {
    let cs = ConstraintSystem::new();
    let mut l = Layouter::new();
    let x: Vec<u8> = vec![7u8; 16];
    let xs = l.assign_bytes(&x);
    let hs = HashChip::construct().hash(&cs, &mut l, &xs, 9);
    assert_eq!(l.read_bytes(&hs), Some(tccr(&x, 9)));
    assert!(l.is_satisfied(&cs));
    let v = l.value(hs[3]);
    l.set_advice(hs[3], (v + 1) % 256);
    assert!(!l.is_satisfied(&cs));
}
