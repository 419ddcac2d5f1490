use vstd::prelude::*;
use aes::cipher::{BlockEncrypt, KeyInit};

verus! {

/// The public key of the fixed-key block cipher, as a big-endian integer.
pub const FIXED_KEY: u128 = 0x452a452a452a452a452a452a452a452a;

/// What AES-128 under `key` (big-endian bytes) makes of a 16-byte block.
pub uninterp spec fn aes128_of(key: u128, block: Seq<u8>) -> Seq<u8>;

/// Relies on `aes::Aes128` (`KeyInit::new`, `BlockEncrypt::encrypt_block`):
/// one block encrypted under a 128-bit key, which gives 16 bytes.
#[verifier::external_body]
fn aes128_encrypt(key: u128, block: &Vec<u8>) -> (r: Vec<u8>)
    requires
        block@.len() == 16,
    ensures
        r@ == aes128_of(key, block@),
        r@.len() == 16,
{
    let k = aes::Block::clone_from_slice(&key.to_be_bytes());
    let cipher = aes::Aes128::new(&k);
    let mut b = aes::Block::clone_from_slice(block.as_slice());
    cipher.encrypt_block(&mut b);
    b.to_vec()
}

/// Byte `i` of the big-endian encoding of `v`.
pub open spec fn be_byte(v: u128, i: int) -> u8 {
    ((v >> ((8 * (15 - i)) as u128)) & 0xff) as u8
}

/// The 16 big-endian bytes of `v`.
pub open spec fn be_bytes_spec(v: u128) -> Seq<u8> {
    Seq::new(16, |i: int| be_byte(v, i))
}

/// Byte-wise XOR of two blocks.
pub open spec fn xor_spec(a: Seq<u8>, b: Seq<u8>) -> Seq<u8> {
    Seq::new(a.len(), |i: int| a[i] ^ b[i])
}

/// The tweakable hash: `E_k(x ^ t) ^ x ^ t` under the fixed key, where `t`
/// is the tweak's big-endian encoding.
pub open spec fn tccr_spec(x: Seq<u8>, tweak: u128) -> Seq<u8> {
    let t = be_bytes_spec(tweak);
    let m = xor_spec(x, t);
    xor_spec(aes128_of(FIXED_KEY, m), m)
}

/// The 16 big-endian bytes of `v`.
pub fn be_bytes(v: u128) -> (r: Vec<u8>)
    ensures
        r@ == be_bytes_spec(v),
{
    let mut r: Vec<u8> = Vec::new();
    let mut i: usize = 0;
    while i < 16
        invariant
            i <= 16,
            r@.len() == i,
            forall|j: int| 0 <= j < i ==> r@[j] == be_byte(v, j),
        decreases 16 - i,
    {
        let s: u128 = (8 * (15 - i)) as u128;
        r.push(((v >> s) & 0xff) as u8);
        i = i + 1;
    }
    assert(r@ =~= be_bytes_spec(v));
    r
}

/// Byte-wise XOR of two blocks of equal length.
pub fn xor_blocks(a: &Vec<u8>, b: &Vec<u8>) -> (r: Vec<u8>)
    requires
        a@.len() == b@.len(),
    ensures
        r@ == xor_spec(a@, b@),
{
    let mut r: Vec<u8> = Vec::new();
    let mut i: usize = 0;
    while i < a.len()
        invariant
            i <= a@.len(),
            a@.len() == b@.len(),
            r@.len() == i,
            forall|j: int| 0 <= j < i ==> r@[j] == a@[j] ^ b@[j],
        decreases a@.len() - i,
    {
        r.push(a[i] ^ b[i]);
        i = i + 1;
    }
    assert(r@ =~= xor_spec(a@, b@));
    r
}

/// One 16-byte block encrypted with AES-128 under `key`.
pub fn encrypt_block(key: u128, block: &Vec<u8>) -> (r: Vec<u8>)
    requires
        block@.len() == 16,
    ensures
        r@ == aes128_of(key, block@),
        r@.len() == 16,
{
    aes128_encrypt(key, block)
}

/// The tweakable correlation-robust hash of a 16-byte block.
pub fn tccr(x: &Vec<u8>, tweak: u128) -> (r: Vec<u8>)
    requires
        x@.len() == 16,
    ensures
        r@ == tccr_spec(x@, tweak),
        r@.len() == 16,
{
    let t = be_bytes(tweak);
    let m = xor_blocks(x, &t);
    let e = aes128_encrypt(FIXED_KEY, &m);
    xor_blocks(&e, &m)
}

} // verus!
