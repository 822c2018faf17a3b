//! Interface to the homomorphic-encryption collaborator.
//!
//! Ciphertext scalars are opaque: the only facts available about them are
//! the contracts of the trusted wrappers below. The collaborator's
//! arithmetic is exact integer arithmetic modulo `MODULUS` (a Mersenne
//! prime), so every decrypted value is a residue in `[0, MODULUS)`.
//!
//! `key_ok` names the shape of a freshly generated key pair (two mutually
//! inverse, fully reduced matrices); `cipher_for` names the shape of a
//! ciphertext produced under such a key pair by encryption and by the
//! homomorphic operations; `dec_of` names the result of decryption, which
//! is a deterministic function of the ciphertext and the key pair.

use vstd::prelude::*;
use gmorph::Decrypt;
use gmorph::Enc;
use gmorph::Encrypt;
use gmorph::KeyPair;

verus! {

#[verifier::external_type_specification]
#[verifier::external_body]
pub struct ExEnc(Enc);

#[verifier::external_type_specification]
#[verifier::external_body]
pub struct ExKeyPair(KeyPair);

/// The modulus of the encryption collaborator's plaintext arithmetic.
pub const MODULUS: u32 = 2147483647;

/// The key pair was produced by key generation: its two matrices are
/// mutually inverse and fully reduced.
pub uninterp spec fn key_ok(k: KeyPair) -> bool;

/// `e` has the algebraic shape of a ciphertext produced under `k`, either
/// by encryption or by homomorphic addition or multiplication of such
/// ciphertexts.
pub uninterp spec fn cipher_for(e: Enc, k: KeyPair) -> bool;

/// The plaintext residue that decrypting `e` with `k` yields; decryption
/// is deterministic, so this is a function of the two arguments alone.
pub uninterp spec fn dec_of(e: Enc, k: KeyPair) -> u32;

/// Residue addition: what homomorphic addition does to decrypted values.
pub open spec fn add_mod(a: u32, b: u32) -> u32 {
    ((a + b) % (MODULUS as int)) as u32
}

/// Residue multiplication: what homomorphic multiplication does to
/// decrypted values.
pub open spec fn mul_mod(a: u32, b: u32) -> u32 {
    ((a * b) % (MODULUS as int)) as u32
}

/// Every ciphertext of the series is a well-formed ciphertext under `k`.
pub open spec fn all_ciphers(s: Seq<Enc>, k: KeyPair) -> bool {
    forall|i: int| 0 <= i < s.len() ==> cipher_for(#[trigger] s[i], k)
}

/// The plaintext residues of a ciphertext series under `k`.
pub open spec fn decs(s: Seq<Enc>, k: KeyPair) -> Seq<u32> {
    s.map_values(|e: Enc| dec_of(e, k))
}

/// Relies on gmorph's KeyPair::new: it retries random matrices until an
/// invertible one is found, and returns it with its two-sided inverse,
/// all entries reduced.
#[verifier::external_body]
pub fn keygen() -> (k: KeyPair)
    ensures
        key_ok(k),
{
    KeyPair::new()
}

/// Relies on gmorph's Enc::encrypt: the plaintext is reduced modulo
/// `MODULUS` and embedded in a ciphertext of `k`; decrypting with the same
/// key pair recovers the reduced plaintext.
#[verifier::external_body]
pub fn encrypt(k: &KeyPair, v: u32) -> (e: Enc)
    requires
        key_ok(*k),
    ensures
        cipher_for(e, *k),
        dec_of(e, *k) == v % MODULUS,
{
    Enc::encrypt(k, v)
}

/// Relies on gmorph's Decrypt::decrypt: deterministic matrix arithmetic
/// on the ciphertext and the key pair; `dec_of` names its result.
#[verifier::external_body]
pub fn decrypt(e: &Enc, k: &KeyPair) -> (v: u32)
    requires
        key_ok(*k),
        cipher_for(*e, *k),
    ensures
        v == dec_of(*e, *k),
{
    e.decrypt(k)
}

/// Relies on gmorph's homomorphic addition (Add for Enc): the sum of two
/// ciphertexts of one key pair is a ciphertext of that key pair, and it
/// decrypts to the sum of the residues, modulo `MODULUS`.
#[verifier::external_body]
pub fn add_enc(a: &Enc, b: &Enc) -> (r: Enc)
    requires
        exists|k: KeyPair| key_ok(k) && cipher_for(*a, k) && cipher_for(*b, k),
    ensures
        forall|k: KeyPair|
            key_ok(k) && cipher_for(*a, k) && cipher_for(*b, k) ==> cipher_for(r, k) && dec_of(
                r,
                k,
            ) == add_mod(dec_of(*a, k), dec_of(*b, k)),
{
    *a + *b
}

/// Relies on gmorph's homomorphic multiplication (Mul for Enc): the
/// product of two ciphertexts of one key pair is a ciphertext of that key
/// pair, and it decrypts to the product of the residues, modulo `MODULUS`.
#[verifier::external_body]
pub fn mul_enc(a: &Enc, b: &Enc) -> (r: Enc)
    requires
        exists|k: KeyPair| key_ok(k) && cipher_for(*a, k) && cipher_for(*b, k),
    ensures
        forall|k: KeyPair|
            key_ok(k) && cipher_for(*a, k) && cipher_for(*b, k) ==> cipher_for(r, k) && dec_of(
                r,
                k,
            ) == mul_mod(dec_of(*a, k), dec_of(*b, k)),
{
    *a * *b
}

/// Encrypt each element of a plaintext series under one key pair.
pub fn encrypt_series(k: &KeyPair, v: &Vec<u32>) -> (r: Vec<Enc>)
    requires
        key_ok(*k),
    ensures
        r@.len() == v@.len(),
        all_ciphers(r@, *k),
        forall|i: int| 0 <= i < v@.len() ==> dec_of(#[trigger] r@[i], *k) == v@[i] % MODULUS,
{
    let mut r: Vec<Enc> = Vec::new();
    let mut i: usize = 0;
    while i < v.len()
        invariant
            i <= v@.len(),
            r@.len() == i,
            key_ok(*k),
            forall|j: int|
                0 <= j < i ==> cipher_for(#[trigger] r@[j], *k) && dec_of(r@[j], *k) == v@[j]
                    % MODULUS,
        decreases v@.len() - i,
    {
        let e = encrypt(k, v[i]);
        r.push(e);
        i = i + 1;
    }
    r
}

/// Decrypt each element of a ciphertext series with one key pair.
pub fn decrypt_series(es: &Vec<Enc>, k: &KeyPair) -> (r: Vec<u32>)
    requires
        key_ok(*k),
        all_ciphers(es@, *k),
    ensures
        r@ == decs(es@, *k),
{
    let mut r: Vec<u32> = Vec::new();
    let mut i: usize = 0;
    while i < es.len()
        invariant
            i <= es@.len(),
            r@.len() == i,
            key_ok(*k),
            all_ciphers(es@, *k),
            forall|j: int| 0 <= j < i ==> r@[j] == dec_of(#[trigger] es@[j], *k),
        decreases es@.len() - i,
    {
        let v = decrypt(&es[i], k);
        r.push(v);
        i = i + 1;
    }
    proof {
        assert(r@ =~= decs(es@, *k));
    }
    r
}

/// Encrypting a series and decrypting it, with no chunking in between,
/// reproduces the plaintext series exactly, element for element, whenever
/// every plaintext value lies in the encryption domain `[0, MODULUS)`.
pub proof fn lemma_encrypt_decrypt_round_trip(k: KeyPair, vs: Seq<u32>, es: Seq<Enc>)
    requires
        key_ok(k),
        es.len() == vs.len(),
        forall|i: int| 0 <= i < vs.len() ==> vs[i] < MODULUS,
        forall|i: int| 0 <= i < vs.len() ==> dec_of(#[trigger] es[i], k) == vs[i] % MODULUS,
    ensures
        decs(es, k) =~= vs,
{
    assert forall|i: int| 0 <= i < vs.len() implies decs(es, k)[i] == vs[i] by {
        assert(vs[i] % MODULUS == vs[i]);
    }
}

} // verus!
