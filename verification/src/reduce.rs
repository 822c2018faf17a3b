//! Per-chunk reducer: partial encrypted dot products over one chunk pair.
//!
//! The reducer operates purely on ciphertext: it never requires the
//! private key, and its contract holds for every key pair the inputs are
//! ciphertexts of.

use vstd::prelude::*;
use gmorph::Enc;
use gmorph::KeyPair;
use crate::aggregate::sum_firsts;
use crate::aggregate::sum_seconds;
use crate::chunking::chunks_of;
use crate::chunking::lemma_chunks_of_len_eq;
use crate::errors::GudotError;
use crate::crypto::MODULUS;
use crate::crypto::add_enc;
use crate::crypto::add_mod;
use crate::crypto::all_ciphers;
use crate::crypto::cipher_for;
use crate::crypto::dec_of;
use crate::crypto::decs;
use crate::crypto::key_ok;
use crate::crypto::mul_enc;
use crate::crypto::mul_mod;

verus! {

/// Mathematical dot product of two equal-length series.
pub open spec fn dot_int(a: Seq<u32>, b: Seq<u32>) -> int
    recommends
        a.len() == b.len(),
    decreases a.len(),
{
    if a.len() == 0 {
        0
    } else {
        dot_int(a.drop_last(), b.drop_last()) + a.last() * b.last()
    }
}

/// Sum over all chunk pairs of the chunk's dot product: what the
/// aggregated partial results amount to.
pub open spec fn sum_chunk_dots(cx: Seq<Seq<u32>>, cy: Seq<Seq<u32>>) -> int
    recommends
        cx.len() == cy.len(),
    decreases cx.len(),
{
    if cx.len() == 0 {
        0
    } else {
        sum_chunk_dots(cx.drop_last(), cy.drop_last()) + dot_int(cx.last(), cy.last())
    }
}

/// A dot product of unsigned series is non-negative.
pub proof fn lemma_dot_int_nonneg(a: Seq<u32>, b: Seq<u32>)
    ensures
        dot_int(a, b) >= 0,
    decreases a.len(),
{
    if a.len() > 0 {
        lemma_dot_int_nonneg(a.drop_last(), b.drop_last());
        vstd::arithmetic::mul::lemma_mul_nonnegative(a.last() as int, b.last() as int);
    }
}

/// The dot product of concatenated series is the sum of the two dot
/// products, when the pieces pair up by length.
proof fn lemma_dot_int_concat(a: Seq<u32>, b: Seq<u32>, c: Seq<u32>, d: Seq<u32>)
    requires
        a.len() == b.len(),
        c.len() == d.len(),
    ensures
        dot_int(a + c, b + d) == dot_int(a, b) + dot_int(c, d),
    decreases c.len(),
{
    if c.len() == 0 {
        assert(a + c =~= a);
        assert(b + d =~= b);
    } else {
        lemma_dot_int_concat(a, b, c.drop_last(), d.drop_last());
        assert((a + c).drop_last() =~= a + c.drop_last());
        assert((b + d).drop_last() =~= b + d.drop_last());
        assert((a + c).last() == c.last());
        assert((b + d).last() == d.last());
    }
}

/// Prepending one chunk pair adds its dot product to the sum.
proof fn lemma_sum_chunk_dots_cons(h1: Seq<u32>, t1: Seq<Seq<u32>>, h2: Seq<u32>, t2: Seq<Seq<u32>>)
    requires
        t1.len() == t2.len(),
    ensures
        sum_chunk_dots(seq![h1] + t1, seq![h2] + t2) == dot_int(h1, h2) + sum_chunk_dots(t1, t2),
    decreases t1.len(),
{
    if t1.len() == 0 {
        assert(seq![h1] + t1 =~= seq![h1]);
        assert(seq![h2] + t2 =~= seq![h2]);
        assert(seq![h1].drop_last() =~= Seq::<Seq<u32>>::empty());
        assert(sum_chunk_dots(seq![h1].drop_last(), seq![h2].drop_last()) == 0);
    } else {
        lemma_sum_chunk_dots_cons(h1, t1.drop_last(), h2, t2.drop_last());
        assert((seq![h1] + t1).drop_last() =~= seq![h1] + t1.drop_last());
        assert((seq![h2] + t2).drop_last() =~= seq![h2] + t2.drop_last());
        assert((seq![h1] + t1).last() == t1.last());
        assert((seq![h2] + t2).last() == t2.last());
    }
}

/// Reduction is exact: for any chunking of an equal-length series pair
/// with a common positive chunk size, the per-chunk partial dot products
/// sum to the dot product of the whole series — no element is lost and
/// none is counted twice.
pub proof fn lemma_chunked_dot_product(x: Seq<u32>, y: Seq<u32>, size: nat)
    requires
        size > 0,
        x.len() == y.len(),
    ensures
        sum_chunk_dots(chunks_of(x, size), chunks_of(y, size)) == dot_int(x, y),
    decreases x.len(),
{
    if x.len() == 0 {
        assert(chunks_of(x, size) =~= Seq::<Seq<u32>>::empty());
        assert(chunks_of(y, size) =~= Seq::<Seq<u32>>::empty());
    } else if x.len() <= size {
        assert(chunks_of(x, size) =~= seq![x]);
        assert(chunks_of(y, size) =~= seq![y]);
        assert(seq![x].drop_last() =~= Seq::<Seq<u32>>::empty());
        assert(sum_chunk_dots(seq![x].drop_last(), seq![y].drop_last()) == 0);
    } else {
        let xf = x.subrange(0, size as int);
        let xr = x.subrange(size as int, x.len() as int);
        let yf = y.subrange(0, size as int);
        let yr = y.subrange(size as int, y.len() as int);
        lemma_chunked_dot_product(xr, yr, size);
        lemma_chunks_of_len_eq(xr, yr, size);
        lemma_sum_chunk_dots_cons(xf, chunks_of(xr, size), yf, chunks_of(yr, size));
        lemma_dot_int_concat(xf, yf, xr, yr);
        assert(xf + xr =~= x);
        assert(yf + yr =~= y);
        assert(chunks_of(x, size) =~= seq![xf] + chunks_of(xr, size));
        assert(chunks_of(y, size) =~= seq![yf] + chunks_of(yr, size));
    }
}

/// Every chunk's dot product lies between zero and the sum of all of them.
proof fn lemma_sum_chunk_dots_bounds(cx: Seq<Seq<u32>>, cy: Seq<Seq<u32>>)
    requires
        cx.len() == cy.len(),
    ensures
        sum_chunk_dots(cx, cy) >= 0,
        forall|i: int|
            0 <= i < cx.len() ==> dot_int(#[trigger] cx[i], cy[i]) <= sum_chunk_dots(cx, cy),
    decreases cx.len(),
{
    if cx.len() > 0 {
        lemma_sum_chunk_dots_bounds(cx.drop_last(), cy.drop_last());
        lemma_dot_int_nonneg(cx.last(), cy.last());
        assert forall|i: int| 0 <= i < cx.len() implies dot_int(#[trigger] cx[i], cy[i])
            <= sum_chunk_dots(cx, cy) by {
            if i < cx.len() - 1 {
                assert(cx.drop_last()[i] == cx[i]);
                assert(cy.drop_last()[i] == cy[i]);
            }
        }
    }
}

/// Integer ciphertext arithmetic loses no precision: when the whole dot
/// product lies in the encryption domain `[0, MODULUS)`, every chunk's
/// partial dot product is its own residue, and the plain sum of the
/// decrypted partial results equals the dot product of the whole series.
pub proof fn lemma_reduction_exact(x: Seq<u32>, y: Seq<u32>, size: nat)
    requires
        size > 0,
        x.len() == y.len(),
        dot_int(x, y) < MODULUS,
    ensures
        sum_chunk_dots(chunks_of(x, size), chunks_of(y, size)) == dot_int(x, y),
        forall|i: int|
            0 <= i < chunks_of(x, size).len() ==> dot_int(
                #[trigger] chunks_of(x, size)[i],
                chunks_of(y, size)[i],
            ) % (MODULUS as int) == dot_int(chunks_of(x, size)[i], chunks_of(y, size)[i]),
{
    let cx = chunks_of(x, size);
    let cy = chunks_of(y, size);
    lemma_chunked_dot_product(x, y, size);
    lemma_chunks_of_len_eq(x, y, size);
    lemma_sum_chunk_dots_bounds(cx, cy);
    assert forall|i: int| 0 <= i < cx.len() implies dot_int(#[trigger] cx[i], cy[i]) % (
    MODULUS as int) == dot_int(cx[i], cy[i]) by {
        lemma_dot_int_nonneg(cx[i], cy[i]);
        vstd::arithmetic::div_mod::lemma_small_mod(
            dot_int(cx[i], cy[i]) as nat,
            MODULUS as nat,
        );
    }
}

/// The first components of the decrypted partial results sum to the sum
/// of the per-chunk dot products they equal.
proof fn lemma_sum_firsts_matches(ds: Seq<(u32, u32)>, cx: Seq<Seq<u32>>, cy: Seq<Seq<u32>>)
    requires
        ds.len() == cx.len(),
        cx.len() == cy.len(),
        forall|i: int| 0 <= i < ds.len() ==> (#[trigger] ds[i]).0 == dot_int(cx[i], cy[i]),
    ensures
        sum_firsts(ds) == sum_chunk_dots(cx, cy),
    decreases ds.len(),
{
    if ds.len() > 0 {
        lemma_sum_firsts_matches(ds.drop_last(), cx.drop_last(), cy.drop_last());
        assert(ds[ds.len() - 1].0 == dot_int(cx.last(), cy.last()));
    }
}

/// The second components of the decrypted partial results sum to the sum
/// of the per-chunk dot products they equal.
proof fn lemma_sum_seconds_matches(ds: Seq<(u32, u32)>, cx: Seq<Seq<u32>>, cy: Seq<Seq<u32>>)
    requires
        ds.len() == cx.len(),
        cx.len() == cy.len(),
        forall|i: int| 0 <= i < ds.len() ==> (#[trigger] ds[i]).1 == dot_int(cx[i], cy[i]),
    ensures
        sum_seconds(ds) == sum_chunk_dots(cx, cy),
    decreases ds.len(),
{
    if ds.len() > 0 {
        lemma_sum_seconds_matches(ds.drop_last(), cx.drop_last(), cy.drop_last());
        assert(ds[ds.len() - 1].1 == dot_int(cx.last(), cy.last()));
    }
}

/// End to end: when the whole dot products lie in the encryption domain,
/// the aggregated sums over the decrypted partial results — each partial
/// the residue of its chunk's dot product, exactly what one reducer task
/// computes and decryption yields — equal the dot products of the whole
/// series pair. The aggregate is therefore independent of the chunk count
/// and the chunk size.
pub proof fn lemma_aggregate_matches_dot(x: Seq<u32>, y: Seq<u32>, size: nat, ds: Seq<(u32, u32)>)
    requires
        size > 0,
        x.len() == y.len(),
        dot_int(x, y) < MODULUS,
        dot_int(x, x) < MODULUS,
        ds.len() == chunks_of(x, size).len(),
        forall|i: int|
            0 <= i < ds.len() ==> (#[trigger] ds[i]).0 == dot_int(
                chunks_of(x, size)[i],
                chunks_of(y, size)[i],
            ) % (MODULUS as int) && ds[i].1 == dot_int(
                chunks_of(x, size)[i],
                chunks_of(x, size)[i],
            ) % (MODULUS as int),
    ensures
        sum_firsts(ds) == dot_int(x, y),
        sum_seconds(ds) == dot_int(x, x),
{
    let cx = chunks_of(x, size);
    let cy = chunks_of(y, size);
    lemma_reduction_exact(x, y, size);
    lemma_reduction_exact(x, x, size);
    lemma_chunks_of_len_eq(x, y, size);
    lemma_sum_firsts_matches(ds, cx, cy);
    lemma_sum_seconds_matches(ds, cx, cx);
}

/// Partial encrypted dot product of two ciphertext series, accumulated
/// left to right starting from the first term. The result is a ciphertext
/// of every key pair the inputs are ciphertexts of, and decrypts to the
/// dot product of the plaintext residues, modulo `MODULUS`.
pub fn dot_product_enc(v: &Vec<Enc>, w: &Vec<Enc>) -> (r: Result<Enc, GudotError>)
    requires
        exists|k: KeyPair| key_ok(k) && all_ciphers(v@, k) && all_ciphers(w@, k),
    ensures
        match r {
            Ok(e) => v@.len() > 0 && v@.len() == w@.len() && forall|k: KeyPair|
                key_ok(k) && all_ciphers(v@, k) && all_ciphers(w@, k) ==> cipher_for(e, k)
                    && dec_of(e, k) == dot_int(decs(v@, k), decs(w@, k)) % (MODULUS as int),
            Err(e) => (e == GudotError::EmptyVector && v@.len() == 0) || (
            e == GudotError::LengthMismatch && v@.len() > 0 && v@.len() != w@.len()),
        },
{
    let length = v.len();
    if length == 0 {
        return Err(GudotError::EmptyVector);
    }
    if length != w.len() {
        return Err(GudotError::LengthMismatch);
    }
    proof {
        let k0 = choose|k: KeyPair| key_ok(k) && all_ciphers(v@, k) && all_ciphers(w@, k);
        assert(cipher_for(v@[0], k0) && cipher_for(w@[0], k0));
    }
    let mut sum = mul_enc(&v[0], &w[0]);
    proof {
        assert forall|k: KeyPair|
            key_ok(k) && all_ciphers(v@, k) && all_ciphers(w@, k) implies cipher_for(sum, k)
            && dec_of(sum, k) == dot_int(decs(v@, k).take(1), decs(w@, k).take(1)) % (
        MODULUS as int) by {
            assert(cipher_for(v@[0], k) && cipher_for(w@[0], k));
            let a = decs(v@, k).take(1);
            let b = decs(w@, k).take(1);
            assert(a.len() == 1 && a.last() == dec_of(v@[0], k));
            assert(b.len() == 1 && b.last() == dec_of(w@[0], k));
            assert(a.drop_last().len() == 0);
            assert(dot_int(a.drop_last(), b.drop_last()) == 0);
            assert(dot_int(a, b) == dec_of(v@[0], k) * dec_of(w@[0], k));
        }
    }
    let mut i: usize = 1;
    while i < length
        invariant
            1 <= i <= length,
            length == v@.len(),
            length == w@.len(),
            exists|k: KeyPair| key_ok(k) && all_ciphers(v@, k) && all_ciphers(w@, k),
            forall|k: KeyPair|
                key_ok(k) && all_ciphers(v@, k) && all_ciphers(w@, k) ==> cipher_for(sum, k)
                    && dec_of(sum, k) == dot_int(
                    decs(v@, k).take(i as int),
                    decs(w@, k).take(i as int),
                ) % (MODULUS as int),
        decreases length - i,
    {
        proof {
            let k0 = choose|k: KeyPair| key_ok(k) && all_ciphers(v@, k) && all_ciphers(w@, k);
            assert(cipher_for(v@[i as int], k0) && cipher_for(w@[i as int], k0));
        }
        let prod = mul_enc(&v[i], &w[i]);
        proof {
            let k0 = choose|k: KeyPair| key_ok(k) && all_ciphers(v@, k) && all_ciphers(w@, k);
            assert(cipher_for(v@[i as int], k0) && cipher_for(w@[i as int], k0));
            assert(cipher_for(sum, k0) && cipher_for(prod, k0));
        }
        let next = add_enc(&sum, &prod);
        proof {
            assert forall|k: KeyPair|
                key_ok(k) && all_ciphers(v@, k) && all_ciphers(w@, k) implies cipher_for(next, k)
                && dec_of(next, k) == dot_int(
                decs(v@, k).take(i as int + 1),
                decs(w@, k).take(i as int + 1),
            ) % (MODULUS as int) by {
                let dv = decs(v@, k);
                let dw = decs(w@, k);
                let a = dv[i as int];
                let b = dw[i as int];
                assert(cipher_for(v@[i as int], k) && cipher_for(w@[i as int], k));
                assert(cipher_for(prod, k) && dec_of(prod, k) == mul_mod(a, b));
                assert(cipher_for(sum, k) && dec_of(sum, k) == dot_int(
                    dv.take(i as int),
                    dw.take(i as int),
                ) % (MODULUS as int));
                assert(cipher_for(next, k) && dec_of(next, k) == add_mod(
                    dec_of(sum, k),
                    dec_of(prod, k),
                ));
                let t = dot_int(dv.take(i as int), dw.take(i as int));
                let m = MODULUS as int;
                assert(dv.take(i as int + 1).drop_last() =~= dv.take(i as int));
                assert(dw.take(i as int + 1).drop_last() =~= dw.take(i as int));
                assert(dot_int(dv.take(i as int + 1), dw.take(i as int + 1)) == t + a * b);
                vstd::arithmetic::div_mod::lemma_add_mod_noop(t, a * b, m);
                assert(dec_of(prod, k) == (a * b) % m);
                assert(dec_of(next, k) == ((t % m) + ((a * b) % m)) % m);
            }
        }
        sum = next;
        i = i + 1;
    }
    proof {
        assert forall|k: KeyPair|
            key_ok(k) && all_ciphers(v@, k) && all_ciphers(w@, k) implies cipher_for(sum, k)
            && dec_of(sum, k) == dot_int(decs(v@, k), decs(w@, k)) % (MODULUS as int) by {
            assert(decs(v@, k).take(length as int) =~= decs(v@, k));
            assert(decs(w@, k).take(length as int) =~= decs(w@, k));
        }
    }
    Ok(sum)
}

/// One chunk task: both partial dot products of a chunk pair, the
/// cross product `x . y` and the square product `x . x`.
pub fn exec(x: Vec<Enc>, y: Vec<Enc>) -> (r: Result<(Enc, Enc), GudotError>)
    requires
        exists|k: KeyPair| key_ok(k) && all_ciphers(x@, k) && all_ciphers(y@, k),
    ensures
        match r {
            Ok(p) => x@.len() > 0 && x@.len() == y@.len() && forall|k: KeyPair|
                key_ok(k) && all_ciphers(x@, k) && all_ciphers(y@, k) ==> cipher_for(p.0, k)
                    && cipher_for(p.1, k) && dec_of(p.0, k) == dot_int(decs(x@, k), decs(y@, k)) % (
                MODULUS as int) && dec_of(p.1, k) == dot_int(decs(x@, k), decs(x@, k)) % (
                MODULUS as int),
            Err(e) => (e == GudotError::EmptyVector && x@.len() == 0) || (
            e == GudotError::LengthMismatch && x@.len() > 0 && x@.len() != y@.len()),
        },
{
    let xy = match dot_product_enc(&x, &y) {
        Ok(e) => e,
        Err(er) => {
            return Err(er);
        },
    };
    let xx = match dot_product_enc(&x, &x) {
        Ok(e) => e,
        Err(er) => {
            return Err(er);
        },
    };
    Ok((xy, xx))
}

} // verus!
