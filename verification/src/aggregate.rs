//! Aggregator: decrypt the collected partial results and combine them into
//! one pair of global sums.
//!
//! Aggregation is plain commutative, associative integer addition, so the
//! result is independent of the order in which partial results arrived —
//! only their multiset matters.

use vstd::prelude::*;
use vstd::seq_lib::group_to_multiset_ensures;
use gmorph::Enc;
use gmorph::KeyPair;
use crate::crypto::cipher_for;
use crate::crypto::dec_of;
use crate::crypto::key_ok;
use crate::crypto::decrypt;

verus! {

/// Global sums of the decrypted partial results: `a` sums the cross
/// products, `b` the square products.
#[derive(Debug, Clone, Copy, PartialEq, Eq, Structural)]
pub struct AggregateResult {
    pub a: u64,
    pub b: u64,
}

/// Sum of a weight over the elements of a series.
pub open spec fn weight_sum<T>(s: Seq<T>, w: spec_fn(T) -> int) -> int
    decreases s.len(),
{
    if s.len() == 0 {
        0
    } else {
        weight_sum(s.drop_last(), w) + w(s.last())
    }
}

/// Sum of the first components of a series of pairs.
pub open spec fn sum_firsts(s: Seq<(u32, u32)>) -> int {
    weight_sum(s, |p: (u32, u32)| p.0 as int)
}

/// Sum of the second components of a series of pairs.
pub open spec fn sum_seconds(s: Seq<(u32, u32)>) -> int {
    weight_sum(s, |p: (u32, u32)| p.1 as int)
}

/// Sum of the decrypted first components of a series of ciphertext pairs.
pub open spec fn sum_dec_firsts(s: Seq<(Enc, Enc)>, k: KeyPair) -> int {
    weight_sum(s, |p: (Enc, Enc)| dec_of(p.0, k) as int)
}

/// Sum of the decrypted second components of a series of ciphertext pairs.
pub open spec fn sum_dec_seconds(s: Seq<(Enc, Enc)>, k: KeyPair) -> int {
    weight_sum(s, |p: (Enc, Enc)| dec_of(p.1, k) as int)
}

/// Keep only the partial result of each completed chunk task, dropping the
/// chunk inputs it was computed from.
pub fn collect_partials(results: Vec<((Vec<Enc>, Vec<Enc>), (Enc, Enc))>) -> (r: Vec<(Enc, Enc)>)
    ensures
        r@.len() == results@.len(),
        forall|i: int| 0 <= i < results@.len() ==> r@[i] == results@[i].1,
{
    let mut r: Vec<(Enc, Enc)> = Vec::new();
    let mut i: usize = 0;
    while i < results.len()
        invariant
            i <= results@.len(),
            r@.len() == i,
            forall|j: int| 0 <= j < i ==> r@[j] == results@[j].1,
        decreases results@.len() - i,
    {
        let p = results[i].1;
        r.push(p);
        i = i + 1;
    }
    r
}

/// Decrypt each partial result into a pair of plaintext integers.
pub fn decrypt_pairs(data: &Vec<(Enc, Enc)>, k: &KeyPair) -> (r: Vec<(u32, u32)>)
    requires
        key_ok(*k),
        forall|i: int|
            0 <= i < data@.len() ==> cipher_for((#[trigger] data@[i]).0, *k) && cipher_for(
                data@[i].1,
                *k,
            ),
    ensures
        r@.len() == data@.len(),
        forall|i: int|
            0 <= i < data@.len() ==> #[trigger] r@[i] == (
                dec_of(data@[i].0, *k),
                dec_of(data@[i].1, *k),
            ),
{
    let mut r: Vec<(u32, u32)> = Vec::new();
    let mut i: usize = 0;
    while i < data.len()
        invariant
            i <= data@.len(),
            r@.len() == i,
            key_ok(*k),
            forall|j: int|
                0 <= j < data@.len() ==> cipher_for((#[trigger] data@[j]).0, *k) && cipher_for(
                    data@[j].1,
                    *k,
                ),
            forall|j: int|
                0 <= j < i ==> #[trigger] r@[j] == (dec_of(data@[j].0, *k), dec_of(data@[j].1, *k)),
        decreases data@.len() - i,
    {
        let a = decrypt(&data[i].0, k);
        let b = decrypt(&data[i].1, k);
        r.push((a, b));
        i = i + 1;
    }
    r
}

/// Accumulate the global sums `A = Σ aᵢ`, `B = Σ bᵢ` over all decrypted
/// partial results.
pub fn aggregate(pairs: &Vec<(u32, u32)>) -> (r: AggregateResult)
    requires
        pairs@.len() <= 0xFFFF_FFFF,
    ensures
        r.a == sum_firsts(pairs@),
        r.b == sum_seconds(pairs@),
{
    let mut a: u64 = 0;
    let mut b: u64 = 0;
    let mut i: usize = 0;
    while i < pairs.len()
        invariant
            i <= pairs@.len(),
            pairs@.len() <= 0xFFFF_FFFF,
            a == sum_firsts(pairs@.take(i as int)),
            b == sum_seconds(pairs@.take(i as int)),
            a <= i * 0xFFFF_FFFF,
            b <= i * 0xFFFF_FFFF,
        decreases pairs@.len() - i,
    {
        proof {
            assert(pairs@.take(i as int + 1).drop_last() =~= pairs@.take(i as int));
            assert((i + 1) * 0xFFFF_FFFF == i * 0xFFFF_FFFF + 0xFFFF_FFFF) by (nonlinear_arith);
            assert(i * 0xFFFF_FFFF <= 0xFFFF_FFFF * 0xFFFF_FFFF) by (nonlinear_arith)
                requires
                    0 <= i <= 0xFFFF_FFFF,
            ;
        }
        let p = pairs[i];
        a = a + p.0 as u64;
        b = b + p.1 as u64;
        i = i + 1;
    }
    proof {
        assert(pairs@.take(pairs@.len() as int) =~= pairs@);
    }
    AggregateResult { a, b }
}

/// Removing one element from a series lowers the weight sum by that
/// element's weight.
proof fn lemma_weight_sum_remove<T>(s: Seq<T>, w: spec_fn(T) -> int, j: int)
    requires
        0 <= j < s.len(),
    ensures
        weight_sum(s.remove(j), w) == weight_sum(s, w) - w(s[j]),
    decreases s.len(),
{
    if j == s.len() - 1 {
        assert(s.remove(j) =~= s.drop_last());
    } else {
        lemma_weight_sum_remove(s.drop_last(), w, j);
        assert(s.remove(j).drop_last() =~= s.drop_last().remove(j));
        assert(s.remove(j).last() == s.last());
    }
}

/// A weight sum depends only on the multiset of elements, never on their
/// order.
pub proof fn lemma_weight_sum_permutation<T>(s1: Seq<T>, s2: Seq<T>, w: spec_fn(T) -> int)
    requires
        s1.to_multiset() == s2.to_multiset(),
    ensures
        weight_sum(s1, w) == weight_sum(s2, w),
    decreases s1.len(),
{
    broadcast use group_to_multiset_ensures;

    if s1.len() == 0 {
        assert(s1.to_multiset().len() == s1.len());
        assert(s2.to_multiset().len() == s2.len());
        assert(s2.len() == 0);
    } else {
        let x = s1.last();
        assert(s1.contains(x)) by {
            assert(s1[s1.len() - 1] == x);
        }
        assert(s2.to_multiset().count(x) > 0);
        assert(s2.contains(x));
        let j = choose|j: int| 0 <= j < s2.len() && s2[j] == x;
        assert(s1.drop_last() =~= s1.remove(s1.len() - 1));
        assert(s1.remove(s1.len() - 1).to_multiset() =~= s1.to_multiset().remove(x));
        assert(s2.remove(j).to_multiset() =~= s2.to_multiset().remove(x));
        lemma_weight_sum_permutation(s1.drop_last(), s2.remove(j), w);
        lemma_weight_sum_remove(s2, w, j);
    }
}

/// When two series correspond element for element under two weights, the
/// two weight sums agree.
proof fn lemma_weight_sum_pointwise<T, U>(
    s: Seq<T>,
    t: Seq<U>,
    wt: spec_fn(T) -> int,
    wu: spec_fn(U) -> int,
)
    requires
        s.len() == t.len(),
        forall|i: int| 0 <= i < s.len() ==> wt(#[trigger] s[i]) == wu(t[i]),
    ensures
        weight_sum(s, wt) == weight_sum(t, wu),
    decreases s.len(),
{
    if s.len() > 0 {
        lemma_weight_sum_pointwise(s.drop_last(), t.drop_last(), wt, wu);
        assert(wt(s[s.len() - 1]) == wu(t[t.len() - 1]));
    }
}

/// Aggregation is order-independent: two collections of decrypted partial
/// results holding the same pairs, each the same number of times, have
/// identical global sums — shuffling the collected results does not
/// change the aggregate.
pub proof fn lemma_aggregation_order_independent(s1: Seq<(u32, u32)>, s2: Seq<(u32, u32)>)
    requires
        s1.to_multiset() == s2.to_multiset(),
    ensures
        sum_firsts(s1) == sum_firsts(s2),
        sum_seconds(s1) == sum_seconds(s2),
{
    lemma_weight_sum_permutation(s1, s2, |p: (u32, u32)| p.0 as int);
    lemma_weight_sum_permutation(s1, s2, |p: (u32, u32)| p.1 as int);
}

/// Order independence already holds at the merge boundary, before any
/// decryption: two collections of ciphertext partial results holding the
/// same pairs, each the same number of times, decrypt to identical global
/// sums under any one key pair.
pub proof fn lemma_merge_order_independent(s1: Seq<(Enc, Enc)>, s2: Seq<(Enc, Enc)>, k: KeyPair)
    requires
        s1.to_multiset() == s2.to_multiset(),
    ensures
        sum_dec_firsts(s1, k) == sum_dec_firsts(s2, k),
        sum_dec_seconds(s1, k) == sum_dec_seconds(s2, k),
{
    lemma_weight_sum_permutation(s1, s2, |p: (Enc, Enc)| dec_of(p.0, k) as int);
    lemma_weight_sum_permutation(s1, s2, |p: (Enc, Enc)| dec_of(p.1, k) as int);
}

/// What decrypting and then summing yields: the sums over the decrypted
/// pairs — exactly what `decrypt_pairs` hands to `aggregate` — equal the
/// decrypted sums over the ciphertext pairs themselves.
pub proof fn lemma_decrypted_sums_match(ds: Seq<(u32, u32)>, data: Seq<(Enc, Enc)>, k: KeyPair)
    requires
        ds.len() == data.len(),
        forall|i: int| 0 <= i < data.len() ==> #[trigger] ds[i] == (
            dec_of(data[i].0, k),
            dec_of(data[i].1, k),
        ),
    ensures
        sum_firsts(ds) == sum_dec_firsts(data, k),
        sum_seconds(ds) == sum_dec_seconds(data, k),
{
    lemma_weight_sum_pointwise(
        ds,
        data,
        |p: (u32, u32)| p.0 as int,
        |p: (Enc, Enc)| dec_of(p.0, k) as int,
    );
    lemma_weight_sum_pointwise(
        ds,
        data,
        |p: (u32, u32)| p.1 as int,
        |p: (Enc, Enc)| dec_of(p.1, k) as int,
    );
}

} // verus!
