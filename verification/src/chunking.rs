//! Splitting paired series into contiguous, ordered, non-overlapping chunks
//! for parallel processing.
//!
//! Chunk sizes use ceiling division: every element is assigned to some chunk,
//! at the cost of possibly producing fewer chunks than requested.

use vstd::prelude::*;
use crate::errors::GudotError;

verus! {

/// Ceiling division: the smallest `q` with `q * count >= length`.
pub open spec fn ceil_div(length: nat, count: nat) -> nat
    recommends
        count > 0,
{
    (((length + count) - 1) / (count as int)) as nat
}

/// A positive length cut into at most `count` chunks needs chunks of at
/// least one element.
pub proof fn lemma_ceil_div_pos(length: nat, count: nat)
    requires
        count > 0,
        length > 0,
    ensures
        ceil_div(length, count) >= 1,
{
    assert(1 * (count as int) + 0 == count as int) by (nonlinear_arith);
    vstd::arithmetic::div_mod::lemma_fundamental_div_mod_converse(count as int, count as int, 1, 0);
    vstd::arithmetic::div_mod::lemma_div_is_ordered(
        count as int,
        (length + count - 1) as int,
        count as int,
    );
}

/// The chunks of `s` in index order: full chunks of `size` elements,
/// and a final chunk holding the remainder, if any.
pub open spec fn chunks_of<A>(s: Seq<A>, size: nat) -> Seq<Seq<A>>
    recommends
        size > 0 || s.len() == 0,
    decreases s.len(),
{
    if size == 0 || s.len() == 0 {
        Seq::empty()
    } else if s.len() <= size {
        seq![s]
    } else {
        seq![s.subrange(0, size as int)] + chunks_of(
            s.subrange(size as int, s.len() as int),
            size,
        )
    }
}

/// Concatenating the chunks in index order reproduces the original series
/// exactly; every element therefore appears in exactly one chunk.
pub proof fn lemma_chunks_of_concat<A>(s: Seq<A>, size: nat)
    requires
        size > 0,
    ensures
        chunks_of(s, size).flatten() =~= s,
    decreases s.len(),
{
    if s.len() == 0 {
    } else if s.len() <= size {
        assert(chunks_of(s, size) =~= seq![s]);
        seq![s].lemma_flatten_one_element();
    } else {
        let rest = s.subrange(size as int, s.len() as int);
        lemma_chunks_of_concat(rest, size);
        let cs = chunks_of(s, size);
        assert(cs.drop_first() =~= chunks_of(rest, size));
        assert(cs.flatten() == cs.first().add(cs.drop_first().flatten()));
        assert(s.subrange(0, size as int) + rest =~= s);
    }
}

/// Every chunk is non-empty and no larger than `size`, and every chunk but
/// the last is exactly `size` long. In particular a chunking never produces
/// an empty chunk, however large the requested count.
pub proof fn lemma_chunks_of_shape<A>(s: Seq<A>, size: nat)
    requires
        size > 0,
    ensures
        forall|i: int|
            0 <= i < chunks_of(s, size).len() ==> 1 <= (#[trigger] chunks_of(s, size)[i]).len()
                <= size,
        forall|i: int|
            0 <= i < chunks_of(s, size).len() - 1 ==> (#[trigger] chunks_of(s, size)[i]).len()
                == size,
    decreases s.len(),
{
    if s.len() == 0 {
    } else if s.len() <= size {
        assert(chunks_of(s, size) =~= seq![s]);
    } else {
        let rest = s.subrange(size as int, s.len() as int);
        lemma_chunks_of_shape(rest, size);
        let cs = chunks_of(s, size);
        assert forall|i: int| 0 <= i < cs.len() implies 1 <= (#[trigger] cs[i]).len() <= size by {
            if i > 0 {
                assert(cs[i] == chunks_of(rest, size)[i - 1]);
            }
        }
        assert forall|i: int| 0 <= i < cs.len() - 1 implies (#[trigger] cs[i]).len() == size by {
            if i > 0 {
                assert(cs[i] == chunks_of(rest, size)[i - 1]);
            }
        }
    }
}

/// Two series of equal length are cut into the same number of chunks,
/// with identical boundaries.
pub proof fn lemma_chunks_of_len_eq<A, B>(s: Seq<A>, t: Seq<B>, size: nat)
    requires
        size > 0,
        s.len() == t.len(),
    ensures
        chunks_of(s, size).len() == chunks_of(t, size).len(),
        forall|i: int|
            0 <= i < chunks_of(s, size).len() ==> (#[trigger] chunks_of(s, size)[i]).len() == (
            #[trigger] chunks_of(t, size)[i]).len(),
    decreases s.len(),
{
    if s.len() == 0 {
    } else if s.len() <= size {
        assert(chunks_of(s, size) =~= seq![s]);
        assert(chunks_of(t, size) =~= seq![t]);
    } else {
        let srest = s.subrange(size as int, s.len() as int);
        let trest = t.subrange(size as int, t.len() as int);
        lemma_chunks_of_len_eq(srest, trest, size);
        assert(chunks_of(s, size).drop_first() =~= chunks_of(srest, size));
        assert(chunks_of(t, size).drop_first() =~= chunks_of(trest, size));
        assert forall|i: int|
            0 <= i < chunks_of(s, size).len() implies (#[trigger] chunks_of(s, size)[i]).len() == (
        #[trigger] chunks_of(t, size)[i]).len() by {
            if i > 0 {
                assert(chunks_of(s, size)[i] == chunks_of(srest, size)[i - 1]);
                assert(chunks_of(t, size)[i] == chunks_of(trest, size)[i - 1]);
            }
        }
    }
}

/// Size of each chunk when `length` elements are cut into at most `count`
/// chunks: the ceiling of `length / count`, so that no element is dropped.
pub fn chunk_size(length: usize, count: usize) -> (size: usize)
    requires
        count >= 1,
    ensures
        size == ceil_div(length as nat, count as nat),
        length > 0 ==> size >= 1,
        size <= length,
{
    let q = length / count;
    let r = length % count;
    proof {
        vstd::arithmetic::div_mod::lemma_fundamental_div_mod(length as int, count as int);
        if r > 0 {
            assert((length + count - 1) as int == (q as int + 1) * (count as int) + (r as int
                - 1)) by (nonlinear_arith)
                requires
                    length as int == (count as int) * (q as int) + (r as int),
                    count >= 1,
                    r >= 1,
            ;
            vstd::arithmetic::div_mod::lemma_fundamental_div_mod_converse(
                (length + count - 1) as int,
                count as int,
                q as int + 1,
                r as int - 1,
            );
            assert(q + 1 <= length) by (nonlinear_arith)
                requires
                    length == count * q + r,
                    r >= 1,
                    count >= 1,
                    q >= 0,
            ;
        } else {
            assert((length + count - 1) as int == (q as int) * (count as int) + (count as int
                - 1)) by (nonlinear_arith)
                requires
                    length as int == (count as int) * (q as int),
                    count >= 1,
            ;
            vstd::arithmetic::div_mod::lemma_fundamental_div_mod_converse(
                (length + count - 1) as int,
                count as int,
                q as int,
                count as int - 1,
            );
            assert(q <= length && (length > 0 ==> q >= 1)) by (nonlinear_arith)
                requires
                    length == count * q,
                    count >= 1,
                    q >= 0,
            ;
        }
    }
    if r > 0 {
        q + 1
    } else {
        q
    }
}

/// Cut a series into at most `count` contiguous chunks, in index order.
pub fn chop<A: Copy>(v: &Vec<A>, count: usize) -> (chunks: Vec<Vec<A>>)
    requires
        count >= 1,
    ensures
        chunks@.map_values(|c: Vec<A>| c@) == chunks_of(
            v@,
            ceil_div(v@.len() as nat, count as nat),
        ),
{
    let size = chunk_size(v.len(), count);
    let mut chunks: Vec<Vec<A>> = Vec::new();
    let mut start: usize = 0;
    proof {
        assert(v@.subrange(0, v@.len() as int) =~= v@);
        assert(chunks@.map_values(|c: Vec<A>| c@) =~= Seq::<Seq<A>>::empty());
    }
    while start < v.len()
        invariant
            start <= v@.len(),
            size == ceil_div(v@.len() as nat, count as nat),
            size <= v@.len(),
            v@.len() > 0 ==> size >= 1,
            chunks_of(v@, size as nat) =~= chunks@.map_values(|c: Vec<A>| c@) + chunks_of(
                v@.subrange(start as int, v@.len() as int),
                size as nat,
            ),
        decreases v@.len() - start,
    {
        let end = if v.len() - start <= size {
            v.len()
        } else {
            start + size
        };
        let mut c: Vec<A> = Vec::new();
        let mut j = start;
        proof {
            assert(c@ =~= v@.subrange(start as int, start as int));
        }
        while j < end
            invariant
                start <= j <= end <= v@.len(),
                c@ =~= v@.subrange(start as int, j as int),
            decreases end - j,
        {
            let x = v[j];
            c.push(x);
            proof {
                assert(c@ =~= v@.subrange(start as int, j as int + 1));
            }
            j = j + 1;
        }
        proof {
            let rem = v@.subrange(start as int, v@.len() as int);
            let newrem = v@.subrange(end as int, v@.len() as int);
            assert(rem.len() > 0);
            if rem.len() <= size as nat {
                assert(end == v.len());
                assert(chunks_of(rem, size as nat) =~= seq![rem]);
                assert(c@ =~= rem);
                assert(newrem =~= Seq::<A>::empty());
                assert(chunks_of(newrem, size as nat) =~= Seq::<Seq<A>>::empty());
                assert(chunks_of(rem, size as nat) =~= seq![c@] + chunks_of(
                    newrem,
                    size as nat,
                ));
            } else {
                assert(end == start + size);
                assert(rem.subrange(0, size as int) =~= v@.subrange(start as int, end as int));
                assert(rem.subrange(size as int, rem.len() as int) =~= newrem);
                assert(chunks_of(rem, size as nat) =~= seq![c@] + chunks_of(
                    newrem,
                    size as nat,
                ));
            }
            assert((chunks@.push(c)).map_values(|cc: Vec<A>| cc@) =~= chunks@.map_values(
                |cc: Vec<A>| cc@,
            ).push(c@));
        }
        chunks.push(c);
        start = end;
    }
    proof {
        assert(v@.subrange(start as int, v@.len() as int) =~= Seq::<A>::empty());
        assert(chunks_of(Seq::<A>::empty(), size as nat) =~= Seq::<Seq<A>>::empty());
        assert(chunks@.map_values(|c: Vec<A>| c@) =~= chunks_of(v@, size as nat));
    }
    chunks
}

/// Zip a pair of series into a series of pairs, stopping at the shorter.
pub fn zip_pair<A: Copy, B: Copy>(pair: (Vec<A>, Vec<B>)) -> (r: Vec<(A, B)>)
    ensures
        pair.0@.len() <= pair.1@.len() ==> r@.len() == pair.0@.len(),
        pair.1@.len() <= pair.0@.len() ==> r@.len() == pair.1@.len(),
        forall|i: int| 0 <= i < r@.len() ==> r@[i] == (pair.0@[i], pair.1@[i]),
{
    let (a, b) = pair;
    let n = if a.len() <= b.len() {
        a.len()
    } else {
        b.len()
    };
    let mut r: Vec<(A, B)> = Vec::new();
    let mut i: usize = 0;
    while i < n
        invariant
            i <= n,
            n <= a@.len(),
            n <= b@.len(),
            r@.len() == i,
            forall|j: int| 0 <= j < i ==> r@[j] == (a@[j], b@[j]),
        decreases n - i,
    {
        r.push((a[i], b[i]));
        i = i + 1;
    }
    r
}

/// Apply a function to both components of a pair.
pub fn both<A, B, F: Fn(&A) -> B>(f: F, pair: &(A, A)) -> (r: (B, B))
    requires
        call_requires(f, (&pair.0,)),
        call_requires(f, (&pair.1,)),
    ensures
        call_ensures(f, (&pair.0,), r.0),
        call_ensures(f, (&pair.1,), r.1),
{
    let y0 = f(&pair.0);
    let y1 = f(&pair.1);
    (y0, y1)
}

/// Split a series pair into an ordered sequence of chunk pairs covering
/// the full range with no gaps or overlaps. Both series are chunked with
/// identical boundaries, driven by the same count and length, so the two
/// chunks of each pair have equal length. Fails with `InvalidChunkCount`
/// exactly when a chunk count of zero is requested.
pub fn split_series<A: Copy>(data: &(Vec<A>, Vec<A>), count: usize) -> (r: Result<
    Vec<(Vec<A>, Vec<A>)>,
    GudotError,
>)
    requires
        data.0@.len() == data.1@.len(),
    ensures
        match r {
            Ok(chunks) => count >= 1 && {
                let size = ceil_div(data.0@.len() as nat, count as nat);
                &&& chunks@.len() == chunks_of(data.0@, size).len()
                &&& forall|i: int|
                    0 <= i < chunks@.len() ==> (#[trigger] chunks@[i]).0@ == chunks_of(
                        data.0@,
                        size,
                    )[i] && chunks@[i].1@ == chunks_of(data.1@, size)[i]
            },
            Err(e) => e == GudotError::InvalidChunkCount && count == 0,
        },
{
    if count == 0 {
        return Err(GudotError::InvalidChunkCount);
    }
    let mut cx = chop(&data.0, count);
    let mut cy = chop(&data.1, count);
    let ghost size = ceil_div(data.0@.len() as nat, count as nat);
    let ghost gx = cx@;
    let ghost gy = cy@;
    proof {
        if data.0@.len() > 0 {
            lemma_ceil_div_pos(data.0@.len() as nat, count as nat);
            lemma_chunks_of_len_eq(data.0@, data.1@, size);
        } else {
            assert(chunks_of(data.0@, size) =~= Seq::<Seq<A>>::empty());
            assert(chunks_of(data.1@, size) =~= Seq::<Seq<A>>::empty());
        }
        assert(gx.len() == chunks_of(data.0@, size).len());
        assert(gy.len() == chunks_of(data.1@, size).len());
        assert(cx@ =~= gx.subrange(0, gx.len() as int));
        assert(cy@ =~= gy.subrange(0, gy.len() as int));
    }
    let mut zipped: Vec<(Vec<A>, Vec<A>)> = Vec::new();
    while cx.len() > 0
        invariant
            gx.len() == gy.len(),
            zipped@.len() + cx@.len() == gx.len(),
            cy@.len() == cx@.len(),
            cx@ =~= gx.subrange(zipped@.len() as int, gx.len() as int),
            cy@ =~= gy.subrange(zipped@.len() as int, gy.len() as int),
            forall|j: int|
                0 <= j < zipped@.len() ==> #[trigger] zipped@[j] == (gx[j], gy[j]),
        decreases cx@.len(),
    {
        let ghost z0 = zipped@;
        let x = cx.remove(0);
        let y = cy.remove(0);
        proof {
            assert(x == gx[z0.len() as int]);
            assert(y == gy[z0.len() as int]);
        }
        zipped.push((x, y));
        proof {
            assert(cx@ =~= gx.subrange(zipped@.len() as int, gx.len() as int));
            assert(cy@ =~= gy.subrange(zipped@.len() as int, gy.len() as int));
            assert forall|j: int| 0 <= j < zipped@.len() implies #[trigger] zipped@[j] == (
            gx[j],
            gy[j],
            ) by {
                if j < z0.len() {
                    assert(zipped@[j] == z0[j]);
                }
            }
        }
    }
    proof {
        assert forall|i: int| 0 <= i < zipped@.len() implies (#[trigger] zipped@[i]).0@
            == chunks_of(data.0@, size)[i] && zipped@[i].1@ == chunks_of(data.1@, size)[i] by {
            assert(zipped@[i] == (gx[i], gy[i]));
            assert(gx.map_values(|cc: Vec<A>| cc@)[i] == chunks_of(data.0@, size)[i]);
            assert(gy.map_values(|cc: Vec<A>| cc@)[i] == chunks_of(data.1@, size)[i]);
        }
    }
    Ok(zipped)
}

} // verus!
