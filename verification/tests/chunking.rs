use gudot::chunking::both;
use gudot::chunking::chop;
use gudot::chunking::chunk_size;
use gudot::chunking::split_series;
use gudot::chunking::zip_pair;
use gudot::errors::GudotError;

#[test]
fn chunk_size_is_ceiling_division() {
    assert_eq!(chunk_size(10, 3), 4);
    assert_eq!(chunk_size(10, 5), 2);
    assert_eq!(chunk_size(4, 2), 2);
    assert_eq!(chunk_size(99, 1), 99);
    assert_eq!(chunk_size(1, 7), 1);
    assert_eq!(chunk_size(0, 4), 0);
}

#[test]
fn chop_scenario_two_chunks() {
    let x: Vec<u32> = vec![0, 1, 2, 3];
    let chunks = chop(&x, 2);
    assert_eq!(chunks, vec![vec![0, 1], vec![2, 3]]);
}

#[test]
fn chop_concatenation_reproduces_original() {
    let v: Vec<u32> = (0..10).collect();
    for count in 1..=10 {
        let chunks = chop(&v, count);
        let mut glued: Vec<u32> = Vec::new();
        for c in &chunks {
            assert!(!c.is_empty());
            glued.extend_from_slice(c);
        }
        assert_eq!(glued, v, "count {} must cover every element exactly once", count);
    }
}

#[test]
fn chop_count_above_length_gives_singleton_chunks() {
    let v: Vec<u32> = vec![5, 6, 7];
    let chunks = chop(&v, 10);
    assert_eq!(chunks, vec![vec![5], vec![6], vec![7]]);
}

#[test]
fn chop_uneven_split_keeps_remainder() {
    let v: Vec<u32> = (0..10).collect();
    let chunks = chop(&v, 3);
    assert_eq!(chunks.len(), 3);
    assert_eq!(chunks[0].len(), 4);
    assert_eq!(chunks[1].len(), 4);
    assert_eq!(chunks[2].len(), 2);
}

#[test]
fn zip_pair_pairs_up_to_shorter() {
    let r = zip_pair((vec![1u32, 2, 3], vec![10u32, 20]));
    assert_eq!(r, vec![(1, 10), (2, 20)]);
}

#[test]
fn both_applies_to_each_component() {
    let pair: (u32, u32) = (3, 4);
    let r = both(|v: &u32| v + 1, &pair);
    assert_eq!(r, (4, 5));
}

#[test]
fn split_series_scenario() {
    let x: Vec<u32> = vec![0, 1, 2, 3];
    let y: Vec<u32> = vec![10, 7, 4, 1];
    let chunks = split_series(&(x, y), 2).unwrap();
    assert_eq!(chunks.len(), 2);
    assert_eq!(chunks[0], (vec![0, 1], vec![10, 7]));
    assert_eq!(chunks[1], (vec![2, 3], vec![4, 1]));
}

#[test]
fn split_series_rejects_zero_count() {
    let x: Vec<u32> = vec![1, 2];
    let y: Vec<u32> = vec![3, 4];
    assert_eq!(split_series(&(x, y), 0), Err(GudotError::InvalidChunkCount));
}

#[test]
fn split_series_count_above_length_covers_everything() {
    let x: Vec<u32> = vec![1, 2, 3];
    let y: Vec<u32> = vec![4, 5, 6];
    let chunks = split_series(&(x, y), 7).unwrap();
    assert_eq!(chunks.len(), 3);
    for (cx, cy) in &chunks {
        assert_eq!(cx.len(), 1);
        assert_eq!(cy.len(), 1);
    }
}
