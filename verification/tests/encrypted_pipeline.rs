use gudot::aggregate::aggregate;
use gudot::aggregate::collect_partials;
use gudot::aggregate::decrypt_pairs;
use gudot::crypto::decrypt;
use gudot::crypto::decrypt_series;
use gudot::crypto::encrypt;
use gudot::crypto::encrypt_series;
use gudot::crypto::keygen;
use gudot::crypto::MODULUS;
use gudot::errors::GudotError;
use gudot::reduce::dot_product_enc;
use gudot::reduce::exec;

#[test]
fn encrypt_then_decrypt_reproduces_the_series() {
    let key_pair = keygen();
    let plain: Vec<u32> = vec![0, 1, 2, 3, 1000, 2147483646];
    let enc = encrypt_series(&key_pair, &plain);
    let back = decrypt_series(&enc, &key_pair);
    assert_eq!(back, plain);
}

#[test]
fn plaintext_is_reduced_into_the_encryption_domain() {
    let key_pair = keygen();
    let e = encrypt(&key_pair, MODULUS);
    assert_eq!(decrypt(&e, &key_pair), 0);
    let e2 = encrypt(&key_pair, MODULUS + 5);
    assert_eq!(decrypt(&e2, &key_pair), 5);
}

#[test]
fn reducer_computes_both_partial_dot_products() {
    let key_pair = keygen();
    let x = encrypt_series(&key_pair, &vec![0, 1, 2, 3]);
    let y = encrypt_series(&key_pair, &vec![10, 7, 4, 1]);
    let (xy, xx) = exec(x, y).unwrap();
    assert_eq!(decrypt(&xy, &key_pair), 18);
    assert_eq!(decrypt(&xx, &key_pair), 14);
}

#[test]
fn reducer_rejects_empty_chunks() {
    let x: Vec<gmorph::Enc> = Vec::new();
    let y: Vec<gmorph::Enc> = Vec::new();
    assert_eq!(exec(x, y), Err(GudotError::EmptyVector));
}

#[test]
fn reducer_rejects_mismatched_chunks() {
    let key_pair = keygen();
    let x = encrypt_series(&key_pair, &vec![1, 2]);
    let y = encrypt_series(&key_pair, &vec![1, 2, 3]);
    assert_eq!(
        dot_product_enc(&x, &y),
        Err(GudotError::LengthMismatch)
    );
}

#[test]
fn chunked_reduction_sums_to_the_whole_dot_product() {
    // x = [0,1,2,3], y = [10,7,4,1] cut in two chunks:
    // chunk dots (0*10+1*7, 0+1) = (7, 1) and (2*4+3*1, 4+9) = (11, 13);
    // the aggregate (18, 14) equals (dot(x,y), dot(x,x)).
    let key_pair = keygen();
    let x1 = encrypt_series(&key_pair, &vec![0, 1]);
    let y1 = encrypt_series(&key_pair, &vec![10, 7]);
    let x2 = encrypt_series(&key_pair, &vec![2, 3]);
    let y2 = encrypt_series(&key_pair, &vec![4, 1]);
    let p1 = exec(x1, y1).unwrap();
    let p2 = exec(x2, y2).unwrap();
    let decrypted = decrypt_pairs(&vec![p1, p2], &key_pair);
    assert_eq!(decrypted, vec![(7, 1), (11, 13)]);
    let agg = aggregate(&decrypted);
    assert_eq!(agg.a, 18);
    assert_eq!(agg.b, 14);
}

#[test]
fn aggregation_is_order_independent() {
    let pairs = vec![(7u32, 1u32), (11, 13), (5, 2)];
    let shuffled = vec![(5u32, 2u32), (7, 1), (11, 13)];
    assert_eq!(aggregate(&pairs), aggregate(&shuffled));
}

#[test]
fn collect_partials_keeps_only_the_results() {
    let key_pair = keygen();
    let x = encrypt_series(&key_pair, &vec![1, 2]);
    let y = encrypt_series(&key_pair, &vec![3, 4]);
    let partial = exec(x.clone(), y.clone()).unwrap();
    let collected = collect_partials(vec![((x, y), partial)]);
    assert_eq!(collected.len(), 1);
    let decrypted = decrypt_pairs(&collected, &key_pair);
    assert_eq!(decrypted, vec![(11, 5)]);
}
