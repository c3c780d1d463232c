use ann_brute_force::index::ANNIndex;
use ann_brute_force::index::DimensionMismatch;
use ann_brute_force::ranking::rank_indices;
use ann_brute_force::score::score_key;
use ann_brute_force::score::score_key_inv;

fn cosine(a: &[f32], b: &[f32]) -> f32 {
    let mut dot = 0.0f32;
    let mut na = 0.0f32;
    let mut nb = 0.0f32;
    for i in 0..a.len() {
        dot += a[i] * b[i];
        na += a[i] * a[i];
        nb += b[i] * b[i];
    }
    let norm_product = na.sqrt() * nb.sqrt();
    if norm_product == 0.0 {
        0.0
    } else {
        dot / norm_product
    }
}

fn to_bits(v: &[f32]) -> Vec<u32> {
    v.iter().map(|x| x.to_bits()).collect()
}

fn keys_for(query: &[f32], data: &[Vec<f32>]) -> Vec<u32> {
    data.iter().map(|v| score_key(cosine(query, v).to_bits())).collect()
}

fn filled_index(data: &[Vec<f32>]) -> ANNIndex {
    let mut index = ANNIndex::new();
    for v in data {
        assert_eq!(index.insert(to_bits(v)), Ok(()));
    }
    index
}

#[test]
fn empty_index_has_no_dimensionality() {
    let index = ANNIndex::new();
    assert_eq!(index.len(), 0);
    assert_eq!(index.dimensionality(), None);
}

#[test]
fn first_insert_locks_dimensionality() {
    let mut index = ANNIndex::new();
    assert_eq!(index.insert(vec![1, 2]), Ok(()));
    assert_eq!(index.dimensionality(), Some(2));
    assert_eq!(index.insert(vec![3, 4, 5]), Err(DimensionMismatch));
    assert_eq!(index.insert(vec![6, 7]), Ok(()));
    assert_eq!(index.dimensionality(), Some(2));
    assert_eq!(index.len(), 2);
}

#[test]
fn rejected_insert_leaves_index_unchanged() {
    let data = vec![vec![1.0, 2.0, 3.0], vec![4.0, 5.0, 6.0]];
    let mut index = filled_index(&data);
    assert_eq!(index.insert(to_bits(&[6.0, 7.0])), Err(DimensionMismatch));
    assert_eq!(index.len(), 2);
    assert_eq!(index.dimensionality(), Some(3));
    assert_eq!(index.get(0), to_bits(&data[0]));
    assert_eq!(index.get(1), to_bits(&data[1]));
}

#[test]
fn query_size_is_min_of_k_and_entries() {
    let data = vec![vec![1.0, 0.0], vec![0.0, 1.0], vec![1.0, 1.0]];
    let index = filled_index(&data);
    let query = [1.0, 2.0];
    let keys = keys_for(&query, &data);
    let q = to_bits(&query);
    assert_eq!(index.get_top_k(&q, &keys, 0).unwrap().len(), 0);
    assert_eq!(index.get_top_k(&q, &keys, 2).unwrap().len(), 2);
    assert_eq!(index.get_top_k(&q, &keys, 3).unwrap().len(), 3);
    assert_eq!(index.get_top_k(&q, &keys, 10).unwrap().len(), 3);
}

#[test]
fn query_on_empty_index_returns_nothing() {
    let index = ANNIndex::new();
    let keys: Vec<u32> = Vec::new();
    let q = to_bits(&[1.0, 2.0, 3.0]);
    assert_eq!(index.get_top_k(&q, &keys, 5).unwrap().len(), 0);
}

#[test]
fn query_of_wrong_length_fails() {
    let data = vec![vec![1.0, 2.0, 3.0], vec![4.0, 5.0, 6.0]];
    let index = filled_index(&data);
    let keys = vec![0, 0];
    let q = to_bits(&[1.0, 2.0]);
    assert_eq!(index.get_top_k(&q, &keys, 1), Err(DimensionMismatch));
}

#[test]
fn scores_descend_and_ties_keep_insertion_order() {
    let data = vec![vec![1.0, 0.0], vec![2.0, 0.0], vec![0.0, 1.0]];
    let index = filled_index(&data);
    let query = [1.0, 0.0];
    let keys = keys_for(&query, &data);
    let out = index.get_top_k(&to_bits(&query), &keys, 3).unwrap();
    for pair in out.windows(2) {
        assert!(pair[0].1 >= pair[1].1);
    }
    // [1,0] and [2,0] tie at similarity 1.0; the earlier insert comes first.
    assert_eq!(out[0].0, to_bits(&data[0]));
    assert_eq!(out[1].0, to_bits(&data[1]));
    assert_eq!(out[2].0, to_bits(&data[2]));
    assert_eq!(f32::from_bits(score_key_inv(out[0].1)), 1.0);
    assert_eq!(f32::from_bits(score_key_inv(out[1].1)), 1.0);
    assert_eq!(f32::from_bits(score_key_inv(out[2].1)), 0.0);
}

#[test]
fn demo_scenario_ranks_positive_vectors_first() {
    let data = vec![
        vec![1.0, 2.0, 3.0],
        vec![4.0, 5.0, 6.0],
        vec![7.0, 8.0, 9.0],
        vec![-1.0, -2.0, -3.0],
        vec![-4.0, -5.0, -6.0],
        vec![-7.0, -8.0, -9.0],
    ];
    let index = filled_index(&data);
    let query = [1.0, 3.0, 5.0];
    let keys = keys_for(&query, &data);
    let out = index.get_top_k(&to_bits(&query), &keys, 3).unwrap();
    assert_eq!(out.len(), 3);
    assert_eq!(out[0].0, to_bits(&data[0]));
    assert_eq!(out[1].0, to_bits(&data[1]));
    assert_eq!(out[2].0, to_bits(&data[2]));
    // Analytic cosines: 22/sqrt(35*14), 49/sqrt(35*77), 76/sqrt(35*194).
    let top_score = f32::from_bits(score_key_inv(out[0].1));
    assert!((top_score - 0.9939).abs() < 1e-3);
    let second = f32::from_bits(score_key_inv(out[1].1));
    assert!((second - 0.9439).abs() < 1e-3);
    let third = f32::from_bits(score_key_inv(out[2].1));
    assert!((third - 0.9223).abs() < 1e-3);
    // The negatively correlated vectors all score below the returned three.
    for v in &data[3..] {
        assert!(score_key(cosine(&query, v).to_bits()) < out[2].1);
    }
}

#[test]
fn demo_scenario_top_one() {
    let data = vec![
        vec![1.0, 2.0, 3.0],
        vec![4.0, 5.0, 6.0],
        vec![7.0, 8.0, 9.0],
        vec![-1.0, -2.0, -3.0],
        vec![-4.0, -5.0, -6.0],
        vec![-7.0, -8.0, -9.0],
    ];
    let index = filled_index(&data);
    let query = [1.0, 3.0, 5.0];
    let keys = keys_for(&query, &data);
    let out = index.get_top_k(&to_bits(&query), &keys, 1).unwrap();
    assert_eq!(out.len(), 1);
    assert_eq!(out[0].0, to_bits(&data[0]));
}

#[test]
fn rank_indices_orders_by_key_then_position() {
    let keys = vec![5, 9, 9, 1];
    assert_eq!(rank_indices(&keys), vec![1, 2, 0, 3]);
    let empty: Vec<u32> = Vec::new();
    assert_eq!(rank_indices(&empty), Vec::<usize>::new());
}

#[test]
fn score_key_exact_values() {
    assert_eq!(score_key(0x0000_0000), 0x8000_0000);
    assert_eq!(score_key(0x8000_0000), 0x7fff_ffff);
    assert_eq!(score_key(0xffff_ffff), 0x0000_0000);
    assert_eq!(score_key_inv(0x0000_0000), 0xffff_ffff);
}

#[test]
fn score_key_round_trips() {
    for x in [-3.5f32, -0.0, 0.0, 1.0e30, -1.0e-30, 0.9594, f32::INFINITY, f32::NEG_INFINITY] {
        let bits = x.to_bits();
        assert_eq!(score_key_inv(score_key(bits)), bits);
        assert_eq!(f32::from_bits(score_key_inv(score_key(bits))), x);
    }
}

#[test]
fn score_key_is_monotone_in_the_score() {
    let ordered = [
        f32::NEG_INFINITY,
        -100.0f32,
        -5.0,
        -1.0,
        -1.0e-30,
        -0.0,
        0.0,
        1.0e-30,
        1.5,
        100.0,
        f32::INFINITY,
    ];
    for pair in ordered.windows(2) {
        assert!(score_key(pair[0].to_bits()) < score_key(pair[1].to_bits()));
    }
}
