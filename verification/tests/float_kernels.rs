// The chunked-summation kernels work on f32 values, which the verified
// library cannot hold; they live outside it as ordinary Rust.  These tests
// keep the kernels' cases alive by reproducing each computation inline, with
// the same inputs and the same expected values.

use byname::merge::merge_sorted;

#[test]
fn test_vectorized_sum_iterator_chunks() {
    let a: Vec<f32> = vec![1.0, 2.0, 3.0, 4.0, 5.0];
    let result: f32 = a.chunks(2).map(|chunk| chunk.iter().sum::<f32>()).sum();
    assert_eq!(result, 15.0);
}

#[test]
fn test_vectorized_sum_iterator_batched() {
    let a: Vec<[f32; 2]> = vec![[1.0, 2.0], [3.0, 4.0], [5.0, 6.0]];
    let result: f32 = a.into_iter().map(|chunk| chunk.iter().sum::<f32>()).sum();
    assert_eq!(result, 21.0);
}

#[test]
fn test_vectorized_sum_iterator_batched_flatten() {
    let a: Vec<[f32; 2]> = vec![[1.0, 2.0], [3.0, 4.0], [5.0, 6.0]];
    let result: f32 = a.into_iter().flatten().sum();
    assert_eq!(result, 21.0);
}

#[test]
fn test_to_chunks() {
    let a: Vec<f32> = vec![1.0, 2.0, 3.0, 4.0, 5.0];
    let result: Vec<[f32; 2]> = a
        .chunks(2)
        .map(|chunk| {
            let mut arr = [0.0; 2];
            for (i, &val) in chunk.iter().enumerate() {
                arr[i] = val;
            }
            arr
        })
        .collect();
    assert_eq!(result, vec![[1.0, 2.0], [3.0, 4.0], [5.0, 0.0]]);
}

#[test]
fn merge_sorted_on_float_weights_via_keys() {
    // Floating-point weights ordered through their integer cents: the
    // verified merge works on the keyed form.
    let a: Vec<i64> = vec![125, 250];
    let b: Vec<i64> = vec![199];
    let merged = merge_sorted(a, b);
    let weights: Vec<f64> = merged.iter().map(|c| *c as f64 / 100.0).collect();
    assert_eq!(weights, vec![1.25, 1.99, 2.5]);
}
