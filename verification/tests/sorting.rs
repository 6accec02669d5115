use wavesort::{is_sorted, sort, INSERTION_THRESHOLD};

/// One step of the linear congruential generator that the data sets below
/// are drawn from.
fn next_sample(seed: &mut u64) -> i32 {
    *seed = seed.wrapping_mul(1103515245).wrapping_add(12345);
    ((*seed / 65536) % 2147483648) as i32
}

fn samples(seed: u64, len: usize) -> Vec<i32> {
    let mut state = seed;
    let mut out = Vec::with_capacity(len);
    for _ in 0..len {
        out.push(next_sample(&mut state));
    }
    out
}

fn descending(len: usize) -> Vec<i32> {
    let mut out = Vec::with_capacity(len);
    for k in 0..len {
        out.push((len - k) as i32);
    }
    out
}

/// Sorts a copy with the sorter and another with the standard library, and
/// expects the two to agree element for element.
fn agrees_with_std(input: &[i32]) {
    let mut ours = input.to_vec();
    let mut reference = input.to_vec();
    sort(&mut ours);
    reference.sort();
    assert_eq!(ours, reference);
}

#[test]
fn empty_slice_stays_empty() {
    let mut data: Vec<i32> = Vec::new();
    sort(&mut data);
    assert!(data.is_empty());
}

#[test]
fn single_element_is_unchanged() {
    let mut data = vec![42];
    sort(&mut data);
    assert_eq!(data, vec![42]);
}

#[test]
fn two_elements_out_of_order() {
    let mut data = vec![2, 1];
    sort(&mut data);
    assert_eq!(data, vec![1, 2]);
}

#[test]
fn all_equal_elements_are_unchanged() {
    for len in [2usize, 32, 33, 34, 100, 1000] {
        let mut data = vec![7; len];
        sort(&mut data);
        assert_eq!(data, vec![7; len]);
    }
}

#[test]
fn sorted_input_is_unchanged() {
    for len in [10usize, 33, 34, 257, 5000] {
        let input: Vec<i32> = (0..len as i32).collect();
        let mut data = input.clone();
        sort(&mut data);
        assert_eq!(data, input);
    }
}

#[test]
fn descending_input_beyond_the_threshold() {
    for len in [33usize, 34, 35, 64, 100, 1000, 20000] {
        let mut data = descending(len);
        sort(&mut data);
        let expected: Vec<i32> = (1..=len as i32).collect();
        assert_eq!(data, expected);
    }
}

#[test]
fn lengths_around_the_threshold() {
    assert_eq!(INSERTION_THRESHOLD, 32);
    for len in 29usize..=36 {
        agrees_with_std(&samples(len as u64, len));
        agrees_with_std(&descending(len));
        let mut saw: Vec<i32> = Vec::new();
        for k in 0..len {
            saw.push(if k % 2 == 0 { k as i32 } else { -(k as i32) });
        }
        agrees_with_std(&saw);
    }
}

#[test]
fn forty_distinct_integers() {
    let mut data = vec![
        5, 3, 8, 1, 9, 2, 7, 4, 6, 40, 10, 39, 11, 38, 12, 37, 13, 36, 14, 35, 15, 34, 16, 33, 17,
        32, 18, 31, 19, 30, 20, 29, 21, 28, 22, 27, 23, 26, 24, 25,
    ];
    assert_eq!(data.len(), 40);
    sort(&mut data);
    let expected: Vec<i32> = (1..=40).collect();
    assert_eq!(data, expected);
}

#[test]
fn extreme_values() {
    let mut data = vec![0, i32::MAX, i32::MIN, -1, 1, i32::MAX, i32::MIN];
    sort(&mut data);
    assert_eq!(data, vec![i32::MIN, i32::MIN, -1, 0, 1, i32::MAX, i32::MAX]);
    let mut long: Vec<i32> = Vec::new();
    for k in 0..200 {
        long.push(match k % 4 {
            0 => i32::MAX,
            1 => i32::MIN,
            2 => k,
            _ => -k,
        });
    }
    agrees_with_std(&long);
}

#[test]
fn million_generated_elements_match_reference_sort() {
    let input = samples(1, 1_000_000);
    let mut ours = input.clone();
    let mut reference = input;
    sort(&mut ours);
    reference.sort();
    assert!(ours == reference);
    assert!(is_sorted(&ours));
}

#[test]
fn sorting_twice_changes_nothing() {
    let mut data = samples(99, 3000);
    sort(&mut data);
    let once = data.clone();
    sort(&mut data);
    assert_eq!(data, once);
}

#[test]
fn random_arrays_with_many_duplicates() {
    let mut state: u64 = 2024;
    for len in 0usize..=500 {
        let mut data = Vec::with_capacity(len);
        for _ in 0..len {
            data.push(next_sample(&mut state) % 8);
        }
        let mut sorted = data.clone();
        sort(&mut sorted);
        assert!(is_sorted(&sorted));
        assert!(sorted.windows(2).all(|w| w[0] <= w[1]));
        for value in 0..8 {
            let before = data.iter().filter(|x| **x == value).count();
            let after = sorted.iter().filter(|x| **x == value).count();
            assert_eq!(before, after);
        }
        assert_eq!(sorted.len(), len);
    }
}

#[test]
fn random_arrays_with_few_duplicates() {
    let mut state: u64 = 77;
    for len in 0usize..=500 {
        let mut data = Vec::with_capacity(len);
        for k in 0..len {
            let value = next_sample(&mut state);
            data.push(if k % 2 == 0 { value } else { -value });
        }
        let mut sorted = data.clone();
        sort(&mut sorted);
        assert!(sorted.windows(2).all(|w| w[0] <= w[1]));
        let mut reference = data.clone();
        reference.sort();
        assert_eq!(sorted, reference);
    }
}

#[test]
fn organ_pipe_and_sawtooth_inputs() {
    for len in [40usize, 100, 1000, 4097] {
        let mut pipe: Vec<i32> = Vec::new();
        for k in 0..len {
            pipe.push(if k < len / 2 { k as i32 } else { (len - k) as i32 });
        }
        agrees_with_std(&pipe);
        let mut saw: Vec<i32> = Vec::new();
        for k in 0..len {
            saw.push((k % 17) as i32);
        }
        agrees_with_std(&saw);
    }
}

#[test]
fn is_sorted_tells_order() {
    assert!(is_sorted(&[]));
    assert!(is_sorted(&[3]));
    assert!(is_sorted(&[1, 1, 2, 3, 3]));
    assert!(!is_sorted(&[1, 2, 1]));
    assert!(!is_sorted(&[2, 1]));
    assert!(!is_sorted(&[1, 2, 3, 4, 0]));
}

#[test]
fn large_patterned_inputs() {
    let len = 200_000usize;
    agrees_with_std(&descending(len));
    agrees_with_std(&vec![3; len]);
    let mut saw: Vec<i32> = Vec::with_capacity(len);
    let mut pipe: Vec<i32> = Vec::with_capacity(len);
    let mut steps: Vec<i32> = Vec::with_capacity(len);
    for k in 0..len {
        saw.push((k % 1000) as i32);
        pipe.push(if k < len / 2 { k as i32 } else { (len - k) as i32 });
        steps.push((k / 1000) as i32 * if k % 2 == 0 { 1 } else { -1 });
    }
    agrees_with_std(&saw);
    agrees_with_std(&pipe);
    agrees_with_std(&steps);
}

#[test]
fn large_input_with_few_distinct_values() {
    let mut state: u64 = 5;
    let mut data = Vec::with_capacity(300_000);
    for _ in 0..300_000 {
        data.push(next_sample(&mut state) % 3);
    }
    agrees_with_std(&data);
}
