use lemire::{
    convert_an_m_to_a_roll_result, lemire_from_seed, modulo_256, rejection_ceiling,
    roll_using_lemire_fast, roll_using_lemire_only_one_trick, roll_using_readable_lemire,
    roll_using_traditional_rejection_method, two_fifty_six_modulo, ByteSource, RandomBytes,
    ReplayBytes, SamplingError, MAX_ATTEMPTS,
};
use std::collections::HashMap;

fn replay(bytes: &[u8]) -> ReplayBytes {
    ReplayBytes::new(bytes.to_vec())
}

fn make_distribution() -> HashMap<usize, usize> {
    let mut all_results: Vec<usize> = vec![];
    let lower = 0;
    let upper = 255;
    for this_seed in lower..=upper {
        match lemire_from_seed(this_seed, 6) {
            Some(roll_result) => {
                all_results.push(roll_result as usize);
            }
            None => continue,
        }
    }

    let mut counts_hashmap: HashMap<usize, usize> = HashMap::new();
    for result in all_results {
        counts_hashmap
            .entry(result)
            .and_modify(|count| *count += 1)
            .or_insert(1);
    }
    counts_hashmap
}

fn makes_counts_vector(counts_hashmap: HashMap<usize, usize>) -> Vec<(usize, usize)> {
    counts_hashmap.into_iter().collect()
}

fn is_distribution_perfectly_even(count_vec: Vec<(usize, usize)>) -> bool {
    let first_count = count_vec[0].1;
    for result in &count_vec {
        if result.1 != first_count {
            return false;
        }
    }
    true
}

#[test]
fn readable_two_fifty_six_modulo_shortcut_works_as_expected() {
    for s in 1..=u8::MAX {
        let traditional_method = 256 % s as u16;
        let shortcut_method = two_fifty_six_modulo(s);

        assert_eq!(traditional_method, shortcut_method as u16);
    }
}

#[test]
fn readable_converting_from_m_to_roll_result_shortcut_works_as_expected() {
    for possible_m in 0..=u16::MAX {
        let traditional_method = possible_m / 256;
        let shortcut_method = convert_an_m_to_a_roll_result(possible_m);
        assert_eq!(traditional_method, shortcut_method);
    }
}

#[test]
fn readable_lemire_from_seed_function_returns_exactly_6_different_roll_results() {
    let distribution = make_distribution();
    let counts_vec = makes_counts_vector(distribution);
    assert_eq!(counts_vec.len(), 6);
}

#[test]
fn readable_lemire_from_seed_function_produces_an_even_distribution() {
    let distribution = make_distribution();
    println!("Distribution is {:?}", distribution);
    let counts_vec = makes_counts_vector(distribution);
    assert!(is_distribution_perfectly_even(counts_vec));
}

#[test]
fn tests_lemire_from_seed_function_returns_exactly_6_different_roll_results() {
    let distribution = make_distribution();
    let counts_vec = makes_counts_vector(distribution);
    assert_eq!(counts_vec.len(), 6);
}

#[test]
fn tests_lemire_from_seed_function_produces_an_even_distribution() {
    let distribution = make_distribution();
    println!("Distribution is {:?}", distribution);
    let counts_vec = makes_counts_vector(distribution);
    assert!(is_distribution_perfectly_even(counts_vec));
}

#[test]
fn modulo_256_shortcut_works_as_expected() {
    for possible_m in 0..=u16::MAX {
        let traditional_method = possible_m % 256;
        let shortcut_method = modulo_256(possible_m);
        assert_eq!(traditional_method, shortcut_method as u16);
    }
}

#[test]
fn tests_two_fifty_six_modulo_shortcut_works_as_expected() {
    for s in 1..=u8::MAX {
        let traditional_method = 256 % s as u16;
        let shortcut_method = two_fifty_six_modulo(s);

        assert_eq!(traditional_method, shortcut_method as u16);
    }
}

#[test]
fn tests_converting_from_m_to_roll_result_shortcut_works_as_expected() {
    for possible_m in 0..=u16::MAX {
        let traditional_method = possible_m / 256;
        let shortcut_method = convert_an_m_to_a_roll_result(possible_m);
        assert_eq!(traditional_method, shortcut_method);
    }
}

#[test]
fn bound_six_scenarios() {
    assert_eq!(two_fifty_six_modulo(6), 4);
    assert_eq!(lemire_from_seed(0, 6), None);
    assert_eq!(lemire_from_seed(1, 6), Some(0));
    assert_eq!(lemire_from_seed(42, 6), Some(0));
    assert_eq!(lemire_from_seed(43, 6), None);
    assert_eq!(lemire_from_seed(44, 6), Some(1));
    assert_eq!(lemire_from_seed(255, 6), Some(5));
}

#[test]
fn lemire_from_seed_is_even_for_every_bound() {
    for s in 1..=u8::MAX {
        let mut counts = vec![0usize; s as usize];
        for seed in 0..=u8::MAX {
            if let Some(roll) = lemire_from_seed(seed, s) {
                assert_eq!(roll, seed as u16 * s as u16 / 256);
                assert!(roll < s as u16);
                counts[roll as usize] += 1;
            }
        }
        let kept: usize = counts.iter().sum();
        assert_eq!(kept, 256 - 256 % s as usize);
        assert!(counts.iter().all(|&c| c == 256 / s as usize));
    }
}

#[test]
fn lemire_from_seed_with_bound_one_keeps_every_byte() {
    for seed in 0..=u8::MAX {
        assert_eq!(lemire_from_seed(seed, 1), Some(0));
    }
}

#[test]
fn largest_bound_product() {
    assert_eq!(lemire_from_seed(255, 255), Some(254));
    assert_eq!(convert_an_m_to_a_roll_result(65025), 254);
    assert_eq!(modulo_256(65025), 1);
    assert_eq!(two_fifty_six_modulo(255), 1);
    assert_eq!(lemire_from_seed(0, 255), None);
}

#[test]
fn modulo_256_and_shift_on_edges() {
    assert_eq!(modulo_256(0), 0);
    assert_eq!(modulo_256(255), 255);
    assert_eq!(modulo_256(256), 0);
    assert_eq!(modulo_256(u16::MAX), 255);
    assert_eq!(convert_an_m_to_a_roll_result(255), 0);
    assert_eq!(convert_an_m_to_a_roll_result(256), 1);
    assert_eq!(convert_an_m_to_a_roll_result(u16::MAX), 255);
}

#[test]
fn rejection_ceiling_for_each_bound() {
    assert_eq!(rejection_ceiling(1), 256);
    assert_eq!(rejection_ceiling(6), 252);
    assert_eq!(rejection_ceiling(7), 252);
    assert_eq!(rejection_ceiling(129), 129);
    assert_eq!(rejection_ceiling(255), 255);
    for s in 1..=u8::MAX {
        let c = rejection_ceiling(s);
        assert_eq!(c, 256 - 256 % s as u16);
        assert_eq!(c % s as u16, 0);
    }
}

#[test]
fn replay_source_repeats_its_recording() {
    let mut source = replay(&[3, 1, 4]);
    let drawn: Vec<u8> = (0..7).map(|_| source.next_byte()).collect();
    assert_eq!(drawn, vec![3, 1, 4, 3, 1, 4, 3]);
}

#[test]
fn zero_bound_is_refused() {
    let mut source = replay(&[44, 99]);
    assert_eq!(roll_using_lemire_fast(0, &mut source), Err(SamplingError::InvalidBound));
    assert_eq!(roll_using_lemire_only_one_trick(0, &mut source), Err(SamplingError::InvalidBound));
    assert_eq!(roll_using_readable_lemire(0, &mut source), Err(SamplingError::InvalidBound));
    assert_eq!(
        roll_using_traditional_rejection_method(0, &mut source),
        Err(SamplingError::InvalidBound)
    );
    // Nothing was drawn: the recording still starts at its first byte.
    assert_eq!(source.next_byte(), 44);
    let mut random = RandomBytes::new();
    assert_eq!(roll_using_lemire_fast(0, &mut random), Err(SamplingError::InvalidBound));
    assert_eq!(
        roll_using_traditional_rejection_method(0, &mut random),
        Err(SamplingError::InvalidBound)
    );
}

#[test]
fn lemire_samplers_skip_rejected_bytes() {
    // With bound 6, bytes 0 and 43 are rejected; 44 gives roll 1.
    let mut fast = replay(&[0, 43, 44, 99]);
    assert_eq!(roll_using_lemire_fast(6, &mut fast), Ok(1));
    assert_eq!(fast.next_byte(), 99);
    let mut one_trick = replay(&[0, 43, 44, 99]);
    assert_eq!(roll_using_lemire_only_one_trick(6, &mut one_trick), Ok(1));
    assert_eq!(one_trick.next_byte(), 99);
    let mut readable = replay(&[0, 43, 44, 99]);
    assert_eq!(roll_using_readable_lemire(6, &mut readable), Ok(1));
    assert_eq!(readable.next_byte(), 99);
}

#[test]
fn lemire_samplers_keep_the_first_good_byte() {
    let mut fast = replay(&[255, 0, 99]);
    assert_eq!(roll_using_lemire_fast(6, &mut fast), Ok(5));
    assert_eq!(fast.next_byte(), 0);
    let mut readable = replay(&[42, 0, 99]);
    assert_eq!(roll_using_readable_lemire(6, &mut readable), Ok(0));
    assert_eq!(readable.next_byte(), 0);
}

#[test]
fn lemire_samplers_on_rejected_then_kept_bytes() {
    for bytes in [[0u8, 44, 99], [128, 45, 99]] {
        let mut fast = replay(&bytes);
        assert_eq!(roll_using_lemire_fast(6, &mut fast), Ok(1));
        assert_eq!(fast.next_byte(), 99);
        let mut readable = replay(&bytes);
        assert_eq!(roll_using_readable_lemire(6, &mut readable), Ok(1));
        assert_eq!(readable.next_byte(), 99);
    }
}

#[test]
fn lemire_forms_agree_on_the_same_bytes() {
    for s in 1..=u8::MAX {
        for first in 0..=u8::MAX {
            let bytes = [first, first.wrapping_mul(37), 1, 0];
            let mut fast = replay(&bytes);
            let mut one_trick = replay(&bytes);
            let mut readable = replay(&bytes);
            let a = roll_using_lemire_fast(s, &mut fast);
            assert_eq!(roll_using_lemire_only_one_trick(s, &mut one_trick), a);
            assert_eq!(roll_using_readable_lemire(s, &mut readable), a);
            let next = fast.next_byte();
            assert_eq!(one_trick.next_byte(), next);
            assert_eq!(readable.next_byte(), next);
        }
    }
}

#[test]
fn rejection_sampler_skips_bytes_at_the_ceiling() {
    // With bound 6 the ceiling is 252: 252..=255 are drawn again.
    let mut source = replay(&[255, 252, 251, 99]);
    assert_eq!(roll_using_traditional_rejection_method(6, &mut source), Ok(251 % 6));
    assert_eq!(source.next_byte(), 99);
    let mut small = replay(&[13]);
    assert_eq!(roll_using_traditional_rejection_method(6, &mut small), Ok(1));
    // Bound 1 keeps every byte, 255 included.
    let mut top = replay(&[255, 99]);
    assert_eq!(roll_using_traditional_rejection_method(1, &mut top), Ok(0));
    assert_eq!(top.next_byte(), 99);
}

#[test]
fn rejection_sampler_uses_the_ceiling_of_its_bound() {
    let mut wide = replay(&[210, 5, 99]);
    assert_eq!(roll_using_traditional_rejection_method(200, &mut wide), Ok(5));
    assert_eq!(wide.next_byte(), 99);
    let mut eight = replay(&[255, 99]);
    assert_eq!(roll_using_traditional_rejection_method(8, &mut eight), Ok(7));
    assert_eq!(eight.next_byte(), 99);
    let mut six = replay(&[252, 253, 17, 99]);
    assert_eq!(roll_using_traditional_rejection_method(6, &mut six), Ok(5));
    assert_eq!(six.next_byte(), 99);
}

#[test]
fn rejection_sampler_is_even_for_every_bound() {
    for s in 1..=u8::MAX {
        let mut counts = vec![0usize; s as usize];
        for seed in 0..=u8::MAX {
            let mut source = replay(&[seed]);
            if (seed as u16) < rejection_ceiling(s) {
                let roll = roll_using_traditional_rejection_method(s, &mut source).unwrap();
                assert_eq!(roll, seed % s);
                counts[roll as usize] += 1;
            }
        }
        assert!(counts.iter().all(|&c| c == 256 / s as usize));
    }
}

#[test]
fn stuck_source_is_exhausted() {
    // Three rejected bytes: after exactly MAX_ATTEMPTS draws the next byte
    // is the one at MAX_ATTEMPTS % 3 in the recording.
    let next = |bytes: &[u8]| bytes[MAX_ATTEMPTS as usize % 3];
    let lemire_bytes = [0u8, 43, 128];
    let mut fast = replay(&lemire_bytes);
    assert_eq!(roll_using_lemire_fast(6, &mut fast), Err(SamplingError::SourceExhausted));
    assert_eq!(fast.next_byte(), next(&lemire_bytes));
    let mut one_trick = replay(&lemire_bytes);
    assert_eq!(
        roll_using_lemire_only_one_trick(6, &mut one_trick),
        Err(SamplingError::SourceExhausted)
    );
    assert_eq!(one_trick.next_byte(), next(&lemire_bytes));
    let mut readable = replay(&lemire_bytes);
    assert_eq!(roll_using_readable_lemire(6, &mut readable), Err(SamplingError::SourceExhausted));
    assert_eq!(readable.next_byte(), next(&lemire_bytes));
    let rejection_bytes = [252u8, 253, 254];
    let mut rejection = replay(&rejection_bytes);
    assert_eq!(
        roll_using_traditional_rejection_method(6, &mut rejection),
        Err(SamplingError::SourceExhausted)
    );
    assert_eq!(rejection.next_byte(), next(&rejection_bytes));
}

#[test]
fn every_byte_is_kept_when_the_bound_divides_256() {
    for s in [1u8, 2, 4, 8, 16, 32, 64, 128] {
        for seed in 0..=u8::MAX {
            assert!(lemire_from_seed(seed, s).is_some());
            let mut source = replay(&[seed]);
            assert!(roll_using_lemire_fast(s, &mut source).is_ok());
        }
    }
}

#[test]
fn random_rolls_stay_in_range() {
    let mut random = RandomBytes::new();
    for s in [1u8, 2, 6, 100, 129, 255] {
        for _ in 0..200 {
            assert!(roll_using_lemire_fast(s, &mut random).unwrap() < s as u16);
            assert!(roll_using_lemire_only_one_trick(s, &mut random).unwrap() < s as u16);
            assert!(roll_using_readable_lemire(s, &mut random).unwrap() < s as u16);
            assert!(roll_using_traditional_rejection_method(s, &mut random).unwrap() < s);
        }
    }
}
