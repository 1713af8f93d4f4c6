use hash_bias::bits::{reverse_bits, test_bit};
use hash_bias::hash_gen::{HashOp, OpSequence};
use hash_bias::measure::{
    bin_of, chunk_count, measure_avalanche, measure_chunk, measure_chunk_with, tally_bin,
    tally_flips, Draw, SUB_ROUNDS,
};
use hash_bias::mixer::{FnMixer, Mixer};
use hash_bias::stats::{Matrix, Stats};
use hash_bias::tuning::hash_u32;

/// A small generator, so that the draws of a test are the same in every run.
struct Sequence(u32);

impl Sequence {
    fn next(&mut self) -> u32 {
        self.0 ^= self.0 << 13;
        self.0 ^= self.0 >> 17;
        self.0 ^= self.0 << 5;
        self.0
    }

    fn draws(&mut self, count: usize) -> Vec<Draw> {
        (0..count)
            .map(|_| Draw {
                input: self.next(),
                tree_seed: self.next(),
                first: self.next(),
                second: self.next(),
            })
            .collect()
    }
}

/// One chunk, counted with floating-point accumulators and no shortcuts.
fn chunk_by_hand(
    hash: &dyn Fn(u32, u32) -> u32,
    seed: u32,
    draws: &[Draw],
) -> ([[f64; 32]; 32], [[f64; 32]; 32]) {
    let mut flips = [[0.0f64; 32]; 32];
    let mut bins = [[0.0f64; 32]; 32];
    for draw in draws {
        let output_1 = hash(draw.input, seed);
        for bit_in in 0..32 {
            let output_2 = hash(draw.input ^ (1 << bit_in), seed);
            let diff = output_1 ^ output_2;
            for bit_out in 0..32 {
                if (diff & (1 << bit_out)) != 0 {
                    flips[bit_in][bit_out] += 1.0;
                }
            }
        }
        let output_3 = hash(draw.first, draw.tree_seed);
        let output_4 = hash(draw.second, draw.tree_seed);
        let x = ((draw.first ^ draw.second ^ output_3 ^ output_4).reverse_bits() as usize) >> 26;
        let y = (((draw.first ^ draw.second).reverse_bits() as usize) >> 26).wrapping_sub(32);
        if y < 32 {
            bins[x & 0b11111][y & 0b11111] += 1.0;
        }
    }
    for row in flips.iter_mut() {
        for cell in row.iter_mut() {
            *cell = (*cell - 0.5 * draws.len() as f64).abs();
        }
    }
    (flips, bins)
}

fn assert_matches_by_hand(hash: fn(u32, u32) -> u32, seed: u32, draws: &[Draw]) {
    let stats = measure_chunk_with(&FnMixer::new(hash), seed, &draws.to_vec());
    let (deviation, bins) = chunk_by_hand(&hash, seed, draws);
    assert_eq!(stats.samples, draws.len() as u64);
    for row in 0..32 {
        for col in 0..32 {
            assert_eq!(stats.avalanche.get(row, col) as f64, 2.0 * deviation[row][col]);
            assert_eq!(stats.tree.get(row, col) as f64, bins[row][col]);
        }
    }
}

fn identity(x: u32, _seed: u32) -> u32 {
    x
}

fn xor_seed(x: u32, seed: u32) -> u32 {
    x ^ seed
}

fn add_seed(x: u32, seed: u32) -> u32 {
    x.wrapping_add(seed)
}

fn weak_mix(x: u32, seed: u32) -> u32 {
    (x ^ seed).wrapping_mul(0x9e37_79b1) ^ (x >> 3)
}

fn constant(_x: u32, _seed: u32) -> u32 {
    0x1234_5678
}

#[test]
fn chunk_count_rounds_up() {
    assert_eq!(chunk_count(0), 0);
    assert_eq!(chunk_count(1), 1);
    assert_eq!(chunk_count(255), 1);
    assert_eq!(chunk_count(256), 1);
    assert_eq!(chunk_count(257), 2);
    assert_eq!(chunk_count(1 << 14), 64);
    assert_eq!(chunk_count(1 << 23), 1 << 15);
    assert_eq!(chunk_count(u32::MAX), 1 << 24);
    assert_eq!(chunk_count(u32::MAX - 254), 1 << 24);
    assert_eq!(chunk_count(u32::MAX - 255), (1 << 24) - 1);
}

#[test]
fn a_chunk_has_256_samples() {
    assert_eq!(SUB_ROUNDS, 256);
    assert_eq!(measure_chunk(&FnMixer::new(weak_mix)).samples, 256);
}

#[test]
fn bin_of_reads_the_reversed_words() {
    // The inputs differ in bit 0 only: the column is the first of the upper half.
    assert_eq!(bin_of(1, 0, 0, 0), Some((0, 0)));
    assert_eq!(bin_of(0, 1, 0, 0), Some((0, 0)));
    // Bits 0 and 1: the two top bits of the reversed word.
    assert_eq!(bin_of(3, 0, 0, 0), Some((16, 16)));
    // The outputs move the row only.
    assert_eq!(bin_of(1, 0, 0b10_0000, 0), Some((1, 0)));
    assert_eq!(bin_of(1, 0, 0b10_0000, 0b10_0000), Some((0, 0)));
    assert_eq!(bin_of(1, 0, 1, 0), Some((0, 0)));
    assert_eq!(bin_of(1, 0, 2, 0), Some((16, 0)));
    assert_eq!(bin_of(0x3f, 0, 0, 0), Some((31, 31)));
    assert_eq!(bin_of(0xffff_ffff, 0, 0, 0xffff_ffff), Some((0, 31)));
}

#[test]
fn bin_of_drops_the_lower_half() {
    assert_eq!(bin_of(0, 0, 0, 0), None);
    assert_eq!(bin_of(2, 0, 0, 0), None);
    assert_eq!(bin_of(7, 1, 0xffff_ffff, 0), None);
    assert_eq!(bin_of(0xffff_fffe, 0, 1, 0), None);
    assert_eq!(bin_of(5, 5, 1, 0), None);
}

#[test]
fn bin_of_agrees_with_the_reversal_on_many_words() {
    let mut words = Sequence(0x2545_f491);
    for _ in 0..10_000 {
        let (a, b, c, d) = (words.next(), words.next(), words.next(), words.next());
        let x = (a ^ b ^ c ^ d).reverse_bits() >> 26;
        let y = (a ^ b).reverse_bits() >> 26;
        let expected = if y >= 32 { Some(((x & 31) as usize, (y - 32) as usize)) } else { None };
        assert_eq!(bin_of(a, b, c, d), expected);
    }
}

#[test]
fn tally_flips_counts_one_input() {
    let mut counts = Matrix::zero();
    tally_flips(&FnMixer::new(identity), 7, 0xdead_beef, &mut counts);
    for row in 0..32 {
        for col in 0..32 {
            assert_eq!(counts.get(row, col), if row == col { 1 } else { 0 });
        }
    }
    // A shift to the right moves every bit one place down and loses bit 0.
    let mut counts = Matrix::zero();
    let shift = |x: u32, _seed: u32| x >> 1;
    tally_flips(&FnMixer::new(shift), 7, 0xdead_beef, &mut counts);
    tally_flips(&FnMixer::new(shift), 7, 0x0123_4567, &mut counts);
    for row in 0..32 {
        for col in 0..32 {
            assert_eq!(counts.get(row, col), if row == col + 1 { 2 } else { 0 });
        }
    }
}

#[test]
fn tally_flips_follows_the_carry() {
    // Adding 1 to 0b0111 carries into bit 3; flipping bit 0 first stops it.
    let mut counts = Matrix::zero();
    tally_flips(&FnMixer::new(|x: u32, _seed: u32| x.wrapping_add(1)), 0, 0b0111, &mut counts);
    // 0b0111 + 1 = 0b1000, 0b0110 + 1 = 0b0111: bits 0 to 3 differ.
    for col in 0..32 {
        assert_eq!(counts.get(0, col), if col < 4 { 1 } else { 0 });
    }
    // 0b0101 + 1 = 0b0110 against 0b1000: bits 1, 2 and 3 differ.
    for col in 0..32 {
        assert_eq!(counts.get(1, col), if (1..4).contains(&col) { 1 } else { 0 });
    }
}

#[test]
fn tally_bin_counts_one_pair() {
    let mut bins = Matrix::zero();
    let hash = FnMixer::new(identity);
    // Under the identity the outputs cancel the inputs: the row is 0.
    tally_bin(&hash, Draw { input: 0, tree_seed: 0, first: 3, second: 0 }, &mut bins);
    tally_bin(&hash, Draw { input: 0, tree_seed: 0, first: 3, second: 0 }, &mut bins);
    tally_bin(&hash, Draw { input: 0, tree_seed: 0, first: 1, second: 0 }, &mut bins);
    tally_bin(&hash, Draw { input: 0, tree_seed: 0, first: 2, second: 0 }, &mut bins);
    for row in 0..32 {
        for col in 0..32 {
            let expected = match (row, col) {
                (0, 16) => 2,
                (0, 0) => 1,
                _ => 0,
            };
            assert_eq!(bins.get(row, col), expected);
        }
    }
}

#[test]
fn a_chunk_matches_the_count_by_hand() {
    let mut words = Sequence(0x9e37_79b9);
    for &hash in [identity, xor_seed, add_seed, weak_mix, constant, hash_u32].iter() {
        let seed = words.next();
        let draws = words.draws(256);
        assert_matches_by_hand(hash, seed, &draws);
    }
}

#[test]
fn a_chunk_of_any_length_matches_the_count_by_hand() {
    let mut words = Sequence(0x0bad_5eed);
    for &len in [0usize, 1, 2, 3, 7, 100, 255, 257].iter() {
        let seed = words.next();
        let draws = words.draws(len);
        assert_matches_by_hand(weak_mix, seed, &draws);
        assert_matches_by_hand(add_seed, seed, &draws);
    }
}

#[test]
fn an_empty_chunk_counts_nothing() {
    assert_eq!(measure_chunk_with(&FnMixer::new(weak_mix), 5, &Vec::new()), Stats::zero());
}

#[test]
fn the_deviation_is_doubled_and_exact() {
    // Bit 0 of the output follows bit 0 of the input when bit 1 is clear.
    let hash = FnMixer::new(|x: u32, _seed: u32| if x & 2 == 0 { x & 1 } else { 0 });
    let draw = |input: u32| Draw { input, tree_seed: 0, first: 0, second: 0 };
    // Three inputs out of four follow: |2 * 3 - 4| = 2.
    let stats = measure_chunk_with(&hash, 0, &vec![draw(0), draw(1), draw(4), draw(2)]);
    assert_eq!(stats.samples, 4);
    assert_eq!(stats.avalanche.get(0, 0), 2);
    // One out of three: |2 * 1 - 3| = 1.
    let stats = measure_chunk_with(&hash, 0, &vec![draw(2), draw(1), draw(3)]);
    assert_eq!(stats.avalanche.get(0, 0), 1);
    // Two out of four: no bias.
    let stats = measure_chunk_with(&hash, 0, &vec![draw(0), draw(1), draw(6), draw(2)]);
    assert_eq!(stats.avalanche.get(0, 0), 0);
    // A bit that never follows is as biased as one that always does.
    assert_eq!(stats.avalanche.get(5, 0), 4);
}

fn assert_every_bias_is_one(stats: &Stats) {
    for row in 0..32 {
        for col in 0..32 {
            assert_eq!(stats.avalanche.get(row, col), stats.samples);
        }
    }
}

#[test]
fn the_identity_is_biased_throughout() {
    let mut words = Sequence(77);
    let draws = words.draws(256);
    let stats = measure_chunk_with(&FnMixer::new(identity), 1, &draws);
    assert_every_bias_is_one(&stats);
    let stats = measure_avalanche(&FnMixer::new(identity), 1 << 16);
    assert_eq!(stats.samples, 1 << 16);
    assert_every_bias_is_one(&stats);
    // On the diagonal the bias as a fraction is 1.
    for bit in 0..32 {
        assert_eq!(stats.avalanche.get(bit, bit) as f64 / stats.samples as f64, 1.0);
    }
    let stats = measure_avalanche(&OpSequence { ops: vec![] }, 1 << 12);
    assert_every_bias_is_one(&stats);
}

#[test]
fn xor_with_the_seed_is_biased_throughout() {
    let mut words = Sequence(78);
    for _ in 0..4 {
        let seed = words.next();
        let draws = words.draws(256);
        assert_every_bias_is_one(&measure_chunk_with(&FnMixer::new(xor_seed), seed, &draws));
    }
    let stats = measure_avalanche(&OpSequence { ops: vec![HashOp::Xor(0)] }, 1 << 16);
    assert_eq!(stats.samples, 1 << 16);
    assert_every_bias_is_one(&stats);
    let stats = measure_avalanche(&FnMixer::new(xor_seed), 1 << 12);
    assert_every_bias_is_one(&stats);
}

#[test]
fn the_identity_fills_one_row_of_the_tree_matrix() {
    let stats = measure_avalanche(&FnMixer::new(identity), 1 << 14);
    let mut hits = 0;
    for row in 0..32 {
        for col in 0..32 {
            if row != 0 {
                assert_eq!(stats.tree.get(row, col), 0);
            }
            hits += stats.tree.get(row, col);
        }
    }
    // Half of the pairs differ in bit 0 and have a bin.
    assert!(hits > (1 << 14) * 4 / 10 && hits < (1 << 14) * 6 / 10);
}

#[test]
fn the_sample_count_is_rounded_up_to_whole_chunks() {
    let hash = FnMixer::new(weak_mix);
    assert_eq!(measure_avalanche(&hash, 0), Stats::zero());
    assert_eq!(measure_avalanche(&hash, 1).samples, 256);
    assert_eq!(measure_avalanche(&hash, 256).samples, 256);
    assert_eq!(measure_avalanche(&hash, 257).samples, 512);
    assert_eq!(measure_avalanche(&hash, 1000).samples, 1024);
    assert_eq!(measure_avalanche(&hash, 1 << 14).samples, 1 << 14);
}

#[test]
fn no_count_exceeds_the_samples() {
    for &hash in [weak_mix, add_seed, constant, hash_u32].iter() {
        let stats = measure_avalanche(&FnMixer::new(hash), 3000);
        assert_eq!(stats.samples, 3072);
        let mut hits = 0;
        for row in 0..32 {
            for col in 0..32 {
                assert!(stats.avalanche.get(row, col) <= stats.samples);
                assert!(stats.tree.get(row, col) <= stats.samples);
                hits += stats.tree.get(row, col);
            }
        }
        assert!(hits <= stats.samples);
    }
}

#[test]
fn a_good_hash_shows_little_bias() {
    let stats = measure_avalanche(&FnMixer::new(hash_u32), 1 << 16);
    for row in 0..32 {
        for col in 0..32 {
            let bias = stats.avalanche.get(row, col) as f64 / stats.samples as f64;
            assert!(bias < 0.2, "bias {} at ({}, {})", bias, row, col);
            let density = stats.tree.get(row, col) as f64 * 1024.0 / stats.samples as f64;
            assert!(density > 0.02 && density < 1.5, "density {} at ({}, {})", density, row, col);
        }
    }
}

#[test]
fn two_measurements_draw_different_samples() {
    let hash = FnMixer::new(hash_u32);
    assert_ne!(measure_chunk(&hash), measure_chunk(&hash));
    assert_ne!(measure_avalanche(&hash, 256), measure_avalanche(&hash, 256));
}

#[test]
fn a_measurement_is_the_total_of_its_chunks() {
    // With a constant mixer every chunk counts the same avalanche matrix,
    // whatever is drawn: the total shows how many chunks went into it.
    let chunk = measure_chunk(&FnMixer::new(constant));
    let stats = measure_avalanche(&FnMixer::new(constant), 256 * 37);
    assert_eq!(stats.samples, 256 * 37);
    for row in 0..32 {
        for col in 0..32 {
            assert_eq!(chunk.avalanche.get(row, col), 256);
            assert_eq!(stats.avalanche.get(row, col), 256 * 37);
        }
    }
}

#[test]
fn a_mixer_from_a_closure_calls_the_closure() {
    let offset = 17u32;
    let hash = FnMixer::new(move |x: u32, seed: u32| x.wrapping_mul(seed).wrapping_add(offset));
    assert_eq!(hash.mix(3, 5), 32);
    assert_eq!(hash.mix(0, 5), 17);
}

#[test]
fn one_chunk_against_two_of_half_the_size() {
    let mut words = Sequence(0x5151_5151);
    let seed = words.next();
    let first = words.draws(256);
    let second = words.draws(256);
    let both: Vec<Draw> = first.iter().chain(second.iter()).cloned().collect();
    let hash = FnMixer::new(weak_mix);
    let whole = measure_chunk_with(&hash, seed, &both);
    let parts =
        measure_chunk_with(&hash, seed, &first).merge(measure_chunk_with(&hash, seed, &second));
    assert_eq!(whole.samples, parts.samples);
    assert_eq!(whole.tree, parts.tree);
    let mut smaller = 0;
    for row in 0..32 {
        for col in 0..32 {
            assert!(whole.avalanche.get(row, col) <= parts.avalanche.get(row, col));
            if whole.avalanche.get(row, col) < parts.avalanche.get(row, col) {
                smaller += 1;
            }
        }
    }
    assert!(smaller > 0);
}

#[test]
fn two_chunks_that_lean_to_opposite_sides() {
    // Bit 0 follows bit 0 where bit 1 of the input is clear.
    let hash = FnMixer::new(|x: u32, _seed: u32| if x & 2 == 0 { x & 1 } else { 0 });
    let draw = |input: u32| Draw { input, tree_seed: 0, first: 0, second: 0 };
    let always = vec![draw(0), draw(4)];
    let never = vec![draw(2), draw(6)];
    let both = vec![draw(0), draw(4), draw(2), draw(6)];
    assert_eq!(measure_chunk_with(&hash, 0, &always).avalanche.get(0, 0), 2);
    assert_eq!(measure_chunk_with(&hash, 0, &never).avalanche.get(0, 0), 2);
    assert_eq!(measure_chunk_with(&hash, 0, &both).avalanche.get(0, 0), 0);
}

#[test]
fn a_word_is_read_backwards() {
    assert_eq!(reverse_bits(0), 0);
    assert_eq!(reverse_bits(1), 0x8000_0000);
    assert_eq!(reverse_bits(0x8000_0000), 1);
    assert_eq!(reverse_bits(2), 0x4000_0000);
    assert_eq!(reverse_bits(0x21), 0x8400_0000);
    assert_eq!(reverse_bits(0xffff_ffff), 0xffff_ffff);
    assert_eq!(reverse_bits(0x0000_ffff), 0xffff_0000);
    assert_eq!(reverse_bits(0xdead_beef), 0xf77d_b57b);
    let mut words = Sequence(0x1357_9bdf);
    for _ in 0..10_000 {
        let v = words.next();
        let r = reverse_bits(v);
        assert_eq!(r, v.reverse_bits());
        assert_eq!(reverse_bits(r), v);
    }
    for i in 0..32 {
        assert_eq!(reverse_bits(1 << i), 1 << (31 - i));
    }
}

#[test]
fn a_bit_is_tested_by_its_place() {
    assert!(test_bit(1, 0));
    assert!(!test_bit(1, 1));
    assert!(test_bit(0x8000_0000, 31));
    assert!(!test_bit(0x7fff_ffff, 31));
    for i in 0..32 {
        assert!(test_bit(0xffff_ffff, i));
        assert!(!test_bit(0, i));
        assert_eq!(test_bit(0xdead_beef, i), (0xdead_beefu32 >> i) & 1 == 1);
        assert_eq!(test_bit(reverse_bits(0xdead_beef), i), test_bit(0xdead_beef, 31 - i));
    }
}
