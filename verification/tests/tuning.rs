use hash_bias::measure::measure_avalanche;
use hash_bias::mixer::{FnMixer, Mixer};
use hash_bias::optimize::{Bound, Strategy, STAT_ROUNDS};
use hash_bias::score::score;
use hash_bias::stats::Stats;
use hash_bias::tuning::{
    exec_constants, flip_constant_bit, hash_u32, search_constants, seeded_constants,
    ConstantSearch, BASE_CONSTANTS,
};

const BASE: [u32; 6] = [0xfad85de6, 0xf6db595b, 0x17ebb038, 0xe100f46f, 0x09e4ac1a, 0xe1d8c1ff];

#[test]
fn hash_u32_known_values() {
    assert_eq!(hash_u32(0, 0), 0);
    assert_eq!(hash_u32(1, 0), 0x0427_41d6);
    assert_eq!(hash_u32(0, 1), 0x6b69_e0ab);
    assert_eq!(hash_u32(0xdead_beef, 7), 0x60f1_826e);
    assert_eq!(hash_u32(0xffff_ffff, 0xffff_ffff), 0xa546_37e4);
    assert_eq!(hash_u32(12345, 678), 0xf097_5ab9);
}

#[test]
fn hash_u32_adds_the_spread_seed_first() {
    for &seed in [1u32, 2, 0x8000_0000, 0xdead_beef].iter() {
        let spread = seed.wrapping_mul(0x736c_af6f);
        assert_eq!(hash_u32(5, seed), hash_u32(5u32.wrapping_add(spread), 0));
    }
}

#[test]
fn exec_constants_known_values() {
    let base = |a: u32, b: u32| [BASE[0], BASE[1], BASE[2], BASE[3], BASE[4], BASE[5], a, b];
    assert_eq!(exec_constants(0, base(0, 1), 0), 0);
    assert_eq!(exec_constants(1, base(0, 1), 0), 0xfdfc_e7cb);
    assert_eq!(exec_constants(0x1234_5678, base(0xdead_beee, 0x0123_4567), 42), 0xbbfe_9f6e);
    assert_eq!(exec_constants(0xffff_ffff, [1, 2, 3, 4, 5, 6, 7, 8], 0xffff_ffff), 0x24e8_d5fe);
    assert_eq!(exec_constants(7, [0; 8], 9), 0x76a8_1310);
}

#[test]
fn exec_constants_makes_its_constants_even_and_odd() {
    let n = [10, 11, 12, 13, 14, 15, 16, 17];
    let m = [11, 10, 13, 12, 15, 14, 17, 16];
    for &x in [0u32, 1, 0xdead_beef].iter() {
        assert_eq!(exec_constants(x, n, 3), exec_constants(x, m, 3));
    }
}

#[test]
fn the_starting_vector_holds_the_fixed_constants() {
    assert_eq!(BASE_CONSTANTS, BASE);
    assert_eq!(
        seeded_constants(0x1111_1111, 0x2222_2222),
        [BASE[0], BASE[1], BASE[2], BASE[3], BASE[4], BASE[5], 0x1111_1110, 0x2222_2223]
    );
    assert_eq!(seeded_constants(0, 0)[6..], [0, 1]);
    assert_eq!(seeded_constants(0xffff_ffff, 0xffff_ffff)[6..], [0xffff_fffe, 0xffff_ffff]);
}

#[test]
fn a_flip_changes_one_bit_of_one_of_the_last_two() {
    let n = [1, 2, 3, 4, 5, 6, 0x100, 0x201];
    assert_eq!(flip_constant_bit(n, 0, 4), [1, 2, 3, 4, 5, 6, 0x110, 0x201]);
    assert_eq!(flip_constant_bit(n, 1, 4), [1, 2, 3, 4, 5, 6, 0x100, 0x211]);
    assert_eq!(flip_constant_bit(n, 2, 8), [1, 2, 3, 4, 5, 6, 0, 0x201]);
    assert_eq!(flip_constant_bit(n, 255, 31), [1, 2, 3, 4, 5, 6, 0x100, 0x8000_0201]);
    assert_eq!(flip_constant_bit(n, 0, 32 + 4), [1, 2, 3, 4, 5, 6, 0x110, 0x201]);
    assert_eq!(flip_constant_bit(n, 0, 255), [1, 2, 3, 4, 5, 6, 0x8000_0100, 0x201]);
}

#[test]
fn a_flip_never_takes_bit_0() {
    let n = [1, 2, 3, 4, 5, 6, 0x100, 0x201];
    assert_eq!(flip_constant_bit(n, 0, 0), [1, 2, 3, 4, 5, 6, 0x102, 0x201]);
    assert_eq!(flip_constant_bit(n, 1, 32), [1, 2, 3, 4, 5, 6, 0x100, 0x203]);
    assert_eq!(flip_constant_bit(n, 1, 1), [1, 2, 3, 4, 5, 6, 0x100, 0x203]);
    assert_eq!(flip_constant_bit(n, 0, 224), [1, 2, 3, 4, 5, 6, 0x102, 0x201]);
}

#[test]
fn the_search_generates_around_the_fixed_constants() {
    let mut seen = Vec::new();
    for _ in 0..50 {
        let n = ConstantSearch.generate();
        assert_eq!(n[..6], BASE);
        assert_eq!(n[6] % 2, 0);
        assert_eq!(n[7] % 2, 1);
        seen.push(n);
    }
    seen.dedup();
    assert!(seen.len() > 40);
}

#[test]
fn the_search_mutates_one_bit() {
    let n = seeded_constants(0x1234_5678, 0x9abc_def1);
    let mut sixth = 0;
    let mut seventh = 0;
    for _ in 0..200 {
        let m = ConstantSearch.mutate(n);
        assert_eq!(m[..6], n[..6]);
        let changed = (m[6] ^ n[6]) | (m[7] ^ n[7]);
        assert_eq!(changed.count_ones(), 1);
        assert_eq!(changed & 1, 0);
        assert!(m[6] == n[6] || m[7] == n[7]);
        if m[6] != n[6] {
            sixth += 1;
        } else {
            seventh += 1;
        }
    }
    assert!(sixth > 40 && seventh > 40);
}

#[test]
fn the_search_executes_its_family() {
    let n = seeded_constants(0x1234_5678, 0x9abc_def1);
    for &x in [0u32, 1, 0xdead_beef].iter() {
        assert_eq!(ConstantSearch.execute(x, n, 5), exec_constants(x, n, 5));
        let bound = Bound { strategy: &ConstantSearch, params: n };
        assert_eq!(bound.mix(x, 5), exec_constants(x, n, 5));
    }
}

#[test]
fn searching_for_no_rounds_measures_nothing() {
    let (constants, stats) = search_constants(0);
    assert_eq!(constants[..6], BASE);
    assert_eq!(stats, Stats::zero());
}

#[test]
fn searching_returns_constants_with_their_measurement() {
    let (constants, stats) = search_constants(3);
    assert_eq!(constants[..6], BASE);
    assert_eq!(constants[6] % 2, 0);
    assert_eq!(constants[7] % 2, 1);
    assert_eq!(stats.samples, STAT_ROUNDS as u64);
    // A second measurement of the same constants scores about the same.
    let again = measure_avalanche(
        &FnMixer::new(move |x: u32, seed: u32| exec_constants(x, constants, seed)),
        STAT_ROUNDS,
    );
    let ratio = score(&again) as f64 / score(&stats) as f64;
    assert!(ratio > 0.5 && ratio < 2.0, "ratio {}", ratio);
    // The family mixes: it is far from a function that does not.
    let plain = measure_avalanche(&FnMixer::new(|x: u32, _seed: u32| x), STAT_ROUNDS);
    assert!(score(&stats) < score(&plain));
}
