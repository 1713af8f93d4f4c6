use hash_bias::hash_gen::{exec_hash_slice, picks_seed, shift_of, HashOp, OpSequence};
use hash_bias::mixer::Mixer;

const INPUTS: [u32; 6] = [0, 1, 0x8000_0000, 0xdead_beef, 0x1234_5678, 0xffff_ffff];
const SEEDS: [u32; 5] = [0, 1, 32, 0xcafe_f00d, 0xffff_ffff];

#[test]
fn nop_returns_its_input() {
    for &x in INPUTS.iter() {
        for &seed in SEEDS.iter() {
            assert_eq!(HashOp::Nop.exec(x, seed), x);
        }
    }
}

#[test]
fn xor_uses_its_constant_or_the_seed() {
    assert_eq!(HashOp::Xor(0x0f0f_0f0f).exec(0xffff_0000, 77), 0xf0f0_0f0f);
    assert_eq!(HashOp::Xor(0).exec(0xffff_0000, 0x0000_ffff), 0xffff_ffff);
    for &x in INPUTS.iter() {
        for &seed in SEEDS.iter() {
            assert_eq!(HashOp::Xor(0).exec(x, seed), x ^ seed);
            assert_eq!(HashOp::Xor(5).exec(x, seed), x ^ 5);
        }
    }
}

#[test]
fn add_wraps_around() {
    assert_eq!(HashOp::Add(0xffff_ffff).exec(2, 9), 1);
    assert_eq!(HashOp::Add(1).exec(0xffff_ffff, 9), 0);
    assert_eq!(HashOp::Add(0).exec(0xffff_fff0, 0x20), 0x10);
    assert_eq!(HashOp::Add(0).exec(40, 2), 42);
    assert_eq!(HashOp::Add(0).exec(40, 0), 40);
}

#[test]
fn mul_wraps_around_and_makes_the_seed_odd() {
    assert_eq!(HashOp::Mul(3).exec(7, 100), 21);
    assert_eq!(HashOp::Mul(0x8000_0001).exec(2, 100), 2);
    assert_eq!(HashOp::Mul(0).exec(7, 4), 35);
    assert_eq!(HashOp::Mul(0).exec(7, 5), 35);
    assert_eq!(HashOp::Mul(0).exec(7, 0), 7);
    assert_eq!(HashOp::Mul(0).exec(0x1_0001, 0xffff_fffe), 0xfffe_ffff);
}

#[test]
fn shl_xor_shifts_by_its_constant_or_the_shift_of_the_seed() {
    assert_eq!(HashOp::ShlXor(4).exec(0x0000_00ff, 9), 0x0000_0f0f);
    assert_eq!(HashOp::ShlXor(31).exec(1, 9), 0x8000_0001);
    assert_eq!(HashOp::ShlXor(0).exec(0x0000_00ff, 4), 0x0000_0f0f);
    assert_eq!(HashOp::ShlXor(0).exec(0x0000_00ff, 32 + 4), 0x0000_0f0f);
    // A seed whose low five bits are zero shifts by one, not by nothing.
    assert_eq!(HashOp::ShlXor(0).exec(0xdead_beef, 32), 0xdead_beef ^ (0xdead_beefu32 << 1));
    assert_eq!(HashOp::ShlXor(0).exec(0xdead_beef, 0), 0xdead_beef ^ (0xdead_beefu32 << 1));
    assert_eq!(HashOp::ShlXor(0).exec(1, 0), 3);
    assert_eq!(HashOp::ShlXor(0).exec(2, 0), 6);
    assert_eq!(HashOp::ShlXor(0).exec(1, 31), 0x8000_0001);
}

#[test]
fn shl_add_shifts_by_its_constant_or_the_shift_of_the_seed() {
    assert_eq!(HashOp::ShlAdd(4).exec(0x0000_00ff, 9), 0x0000_10ef);
    assert_eq!(HashOp::ShlAdd(31).exec(0x8000_0001, 9), 1);
    assert_eq!(HashOp::ShlAdd(0).exec(0x0000_00ff, 4), 0x0000_10ef);
    // A seed whose low five bits are zero shifts by one, not by nothing.
    assert_eq!(HashOp::ShlAdd(0).exec(3, 0x20), 9);
    assert_eq!(HashOp::ShlAdd(0).exec(1, 0), 3);
    assert_eq!(HashOp::ShlAdd(0).exec(0x8000_0000, 0), 0x8000_0000);
    assert_eq!(HashOp::ShlAdd(0).exec(1, 31), 0x8000_0001);
}

#[test]
fn a_stored_shift_above_31_counts_by_its_low_five_bits() {
    for &x in INPUTS.iter() {
        assert_eq!(HashOp::ShlXor(36).exec(x, 1), HashOp::ShlXor(4).exec(x, 1));
        assert_eq!(HashOp::ShlAdd(63).exec(x, 1), HashOp::ShlAdd(31).exec(x, 1));
        // Low five bits of zero shift by one.
        assert_eq!(HashOp::ShlXor(32).exec(x, 9), x ^ (x << 1));
        assert_eq!(HashOp::ShlAdd(64).exec(x, 9), x.wrapping_add(x << 1));
        assert_eq!(HashOp::ShlXor(0xffff_ffe0).exec(x, 9), x ^ (x << 1));
    }
}

#[test]
fn the_shift_of_a_word_is_from_1_to_31() {
    assert_eq!(shift_of(0), 1);
    assert_eq!(shift_of(1), 1);
    assert_eq!(shift_of(31), 31);
    assert_eq!(shift_of(32), 1);
    assert_eq!(shift_of(33), 1);
    assert_eq!(shift_of(34), 2);
    assert_eq!(shift_of(0xffff_ffff), 31);
    assert_eq!(shift_of(0xffff_ffe0), 1);
    for word in 0..4096u32 {
        let k = shift_of(word.wrapping_mul(0x9e37_79b1));
        assert!(1 <= k && k <= 31);
    }
    for k in 1..32u32 {
        assert_eq!(shift_of(k), k);
    }
}

#[test]
fn no_seed_makes_a_shift_lose_its_input() {
    // Shifted by nothing, `x ^ (x << k)` would be 0 for every input.
    for seed in (0..64u32).chain([0x20, 0x40, 0xffff_ffe0, 0x8000_0000].iter().cloned()) {
        let mut seen_xor = Vec::new();
        let mut seen_add = Vec::new();
        for x in 0..64u32 {
            seen_xor.push(HashOp::ShlXor(0).exec(x, seed));
            seen_add.push(HashOp::ShlAdd(0).exec(x, seed));
        }
        seen_xor.sort();
        seen_xor.dedup();
        seen_add.sort();
        seen_add.dedup();
        assert_eq!(seen_xor.len(), 64);
        assert_eq!(seen_add.len(), 64);
    }
}

#[test]
fn mul_xor_makes_the_seed_even() {
    assert_eq!(HashOp::MulXor(2).exec(5, 100), 5 ^ 10);
    assert_eq!(HashOp::MulXor(0).exec(5, 3), 5 ^ 10);
    assert_eq!(HashOp::MulXor(0).exec(5, 2), 5 ^ 10);
    assert_eq!(HashOp::MulXor(0).exec(5, 1), 5);
    assert_eq!(HashOp::MulXor(0x8000_0000).exec(3, 1), 0x8000_0003);
}

#[test]
fn the_seed_path_does_what_the_kind_does_with_the_seed() {
    for &x in INPUTS.iter() {
        for &seed in SEEDS.iter() {
            if seed != 0 {
                assert_eq!(HashOp::Xor(0).exec(x, seed), HashOp::Xor(seed).exec(x, seed));
                assert_eq!(HashOp::Add(0).exec(x, seed), HashOp::Add(seed).exec(x, seed));
            }
            assert_eq!(HashOp::Mul(0).exec(x, seed), HashOp::Mul(seed | 1).exec(x, seed));
            let shift = if seed & 31 == 0 { 1 } else { seed & 31 };
            assert_eq!(HashOp::ShlXor(0).exec(x, seed), HashOp::ShlXor(shift).exec(x, seed));
            assert_eq!(HashOp::ShlAdd(0).exec(x, seed), HashOp::ShlAdd(shift).exec(x, seed));
            assert_eq!(HashOp::ShlXor(0).exec(x, seed), x ^ (x << shift));
            assert_eq!(HashOp::ShlAdd(0).exec(x, seed), x.wrapping_add(x << shift));
            if seed & !1 != 0 {
                assert_eq!(
                    HashOp::MulXor(0).exec(x, seed),
                    HashOp::MulXor(seed & !1).exec(x, seed)
                );
            }
        }
    }
}

#[test]
fn a_constant_is_not_touched_by_the_seed() {
    let ops = [
        HashOp::Xor(9),
        HashOp::Add(9),
        HashOp::Mul(9),
        HashOp::ShlXor(9),
        HashOp::ShlAdd(9),
        HashOp::MulXor(8),
    ];
    for op in ops.iter() {
        for &x in INPUTS.iter() {
            let first = op.exec(x, SEEDS[0]);
            for &seed in SEEDS.iter() {
                assert_eq!(op.exec(x, seed), first);
            }
        }
    }
}

#[test]
fn a_sequence_runs_left_to_right() {
    let add_then_mul = [HashOp::Add(1), HashOp::Mul(3)];
    let mul_then_add = [HashOp::Mul(3), HashOp::Add(1)];
    assert_eq!(exec_hash_slice(&add_then_mul, 5, 0), 18);
    assert_eq!(exec_hash_slice(&mul_then_add, 5, 0), 16);
}

#[test]
fn an_empty_sequence_returns_its_input() {
    for &x in INPUTS.iter() {
        assert_eq!(exec_hash_slice(&[], x, 3), x);
    }
}

#[test]
fn a_sequence_hands_the_same_seed_to_every_operation() {
    let ops = [HashOp::Xor(0), HashOp::Add(0), HashOp::Xor(0)];
    assert_eq!(exec_hash_slice(&ops, 0x10, 0x03), ((0x10 ^ 0x03) + 0x03) ^ 0x03);
    let mut x = 0xdead_beefu32;
    for op in ops.iter() {
        x = op.exec(x, 0xcafe_f00d);
    }
    assert_eq!(exec_hash_slice(&ops, 0xdead_beef, 0xcafe_f00d), x);
}

#[test]
fn with_kind_suits_the_constant_to_the_kind() {
    assert_eq!(HashOp::with_kind(0, 99), HashOp::Nop);
    assert_eq!(HashOp::with_kind(1, 99), HashOp::Xor(99));
    assert_eq!(HashOp::with_kind(2, 99), HashOp::Add(99));
    assert_eq!(HashOp::with_kind(3, 4), HashOp::Mul(5));
    assert_eq!(HashOp::with_kind(3, 5), HashOp::Mul(5));
    assert_eq!(HashOp::with_kind(3, 0), HashOp::Mul(1));
    assert_eq!(HashOp::with_kind(4, 31), HashOp::ShlXor(1));
    assert_eq!(HashOp::with_kind(4, 30), HashOp::ShlXor(31));
    assert_eq!(HashOp::with_kind(4, 0), HashOp::ShlXor(1));
    assert_eq!(HashOp::with_kind(5, 62), HashOp::ShlAdd(1));
    assert_eq!(HashOp::with_kind(5, 0xffff_ffff), HashOp::ShlAdd(0xffff_ffff % 31 + 1));
    assert_eq!(HashOp::with_kind(6, 7), HashOp::MulXor(6));
    assert_eq!(HashOp::with_kind(6, 1), HashOp::MulXor(0));
    assert_eq!(HashOp::with_kind(6, 0), HashOp::MulXor(0));
}

#[test]
fn with_kind_counts_the_kind_modulo_7() {
    assert_eq!(HashOp::with_kind(7, 99), HashOp::Nop);
    assert_eq!(HashOp::with_kind(8, 99), HashOp::Xor(99));
    assert_eq!(HashOp::with_kind(13, 7), HashOp::MulXor(6));
    assert_eq!(HashOp::with_kind(0xffff_ffff, 3), HashOp::with_kind(0xffff_ffff % 7, 3));
}

#[test]
fn the_first_draw_picks_the_seed_in_one_case_of_four() {
    assert!(picks_seed(0));
    assert!(!picks_seed(1));
    assert!(!picks_seed(2));
    assert!(!picks_seed(3));
    assert!(picks_seed(4));
    assert!(picks_seed(0xffff_fffc));
    assert!(!picks_seed(0xffff_ffff));
    assert_eq!((0..1000u32).filter(|&s| picks_seed(s)).count(), 250);
}

#[test]
fn three_draws_stand_for_one_operation() {
    // The first draw picks the seed: the second is not looked at.
    assert_eq!(HashOp::from_draws(0, 99, 1), HashOp::Xor(0));
    assert_eq!(HashOp::from_draws(4, 99, 2), HashOp::Add(0));
    assert_eq!(HashOp::from_draws(8, 99, 3), HashOp::Mul(1));
    assert_eq!(HashOp::from_draws(8, 99, 4), HashOp::ShlXor(1));
    assert_eq!(HashOp::from_draws(8, 99, 5), HashOp::ShlAdd(1));
    assert_eq!(HashOp::from_draws(8, 99, 6), HashOp::MulXor(0));
    assert_eq!(HashOp::from_draws(8, 99, 7), HashOp::Nop);
    // It does not: the second is the constant.
    assert_eq!(HashOp::from_draws(1, 99, 1), HashOp::Xor(99));
    assert_eq!(HashOp::from_draws(2, 99, 2), HashOp::Add(99));
    assert_eq!(HashOp::from_draws(3, 98, 3), HashOp::Mul(99));
    assert_eq!(HashOp::from_draws(5, 99, 4), HashOp::ShlXor(99 % 31 + 1));
    assert_eq!(HashOp::from_draws(6, 99, 5), HashOp::ShlAdd(7));
    assert_eq!(HashOp::from_draws(7, 99, 6), HashOp::MulXor(98));
    assert_eq!(HashOp::from_draws(7, 99, 0), HashOp::Nop);
    for selector in 0..16u32 {
        for kind in 0..14u32 {
            let constant = if selector & 3 == 0 { 0 } else { 0xdead_beef };
            assert_eq!(
                HashOp::from_draws(selector, 0xdead_beef, kind),
                HashOp::with_kind(kind, constant)
            );
        }
    }
}

fn suits_its_kind(op: HashOp) -> bool {
    match op {
        HashOp::Nop | HashOp::Xor(_) | HashOp::Add(_) => true,
        HashOp::Mul(c) => c % 2 == 1,
        HashOp::ShlXor(c) | HashOp::ShlAdd(c) => 1 <= c && c <= 31,
        HashOp::MulXor(c) => c % 2 == 0,
    }
}

#[test]
fn random_operations_suit_their_kind() {
    let mut seen = Vec::new();
    for _ in 0..2000 {
        let op = HashOp::gen_random();
        assert!(suits_its_kind(op));
        if !seen.contains(&op) {
            seen.push(op);
        }
    }
    // Two thousand draws that were all the same would not be random.
    assert!(seen.len() > 7);
}

#[test]
fn random_operations_are_of_every_kind() {
    let mut kinds = [false; 7];
    let mut from_seed = 0;
    for _ in 0..2000 {
        match HashOp::gen_random() {
            HashOp::Nop => kinds[0] = true,
            HashOp::Xor(c) => {
                kinds[1] = true;
                if c == 0 {
                    from_seed += 1;
                }
            }
            HashOp::Add(_) => kinds[2] = true,
            HashOp::Mul(_) => kinds[3] = true,
            HashOp::ShlXor(_) => kinds[4] = true,
            HashOp::ShlAdd(_) => kinds[5] = true,
            HashOp::MulXor(_) => kinds[6] = true,
        }
    }
    assert!(kinds.iter().all(|&k| k));
    // About one xor in four takes the seed.
    assert!(from_seed > 20 && from_seed < 160);
}

#[test]
fn a_sequence_is_a_mixer() {
    let seq = OpSequence { ops: vec![HashOp::Mul(0), HashOp::ShlXor(7), HashOp::Add(0x1234)] };
    for &x in INPUTS.iter() {
        for &seed in SEEDS.iter() {
            assert_eq!(seq.mix(x, seed), exec_hash_slice(&seq.ops, x, seed));
        }
    }
    assert_eq!(OpSequence { ops: vec![HashOp::Xor(0)] }.mix(0xf0, 0x0f), 0xff);
}

#[test]
fn an_operation_that_suits_its_kind_loses_no_input() {
    let ops = [
        HashOp::Nop,
        HashOp::Xor(0),
        HashOp::Xor(0xdead_beef),
        HashOp::Add(0),
        HashOp::Add(0xdead_beef),
        HashOp::Mul(0),
        HashOp::Mul(0xdead_beef),
        HashOp::Mul(1),
        HashOp::ShlXor(0),
        HashOp::ShlXor(1),
        HashOp::ShlXor(31),
        HashOp::ShlXor(32),
        HashOp::ShlAdd(0),
        HashOp::ShlAdd(17),
        HashOp::ShlAdd(64),
        HashOp::MulXor(0),
        HashOp::MulXor(0xdead_beee),
        HashOp::MulXor(2),
    ];
    for op in ops.iter() {
        for &seed in SEEDS.iter() {
            let mut outputs: Vec<u32> = (0..4096u32)
                .map(|i| op.exec(i.wrapping_mul(0x0010_0001) ^ (i << 20), seed))
                .collect();
            outputs.sort();
            outputs.dedup();
            assert_eq!(outputs.len(), 4096, "{:?} under seed {:#x}", op, seed);
        }
    }
}

#[test]
fn an_operation_that_does_not_suit_its_kind_can_lose_inputs() {
    assert_eq!(HashOp::Mul(2).exec(0x8000_0000, 0), HashOp::Mul(2).exec(0, 0));
    assert_eq!(HashOp::MulXor(1).exec(5, 0), HashOp::MulXor(1).exec(6, 0));
}
