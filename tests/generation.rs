use poseidon_params::constants::PoseidonConstants;
use poseidon_params::error::ParamError;
use poseidon_params::field::{Fp, MODULUS, MODULUS_BITS};
use poseidon_params::mds::{mds_matrix, solve};
use poseidon_params::preprocessing::compress_round_constants;
use poseidon_params::round_constants::generate_round_constants;
use poseidon_params::round_numbers::{calc_round_numbers, MAX_WIDTH};

fn fp(v: u64) -> Fp {
    Fp::from_u64(v)
}

#[test]
fn field_arithmetic_wraps_at_the_modulus() {
    assert_eq!(fp(MODULUS), fp(0));
    assert_eq!(fp(MODULUS - 1).add(fp(2)), fp(1));
    assert_eq!(fp(1).sub(fp(2)), fp(MODULUS - 1));
    assert_eq!(fp(65536).mul(fp(65536)), fp(4294967296 % MODULUS));
    assert_eq!(fp(3).pow(5), fp(243));
    assert_eq!(fp(2).pow(31), fp(1));
}

#[test]
fn field_inverse_is_multiplicative_inverse() {
    for v in [1u64, 2, 3, 12345, MODULUS - 1] {
        assert_eq!(fp(v).mul(fp(v).inverse()), fp(1));
    }
    assert_eq!(fp(0).inverse(), fp(0));
}

#[test]
fn round_numbers_for_small_widths() {
    assert_eq!(calc_round_numbers(2, true), Ok((8, 55)));
    assert_eq!(calc_round_numbers(3, true), Ok((8, 55)));
    assert_eq!(calc_round_numbers(3, false), Ok((6, 51)));
    assert_eq!(calc_round_numbers(5, true), Ok((8, 56)));
}

#[test]
fn round_numbers_full_rounds_even_for_all_widths() {
    for w in 2..=MAX_WIDTH {
        for security in [true, false] {
            let (rf, rp) = calc_round_numbers(w, security).unwrap();
            assert_eq!(rf % 2, 0);
            assert_eq!((rf / 2) * 2, rf);
            assert!(rf >= 6);
            assert!(rp >= 4);
        }
    }
}

#[test]
fn round_numbers_reject_bad_widths() {
    assert_eq!(calc_round_numbers(0, true), Err(ParamError::InvalidWidth));
    assert_eq!(calc_round_numbers(1, true), Err(ParamError::InvalidWidth));
    assert_eq!(calc_round_numbers(MAX_WIDTH + 1, false), Err(ParamError::InvalidWidth));
}

#[test]
fn round_constants_are_deterministic_and_canonical() {
    let (a, drawn_a) = generate_round_constants(MODULUS_BITS, 3, 8, 55);
    let (b, drawn_b) = generate_round_constants(MODULUS_BITS, 3, 8, 55);
    assert_eq!(a.len(), 3 * 63);
    assert_eq!(a, b);
    assert_eq!(drawn_a, drawn_b);
    assert!(drawn_a >= a.len());
    assert!(a.iter().all(|x| x.val < MODULUS));
    assert_ne!(a[0], a[1]);
    let (c, _) = generate_round_constants(MODULUS_BITS, 4, 8, 55);
    assert_ne!(a[0..8].to_vec(), c[0..8].to_vec());
}

#[test]
fn round_constants_with_small_modulus_bits_are_small() {
    let (a, drawn) = generate_round_constants(4, 2, 2, 4);
    assert_eq!(a.len(), 12);
    assert_eq!(drawn, 12);
    assert!(a.iter().all(|x| x.val < 16));
}

#[test]
fn mds_matrix_is_cauchy() {
    let m = mds_matrix(3);
    assert_eq!(m.len(), 3);
    for i in 0..3 {
        assert_eq!(m[i].len(), 3);
        for j in 0..3 {
            assert_eq!(m[i][j].mul(fp((3 + i + j) as u64)), fp(1));
        }
    }
    assert_eq!(m[0][0], fp(3).inverse());
}

#[test]
fn solve_small_system() {
    // 2x + y = 5, x + 3y = 10  =>  x = 1, y = 3
    let a = vec![vec![fp(2), fp(1)], vec![fp(1), fp(3)]];
    let b = vec![fp(5), fp(10)];
    assert_eq!(solve(&a, &b), Some(vec![fp(1), fp(3)]));
    let singular = vec![vec![fp(1), fp(2)], vec![fp(2), fp(4)]];
    assert_eq!(solve(&singular, &b), None);
}

#[test]
fn compression_keeps_full_round_constants() {
    let (rc, _) = generate_round_constants(MODULUS_BITS, 3, 8, 55);
    let m = mds_matrix(3);
    let cc = compress_round_constants(3, 8, 55, &rc, &m);
    assert_eq!(cc.len(), 3 * 8 + 55);
    assert_eq!(cc[0..12].to_vec(), rc[0..12].to_vec());
    assert_eq!(cc[12], rc[12]);
    let tail = cc.len() - 9;
    assert_eq!(cc[tail..].to_vec(), rc[rc.len() - 9..].to_vec());
}

#[test]
fn width_three_bundle() {
    let b = PoseidonConstants::default::<3>().unwrap();
    assert_eq!(b.width, 3);
    assert_eq!(b.full_rounds % 2, 0);
    assert!(b.full_rounds >= 8);
    assert!(b.partial_rounds >= 55);
    assert_eq!(b.half_full_rounds * 2, b.full_rounds);
    assert!(b.round_constants.len() >= b.width * (b.full_rounds + b.partial_rounds));
    assert_eq!(b.sparse_matrixes.len(), b.partial_rounds);
    assert_eq!(b.domain_tag, fp(3));
    let inputs = vec![fp(0), fp(1)];
    assert_eq!(b.hash_naive(&inputs), b.hash_optimized(&inputs));
}

#[test]
fn width_zero_is_a_configuration_error() {
    assert!(matches!(PoseidonConstants::default::<0>(), Err(ParamError::InvalidWidth)));
    assert!(matches!(PoseidonConstants::generate(0, true), Err(ParamError::InvalidWidth)));
    assert!(matches!(PoseidonConstants::generate(1, false), Err(ParamError::InvalidWidth)));
    assert!(matches!(
        PoseidonConstants::generate(MAX_WIDTH + 1, true),
        Err(ParamError::InvalidWidth)
    ));
}

#[test]
fn naive_and_optimized_schedules_agree() {
    for w in [2usize, 3, 4, 5, 9] {
        for security in [true, false] {
            let b = PoseidonConstants::generate(w, security).unwrap();
            for seed in [0u64, 1, 7, 123456789, MODULUS - 1] {
                let inputs: Vec<Fp> = (0..w - 1).map(|i| fp(seed.wrapping_mul(31) + i as u64)).collect();
                assert_eq!(b.hash_naive(&inputs), b.hash_optimized(&inputs), "width {}", w);
            }
        }
    }
}

#[test]
fn generation_is_deterministic() {
    let a = PoseidonConstants::generate(4, true).unwrap();
    let b = PoseidonConstants::generate(4, true).unwrap();
    assert_eq!(a.full_rounds, b.full_rounds);
    assert_eq!(a.half_full_rounds, b.half_full_rounds);
    assert_eq!(a.partial_rounds, b.partial_rounds);
    assert_eq!(a.round_constants, b.round_constants);
    assert_eq!(a.compressed_round_constants, b.compressed_round_constants);
    assert_eq!(a.mds_matrices.m, b.mds_matrices.m);
    assert_eq!(a.pre_sparse_matrix, b.pre_sparse_matrix);
    assert_eq!(a.domain_tag, b.domain_tag);
    assert_eq!(a.sparse_matrixes.len(), b.sparse_matrixes.len());
    for (x, y) in a.sparse_matrixes.iter().zip(b.sparse_matrixes.iter()) {
        assert_eq!(x.row, y.row);
        assert_eq!(x.col, y.col);
    }
}

#[test]
fn different_arities_separate_domains() {
    let b2 = PoseidonConstants::generate(3, true).unwrap();
    let b3 = PoseidonConstants::generate(4, true).unwrap();
    assert_eq!(b2.domain_tag, fp(3));
    assert_eq!(b3.domain_tag, fp(7));
    let h2 = b2.hash_optimized(&vec![fp(1), fp(2)]);
    let h3 = b3.hash_optimized(&vec![fp(1), fp(2), fp(0)]);
    assert_ne!(h2, h3);
}

#[test]
fn generation_succeeds_across_widths() {
    for w in 2..=16usize {
        let b = PoseidonConstants::generate(w, true).unwrap();
        assert_eq!(b.width, w);
        assert_eq!(b.domain_tag, fp((1u64 << (w - 1)) - 1));
        assert_eq!(b.compressed_round_constants.len(), w * b.full_rounds + b.partial_rounds);
        let inputs: Vec<Fp> = (0..w - 1).map(|i| fp(1000 + i as u64)).collect();
        assert_eq!(b.hash_naive(&inputs), b.hash_optimized(&inputs), "width {}", w);
    }
}
