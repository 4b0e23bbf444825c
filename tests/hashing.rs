use poseidon_params::field::Fp;
use poseidon_params::hash::{BinaryHashFunction, HashFunction, PoseidonHasher, UnaryHashFunction};

#[test]
fn binary_hash_matches_both_schedules() {
    let h = PoseidonHasher::<2>::new().unwrap();
    let a = Fp::from_u64(0);
    let b = Fp::from_u64(1);
    let out = BinaryHashFunction::hash(&h, &a, &b);
    assert_eq!(out, h.constants().hash_naive(&vec![a, b]));
    assert_eq!(out, h.constants().hash_optimized(&vec![a, b]));
    assert_eq!(out, HashFunction::<(), 2>::hash(&h, [&a, &b]));
    assert_ne!(out, BinaryHashFunction::hash(&h, &b, &a));
}

#[test]
fn unary_hash_matches_naive_schedule() {
    let h = PoseidonHasher::<1>::new().unwrap();
    let a = Fp::from_u64(42);
    let out = UnaryHashFunction::hash(&h, &a);
    assert_eq!(out, h.constants().hash_naive(&vec![a]));
    assert_eq!(out, HashFunction::<(), 1>::hash_in(&h, [&a], &mut ()));
}

#[test]
fn nary_hash_is_deterministic() {
    let h1 = PoseidonHasher::<4>::new().unwrap();
    let h2 = PoseidonHasher::<4>::new().unwrap();
    let xs: Vec<Fp> = (1..=4).map(Fp::from_u64).collect();
    let a = HashFunction::<(), 4>::hash(&h1, [&xs[0], &xs[1], &xs[2], &xs[3]]);
    let b = HashFunction::<(), 4>::hash(&h2, [&xs[0], &xs[1], &xs[2], &xs[3]]);
    assert_eq!(a, b);
    assert_eq!(a, h1.constants().hash_naive(&xs));
}

#[test]
fn hasher_rejects_zero_arity() {
    assert!(PoseidonHasher::<0>::new().is_err());
}

#[test]
fn hash_and_hash_in_agree_for_every_shape() {
    let h2 = PoseidonHasher::<2>::new().unwrap();
    let a = Fp::from_u64(5);
    let b = Fp::from_u64(9);
    assert_eq!(
        BinaryHashFunction::hash(&h2, &a, &b),
        BinaryHashFunction::hash_in(&h2, &a, &b, &mut ())
    );
    assert_eq!(HashFunction::<(), 2>::hash(&h2, [&a, &b]), BinaryHashFunction::hash(&h2, &a, &b));
    let h1 = PoseidonHasher::<1>::new().unwrap();
    assert_eq!(UnaryHashFunction::hash(&h1, &a), UnaryHashFunction::hash(&h1, &a));
    assert_eq!(UnaryHashFunction::hash(&h1, &a), UnaryHashFunction::hash_in(&h1, &a, &mut ()));
}

#[test]
fn independently_generated_hashers_agree() {
    let x = PoseidonHasher::<3>::new().unwrap();
    let y = PoseidonHasher::<3>::new().unwrap();
    let xs: Vec<Fp> = (10..13).map(Fp::from_u64).collect();
    assert_eq!(
        HashFunction::<(), 3>::hash(&x, [&xs[0], &xs[1], &xs[2]]),
        HashFunction::<(), 3>::hash(&y, [&xs[0], &xs[1], &xs[2]])
    );
}
