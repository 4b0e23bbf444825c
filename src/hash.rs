//! Hash functions: the call shapes, and the Poseidon hasher over a parameter bundle.

use vstd::prelude::*;
use crate::constants::PoseidonConstants;
use crate::error::ParamError;
use crate::field::{fe, Fp};
use crate::matrix::{vec_wf, view2};
use crate::permutation::{naive_rounds, opt_rounds, permute_naive, permute_optimized};
use crate::round_numbers::{valid_width, MAX_WIDTH};

verus! {

/// A computation context that can be built from nothing: native arithmetic.
pub trait Native: Sized {
    /// Returns the context.
    fn compiler() -> Self;
}

impl Native for () {
    fn compiler() -> Self {
    }
}

/// Hash Function
pub trait HashFunction<COM, const ARITY: usize> {
    /// Input Type
    type Input: ?Sized;

    /// Output Type
    type Output;

    /// The hash of `input`.
    spec fn spec_hash(&self, input: [&Self::Input; ARITY]) -> Self::Output;

    /// Computes the hash over `input` in the given `compiler`.
    fn hash_in(&self, input: [&Self::Input; ARITY], compiler: &mut COM) -> (r: Self::Output)
        ensures
            r == self.spec_hash(input),
    ;

    /// Computes the hash over `input`.
    fn hash(&self, input: [&Self::Input; ARITY]) -> (r: Self::Output) where COM: Native
        ensures
            r == self.spec_hash(input),
    {
        let mut compiler = COM::compiler();
        self.hash_in(input, &mut compiler)
    }
}

/// Unary Hash Function
pub trait UnaryHashFunction<COM = ()> {
    /// Input Type
    type Input: ?Sized;

    /// Output Type
    type Output;

    /// The hash of `input`.
    spec fn spec_hash(&self, input: &Self::Input) -> Self::Output;

    /// Computes the hash over `input` in the given `compiler`.
    fn hash_in(&self, input: &Self::Input, compiler: &mut COM) -> (r: Self::Output)
        ensures
            r == self.spec_hash(input),
    ;

    /// Computes the hash over `input`.
    fn hash(&self, input: &Self::Input) -> (r: Self::Output) where COM: Native
        ensures
            r == self.spec_hash(input),
    {
        let mut compiler = COM::compiler();
        self.hash_in(input, &mut compiler)
    }
}

/// Binary Hash Function
pub trait BinaryHashFunction<COM = ()> {
    /// Left Input Type
    type Left: ?Sized;

    /// Right Input Type
    type Right: ?Sized;

    /// Output Type
    type Output;

    /// The hash of `lhs` and `rhs`.
    spec fn spec_hash(&self, lhs: &Self::Left, rhs: &Self::Right) -> Self::Output;

    /// Computes the hash over `lhs` and `rhs` in the given `compiler`.
    fn hash_in(&self, lhs: &Self::Left, rhs: &Self::Right, compiler: &mut COM) -> (r: Self::Output)
        ensures
            r == self.spec_hash(lhs, rhs),
    ;

    /// Computes the hash over `lhs` and `rhs`.
    fn hash(&self, lhs: &Self::Left, rhs: &Self::Right) -> (r: Self::Output) where COM: Native
        ensures
            r == self.spec_hash(lhs, rhs),
    {
        let mut compiler = COM::compiler();
        self.hash_in(lhs, rhs, &mut compiler)
    }
}

/// The initial state for `inputs`: the domain tag, then the inputs.
pub open spec fn initial_state(b: &PoseidonConstants, inputs: Seq<Fp>) -> Seq<Fp> {
    seq![b.domain_tag] + inputs
}

/// The hash of `inputs` by the naive schedule: the second element of the state.
pub open spec fn naive_hash(b: &PoseidonConstants, inputs: Seq<Fp>) -> Fp {
    naive_rounds(
        b.round_constants@,
        view2(b.mds_matrices.m),
        b.width as nat,
        b.full_rounds as nat,
        b.partial_rounds as nat,
        initial_state(b, inputs),
        (b.full_rounds + b.partial_rounds) as nat,
    )[1]
}

/// The hash of `inputs` by the optimized schedule: the second element of the state.
pub open spec fn optimized_hash(b: &PoseidonConstants, inputs: Seq<Fp>) -> Fp {
    opt_rounds(
        b.compressed_round_constants@,
        view2(b.mds_matrices.m),
        view2(b.pre_sparse_matrix),
        b.sparse_matrixes@,
        b.width as nat,
        b.full_rounds as nat,
        b.partial_rounds as nat,
        initial_state(b, inputs),
        (b.full_rounds + b.partial_rounds) as nat,
    )[1]
}

fn initial_state_exec(b: &PoseidonConstants, inputs: &Vec<Fp>) -> (r: Vec<Fp>)
    requires
        b.domain_tag.wf(),
        vec_wf(inputs@),
    ensures
        r@ == initial_state(b, inputs@),
        vec_wf(r@),
{
    let mut s: Vec<Fp> = Vec::new();
    s.push(b.domain_tag);
    let mut k: usize = 0;
    while k < inputs.len()
        invariant
            b.domain_tag.wf(),
            vec_wf(inputs@),
            k <= inputs@.len(),
            s@ == seq![b.domain_tag] + inputs@.subrange(0, k as int),
        decreases inputs@.len() - k,
    {
        s.push(inputs[k]);
        k = k + 1;
        assert(s@ =~= seq![b.domain_tag] + inputs@.subrange(0, k as int));
    }
    assert(inputs@.subrange(0, k as int) =~= inputs@);
    s
}

impl PoseidonConstants {
    /// Hashes `width - 1` inputs with the naive schedule: the raw round constants
    /// and the dense MDS matrix in every round.
    pub fn hash_naive(&self, inputs: &Vec<Fp>) -> (r: Fp)
        requires
            self.wf(),
            inputs@.len() + 1 == self.width,
            vec_wf(inputs@),
        ensures
            r == naive_hash(self, inputs@),
            r.wf(),
    {
        let s = initial_state_exec(self, inputs);
        proof {
            assert((s@.len() as int) * (self.full_rounds + self.partial_rounds) == self.width * (
            self.full_rounds + self.partial_rounds));
        }
        let out = permute_naive(
            &self.round_constants,
            &self.mds_matrices.m,
            self.full_rounds,
            self.partial_rounds,
            &s,
        );
        out[1]
    }

    /// Hashes `width - 1` inputs with the optimized schedule: compressed round
    /// constants, the pre-sparse matrix and the sparse matrices.
    pub fn hash_optimized(&self, inputs: &Vec<Fp>) -> (r: Fp)
        requires
            self.wf(),
            inputs@.len() + 1 == self.width,
            vec_wf(inputs@),
        ensures
            r == optimized_hash(self, inputs@),
            r.wf(),
    {
        let s = initial_state_exec(self, inputs);
        let out = permute_optimized(
            &self.compressed_round_constants,
            &self.mds_matrices.m,
            &self.pre_sparse_matrix,
            &self.sparse_matrixes,
            self.full_rounds,
            self.partial_rounds,
            &s,
        );
        out[1]
    }
}

/// The Poseidon hash of `ARITY` field elements, over parameters generated for the
/// width `ARITY + 1`.
pub struct PoseidonHasher<const ARITY: usize> {
    constants: PoseidonConstants,
}

impl<const ARITY: usize> PoseidonHasher<ARITY> {
    #[verifier::type_invariant]
    spec fn inv(self) -> bool {
        self.constants.wf() && self.constants.width == ARITY + 1
    }

    /// The parameters hashed with.
    pub closed spec fn params(self) -> PoseidonConstants {
        self.constants
    }

    /// Generates the parameters (with the security margin) and makes the hasher.
    pub fn new() -> (r: Result<Self, ParamError>)
        ensures
            r matches Ok(h) ==> h.params().generated_for((ARITY + 1) as nat, true),
            !valid_width(ARITY + 1) <==> r == Err::<Self, ParamError>(ParamError::InvalidWidth),
    {
        if ARITY >= MAX_WIDTH {
            return Err(ParamError::InvalidWidth);
        }
        match PoseidonConstants::generate(ARITY + 1, true) {
            Ok(constants) => Ok(PoseidonHasher { constants }),
            Err(e) => Err(e),
        }
    }

    /// The parameters hashed with.
    pub fn constants(&self) -> (r: &PoseidonConstants)
        ensures
            r == self.params(),
            r.wf(),
            r.width == ARITY + 1,
    {
        proof {
            use_type_invariant(self);
        }
        &self.constants
    }

    /// Hashes `ARITY` inputs with the optimized schedule.
    pub fn hash_inputs(&self, inputs: &Vec<Fp>) -> (r: Fp)
        requires
            inputs@.len() == ARITY,
            vec_wf(inputs@),
        ensures
            r == optimized_hash(&self.params(), inputs@),
    {
        proof {
            use_type_invariant(self);
        }
        self.constants.hash_optimized(inputs)
    }
}

/// Canonical copies of the inputs.
fn collect_inputs<const ARITY: usize>(input: [&Fp; ARITY]) -> (r: Vec<Fp>)
    ensures
        r@.len() == ARITY,
        vec_wf(r@),
        forall|i: int| 0 <= i < ARITY ==> #[trigger] r@[i] == crate::field::fe(input@[i].val as int),
{
    let mut v: Vec<Fp> = Vec::new();
    let mut k: usize = 0;
    while k < ARITY
        invariant
            k <= ARITY,
            v@.len() == k,
            vec_wf(v@),
            forall|i: int| 0 <= i < k ==> #[trigger] v@[i] == crate::field::fe(input@[i].val as int),
        decreases ARITY - k,
    {
        v.push(Fp::from_u64(input[k].val));
        k = k + 1;
    }
    v
}

impl<const ARITY: usize> HashFunction<(), ARITY> for PoseidonHasher<ARITY> {
    type Input = Fp;

    type Output = Fp;

    open spec fn spec_hash(&self, input: [&Fp; ARITY]) -> Fp {
        optimized_hash(&self.params(), Seq::new(ARITY as nat, |i: int| fe(input@[i].val as int)))
    }

    fn hash_in(&self, input: [&Fp; ARITY], _compiler: &mut ()) -> (r: Fp) {
        let v = collect_inputs(input);
        assert(v@ =~= Seq::new(ARITY as nat, |i: int| fe(input@[i].val as int)));
        self.hash_inputs(&v)
    }
}

impl UnaryHashFunction<()> for PoseidonHasher<1> {
    type Input = Fp;

    type Output = Fp;

    open spec fn spec_hash(&self, input: &Fp) -> Fp {
        optimized_hash(&self.params(), seq![fe(input.val as int)])
    }

    fn hash_in(&self, input: &Fp, _compiler: &mut ()) -> (r: Fp) {
        let v = collect_inputs([input]);
        assert(v@ =~= seq![fe(input.val as int)]);
        self.hash_inputs(&v)
    }
}

impl BinaryHashFunction<()> for PoseidonHasher<2> {
    type Left = Fp;

    type Right = Fp;

    type Output = Fp;

    open spec fn spec_hash(&self, lhs: &Fp, rhs: &Fp) -> Fp {
        optimized_hash(&self.params(), seq![fe(lhs.val as int), fe(rhs.val as int)])
    }

    fn hash_in(&self, lhs: &Fp, rhs: &Fp, _compiler: &mut ()) -> (r: Fp) {
        let v = collect_inputs([lhs, rhs]);
        assert(v@ =~= seq![fe(lhs.val as int), fe(rhs.val as int)]);
        self.hash_inputs(&v)
    }
}

} // verus!
