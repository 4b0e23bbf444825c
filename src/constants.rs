//! The parameter bundle of the optimized permutation, and its generation.

use vstd::prelude::*;
use crate::error::ParamError;
use crate::field::{fe, fpow, fsub, Fp, MODULUS_BITS};
use crate::matrix::{is_square, vec_wf, view2};
use crate::mds::{
    cauchy, denses, factor_to_sparse_matrixes, is_sparse_chain, mds_matrix, SparseMatrix,
};
use crate::preprocessing::{compress_round_constants, compressed};
use crate::round_constants::{generate_round_constants, is_generation, lfsr_seed, DRAW_FACTOR};
use crate::round_numbers::{calc_round_numbers, is_chosen_schedule, valid_width, MAX_SEARCH_FULL, MAX_SEARCH_PARTIAL};

verus! {

/// The MDS matrix of a width.
pub struct MdsMatrices {
    /// The dense MDS matrix.
    pub m: Vec<Vec<Fp>>,
}

/// The parameters of the permutation for one width. Generated once, then read only.
pub struct PoseidonConstants {
    /// The width of the state: the arity plus one.
    pub width: usize,
    /// The MDS matrix.
    pub mds_matrices: MdsMatrices,
    /// The raw round constants, `width` per round.
    pub round_constants: Vec<Fp>,
    /// The round constants of the optimized schedule.
    pub compressed_round_constants: Vec<Fp>,
    /// The dense matrix applied at the end of the last full round before the
    /// partial rounds.
    pub pre_sparse_matrix: Vec<Vec<Fp>>,
    /// One sparse matrix per partial round, in evaluation order.
    pub sparse_matrixes: Vec<SparseMatrix>,
    /// The domain tag, `2^arity - 1`, placed in the first element of the state.
    pub domain_tag: Fp,
    /// Number of full rounds; always even.
    pub full_rounds: usize,
    /// Half the number of full rounds.
    pub half_full_rounds: usize,
    /// Number of partial rounds.
    pub partial_rounds: usize,
}

/// The domain tag of a hash of `arity` inputs.
pub open spec fn domain_tag_of(arity: nat) -> Fp {
    fsub(fpow(fe(2), arity), fe(1))
}

/// Number of raw round constants a schedule needs.
pub open spec fn needed_constants(t: int, rf: int, rp: int) -> int {
    t * (rf + rp)
}

impl PoseidonConstants {
    /// The bundle is internally consistent: every piece has the shape that the
    /// round schedules read.
    pub open spec fn wf(&self) -> bool {
        let t = self.width as nat;
        &&& valid_width(self.width as int)
        &&& self.full_rounds % 2 == 0
        &&& self.full_rounds >= 2
        &&& self.half_full_rounds * 2 == self.full_rounds
        &&& self.full_rounds <= MAX_SEARCH_FULL + 2
        &&& self.partial_rounds <= MAX_SEARCH_PARTIAL + 15
        &&& is_square(view2(self.mds_matrices.m), t)
        &&& vec_wf(self.round_constants@)
        &&& self.round_constants@.len() >= needed_constants(t as int, self.full_rounds as int, self.partial_rounds as int)
        &&& vec_wf(self.compressed_round_constants@)
        &&& self.compressed_round_constants@.len() == t * self.full_rounds + self.partial_rounds
        &&& is_square(view2(self.pre_sparse_matrix), t)
        &&& self.sparse_matrixes@.len() == self.partial_rounds
        &&& forall|i: int| 0 <= i < self.partial_rounds ==> (#[trigger] self.sparse_matrixes@[i]).wf(t)
        &&& self.domain_tag.wf()
    }

    /// What `generate(width, security)` returns: the chosen schedule, the constants
    /// drawn for it (all that it needs), the Cauchy MDS matrix, the domain tag of
    /// arity `width - 1`, the compressed constants and a sparse factorization.
    pub open spec fn generated_for(&self, width: nat, security: bool) -> bool {
        let t = width;
        let rf = self.full_rounds as nat;
        let rp = self.partial_rounds as nat;
        let count = (t * (rf + rp)) as nat;
        &&& self.wf()
        &&& self.width == width
        &&& is_chosen_schedule(t as int, security, (rf as int, rp as int))
        &&& self.half_full_rounds == rf / 2
        &&& self.round_constants@.len() == count
        &&& exists|drawn: nat|
            #[trigger] is_generation(
                lfsr_seed(MODULUS_BITS as nat, t, rf, rp),
                MODULUS_BITS as nat,
                count,
                (count * DRAW_FACTOR) as nat,
                self.round_constants@,
                drawn,
            )
        &&& view2(self.mds_matrices.m) == cauchy(t)
        &&& self.domain_tag == domain_tag_of((t - 1) as nat)
        &&& self.compressed_round_constants@ == compressed(
            self.round_constants@,
            view2(self.mds_matrices.m),
            t,
            rf,
            rp,
        )
        &&& exists|blocks: Seq<Seq<Seq<Fp>>>|
            #[trigger] is_sparse_chain(
                view2(self.mds_matrices.m),
                view2(self.pre_sparse_matrix),
                denses(self.sparse_matrixes@),
                blocks,
            )
    }

    /// Generates the parameters for `width` (the arity plus one), with the round
    /// numbers' security margin when `security` is set.
    pub fn generate(width: usize, security: bool) -> (r: Result<PoseidonConstants, ParamError>)
        ensures
            !valid_width(width as int) <==> r == Err::<PoseidonConstants, ParamError>(
                ParamError::InvalidWidth,
            ),
            r matches Ok(b) ==> b.generated_for(width as nat, security),
            r == Err::<PoseidonConstants, ParamError>(ParamError::NotEnoughRoundConstants) ==> {
                &&& valid_width(width as int)
                &&& exists|rf: nat, rp: nat, c: Seq<Fp>, drawn: nat|
                    {
                        &&& is_chosen_schedule(width as int, security, (rf as int, rp as int))
                        &&& c.len() < width * (rf + rp)
                        &&& #[trigger] is_generation(
                            lfsr_seed(MODULUS_BITS as nat, width as nat, rf, rp),
                            MODULUS_BITS as nat,
                            (width as nat) * (rf + rp),
                            (width as nat) * (rf + rp) * (DRAW_FACTOR as nat),
                            c,
                            drawn,
                        )
                    }
            },
            r == Err::<PoseidonConstants, ParamError>(ParamError::SingularMatrix) ==> valid_width(
                width as int,
            ),
    {
        let (rf, rp) = match calc_round_numbers(width, security) {
            Ok(p) => p,
            Err(e) => { return Err(e); },
        };
        let t = width;
        proof {
            assert(t * (rf + rp) <= 64 * (1002 + 215)) by (nonlinear_arith)
                requires
                    t <= 64,
                    rf <= 1002,
                    rp <= 215,
            ;
        }
        let half = rf / 2;
        let count = t * (rf + rp);
        let (round_constants, drawn) = generate_round_constants(MODULUS_BITS, t, rf, rp);
        if round_constants.len() < count {
            let ghost rfn = rf as nat;
            let ghost rpn = rp as nat;
            assert(is_generation(
                lfsr_seed(MODULUS_BITS as nat, width as nat, rfn, rpn),
                MODULUS_BITS as nat,
                (width as nat) * (rfn + rpn),
                (width as nat) * (rfn + rpn) * (DRAW_FACTOR as nat),
                round_constants@,
                drawn as nat,
            ));
            return Err(ParamError::NotEnoughRoundConstants);
        }
        let arity = t - 1;
        let domain_tag = Fp::from_u64(2).pow(arity as u64).sub(Fp::one());
        let m = mds_matrix(t);
        let compressed_round_constants = compress_round_constants(t, rf, rp, &round_constants, &m);
        let (pre_sparse_matrix, sparse_matrixes) = match factor_to_sparse_matrixes(&m, t, rp) {
            Some(p) => p,
            None => { return Err(ParamError::SingularMatrix); },
        };
        proof {
            crate::field::lemma_fpow_wf(fe(2), arity as nat);
        }
        let b = PoseidonConstants {
            width: t,
            mds_matrices: MdsMatrices { m },
            round_constants,
            compressed_round_constants,
            pre_sparse_matrix,
            sparse_matrixes,
            domain_tag,
            full_rounds: rf,
            half_full_rounds: half,
            partial_rounds: rp,
        };
        proof {
            assert(b.wf());
            let blocks = choose|blocks: Seq<Seq<Seq<Fp>>>|
                #[trigger] is_sparse_chain(
                    view2(b.mds_matrices.m),
                    view2(b.pre_sparse_matrix),
                    denses(b.sparse_matrixes@),
                    blocks,
                );
            assert(is_sparse_chain(
                view2(b.mds_matrices.m),
                view2(b.pre_sparse_matrix),
                denses(b.sparse_matrixes@),
                blocks,
            ));
            assert(b.generated_for(width as nat, security));
        }
        Ok(b)
    }

    /// Generates the parameters for the width `WIDTH`, with the security margin.
    pub fn default<const WIDTH: usize>() -> (r: Result<PoseidonConstants, ParamError>)
        ensures
            !valid_width(WIDTH as int) <==> r == Err::<PoseidonConstants, ParamError>(
                ParamError::InvalidWidth,
            ),
            r matches Ok(b) ==> b.generated_for(WIDTH as nat, true),
    {
        PoseidonConstants::generate(WIDTH, true)
    }
}

/// A generated bundle has an even number of full rounds, and half of them on each
/// side of the partial rounds.
pub proof fn lemma_bundle_full_rounds_even(b: PoseidonConstants, width: nat, security: bool)
    requires
        b.generated_for(width, security),
    ensures
        b.full_rounds % 2 == 0,
        b.half_full_rounds * 2 == b.full_rounds,
{
}

/// A generated bundle holds at least `width * (full_rounds + partial_rounds)` round
/// constants.
pub proof fn lemma_bundle_has_enough_constants(b: PoseidonConstants, width: nat, security: bool)
    requires
        b.generated_for(width, security),
    ensures
        b.round_constants@.len() >= width * (b.full_rounds + b.partial_rounds),
{
}

/// Two generations for the same width and security flag agree on the round numbers,
/// the raw and the compressed round constants, the MDS matrix, the pre-sparse matrix
/// and the domain tag.
pub proof fn lemma_generation_deterministic(
    b1: PoseidonConstants,
    b2: PoseidonConstants,
    width: nat,
    security: bool,
)
    requires
        b1.generated_for(width, security),
        b2.generated_for(width, security),
    ensures
        b1.width == b2.width,
        b1.full_rounds == b2.full_rounds,
        b1.half_full_rounds == b2.half_full_rounds,
        b1.partial_rounds == b2.partial_rounds,
        b1.round_constants@ == b2.round_constants@,
        b1.compressed_round_constants@ == b2.compressed_round_constants@,
        view2(b1.mds_matrices.m) == view2(b2.mds_matrices.m),
        view2(b1.pre_sparse_matrix) == view2(b2.pre_sparse_matrix),
        b1.domain_tag == b2.domain_tag,
{
    crate::round_numbers::lemma_schedule_unique(
        width as int,
        security,
        (b1.full_rounds as int, b1.partial_rounds as int),
        (b2.full_rounds as int, b2.partial_rounds as int),
    );
    let rf = b1.full_rounds as nat;
    let rp = b1.partial_rounds as nat;
    let count = (width * (rf + rp)) as nat;
    let seed = lfsr_seed(MODULUS_BITS as nat, width, rf, rp);
    let d1 = choose|d: nat|
        #[trigger] is_generation(seed, MODULUS_BITS as nat, count, (count * DRAW_FACTOR) as nat, b1.round_constants@, d);
    let d2 = choose|d: nat|
        #[trigger] is_generation(seed, MODULUS_BITS as nat, count, (count * DRAW_FACTOR) as nat, b2.round_constants@, d);
    crate::round_constants::lemma_generation_unique(
        seed,
        MODULUS_BITS as nat,
        count,
        (count * DRAW_FACTOR) as nat,
        b1.round_constants@,
        d1,
        b2.round_constants@,
        d2,
    );
    let m = view2(b1.mds_matrices.m);
    let bl1 = choose|blocks: Seq<Seq<Seq<Fp>>>|
        #[trigger] is_sparse_chain(m, view2(b1.pre_sparse_matrix), denses(b1.sparse_matrixes@), blocks);
    let bl2 = choose|blocks: Seq<Seq<Seq<Fp>>>|
        #[trigger] is_sparse_chain(m, view2(b2.pre_sparse_matrix), denses(b2.sparse_matrixes@), blocks);
    crate::mds::lemma_chain_pre_unique(
        m,
        view2(b1.pre_sparse_matrix),
        denses(b1.sparse_matrixes@),
        bl1,
        view2(b2.pre_sparse_matrix),
        denses(b2.sparse_matrixes@),
        bl2,
    );
}

} // verus!
