//! Compression of the round constants of the partial rounds.
//!
//! In a partial round the S-box touches the first element only, so the part of the
//! round's constant vector outside the first element can be moved through the
//! round's linear layer and added to the next round's constants instead. Carried
//! from the first partial round to the first full round after them, this leaves one
//! scalar constant per partial round and one carried vector for that full round.

use vstd::prelude::*;
use crate::field::{fe, Fp};
use crate::matrix::{apply, is_square, mat_vec, vec_add, vec_wf, view2};

verus! {

/// The constants of round `r`.
pub open spec fn round_block(c: Seq<Fp>, t: nat, r: nat) -> Seq<Fp> {
    c.subrange((r * t) as int, ((r + 1) * t) as int)
}

/// `v` with its first element set to zero.
pub open spec fn zero_first(v: Seq<Fp>) -> Seq<Fp> {
    v.update(0, fe(0))
}

/// The constant vector in force at partial round `i` (`i == rp`: the first full
/// round after the partial rounds), with `h` full rounds before the partial rounds.
pub open spec fn carried(c: Seq<Fp>, m: Seq<Seq<Fp>>, t: nat, h: nat, i: nat) -> Seq<Fp>
    decreases i,
{
    if i == 0 {
        round_block(c, t, h)
    } else {
        vec_add(round_block(c, t, h + i), mat_vec(m, zero_first(carried(c, m, t, h, (i - 1) as nat))))
    }
}

/// The compressed constants: those of the first `rf / 2` full rounds, one scalar per
/// partial round, the carried vector, and those of the remaining full rounds.
pub open spec fn compressed(c: Seq<Fp>, m: Seq<Seq<Fp>>, t: nat, rf: nat, rp: nat) -> Seq<Fp> {
    let h = rf / 2;
    c.subrange(0, (h * t) as int) + Seq::new(rp, |i: int| carried(c, m, t, h, i as nat)[0])
        + carried(c, m, t, h, rp) + c.subrange(((h + rp + 1) * t) as int, ((rf + rp) * t) as int)
}

proof fn lemma_carried_wf(c: Seq<Fp>, m: Seq<Seq<Fp>>, t: nat, h: nat, i: nat, rp: nat)
    requires
        t >= 1,
        vec_wf(c),
        is_square(m, t),
        i <= rp,
        (h + rp + 1) * t <= c.len(),
    ensures
        carried(c, m, t, h, i).len() == t,
        vec_wf(carried(c, m, t, h, i)),
    decreases i,
{
    assert((h + i + 1) * t <= (h + rp + 1) * t) by (nonlinear_arith)
        requires
            i <= rp,
    ;
    assert((h + i) * t <= (h + i + 1) * t) by (nonlinear_arith);
    assert((h + i + 1) * t == (h + i) * t + t) by (nonlinear_arith);
    if i > 0 {
        lemma_carried_wf(c, m, t, h, (i - 1) as nat, rp);
        let z = zero_first(carried(c, m, t, h, (i - 1) as nat));
        crate::field::lemma_fe_wf(0);
        assert forall|k: int| 0 <= k < z.len() implies (#[trigger] z[k]).wf() by {
            if k != 0 {
                assert(z[k] == carried(c, m, t, h, (i - 1) as nat)[k]);
            }
        }
        assert forall|k: int| 0 <= k < t implies (#[trigger] mat_vec(m, z)[k]).wf() by {
            crate::matrix::lemma_dot_wf(m[k], z, z.len());
        }
    }
}

/// `c[start .. start + len]`, appended to `out`.
fn extend_from(out: &mut Vec<Fp>, c: &Vec<Fp>, start: usize, len: usize)
    requires
        start + len <= c@.len(),
    ensures
        final(out)@ == old(out)@ + c@.subrange(start as int, (start + len) as int),
{
    let n = c.len();
    let mut k: usize = 0;
    while k < len
        invariant
            start + len <= c@.len(),
            n == c@.len(),
            k <= len,
            out@ == old(out)@ + c@.subrange(start as int, (start + k) as int),
        decreases len - k,
    {
        out.push(c[start + k]);
        k = k + 1;
        assert(out@ =~= old(out)@ + c@.subrange(start as int, (start + k) as int));
    }
}

/// Compresses the round constants of a schedule of `full_rounds` full and
/// `partial_rounds` partial rounds over the linear layer `m`.
pub fn compress_round_constants(
    width: usize,
    full_rounds: usize,
    partial_rounds: usize,
    round_constants: &Vec<Fp>,
    m: &Vec<Vec<Fp>>,
) -> (r: Vec<Fp>)
    requires
        width >= 1,
        full_rounds >= 2,
        full_rounds % 2 == 0,
        width * (full_rounds + partial_rounds) <= round_constants@.len(),
        vec_wf(round_constants@),
        is_square(view2(*m), width as nat),
    ensures
        r@ == compressed(
            round_constants@,
            view2(*m),
            width as nat,
            full_rounds as nat,
            partial_rounds as nat,
        ),
        vec_wf(r@),
        r@.len() == width * full_rounds + partial_rounds,
{
    let clen = round_constants.len();
    let ghost c = round_constants@;
    let ghost mv = view2(*m);
    let t = width;
    let h = full_rounds / 2;
    let ghost tn = t as nat;
    proof {
        assert(t * (full_rounds + partial_rounds) == t * full_rounds + t * partial_rounds)
            by (nonlinear_arith);
        assert(t * full_rounds == 2 * (h * t)) by (nonlinear_arith)
            requires
                full_rounds == 2 * h,
        ;
        assert((h + partial_rounds + 1) * t == h * t + partial_rounds * t + t) by (nonlinear_arith);
        assert((full_rounds + partial_rounds) * t == t * (full_rounds + partial_rounds))
            by (nonlinear_arith);
        assert(h * t + t <= 2 * (h * t)) by (nonlinear_arith)
            requires
                h >= 1,
        ;
        assert(partial_rounds * t == t * partial_rounds) by (nonlinear_arith);
        assert((h + partial_rounds) * t == h * t + partial_rounds * t) by (nonlinear_arith);
        assert((h + 1) * t == h * t + t) by (nonlinear_arith);
        assert(full_rounds + partial_rounds <= t * (full_rounds + partial_rounds)) by (nonlinear_arith)
            requires
                t >= 1,
        ;
    }
    let total = t * (full_rounds + partial_rounds);
    let mut out: Vec<Fp> = Vec::new();
    extend_from(&mut out, round_constants, 0, h * t);
    let mut cur: Vec<Fp> = Vec::new();
    extend_from(&mut cur, round_constants, h * t, t);
    proof {
        assert(cur@ =~= carried(c, mv, tn, h as nat, 0));
        lemma_carried_wf(c, mv, tn, h as nat, 0, partial_rounds as nat);
    }
    let mut i: usize = 0;
    let mut start: usize = h * t + t;
    while i < partial_rounds
        invariant
            t >= 1,
            clen == c.len(),
            h * t <= c.len(),
            start == (h + i + 1) * t,
            vec_wf(c),
            is_square(mv, tn),
            tn == t,
            c == round_constants@,
            mv == view2(*m),
            (h + partial_rounds + 1) * t <= c.len(),
            (h + partial_rounds) * t == h * t + partial_rounds * t,
            i <= partial_rounds,
            cur@ == carried(c, mv, tn, h as nat, i as nat),
            out@ == c.subrange(0, (h * t) as int) + Seq::new(
                i as nat,
                |k: int| carried(c, mv, tn, h as nat, k as nat)[0],
            ),
        decreases partial_rounds - i,
    {
        proof {
            lemma_carried_wf(c, mv, tn, h as nat, i as nat, partial_rounds as nat);
        }
        out.push(cur[0]);
        let mut z = cur;
        z.set(0, Fp::zero());
        let mz = apply(m, &z);
        proof {
            assert((h + i + 1) * t == (h + i) * t + t) by (nonlinear_arith);
            assert((h + i + 2) * t <= (h + partial_rounds + 1) * t) by (nonlinear_arith)
                requires
                    i < partial_rounds,
            ;
            assert((h + i + 2) * t == (h + i + 1) * t + t) by (nonlinear_arith);
        }
        let mut next: Vec<Fp> = Vec::new();
        let mut k: usize = 0;
        while k < t
            invariant
                clen == c.len(),
                start + t <= c.len(),
                c == round_constants@,
                mz@.len() == t,
                k <= t,
                next@.len() == k,
                forall|j: int| 0 <= j < k ==> #[trigger] next@[j] == crate::field::fadd(
                    c[start + j],
                    mz@[j],
                ),
                vec_wf(c),
                vec_wf(mz@),
            decreases t - k,
        {
            next.push(round_constants[start + k].add(mz[k]));
            k = k + 1;
        }
        proof {
            assert(z@ =~= zero_first(carried(c, mv, tn, h as nat, i as nat)));
            assert(start == (h + i + 1) * t);
            assert(next@ =~= carried(c, mv, tn, h as nat, (i + 1) as nat));
            assert(out@ =~= c.subrange(0, (h * t) as int) + Seq::new(
                (i + 1) as nat,
                |k: int| carried(c, mv, tn, h as nat, k as nat)[0],
            ));
        }
        cur = next;
        proof {
            assert((h + i + 2) * t == (h + i + 1) * t + t) by (nonlinear_arith);
        }
        start = start + t;
        i = i + 1;
    }
    let mut k: usize = 0;
    let ghost before = out@;
    while k < t
        invariant
            cur@.len() == t,
            k <= t,
            out@ == before + cur@.subrange(0, k as int),
        decreases t - k,
    {
        out.push(cur[k]);
        k = k + 1;
        assert(out@ =~= before + cur@.subrange(0, k as int));
    }
    let tail_start = start;
    let tail_len = total - tail_start;
    extend_from(&mut out, round_constants, tail_start, tail_len);
    proof {
        lemma_carried_wf(c, mv, tn, h as nat, partial_rounds as nat, partial_rounds as nat);
        assert(cur@.subrange(0, t as int) =~= cur@);
        assert(out@ =~= compressed(c, mv, tn, full_rounds as nat, partial_rounds as nat));
        assert forall|j: int| 0 <= j < out@.len() implies (#[trigger] out@[j]).wf() by {
            let p1 = (h * t) as int;
            let p2 = p1 + partial_rounds;
            let p3 = p2 + t;
            if j < p1 {
            } else if j < p2 {
                lemma_carried_wf(c, mv, tn, h as nat, (j - p1) as nat, partial_rounds as nat);
            } else if j < p3 {
            } else {
            }
        }
    }
    out
}

} // verus!
