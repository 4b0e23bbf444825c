//! The permutation, in its naive and its optimized round schedule.

use vstd::prelude::*;
use crate::field::{fadd, fe, fmul, fpow, Fp};
use crate::matrix::{apply, dot, exec_dot, is_square, lemma_dot_wf, mat_vec, vec_add, vec_wf, view2};
use crate::mds::{sparse_dense, SparseMatrix};
use crate::preprocessing::round_block;

verus! {

/// The S-box `x^5`.
pub open spec fn sbox(x: Fp) -> Fp {
    fpow(x, 5)
}

/// The S-box on every element.
pub open spec fn full_sbox(v: Seq<Fp>) -> Seq<Fp> {
    Seq::new(v.len(), |i: int| sbox(v[i]))
}

/// Round `r` of the naive schedule: add the round's constants, apply the S-box to
/// every element (full rounds) or to the first (partial rounds), multiply by `m`.
pub open spec fn naive_round(c: Seq<Fp>, m: Seq<Seq<Fp>>, t: nat, rf: nat, rp: nat, x: Seq<Fp>, r: nat) -> Seq<Fp> {
    let h = rf / 2;
    let y = vec_add(x, round_block(c, t, r));
    let z = if r < h || r >= h + rp {
        full_sbox(y)
    } else {
        y.update(0, sbox(y[0]))
    };
    mat_vec(m, z)
}

/// The first `k` rounds of the naive schedule applied to `x`.
pub open spec fn naive_rounds(c: Seq<Fp>, m: Seq<Seq<Fp>>, t: nat, rf: nat, rp: nat, x: Seq<Fp>, k: nat) -> Seq<Fp>
    decreases k,
{
    if k == 0 {
        x
    } else {
        naive_round(c, m, t, rf, rp, naive_rounds(c, m, t, rf, rp, x, (k - 1) as nat), (k - 1) as nat)
    }
}

/// The sparse matrix `(row, col)` applied to `y`.
pub open spec fn sparse_apply(row: Seq<Fp>, col: Seq<Fp>, y: Seq<Fp>) -> Seq<Fp> {
    Seq::new(
        y.len(),
        |i: int|
            if i == 0 {
                dot(row, y, y.len())
            } else {
                fadd(fmul(col[i - 1], y[0]), y[i])
            },
    )
}

/// A full round of the optimized schedule: constants `cc[off .. off + t]`, S-boxes,
/// then `mat`.
pub open spec fn opt_full_round(cc: Seq<Fp>, mat: Seq<Seq<Fp>>, t: nat, off: int, x: Seq<Fp>) -> Seq<Fp> {
    mat_vec(mat, full_sbox(vec_add(x, cc.subrange(off, off + t))))
}

/// Round `k` of the optimized schedule: `rf / 2` full rounds, the last of them
/// ending with the pre-sparse matrix; `rp` partial rounds, each adding one constant
/// to the first element before its S-box and ending with its sparse matrix; then the
/// remaining full rounds.
pub open spec fn opt_round(
    cc: Seq<Fp>,
    m: Seq<Seq<Fp>>,
    pre: Seq<Seq<Fp>>,
    sp: Seq<SparseMatrix>,
    t: nat,
    rf: nat,
    rp: nat,
    x: Seq<Fp>,
    k: nat,
) -> Seq<Fp> {
    let h = rf / 2;
    if k < h {
        opt_full_round(cc, if k + 1 == h { pre } else { m }, t, (k * t) as int, x)
    } else if k < h + rp {
        let i = k - h;
        sparse_apply(sp[i].row@, sp[i].col@, x.update(0, sbox(fadd(x[0], cc[h * t + i]))))
    } else {
        opt_full_round(cc, m, t, h * t + rp + (k - h - rp) * t, x)
    }
}

/// The first `k` rounds of the optimized schedule applied to `x`.
pub open spec fn opt_rounds(
    cc: Seq<Fp>,
    m: Seq<Seq<Fp>>,
    pre: Seq<Seq<Fp>>,
    sp: Seq<SparseMatrix>,
    t: nat,
    rf: nat,
    rp: nat,
    x: Seq<Fp>,
    k: nat,
) -> Seq<Fp>
    decreases k,
{
    if k == 0 {
        x
    } else {
        opt_round(cc, m, pre, sp, t, rf, rp, opt_rounds(cc, m, pre, sp, t, rf, rp, x, (k - 1) as nat), (k - 1) as nat)
    }
}

proof fn lemma_dot_sparse_row(r: Seq<Fp>, y: Seq<Fp>, i: int, n: nat)
    requires
        1 <= i < y.len(),
        1 <= n <= y.len(),
        r.len() == y.len(),
        vec_wf(y),
        r[0].wf(),
        r[i] == fe(1),
        forall|j: int| 1 <= j < r.len() && j != i ==> #[trigger] r[j] == fe(0),
    ensures
        dot(r, y, n) == if n <= i {
            fmul(r[0], y[0])
        } else {
            fadd(fmul(r[0], y[0]), y[i])
        },
    decreases n,
{
    let t = fmul(r[n - 1], y[n - 1]);
    crate::field::lemma_fe_canonical(y[n - 1]);
    if n == 1 {
        crate::field::lemma_fe_canonical(fmul(r[0], y[0]));
        assert(dot(r, y, 0) == fe(0));
    } else {
        lemma_dot_sparse_row(r, y, i, (n - 1) as nat);
        let acc = dot(r, y, (n - 1) as nat);
        crate::field::lemma_fe_canonical(fmul(r[0], y[0]));
        if n - 1 != i {
            assert(t == fe(0));
            lemma_dot_wf(r, y, (n - 1) as nat);
            crate::field::lemma_fe_canonical(acc);
        } else {
            assert(t == y[i]);
        }
    }
}

/// The sparse step computes the product of the sparse matrix's dense form with `y`.
pub proof fn lemma_sparse_apply_is_dense(row: Seq<Fp>, col: Seq<Fp>, y: Seq<Fp>)
    requires
        y.len() >= 1,
        row.len() == y.len(),
        col.len() + 1 == y.len(),
        vec_wf(row),
        vec_wf(col),
        vec_wf(y),
    ensures
        sparse_apply(row, col, y) == mat_vec(sparse_dense(row, col), y),
{
    let d = sparse_dense(row, col);
    assert(d[0] =~= row);
    assert forall|i: int| 1 <= i < y.len() implies sparse_apply(row, col, y)[i] == dot(
        #[trigger] d[i],
        y,
        y.len(),
    ) by {
        lemma_dot_sparse_row(d[i], y, i, y.len());
    }
    assert(sparse_apply(row, col, y) =~= mat_vec(d, y));
}

fn exec_sbox(x: Fp) -> (r: Fp)
    requires
        x.wf(),
    ensures
        r == sbox(x),
        r.wf(),
{
    x.pow(5)
}

/// `x + cc[off .. off + x.len()]`, then the S-box on every element, or on the first
/// element only when `partial`.
fn add_and_sbox(x: &Vec<Fp>, cc: &Vec<Fp>, off: usize, partial: bool) -> (r: Vec<Fp>)
    requires
        vec_wf(x@),
        vec_wf(cc@),
        x@.len() >= 1,
        off + x@.len() <= cc@.len(),
    ensures
        vec_wf(r@),
        r@.len() == x@.len(),
        !partial ==> r@ == full_sbox(vec_add(x@, cc@.subrange(off as int, off + x@.len()))),
        partial ==> r@ == vec_add(x@, cc@.subrange(off as int, off + x@.len())).update(
            0,
            sbox(vec_add(x@, cc@.subrange(off as int, off + x@.len()))[0]),
        ),
{
    let ghost y = vec_add(x@, cc@.subrange(off as int, off + x@.len()));
    let clen = cc.len();
    let mut out: Vec<Fp> = Vec::new();
    let mut k: usize = 0;
    while k < x.len()
        invariant
            vec_wf(x@),
            vec_wf(cc@),
            x@.len() >= 1,
            off + x@.len() <= cc@.len(),
            clen == cc@.len(),
            y == vec_add(x@, cc@.subrange(off as int, off + x@.len())),
            k <= x@.len(),
            out@.len() == k,
            vec_wf(out@),
            forall|j: int|
                0 <= j < k ==> #[trigger] out@[j] == if !partial || j == 0 {
                    sbox(y[j])
                } else {
                    y[j]
                },
        decreases x@.len() - k,
    {
        let s = x[k].add(cc[off + k]);
        let e = if !partial || k == 0 {
            exec_sbox(s)
        } else {
            s
        };
        out.push(e);
        k = k + 1;
    }
    proof {
        if partial {
            assert(out@ =~= y.update(0, sbox(y[0])));
        } else {
            assert(out@ =~= full_sbox(y));
        }
    }
    out
}

/// One round of the naive schedule.
pub fn naive_round_exec(
    c: &Vec<Fp>,
    m: &Vec<Vec<Fp>>,
    rf: usize,
    rp: usize,
    x: &Vec<Fp>,
    r: usize,
) -> (out: Vec<Fp>)
    requires
        x@.len() >= 1,
        vec_wf(x@),
        vec_wf(c@),
        is_square(view2(*m), x@.len()),
        (r + 1) * x@.len() <= c@.len(),
    ensures
        out@ == naive_round(c@, view2(*m), x@.len(), rf as nat, rp as nat, x@, r as nat),
        vec_wf(out@),
        out@.len() == x@.len(),
{
    let t = x.len();
    let clen = c.len();
    proof {
        assert((r + 1) * t == r * t + t) by (nonlinear_arith);
    }
    let h = rf / 2;
    let partial = !(r < h || r - h >= rp);
    let y = add_and_sbox(x, c, r * t, partial);
    assert(c@.subrange((r * t) as int, r * t + t) == round_block(c@, t as nat, r as nat));
    let out = apply(m, &y);
    out
}

/// The naive schedule over the whole state `x` of length `t`: `rf + rp` rounds with
/// the raw round constants `c` and the dense matrix `m`.
pub fn permute_naive(c: &Vec<Fp>, m: &Vec<Vec<Fp>>, rf: usize, rp: usize, x: &Vec<Fp>) -> (out: Vec<Fp>)
    requires
        x@.len() >= 1,
        vec_wf(x@),
        vec_wf(c@),
        is_square(view2(*m), x@.len()),
        x@.len() * (rf + rp) <= c@.len(),
        rf + rp <= usize::MAX,
    ensures
        out@ == naive_rounds(c@, view2(*m), x@.len(), rf as nat, rp as nat, x@, (rf + rp) as nat),
        vec_wf(out@),
        out@.len() == x@.len(),
{
    let t = x.len();
    let total = rf + rp;
    let mut s = x.clone();
    assert(s@ == x@);
    let mut r: usize = 0;
    while r < total
        invariant
            t == x@.len(),
            t >= 1,
            total == rf + rp,
            vec_wf(c@),
            is_square(view2(*m), t as nat),
            t * (rf + rp) <= c@.len(),
            r <= total,
            s@.len() == t,
            vec_wf(s@),
            s@ == naive_rounds(c@, view2(*m), t as nat, rf as nat, rp as nat, x@, r as nat),
        decreases total - r,
    {
        proof {
            assert((r + 1) * t <= t * (rf + rp)) by (nonlinear_arith)
                requires
                    r < rf + rp,
            ;
        }
        s = naive_round_exec(c, m, rf, rp, &s, r);
        r = r + 1;
    }
    s
}

/// The sparse matrix `s` applied to `y`.
fn exec_sparse_apply(s: &SparseMatrix, y: &Vec<Fp>) -> (r: Vec<Fp>)
    requires
        s.wf(y@.len()),
        vec_wf(y@),
        y@.len() >= 1,
    ensures
        r@ == sparse_apply(s.row@, s.col@, y@),
        vec_wf(r@),
{
    let mut out: Vec<Fp> = Vec::new();
    out.push(exec_dot(&s.row, y));
    let mut i: usize = 1;
    while i < y.len()
        invariant
            s.wf(y@.len()),
            vec_wf(y@),
            1 <= i <= y@.len(),
            out@.len() == i,
            vec_wf(out@),
            forall|k: int| 0 <= k < i ==> #[trigger] out@[k] == sparse_apply(s.row@, s.col@, y@)[k],
        decreases y@.len() - i,
    {
        out.push(s.col[i - 1].mul(y[0]).add(y[i]));
        i = i + 1;
    }
    assert(out@ =~= sparse_apply(s.row@, s.col@, y@));
    out
}

/// The optimized schedule over the whole state `x` of length `t`, with the
/// compressed constants `cc`, the dense matrix `m`, the pre-sparse matrix `pre` and
/// one sparse matrix per partial round.
pub fn permute_optimized(
    cc: &Vec<Fp>,
    m: &Vec<Vec<Fp>>,
    pre: &Vec<Vec<Fp>>,
    sp: &Vec<SparseMatrix>,
    rf: usize,
    rp: usize,
    x: &Vec<Fp>,
) -> (out: Vec<Fp>)
    requires
        x@.len() >= 1,
        vec_wf(x@),
        vec_wf(cc@),
        is_square(view2(*m), x@.len()),
        is_square(view2(*pre), x@.len()),
        sp@.len() == rp,
        forall|i: int| 0 <= i < rp ==> (#[trigger] sp@[i]).wf(x@.len()),
        x@.len() * rf + rp == cc@.len(),
        rf % 2 == 0,
        rf + rp <= usize::MAX,
    ensures
        out@ == opt_rounds(cc@, view2(*m), view2(*pre), sp@, x@.len(), rf as nat, rp as nat, x@, (rf + rp) as nat),
        vec_wf(out@),
        out@.len() == x@.len(),
{
    let t = x.len();
    let h = rf / 2;
    let total = rf + rp;
    let ghost tn = t as nat;
    let clen = cc.len();
    let mut s = x.clone();
    assert(s@ == x@);
    let mut k: usize = 0;
    proof {
        assert(t * rf == 2 * (h * t)) by (nonlinear_arith)
            requires
                rf == 2 * h,
        ;
    }
    while k < total
        invariant
            t == x@.len(),
            tn == t,
            t >= 1,
            h == rf / 2,
            rf % 2 == 0,
            total == rf + rp,
            t * rf == 2 * (h * t),
            vec_wf(cc@),
            is_square(view2(*m), tn),
            is_square(view2(*pre), tn),
            sp@.len() == rp,
            forall|i: int| 0 <= i < rp ==> (#[trigger] sp@[i]).wf(tn),
            t * rf + rp == cc@.len(),
            clen == cc@.len(),
            k <= total,
            s@.len() == t,
            vec_wf(s@),
            s@ == opt_rounds(cc@, view2(*m), view2(*pre), sp@, tn, rf as nat, rp as nat, x@, k as nat),
        decreases total - k,
    {
        if k < h {
            proof {
                assert(k * t + t <= h * t) by (nonlinear_arith)
                    requires
                        k < h,
                ;
            }
            let y = add_and_sbox(&s, cc, k * t, false);
            s = if k + 1 == h {
                apply(pre, &y)
            } else {
                apply(m, &y)
            };
        } else if k < h + rp {
            let i = k - h;
            proof {
                assert(h * t + i < cc@.len());
            }
            let v = exec_sbox(s[0].add(cc[h * t + i]));
            let mut y = s.clone();
            assert(y@ == s@);
            y.set(0, v);
            s = exec_sparse_apply(&sp[i], &y);
        } else {
            let j = k - h - rp;
            proof {
                assert(j * t + t <= h * t) by (nonlinear_arith)
                    requires
                        j < h,
                ;
            }
            let y = add_and_sbox(&s, cc, h * t + rp + j * t, false);
            s = apply(m, &y);
        }
        k = k + 1;
    }
    s
}

} // verus!
