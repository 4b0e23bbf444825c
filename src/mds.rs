//! The MDS matrix and its factorization into sparse matrices.

use vstd::prelude::*;
use crate::field::{fe, finv, lemma_fpow_wf, Fp};
use crate::matrix::{apply, is_square, mat_mul, mat_vec, matmul, minor00, transpose, vec_wf, view2};
use crate::round_numbers::MAX_WIDTH;

verus! {

/// The Cauchy matrix `1 / (x_i + y_j)` with `x_i = i` and `y_j = t + j`.
pub open spec fn cauchy(t: nat) -> Seq<Seq<Fp>> {
    Seq::new(t, |i: int| Seq::new(t, |j: int| finv(fe(t + i + j))))
}

/// Builds the `width` by `width` Cauchy MDS matrix.
pub fn mds_matrix(width: usize) -> (r: Vec<Vec<Fp>>)
    requires
        width <= MAX_WIDTH,
    ensures
        view2(r) == cauchy(width as nat),
        is_square(view2(r), width as nat),
{
    let mut m: Vec<Vec<Fp>> = Vec::new();
    let mut i: usize = 0;
    while i < width
        invariant
            width <= MAX_WIDTH,
            i <= width,
            m@.len() == i,
            forall|k: int| 0 <= k < i ==> #[trigger] m@[k]@ == cauchy(width as nat)[k],
        decreases width - i,
    {
        let mut row: Vec<Fp> = Vec::new();
        let mut j: usize = 0;
        while j < width
            invariant
                width <= MAX_WIDTH,
                i < width,
                j <= width,
                row@.len() == j,
                forall|k: int|
                    0 <= k < j ==> #[trigger] row@[k] == finv(fe(width + i + k)),
            decreases width - j,
        {
            let e = Fp::from_u64((width + i + j) as u64).inverse();
            row.push(e);
            j = j + 1;
        }
        assert(row@ =~= cauchy(width as nat)[i as int]);
        m.push(row);
        i = i + 1;
    }
    assert(view2(m) =~= cauchy(width as nat));
    proof {
        assert forall|k: int| 0 <= k < width implies (#[trigger] view2(m)[k]).len() == width
            && vec_wf(view2(m)[k]) by {
            assert forall|j: int| 0 <= j < width implies (#[trigger] view2(m)[k][j]).wf() by {
                lemma_fpow_wf(fe(width + k + j), (crate::field::MODULUS - 2) as nat);
            }
        }
    }
    m
}

/// Every row of `m` has `w` canonical entries.
pub open spec fn rows_wf(m: Seq<Vec<Fp>>, h: nat, w: nat) -> bool {
    &&& m.len() == h
    &&& forall|i: int| 0 <= i < h ==> (#[trigger] m[i])@.len() == w && vec_wf(m[i]@)
}

fn scale_row(row: &Vec<Fp>, s: Fp) -> (r: Vec<Fp>)
    requires
        vec_wf(row@),
        s.wf(),
    ensures
        r@.len() == row@.len(),
        vec_wf(r@),
{
    let mut out: Vec<Fp> = Vec::new();
    let mut k: usize = 0;
    while k < row.len()
        invariant
            vec_wf(row@),
            s.wf(),
            k <= row@.len(),
            out@.len() == k,
            vec_wf(out@),
        decreases row@.len() - k,
    {
        out.push(row[k].mul(s));
        k = k + 1;
    }
    out
}

/// `row - f * pivot`.
fn eliminate_row(row: &Vec<Fp>, f: Fp, pivot: &Vec<Fp>) -> (r: Vec<Fp>)
    requires
        vec_wf(row@),
        vec_wf(pivot@),
        row@.len() == pivot@.len(),
        f.wf(),
    ensures
        r@.len() == row@.len(),
        vec_wf(r@),
{
    let mut out: Vec<Fp> = Vec::new();
    let mut k: usize = 0;
    while k < row.len()
        invariant
            vec_wf(row@),
            vec_wf(pivot@),
            row@.len() == pivot@.len(),
            f.wf(),
            k <= row@.len(),
            out@.len() == k,
            vec_wf(out@),
        decreases row@.len() - k,
    {
        out.push(row[k].sub(f.mul(pivot[k])));
        k = k + 1;
    }
    out
}

/// Solves `a x = b` by Gauss-Jordan elimination. The solution found is checked
/// against the system before it is returned; `None` means that `a` is singular.
pub fn solve(a: &Vec<Vec<Fp>>, b: &Vec<Fp>) -> (r: Option<Vec<Fp>>)
    requires
        is_square(view2(*a), b@.len()),
        vec_wf(b@),
    ensures
        r matches Some(x) ==> x@.len() == b@.len() && vec_wf(x@) && mat_vec(view2(*a), x@)
            == b@,
{
    let n = b.len();
    let mut aug: Vec<Vec<Fp>> = Vec::new();
    let mut i: usize = 0;
    while i < n
        invariant
            n == b@.len(),
            is_square(view2(*a), n as nat),
            vec_wf(b@),
            i <= n,
            rows_wf(aug@, i as nat, (n + 1) as nat),
        decreases n - i,
    {
        assert(view2(*a)[i as int] == a@[i as int]@);
        let mut row = a[i].clone();
        assert(row@ == a@[i as int]@);
        row.push(b[i]);
        aug.push(row);
        i = i + 1;
    }
    let mut col: usize = 0;
    while col < n
        invariant
            n == b@.len(),
            col <= n,
            rows_wf(aug@, n as nat, (n + 1) as nat),
        decreases n - col,
    {
        let mut p: usize = col;
        while p < n && aug[p][col].val == 0
            invariant
                col <= p <= n,
                col < n,
                rows_wf(aug@, n as nat, (n + 1) as nat),
            decreases n - p,
        {
            p = p + 1;
        }
        if p == n {
            return None;
        }
        let row_p = aug[p].clone();
        let row_c = aug[col].clone();
        aug.set(col, row_p);
        aug.set(p, row_c);
        let inv = aug[col][col].inverse();
        let pivot = scale_row(&aug[col], inv);
        aug.set(col, pivot);
        let pivot = aug[col].clone();
        let mut r: usize = 0;
        while r < n
            invariant
                col < n,
                r <= n,
                rows_wf(aug@, n as nat, (n + 1) as nat),
                pivot@.len() == n + 1,
                vec_wf(pivot@),
            decreases n - r,
        {
            if r != col {
                let f = aug[r][col];
                let new_row = eliminate_row(&aug[r], f, &pivot);
                aug.set(r, new_row);
            }
            r = r + 1;
        }
        col = col + 1;
    }
    let mut x: Vec<Fp> = Vec::new();
    let mut k: usize = 0;
    while k < n
        invariant
            k <= n,
            rows_wf(aug@, n as nat, (n + 1) as nat),
            x@.len() == k,
            vec_wf(x@),
        decreases n - k,
    {
        x.push(aug[k][n]);
        k = k + 1;
    }
    let ax = apply(a, &x);
    let mut k: usize = 0;
    while k < n
        invariant
            k <= n,
            ax@.len() == n,
            n == b@.len(),
            forall|j: int| 0 <= j < k ==> ax@[j] == b@[j],
        decreases n - k,
    {
        if ax[k] != b[k] {
            return None;
        }
        k = k + 1;
    }
    assert(ax@ =~= b@);
    Some(x)
}

/// A matrix that differs from the identity in its first row and first column only:
/// `row` is its first row, `col` the rest of its first column.
pub struct SparseMatrix {
    pub row: Vec<Fp>,
    pub col: Vec<Fp>,
}

impl SparseMatrix {
    pub open spec fn wf(&self, t: nat) -> bool {
        self.row@.len() == t && self.col@.len() + 1 == t && vec_wf(self.row@) && vec_wf(self.col@)
    }

    /// The dense form of this matrix.
    pub open spec fn dense(&self) -> Seq<Seq<Fp>> {
        sparse_dense(self.row@, self.col@)
    }
}

pub open spec fn sparse_dense(row: Seq<Fp>, col: Seq<Fp>) -> Seq<Seq<Fp>> {
    Seq::new(
        row.len(),
        |i: int|
            Seq::new(
                row.len(),
                |j: int|
                    if i == 0 {
                        row[j]
                    } else if j == 0 {
                        col[i - 1]
                    } else if i == j {
                        fe(1)
                    } else {
                        fe(0)
                    },
            ),
    )
}

/// The matrix with 1 in its top-left corner, `h` below and right of it, and zeros
/// elsewhere.
pub open spec fn block_diag(h: Seq<Seq<Fp>>) -> Seq<Seq<Fp>> {
    Seq::new(
        h.len() + 1,
        |i: int|
            Seq::new(
                h.len() + 1,
                |j: int|
                    if i == 0 && j == 0 {
                        fe(1)
                    } else if i == 0 || j == 0 {
                        fe(0)
                    } else {
                        h[i - 1][j - 1]
                    },
            ),
    )
}

/// `view2(a) == view2(b)`.
pub fn mat_eq(a: &Vec<Vec<Fp>>, b: &Vec<Vec<Fp>>, n: usize) -> (r: bool)
    requires
        is_square(view2(*a), n as nat),
        is_square(view2(*b), n as nat),
    ensures
        r == (view2(*a) == view2(*b)),
{
    let mut i: usize = 0;
    while i < n
        invariant
            is_square(view2(*a), n as nat),
            is_square(view2(*b), n as nat),
            i <= n,
            forall|k: int| 0 <= k < i ==> view2(*a)[k] == view2(*b)[k],
        decreases n - i,
    {
        assert(view2(*a)[i as int] == a@[i as int]@);
        assert(view2(*b)[i as int] == b@[i as int]@);
        let mut j: usize = 0;
        while j < n
            invariant
                is_square(view2(*a), n as nat),
                is_square(view2(*b), n as nat),
                i < n,
                j <= n,
                view2(*a)[i as int] == a@[i as int]@,
                view2(*b)[i as int] == b@[i as int]@,
                forall|k: int| 0 <= k < j ==> a@[i as int]@[k] == b@[i as int]@[k],
            decreases n - j,
        {
            if a[i][j] != b[i][j] {
                return false;
            }
            j = j + 1;
        }
        assert(view2(*a)[i as int] =~= view2(*b)[i as int]);
        i = i + 1;
    }
    assert(view2(*a) =~= view2(*b));
    true
}

/// The dense form of a sparse matrix of size `t`.
fn sparse_to_dense(s: &SparseMatrix, t: usize) -> (r: Vec<Vec<Fp>>)
    requires
        s.wf(t as nat),
    ensures
        view2(r) == s.dense(),
        is_square(view2(r), t as nat),
{
    let mut m: Vec<Vec<Fp>> = Vec::new();
    let mut i: usize = 0;
    while i < t
        invariant
            s.wf(t as nat),
            i <= t,
            m@.len() == i,
            forall|k: int| 0 <= k < i ==> #[trigger] m@[k]@ == s.dense()[k],
        decreases t - i,
    {
        let mut row: Vec<Fp> = Vec::new();
        let mut j: usize = 0;
        while j < t
            invariant
                s.wf(t as nat),
                i < t,
                j <= t,
                row@.len() == j,
                forall|k: int| 0 <= k < j ==> #[trigger] row@[k] == s.dense()[i as int][k],
            decreases t - j,
        {
            let e = if i == 0 {
                s.row[j]
            } else if j == 0 {
                s.col[i - 1]
            } else if i == j {
                Fp::one()
            } else {
                Fp::zero()
            };
            row.push(e);
            j = j + 1;
        }
        assert(row@ =~= s.dense()[i as int]);
        m.push(row);
        i = i + 1;
    }
    assert(view2(m) =~= s.dense());
    m
}

/// `block_diag(h)` for an `n` by `n` matrix `h`.
fn block_of(h: &Vec<Vec<Fp>>, n: usize) -> (r: Vec<Vec<Fp>>)
    requires
        is_square(view2(*h), n as nat),
        n < usize::MAX,
    ensures
        view2(r) == block_diag(view2(*h)),
        is_square(view2(r), (n + 1) as nat),
{
    let mut m: Vec<Vec<Fp>> = Vec::new();
    let mut i: usize = 0;
    while i <= n
        invariant
            is_square(view2(*h), n as nat),
            n < usize::MAX,
            i <= n + 1,
            m@.len() == i,
            forall|k: int| 0 <= k < i ==> #[trigger] m@[k]@ == block_diag(view2(*h))[k],
        decreases n + 1 - i,
    {
        let mut row: Vec<Fp> = Vec::new();
        let mut j: usize = 0;
        while j <= n
            invariant
                is_square(view2(*h), n as nat),
                n < usize::MAX,
                i <= n,
                j <= n + 1,
                row@.len() == j,
                forall|k: int| 0 <= k < j ==> #[trigger] row@[k] == block_diag(view2(*h))[i as int][k],
            decreases n + 1 - j,
        {
            let e = if i == 0 && j == 0 {
                Fp::one()
            } else if i == 0 || j == 0 {
                Fp::zero()
            } else {
                assert(view2(*h)[i - 1] == h@[i - 1]@);
                h[i - 1][j - 1]
            };
            row.push(e);
            j = j + 1;
        }
        assert(row@ =~= block_diag(view2(*h))[i as int]);
        m.push(row);
        i = i + 1;
    }
    assert(view2(m) =~= block_diag(view2(*h)));
    proof {
        assert forall|k: int| 0 <= k < n + 1 implies (#[trigger] view2(m)[k]).len() == n + 1
            && vec_wf(view2(m)[k]) by {
            assert forall|j: int| 0 <= j < n + 1 implies (#[trigger] view2(m)[k][j]).wf() by {
                if k > 0 && j > 0 {
                    assert(view2(*h)[k - 1].len() == n && vec_wf(view2(*h)[k - 1]));
                }
            }
        }
    }
    m
}

/// `minor00(m)` for a `t` by `t` matrix, `t >= 1`.
fn exec_minor00(m: &Vec<Vec<Fp>>, t: usize) -> (r: Vec<Vec<Fp>>)
    requires
        is_square(view2(*m), t as nat),
        t >= 1,
    ensures
        view2(r) == minor00(view2(*m)),
        is_square(view2(r), (t - 1) as nat),
{
    let mut out: Vec<Vec<Fp>> = Vec::new();
    let mut i: usize = 1;
    while i < t
        invariant
            is_square(view2(*m), t as nat),
            1 <= i <= t,
            out@.len() == i - 1,
            forall|k: int| 0 <= k < i - 1 ==> #[trigger] out@[k]@ == minor00(view2(*m))[k],
        decreases t - i,
    {
        assert(view2(*m)[i as int] == m@[i as int]@);
        let mut row: Vec<Fp> = Vec::new();
        let mut j: usize = 1;
        while j < t
            invariant
                is_square(view2(*m), t as nat),
                view2(*m)[i as int] == m@[i as int]@,
                1 <= i < t,
                1 <= j <= t,
                row@.len() == j - 1,
                forall|k: int| 0 <= k < j - 1 ==> #[trigger] row@[k] == m@[i as int]@[k + 1],
            decreases t - j,
        {
            row.push(m[i][j]);
            j = j + 1;
        }
        assert(row@ =~= minor00(view2(*m))[i - 1]);
        out.push(row);
        i = i + 1;
    }
    assert(view2(out) =~= minor00(view2(*m)));
    proof {
        assert forall|k: int| 0 <= k < t - 1 implies (#[trigger] view2(out)[k]).len() == t - 1
            && vec_wf(view2(out)[k]) by {
            assert(view2(*m)[k + 1].len() == t && vec_wf(view2(*m)[k + 1]));
        }
    }
    out
}

/// `transpose(m)` for an `n` by `n` matrix.
fn exec_transpose(m: &Vec<Vec<Fp>>, n: usize) -> (r: Vec<Vec<Fp>>)
    requires
        is_square(view2(*m), n as nat),
    ensures
        view2(r) == transpose(view2(*m)),
        is_square(view2(r), n as nat),
{
    let mut out: Vec<Vec<Fp>> = Vec::new();
    let mut j: usize = 0;
    while j < n
        invariant
            is_square(view2(*m), n as nat),
            j <= n,
            out@.len() == j,
            forall|k: int| 0 <= k < j ==> #[trigger] out@[k]@ == transpose(view2(*m))[k],
            forall|k: int| 0 <= k < j ==> vec_wf(#[trigger] out@[k]@),
        decreases n - j,
    {
        let c = crate::matrix::exec_column(m, n, j);
        out.push(c);
        j = j + 1;
    }
    assert(view2(out) =~= transpose(view2(*m)));
    out
}

/// Factors `m` as `S A`, with `S` sparse and `A = block_diag(minor00(m))`.
/// `None` when the lower-right block of `m` is singular.
pub fn factor_to_sparse_matrix(m: &Vec<Vec<Fp>>, t: usize) -> (r: Option<(SparseMatrix, Vec<Vec<Fp>>)>)
    requires
        is_square(view2(*m), t as nat),
        2 <= t <= MAX_WIDTH,
    ensures
        r matches Some((s, a)) ==> {
            &&& s.wf(t as nat)
            &&& view2(a) == block_diag(minor00(view2(*m)))
            &&& is_square(view2(a), t as nat)
            &&& mat_mul(s.dense(), view2(a)) == view2(*m)
        },
{
    let hat = exec_minor00(m, t);
    let hat_t = exec_transpose(&hat, t - 1);
    assert(view2(*m)[0] == m@[0]@);
    let mut v: Vec<Fp> = Vec::new();
    let mut w: Vec<Fp> = Vec::new();
    let mut k: usize = 1;
    while k < t
        invariant
            is_square(view2(*m), t as nat),
            1 <= k <= t,
            v@.len() == k - 1,
            w@.len() == k - 1,
            vec_wf(v@),
            vec_wf(w@),
        decreases t - k,
    {
        assert(view2(*m)[0] == m@[0]@);
        assert(view2(*m)[k as int] == m@[k as int]@);
        v.push(m[0][k]);
        w.push(m[k][0]);
        k = k + 1;
    }
    let u = match solve(&hat_t, &v) {
        Some(u) => u,
        None => { return None; },
    };
    let mut row: Vec<Fp> = Vec::new();
    row.push(m[0][0]);
    let mut k: usize = 0;
    while k < t - 1
        invariant
            u@.len() == t - 1,
            vec_wf(u@),
            k <= t - 1,
            row@.len() == k + 1,
            vec_wf(row@),
        decreases t - 1 - k,
    {
        row.push(u[k]);
        k = k + 1;
    }
    let s = SparseMatrix { row, col: w };
    let a = block_of(&hat, t - 1);
    let d = sparse_to_dense(&s, t);
    let prod = matmul(&d, &a, t);
    if mat_eq(&prod, m, t) {
        Some((s, a))
    } else {
        None
    }
}

/// `pre` and `sparse` factor the linear layers of the `sparse.len()` partial rounds
/// of `m`, through the block matrices `blocks`, listed from the last partial round
/// back: the `k`-th factorization splits `cur_k` (`m` for `k == 0`, else
/// `blocks[k - 1] m`) into `sparse[last - k] blocks[k]`, and `pre` is the final `cur`.
pub open spec fn is_sparse_chain(
    m: Seq<Seq<Fp>>,
    pre: Seq<Seq<Fp>>,
    sparse: Seq<Seq<Seq<Fp>>>,
    blocks: Seq<Seq<Seq<Fp>>>,
) -> bool {
    let n = sparse.len();
    &&& blocks.len() == n
    &&& forall|k: int|
        0 <= k < n ==> mat_mul(#[trigger] sparse[n - 1 - k], blocks[k]) == chain_cur(m, blocks, k)
    &&& forall|k: int|
        0 <= k < n ==> #[trigger] blocks[k] == block_diag(minor00(chain_cur(m, blocks, k)))
    &&& pre == chain_cur(m, blocks, n as int)
}

proof fn lemma_chain_blocks_agree(
    m: Seq<Seq<Fp>>,
    pre1: Seq<Seq<Fp>>,
    sp1: Seq<Seq<Seq<Fp>>>,
    b1: Seq<Seq<Seq<Fp>>>,
    pre2: Seq<Seq<Fp>>,
    sp2: Seq<Seq<Seq<Fp>>>,
    b2: Seq<Seq<Seq<Fp>>>,
    k: nat,
)
    requires
        is_sparse_chain(m, pre1, sp1, b1),
        is_sparse_chain(m, pre2, sp2, b2),
        sp1.len() == sp2.len(),
        k <= sp1.len(),
    ensures
        forall|j: int| 0 <= j < k ==> b1[j] == b2[j],
        chain_cur(m, b1, k as int) == chain_cur(m, b2, k as int),
    decreases k,
{
    if k > 0 {
        lemma_chain_blocks_agree(m, pre1, sp1, b1, pre2, sp2, b2, (k - 1) as nat);
        assert(b1[k - 1] == block_diag(minor00(chain_cur(m, b1, k - 1))));
        assert(b2[k - 1] == block_diag(minor00(chain_cur(m, b2, k - 1))));
    }
}

/// Two sparse factorizations of the same matrix over the same number of partial
/// rounds have the same pre-sparse matrix.
pub proof fn lemma_chain_pre_unique(
    m: Seq<Seq<Fp>>,
    pre1: Seq<Seq<Fp>>,
    sp1: Seq<Seq<Seq<Fp>>>,
    b1: Seq<Seq<Seq<Fp>>>,
    pre2: Seq<Seq<Fp>>,
    sp2: Seq<Seq<Seq<Fp>>>,
    b2: Seq<Seq<Seq<Fp>>>,
)
    requires
        is_sparse_chain(m, pre1, sp1, b1),
        is_sparse_chain(m, pre2, sp2, b2),
        sp1.len() == sp2.len(),
    ensures
        pre1 == pre2,
{
    lemma_chain_blocks_agree(m, pre1, sp1, b1, pre2, sp2, b2, sp1.len());
}

/// The dense forms of a list of sparse matrices.
pub open spec fn denses(sp: Seq<SparseMatrix>) -> Seq<Seq<Seq<Fp>>> {
    Seq::new(sp.len(), |i: int| sp[i].dense())
}

pub open spec fn chain_cur(m: Seq<Seq<Fp>>, blocks: Seq<Seq<Seq<Fp>>>, k: int) -> Seq<Seq<Fp>> {
    if k == 0 {
        m
    } else {
        mat_mul(blocks[k - 1], m)
    }
}

/// Factors the linear layers of `partial_rounds` partial rounds into a dense
/// pre-sparse matrix and one sparse matrix per partial round, in evaluation order.
pub fn factor_to_sparse_matrixes(m: &Vec<Vec<Fp>>, t: usize, partial_rounds: usize) -> (r:
    Option<(Vec<Vec<Fp>>, Vec<SparseMatrix>)>)
    requires
        is_square(view2(*m), t as nat),
        2 <= t <= MAX_WIDTH,
    ensures
        r matches Some((pre, sp)) ==> {
            &&& sp@.len() == partial_rounds
            &&& is_square(view2(pre), t as nat)
            &&& forall|i: int| 0 <= i < sp@.len() ==> (#[trigger] sp@[i]).wf(t as nat)
            &&& exists|blocks: Seq<Seq<Seq<Fp>>>|
                #[trigger] is_sparse_chain(view2(*m), view2(pre), denses(sp@), blocks)
        },
{
    let mut fac: Vec<SparseMatrix> = Vec::new();
    let mut cur: Vec<Vec<Fp>> = mat_copy(m, t);
    let ghost mut blocks: Seq<Seq<Seq<Fp>>> = Seq::empty();
    let mut k: usize = 0;
    while k < partial_rounds
        invariant
            is_square(view2(*m), t as nat),
            2 <= t <= MAX_WIDTH,
            k <= partial_rounds,
            fac@.len() == k,
            blocks.len() == k,
            is_square(view2(cur), t as nat),
            view2(cur) == chain_cur(view2(*m), blocks, k as int),
            forall|i: int| 0 <= i < k ==> (#[trigger] fac@[i]).wf(t as nat),
            forall|i: int|
                0 <= i < k ==> mat_mul((#[trigger] fac@[i]).dense(), blocks[i]) == chain_cur(
                    view2(*m),
                    blocks,
                    i,
                ),
            forall|i: int|
                0 <= i < k ==> #[trigger] blocks[i] == block_diag(
                    minor00(chain_cur(view2(*m), blocks, i)),
                ),
        decreases partial_rounds - k,
    {
        let (s, a) = match factor_to_sparse_matrix(&cur, t) {
            Some(p) => p,
            None => { return None; },
        };
        let next = matmul(&a, m, t);
        proof {
            let old_blocks = blocks;
            blocks = blocks.push(view2(a));
            assert forall|i: int| 0 <= i <= k implies chain_cur(view2(*m), blocks, i) == chain_cur(
                view2(*m),
                old_blocks,
                i,
            ) || i == k + 1 by {
                if i > 0 {
                    assert(blocks[i - 1] == old_blocks[i - 1]);
                }
            }
        }
        fac.push(s);
        cur = next;
        k = k + 1;
    }
    let ghost fac_view = fac@;
    let mut sp: Vec<SparseMatrix> = Vec::new();
    while fac.len() > 0
        invariant
            fac@.len() + sp@.len() == partial_rounds,
            fac@ == fac_view.subrange(0, fac@.len() as int),
            forall|i: int| 0 <= i < sp@.len() ==> #[trigger] sp@[i] == fac_view[partial_rounds - 1 - i],
            fac_view.len() == partial_rounds,
            blocks.len() == partial_rounds,
            is_square(view2(cur), t as nat),
            view2(cur) == chain_cur(view2(*m), blocks, partial_rounds as int),
            forall|i: int| 0 <= i < partial_rounds ==> (#[trigger] fac_view[i]).wf(t as nat),
            forall|i: int|
                0 <= i < partial_rounds ==> mat_mul((#[trigger] fac_view[i]).dense(), blocks[i])
                    == chain_cur(view2(*m), blocks, i),
            forall|i: int|
                0 <= i < partial_rounds ==> #[trigger] blocks[i] == block_diag(
                    minor00(chain_cur(view2(*m), blocks, i)),
                ),
        decreases fac@.len(),
    {
        let s = fac.pop().unwrap();
        sp.push(s);
    }
    proof {
        let n = partial_rounds as int;
        assert forall|k: int| 0 <= k < n implies mat_mul(
            #[trigger] denses(sp@)[n - 1 - k],
            blocks[k],
        ) == chain_cur(view2(*m), blocks, k) by {
            assert(sp@[n - 1 - k] == fac_view[k]);
        }
        assert forall|i: int| 0 <= i < n implies (#[trigger] sp@[i]).wf(t as nat) by {
            assert(sp@[i] == fac_view[n - 1 - i]);
        }
        assert(is_sparse_chain(view2(*m), view2(cur), denses(sp@), blocks));
    }
    Some((cur, sp))
}

/// A copy of an `n` by `n` matrix.
fn mat_copy(m: &Vec<Vec<Fp>>, n: usize) -> (r: Vec<Vec<Fp>>)
    requires
        is_square(view2(*m), n as nat),
    ensures
        view2(r) == view2(*m),
{
    let mut out: Vec<Vec<Fp>> = Vec::new();
    let mut i: usize = 0;
    while i < n
        invariant
            is_square(view2(*m), n as nat),
            i <= n,
            out@.len() == i,
            forall|k: int| 0 <= k < i ==> #[trigger] out@[k]@ == view2(*m)[k],
        decreases n - i,
    {
        let mut row: Vec<Fp> = Vec::new();
        let mut j: usize = 0;
        assert(view2(*m)[i as int] == m@[i as int]@);
        while j < n
            invariant
                is_square(view2(*m), n as nat),
                view2(*m)[i as int] == m@[i as int]@,
                i < n,
                j <= n,
                row@.len() == j,
                forall|k: int| 0 <= k < j ==> #[trigger] row@[k] == m@[i as int]@[k],
            decreases n - j,
        {
            row.push(m[i][j]);
            j = j + 1;
        }
        assert(row@ =~= view2(*m)[i as int]);
        out.push(row);
        i = i + 1;
    }
    assert(view2(out) =~= view2(*m));
    out
}

} // verus!
