//! Dense square matrices and vectors over the field.

use vstd::prelude::*;
use crate::field::{fadd, fe, fmul, Fp};

verus! {

/// Every entry of `v` is canonical.
pub open spec fn vec_wf(v: Seq<Fp>) -> bool {
    forall|i: int| 0 <= i < v.len() ==> (#[trigger] v[i]).wf()
}

/// `m` is an `n` by `n` matrix of canonical entries, row-major.
pub open spec fn is_square(m: Seq<Seq<Fp>>, n: nat) -> bool {
    &&& m.len() == n
    &&& forall|i: int| 0 <= i < n ==> (#[trigger] m[i]).len() == n && vec_wf(m[i])
}

/// `sum_{k < len} a[k] * b[k]`.
pub open spec fn dot(a: Seq<Fp>, b: Seq<Fp>, len: nat) -> Fp
    decreases len,
{
    if len == 0 {
        fe(0)
    } else {
        fadd(dot(a, b, (len - 1) as nat), fmul(a[len - 1], b[len - 1]))
    }
}

/// The product `m x` of a matrix and a column vector.
pub open spec fn mat_vec(m: Seq<Seq<Fp>>, x: Seq<Fp>) -> Seq<Fp> {
    Seq::new(m.len(), |i: int| dot(m[i], x, x.len()))
}

/// Column `j` of `m`.
pub open spec fn column(m: Seq<Seq<Fp>>, j: int) -> Seq<Fp> {
    Seq::new(m.len(), |i: int| m[i][j])
}

/// The product `a b` of two square matrices.
pub open spec fn mat_mul(a: Seq<Seq<Fp>>, b: Seq<Seq<Fp>>) -> Seq<Seq<Fp>> {
    Seq::new(a.len(), |i: int| Seq::new(b.len(), |j: int| dot(a[i], column(b, j), b.len())))
}

/// The transpose of `m`.
pub open spec fn transpose(m: Seq<Seq<Fp>>) -> Seq<Seq<Fp>> {
    Seq::new(m.len(), |i: int| column(m, i))
}

/// `m` without its first row and first column.
pub open spec fn minor00(m: Seq<Seq<Fp>>) -> Seq<Seq<Fp>> {
    Seq::new((m.len() - 1) as nat, |i: int| m[i + 1].subrange(1, m.len() as int))
}

pub open spec fn vec_add(a: Seq<Fp>, b: Seq<Fp>) -> Seq<Fp> {
    Seq::new(a.len(), |i: int| fadd(a[i], b[i]))
}

pub open spec fn view2(m: Vec<Vec<Fp>>) -> Seq<Seq<Fp>> {
    Seq::new(m@.len(), |i: int| m@[i]@)
}

pub proof fn lemma_dot_wf(a: Seq<Fp>, b: Seq<Fp>, len: nat)
    ensures
        dot(a, b, len).wf(),
    decreases len,
{
    if len > 0 {
        lemma_dot_wf(a, b, (len - 1) as nat);
    }
}

/// `sum_{k < a.len()} a[k] * b[k]`.
pub fn exec_dot(a: &Vec<Fp>, b: &Vec<Fp>) -> (r: Fp)
    requires
        a@.len() == b@.len(),
        vec_wf(a@),
        vec_wf(b@),
    ensures
        r == dot(a@, b@, a@.len()),
        r.wf(),
{
    let mut acc = Fp::zero();
    let mut k: usize = 0;
    while k < a.len()
        invariant
            a@.len() == b@.len(),
            vec_wf(a@),
            vec_wf(b@),
            k <= a@.len(),
            acc == dot(a@, b@, k as nat),
            acc.wf(),
        decreases a@.len() - k,
    {
        acc = acc.add(a[k].mul(b[k]));
        k = k + 1;
    }
    acc
}

/// `m x`.
pub fn apply(m: &Vec<Vec<Fp>>, x: &Vec<Fp>) -> (r: Vec<Fp>)
    requires
        is_square(view2(*m), x@.len()),
        vec_wf(x@),
    ensures
        r@ == mat_vec(view2(*m), x@),
        vec_wf(r@),
{
    let mut out: Vec<Fp> = Vec::new();
    let mut i: usize = 0;
    while i < m.len()
        invariant
            is_square(view2(*m), x@.len()),
            vec_wf(x@),
            i <= m@.len(),
            out@.len() == i,
            forall|k: int| 0 <= k < i ==> #[trigger] out@[k] == dot(m@[k]@, x@, x@.len()),
            vec_wf(out@),
        decreases m@.len() - i,
    {
        assert(view2(*m)[i as int] == m@[i as int]@);
        let d = exec_dot(&m[i], x);
        out.push(d);
        i = i + 1;
    }
    assert(out@ =~= mat_vec(view2(*m), x@));
    out
}

/// Column `j` of `m`.
pub fn exec_column(m: &Vec<Vec<Fp>>, n: usize, j: usize) -> (r: Vec<Fp>)
    requires
        is_square(view2(*m), n as nat),
        j < n,
    ensures
        r@ == column(view2(*m), j as int),
        vec_wf(r@),
{
    let mut out: Vec<Fp> = Vec::new();
    let mut i: usize = 0;
    while i < n
        invariant
            is_square(view2(*m), n as nat),
            j < n,
            i <= n,
            out@.len() == i,
            forall|k: int| 0 <= k < i ==> #[trigger] out@[k] == view2(*m)[k][j as int],
            vec_wf(out@),
        decreases n - i,
    {
        assert(view2(*m)[i as int] == m@[i as int]@);
        out.push(m[i][j]);
        i = i + 1;
    }
    assert(out@ =~= column(view2(*m), j as int));
    out
}

/// `a b`.
pub fn matmul(a: &Vec<Vec<Fp>>, b: &Vec<Vec<Fp>>, n: usize) -> (r: Vec<Vec<Fp>>)
    requires
        is_square(view2(*a), n as nat),
        is_square(view2(*b), n as nat),
    ensures
        view2(r) == mat_mul(view2(*a), view2(*b)),
        is_square(view2(r), n as nat),
{
    let mut cols: Vec<Vec<Fp>> = Vec::new();
    let mut j: usize = 0;
    while j < n
        invariant
            is_square(view2(*b), n as nat),
            j <= n,
            cols@.len() == j,
            forall|k: int| 0 <= k < j ==> #[trigger] cols@[k]@ == column(view2(*b), k),
            forall|k: int| 0 <= k < j ==> vec_wf(#[trigger] cols@[k]@),
        decreases n - j,
    {
        let c = exec_column(b, n, j);
        cols.push(c);
        j = j + 1;
    }
    let mut out: Vec<Vec<Fp>> = Vec::new();
    let mut i: usize = 0;
    while i < n
        invariant
            is_square(view2(*a), n as nat),
            is_square(view2(*b), n as nat),
            cols@.len() == n,
            forall|k: int| 0 <= k < n ==> #[trigger] cols@[k]@ == column(view2(*b), k),
            i <= n,
            out@.len() == i,
            forall|k: int|
                0 <= k < i ==> #[trigger] out@[k]@ == mat_mul(view2(*a), view2(*b))[k],
            forall|k: int| 0 <= k < i ==> vec_wf(#[trigger] out@[k]@),
        decreases n - i,
    {
        assert(view2(*a)[i as int] == a@[i as int]@);
        let mut row: Vec<Fp> = Vec::new();
        let mut j: usize = 0;
        while j < n
            invariant
                is_square(view2(*a), n as nat),
                is_square(view2(*b), n as nat),
                cols@.len() == n,
                forall|k: int| 0 <= k < n ==> #[trigger] cols@[k]@ == column(view2(*b), k),
                i < n,
                j <= n,
                row@.len() == j,
                forall|k: int|
                    0 <= k < j ==> #[trigger] row@[k] == dot(
                        view2(*a)[i as int],
                        column(view2(*b), k),
                        n as nat,
                    ),
                vec_wf(row@),
            decreases n - j,
        {
            proof {
                assert(view2(*a)[i as int] == a@[i as int]@);
                assert(column(view2(*b), j as int).len() == n);
                assert forall|k: int| 0 <= k < n implies (#[trigger] column(view2(*b), j as int)[k]).wf() by {
                    assert(view2(*b)[k].len() == n && vec_wf(view2(*b)[k]));
                }
            }
            let d = exec_dot(&a[i], &cols[j]);
            row.push(d);
            j = j + 1;
        }
        proof {
            assert(row@ =~= mat_mul(view2(*a), view2(*b))[i as int]);
        }
        out.push(row);
        i = i + 1;
    }
    proof {
        assert(view2(out) =~= mat_mul(view2(*a), view2(*b)));
    }
    out
}

} // verus!
