use vstd::prelude::*;

use crate::error::MatMulError;

verus! {

/// A thin ordered-sequence wrapper used to stage one matrix row or one
/// gathered matrix column before it is reduced by the dot-product kernel.
pub struct Vector {
    pub data: Vec<i64>,
}

impl View for Vector {
    type V = Seq<i64>;

    open spec fn view(&self) -> Seq<i64> {
        self.data@
    }
}

impl Vector {
    pub fn new(data: Vec<i64>) -> (v: Vector)
        ensures
            v@ == data@,
    {
        Vector { data }
    }

    pub fn len(&self) -> (n: usize)
        ensures
            n == self@.len(),
    {
        self.data.len()
    }
}

/// Sum of the first `k` products `a[t] * b[t]`, as a mathematical integer.
pub open spec fn dot_prefix(a: Seq<i64>, b: Seq<i64>, k: int) -> int
    decreases k,
{
    if k <= 0 {
        0
    } else {
        dot_prefix(a, b, k - 1) + a[k - 1] * b[k - 1]
    }
}

/// Mathematical dot product of two equal-length sequences.
pub open spec fn spec_dot(a: Seq<i64>, b: Seq<i64>) -> int {
    dot_prefix(a, b, a.len() as int)
}

/// Every product and every partial sum of the sequential reduction of `a`
/// against `b` stays inside the `i64` range, so the kernel cannot overflow.
pub open spec fn dot_fits(a: Seq<i64>, b: Seq<i64>) -> bool {
    &&& forall|t: int|
        0 <= t < a.len() ==> i64::MIN <= #[trigger] (a[t] * b[t]) <= i64::MAX
    &&& forall|k: int|
        0 <= k <= a.len() ==> i64::MIN <= #[trigger] dot_prefix(a, b, k) <= i64::MAX
}

/// The reduction itself, trusted to be called on equal-length, overflow-free
/// operands; the public entry points establish both before calling it.
pub(crate) fn dot_kernel(a: &Vector, b: &Vector) -> (r: i64)
    requires
        a@.len() == b@.len(),
        dot_fits(a@, b@),
    ensures
        r == spec_dot(a@, b@),
{
    let n: usize = a.data.len();
    let mut result: i64 = 0;
    let mut i: usize = 0;
    while i < n
        invariant
            n == a@.len(),
            a@.len() == b@.len(),
            dot_fits(a@, b@),
            i <= n,
            result == dot_prefix(a@, b@, i as int),
        decreases n - i,
    {
        let p: i64 = a.data[i] * b.data[i];
        proof {
            assert(dot_prefix(a@, b@, i as int + 1) == dot_prefix(a@, b@, i as int) + a@[i as int]
                * b@[i as int]);
        }
        result = result + p;
        i = i + 1;
    }
    result
}

/// Scalar dot-product kernel: equal-length operands reduce to the sum of the
/// pairwise products; a length mismatch is rejected with
/// `MatMulError::Reduction` before any element is read.
pub fn dot_product(a: &Vector, b: &Vector) -> (r: Result<i64, MatMulError>)
    requires
        a@.len() == b@.len() ==> dot_fits(a@, b@),
    ensures
        match r {
            Ok(v) => a@.len() == b@.len() && v == spec_dot(a@, b@),
            Err(e) => a@.len() != b@.len() && e == MatMulError::Reduction,
        },
{
    if a.data.len() != b.data.len() {
        return Err(MatMulError::Reduction);
    }
    Ok(dot_kernel(a, b))
}

/// Runtime check of the kernel's precondition: the operands have equal length
/// and their sequential reduction stays inside the `i64` range throughout.
pub fn dot_fits_checked(a: &Vector, b: &Vector) -> (r: bool)
    ensures
        r == (a@.len() == b@.len() && dot_fits(a@, b@)),
{
    if a.data.len() != b.data.len() {
        return false;
    }
    let n: usize = a.data.len();
    let mut acc: i128 = 0;
    let mut i: usize = 0;
    while i < n
        invariant
            n == a@.len(),
            a@.len() == b@.len(),
            i <= n,
            acc == dot_prefix(a@, b@, i as int),
            i64::MIN <= acc <= i64::MAX,
            forall|t: int|
                0 <= t < i ==> i64::MIN <= #[trigger] (a@[t] * b@[t]) <= i64::MAX,
            forall|k: int|
                0 <= k <= i ==> i64::MIN <= #[trigger] dot_prefix(a@, b@, k) <= i64::MAX,
        decreases n - i,
    {
        let ai: i128 = a.data[i] as i128;
        let bi: i128 = b.data[i] as i128;
        proof {
            assert(-0x40000000000000000000000000000000 <= ai * bi
                <= 0x40000000000000000000000000000000) by (nonlinear_arith)
                requires
                    i64::MIN <= ai <= i64::MAX,
                    i64::MIN <= bi <= i64::MAX,
            ;
        }
        let p: i128 = ai * bi;
        if p < i64::MIN as i128 || p > i64::MAX as i128 {
            proof {
                assert(!(i64::MIN <= a@[i as int] * b@[i as int] <= i64::MAX));
                assert(!dot_fits(a@, b@));
            }
            return false;
        }
        acc = acc + p;
        if acc < i64::MIN as i128 || acc > i64::MAX as i128 {
            proof {
                assert(acc == dot_prefix(a@, b@, i as int + 1));
                assert(!dot_fits(a@, b@));
            }
            return false;
        }
        i = i + 1;
    }
    true
}

/// A dot product whose left operand is one-hot at position `i` selects the
/// single element `b[i]`: every other product contributes zero.
pub(crate) proof fn lemma_dot_prefix_one_hot_left(a: Seq<i64>, b: Seq<i64>, i: int, k: int)
    requires
        a.len() == b.len(),
        0 <= i < a.len(),
        forall|t: int| 0 <= t < a.len() ==> a[t] == (if t == i { 1i64 } else { 0i64 }),
        0 <= k <= a.len(),
    ensures
        dot_prefix(a, b, k) == if i < k { b[i] as int } else { 0 },
    decreases k,
{
    if k > 0 {
        lemma_dot_prefix_one_hot_left(a, b, i, k - 1);
        let x = a[k - 1] as int;
        let y = b[k - 1] as int;
        if k - 1 == i {
            assert(x * y == y) by (nonlinear_arith)
                requires
                    x == 1,
            ;
        } else {
            assert(x * y == 0) by (nonlinear_arith)
                requires
                    x == 0,
            ;
        }
    }
}

/// Mirror of `lemma_dot_prefix_one_hot_left` for a right operand that is
/// one-hot at position `j`: the dot product selects `a[j]`.
pub(crate) proof fn lemma_dot_prefix_one_hot_right(a: Seq<i64>, b: Seq<i64>, j: int, k: int)
    requires
        a.len() == b.len(),
        0 <= j < b.len(),
        forall|t: int| 0 <= t < b.len() ==> b[t] == (if t == j { 1i64 } else { 0i64 }),
        0 <= k <= a.len(),
    ensures
        dot_prefix(a, b, k) == if j < k { a[j] as int } else { 0 },
    decreases k,
{
    if k > 0 {
        lemma_dot_prefix_one_hot_right(a, b, j, k - 1);
        let x = a[k - 1] as int;
        let y = b[k - 1] as int;
        if k - 1 == j {
            assert(x * y == x) by (nonlinear_arith)
                requires
                    y == 1,
            ;
        } else {
            assert(x * y == 0) by (nonlinear_arith)
                requires
                    y == 0,
            ;
        }
    }
}

} // verus!
