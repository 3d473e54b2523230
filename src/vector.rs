use vstd::prelude::*;
use crate::error::MatrixError;

verus! {

/// An owned operand of one dot product: a row or a column of a matrix.
pub struct Vector {
    pub elements: Vec<i64>,
}

impl View for Vector {
    type V = Seq<i64>;

    open spec fn view(&self) -> Seq<i64> {
        self.elements@
    }
}

impl Vector {
    pub fn new(elements: Vec<i64>) -> (v: Self)
        ensures
            v@ == elements@,
    {
        Vector { elements }
    }
}

/// Whether `x` is a value of `i64`.
pub open spec fn in_i64(x: int) -> bool {
    i64::MIN <= x <= i64::MAX
}

/// The sum of `a[t] * b[t]` over the first `n` positions, added from the left.
pub open spec fn dot_upto(a: Seq<i64>, b: Seq<i64>, n: int) -> int
    decreases n,
{
    if n <= 0 {
        0
    } else {
        dot_upto(a, b, n - 1) + a[n - 1] * b[n - 1]
    }
}

/// The dot product of two sequences of the same length.
pub open spec fn dot(a: Seq<i64>, b: Seq<i64>) -> int {
    dot_upto(a, b, a.len() as int)
}

/// Position `t` of a left-to-right accumulation stays within `i64`:
/// both the product and the running sum after adding it.
pub open spec fn step_fits(a: Seq<i64>, b: Seq<i64>, t: int) -> bool {
    in_i64(a[t] * b[t]) && in_i64(dot_upto(a, b, t + 1))
}

/// Every step of the accumulation of `dot(a, b)` stays within `i64`.
pub open spec fn dot_fits(a: Seq<i64>, b: Seq<i64>) -> bool {
    forall|t: int| 0 <= t < a.len() ==> #[trigger] step_fits(a, b, t)
}

/// The dot product of `a` and `b`, accumulated left to right from zero.
/// Vectors of different lengths give `LengthMismatch`; a step that leaves
/// `i64` gives `Overflow`.
pub fn dot_product(a: Vector, b: Vector) -> (r: Result<i64, MatrixError>)
    ensures
        a@.len() != b@.len() ==> r == Err::<i64, MatrixError>(MatrixError::LengthMismatch),
        a@.len() == b@.len() && !dot_fits(a@, b@) ==> r == Err::<i64, MatrixError>(
            MatrixError::Overflow,
        ),
        a@.len() == b@.len() && dot_fits(a@, b@) ==> r is Ok && r->Ok_0 == dot(a@, b@),
{
    let n = a.elements.len();
    if n != b.elements.len() {
        return Err(MatrixError::LengthMismatch);
    }
    let mut acc: i64 = 0;
    let mut k: usize = 0;
    while k < n
        invariant
            n == a@.len(),
            n == b@.len(),
            k <= n,
            acc == dot_upto(a@, b@, k as int),
            forall|t: int| 0 <= t < k ==> #[trigger] step_fits(a@, b@, t),
        decreases n - k,
    {
        let x = a.elements[k];
        let y = b.elements[k];
        match x.checked_mul(y) {
            None => {
                assert(!step_fits(a@, b@, k as int));
                return Err(MatrixError::Overflow);
            },
            Some(p) => match acc.checked_add(p) {
                None => {
                    assert(!step_fits(a@, b@, k as int));
                    return Err(MatrixError::Overflow);
                },
                Some(s) => {
                    acc = s;
                },
            },
        }
        k = k + 1;
    }
    Ok(acc)
}

} // verus!
