use vstd::prelude::*;
use vstd::string::StringExecFns;
use crate::matrix::{lemma_flat_index, Matrix};

verus! {

/// The decimal digit for `d < 10`.
pub open spec fn digit_char(d: nat) -> char {
    if d == 0 { '0' }
    else if d == 1 { '1' }
    else if d == 2 { '2' }
    else if d == 3 { '3' }
    else if d == 4 { '4' }
    else if d == 5 { '5' }
    else if d == 6 { '6' }
    else if d == 7 { '7' }
    else if d == 8 { '8' }
    else { '9' }
}

/// The decimal digits of `n`, without leading zeros.
pub open spec fn digits(n: nat) -> Seq<char>
    decreases n,
{
    if n < 10 {
        seq![digit_char(n)]
    } else {
        digits(n / 10) + seq![digit_char(n % 10)]
    }
}

/// The decimal text of `v`, with a leading `-` when it is negative.
pub open spec fn decimal(v: int) -> Seq<char> {
    if v < 0 {
        seq!['-'] + digits((-v) as nat)
    } else {
        digits(v as nat)
    }
}

/// Relies on `usize`'s `Display`, through `ToString::to_string`: the decimal
/// text of the value.
#[verifier::external_body]
fn usize_decimal_string(v: usize) -> (s: String)
    ensures
        s@ == decimal(v as int),
{
    v.to_string()
}

/// Relies on `i64`'s `Display`, through `ToString::to_string`: the decimal
/// text of the value.
#[verifier::external_body]
fn decimal_string(v: i64) -> (s: String)
    ensures
        s@ == decimal(v as int),
{
    v.to_string()
}

impl Matrix {
    /// Element `(i, j)` as it is rendered: its decimal text and a space,
    /// and one more space unless it ends its row.
    pub open spec fn cell_text(&self, i: int, j: int) -> Seq<char> {
        decimal(self.cells()[i * self.ncols() + j] as int) + seq![' '] + if j + 1 != self.ncols() {
            seq![' ']
        } else {
            Seq::<char>::empty()
        }
    }

    /// The first `n` elements of row `i`, rendered.
    pub open spec fn row_text(&self, i: int, n: int) -> Seq<char>
        decreases n,
    {
        if n <= 0 {
            Seq::<char>::empty()
        } else {
            self.row_text(i, n - 1) + self.cell_text(i, n - 1)
        }
    }

    /// The first `n` rows, rendered, separated by `", "`.
    pub open spec fn rows_text(&self, n: int) -> Seq<char>
        decreases n,
    {
        if n <= 0 {
            Seq::<char>::empty()
        } else {
            self.rows_text(n - 1) + self.row_text(n - 1, self.ncols() as int) + if n
                != self.nrows() {
                seq![',', ' ']
            } else {
                Seq::<char>::empty()
            }
        }
    }

    /// The whole matrix rendered between braces.
    pub open spec fn text(&self) -> Seq<char> {
        seq!['{'] + self.rows_text(self.nrows() as int) + seq!['}']
    }

    /// Renders the matrix as `{e00  e01 , e10  e11 }`: every element is
    /// followed by a space, elements of a row are parted by one more space,
    /// and rows by `", "`.
    pub fn to_text(&self) -> (s: String)
        requires
            self.wf(),
        ensures
            s@ == self.text(),
    {
        proof {
            reveal_strlit("{");
            reveal_strlit("}");
            reveal_strlit(" ");
            reveal_strlit(", ");
        }
        assert(", "@ =~= seq![',', ' ']);
        assert(" "@ =~= seq![' ']);
        assert("{"@ =~= seq!['{']);
        let r = self.rows();
        let c = self.columns();
        let data = self.data();
        let n = data.len();
        let mut s = String::from_str("{");
        let mut i: usize = 0;
        while i < r
            invariant
                self.wf(),
                r == self.nrows(),
                c == self.ncols(),
                data@ == self.cells(),
                n == data@.len(),
                ", "@ == seq![',', ' '],
                " "@ == seq![' '],
                i <= r,
                s@ == seq!['{'] + self.rows_text(i as int),
            decreases r - i,
        {
            let ghost before = s@;
            let mut j: usize = 0;
            while j < c
                invariant
                    self.wf(),
                    r == self.nrows(),
                    c == self.ncols(),
                    data@ == self.cells(),
                    n == data@.len(),
                    " "@ == seq![' '],
                    i < r,
                    j <= c,
                    s@ == before + self.row_text(i as int, j as int),
                decreases c - j,
            {
                proof {
                    lemma_flat_index(i as int, j as int, r as int, c as int);
                }
                let t = decimal_string(data[i * c + j]);
                s.append(t.as_str());
                s.append(" ");
                if j + 1 != c {
                    s.append(" ");
                }
                j = j + 1;
                assert(s@ =~= before + self.row_text(i as int, j as int));
            }
            assert(s@ == before + self.row_text(i as int, c as int));
            if i + 1 != r {
                s.append(", ");
            }
            i = i + 1;
            assert(s@ =~= seq!['{'] + self.rows_text(i as int));
        }
        s.append("}");
        assert(s@ =~= self.text());
        s
    }

    /// Renders the matrix with its dimensions:
    /// `Matrix(rows=2, columns=2, {22  28 , 49  64 })`.
    pub fn to_debug_text(&self) -> (s: String)
        requires
            self.wf(),
        ensures
            s@ == seq!['M', 'a', 't', 'r', 'i', 'x', '(', 'r', 'o', 'w', 's', '=']
                + decimal(self.nrows() as int) + seq![',', ' ', 'c', 'o', 'l', 'u', 'm', 'n', 's', '=']
                + decimal(self.ncols() as int) + seq![',', ' '] + self.text() + seq![')'],
    {
        proof {
            reveal_strlit("Matrix(rows=");
            reveal_strlit(", columns=");
            reveal_strlit(", ");
            reveal_strlit(")");
        }
        assert(", "@ =~= seq![',', ' ']);
        assert(")"@ =~= seq![')']);
        assert("Matrix(rows="@ =~= seq!['M', 'a', 't', 'r', 'i', 'x', '(', 'r', 'o', 'w', 's', '=']);
        assert(", columns="@ =~= seq![',', ' ', 'c', 'o', 'l', 'u', 'm', 'n', 's', '=']);
        let mut s = String::from_str("Matrix(rows=");
        let rows = usize_decimal_string(self.rows());
        s.append(rows.as_str());
        s.append(", columns=");
        let columns = usize_decimal_string(self.columns());
        s.append(columns.as_str());
        s.append(", ");
        let body = self.to_text();
        s.append(body.as_str());
        s.append(")");
        assert(s@ =~= seq!['M', 'a', 't', 'r', 'i', 'x', '(', 'r', 'o', 'w', 's', '=']
            + decimal(self.nrows() as int) + seq![',', ' ', 'c', 'o', 'l', 'u', 'm', 'n', 's', '=']
            + decimal(self.ncols() as int) + seq![',', ' '] + self.text() + seq![')']);
        s
    }
}

} // verus!
