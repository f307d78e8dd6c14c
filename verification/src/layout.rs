//! How a row is laid out in the flat stream of values.
//!
//! A row is one scale value followed by the signals in header order. In a
//! complex file the first `num_variables - 1` signals take two values each, a
//! real and an imaginary part; every other signal takes one. The width of a
//! row is `num_vectors`, or `num_vectors + num_variables - 1` in a complex
//! file.

use crate::types::{ComplexBits, VectorData, VectorView, COMPLEX_VAR};
use vstd::prelude::*;

verus! {

/// Number of flat values in one row.
pub open spec fn column_count(num_vectors: int, num_variables: int, var_type: int) -> int {
    if var_type == COMPLEX_VAR {
        num_vectors + num_variables - 1
    } else {
        num_vectors
    }
}

/// Whether signal `i`, counted from 0 after the scale, is stored as pairs.
pub open spec fn is_complex_signal(i: int, num_variables: int, var_type: int) -> bool {
    var_type == COMPLEX_VAR && i < num_variables - 1
}

/// Position within a row of the first value of signal `i`.
pub open spec fn signal_offset(i: int, num_variables: int, var_type: int) -> int {
    if var_type != COMPLEX_VAR {
        1 + i
    } else if i < num_variables - 1 {
        1 + 2 * i
    } else {
        i + num_variables
    }
}

/// The counts describe at least the scale, and a complex file counts the
/// scale among its variables.
pub open spec fn layout_fits(num_vectors: int, num_variables: int, var_type: int) -> bool {
    num_vectors >= 1 && (var_type == COMPLEX_VAR ==> num_variables >= 1)
}

/// Every signal lies within the row.
pub proof fn lemma_signal_within_row(i: int, num_vectors: int, num_variables: int, var_type: int)
    requires
        layout_fits(num_vectors, num_variables, var_type),
        0 <= i < num_vectors - 1,
    ensures
        1 <= signal_offset(i, num_variables, var_type),
        signal_offset(i, num_variables, var_type) + (if is_complex_signal(
            i,
            num_variables,
            var_type,
        ) {
            1int
        } else {
            0int
        }) < column_count(num_vectors, num_variables, var_type),
{
}

/// The values at position `off` of each of `rows` rows of width `cols` laid
/// out in `flat` from `start`.
pub open spec fn real_values(flat: Seq<u64>, start: int, rows: int, cols: int, off: int) -> Seq<
    u64,
> {
    Seq::new(rows as nat, |r: int| flat[start + r * cols + off])
}

/// The pairs at positions `off` and `off + 1` of each of `rows` rows of width
/// `cols` laid out in `flat` from `start`.
pub open spec fn complex_values(flat: Seq<u64>, start: int, rows: int, cols: int, off: int) -> Seq<
    ComplexBits,
> {
    Seq::new(
        rows as nat,
        |r: int|
            (ComplexBits { re: flat[start + r * cols + off], im: flat[start + r * cols + off + 1] }),
    )
}

/// The scale values of the rows.
pub open spec fn scale_column(flat: Seq<u64>, start: int, rows: int, cols: int) -> VectorView {
    VectorView::Real(real_values(flat, start, rows, cols, 0))
}

/// The samples of signal `i` over the rows.
pub open spec fn signal_column(
    flat: Seq<u64>,
    start: int,
    rows: int,
    cols: int,
    i: int,
    num_variables: int,
    var_type: int,
) -> VectorView {
    let off = signal_offset(i, num_variables, var_type);
    if is_complex_signal(i, num_variables, var_type) {
        VectorView::Complex(complex_values(flat, start, rows, cols, off))
    } else {
        VectorView::Real(real_values(flat, start, rows, cols, off))
    }
}

/// Row `r` of width `cols` lies within the first `rows` rows.
pub proof fn lemma_row_within(r: int, rows: int, cols: int)
    requires
        0 <= r < rows,
        0 <= cols,
    ensures
        0 <= r * cols,
        r * cols + cols <= rows * cols,
{
    assert(0 <= r * cols) by (nonlinear_arith)
        requires
            0 <= r,
            0 <= cols,
    ;
    assert(r * cols + cols <= rows * cols) by (nonlinear_arith)
        requires
            r + 1 <= rows,
            0 <= cols,
    ;
}

/// Width of a row, or `None` when it is more than any buffer can hold.
pub fn row_width(num_vectors: usize, num_variables: i32, var_type: i32) -> (c: Option<usize>)
    requires
        layout_fits(num_vectors as int, num_variables as int, var_type as int),
    ensures
        match c {
            Some(n) => n == column_count(num_vectors as int, num_variables as int, var_type as int),
            None => column_count(num_vectors as int, num_variables as int, var_type as int)
                > usize::MAX,
        },
{
    if var_type == COMPLEX_VAR {
        let extra: usize = (num_variables - 1) as usize;
        if extra > usize::MAX - num_vectors {
            None
        } else {
            Some(num_vectors + extra)
        }
    } else {
        Some(num_vectors)
    }
}

/// Whether signal `i` is stored as pairs.
pub fn signal_is_complex(i: usize, num_variables: i32, var_type: i32) -> (b: bool)
    ensures
        b == is_complex_signal(i as int, num_variables as int, var_type as int),
{
    var_type == COMPLEX_VAR && num_variables >= 1 && i < (num_variables - 1) as usize
}

/// Collects the values at position `off` of each row.
pub fn real_column(flat: &[u64], start: usize, rows: usize, cols: usize, off: usize) -> (v: Vec<
    u64,
>)
    requires
        off < cols,
        start + rows * cols <= flat@.len(),
    ensures
        v@ == real_values(flat@, start as int, rows as int, cols as int, off as int),
{
    let mut v: Vec<u64> = Vec::new();
    if rows == 0 {
        assert(v@ == real_values(flat@, start as int, 0, cols as int, off as int));
        return v;
    }
    proof {
        assert(vstd::slice::spec_slice_len(flat) == flat@.len());
    }
    proof {
        lemma_row_within(0, rows as int, cols as int);
    }
    let mut r: usize = 0;
    let mut at: usize = start + off;
    while r < rows
        invariant
            r <= rows,
            off < cols,
            start + rows * cols <= flat@.len() <= usize::MAX,
            r < rows ==> at == start + r * cols + off,
            v@ == real_values(flat@, start as int, r as int, cols as int, off as int),
        decreases rows - r,
    {
        proof {
            lemma_row_within(r as int, rows as int, cols as int);
        }
        v.push(flat[at]);
        r = r + 1;
        assert(r * cols == (r - 1) * cols + cols) by (nonlinear_arith);
        if r < rows {
            proof {
                lemma_row_within(r as int, rows as int, cols as int);
            }
            at = at + cols;
        }
    }
    v
}

/// Collects the pairs at positions `off` and `off + 1` of each row.
pub fn complex_column(flat: &[u64], start: usize, rows: usize, cols: usize, off: usize) -> (v: Vec<
    ComplexBits,
>)
    requires
        off + 1 < cols,
        start + rows * cols <= flat@.len(),
    ensures
        v@ == complex_values(flat@, start as int, rows as int, cols as int, off as int),
{
    let mut v: Vec<ComplexBits> = Vec::new();
    if rows == 0 {
        assert(v@ == complex_values(flat@, start as int, 0, cols as int, off as int));
        return v;
    }
    proof {
        assert(vstd::slice::spec_slice_len(flat) == flat@.len());
    }
    proof {
        lemma_row_within(0, rows as int, cols as int);
    }
    let mut r: usize = 0;
    let mut at: usize = start + off;
    while r < rows
        invariant
            r <= rows,
            off + 1 < cols,
            start + rows * cols <= flat@.len() <= usize::MAX,
            r < rows ==> at == start + r * cols + off,
            v@ == complex_values(flat@, start as int, r as int, cols as int, off as int),
        decreases rows - r,
    {
        proof {
            lemma_row_within(r as int, rows as int, cols as int);
        }
        v.push(ComplexBits { re: flat[at], im: flat[at + 1] });
        r = r + 1;
        assert(r * cols == (r - 1) * cols + cols) by (nonlinear_arith);
        if r < rows {
            proof {
                lemma_row_within(r as int, rows as int, cols as int);
            }
            at = at + cols;
        }
    }
    v
}

/// Collects the samples of signal `i` over the rows.
pub fn extract_signal(
    flat: &[u64],
    start: usize,
    rows: usize,
    cols: usize,
    i: usize,
    num_vectors: usize,
    num_variables: i32,
    var_type: i32,
) -> (v: VectorData)
    requires
        layout_fits(num_vectors as int, num_variables as int, var_type as int),
        i < num_vectors - 1,
        rows > 0 ==> cols == column_count(num_vectors as int, num_variables as int, var_type as int),
        start + rows * cols <= flat@.len(),
    ensures
        v@ == signal_column(
            flat@,
            start as int,
            rows as int,
            cols as int,
            i as int,
            num_variables as int,
            var_type as int,
        ),
{
    let complex = signal_is_complex(i, num_variables, var_type);
    if rows == 0 {
        let ghost off = signal_offset(i as int, num_variables as int, var_type as int);
        if complex {
            let v: Vec<ComplexBits> = Vec::new();
            assert(v@ == complex_values(flat@, start as int, 0, cols as int, off));
            VectorData::Complex(v)
        } else {
            let v: Vec<u64> = Vec::new();
            assert(v@ == real_values(flat@, start as int, 0, cols as int, off));
            VectorData::Real(v)
        }
    } else {
        proof {
            lemma_signal_within_row(i as int, num_vectors as int, num_variables as int, var_type as int);
        }
        if complex {
            VectorData::Complex(complex_column(flat, start, rows, cols, 1 + 2 * i))
        } else if var_type == COMPLEX_VAR {
            VectorData::Real(real_column(flat, start, rows, cols, i + (num_variables as usize)))
        } else {
            VectorData::Real(real_column(flat, start, rows, cols, 1 + i))
        }
    }
}

} // verus!
