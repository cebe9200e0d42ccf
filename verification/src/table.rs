//! Laying a list out in rows of a fixed width.

use vstd::prelude::*;

verus! {

/// How many rows a list of `len` items takes at `columns` items a row. An
/// empty list still takes one (empty) row.
pub open spec fn row_count(len: int, columns: int) -> int {
    if len <= columns {
        1
    } else {
        (len + columns - 1) / columns
    }
}

/// Where row `k` ends: a full row further, or at the end of the list.
pub open spec fn row_end(k: int, len: int, columns: int) -> int {
    if (k + 1) * columns < len {
        (k + 1) * columns
    } else {
        len
    }
}

/// Splits the positions `0..len` into rows of `columns` items; only the
/// last row may hold fewer. Each row is given as its first position and the
/// position after its last.
pub fn row_bounds(len: usize, columns: usize) -> (r: Vec<(usize, usize)>)
    requires
        columns > 0,
    ensures
        r@.len() == row_count(len as int, columns as int),
        forall|k: int|
            0 <= k < r@.len() ==> (#[trigger] r@[k]).0 == k * columns && r@[k].1 == row_end(
                k,
                len as int,
                columns as int,
            ),
{
    let mut rows: Vec<(usize, usize)> = Vec::new();
    let mut start: usize = 0;
    assert(rows@.len() * columns == 0) by (nonlinear_arith)
        requires
            rows@.len() == 0,
    ;
    while len - start > columns
        invariant
            columns > 0,
            start <= len,
            start == rows@.len() * columns,
            rows@.len() == 0 || (columns <= start < len),
            forall|k: int|
                0 <= k < rows@.len() ==> (#[trigger] rows@[k]).0 == k * columns && rows@[k].1
                    == row_end(k, len as int, columns as int),
        decreases len - start,
    {
        let ghost n = rows@.len() as int;
        assert((n + 1) * columns == n * columns + columns) by (nonlinear_arith);
        rows.push((start, start + columns));
        start += columns;
    }
    let ghost n = rows@.len() as int;
    assert((n + 1) * columns == n * columns + columns) by (nonlinear_arith);
    rows.push((start, len));
    proof {
        let l = len as int;
        let c = columns as int;
        if l > c {
            assert((l + c - 1) / c == n + 1) by (nonlinear_arith)
                requires
                    c > 0,
                    n * c < l,
                    l <= n * c + c,
            ;
        }
    }
    rows
}

} // verus!
