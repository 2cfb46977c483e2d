//! Laying out a byte array for a readable dump: the bytes as signed values, cut into rows of
//! ten, which the caller prints between a header and a footer line.
use vstd::prelude::*;

verus! {

/// The number of values in a row of a dump.
pub const ROW_WIDTH: usize = 10;

/// The bytes of `v` read as signed bytes (two's complement).
pub fn signed_bytes(v: &Vec<u8>) -> (r: Vec<i8>)
    ensures
        r@.len() == v@.len(),
        forall|i: int| 0 <= i < v@.len() ==> r@[i] == v@[i] as i8,
{
    let mut r: Vec<i8> = Vec::new();
    let mut i: usize = 0;
    while i < v.len()
        invariant
            i <= v@.len(),
            r@.len() == i,
            forall|j: int| 0 <= j < i ==> r@[j] == v@[j] as i8,
        decreases v@.len() - i,
    {
        r.push(v[i] as i8);
        i += 1;
    }
    r
}

/// The number of rows that `len` values fill.
pub open spec fn row_count(len: nat) -> nat {
    (len + 9) / 10
}

/// Row `k` of `values`: the values from `10 * k` on, ten of them or as many as are left.
pub open spec fn row_of(values: Seq<i8>, k: int) -> Seq<i8> {
    let start = 10 * k;
    let end = if start + 10 <= values.len() { start + 10 } else { values.len() as int };
    values.subrange(start, end)
}

/// `values` cut into rows of ten, in order; only the last row may be shorter.
pub fn rows(values: &Vec<i8>) -> (r: Vec<Vec<i8>>)
    ensures
        r@.len() == row_count(values@.len()),
        forall|k: int| 0 <= k < r@.len() ==> #[trigger] r@[k]@ == row_of(values@, k),
{
    let n = values.len();
    let mut r: Vec<Vec<i8>> = Vec::new();
    let mut start: usize = 0;
    while start < n
        invariant
            n == values@.len(),
            start <= n,
            start < n ==> start == 10 * r@.len(),
            start == n ==> r@.len() == row_count(n as nat),
            forall|k: int| 0 <= k < r@.len() ==> #[trigger] r@[k]@ == row_of(values@, k),
        decreases n - start,
    {
        let end: usize = if n - start >= ROW_WIDTH {
            start + ROW_WIDTH
        } else {
            n
        };
        let mut row: Vec<i8> = Vec::new();
        let mut i: usize = start;
        while i < end
            invariant
                start <= i <= end <= n,
                n == values@.len(),
                row@ == values@.subrange(start as int, i as int),
            decreases end - i,
        {
            row.push(values[i]);
            i += 1;
            assert(row@ == values@.subrange(start as int, i as int));
        }
        assert(row@ == row_of(values@, r@.len() as int));
        r.push(row);
        start = end;
    }
    r
}

} // verus!
