//! Holding the outcome of a scenario against what was expected, row by row.

use vstd::prelude::*;

verus! {

/// One row of the comparison: what was expected and what came out at an
/// index. Either may be missing where one list is longer than the other.
#[derive(Debug, Clone, Copy, PartialEq, Eq, Structural)]
pub struct Row {
    pub index: usize,
    pub expected: Option<u128>,
    pub actual: Option<u128>,
    pub same: bool,
}

/// The rows of a comparison and those among them that differ.
#[derive(Debug)]
pub struct Validation {
    pub rows: Vec<Row>,
    pub mismatch: Vec<Row>,
}

/// The item of `list` at `i`, if it has one.
pub open spec fn item(list: Seq<u128>, i: int) -> Option<u128> {
    if 0 <= i < list.len() {
        Some(list[i])
    } else {
        None
    }
}

/// The row that compares two lists at `i`.
pub open spec fn row_at(expected: Seq<u128>, actual: Seq<u128>, i: int) -> Row {
    Row {
        index: i as usize,
        expected: item(expected, i),
        actual: item(actual, i),
        same: item(expected, i) == item(actual, i),
    }
}

/// The rows that compare two lists: one for every index that either has.
pub open spec fn rows_of(expected: Seq<u128>, actual: Seq<u128>) -> Seq<Row> {
    Seq::new(
        if expected.len() >= actual.len() {
            expected.len()
        } else {
            actual.len()
        },
        |i: int| row_at(expected, actual, i),
    )
}

/// Those of the first `n` rows that differ, in order.
pub open spec fn differing(rows: Seq<Row>, n: int) -> Seq<Row>
    decreases n,
{
    if n <= 0 {
        Seq::empty()
    } else if rows[n - 1].same {
        differing(rows, n - 1)
    } else {
        differing(rows, n - 1).push(rows[n - 1])
    }
}

impl Validation {
    /// Whether every row agrees.
    pub fn passed(&self) -> (ok: bool)
        ensures
            ok == (self.mismatch@.len() == 0),
    {
        self.mismatch.len() == 0
    }
}

/// Compares what came out with what was expected, index by index. A list
/// that ends early differs from the other in every row it lacks.
pub fn validate(expected: &[u128], actual: &[u128]) -> (v: Validation)
    ensures
        v.rows@ == rows_of(expected@, actual@),
        v.mismatch@ == differing(v.rows@, v.rows@.len() as int),
{
    let n: usize = if expected.len() >= actual.len() {
        expected.len()
    } else {
        actual.len()
    };
    let mut rows: Vec<Row> = Vec::new();
    let mut mismatch: Vec<Row> = Vec::new();
    let mut i: usize = 0;
    while i < n
        invariant
            i <= n,
            n == rows_of(expected@, actual@).len(),
            rows@.len() == i,
            forall|k: int| 0 <= k < i ==> rows@[k] == row_at(expected@, actual@, k),
            mismatch@ == differing(rows@, i as int),
        decreases n - i,
    {
        let next_expected: Option<u128> = if i < expected.len() {
            Some(expected[i])
        } else {
            None
        };
        let next_actual: Option<u128> = if i < actual.len() {
            Some(actual[i])
        } else {
            None
        };
        let same: bool = match (next_expected, next_actual) {
            (Some(e), Some(a)) => e == a,
            (None, None) => true,
            _ => false,
        };
        let row = Row { index: i, expected: next_expected, actual: next_actual, same };
        let ghost before = rows@;
        rows.push(row);
        proof {
            lemma_differing_prefix(before, rows@, i as int);
        }
        if !same {
            mismatch.push(row);
        }
        i = i + 1;
    }
    assert(rows@ =~= rows_of(expected@, actual@));
    Validation { rows, mismatch }
}

/// The rows that differ among the first `n` do not depend on later rows.
proof fn lemma_differing_prefix(a: Seq<Row>, b: Seq<Row>, n: int)
    requires
        0 <= n <= a.len(),
        a.len() <= b.len(),
        forall|k: int| 0 <= k < n ==> a[k] == b[k],
    ensures
        differing(a, n) == differing(b, n),
    decreases n,
{
    if n > 0 {
        lemma_differing_prefix(a, b, n - 1);
    }
}

} // verus!
