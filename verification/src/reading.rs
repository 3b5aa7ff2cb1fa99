//! What the two readers give, said of the file as a whole.
//!
//! The readers go through a file line by line. Here the same is said without
//! a walk. Of a solution file: every entry has the value of the last line
//! that sets it, and an error is the error of the first line that has one. Of
//! a demand table: every node has exactly one row, and the matrix holds what
//! that row gives.

use vstd::prelude::*;
use crate::demand::{
    DemandError, Table, demand_table, first_missing, is_table_matrix, lemma_read_shape, row_label,
    row_values,
};
use crate::directive::{Directive, carry_out, directive, read_lines, solution_of};
use crate::instance::matrix_row;
use crate::range::{lemma_sum_of_ones, lemma_sum_one_more, lemma_sum_same, sum_to};
use crate::solution::{SolutionError, SolutionModel};
use crate::text::{split, trim};

verus! {

/// What is wrong with a line of a solution file for `n` nodes, taken by
/// itself: a number that is too large, or an arc or a flow that there is
/// not. Nothing where the line can be carried out or is passed over.
pub open spec fn line_error(line: Seq<char>, n: int) -> Option<SolutionError> {
    match directive(trim(line)) {
        Err(e) => Some(e),
        Ok(d) => match carry_out(SolutionModel::empty(), d, n) {
            Err(e) => Some(e),
            Ok(_) => None,
        },
    }
}

/// The value that `lines` give the arc from `i` to `j`: that of the last arc
/// line for it, 0 where there is none.
pub open spec fn arc_written(lines: Seq<Seq<char>>, i: int, j: int) -> nat
    decreases lines.len(),
{
    if lines.len() == 0 {
        0
    } else {
        match directive(trim(lines.last())) {
            Ok(Directive::Arc { i: a, j: b, value }) => if a == i && b == j {
                value as nat
            } else {
                arc_written(lines.drop_last(), i, j)
            },
            _ => arc_written(lines.drop_last(), i, j),
        }
    }
}

/// The value that `lines` give the flow of commodity `k` from `i` to `j`:
/// that of the last flow line for it, 0 where there is none.
pub open spec fn flow_written(lines: Seq<Seq<char>>, k: int, i: int, j: int) -> nat
    decreases lines.len(),
{
    if lines.len() == 0 {
        0
    } else {
        match directive(trim(lines.last())) {
            Ok(Directive::Flow { k: c, i: a, j: b, value }) => if c == k && a == i && b == j {
                value as nat
            } else {
                flow_written(lines.drop_last(), k, i, j)
            },
            _ => flow_written(lines.drop_last(), k, i, j),
        }
    }
}

/// The objective that `lines` claim: that of the last objective line, 0
/// where there is none.
pub open spec fn objective_written(lines: Seq<Seq<char>>) -> nat
    decreases lines.len(),
{
    if lines.len() == 0 {
        0
    } else {
        match directive(trim(lines.last())) {
            Ok(Directive::Objective { value }) => value as nat,
            _ => objective_written(lines.drop_last()),
        }
    }
}

/// Whether `e` is the error of the first of `lines` that has one.
pub open spec fn is_first_line_error(lines: Seq<Seq<char>>, n: int, e: SolutionError) -> bool {
    exists|at: int|
        0 <= at < lines.len() && #[trigger] line_error(lines[at], n) == Some(e) && forall|
            before: int,
        |
            0 <= before < at ==> #[trigger] line_error(lines[before], n) is None
}

/// Whether `m` holds what `lines` give, none of which has an error.
pub open spec fn is_as_written(lines: Seq<Seq<char>>, n: int, m: SolutionModel) -> bool {
    &&& forall|at: int| 0 <= at < lines.len() ==> #[trigger] line_error(lines[at], n) is None
    &&& forall|i: int, j: int| #[trigger] m.arc(i, j) == arc_written(lines, i, j)
    &&& forall|k: int, i: int, j: int| #[trigger] m.flow(k, i, j) == flow_written(lines, k, i, j)
    &&& m.objective == objective_written(lines)
}

/// Whether `r` is what `lines` give as a whole: where no line has an error,
/// a solution in which every entry has the value of the last line that sets
/// it; otherwise the error of the first line that has one.
pub open spec fn is_solution_outcome(
    lines: Seq<Seq<char>>,
    n: int,
    r: Result<SolutionModel, SolutionError>,
) -> bool {
    match r {
        Ok(m) => is_as_written(lines, n, m),
        Err(e) => is_first_line_error(lines, n, e),
    }
}

/// Reading lines one after the other gives what the lines hold as a whole:
/// where no line has an error, every entry has the value of the last line
/// that sets it; otherwise the error is that of the first line that has one.
pub proof fn lemma_lines_as_written(lines: Seq<Seq<char>>, n: int)
    ensures
        is_solution_outcome(lines, n, read_lines(lines, n)),
    decreases lines.len(),
{
    if lines.len() > 0 {
        let front = lines.drop_last();
        lemma_lines_as_written(front, n);
        assert forall|at: int| 0 <= at < front.len() implies front[at] == lines[at] by {}
        match read_lines(front, n) {
            Err(e) => {
                let at = choose|at: int|
                    0 <= at < front.len() && #[trigger] line_error(front[at], n) == Some(e)
                        && forall|before: int|
                        0 <= before < at ==> #[trigger] line_error(front[before], n) is None;
                assert(line_error(lines[at], n) == Some(e));
                assert forall|before: int| 0 <= before < at implies #[trigger] line_error(
                    lines[before],
                    n,
                ) is None by {
                    assert(line_error(front[before], n) is None);
                }
            },
            Ok(m0) => {
                let last = lines.len() - 1;
                match read_lines(lines, n) {
                    Err(e) => {
                        assert(line_error(lines[last], n) == Some(e));
                        assert forall|before: int| 0 <= before < last implies #[trigger] line_error(
                            lines[before],
                            n,
                        ) is None by {
                            assert(line_error(front[before], n) is None);
                        }
                    },
                    Ok(m) => {
                        assert forall|at: int| 0 <= at < lines.len() implies #[trigger] line_error(
                            lines[at],
                            n,
                        ) is None by {
                            if at < last {
                                assert(line_error(front[at], n) is None);
                            }
                        }
                        assert forall|i: int, j: int| #[trigger]
                            m.arc(i, j) == arc_written(lines, i, j) by {
                            assert(m0.arc(i, j) == arc_written(front, i, j));
                        }
                        assert forall|k: int, i: int, j: int| #[trigger]
                            m.flow(k, i, j) == flow_written(lines, k, i, j) by {
                            assert(m0.flow(k, i, j) == flow_written(front, k, i, j));
                        }
                    },
                }
            },
        }
    }
}

/// A solution file gives every entry the value of the last line that sets
/// it, unless a line has an error; then it gives the error of the first line
/// that has one.
pub proof fn lemma_solution_as_written(text: Seq<char>, n: int)
    ensures
        is_solution_outcome(split(text, '\n'), n, solution_of(text, n)),
{
    lemma_lines_as_written(split(text, '\n'), n);
}

/// What is wrong with a line of a demand table for `n` nodes, taken by
/// itself: a bad entry or too few entries in a data row for one of the
/// nodes. Nothing where the line is such a row without fault or is passed
/// over.
pub open spec fn row_error(line: Seq<char>, n: int) -> Option<DemandError> {
    match row_label(trim(line), n) {
        None => None,
        Some(label) => match row_values(trim(line), n, label) {
            Err(e) => Some(e),
            Ok(_) => None,
        },
    }
}

/// How many of `lines` are data rows for node `k`.
pub open spec fn times_found(lines: Seq<Seq<char>>, n: int, k: int) -> nat
    decreases lines.len(),
{
    if lines.len() == 0 {
        0
    } else if row_label(trim(lines.last()), n) == Some(k) {
        times_found(lines.drop_last(), n, k) + 1
    } else {
        times_found(lines.drop_last(), n, k)
    }
}

/// How many of `lines` are data rows for one of the nodes `1..=n`.
pub open spec fn rows_found(lines: Seq<Seq<char>>, n: int) -> nat
    decreases lines.len(),
{
    if lines.len() == 0 {
        0
    } else if row_label(trim(lines.last()), n) is Some {
        rows_found(lines.drop_last(), n) + 1
    } else {
        rows_found(lines.drop_last(), n)
    }
}

/// The entries that `lines` give for node `k`: those of the last data row
/// for it; none where there is no such row or it cannot be read.
pub open spec fn row_written(lines: Seq<Seq<char>>, n: int, k: int) -> Seq<u32>
    decreases lines.len(),
{
    if lines.len() == 0 {
        Seq::empty()
    } else if row_label(trim(lines.last()), n) == Some(k) {
        match row_values(trim(lines.last()), n, k) {
            Ok(values) => values,
            Err(_) => Seq::empty(),
        }
    } else {
        row_written(lines.drop_last(), n, k)
    }
}

/// Whether `e` is the error of the first of `lines` that has one.
pub open spec fn is_first_row_error(lines: Seq<Seq<char>>, n: int, e: DemandError) -> bool {
    exists|at: int|
        0 <= at < lines.len() && #[trigger] row_error(lines[at], n) == Some(e) && forall|
            before: int,
        |
            0 <= before < at ==> #[trigger] row_error(lines[before], n) is None
}

/// Whether none of `lines` has an error.
pub open spec fn no_row_error(lines: Seq<Seq<char>>, n: int) -> bool {
    forall|at: int| 0 <= at < lines.len() ==> #[trigger] row_error(lines[at], n) is None
}

/// How often each node has a data row, by node.
pub open spec fn times_by_node(lines: Seq<Seq<char>>, n: int) -> spec_fn(int) -> nat {
    |k: int| times_found(lines, n, k)
}

/// Whether `table` holds what `lines` give, none of which has an error.
pub open spec fn is_table_of(lines: Seq<Seq<char>>, n: int, table: Table) -> bool {
    &&& no_row_error(lines, n)
    &&& table.rows == rows_found(lines, n)
    &&& table.rows == sum_to(times_by_node(lines, n), n)
    &&& forall|k: int| #[trigger] table.seen.contains(k) <==> times_found(lines, n, k) >= 1
    &&& forall|k: int|
        1 <= k <= n && times_found(lines, n, k) >= 1 ==> #[trigger] table.demand[k] == matrix_row(
            row_written(lines, n, k),
        )
}

/// One more line that can be read leaves nothing wrong where nothing was
/// wrong before.
proof fn lemma_still_no_error(front: Seq<Seq<char>>, line: Seq<char>, n: int)
    requires
        no_row_error(front, n),
        row_error(line, n) is None,
    ensures
        no_row_error(front.push(line), n),
{
    let lines = front.push(line);
    assert forall|at: int| 0 <= at < lines.len() implies #[trigger] row_error(lines[at], n)
        is None by {
        if at < front.len() {
            assert(row_error(front[at], n) is None);
        }
    }
}

/// One more line adds one to the rows of the node it is for, and nothing to
/// those of any other node.
proof fn lemma_times_added(front: Seq<Seq<char>>, line: Seq<char>, n: int)
    requires
        0 <= n,
    ensures
        sum_to(times_by_node(front.push(line), n), n) == sum_to(times_by_node(front, n), n) + (
        if row_label(trim(line), n) is Some {
            1int
        } else {
            0int
        }),
        rows_found(front.push(line), n) == rows_found(front, n) + (if row_label(trim(line), n)
            is Some {
            1int
        } else {
            0int
        }),
        forall|k: int| #[trigger]
            times_found(front.push(line), n, k) == times_found(front, n, k) + (if row_label(
                trim(line),
                n,
            ) == Some(k) {
                1int
            } else {
                0int
            }),
{
    let lines = front.push(line);
    assert(lines.drop_last() =~= front);
    assert(lines.last() == line);
    match row_label(trim(line), n) {
        None => {
            lemma_sum_same(times_by_node(lines, n), times_by_node(front, n), n);
        },
        Some(label) => {
            lemma_sum_one_more(times_by_node(lines, n), times_by_node(front, n), n, label);
        },
    }
}

/// One more line that can be read leaves the table what the lines give.
proof fn lemma_row_added(
    front: Seq<Seq<char>>,
    line: Seq<char>,
    n: int,
    before: Table,
    table: Table,
)
    requires
        0 <= n,
        is_table_of(front, n, before),
        is_table_matrix(before.demand, n),
        crate::demand::add_line(before, line, n) == Ok::<Table, DemandError>(table),
    ensures
        is_table_of(front.push(line), n, table),
{
    let lines = front.push(line);
    assert(lines.drop_last() =~= front);
    assert(lines.last() == line);
    lemma_still_no_error(front, line, n);
    lemma_times_added(front, line, n);
    match row_label(trim(line), n) {
        None => {
            assert forall|k: int|
                1 <= k <= n && times_found(lines, n, k) >= 1 implies #[trigger] table.demand[k]
                == matrix_row(row_written(lines, n, k)) by {
                assert(before.demand[k] == matrix_row(row_written(front, n, k)));
            }
        },
        Some(label) => {
            assert forall|k: int| #[trigger]
                table.seen.contains(k) <==> times_found(lines, n, k) >= 1 by {
                assert(before.seen.contains(k) <==> times_found(front, n, k) >= 1);
            }
            assert forall|k: int|
                1 <= k <= n && times_found(lines, n, k) >= 1 implies #[trigger] table.demand[k]
                == matrix_row(row_written(lines, n, k)) by {
                if k != label {
                    assert(before.demand[k] == matrix_row(row_written(front, n, k)));
                }
            }
        },
    }
}

/// Reading rows one after the other gathers what the lines hold as a whole,
/// or fails with the error of the first line that has one.
pub proof fn lemma_rows_as_written(lines: Seq<Seq<char>>, n: int)
    requires
        0 <= n,
    ensures
        match crate::demand::read_lines(lines, n) {
            Ok(table) => is_table_of(lines, n, table),
            Err(e) => is_first_row_error(lines, n, e),
        },
    decreases lines.len(),
{
    if lines.len() == 0 {
        assert(sum_to(times_by_node(lines, n), n) == 0) by {
            lemma_sum_same(times_by_node(lines, n), |k: int| 0nat, n);
            lemma_sum_zero(n);
        }
    } else {
        let front = lines.drop_last();
        let last = lines.len() - 1;
        lemma_rows_as_written(front, n);
        lemma_read_shape(front, n);
        assert(front.push(lines[last]) =~= lines);
        assert forall|at: int| 0 <= at < front.len() implies front[at] == lines[at] by {}
        match crate::demand::read_lines(front, n) {
            Err(e) => {
                let at = choose|at: int|
                    0 <= at < front.len() && #[trigger] row_error(front[at], n) == Some(e)
                        && forall|before: int|
                        0 <= before < at ==> #[trigger] row_error(front[before], n) is None;
                assert(row_error(lines[at], n) == Some(e));
                assert forall|before: int| 0 <= before < at implies #[trigger] row_error(
                    lines[before],
                    n,
                ) is None by {
                    assert(row_error(front[before], n) is None);
                }
            },
            Ok(before) => {
                match crate::demand::read_lines(lines, n) {
                    Err(e) => {
                        assert(row_error(lines[last], n) == Some(e));
                        assert forall|b: int| 0 <= b < last implies #[trigger] row_error(
                            lines[b],
                            n,
                        ) is None by {
                            assert(row_error(front[b], n) is None);
                        }
                    },
                    Ok(table) => {
                        lemma_row_added(front, lines[last], n, before, table);
                    },
                }
            },
        }
    }
}

/// A sum of zeros is zero.
proof fn lemma_sum_zero(n: int)
    ensures
        sum_to(|k: int| 0nat, n) == 0,
    decreases n,
{
    if n > 0 {
        lemma_sum_zero(n - 1);
    }
}

/// Where every one of the numbers `from..=n` is in `seen`, none is missing.
proof fn lemma_none_missing(seen: Set<int>, from: int, n: int)
    requires
        from <= n + 1,
    ensures
        first_missing(seen, from, n) > n <==> forall|k: int|
            from <= k <= n ==> #[trigger] seen.contains(k),
        from <= first_missing(seen, from, n) <= n + 1,
        first_missing(seen, from, n) <= n ==> !seen.contains(first_missing(seen, from, n)),
        forall|k: int| from <= k < first_missing(seen, from, n) ==> #[trigger] seen.contains(k),
    decreases n + 1 - from,
{
    if from <= n && seen.contains(from) {
        lemma_none_missing(seen, from + 1, n);
    }
}

/// Whether `r` is what `lines` give as a whole.
///
/// Where `r` is a matrix, no line has an error, every node has exactly one
/// data row, and the matrix holds in the node's row what that data row
/// gives. Where it is an error, the reason is one of these, in this order:
/// a line has an error, and the error named is that of the first such line;
/// or the number of data rows is not the number of nodes; or there are as
/// many, and the node named is the first that has none.
pub open spec fn is_table_outcome(
    lines: Seq<Seq<char>>,
    n: int,
    r: Result<Seq<Seq<u32>>, DemandError>,
) -> bool {
    match r {
        Ok(m) => {
            &&& no_row_error(lines, n)
            &&& forall|k: int| 1 <= k <= n ==> #[trigger] times_found(lines, n, k) == 1
            &&& forall|k: int|
                1 <= k <= n ==> #[trigger] m[k] == matrix_row(row_written(lines, n, k))
        },
        Err(DemandError::RowCount { found }) => {
            &&& no_row_error(lines, n)
            &&& found == rows_found(lines, n) as usize
            &&& rows_found(lines, n) != n
        },
        Err(DemandError::MissingRow { row }) => {
            &&& no_row_error(lines, n)
            &&& rows_found(lines, n) == n
            &&& 1 <= row <= n
            &&& times_found(lines, n, row as int) == 0
            &&& forall|k: int| 1 <= k < row ==> #[trigger] times_found(lines, n, k) >= 1
        },
        Err(e) => is_first_row_error(lines, n, e),
    }
}

/// A demand table gives what its lines hold as a whole.
pub proof fn lemma_table_as_written(text: Seq<char>, n: int)
    requires
        0 <= n <= usize::MAX,
    ensures
        is_table_outcome(split(text, '\n'), n, demand_table(text, n)),
{
    let lines = split(text, '\n');
    lemma_rows_as_written(lines, n);
    match crate::demand::read_lines(lines, n) {
        Err(e) => {
            let at = choose|at: int|
                0 <= at < lines.len() && #[trigger] row_error(lines[at], n) == Some(e)
                    && forall|before: int|
                    0 <= before < at ==> #[trigger] row_error(lines[before], n) is None;
            assert(!(e is RowCount) && !(e is MissingRow));
        },
        Ok(table) => {
            lemma_none_missing(table.seen, 1, n);
            lemma_read_shape(lines, n);
            if table.rows == n && first_missing(table.seen, 1, n) > n {
                assert forall|k: int| 1 <= k <= n implies #[trigger] times_by_node(lines, n)(k)
                    >= 1 by {
                    assert(table.seen.contains(k));
                }
                lemma_sum_of_ones(times_by_node(lines, n), n);
                assert forall|k: int| 1 <= k <= n implies #[trigger] times_found(lines, n, k)
                    == 1 by {
                    assert(times_by_node(lines, n)(k) == 1);
                }
            } else if table.rows == n {
                let row = first_missing(table.seen, 1, n);
                assert forall|k: int| 1 <= k < row implies #[trigger] times_found(lines, n, k)
                    >= 1 by {
                    assert(table.seen.contains(k));
                }
            }
        },
    }
}

} // verus!
