//! Reading the demand table.
//!
//! The table is text, one row to a line. A data row is a bar, the number of
//! the row, a bar, and the row's entries with commas between them; bars at
//! the end of the line are allowed:
//!
//! ```text
//! |3  | 0, 24, 43, 23, 21|
//! ```
//!
//! White space around a line, after the row number and around an entry does
//! not count. A line of any other shape, such as a header, is passed over, and
//! so is a row whose number is not one of `1..=n`. Of a row only the first `n`
//! entries are read. An entry is a decimal number up to `MAX_VALUE`, with or
//! without a sign, and not negative.

use vstd::prelude::*;
use vstd::slice::slice_subrange;
use crate::instance::{Instance, is_matrix, matrix_row, valid_size, zero_matrix};
use crate::reading::{is_table_outcome, lemma_table_as_written};
use crate::text::{
    Class, MAX_VALUE, decimal_value, is_digit, is_digit_char, number, parse_number, run_end, scan,
    split, split_at_char, strip_end, stripped_end, to_chars, trim, trimmed, views, lemma_run_end,
};

verus! {

/// Why a demand table could not be read.
#[derive(Clone, Copy, Debug, PartialEq, Eq, Structural)]
pub enum DemandError {
    /// The entry in this column of this row, among those that are read, is no
    /// number, is negative or is too large. Columns are counted from 1.
    Field { row: usize, column: usize },
    /// This row holds only `found` entries, fewer than there are nodes.
    ColumnCount { row: usize, found: usize },
    /// The table holds `found` data rows, not one for each node.
    RowCount { found: usize },
    /// There are as many data rows as nodes, but none for this node.
    MissingRow { row: usize },
}

/// Where the row number of a data row ends.
pub open spec fn label_end(t: Seq<char>) -> int {
    run_end(t, 1, Class::Digit)
}

/// Where the bar that closes the row number stands, if `t` is a data row.
pub open spec fn bar_at(t: Seq<char>) -> int {
    run_end(t, label_end(t), Class::Space)
}

/// Whether the trimmed line `t` has the shape of a data row: a bar, a digit
/// right behind it, and after the digits and any white space another bar.
pub open spec fn is_data_row(t: Seq<char>) -> bool {
    &&& t.len() >= 2
    &&& t[0] == '|'
    &&& is_digit(t[1])
    &&& bar_at(t) < t.len()
    &&& t[bar_at(t)] == '|'
}

/// The row number of the trimmed line `t`, if it is a data row for one of the
/// nodes `1..=n`.
pub open spec fn row_label(t: Seq<char>, n: int) -> Option<int> {
    let label = decimal_value(t.subrange(1, label_end(t)));
    if is_data_row(t) && 1 <= label <= n {
        Some(label as int)
    } else {
        None
    }
}

/// The entries of the data row `t` as they are written, all of them.
pub open spec fn row_fields(t: Seq<char>) -> Seq<Seq<char>> {
    split(trim(strip_end(t.skip(bar_at(t) + 1), Class::Only('|'))), ',')
}

/// The value of an entry, written as `f` without white space around it:
/// digits, or a sign and digits, that stand for a number from 0 to
/// `MAX_VALUE`. Nothing for any other text.
pub open spec fn field_value(f: Seq<char>) -> Option<nat> {
    if f.len() > 0 && f[0] == '-' {
        number(f.skip(1), 0)
    } else if f.len() > 0 && f[0] == '+' {
        number(f.skip(1), MAX_VALUE as nat)
    } else {
        number(f, MAX_VALUE as nat)
    }
}

/// The first of the entries `0..upto` that has no value, or `upto` where all
/// of them have one.
pub open spec fn first_bad_field(fields: Seq<Seq<char>>, upto: int) -> int
    decreases upto,
{
    if upto <= 0 {
        0
    } else if first_bad_field(fields, upto - 1) < upto - 1 {
        first_bad_field(fields, upto - 1)
    } else if field_value(trim(fields[upto - 1])) is None {
        upto - 1
    } else {
        upto
    }
}

/// What the data row `t` with number `label` gives for `n` nodes: its first
/// `n` entries, or the first thing that is wrong with them.
pub open spec fn row_values(t: Seq<char>, n: int, label: int) -> Result<Seq<u32>, DemandError> {
    let fields = row_fields(t);
    let read = if fields.len() < n {
        fields.len() as int
    } else {
        n
    };
    let bad = first_bad_field(fields, read);
    if bad < read {
        Err(DemandError::Field { row: label as usize, column: (bad + 1) as usize })
    } else if fields.len() < n {
        Err(DemandError::ColumnCount { row: label as usize, found: fields.len() as usize })
    } else {
        Ok(Seq::new(n as nat, |c: int| field_value(trim(fields[c])).unwrap() as u32))
    }
}

/// What has been gathered from the lines read so far.
pub struct Table {
    /// How many data rows were read.
    pub rows: nat,
    /// The matrix, with the rows read so far filled in.
    pub demand: Seq<Seq<u32>>,
    /// The numbers of the rows read so far.
    pub seen: Set<int>,
}

/// The table before any line is read.
pub open spec fn empty_table(n: int) -> Table {
    Table { rows: 0, demand: zero_matrix(n), seen: Set::empty() }
}

/// The table after one more line.
pub open spec fn add_line(table: Table, line: Seq<char>, n: int) -> Result<Table, DemandError> {
    let t = trim(line);
    match row_label(t, n) {
        None => Ok(table),
        Some(label) => match row_values(t, n, label) {
            Err(e) => Err(e),
            Ok(values) => Ok(
                Table {
                    rows: table.rows + 1,
                    demand: table.demand.update(label, matrix_row(values)),
                    seen: table.seen.insert(label),
                },
            ),
        },
    }
}

/// The table after all of `lines`, read in order, or what was wrong with the
/// first row that could not be read.
pub open spec fn read_lines(lines: Seq<Seq<char>>, n: int) -> Result<Table, DemandError>
    decreases lines.len(),
{
    if lines.len() == 0 {
        Ok(empty_table(n))
    } else {
        match read_lines(lines.drop_last(), n) {
            Err(e) => Err(e),
            Ok(table) => add_line(table, lines.last(), n),
        }
    }
}

/// The smallest of the numbers `from..=n` that is not in `seen`, or `n + 1`
/// where all of them are.
pub open spec fn first_missing(seen: Set<int>, from: int, n: int) -> int
    decreases n + 1 - from,
{
    if from <= n && seen.contains(from) {
        first_missing(seen, from + 1, n)
    } else {
        from
    }
}

/// The demand matrix that the text of a table gives for `n` nodes, or why it
/// gives none. The rows are read in order and reading stops at the first row
/// that cannot be read; after that there must be exactly `n` data rows, one
/// for each node.
pub open spec fn demand_table(text: Seq<char>, n: int) -> Result<Seq<Seq<u32>>, DemandError> {
    match read_lines(split(text, '\n'), n) {
        Err(e) => Err(e),
        Ok(table) => if table.rows != n {
            Err(DemandError::RowCount { found: table.rows as usize })
        } else if first_missing(table.seen, 1, n) <= n {
            Err(DemandError::MissingRow { row: first_missing(table.seen, 1, n) as usize })
        } else {
            Ok(table.demand)
        },
    }
}

/// Reads the row number of the trimmed line `t`. The answer holds the number
/// and the position behind the bar that closes it.
fn parse_label(t: &[char], n: usize) -> (r: Option<(usize, usize)>)
    requires
        valid_size(n as int),
    ensures
        match r {
            Some((label, at)) => row_label(t@, n as int) == Some(label as int) && at == bar_at(t@)
                + 1 && at <= t@.len(),
            None => row_label(t@, n as int) is None,
        },
{
    if t.len() < 2 || t[0] != '|' || !is_digit_char(t[1]) {
        return None;
    }
    let digits_end = scan(t, 1, Class::Digit);
    let bar = scan(t, digits_end, Class::Space);
    if bar >= t.len() || t[bar] != '|' {
        return None;
    }
    match parse_number(slice_subrange(t, 1, digits_end), n as u64) {
        Some(label) => {
            if label >= 1 {
                Some((label as usize, bar + 1))
            } else {
                None
            }
        },
        None => {
            proof {
                lemma_run_end(t@, 1, Class::Digit);
            }
            None
        },
    }
}

/// Reads one entry, written as `f` without white space around it.
fn parse_field(f: &[char]) -> (r: Option<u32>)
    ensures
        match r {
            Some(v) => field_value(f@) == Some(v as nat),
            None => field_value(f@) is None,
        },
{
    let parsed = if f.len() > 0 && f[0] == '-' {
        assert(f@.subrange(1, f@.len() as int) =~= f@.skip(1));
        parse_number(slice_subrange(f, 1, f.len()), 0)
    } else if f.len() > 0 && f[0] == '+' {
        assert(f@.subrange(1, f@.len() as int) =~= f@.skip(1));
        parse_number(slice_subrange(f, 1, f.len()), MAX_VALUE)
    } else {
        parse_number(f, MAX_VALUE)
    };
    match parsed {
        Some(v) => Some(v as u32),
        None => None,
    }
}

/// Reads the first `n` entries of the data row `t`, whose entries start at
/// position `at`.
fn parse_values(t: &[char], at: usize, n: usize, label: usize) -> (r: Result<Vec<u32>, DemandError>)
    requires
        valid_size(n as int),
        at == bar_at(t@) + 1,
        at <= t@.len(),
    ensures
        match r {
            Ok(values) => row_values(t@, n as int, label as int) == Ok::<Seq<u32>, DemandError>(
                values@,
            ),
            Err(e) => row_values(t@, n as int, label as int) == Err::<Seq<u32>, DemandError>(e),
        },
{
    assert(t@.subrange(at as int, t@.len() as int) =~= t@.skip(at as int));
    let body = trimmed(stripped_end(slice_subrange(t, at, t.len()), Class::Only('|')));
    let fields = split_at_char(body, ',');
    let ghost written = row_fields(t@);
    assert(written == views(fields@));
    let read = if fields.len() < n {
        fields.len()
    } else {
        n
    };
    let mut values: Vec<u32> = Vec::new();
    let mut c: usize = 0;
    while c < read
        invariant
            c <= read <= fields.len(),
            read <= n <= 24,
            read == n || read == fields.len(),
            written == views(fields@),
            written == row_fields(t@),
            first_bad_field(written, c as int) == c,
            values@.len() == c,
            forall|j: int|
                0 <= j < c ==> Some((#[trigger] values@[j]) as nat) == field_value(
                    trim(written[j]),
                ),
        decreases read - c,
    {
        let field = trimmed(fields[c]);
        assert(written[c as int] == fields@[c as int]@);
        match parse_field(field) {
            Some(v) => {
                values.push(v);
            },
            None => {
                assert(first_bad_field(written, c + 1) == c);
                proof {
                    lemma_first_bad_stays(written, c + 1, read as int);
                }
                return Err(DemandError::Field { row: label, column: c + 1 });
            },
        }
        c += 1;
    }
    if fields.len() < n {
        return Err(DemandError::ColumnCount { row: label, found: fields.len() });
    }
    assert(values@ =~= Seq::new(
        n as nat,
        |c: int| field_value(trim(written[c])).unwrap() as u32,
    ));
    Ok(values)
}

/// Once an entry without a value has been found, it stays the first one
/// however many more entries are looked at.
pub proof fn lemma_first_bad_stays(fields: Seq<Seq<char>>, found: int, upto: int)
    requires
        0 < found <= upto,
        first_bad_field(fields, found) < found,
    ensures
        first_bad_field(fields, upto) == first_bad_field(fields, found),
    decreases upto - found,
{
    if found < upto {
        lemma_first_bad_stays(fields, found, upto - 1);
    }
}

/// Once reading has failed, more lines change nothing.
pub proof fn lemma_failure_stays(lines: Seq<Seq<char>>, upto: int, n: int)
    requires
        0 <= upto <= lines.len(),
        read_lines(lines.take(upto), n) is Err,
    ensures
        read_lines(lines, n) == read_lines(lines.take(upto), n),
    decreases lines.len() - upto,
{
    if upto == lines.len() {
        assert(lines.take(upto) =~= lines);
    } else {
        assert(lines.take(upto + 1).drop_last() =~= lines.take(upto));
        lemma_failure_stays(lines, upto + 1, n);
    }
}

/// Whether `m` is a demand matrix for `n` nodes as a table gives it: of the
/// right shape, with nothing in the row and the column that are not used.
pub open spec fn is_table_matrix(m: Seq<Seq<u32>>, n: int) -> bool {
    &&& is_matrix(m, n)
    &&& forall|i: int| 0 <= i <= n ==> #[trigger] m[0][i] == 0
    &&& forall|k: int| 0 <= k <= n ==> (#[trigger] m[k])[0] == 0
}

/// Whatever lines are read, what is gathered is a demand matrix for `n`
/// nodes.
pub proof fn lemma_read_shape(lines: Seq<Seq<char>>, n: int)
    requires
        0 <= n,
    ensures
        read_lines(lines, n) matches Ok(table) ==> is_table_matrix(table.demand, n),
    decreases lines.len(),
{
    if lines.len() > 0 {
        lemma_read_shape(lines.drop_last(), n);
    }
}

/// A table that can be read gives a demand matrix for `n` nodes, with one
/// row for each node.
pub proof fn lemma_table_shape(text: Seq<char>, n: int)
    requires
        0 <= n,
    ensures
        demand_table(text, n) matches Ok(m) ==> is_table_matrix(m, n),
{
    lemma_read_shape(split(text, '\n'), n);
}

/// The numbers of the rows that are marked in `seen`.
pub open spec fn marked(seen: Seq<bool>) -> Set<int> {
    Set::new(|label: int| 0 <= label < seen.len() && seen[label])
}

/// Tells which of the nodes `1..=n` has no mark in `seen`: the first of them,
/// or `n + 1` where all are marked.
fn find_missing(seen: &Vec<bool>, n: usize) -> (missing: usize)
    requires
        valid_size(n as int),
        seen@.len() == n + 1,
    ensures
        missing == first_missing(marked(seen@), 1, n as int),
{
    let mut label: usize = 1;
    while label <= n && seen[label]
        invariant
            1 <= label <= n + 1,
            valid_size(n as int),
            seen@.len() == n + 1,
            first_missing(marked(seen@), 1, n as int) == first_missing(
                marked(seen@),
                label as int,
                n as int,
            ),
        decreases n + 1 - label,
    {
        label += 1;
    }
    label
}

/// Reads the demand table `text` for `n` nodes.
pub fn parse_demand(text: &str, n: usize) -> (r: Result<Instance, DemandError>)
    requires
        valid_size(n as int),
    ensures
        match r {
            Ok(inst) => inst.wf() && inst.size() == n && demand_table(text@, n as int) == Ok::<
                Seq<Seq<u32>>,
                DemandError,
            >(inst@) && is_table_matrix(inst@, n as int),
            Err(e) => demand_table(text@, n as int) == Err::<Seq<Seq<u32>>, DemandError>(e),
        },
        is_table_outcome(split(text@, '\n'), n as int, demand_table(text@, n as int)),
{
    proof {
        lemma_table_as_written(text@, n as int);
    }
    let chars = to_chars(text);
    let lines = split_at_char(chars.as_slice(), '\n');
    let ghost all = split(text@, '\n');
    let mut inst = Instance::new(n).unwrap();
    let mut seen: Vec<bool> = vec![false; n + 1];
    let mut rows: usize = 0;
    let mut at: usize = 0;
    assert(all.take(0) =~= Seq::empty());
    assert(marked(seen@) =~= Set::empty());
    while at < lines.len()
        invariant
            at <= lines.len(),
            rows <= at,
            valid_size(n as int),
            views(lines@) == all,
            all == split(text@, '\n'),
            is_table_outcome(all, n as int, demand_table(text@, n as int)),
            inst.wf(),
            inst.size() == n,
            seen@.len() == n + 1,
            read_lines(all.take(at as int), n as int) == Ok::<Table, DemandError>(
                Table { rows: rows as nat, demand: inst@, seen: marked(seen@) },
            ),
        decreases lines.len() - at,
    {
        let t = trimmed(lines[at]);
        proof {
            assert(all.take(at + 1).drop_last() =~= all.take(at as int));
            assert(all.take(at + 1).last() == lines@[at as int]@);
        }
        match parse_label(t, n) {
            None => {},
            Some((label, behind)) => match parse_values(t, behind, n, label) {
                Err(e) => {
                    proof {
                        lemma_failure_stays(all, at + 1, n as int);
                    }
                    return Err(e);
                },
                Ok(values) => {
                    let ghost before = marked(seen@);
                    inst.set_row(label, &values);
                    seen.set(label, true);
                    rows += 1;
                    assert(marked(seen@) =~= before.insert(label as int));
                },
            },
        }
        at += 1;
    }
    assert(all.take(at as int) =~= all);
    if rows != n {
        return Err(DemandError::RowCount { found: rows });
    }
    let missing = find_missing(&seen, n);
    if missing <= n {
        return Err(DemandError::MissingRow { row: missing });
    }
    proof {
        lemma_table_shape(text@, n as int);
    }
    Ok(inst)
}

} // verus!
