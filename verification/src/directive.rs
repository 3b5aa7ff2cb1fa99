//! Reading a solution file.
//!
//! The file is text, one directive to a line, with white space around a line
//! left out of account:
//!
//! ```text
//! z 3000
//! x#1#2 1
//! f#3#1#2 500
//! ```
//!
//! `z` sets the claimed objective, `x#i#j` the selection of the arc from `i`
//! to `j`, and `f#k#i#j` the flow of commodity `k` over that arc. Every number
//! is a string of decimal digits, and the value is set off by white space. A
//! line of any other shape, such as a blank line or a comment that starts
//! with `#`, is passed over. A later line overrides an earlier one for the
//! same variable.

use vstd::prelude::*;
use vstd::slice::slice_subrange;
use crate::instance::valid_size;
use crate::reading::{is_solution_outcome, lemma_solution_as_written};
use crate::solution::{
    Solution, SolutionError, SolutionModel, Variable, arc_index_ok, flow_index_ok,
};
use crate::text::{
    Class, MAX_VALUE, number, parse_number, run_end, scan, split, split_at_char, to_chars, trim,
    trimmed, views,
};

verus! {

/// The largest number that an index in a file may be.
pub const MAX_INDEX: u64 = 0xffff_ffff_ffff_ffff;

/// What one line of a solution file asks for.
#[derive(Clone, Copy, Debug, PartialEq, Eq, Structural)]
pub enum Directive {
    /// Nothing: the line is none of the three kinds.
    Skip,
    /// Set the claimed objective.
    Objective { value: u32 },
    /// Set the selection of the arc from `i` to `j`.
    Arc { i: u64, j: u64, value: u32 },
    /// Set the flow of commodity `k` from `i` to `j`.
    Flow { k: u64, i: u64, j: u64, value: u32 },
}

/// Where the value of the trimmed line `t` starts and ends, if the line's
/// indices end at `from` and a value and nothing else follows them: white
/// space, then digits up to the end of the line.
pub open spec fn value_span(t: Seq<char>, from: int) -> Option<(int, int)> {
    let start = run_end(t, from, Class::Space);
    let end = run_end(t, start, Class::Digit);
    if from < start < end && end == t.len() {
        Some((start, end))
    } else {
        None
    }
}

/// The digits of the value, if the trimmed line `t` has the shape of an
/// objective line: `z`, white space, digits.
pub open spec fn objective_shape(t: Seq<char>) -> Option<Seq<char>> {
    if t.len() >= 1 && t[0] == 'z' {
        match value_span(t, 1) {
            Some((start, end)) => Some(t.subrange(start, end)),
            None => None,
        }
    } else {
        None
    }
}

/// Where an index of the trimmed line `t` ends, if one starts at `from`:
/// behind its digits, of which there is at least one.
pub open spec fn index_end(t: Seq<char>, from: int) -> Option<int> {
    let end = run_end(t, from, Class::Digit);
    if from < end {
        Some(end)
    } else {
        None
    }
}

/// Whether an index of the trimmed line `t` ends at `end` and another one
/// follows: there is a `#` at `end`.
pub open spec fn joined_at(t: Seq<char>, end: int) -> bool {
    0 <= end < t.len() && t[end] == '#'
}

/// The digits of `i`, of `j` and of the value, if the trimmed line `t` has
/// the shape of an arc line: `x#`, digits, `#`, digits, white space, digits.
pub open spec fn arc_shape(t: Seq<char>) -> Option<(Seq<char>, Seq<char>, Seq<char>)> {
    if t.len() >= 2 && t[0] == 'x' && t[1] == '#' {
        match index_end(t, 2) {
            Some(a) => if joined_at(t, a) {
                match index_end(t, a + 1) {
                    Some(b) => match value_span(t, b) {
                        Some((start, end)) => Some(
                            (t.subrange(2, a), t.subrange(a + 1, b), t.subrange(start, end)),
                        ),
                        None => None,
                    },
                    None => None,
                }
            } else {
                None
            },
            None => None,
        }
    } else {
        None
    }
}

/// The digits of `k`, of `i`, of `j` and of the value, if the trimmed line
/// `t` has the shape of a flow line: `f#`, digits, `#`, digits, `#`, digits,
/// white space, digits.
pub open spec fn flow_shape(t: Seq<char>) -> Option<
    (Seq<char>, Seq<char>, Seq<char>, Seq<char>),
> {
    if t.len() >= 2 && t[0] == 'f' && t[1] == '#' {
        match index_end(t, 2) {
            Some(a) => if joined_at(t, a) {
                match index_end(t, a + 1) {
                    Some(b) => if joined_at(t, b) {
                        match index_end(t, b + 1) {
                            Some(c) => match value_span(t, c) {
                                Some((start, end)) => Some(
                                    (
                                        t.subrange(2, a),
                                        t.subrange(a + 1, b),
                                        t.subrange(b + 1, c),
                                        t.subrange(start, end),
                                    ),
                                ),
                                None => None,
                            },
                            None => None,
                        }
                    } else {
                        None
                    },
                    None => None,
                }
            } else {
                None
            },
            None => None,
        }
    } else {
        None
    }
}

/// What the trimmed line `t` asks for. The three shapes are tried in the
/// order objective, arc, flow. A line of one of the shapes with a number that
/// is too large is an error: an index may be up to `MAX_INDEX`, a value up to
/// `MAX_VALUE`.
pub open spec fn directive(t: Seq<char>) -> Result<Directive, SolutionError> {
    if let Some(digits) = objective_shape(t) {
        match number(digits, MAX_VALUE as nat) {
            Some(value) => Ok(Directive::Objective { value: value as u32 }),
            None => Err(SolutionError::TooLarge(Variable::Objective)),
        }
    } else if let Some((di, dj, dv)) = arc_shape(t) {
        match (number(di, MAX_INDEX as nat), number(dj, MAX_INDEX as nat), number(dv, MAX_VALUE as nat)) {
            (Some(i), Some(j), Some(value)) => Ok(
                Directive::Arc { i: i as u64, j: j as u64, value: value as u32 },
            ),
            _ => Err(SolutionError::TooLarge(Variable::Arc)),
        }
    } else if let Some((dk, di, dj, dv)) = flow_shape(t) {
        match (
            number(dk, MAX_INDEX as nat),
            number(di, MAX_INDEX as nat),
            number(dj, MAX_INDEX as nat),
            number(dv, MAX_VALUE as nat),
        ) {
            (Some(k), Some(i), Some(j), Some(value)) => Ok(
                Directive::Flow { k: k as u64, i: i as u64, j: j as u64, value: value as u32 },
            ),
            _ => Err(SolutionError::TooLarge(Variable::Flow)),
        }
    } else {
        Ok(Directive::Skip)
    }
}

/// The solution after `d` has been carried out for a problem of `n` nodes,
/// or the error where `d` names an arc or a flow that there is not.
pub open spec fn carry_out(m: SolutionModel, d: Directive, n: int) -> Result<
    SolutionModel,
    SolutionError,
> {
    match d {
        Directive::Skip => Ok(m),
        Directive::Objective { value } => Ok(m.with_objective(value)),
        Directive::Arc { i, j, value } => if arc_index_ok(i as int, j as int, n) {
            Ok(m.with_arc(i as int, j as int, value))
        } else {
            Err(SolutionError::ArcIndex { i, j })
        },
        Directive::Flow { k, i, j, value } => if flow_index_ok(k as int, i as int, j as int, n) {
            Ok(m.with_flow(k as int, i as int, j as int, value))
        } else {
            Err(SolutionError::FlowIndex { k, i, j })
        },
    }
}

/// The solution after one more line.
pub open spec fn add_line(m: SolutionModel, line: Seq<char>, n: int) -> Result<
    SolutionModel,
    SolutionError,
> {
    match directive(trim(line)) {
        Ok(d) => carry_out(m, d, n),
        Err(e) => Err(e),
    }
}

/// The solution after all of `lines`, read in order, or the error of the
/// first line that has one.
pub open spec fn read_lines(lines: Seq<Seq<char>>, n: int) -> Result<SolutionModel, SolutionError>
    decreases lines.len(),
{
    if lines.len() == 0 {
        Ok(SolutionModel::empty())
    } else {
        match read_lines(lines.drop_last(), n) {
            Ok(m) => add_line(m, lines.last(), n),
            Err(e) => Err(e),
        }
    }
}

/// The solution that the text of a solution file gives for a problem of `n`
/// nodes, or why it gives none.
pub open spec fn solution_of(text: Seq<char>, n: int) -> Result<SolutionModel, SolutionError> {
    read_lines(split(text, '\n'), n)
}

/// Finds the value of the trimmed line `t` behind the indices that end at
/// `from`.
fn find_value(t: &[char], from: usize) -> (r: Option<(usize, usize)>)
    requires
        from <= t.len(),
    ensures
        match r {
            Some((start, end)) => value_span(t@, from as int) == Some((start as int, end as int))
                && from < start < end && end == t.len(),
            None => value_span(t@, from as int) is None,
        },
{
    let start = scan(t, from, Class::Space);
    let end = scan(t, start, Class::Digit);
    if from < start && start < end && end == t.len() {
        Some((start, end))
    } else {
        None
    }
}

/// Finds the end of the index of the trimmed line `t` that starts at `from`.
fn find_index(t: &[char], from: usize) -> (r: Option<usize>)
    requires
        from <= t.len(),
    ensures
        match r {
            Some(end) => index_end(t@, from as int) == Some(end as int) && from < end <= t.len(),
            None => index_end(t@, from as int) is None,
        },
{
    let end = scan(t, from, Class::Digit);
    if from < end {
        Some(end)
    } else {
        None
    }
}

/// Tells whether there is a `#` at `end`.
fn is_joined(t: &[char], end: usize) -> (b: bool)
    ensures
        b == joined_at(t@, end as int),
{
    end < t.len() && t[end] == '#'
}

/// Reads the part of `t` from `from` to `to` as an index.
fn read_index(t: &[char], from: usize, to: usize) -> (r: Option<u64>)
    requires
        from <= to <= t.len(),
    ensures
        match r {
            Some(v) => number(t@.subrange(from as int, to as int), MAX_INDEX as nat) == Some(
                v as nat,
            ),
            None => number(t@.subrange(from as int, to as int), MAX_INDEX as nat) is None,
        },
{
    parse_number(slice_subrange(t, from, to), MAX_INDEX)
}

/// Reads the part of `t` from `from` to `to` as a value.
fn read_value(t: &[char], from: usize, to: usize) -> (r: Option<u32>)
    requires
        from <= to <= t.len(),
    ensures
        match r {
            Some(v) => number(t@.subrange(from as int, to as int), MAX_VALUE as nat) == Some(
                v as nat,
            ),
            None => number(t@.subrange(from as int, to as int), MAX_VALUE as nat) is None,
        },
{
    match parse_number(slice_subrange(t, from, to), MAX_VALUE) {
        Some(v) => Some(v as u32),
        None => None,
    }
}

/// Reads an objective line.
fn read_objective(t: &[char]) -> (r: Option<Result<Directive, SolutionError>>)
    ensures
        r is Some <==> objective_shape(t@) is Some,
        r matches Some(d) ==> d == directive(t@),
{
    if t.len() < 1 || t[0] != 'z' {
        return None;
    }
    match find_value(t, 1) {
        None => None,
        Some((start, end)) => match read_value(t, start, end) {
            Some(value) => Some(Ok(Directive::Objective { value })),
            None => Some(Err(SolutionError::TooLarge(Variable::Objective))),
        },
    }
}

/// Reads an arc line.
fn read_arc(t: &[char]) -> (r: Option<Result<Directive, SolutionError>>)
    ensures
        r is Some <==> arc_shape(t@) is Some,
        r matches Some(d) ==> objective_shape(t@) is None ==> d == directive(t@),
{
    if t.len() < 2 || t[0] != 'x' || t[1] != '#' {
        return None;
    }
    let a = match find_index(t, 2) {
        Some(a) => a,
        None => { return None; },
    };
    if !is_joined(t, a) {
        return None;
    }
    let b = match find_index(t, a + 1) {
        Some(b) => b,
        None => { return None; },
    };
    let (start, end) = match find_value(t, b) {
        Some(span) => span,
        None => { return None; },
    };
    let i = read_index(t, 2, a);
    let j = read_index(t, a + 1, b);
    let value = read_value(t, start, end);
    match (i, j, value) {
        (Some(i), Some(j), Some(value)) => Some(Ok(Directive::Arc { i, j, value })),
        _ => Some(Err(SolutionError::TooLarge(Variable::Arc))),
    }
}

/// Reads a flow line.
fn read_flow(t: &[char]) -> (r: Option<Result<Directive, SolutionError>>)
    ensures
        r is Some <==> flow_shape(t@) is Some,
        r matches Some(d) ==> objective_shape(t@) is None ==> arc_shape(t@) is None ==> d
            == directive(t@),
{
    if t.len() < 2 || t[0] != 'f' || t[1] != '#' {
        return None;
    }
    let a = match find_index(t, 2) {
        Some(a) => a,
        None => { return None; },
    };
    if !is_joined(t, a) {
        return None;
    }
    let b = match find_index(t, a + 1) {
        Some(b) => b,
        None => { return None; },
    };
    if !is_joined(t, b) {
        return None;
    }
    let c = match find_index(t, b + 1) {
        Some(c) => c,
        None => { return None; },
    };
    let (start, end) = match find_value(t, c) {
        Some(span) => span,
        None => { return None; },
    };
    let k = read_index(t, 2, a);
    let i = read_index(t, a + 1, b);
    let j = read_index(t, b + 1, c);
    let value = read_value(t, start, end);
    match (k, i, j, value) {
        (Some(k), Some(i), Some(j), Some(value)) => Some(Ok(Directive::Flow { k, i, j, value })),
        _ => Some(Err(SolutionError::TooLarge(Variable::Flow))),
    }
}

/// Reads one line of a solution file, without the white space around it.
pub fn parse_line(t: &[char]) -> (r: Result<Directive, SolutionError>)
    ensures
        r == directive(t@),
{
    if let Some(d) = read_objective(t) {
        return d;
    }
    if let Some(d) = read_arc(t) {
        return d;
    }
    if let Some(d) = read_flow(t) {
        return d;
    }
    Ok(Directive::Skip)
}

/// Carries out a directive on `solution`, for a problem of `n` nodes. Where
/// the directive names an arc or a flow that there is not, nothing changes.
pub fn apply(solution: &mut Solution, d: Directive, n: usize) -> (r: Result<(), SolutionError>)
    requires
        valid_size(n as int),
    ensures
        match r {
            Ok(()) => carry_out(old(solution)@, d, n as int) == Ok::<SolutionModel, SolutionError>(
                final(solution)@,
            ),
            Err(e) => carry_out(old(solution)@, d, n as int) == Err::<SolutionModel, SolutionError>(
                e,
            ) && final(solution)@ == old(solution)@,
        },
{
    match d {
        Directive::Skip => Ok(()),
        Directive::Objective { value } => {
            solution.set_objective(value);
            Ok(())
        },
        Directive::Arc { i, j, value } => solution.set_arc(n, i, j, value),
        Directive::Flow { k, i, j, value } => solution.set_flow(n, k, i, j, value),
    }
}

/// Once reading has failed, more lines change nothing.
pub proof fn lemma_failure_stays(lines: Seq<Seq<char>>, upto: int, n: int)
    requires
        0 <= upto <= lines.len(),
        read_lines(lines.take(upto), n) is Err,
    ensures
        read_lines(lines, n) == read_lines(lines.take(upto), n),
    decreases lines.len() - upto,
{
    if upto == lines.len() {
        assert(lines.take(upto) =~= lines);
    } else {
        assert(lines.take(upto + 1).drop_last() =~= lines.take(upto));
        lemma_failure_stays(lines, upto + 1, n);
    }
}

/// Whatever is read belongs to the problem: the solution that a file gives
/// for `n` nodes holds arcs and flows between those nodes only.
pub proof fn lemma_read_fits(lines: Seq<Seq<char>>, n: int)
    ensures
        read_lines(lines, n) matches Ok(m) ==> m.fits(n),
    decreases lines.len(),
{
    if lines.len() > 0 {
        lemma_read_fits(lines.drop_last(), n);
    }
}

/// Reads the solution file `text` for a problem of `n` nodes.
pub fn parse_solution(text: &str, n: usize) -> (r: Result<Solution, SolutionError>)
    requires
        valid_size(n as int),
    ensures
        match r {
            Ok(solution) => solution_of(text@, n as int) == Ok::<SolutionModel, SolutionError>(
                solution@,
            ) && solution@.fits(n as int),
            Err(e) => solution_of(text@, n as int) == Err::<SolutionModel, SolutionError>(e),
        },
        is_solution_outcome(split(text@, '\n'), n as int, solution_of(text@, n as int)),
{
    proof {
        lemma_solution_as_written(text@, n as int);
    }
    let chars = to_chars(text);
    let lines = split_at_char(chars.as_slice(), '\n');
    let ghost all = split(text@, '\n');
    let mut solution = Solution::new();
    let mut at: usize = 0;
    assert(all.take(0) =~= Seq::empty());
    while at < lines.len()
        invariant
            at <= lines.len(),
            valid_size(n as int),
            views(lines@) == all,
            all == split(text@, '\n'),
            is_solution_outcome(all, n as int, solution_of(text@, n as int)),
            read_lines(all.take(at as int), n as int) == Ok::<SolutionModel, SolutionError>(
                solution@,
            ),
        decreases lines.len() - at,
    {
        proof {
            assert(all.take(at + 1).drop_last() =~= all.take(at as int));
            assert(all.take(at + 1).last() == lines@[at as int]@);
        }
        let step = match parse_line(trimmed(lines[at])) {
            Ok(d) => apply(&mut solution, d, n),
            Err(e) => Err(e),
        };
        if let Err(e) = step {
            proof {
                lemma_failure_stays(all, at + 1, n as int);
            }
            return Err(e);
        }
        at += 1;
    }
    assert(all.take(at as int) =~= all);
    proof {
        lemma_read_fits(all, n as int);
    }
    Ok(solution)
}

} // verus!
