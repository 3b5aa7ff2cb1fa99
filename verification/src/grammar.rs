//! The lines that the readers take, written out as grammars, and the proof
//! that the readers take exactly those.
//!
//! A number is one or more decimal digits and a gap is one or more white
//! space characters. Then, without the white space around a line,
//!
//! ```text
//! objective line:  z  gap  number
//! arc line:        x# number # number  gap  number
//! flow line:       f# number # number # number  gap  number
//! data row:        |  number  white space, if any  |  anything
//! ```

use vstd::prelude::*;
use crate::demand::{bar_at, is_data_row, label_end};
use crate::directive::{arc_shape, flow_shape, index_end, objective_shape, value_span};
use crate::text::{Class, all_in, is_digit, is_space, lemma_run_end, lemma_run_end_unique, run_end};

verus! {

/// One or more decimal digits.
pub open spec fn is_number(d: Seq<char>) -> bool {
    d.len() > 0 && all_in(d, Class::Digit)
}

/// One or more white space characters.
pub open spec fn is_gap(g: Seq<char>) -> bool {
    g.len() > 0 && all_in(g, Class::Space)
}

/// The objective line with the value `v` behind the gap `gap`.
pub open spec fn objective_line(gap: Seq<char>, v: Seq<char>) -> Seq<char> {
    seq!['z'] + gap + v
}

/// The arc line with the indices `i` and `j` and the value `v` behind the
/// gap `gap`.
pub open spec fn arc_line(i: Seq<char>, j: Seq<char>, gap: Seq<char>, v: Seq<char>) -> Seq<char> {
    seq!['x', '#'] + i + seq!['#'] + j + gap + v
}

/// The flow line with the indices `k`, `i` and `j` and the value `v` behind
/// the gap `gap`.
pub open spec fn flow_line(
    k: Seq<char>,
    i: Seq<char>,
    j: Seq<char>,
    gap: Seq<char>,
    v: Seq<char>,
) -> Seq<char> {
    seq!['f', '#'] + k + seq!['#'] + i + seq!['#'] + j + gap + v
}

/// The data row with the number `label`, the white space `pad` behind it,
/// and `rest` behind the second bar.
pub open spec fn data_row(label: Seq<char>, pad: Seq<char>, rest: Seq<char>) -> Seq<char> {
    seq!['|'] + label + pad + seq!['|'] + rest
}

/// A run over `body`, which stands in `t` from `from` on and is followed by
/// the end of `t` or by a character outside the class, ends behind `body`.
proof fn lemma_run_over(t: Seq<char>, from: int, body: Seq<char>, class: Class)
    requires
        0 <= from,
        from + body.len() <= t.len(),
        t.subrange(from, from + body.len()) == body,
        all_in(body, class),
        from + body.len() < t.len() ==> !class.holds(t[from + body.len()]),
    ensures
        run_end(t, from, class) == from + body.len(),
{
    lemma_run_end_unique(t, from, from + body.len(), class);
}

/// No character is both a digit and white space.
proof fn lemma_classes_apart(c: char)
    ensures
        !(is_digit(c) && is_space(c)),
{
}

/// A value that follows indices is found where it was written.
proof fn lemma_value_found(t: Seq<char>, from: int, gap: Seq<char>, v: Seq<char>)
    requires
        0 <= from,
        is_gap(gap),
        is_number(v),
        t.len() == from + gap.len() + v.len(),
        t.subrange(from, from + gap.len()) == gap,
        t.subrange(from + gap.len(), t.len() as int) == v,
    ensures
        value_span(t, from) == Some((from + gap.len(), t.len() as int)),
{
    let start: int = from + gap.len();
    assert(t[start] == v[0]);
    lemma_classes_apart(v[0]);
    lemma_run_over(t, from, gap, Class::Space);
    lemma_run_over(t, start, v, Class::Digit);
}

/// Where a value was found, a gap and a number are written.
proof fn lemma_value_written(t: Seq<char>, from: int)
    requires
        0 <= from <= t.len(),
        value_span(t, from) is Some,
    ensures
        ({
            let (start, end) = value_span(t, from).unwrap();
            &&& from < start < end == t.len()
            &&& is_gap(t.subrange(from, start))
            &&& is_number(t.subrange(start, end))
        }),
{
    lemma_run_end(t, from, Class::Space);
    lemma_run_end(t, run_end(t, from, Class::Space), Class::Digit);
}

/// An index that is followed by something other than a digit is found where
/// it was written.
proof fn lemma_index_found(t: Seq<char>, from: int, d: Seq<char>)
    requires
        0 <= from,
        is_number(d),
        from + d.len() < t.len(),
        t.subrange(from, from + d.len()) == d,
        !is_digit(t[from + d.len()]),
    ensures
        index_end(t, from) == Some(from + d.len()),
{
    lemma_run_over(t, from, d, Class::Digit);
}

/// Where an index was found, a number is written.
proof fn lemma_index_written(t: Seq<char>, from: int)
    requires
        0 <= from <= t.len(),
        index_end(t, from) is Some,
    ensures
        from < index_end(t, from).unwrap() <= t.len(),
        is_number(t.subrange(from, index_end(t, from).unwrap())),
{
    lemma_run_end(t, from, Class::Digit);
}

/// Every objective line is read, and gives the value that was written.
pub proof fn lemma_objective_line_read(gap: Seq<char>, v: Seq<char>)
    requires
        is_gap(gap),
        is_number(v),
    ensures
        objective_shape(objective_line(gap, v)) == Some(v),
{
    let t = objective_line(gap, v);
    let start: int = gap.len() as int + 1;
    assert(t.subrange(1, start) =~= gap);
    assert(t.subrange(start, t.len() as int) =~= v);
    lemma_value_found(t, 1, gap, v);
}

/// What is read as an objective line is one.
pub proof fn lemma_objective_shape_written(t: Seq<char>)
    requires
        objective_shape(t) is Some,
    ensures
        ({
            let v = objective_shape(t).unwrap();
            &&& is_number(v)
            &&& exists|gap: Seq<char>| is_gap(gap) && t == #[trigger] objective_line(gap, v)
        }),
{
    lemma_value_written(t, 1);
    let (start, end) = value_span(t, 1).unwrap();
    let gap = t.subrange(1, start);
    assert(t =~= objective_line(gap, t.subrange(start, end)));
}

/// Every arc line is read, and gives the indices and the value that were
/// written.
pub proof fn lemma_arc_line_read(i: Seq<char>, j: Seq<char>, gap: Seq<char>, v: Seq<char>)
    requires
        is_number(i),
        is_number(j),
        is_gap(gap),
        is_number(v),
    ensures
        arc_shape(arc_line(i, j, gap, v)) == Some((i, j, v)),
{
    let t = arc_line(i, j, gap, v);
    let a: int = i.len() as int + 2;
    let b: int = a + 1 + j.len();
    let start: int = b + gap.len();
    assert(t.subrange(2, a) =~= i);
    assert(t.subrange(a + 1, b) =~= j);
    assert(t.subrange(b, start) =~= gap);
    assert(t.subrange(start, t.len() as int) =~= v);
    assert(t[a] == '#');
    assert(t[b] == gap[0]);
    lemma_classes_apart(gap[0]);
    lemma_index_found(t, 2, i);
    lemma_index_found(t, a + 1, j);
    lemma_value_found(t, b, gap, v);
}

/// What is read as an arc line is one.
pub proof fn lemma_arc_shape_written(t: Seq<char>)
    requires
        arc_shape(t) is Some,
    ensures
        ({
            let (i, j, v) = arc_shape(t).unwrap();
            &&& is_number(i)
            &&& is_number(j)
            &&& is_number(v)
            &&& exists|gap: Seq<char>| is_gap(gap) && t == #[trigger] arc_line(i, j, gap, v)
        }),
{
    lemma_index_written(t, 2);
    let a = index_end(t, 2).unwrap();
    lemma_index_written(t, a + 1);
    let b = index_end(t, a + 1).unwrap();
    lemma_value_written(t, b);
    let (start, end) = value_span(t, b).unwrap();
    let gap = t.subrange(b, start);
    assert(t =~= arc_line(t.subrange(2, a), t.subrange(a + 1, b), gap, t.subrange(start, end)));
}

/// Every flow line is read, and gives the indices and the value that were
/// written.
pub proof fn lemma_flow_line_read(
    k: Seq<char>,
    i: Seq<char>,
    j: Seq<char>,
    gap: Seq<char>,
    v: Seq<char>,
)
    requires
        is_number(k),
        is_number(i),
        is_number(j),
        is_gap(gap),
        is_number(v),
    ensures
        flow_shape(flow_line(k, i, j, gap, v)) == Some((k, i, j, v)),
{
    let t = flow_line(k, i, j, gap, v);
    let a: int = k.len() as int + 2;
    let b: int = a + 1 + i.len();
    let c: int = b + 1 + j.len();
    let start: int = c + gap.len();
    assert(t.subrange(2, a) =~= k);
    assert(t.subrange(a + 1, b) =~= i);
    assert(t.subrange(b + 1, c) =~= j);
    assert(t.subrange(c, start) =~= gap);
    assert(t.subrange(start, t.len() as int) =~= v);
    assert(t[a] == '#');
    assert(t[b] == '#');
    assert(t[c] == gap[0]);
    lemma_classes_apart(gap[0]);
    lemma_index_found(t, 2, k);
    lemma_index_found(t, a + 1, i);
    lemma_index_found(t, b + 1, j);
    lemma_value_found(t, c, gap, v);
}

/// What is read as a flow line is one.
pub proof fn lemma_flow_shape_written(t: Seq<char>)
    requires
        flow_shape(t) is Some,
    ensures
        ({
            let (k, i, j, v) = flow_shape(t).unwrap();
            &&& is_number(k)
            &&& is_number(i)
            &&& is_number(j)
            &&& is_number(v)
            &&& exists|gap: Seq<char>| is_gap(gap) && t == #[trigger] flow_line(k, i, j, gap, v)
        }),
{
    lemma_index_written(t, 2);
    let a = index_end(t, 2).unwrap();
    lemma_index_written(t, a + 1);
    let b = index_end(t, a + 1).unwrap();
    lemma_index_written(t, b + 1);
    let c = index_end(t, b + 1).unwrap();
    lemma_value_written(t, c);
    let (start, end) = value_span(t, c).unwrap();
    let gap = t.subrange(c, start);
    assert(t =~= flow_line(
        t.subrange(2, a),
        t.subrange(a + 1, b),
        t.subrange(b + 1, c),
        gap,
        t.subrange(start, end),
    ));
}

/// No line is of two kinds: the three shapes of a solution file exclude one
/// another.
pub proof fn lemma_shapes_apart(t: Seq<char>)
    ensures
        !(objective_shape(t) is Some && arc_shape(t) is Some),
        !(objective_shape(t) is Some && flow_shape(t) is Some),
        !(arc_shape(t) is Some && flow_shape(t) is Some),
{
}

/// Every data row is taken for one, and its number is found where it was
/// written.
pub proof fn lemma_data_row_read(label: Seq<char>, pad: Seq<char>, rest: Seq<char>)
    requires
        is_number(label),
        all_in(pad, Class::Space),
    ensures
        is_data_row(data_row(label, pad, rest)),
        data_row(label, pad, rest).subrange(1, label_end(data_row(label, pad, rest))) == label,
        data_row(label, pad, rest).skip(bar_at(data_row(label, pad, rest)) + 1) == rest,
{
    let t = data_row(label, pad, rest);
    let a: int = label.len() as int + 1;
    let b: int = a + pad.len();
    assert(t.subrange(1, a) =~= label);
    assert(t.subrange(a, b) =~= pad);
    assert(t[b] == '|');
    assert(t[1] == label[0]);
    if pad.len() > 0 {
        assert(t[a] == pad[0]);
        lemma_classes_apart(pad[0]);
    }
    lemma_run_over(t, 1, label, Class::Digit);
    lemma_run_over(t, a, pad, Class::Space);
    assert(t.skip(b + 1) =~= rest);
}

/// What is taken for a data row is one.
pub proof fn lemma_data_row_written(t: Seq<char>)
    requires
        is_data_row(t),
    ensures
        is_number(t.subrange(1, label_end(t))),
        all_in(t.subrange(label_end(t), bar_at(t)), Class::Space),
        t == data_row(
            t.subrange(1, label_end(t)),
            t.subrange(label_end(t), bar_at(t)),
            t.skip(bar_at(t) + 1),
        ),
{
    lemma_run_end(t, 1, Class::Digit);
    lemma_run_end(t, label_end(t), Class::Space);
    assert(t =~= data_row(
        t.subrange(1, label_end(t)),
        t.subrange(label_end(t), bar_at(t)),
        t.skip(bar_at(t) + 1),
    ));
}

} // verus!
