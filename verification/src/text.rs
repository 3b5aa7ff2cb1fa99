//! Characters and the small scanners that both file formats are read with.
//!
//! Text is handled as a sequence of `char`s. Positions are indices into that
//! sequence, and every scanner is specified by a function of the sequence and
//! the position it starts from.

use vstd::prelude::*;
use vstd::slice::slice_subrange;
use vstd::string::StringExecFns;

verus! {

/// The largest number that a value in a file may be.
pub const MAX_VALUE: u64 = 2147483647;

/// White space: the characters with Unicode's `White_Space` property.
pub open spec fn is_space(c: char) -> bool {
    let u = c as u32;
    ||| 0x09 <= u <= 0x0D
    ||| u == 0x20
    ||| u == 0x85
    ||| u == 0xA0
    ||| u == 0x1680
    ||| 0x2000 <= u <= 0x200A
    ||| u == 0x2028
    ||| u == 0x2029
    ||| u == 0x202F
    ||| u == 0x205F
    ||| u == 0x3000
}

/// A decimal digit, `0` to `9`.
pub open spec fn is_digit(c: char) -> bool {
    '0' <= c <= '9'
}

/// The number that a decimal digit stands for.
pub open spec fn digit_value(c: char) -> nat
    recommends
        is_digit(c),
{
    (c as u32 - '0' as u32) as nat
}

/// A set of characters that a scanner runs over.
#[derive(Clone, Copy)]
pub enum Class {
    /// The decimal digits.
    Digit,
    /// White space.
    Space,
    /// The one character given.
    Only(char),
    /// Every character but the one given.
    Until(char),
}

impl Class {
    /// Whether `c` belongs to the class.
    pub open spec fn holds(self, c: char) -> bool {
        match self {
            Class::Digit => is_digit(c),
            Class::Space => is_space(c),
            Class::Only(one) => c == one,
            Class::Until(stop) => c != stop,
        }
    }

    /// Tells whether `c` belongs to the class.
    pub fn test(self, c: char) -> (b: bool)
        ensures
            b == self.holds(c),
    {
        match self {
            Class::Digit => is_digit_char(c),
            Class::Space => is_space_char(c),
            Class::Only(one) => c == one,
            Class::Until(stop) => c != stop,
        }
    }
}

/// Tells whether `c` is white space.
pub fn is_space_char(c: char) -> (b: bool)
    ensures
        b == is_space(c),
{
    let u: u32 = c as u32;
    (0x09 <= u && u <= 0x0D) || u == 0x20 || u == 0x85 || u == 0xA0 || u == 0x1680 || (0x2000 <= u
        && u <= 0x200A) || u == 0x2028 || u == 0x2029 || u == 0x202F || u == 0x205F || u == 0x3000
}

/// Tells whether `c` is a decimal digit.
pub fn is_digit_char(c: char) -> (b: bool)
    ensures
        b == is_digit(c),
{
    '0' <= c && c <= '9'
}

/// Where the run of `class` characters that starts at `from` ends: the first
/// position at or after `from` whose character is not in the class, or the
/// length of `s` where there is none.
pub open spec fn run_end(s: Seq<char>, from: int, class: Class) -> int
    decreases s.len() - from,
{
    if 0 <= from < s.len() && class.holds(s[from]) {
        run_end(s, from + 1, class)
    } else {
        from
    }
}

/// Whether every character of `s` belongs to `class`.
pub open spec fn all_in(s: Seq<char>, class: Class) -> bool {
    forall|i: int| 0 <= i < s.len() ==> class.holds(#[trigger] s[i])
}

/// A run ends inside the text, covers class characters only, and stops at
/// the first character outside the class.
pub proof fn lemma_run_end(s: Seq<char>, from: int, class: Class)
    requires
        0 <= from <= s.len(),
    ensures
        from <= run_end(s, from, class) <= s.len(),
        all_in(s.subrange(from, run_end(s, from, class)), class),
        run_end(s, from, class) < s.len() ==> !class.holds(s[run_end(s, from, class)]),
    decreases s.len() - from,
{
    if from < s.len() && class.holds(s[from]) {
        lemma_run_end(s, from + 1, class);
        let end = run_end(s, from, class);
        assert forall|i: int| 0 <= i < end - from implies class.holds(
            #[trigger] s.subrange(from, end)[i],
        ) by {
            if i > 0 {
                assert(s.subrange(from, end)[i] == s.subrange(from + 1, end)[i - 1]);
            }
        }
    }
}

/// The end of a run is the only position with the properties that
/// `lemma_run_end` states.
pub proof fn lemma_run_end_unique(s: Seq<char>, from: int, end: int, class: Class)
    requires
        0 <= from <= end <= s.len(),
        all_in(s.subrange(from, end), class),
        end < s.len() ==> !class.holds(s[end]),
    ensures
        run_end(s, from, class) == end,
    decreases end - from,
{
    if from < end {
        assert(s.subrange(from, end)[0] == s[from]);
        assert forall|i: int| 0 <= i < end - (from + 1) implies class.holds(
            #[trigger] s.subrange(from + 1, end)[i],
        ) by {
            assert(s.subrange(from + 1, end)[i] == s.subrange(from, end)[i + 1]);
        }
        lemma_run_end_unique(s, from + 1, end, class);
    }
}

/// Runs over the characters of `class` from `from` on and returns where the
/// run ends.
pub fn scan(s: &[char], from: usize, class: Class) -> (end: usize)
    requires
        from <= s.len(),
    ensures
        end == run_end(s@, from as int, class),
        from <= end <= s.len(),
{
    let mut i: usize = from;
    while i < s.len() && class.test(s[i])
        invariant
            from <= i <= s.len(),
            run_end(s@, from as int, class) == run_end(s@, i as int, class),
        decreases s.len() - i,
    {
        i += 1;
    }
    i
}

/// `s` without the characters of `class` that it starts with.
pub open spec fn strip_start(s: Seq<char>, class: Class) -> Seq<char>
    decreases s.len(),
{
    if s.len() > 0 && class.holds(s.first()) {
        strip_start(s.drop_first(), class)
    } else {
        s
    }
}

/// `s` without the characters of `class` that it ends with.
pub open spec fn strip_end(s: Seq<char>, class: Class) -> Seq<char>
    decreases s.len(),
{
    if s.len() > 0 && class.holds(s.last()) {
        strip_end(s.drop_last(), class)
    } else {
        s
    }
}

/// `s` without the white space at either end.
pub open spec fn trim(s: Seq<char>) -> Seq<char> {
    strip_end(strip_start(s, Class::Space), Class::Space)
}

/// The part of `s` that is left when the characters of `class` at its start
/// are taken away.
pub fn stripped_start(s: &[char], class: Class) -> (t: &[char])
    ensures
        t@ == strip_start(s@, class),
{
    let mut a: usize = 0;
    assert(s@.skip(0) =~= s@);
    while a < s.len() && class.test(s[a])
        invariant
            a <= s.len(),
            strip_start(s@, class) == strip_start(s@.skip(a as int), class),
        decreases s.len() - a,
    {
        assert(s@.skip(a as int).drop_first() =~= s@.skip(a + 1));
        a += 1;
    }
    assert(s@.skip(a as int) =~= s@.subrange(a as int, s@.len() as int));
    slice_subrange(s, a, s.len())
}

/// The part of `s` that is left when the characters of `class` at its end
/// are taken away.
pub fn stripped_end(s: &[char], class: Class) -> (t: &[char])
    ensures
        t@ == strip_end(s@, class),
{
    let mut b: usize = s.len();
    assert(s@.take(b as int) =~= s@);
    while 0 < b && class.test(s[b - 1])
        invariant
            b <= s.len(),
            strip_end(s@, class) == strip_end(s@.take(b as int), class),
        decreases b,
    {
        assert(s@.take(b as int).drop_last() =~= s@.take(b - 1));
        b -= 1;
    }
    assert(s@.take(b as int) =~= s@.subrange(0, b as int));
    slice_subrange(s, 0, b)
}

/// The part of `s` that is left when the white space at both ends is taken
/// away.
pub fn trimmed(s: &[char]) -> (t: &[char])
    ensures
        t@ == trim(s@),
{
    stripped_end(stripped_start(s, Class::Space), Class::Space)
}

/// The characters of a string, in order.
pub fn to_chars(s: &str) -> (v: Vec<char>)
    ensures
        v@ == s@,
{
    let mut v: Vec<char> = Vec::new();
    for c in it: s.chars()
        invariant
            v@ == it.seq().take(it.index()),
            it.seq() == s@,
    {
        assert(it.seq().take(it.index()).push(c) =~= it.seq().take(it.index() + 1));
        v.push(c);
    }
    assert(s@.take(s@.len() as int) =~= s@);
    v
}

/// The number that a string of decimal digits stands for, the most
/// significant digit first. The empty string stands for zero.
pub open spec fn decimal_value(d: Seq<char>) -> nat
    decreases d.len(),
{
    if d.len() == 0 {
        0
    } else {
        decimal_value(d.drop_last()) * 10 + digit_value(d.last())
    }
}

/// What a numeric field holds: the value of `d`, where `d` is one or more
/// decimal digits that stand for a number up to `max`, and nothing otherwise.
pub open spec fn number(d: Seq<char>, max: nat) -> Option<nat> {
    if d.len() > 0 && all_in(d, Class::Digit) && decimal_value(d) <= max {
        Some(decimal_value(d))
    } else {
        None
    }
}

/// Leading digits never stand for more than the whole string does.
pub proof fn lemma_decimal_prefix(d: Seq<char>, i: int)
    requires
        0 <= i <= d.len(),
    ensures
        decimal_value(d.take(i)) <= decimal_value(d),
    decreases d.len(),
{
    if i == d.len() {
        assert(d.take(i) =~= d);
    } else {
        assert(d.drop_last().take(i) =~= d.take(i));
        lemma_decimal_prefix(d.drop_last(), i);
    }
}

/// Reads a numeric field: one or more decimal digits that stand for a number
/// up to `max`.
pub fn parse_number(d: &[char], max: u64) -> (r: Option<u64>)
    ensures
        match r {
            Some(v) => number(d@, max as nat) == Some(v as nat),
            None => number(d@, max as nat) is None,
        },
{
    if d.len() == 0 {
        return None;
    }
    let mut acc: u64 = 0;
    let mut i: usize = 0;
    while i < d.len()
        invariant
            i <= d.len(),
            acc <= max,
            acc == decimal_value(d@.take(i as int)),
            all_in(d@.take(i as int), Class::Digit),
        decreases d.len() - i,
    {
        let c = d[i];
        if !is_digit_char(c) {
            return None;
        }
        let v: u64 = (c as u32 - '0' as u32) as u64;
        proof {
            assert(d@.take(i + 1).drop_last() =~= d@.take(i as int));
            assert(d@.take(i + 1).last() == c);
            lemma_decimal_prefix(d@, i + 1);
        }
        if v > max || acc > (max - v) / 10 {
            return None;
        }
        acc = acc * 10 + v;
        assert forall|k: int| 0 <= k < i + 1 implies Class::Digit.holds(
            #[trigger] d@.take(i + 1)[k],
        ) by {
            if k < i {
                assert(d@.take(i as int)[k] == d@[k]);
            }
        }
        i += 1;
    }
    assert(d@.take(i as int) =~= d@);
    Some(acc)
}

/// The pieces that `s` falls into when it is cut at every `sep`. There is
/// always at least one piece, and a piece may be empty.
pub open spec fn split(s: Seq<char>, sep: char) -> Seq<Seq<char>>
    decreases s.len(),
{
    let cut = run_end(s, 0, Class::Until(sep));
    if 0 <= cut < s.len() {
        seq![s.take(cut)] + split(s.skip(cut + 1), sep)
    } else {
        seq![s]
    }
}

/// What each of the slices holds.
pub open spec fn views(pieces: Seq<&[char]>) -> Seq<Seq<char>> {
    Seq::new(pieces.len(), |i: int| pieces[i]@)
}

/// Cuts `s` at every `sep` and returns the pieces in order.
pub fn split_at_char<'a>(s: &'a [char], sep: char) -> (pieces: Vec<&'a [char]>)
    ensures
        views(pieces@) == split(s@, sep),
{
    let mut pieces: Vec<&'a [char]> = Vec::new();
    let mut start: usize = 0;
    let mut done = false;
    assert(s@.skip(0) =~= s@);
    assert(views(pieces@) =~= Seq::empty());
    while !done
        invariant
            start <= s.len(),
            !done ==> split(s@, sep) == views(pieces@) + split(s@.skip(start as int), sep),
            done ==> split(s@, sep) == views(pieces@),
        decreases s.len() - start + if done { 0int } else { 1int },
    {
        let end = scan(s, start, Class::Until(sep));
        let piece = slice_subrange(s, start, end);
        let ghost before = views(pieces@);
        let ghost rest = s@.skip(start as int);
        proof {
            lemma_run_shift(s@, start as int, Class::Until(sep));
        }
        pieces.push(piece);
        assert(views(pieces@) =~= before + seq![piece@]);
        if end < s.len() {
            assert(rest.take(end - start) =~= piece@);
            assert(rest.skip(end - start + 1) =~= s@.skip(end + 1));
            start = end + 1;
            assert(before + (seq![piece@] + split(s@.skip(start as int), sep)) =~= before + seq![
                piece@,
            ] + split(s@.skip(start as int), sep));
        } else {
            assert(rest =~= piece@);
            done = true;
        }
    }
    pieces
}

/// A run in the tail of a text ends where the run in the whole text does.
pub proof fn lemma_run_shift(s: Seq<char>, from: int, class: Class)
    requires
        0 <= from <= s.len(),
    ensures
        run_end(s.skip(from), 0, class) == run_end(s, from, class) - from,
{
    lemma_run_end(s, from, class);
    let end = run_end(s, from, class);
    assert(s.skip(from).subrange(0, end - from) =~= s.subrange(from, end));
    lemma_run_end_unique(s.skip(from), 0, end - from, class);
}

/// The digit that stands for `d`, a number below ten.
pub open spec fn digit_char(d: nat) -> char
    recommends
        d < 10,
{
    ('0' as u32 + d) as char
}

/// How a number is written: in decimal digits, the most significant first,
/// with no zero in front of another digit.
pub open spec fn decimal(v: nat) -> Seq<char>
    decreases v,
{
    if v < 10 {
        seq![digit_char(v)]
    } else {
        decimal(v / 10).push(digit_char(v % 10))
    }
}

/// How a number that may be negative is written: as its size, with a minus
/// sign in front where it is below zero.
pub open spec fn signed_decimal(v: int) -> Seq<char> {
    if v < 0 {
        seq!['-'] + decimal((-v) as nat)
    } else {
        decimal(v as nat)
    }
}

/// What is written for a number reads back as that number.
pub proof fn lemma_decimal_reads_back(v: nat)
    ensures
        decimal(v).len() > 0,
        all_in(decimal(v), Class::Digit),
        decimal_value(decimal(v)) == v,
    decreases v,
{
    if v >= 10 {
        lemma_decimal_reads_back(v / 10);
        let front = decimal(v / 10);
        let whole = decimal(v);
        assert(whole.drop_last() =~= front);
        assert(whole.last() == digit_char(v % 10));
        assert(digit_value(digit_char(v % 10)) == v % 10);
        assert forall|i: int| 0 <= i < whole.len() implies Class::Digit.holds(
            #[trigger] whole[i],
        ) by {
            if i < front.len() {
                assert(whole[i] == front[i]);
            }
        }
    } else {
        assert(decimal(v).drop_last() =~= Seq::<char>::empty());
        assert(decimal_value(Seq::<char>::empty()) == 0);
        assert(digit_value(digit_char(v)) == v);
    }
}

/// The text of one digit.
fn digit_text(d: u64) -> (s: &'static str)
    requires
        d < 10,
    ensures
        s@ == seq![digit_char(d as nat)],
{
    let s = match d {
        0 => "0",
        1 => "1",
        2 => "2",
        3 => "3",
        4 => "4",
        5 => "5",
        6 => "6",
        7 => "7",
        8 => "8",
        _ => "9",
    };
    proof {
        reveal_strlit("0");
        reveal_strlit("1");
        reveal_strlit("2");
        reveal_strlit("3");
        reveal_strlit("4");
        reveal_strlit("5");
        reveal_strlit("6");
        reveal_strlit("7");
        reveal_strlit("8");
        reveal_strlit("9");
        assert(s@ =~= seq![digit_char(d as nat)]);
    }
    s
}

/// Writes `v` at the end of `out`.
pub fn push_decimal(out: &mut String, v: u64)
    ensures
        final(out)@ == old(out)@ + decimal(v as nat),
    decreases v,
{
    if v >= 10 {
        push_decimal(out, v / 10);
    }
    out.append(digit_text(v % 10));
    proof {
        if v >= 10 {
            assert(old(out)@ + decimal((v / 10) as nat) + seq![digit_char((v % 10) as nat)]
                =~= old(out)@ + decimal(v as nat));
        }
    }
}

/// Writes the difference `a - b` at the end of `out`.
pub fn push_difference(out: &mut String, a: u64, b: u64)
    ensures
        final(out)@ == old(out)@ + signed_decimal(a - b),
{
    if a >= b {
        push_decimal(out, a - b);
    } else {
        out.append("-");
        push_decimal(out, b - a);
        proof {
            reveal_strlit("-");
            assert("-"@ =~= seq!['-']);
            assert(old(out)@ + seq!['-'] + decimal((b - a) as nat) =~= old(out)@ + (seq!['-']
                + decimal((b - a) as nat)));
        }
    }
}

} // verus!
