//! The instance of a network-flow problem: how many nodes there are and how
//! much of each commodity every node asks for.

use vstd::prelude::*;
use vstd::slice::slice_subrange;
use crate::text::{number, parse_number, to_chars};

verus! {

/// The smallest number of nodes an instance may have.
pub const MIN_NODES: usize = 5;

/// The largest number of nodes an instance may have.
pub const MAX_NODES: usize = 24;

/// The factor between a demand and the flow that meets it: flows are written
/// in thousandths.
pub const SCALE: u32 = 1000;

/// Whether `n` is an accepted number of nodes.
pub open spec fn valid_size(n: int) -> bool {
    MIN_NODES <= n <= MAX_NODES
}

/// Tells whether `n` is an accepted number of nodes.
pub fn size_in_range(n: usize) -> (ok: bool)
    ensures
        ok == valid_size(n as int),
{
    MIN_NODES <= n && n <= MAX_NODES
}

/// The number of nodes that `text` gives: digits, with or without a plus
/// sign in front, that stand for an accepted number of nodes. Nothing for
/// any other text.
pub open spec fn size_of(text: Seq<char>) -> Option<int> {
    let digits = if text.len() > 0 && text[0] == '+' {
        text.skip(1)
    } else {
        text
    };
    match number(digits, MAX_NODES as nat) {
        Some(n) => if n >= MIN_NODES {
            Some(n as int)
        } else {
            None
        },
        None => None,
    }
}

/// Reads the number of nodes.
pub fn parse_size(text: &str) -> (r: Option<usize>)
    ensures
        match r {
            Some(n) => size_of(text@) == Some(n as int) && valid_size(n as int),
            None => size_of(text@) is None,
        },
{
    let chars = to_chars(text);
    let digits = if chars.len() > 0 && chars[0] == '+' {
        assert(chars@.subrange(1, chars@.len() as int) =~= text@.skip(1));
        slice_subrange(chars.as_slice(), 1, chars.len())
    } else {
        chars.as_slice()
    };
    match parse_number(digits, MAX_NODES as u64) {
        Some(n) => if n >= MIN_NODES as u64 {
            Some(n as usize)
        } else {
            None
        },
        None => None,
    }
}

/// The demand matrix for `n` nodes in which nobody asks for anything. Rows
/// and columns are numbered from 0 to `n`; row 0 and column 0 are not used.
pub open spec fn zero_matrix(n: int) -> Seq<Seq<u32>> {
    Seq::new((n + 1) as nat, |k: int| Seq::new((n + 1) as nat, |i: int| 0u32))
}

/// A row of the demand matrix that holds `values` for the nodes from 1 on,
/// and 0 in the column that is not used.
pub open spec fn matrix_row(values: Seq<u32>) -> Seq<u32> {
    seq![0u32] + values
}

/// Whether `m` has the shape of a demand matrix for `n` nodes: `n + 1` rows
/// of `n + 1` entries each.
pub open spec fn is_matrix(m: Seq<Seq<u32>>, n: int) -> bool {
    &&& m.len() == n + 1
    &&& forall|k: int| 0 <= k <= n ==> (#[trigger] m[k]).len() == n + 1
}

/// An instance: the number of nodes and the demand matrix. Node and commodity
/// numbers start at 1.
pub struct Instance {
    n: usize,
    cells: Vec<u32>,
}

impl View for Instance {
    type V = Seq<Seq<u32>>;

    /// The demand matrix: entry `[k][i]` is how much of commodity `k` node
    /// `i` asks for.
    closed spec fn view(&self) -> Seq<Seq<u32>> {
        Seq::new(
            (self.n + 1) as nat,
            |k: int| Seq::new((self.n + 1) as nat, |i: int| self.cells@[k * 25 + i]),
        )
    }
}

impl Instance {
    /// What holds of every instance that this module hands out: its size is
    /// an accepted one and the matrix is stored in full.
    pub closed spec fn wf(self) -> bool {
        &&& valid_size(self.n as int)
        &&& self.cells@.len() == 625
    }

    /// The number of nodes.
    pub closed spec fn size(self) -> int {
        self.n as int
    }

    /// How much of commodity `k` node `i` asks for; 0 for numbers that the
    /// matrix does not hold.
    pub open spec fn demand_at(self, k: int, i: int) -> nat {
        if 0 <= k <= self.size() && 0 <= i <= self.size() {
            self@[k][i] as nat
        } else {
            0
        }
    }

    /// An instance of `n` nodes in which nobody asks for anything, or nothing
    /// where `n` is no accepted size.
    pub fn new(n: usize) -> (r: Option<Instance>)
        ensures
            r is Some <==> valid_size(n as int),
            r matches Some(inst) ==> inst.wf() && inst.size() == n && inst@ == zero_matrix(
                n as int,
            ),
    {
        if !size_in_range(n) {
            return None;
        }
        let inst = Instance { n, cells: vec![0u32; 625] };
        assert(inst@ =~~= zero_matrix(n as int));
        Some(inst)
    }

    /// The number of nodes.
    pub fn node_count(&self) -> (n: usize)
        requires
            self.wf(),
        ensures
            n == self.size(),
            valid_size(n as int),
            is_matrix(self@, n as int),
    {
        self.n
    }

    /// How much of commodity `k` node `i` asks for; 0 for numbers that the
    /// matrix does not hold.
    pub fn demand(&self, k: usize, i: usize) -> (d: u32)
        requires
            self.wf(),
        ensures
            d == self.demand_at(k as int, i as int),
    {
        if k <= self.n && i <= self.n {
            self.cells[k * 25 + i]
        } else {
            0
        }
    }

    /// Sets how much of commodity `k` node `i` asks for. Nothing changes, and
    /// the answer is `false`, unless both numbers lie between 1 and the
    /// number of nodes.
    pub fn set_demand(&mut self, k: usize, i: usize, value: u32) -> (done: bool)
        requires
            old(self).wf(),
        ensures
            final(self).wf(),
            final(self).size() == old(self).size(),
            done == (1 <= k <= old(self).size() && 1 <= i <= old(self).size()),
            done ==> final(self)@ == old(self)@.update(
                k as int,
                old(self)@[k as int].update(i as int, value),
            ),
            !done ==> final(self)@ == old(self)@,
    {
        if 1 <= k && k <= self.n && 1 <= i && i <= self.n {
            self.cells.set(k * 25 + i, value);
            assert(self@ =~~= old(self)@.update(
                k as int,
                old(self)@[k as int].update(i as int, value),
            ));
            true
        } else {
            false
        }
    }

    /// Sets the demands for commodity `k`: node `i` asks for `values[i - 1]`.
    /// Nothing changes, and the answer is `false`, unless `k` lies between 1
    /// and the number of nodes and there is one value for each node.
    pub fn set_row(&mut self, k: usize, values: &Vec<u32>) -> (done: bool)
        requires
            old(self).wf(),
        ensures
            final(self).wf(),
            final(self).size() == old(self).size(),
            done == (1 <= k <= old(self).size() && values@.len() == old(self).size()),
            done ==> final(self)@ == old(self)@.update(k as int, matrix_row(values@)),
            !done ==> final(self)@ == old(self)@,
    {
        if !(1 <= k && k <= self.n && values.len() == self.n) {
            return false;
        }
        self.cells.set(k * 25, 0);
        let mut i: usize = 1;
        while i <= self.n
            invariant
                1 <= i <= self.n + 1,
                1 <= k <= self.n,
                self.n == old(self).n,
                values@.len() == self.n,
                self.wf(),
                self.cells@[k * 25] == 0,
                forall|c: int| 0 <= c < i - 1 ==> self.cells@[k * 25 + 1 + c] == #[trigger] values@[c],
                forall|at: int|
                    0 <= at < 625 && !(k * 25 <= at < k * 25 + 25) ==> self.cells@[at] == old(
                        self,
                    ).cells@[at],
            decreases self.n + 1 - i,
        {
            self.cells.set(k * 25 + i, values[i - 1]);
            i += 1;
        }
        assert(self@ =~~= old(self)@.update(k as int, matrix_row(values@)));
        true
    }
}

} // verus!
