//! The candidate solution: which arcs were selected, how much of each
//! commodity flows over each arc, and the objective that the solver claims.
//!
//! Arcs and flows are sparse: an entry that was never set reads as 0, and
//! nothing tells it from one that was set to 0.

use std::collections::HashMap;
use vstd::prelude::*;
use vstd::std_specs::hash::group_hash_axioms;
use crate::instance::valid_size;

verus! {

broadcast use group_hash_axioms;

/// The kinds of variable in a solution.
#[derive(Clone, Copy, Debug, PartialEq, Eq, Structural)]
pub enum Variable {
    /// The claimed objective, `z`.
    Objective,
    /// The selection of an arc, `x`.
    Arc,
    /// The flow of a commodity over an arc, `f`.
    Flow,
}

/// Why a solution could not be read or built.
#[derive(Clone, Copy, Debug, PartialEq, Eq, Structural)]
pub enum SolutionError {
    /// A number that belongs to a variable of this kind is too large.
    TooLarge(Variable),
    /// There is no arc from `i` to `j`: one of them is no node, or they are
    /// the same node.
    ArcIndex { i: u64, j: u64 },
    /// There is no flow of commodity `k` from `i` to `j`: one of the three is
    /// no node, or `i` and `j` are the same node.
    FlowIndex { k: u64, i: u64, j: u64 },
}

/// Whether there is an arc from `i` to `j` among `n` nodes.
pub open spec fn arc_index_ok(i: int, j: int, n: int) -> bool {
    1 <= i <= n && 1 <= j <= n && i != j
}

/// Whether commodity `k` can flow from `i` to `j` among `n` nodes.
pub open spec fn flow_index_ok(k: int, i: int, j: int, n: int) -> bool {
    1 <= k <= n && arc_index_ok(i, j, n)
}

/// What a solution holds.
pub struct SolutionModel {
    /// The arc selections that were set, by `(i, j)`.
    pub arcs: Map<(int, int), u32>,
    /// The flows that were set, by `(k, i, j)`, in thousandths.
    pub flows: Map<(int, int, int), u32>,
    /// The claimed objective.
    pub objective: u32,
}

impl SolutionModel {
    /// The solution in which nothing is set.
    pub open spec fn empty() -> SolutionModel {
        SolutionModel { arcs: Map::empty(), flows: Map::empty(), objective: 0 }
    }

    /// The selection of the arc from `i` to `j`, 0 where none was set.
    pub open spec fn arc(self, i: int, j: int) -> nat {
        if self.arcs.contains_key((i, j)) {
            self.arcs[(i, j)] as nat
        } else {
            0
        }
    }

    /// The flow of commodity `k` from `i` to `j`, 0 where none was set.
    pub open spec fn flow(self, k: int, i: int, j: int) -> nat {
        if self.flows.contains_key((k, i, j)) {
            self.flows[(k, i, j)] as nat
        } else {
            0
        }
    }

    /// Whether everything that is set belongs to a problem of `n` nodes.
    pub open spec fn fits(self, n: int) -> bool {
        &&& forall|i: int, j: int| #[trigger]
            self.arcs.contains_key((i, j)) ==> arc_index_ok(i, j, n)
        &&& forall|k: int, i: int, j: int| #[trigger]
            self.flows.contains_key((k, i, j)) ==> flow_index_ok(k, i, j, n)
    }

    /// The solution with the arc from `i` to `j` set to `value`.
    pub open spec fn with_arc(self, i: int, j: int, value: u32) -> SolutionModel {
        SolutionModel { arcs: self.arcs.insert((i, j), value), ..self }
    }

    /// The solution with the flow of commodity `k` from `i` to `j` set to
    /// `value`.
    pub open spec fn with_flow(self, k: int, i: int, j: int, value: u32) -> SolutionModel {
        SolutionModel { flows: self.flows.insert((k, i, j), value), ..self }
    }

    /// The solution with the claimed objective set to `value`.
    pub open spec fn with_objective(self, value: u32) -> SolutionModel {
        SolutionModel { objective: value, ..self }
    }
}

/// A candidate solution.
pub struct Solution {
    arcs: HashMap<u64, u32>,
    flows: HashMap<u64, u32>,
    objective: u32,
}

/// The key under which the arc from `i` to `j` is kept.
spec fn arc_key(i: int, j: int) -> u64 {
    (i * 32 + j) as u64
}

/// The key under which the flow of commodity `k` from `i` to `j` is kept.
spec fn flow_key(k: int, i: int, j: int) -> u64 {
    (k * 1024 + i * 32 + j) as u64
}

/// Whether `i` is small enough to be part of a key.
spec fn small(i: int) -> bool {
    0 <= i < 32
}

/// Different arcs are kept under different keys.
proof fn lemma_arc_keys_differ(i: int, j: int, a: int, b: int)
    requires
        small(i) && small(j) && small(a) && small(b),
        (i, j) != (a, b),
    ensures
        arc_key(i, j) != arc_key(a, b),
{
}

/// Different flows are kept under different keys.
proof fn lemma_flow_keys_differ(k: int, i: int, j: int, c: int, a: int, b: int)
    requires
        small(k) && small(i) && small(j) && small(c) && small(a) && small(b),
        (k, i, j) != (c, a, b),
    ensures
        flow_key(k, i, j) != flow_key(c, a, b),
{
    let x = k * 1024 + i * 32 + j;
    let y = c * 1024 + a * 32 + b;
    if x == y {
        assert(j == b) by {
            assert(x % 32 == j && y % 32 == b) by (nonlinear_arith)
                requires
                    x == k * 1024 + i * 32 + j,
                    y == c * 1024 + a * 32 + b,
                    0 <= j < 32,
                    0 <= b < 32,
            ;
        }
        assert(i == a) by {
            assert((x / 32) % 32 == i && (y / 32) % 32 == a) by (nonlinear_arith)
                requires
                    x == k * 1024 + i * 32 + j,
                    y == c * 1024 + a * 32 + b,
                    0 <= j < 32,
                    0 <= b < 32,
                    0 <= i < 32,
                    0 <= a < 32,
            ;
        }
    }
}

impl View for Solution {
    type V = SolutionModel;

    closed spec fn view(&self) -> SolutionModel {
        SolutionModel {
            arcs: Map::new(
                |p: (int, int)| small(p.0) && small(p.1) && self.arcs@.contains_key(arc_key(p.0, p.1)),
                |p: (int, int)| self.arcs@[arc_key(p.0, p.1)],
            ),
            flows: Map::new(
                |p: (int, int, int)|
                    small(p.0) && small(p.1) && small(p.2) && self.flows@.contains_key(
                        flow_key(p.0, p.1, p.2),
                    ),
                |p: (int, int, int)| self.flows@[flow_key(p.0, p.1, p.2)],
            ),
            objective: self.objective,
        }
    }
}

impl Solution {
    /// A solution in which nothing is set.
    pub fn new() -> (s: Solution)
        ensures
            s@ == SolutionModel::empty(),
    {
        let s = Solution { arcs: HashMap::new(), flows: HashMap::new(), objective: 0 };
        assert(s@.arcs =~= Map::empty());
        assert(s@.flows =~= Map::empty());
        s
    }

    /// The selection of the arc from `i` to `j`, 0 where none was set.
    pub fn arc(&self, i: usize, j: usize) -> (value: u32)
        ensures
            value == self@.arc(i as int, j as int),
    {
        if i < 32 && j < 32 {
            let key: u64 = (i * 32 + j) as u64;
            match self.arcs.get(&key) {
                Some(value) => *value,
                None => 0,
            }
        } else {
            0
        }
    }

    /// The flow of commodity `k` from `i` to `j`, 0 where none was set.
    pub fn flow(&self, k: usize, i: usize, j: usize) -> (value: u32)
        ensures
            value == self@.flow(k as int, i as int, j as int),
    {
        if k < 32 && i < 32 && j < 32 {
            let key: u64 = (k * 1024 + i * 32 + j) as u64;
            match self.flows.get(&key) {
                Some(value) => *value,
                None => 0,
            }
        } else {
            0
        }
    }

    /// The claimed objective.
    pub fn objective(&self) -> (value: u32)
        ensures
            value == self@.objective,
    {
        self.objective
    }

    /// Sets the claimed objective.
    pub fn set_objective(&mut self, value: u32)
        ensures
            final(self)@ == old(self)@.with_objective(value),
    {
        self.objective = value;
    }

    /// Selects the arc from `i` to `j` among `n` nodes `value` times. Where
    /// there is no such arc nothing changes and the answer says so.
    pub fn set_arc(&mut self, n: usize, i: u64, j: u64, value: u32) -> (r: Result<
        (),
        SolutionError,
    >)
        requires
            valid_size(n as int),
        ensures
            r is Ok <==> arc_index_ok(i as int, j as int, n as int),
            r is Ok ==> final(self)@ == old(self)@.with_arc(i as int, j as int, value),
            r is Err ==> final(self)@ == old(self)@ && r == Err::<(), SolutionError>(
                SolutionError::ArcIndex { i, j },
            ),
    {
        if i < 1 || i > n as u64 || j < 1 || j > n as u64 || i == j {
            return Err(SolutionError::ArcIndex { i, j });
        }
        self.arcs.insert(i * 32 + j, value);
        assert(self@.arcs =~= old(self)@.arcs.insert((i as int, j as int), value)) by {
            assert forall|p: (int, int)| small(p.0) && small(p.1) && p != (i as int, j as int)
                implies arc_key(p.0, p.1) != arc_key(i as int, j as int) by {
                lemma_arc_keys_differ(p.0, p.1, i as int, j as int);
            }
        }
        Ok(())
    }

    /// Sets the flow of commodity `k` from `i` to `j` among `n` nodes. Where
    /// there is no such flow nothing changes and the answer says so.
    pub fn set_flow(&mut self, n: usize, k: u64, i: u64, j: u64, value: u32) -> (r: Result<
        (),
        SolutionError,
    >)
        requires
            valid_size(n as int),
        ensures
            r is Ok <==> flow_index_ok(k as int, i as int, j as int, n as int),
            r is Ok ==> final(self)@ == old(self)@.with_flow(
                k as int,
                i as int,
                j as int,
                value,
            ),
            r is Err ==> final(self)@ == old(self)@ && r == Err::<(), SolutionError>(
                SolutionError::FlowIndex { k, i, j },
            ),
    {
        if k < 1 || k > n as u64 || i < 1 || i > n as u64 || j < 1 || j > n as u64 || i == j {
            return Err(SolutionError::FlowIndex { k, i, j });
        }
        self.flows.insert(k * 1024 + i * 32 + j, value);
        assert(self@.flows =~= old(self)@.flows.insert(
            (k as int, i as int, j as int),
            value,
        )) by {
            assert forall|p: (int, int, int)|
                small(p.0) && small(p.1) && small(p.2) && p != (k as int, i as int, j as int)
                implies flow_key(p.0, p.1, p.2) != flow_key(k as int, i as int, j as int) by {
                lemma_flow_keys_differ(p.0, p.1, p.2, k as int, i as int, j as int);
            }
        }
        Ok(())
    }
}

} // verus!
