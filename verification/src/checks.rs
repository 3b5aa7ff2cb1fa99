//! The checks that a solution has to pass, and the objective that it implies.
//!
//! There are three checks, made in this order. Each names the first thing it
//! finds wrong.
//!
//! - Degrees: every node has exactly two selected arcs that leave it and
//!   exactly two that enter it.
//! - Conservation: for every commodity and every node other than the
//!   commodity's own, what flows in less what flows out is the node's demand
//!   times the scale. What flows on to the commodity's own node does not
//!   count as flowing out.
//! - Capacity: no commodity flows over an arc that was not selected. A
//!   commodity's flow into its own node is not looked at.
//!
//! The objective that a solution implies is the largest load of any arc: the
//! sum of the flows over it, again without the flow of the commodity that the
//! arc delivers to its own node.

use vstd::prelude::*;
use crate::instance::{Instance, valid_size};
use crate::laws::{
    lemma_capacity_pass_iff, lemma_conservation_pass_iff, lemma_degrees_pass_iff,
    lemma_implied_objective_is_largest,
};
use crate::range::{first, first_from, sum_to};
use crate::solution::{Solution, SolutionModel};

verus! {

/// The degree that every node must have, in and out.
pub const DEGREE: u64 = 2;

/// The first thing that a check found wrong with a solution.
#[derive(Clone, Copy, Debug, PartialEq, Eq, Structural)]
pub enum Violation {
    /// `degree` selected arcs leave `node`.
    OutDegree { node: usize, degree: u64 },
    /// `degree` selected arcs enter `node`.
    InDegree { node: usize, degree: u64 },
    /// Of `commodity`, `flow_in` enters `node` and `flow_out` leaves it, and
    /// the difference is not `expected`.
    Conservation { commodity: usize, node: usize, flow_in: u64, flow_out: u64, expected: u64 },
    /// `flow` of `commodity` is sent from `from` to `to`, and that arc was
    /// not selected.
    Capacity { from: usize, to: usize, commodity: usize, flow: u32 },
}

/// The selections of the arcs that leave `i`, by the node they lead to.
pub open spec fn arcs_out(m: SolutionModel, i: int) -> spec_fn(int) -> nat {
    |j: int| if j != i { m.arc(i, j) } else { 0 }
}

/// The selections of the arcs that enter `i`, by the node they come from.
pub open spec fn arcs_in(m: SolutionModel, i: int) -> spec_fn(int) -> nat {
    |j: int| if j != i { m.arc(j, i) } else { 0 }
}

/// The flows of commodity `k` that enter `i`, by the node they come from.
pub open spec fn flows_in(m: SolutionModel, k: int, i: int) -> spec_fn(int) -> nat {
    |j: int| if j != i { m.flow(k, j, i) } else { 0 }
}

/// The flows of commodity `k` that leave `i`, by the node they lead to. What
/// flows on to `k` itself is left out.
pub open spec fn flows_out(m: SolutionModel, k: int, i: int) -> spec_fn(int) -> nat {
    |j: int| if j != i && j != k { m.flow(k, i, j) } else { 0 }
}

/// The flows over the arc from `i` to `j`, by commodity. The flow of
/// commodity `j` is left out.
pub open spec fn flows_over(m: SolutionModel, i: int, j: int) -> spec_fn(int) -> nat {
    |k: int| if k != j { m.flow(k, i, j) } else { 0 }
}

/// How many selected arcs leave node `i`.
pub open spec fn out_degree(m: SolutionModel, n: int, i: int) -> nat {
    sum_to(arcs_out(m, i), n)
}

/// How many selected arcs enter node `i`.
pub open spec fn in_degree(m: SolutionModel, n: int, i: int) -> nat {
    sum_to(arcs_in(m, i), n)
}

/// How much of commodity `k` flows into node `i`.
pub open spec fn flow_in(m: SolutionModel, n: int, k: int, i: int) -> nat {
    sum_to(flows_in(m, k, i), n)
}

/// How much of commodity `k` flows out of node `i`, not counting what flows
/// on to `k` itself.
pub open spec fn flow_out(m: SolutionModel, n: int, k: int, i: int) -> nat {
    sum_to(flows_out(m, k, i), n)
}

/// How much flows over the arc from `i` to `j`, not counting commodity `j`.
pub open spec fn load(m: SolutionModel, n: int, i: int, j: int) -> nat {
    sum_to(flows_over(m, i, j), n)
}

/// The nodes that the wrong number of selected arcs leave.
pub open spec fn bad_out(m: SolutionModel, n: int) -> spec_fn(int) -> bool {
    |i: int| out_degree(m, n, i) != DEGREE
}

/// The nodes that the wrong number of selected arcs enter.
pub open spec fn bad_in(m: SolutionModel, n: int) -> spec_fn(int) -> bool {
    |i: int| in_degree(m, n, i) != DEGREE
}

/// What the degree check finds: the first node that the wrong number of
/// arcs leave, or else the first node that the wrong number of arcs enter.
pub open spec fn degree_violation(m: SolutionModel, n: int) -> Option<Violation> {
    let o = first(bad_out(m, n), n);
    let i = first(bad_in(m, n), n);
    if o <= n {
        Some(Violation::OutDegree { node: o as usize, degree: out_degree(m, n, o) as u64 })
    } else if i <= n {
        Some(Violation::InDegree { node: i as usize, degree: in_degree(m, n, i) as u64 })
    } else {
        None
    }
}

/// Whether commodity `k` is in balance at node `i`: what flows in less what
/// flows out is what the node asks for, times `scale`.
pub open spec fn balanced(
    demand: Seq<Seq<u32>>,
    m: SolutionModel,
    n: int,
    scale: int,
    k: int,
    i: int,
) -> bool {
    flow_in(m, n, k, i) - flow_out(m, n, k, i) == demand[k][i] * scale
}

/// The nodes, other than `k` itself, at which commodity `k` is not in
/// balance.
pub open spec fn unbalanced_nodes(
    demand: Seq<Seq<u32>>,
    m: SolutionModel,
    n: int,
    scale: int,
    k: int,
) -> spec_fn(int) -> bool {
    |i: int| i != k && !balanced(demand, m, n, scale, k, i)
}

/// The commodities that are out of balance at some node.
pub open spec fn unbalanced_commodities(
    demand: Seq<Seq<u32>>,
    m: SolutionModel,
    n: int,
    scale: int,
) -> spec_fn(int) -> bool {
    |k: int| first(unbalanced_nodes(demand, m, n, scale, k), n) <= n
}

/// What the conservation check finds: the first commodity that is out of
/// balance somewhere, at the first node where it is.
pub open spec fn conservation_violation(
    demand: Seq<Seq<u32>>,
    m: SolutionModel,
    n: int,
    scale: int,
) -> Option<Violation> {
    let k = first(unbalanced_commodities(demand, m, n, scale), n);
    let i = first(unbalanced_nodes(demand, m, n, scale, k), n);
    if k <= n {
        Some(
            Violation::Conservation {
                commodity: k as usize,
                node: i as usize,
                flow_in: flow_in(m, n, k, i) as u64,
                flow_out: flow_out(m, n, k, i) as u64,
                expected: (demand[k][i] * scale) as u64,
            },
        )
    } else {
        None
    }
}

/// The commodities, other than `j` itself, that flow from `i` to `j`.
pub open spec fn stray_commodities(m: SolutionModel, i: int, j: int) -> spec_fn(int) -> bool {
    |k: int| k != j && m.flow(k, i, j) != 0
}

/// The nodes `j` to which something flows from `i` over an arc that was not
/// selected.
pub open spec fn stray_targets(m: SolutionModel, n: int, i: int) -> spec_fn(int) -> bool {
    |j: int| j != i && m.arc(i, j) == 0 && first(stray_commodities(m, i, j), n) <= n
}

/// The nodes from which something flows over an arc that was not selected.
pub open spec fn stray_sources(m: SolutionModel, n: int) -> spec_fn(int) -> bool {
    |i: int| first(stray_targets(m, n, i), n) <= n
}

/// What the capacity check finds: the first flow over an arc that was not
/// selected, going by the arc's tail, then its head, then the commodity.
pub open spec fn capacity_violation(m: SolutionModel, n: int) -> Option<Violation> {
    let i = first(stray_sources(m, n), n);
    let j = first(stray_targets(m, n, i), n);
    let k = first(stray_commodities(m, i, j), n);
    if i <= n {
        Some(
            Violation::Capacity {
                from: i as usize,
                to: j as usize,
                commodity: k as usize,
                flow: m.flow(k, i, j) as u32,
            },
        )
    } else {
        None
    }
}

/// Whether two selected arcs leave every one of the nodes `1..=n` and two
/// enter it.
pub open spec fn degrees_hold(m: SolutionModel, n: int) -> bool {
    forall|i: int|
        #![trigger out_degree(m, n, i)]
        #![trigger in_degree(m, n, i)]
        1 <= i <= n ==> out_degree(m, n, i) == DEGREE && in_degree(m, n, i) == DEGREE
}

/// Whether every commodity is in balance at every node but its own: what
/// flows in less what flows out is the demand times `scale`.
pub open spec fn conservation_holds(
    demand: Seq<Seq<u32>>,
    m: SolutionModel,
    n: int,
    scale: int,
) -> bool {
    forall|k: int, i: int|
        1 <= k <= n && 1 <= i <= n && i != k ==> #[trigger] flow_in(m, n, k, i) - flow_out(
            m,
            n,
            k,
            i,
        ) == demand[k][i] * scale
}

/// Whether nothing flows over an arc that was not selected, a commodity's
/// flow into its own node left aside.
pub open spec fn capacity_holds(m: SolutionModel, n: int) -> bool {
    forall|i: int, j: int, k: int|
        1 <= i <= n && 1 <= j <= n && 1 <= k <= n && i != j && k != j && m.arc(i, j) == 0
            ==> #[trigger] m.flow(k, i, j) == 0
}

/// Whether `peak` is the largest load of any arc among `n` nodes: no arc
/// carries more, and some arc carries as much.
pub open spec fn is_largest_load(m: SolutionModel, n: int, peak: nat) -> bool {
    &&& forall|i: int, j: int|
        1 <= i <= n && 1 <= j <= n && i != j ==> #[trigger] load(m, n, i, j) <= peak
    &&& exists|i: int, j: int|
        1 <= i <= n && 1 <= j <= n && i != j && #[trigger] load(m, n, i, j) == peak
}

/// The larger of two numbers.
pub open spec fn larger(a: nat, b: nat) -> nat {
    if a >= b {
        a
    } else {
        b
    }
}

/// The largest load of the arcs from `i` to the nodes `1..=upto`, 0 where
/// there is no such arc.
pub open spec fn row_peak(m: SolutionModel, n: int, i: int, upto: int) -> nat
    decreases upto,
{
    if upto <= 0 {
        0
    } else if upto == i {
        row_peak(m, n, i, upto - 1)
    } else {
        larger(row_peak(m, n, i, upto - 1), load(m, n, i, upto))
    }
}

/// The largest load of the arcs that leave the nodes `1..=upto`.
pub open spec fn peak(m: SolutionModel, n: int, upto: int) -> nat
    decreases upto,
{
    if upto <= 0 {
        0
    } else {
        larger(peak(m, n, upto - 1), row_peak(m, n, upto, n))
    }
}

/// The objective that a solution implies: the largest load of any arc.
pub open spec fn implied_objective(m: SolutionModel, n: int) -> nat {
    peak(m, n, n)
}

/// The entries of a solution that are added up.
#[derive(Clone, Copy)]
enum Tally {
    /// The selections of the arcs that leave `node`.
    ArcsOut { node: usize },
    /// The selections of the arcs that enter `node`.
    ArcsIn { node: usize },
    /// The flows of `commodity` that enter `node`.
    FlowsIn { commodity: usize, node: usize },
    /// The flows of `commodity` that leave `node` for another node than the
    /// commodity's own.
    FlowsOut { commodity: usize, node: usize },
    /// The flows over the arc from `from` to `to`, but for the commodity of
    /// `to`.
    FlowsOver { from: usize, to: usize },
}

impl Tally {
    /// The entries, by the number that they are added up over.
    spec fn terms(self, m: SolutionModel) -> spec_fn(int) -> nat {
        match self {
            Tally::ArcsOut { node } => arcs_out(m, node as int),
            Tally::ArcsIn { node } => arcs_in(m, node as int),
            Tally::FlowsIn { commodity, node } => flows_in(m, commodity as int, node as int),
            Tally::FlowsOut { commodity, node } => flows_out(m, commodity as int, node as int),
            Tally::FlowsOver { from, to } => flows_over(m, from as int, to as int),
        }
    }

    /// The entry for `t`.
    fn term(self, solution: &Solution, t: usize) -> (v: u32)
        ensures
            v == (self.terms(solution@))(t as int),
    {
        match self {
            Tally::ArcsOut { node } => if t != node {
                solution.arc(node, t)
            } else {
                0
            },
            Tally::ArcsIn { node } => if t != node {
                solution.arc(t, node)
            } else {
                0
            },
            Tally::FlowsIn { commodity, node } => if t != node {
                solution.flow(commodity, t, node)
            } else {
                0
            },
            Tally::FlowsOut { commodity, node } => if t != node && t != commodity {
                solution.flow(commodity, node, t)
            } else {
                0
            },
            Tally::FlowsOver { from, to } => if t != to {
                solution.flow(t, from, to)
            } else {
                0
            },
        }
    }

    /// The sum of the entries for `1..=n`.
    fn sum(self, solution: &Solution, n: usize) -> (s: u64)
        requires
            n <= 24,
        ensures
            s == sum_to(self.terms(solution@), n as int),
            s <= n * 0xffff_ffff,
    {
        let mut s: u64 = 0;
        let mut t: usize = 0;
        while t < n
            invariant
                t <= n <= 24,
                s == sum_to(self.terms(solution@), t as int),
                s <= t * 0xffff_ffff,
            decreases n - t,
        {
            t += 1;
            s += self.term(solution, t) as u64;
        }
        s
    }
}

/// Counts the selected arcs that leave node `i`.
pub fn count_out(solution: &Solution, n: usize, i: usize) -> (d: u64)
    requires
        valid_size(n as int),
    ensures
        d == out_degree(solution@, n as int, i as int),
{
    Tally::ArcsOut { node: i }.sum(solution, n)
}

/// Counts the selected arcs that enter node `i`.
pub fn count_in(solution: &Solution, n: usize, i: usize) -> (d: u64)
    requires
        valid_size(n as int),
    ensures
        d == in_degree(solution@, n as int, i as int),
{
    Tally::ArcsIn { node: i }.sum(solution, n)
}

/// Adds up what flows into node `i` of commodity `k`.
pub fn sum_flow_in(solution: &Solution, n: usize, k: usize, i: usize) -> (f: u64)
    requires
        valid_size(n as int),
    ensures
        f == flow_in(solution@, n as int, k as int, i as int),
        f <= 24 * 0xffff_ffff,
{
    Tally::FlowsIn { commodity: k, node: i }.sum(solution, n)
}

/// Adds up what flows out of node `i` of commodity `k`, not counting what
/// flows on to `k` itself.
pub fn sum_flow_out(solution: &Solution, n: usize, k: usize, i: usize) -> (f: u64)
    requires
        valid_size(n as int),
    ensures
        f == flow_out(solution@, n as int, k as int, i as int),
        f <= 24 * 0xffff_ffff,
{
    Tally::FlowsOut { commodity: k, node: i }.sum(solution, n)
}

/// Adds up what flows over the arc from `i` to `j`, not counting commodity
/// `j`.
pub fn sum_load(solution: &Solution, n: usize, i: usize, j: usize) -> (f: u64)
    requires
        valid_size(n as int),
    ensures
        f == load(solution@, n as int, i as int, j as int),
{
    Tally::FlowsOver { from: i, to: j }.sum(solution, n)
}

/// Checks the degrees of the nodes `1..=n`.
pub fn check_degrees(solution: &Solution, n: usize) -> (found: Option<Violation>)
    requires
        valid_size(n as int),
    ensures
        found == degree_violation(solution@, n as int),
        found is None <==> degrees_hold(solution@, n as int),
{
    let ghost m = solution@;
    proof {
        lemma_degrees_pass_iff(m, n as int);
    }
    let mut i: usize = 1;
    while i <= n
        invariant
            1 <= i <= n + 1,
            valid_size(n as int),
            m == solution@,
            first(bad_out(m, n as int), n as int) == first_from(
                bad_out(m, n as int),
                i as int,
                n as int,
            ),
        decreases n + 1 - i,
    {
        let degree = count_out(solution, n, i);
        if degree != DEGREE {
            return Some(Violation::OutDegree { node: i, degree });
        }
        i += 1;
    }
    let mut j: usize = 1;
    while j <= n
        invariant
            1 <= j <= n + 1,
            valid_size(n as int),
            m == solution@,
            first(bad_out(m, n as int), n as int) == n + 1,
            first(bad_in(m, n as int), n as int) == first_from(
                bad_in(m, n as int),
                j as int,
                n as int,
            ),
        decreases n + 1 - j,
    {
        let degree = count_in(solution, n, j);
        if degree != DEGREE {
            return Some(Violation::InDegree { node: j, degree });
        }
        j += 1;
    }
    None
}

/// Tells whether commodity `k` is in balance at node `i`, and what flows in
/// and out there and what the difference should be.
fn weigh(instance: &Instance, solution: &Solution, scale: u32, k: usize, i: usize) -> (r: (
    bool,
    u64,
    u64,
    u64,
))
    requires
        instance.wf(),
        1 <= k <= instance.size(),
        1 <= i <= instance.size(),
    ensures
        r.0 == balanced(instance@, solution@, instance.size(), scale as int, k as int, i as int),
        r.1 == flow_in(solution@, instance.size(), k as int, i as int),
        r.2 == flow_out(solution@, instance.size(), k as int, i as int),
        r.3 == instance@[k as int][i as int] * scale,
{
    let n = instance.node_count();
    let flow_in = sum_flow_in(solution, n, k, i);
    let flow_out = sum_flow_out(solution, n, k, i);
    let demand = instance.demand(k, i);
    assert(demand * scale <= 0xffff_ffff * 0xffff_ffff) by (nonlinear_arith)
        requires
            0 <= demand <= 0xffff_ffff,
            0 <= scale <= 0xffff_ffff,
    ;
    let expected: u64 = demand as u64 * scale as u64;
    (flow_in >= flow_out && flow_in - flow_out == expected, flow_in, flow_out, expected)
}

/// Checks that every commodity is in balance at every node but its own.
pub fn check_conservation(instance: &Instance, solution: &Solution, scale: u32) -> (found: Option<
    Violation,
>)
    requires
        instance.wf(),
    ensures
        found == conservation_violation(instance@, solution@, instance.size(), scale as int),
        found is None <==> conservation_holds(
            instance@,
            solution@,
            instance.size(),
            scale as int,
        ),
{
    let n = instance.node_count();
    proof {
        lemma_conservation_pass_iff(instance@, solution@, n as int, scale as int);
    }
    let ghost d = instance@;
    let ghost m = solution@;
    let ghost sc = scale as int;
    let mut k: usize = 1;
    while k <= n
        invariant
            1 <= k <= n + 1,
            n == instance.size(),
            valid_size(n as int),
            instance.wf(),
            d == instance@,
            m == solution@,
            sc == scale,
            first(unbalanced_commodities(d, m, n as int, sc), n as int) == first_from(
                unbalanced_commodities(d, m, n as int, sc),
                k as int,
                n as int,
            ),
        decreases n + 1 - k,
    {
        let mut i: usize = 1;
        while i <= n
            invariant
                1 <= i <= n + 1,
                1 <= k <= n,
                n == instance.size(),
                valid_size(n as int),
                instance.wf(),
                d == instance@,
                m == solution@,
                sc == scale,
                first(unbalanced_commodities(d, m, n as int, sc), n as int) == first_from(
                    unbalanced_commodities(d, m, n as int, sc),
                    k as int,
                    n as int,
                ),
                first(unbalanced_nodes(d, m, n as int, sc, k as int), n as int) == first_from(
                    unbalanced_nodes(d, m, n as int, sc, k as int),
                    i as int,
                    n as int,
                ),
            decreases n + 1 - i,
        {
            if i != k {
                let (ok, flow_in, flow_out, expected) = weigh(instance, solution, scale, k, i);
                if !ok {
                    return Some(
                        Violation::Conservation { commodity: k, node: i, flow_in, flow_out, expected },
                    );
                }
            }
            i += 1;
        }
        k += 1;
    }
    None
}

/// Finds the first commodity, other than `j` itself, that flows from `i` to
/// `j`; `n + 1` where there is none.
fn find_stray_commodity(solution: &Solution, n: usize, i: usize, j: usize) -> (k: usize)
    requires
        valid_size(n as int),
    ensures
        k == first(stray_commodities(solution@, i as int, j as int), n as int),
        1 <= k <= n + 1,
{
    let mut k: usize = 1;
    while k <= n && (k == j || solution.flow(k, i, j) == 0)
        invariant
            1 <= k <= n + 1,
            valid_size(n as int),
            first(stray_commodities(solution@, i as int, j as int), n as int) == first_from(
                stray_commodities(solution@, i as int, j as int),
                k as int,
                n as int,
            ),
        decreases n + 1 - k,
    {
        k += 1;
    }
    k
}

/// Finds the first node to which something flows from `i` over an arc that
/// was not selected; `n + 1` where there is none.
fn find_stray_target(solution: &Solution, n: usize, i: usize) -> (j: usize)
    requires
        valid_size(n as int),
    ensures
        j == first(stray_targets(solution@, n as int, i as int), n as int),
        1 <= j <= n + 1,
{
    let mut j: usize = 1;
    while j <= n && !(j != i && solution.arc(i, j) == 0 && find_stray_commodity(solution, n, i, j)
        <= n)
        invariant
            1 <= j <= n + 1,
            valid_size(n as int),
            first(stray_targets(solution@, n as int, i as int), n as int) == first_from(
                stray_targets(solution@, n as int, i as int),
                j as int,
                n as int,
            ),
        decreases n + 1 - j,
    {
        j += 1;
    }
    j
}

/// Checks that nothing flows over an arc that was not selected.
pub fn check_capacity(solution: &Solution, n: usize) -> (found: Option<Violation>)
    requires
        valid_size(n as int),
    ensures
        found == capacity_violation(solution@, n as int),
        found is None <==> capacity_holds(solution@, n as int),
{
    proof {
        lemma_capacity_pass_iff(solution@, n as int);
    }
    let mut i: usize = 1;
    while i <= n
        invariant
            1 <= i <= n + 1,
            valid_size(n as int),
            capacity_violation(solution@, n as int) is None <==> capacity_holds(
                solution@,
                n as int,
            ),
            first(stray_sources(solution@, n as int), n as int) == first_from(
                stray_sources(solution@, n as int),
                i as int,
                n as int,
            ),
        decreases n + 1 - i,
    {
        let j = find_stray_target(solution, n, i);
        if j <= n {
            let k = find_stray_commodity(solution, n, i, j);
            return Some(
                Violation::Capacity { from: i, to: j, commodity: k, flow: solution.flow(k, i, j) },
            );
        }
        i += 1;
    }
    None
}

/// Computes the objective that a solution implies.
pub fn compute_objective(solution: &Solution, n: usize) -> (computed: u64)
    requires
        valid_size(n as int),
    ensures
        computed == implied_objective(solution@, n as int),
        is_largest_load(solution@, n as int, computed as nat),
{
    proof {
        lemma_implied_objective_is_largest(solution@, n as int);
    }
    let mut best: u64 = 0;
    let mut i: usize = 0;
    while i < n
        invariant
            i <= n,
            valid_size(n as int),
            best == peak(solution@, n as int, i as int),
        decreases n - i,
    {
        i += 1;
        let mut row: u64 = 0;
        let mut j: usize = 0;
        while j < n
            invariant
                j <= n,
                1 <= i <= n,
                valid_size(n as int),
                row == row_peak(solution@, n as int, i as int, j as int),
            decreases n - j,
        {
            j += 1;
            if j != i {
                let total = sum_load(solution, n, i, j);
                if total > row {
                    row = total;
                }
            }
        }
        if row > best {
            best = row;
        }
    }
    best
}

} // verus!
