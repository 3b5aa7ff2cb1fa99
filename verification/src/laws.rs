//! What holds of the checks and of the verdict, for every solution.

use vstd::prelude::*;
use crate::checks::{
    DEGREE, Violation, arcs_in, arcs_out, bad_in, bad_out, balanced, capacity_holds,
    capacity_violation, conservation_holds, conservation_violation, degree_violation,
    degrees_hold, flow_in, flow_out, flows_in, flows_out, flows_over, implied_objective,
    in_degree, is_largest_load, load, out_degree, peak, row_peak, stray_commodities,
    stray_sources, stray_targets, unbalanced_commodities, unbalanced_nodes,
};
use crate::instance::valid_size;
use crate::range::{first, lemma_first_from, lemma_first_is, lemma_first_none, lemma_sum_bound};
use crate::solution::{SolutionModel, flow_index_ok};
use crate::report::{describe, outcome_text};
use crate::verdict::{CheckError, Verdict, check_network, first_violation, outcome_of, verdict_of};

verus! {

/// No sum that a check looks at is larger than `n` times the largest entry.
pub proof fn lemma_sums_fit(m: SolutionModel, n: int, a: int, b: int)
    requires
        0 <= n,
    ensures
        out_degree(m, n, a) <= n * 0xffff_ffff,
        in_degree(m, n, a) <= n * 0xffff_ffff,
        flow_in(m, n, a, b) <= n * 0xffff_ffff,
        flow_out(m, n, a, b) <= n * 0xffff_ffff,
        load(m, n, a, b) <= n * 0xffff_ffff,
{
    lemma_sum_bound(arcs_out(m, a), n, 0xffff_ffff);
    lemma_sum_bound(arcs_in(m, a), n, 0xffff_ffff);
    lemma_sum_bound(flows_in(m, a, b), n, 0xffff_ffff);
    lemma_sum_bound(flows_out(m, a, b), n, 0xffff_ffff);
    lemma_sum_bound(flows_over(m, a, b), n, 0xffff_ffff);
}

/// The degree check passes exactly where two selected arcs leave every node
/// and two enter it.
pub proof fn lemma_degrees_pass_iff(m: SolutionModel, n: int)
    requires
        valid_size(n),
    ensures
        degree_violation(m, n) is None <==> degrees_hold(m, n),
{
    lemma_first_none(bad_out(m, n), n);
    lemma_first_none(bad_in(m, n), n);
    if degrees_hold(m, n) {
        assert forall|i: int| 1 <= i <= n implies !#[trigger] bad_out(m, n)(i) by {
            assert(out_degree(m, n, i) == DEGREE);
        }
        assert forall|i: int| 1 <= i <= n implies !#[trigger] bad_in(m, n)(i) by {
            assert(in_degree(m, n, i) == DEGREE);
        }
    }
    if degree_violation(m, n) is None {
        assert forall|i: int|
            #![trigger out_degree(m, n, i)]
            #![trigger in_degree(m, n, i)]
            1 <= i <= n implies out_degree(m, n, i) == DEGREE && in_degree(m, n, i) == DEGREE by {
            assert(!bad_out(m, n)(i));
            assert(!bad_in(m, n)(i));
        }
    }
}

/// What the degree check reports is true, and it is the first thing wrong:
/// the node it names has the degree it names, which is not two; every node
/// before it has the right degree in that direction; and where it names an
/// in-degree, every out-degree is right.
pub proof fn lemma_degree_violation_is_first(m: SolutionModel, n: int)
    requires
        valid_size(n),
    ensures
        match degree_violation(m, n) {
            Some(Violation::OutDegree { node, degree }) => {
                &&& 1 <= node <= n
                &&& degree == out_degree(m, n, node as int)
                &&& degree != DEGREE
                &&& forall|i: int| 1 <= i < node ==> #[trigger] out_degree(m, n, i) == DEGREE
            },
            Some(Violation::InDegree { node, degree }) => {
                &&& 1 <= node <= n
                &&& degree == in_degree(m, n, node as int)
                &&& degree != DEGREE
                &&& forall|i: int| 1 <= i < node ==> #[trigger] in_degree(m, n, i) == DEGREE
                &&& forall|i: int| 1 <= i <= n ==> #[trigger] out_degree(m, n, i) == DEGREE
            },
            Some(_) => false,
            None => true,
        },
{
    lemma_first_from(bad_out(m, n), 1, n);
    lemma_first_from(bad_in(m, n), 1, n);
    let o = first(bad_out(m, n), n);
    let i = first(bad_in(m, n), n);
    lemma_sums_fit(m, n, o, 0);
    lemma_sums_fit(m, n, i, 0);
    if o <= n {
        assert forall|a: int| 1 <= a < o implies #[trigger] out_degree(m, n, a) == DEGREE by {
            assert(!bad_out(m, n)(a));
        }
    } else if i <= n {
        assert forall|a: int| 1 <= a < i implies #[trigger] in_degree(m, n, a) == DEGREE by {
            assert(!bad_in(m, n)(a));
        }
        assert forall|a: int| 1 <= a <= n implies #[trigger] out_degree(m, n, a) == DEGREE by {
            assert(!bad_out(m, n)(a));
        }
    }
}

/// Where a single node has a wrong degree, the degree check names that node,
/// the direction that is wrong (out before in) and the degree it has.
pub proof fn lemma_single_deviation_named(m: SolutionModel, n: int, node: int)
    requires
        valid_size(n),
        1 <= node <= n,
        forall|i: int|
            #![trigger out_degree(m, n, i)]
            #![trigger in_degree(m, n, i)]
            1 <= i <= n && i != node ==> out_degree(m, n, i) == DEGREE && in_degree(m, n, i)
                == DEGREE,
        out_degree(m, n, node) != DEGREE || in_degree(m, n, node) != DEGREE,
    ensures
        degree_violation(m, n) == Some(
            if out_degree(m, n, node) != DEGREE {
                Violation::OutDegree { node: node as usize, degree: out_degree(m, n, node) as u64 }
            } else {
                Violation::InDegree { node: node as usize, degree: in_degree(m, n, node) as u64 }
            },
        ),
{
    lemma_first_none(bad_out(m, n), n);
    lemma_first_none(bad_in(m, n), n);
    lemma_sums_fit(m, n, node, 0);
    if out_degree(m, n, node) != DEGREE {
        assert(bad_out(m, n)(node));
        assert forall|i: int| 1 <= i < node implies !#[trigger] bad_out(m, n)(i) by {
            assert(out_degree(m, n, i) == DEGREE);
        }
        lemma_first_is(bad_out(m, n), n, node);
    } else {
        assert forall|i: int| 1 <= i <= n implies !#[trigger] bad_out(m, n)(i) by {
            assert(out_degree(m, n, i) == DEGREE);
        }
        assert(bad_in(m, n)(node));
        assert forall|i: int| 1 <= i < node implies !#[trigger] bad_in(m, n)(i) by {
            assert(in_degree(m, n, i) == DEGREE);
        }
        lemma_first_is(bad_in(m, n), n, node);
    }
}

/// The conservation check passes exactly where every commodity is in balance
/// at every node but its own.
pub proof fn lemma_conservation_pass_iff(
    demand: Seq<Seq<u32>>,
    m: SolutionModel,
    n: int,
    scale: int,
)
    requires
        valid_size(n),
    ensures
        conservation_violation(demand, m, n, scale) is None <==> conservation_holds(
            demand,
            m,
            n,
            scale,
        ),
{
    let commodities = unbalanced_commodities(demand, m, n, scale);
    lemma_first_none(commodities, n);
    if conservation_holds(demand, m, n, scale) {
        assert forall|k: int| 1 <= k <= n implies !#[trigger] commodities(k) by {
            let nodes = unbalanced_nodes(demand, m, n, scale, k);
            lemma_first_none(nodes, n);
            assert forall|i: int| 1 <= i <= n implies !#[trigger] nodes(i) by {
                if i != k {
                    assert(flow_in(m, n, k, i) - flow_out(m, n, k, i) == demand[k][i] * scale);
                }
            }
        }
    }
    if conservation_violation(demand, m, n, scale) is None {
        assert forall|k: int, i: int| 1 <= k <= n && 1 <= i <= n && i != k implies #[trigger] flow_in(
            m,
            n,
            k,
            i,
        ) - flow_out(m, n, k, i) == demand[k][i] * scale by {
            let nodes = unbalanced_nodes(demand, m, n, scale, k);
            lemma_first_none(nodes, n);
            assert(!commodities(k));
            assert(!nodes(i));
        }
    }
}

/// What the conservation check reports is true, and it is the first thing
/// wrong: the commodity is out of balance at the node, by the amounts named;
/// it is in balance at every node before; and every commodity before it is
/// in balance everywhere.
pub proof fn lemma_conservation_violation_is_first(
    demand: Seq<Seq<u32>>,
    m: SolutionModel,
    n: int,
    scale: int,
)
    requires
        valid_size(n),
        0 <= scale <= 0xffff_ffff,
    ensures
        match conservation_violation(demand, m, n, scale) {
            Some(Violation::Conservation { commodity, node, flow_in: fi, flow_out: fo, expected }) => {
                &&& 1 <= commodity <= n
                &&& 1 <= node <= n
                &&& node != commodity
                &&& fi == flow_in(m, n, commodity as int, node as int)
                &&& fo == flow_out(m, n, commodity as int, node as int)
                &&& expected == demand[commodity as int][node as int] * scale
                &&& fi - fo != expected
                &&& forall|i: int|
                    1 <= i < node && i != commodity ==> balanced(
                        demand,
                        m,
                        n,
                        scale,
                        commodity as int,
                        i,
                    )
                &&& forall|k: int, i: int|
                    1 <= k < commodity && 1 <= i <= n && i != k ==> balanced(
                        demand,
                        m,
                        n,
                        scale,
                        k,
                        i,
                    )
            },
            Some(_) => false,
            None => true,
        },
{
    let commodities = unbalanced_commodities(demand, m, n, scale);
    lemma_first_from(commodities, 1, n);
    let k = first(commodities, n);
    if k <= n {
        let nodes = unbalanced_nodes(demand, m, n, scale, k);
        lemma_first_from(nodes, 1, n);
        let i = first(nodes, n);
        assert(commodities(k));
        assert(nodes(i));
        lemma_sums_fit(m, n, k, i);
        let d = demand[k][i];
        assert(0 <= d * scale <= 0xffff_ffff * 0xffff_ffff) by (nonlinear_arith)
            requires
                0 <= d <= 0xffff_ffff,
                0 <= scale <= 0xffff_ffff,
        ;
        assert forall|a: int| 1 <= a < i && a != k implies balanced(demand, m, n, scale, k, a) by {
            assert(!nodes(a));
        }
        assert forall|c: int, a: int| 1 <= c < k && 1 <= a <= n && a != c implies balanced(
            demand,
            m,
            n,
            scale,
            c,
            a,
        ) by {
            assert(!commodities(c));
            lemma_first_none(unbalanced_nodes(demand, m, n, scale, c), n);
            assert(!unbalanced_nodes(demand, m, n, scale, c)(a));
        }
    }
}

/// A flow that misses the scaled demand by one, either way, is rejected.
pub proof fn lemma_off_by_one_rejected(
    demand: Seq<Seq<u32>>,
    m: SolutionModel,
    n: int,
    scale: int,
    k: int,
    i: int,
)
    requires
        valid_size(n),
        1 <= k <= n,
        1 <= i <= n,
        i != k,
        flow_in(m, n, k, i) - flow_out(m, n, k, i) == demand[k][i] * scale + 1 || flow_in(
            m,
            n,
            k,
            i,
        ) - flow_out(m, n, k, i) == demand[k][i] * scale - 1,
    ensures
        conservation_violation(demand, m, n, scale) is Some,
{
    lemma_conservation_pass_iff(demand, m, n, scale);
}

/// A flow that meets the demand times another factor than the scale is
/// rejected, unless nothing is asked for.
pub proof fn lemma_wrong_scale_rejected(
    demand: Seq<Seq<u32>>,
    m: SolutionModel,
    n: int,
    scale: int,
    other: int,
    k: int,
    i: int,
)
    requires
        valid_size(n),
        1 <= k <= n,
        1 <= i <= n,
        i != k,
        other != scale,
        demand[k][i] != 0,
        flow_in(m, n, k, i) - flow_out(m, n, k, i) == demand[k][i] * other,
    ensures
        conservation_violation(demand, m, n, scale) is Some,
{
    lemma_conservation_pass_iff(demand, m, n, scale);
    let d = demand[k][i] as int;
    assert(d * other != d * scale) by (nonlinear_arith)
        requires
            d != 0,
            other != scale,
    ;
}

/// A flow with the sign turned round, out less in where it should be in less
/// out, is rejected, unless nothing is asked for.
pub proof fn lemma_sign_error_rejected(
    demand: Seq<Seq<u32>>,
    m: SolutionModel,
    n: int,
    scale: int,
    k: int,
    i: int,
)
    requires
        valid_size(n),
        1 <= k <= n,
        1 <= i <= n,
        i != k,
        demand[k][i] * scale != 0,
        flow_out(m, n, k, i) - flow_in(m, n, k, i) == demand[k][i] * scale,
    ensures
        conservation_violation(demand, m, n, scale) is Some,
{
    lemma_conservation_pass_iff(demand, m, n, scale);
}

/// The capacity check passes exactly where nothing flows over an arc that
/// was not selected.
pub proof fn lemma_capacity_pass_iff(m: SolutionModel, n: int)
    requires
        valid_size(n),
    ensures
        capacity_violation(m, n) is None <==> capacity_holds(m, n),
{
    let sources = stray_sources(m, n);
    lemma_first_none(sources, n);
    if capacity_holds(m, n) {
        assert forall|i: int| 1 <= i <= n implies !#[trigger] sources(i) by {
            let targets = stray_targets(m, n, i);
            lemma_first_none(targets, n);
            assert forall|j: int| 1 <= j <= n implies !#[trigger] targets(j) by {
                let commodities = stray_commodities(m, i, j);
                lemma_first_none(commodities, n);
                if j != i && m.arc(i, j) == 0 {
                    assert forall|k: int| 1 <= k <= n implies !#[trigger] commodities(k) by {
                        if k != j {
                            assert(m.flow(k, i, j) == 0);
                        }
                    }
                }
            }
        }
    }
    if capacity_violation(m, n) is None {
        assert forall|i: int, j: int, k: int|
            1 <= i <= n && 1 <= j <= n && 1 <= k <= n && i != j && k != j && m.arc(i, j)
                == 0 implies #[trigger] m.flow(k, i, j) == 0 by {
            let targets = stray_targets(m, n, i);
            let commodities = stray_commodities(m, i, j);
            lemma_first_none(targets, n);
            lemma_first_none(commodities, n);
            assert(!sources(i));
            assert(!targets(j));
            assert(!commodities(k));
        }
    }
}

/// What the capacity check reports is true: the arc it names was not
/// selected, and the commodity it names, which is not the one that the arc
/// delivers to its own node, sends the flow it names over it, which is not
/// zero.
pub proof fn lemma_capacity_violation_is_true(m: SolutionModel, n: int)
    requires
        valid_size(n),
    ensures
        match capacity_violation(m, n) {
            Some(Violation::Capacity { from, to, commodity, flow }) => {
                &&& 1 <= from <= n
                &&& 1 <= to <= n
                &&& 1 <= commodity <= n
                &&& from != to
                &&& commodity != to
                &&& m.arc(from as int, to as int) == 0
                &&& flow == m.flow(commodity as int, from as int, to as int)
                &&& flow != 0
            },
            Some(_) => false,
            None => true,
        },
{
    let sources = stray_sources(m, n);
    lemma_first_from(sources, 1, n);
    let i = first(sources, n);
    if i <= n {
        let targets = stray_targets(m, n, i);
        lemma_first_from(targets, 1, n);
        let j = first(targets, n);
        assert(sources(i));
        assert(targets(j));
        let commodities = stray_commodities(m, i, j);
        lemma_first_from(commodities, 1, n);
        let k = first(commodities, n);
        assert(commodities(k));
    }
}

/// A flow that is not zero, put on an arc that was not selected, is
/// rejected, whatever the commodity, unless it is the commodity that the arc
/// delivers to its own node.
pub proof fn lemma_injected_flow_rejected(
    m: SolutionModel,
    n: int,
    k: int,
    i: int,
    j: int,
    value: u32,
)
    requires
        valid_size(n),
        flow_index_ok(k, i, j, n),
        k != j,
        m.arc(i, j) == 0,
        value != 0,
    ensures
        capacity_violation(m.with_flow(k, i, j, value), n) is Some,
{
    let injected = m.with_flow(k, i, j, value);
    lemma_capacity_pass_iff(injected, n);
    assert(injected.arc(i, j) == 0);
    assert(injected.flow(k, i, j) == value);
}

/// Flows of zero on arcs that were not selected are accepted: a solution
/// that passes the capacity check still passes it when such a flow is set.
pub proof fn lemma_zero_flow_accepted(m: SolutionModel, n: int, k: int, i: int, j: int)
    requires
        valid_size(n),
        capacity_violation(m, n) is None,
    ensures
        capacity_violation(m.with_flow(k, i, j, 0), n) is None,
{
    let zeroed = m.with_flow(k, i, j, 0);
    lemma_capacity_pass_iff(m, n);
    lemma_capacity_pass_iff(zeroed, n);
    assert forall|a: int, b: int, c: int|
        1 <= a <= n && 1 <= b <= n && 1 <= c <= n && a != b && c != b && zeroed.arc(a, b)
            == 0 implies #[trigger] zeroed.flow(c, a, b) == 0 by {
        assert(m.arc(a, b) == 0);
        if (c, a, b) != (k, i, j) {
            assert(m.flow(c, a, b) == 0);
        }
    }
}

/// The largest load of a row is at least the load of every arc in it.
proof fn lemma_row_peak_covers(m: SolutionModel, n: int, i: int, upto: int, j: int)
    requires
        1 <= j <= upto,
        j != i,
    ensures
        load(m, n, i, j) <= row_peak(m, n, i, upto),
    decreases upto,
{
    if j < upto {
        lemma_row_peak_covers(m, n, i, upto - 1, j);
    }
}

/// The largest load of a row is the load of one of its arcs, unless it is 0.
proof fn lemma_row_peak_reached(m: SolutionModel, n: int, i: int, upto: int) -> (j: int)
    requires
        row_peak(m, n, i, upto) > 0,
    ensures
        1 <= j <= upto,
        j != i,
        load(m, n, i, j) == row_peak(m, n, i, upto),
    decreases upto,
{
    if upto != i && load(m, n, i, upto) == row_peak(m, n, i, upto) {
        upto
    } else {
        lemma_row_peak_reached(m, n, i, upto - 1)
    }
}

/// The largest load of the first rows is at least the largest load of each.
proof fn lemma_peak_covers(m: SolutionModel, n: int, upto: int, i: int)
    requires
        1 <= i <= upto,
    ensures
        row_peak(m, n, i, n) <= peak(m, n, upto),
    decreases upto,
{
    if i < upto {
        lemma_peak_covers(m, n, upto - 1, i);
    }
}

/// The largest load of the first rows is the largest load of one of them,
/// unless it is 0.
proof fn lemma_peak_reached(m: SolutionModel, n: int, upto: int) -> (i: int)
    requires
        peak(m, n, upto) > 0,
    ensures
        1 <= i <= upto,
        row_peak(m, n, i, n) == peak(m, n, upto),
    decreases upto,
{
    if row_peak(m, n, upto, n) == peak(m, n, upto) {
        upto
    } else {
        lemma_peak_reached(m, n, upto - 1)
    }
}

/// The implied objective is the largest load of any arc: no arc carries
/// more, and some arc carries as much.
pub proof fn lemma_implied_objective_is_largest(m: SolutionModel, n: int)
    requires
        valid_size(n),
    ensures
        is_largest_load(m, n, implied_objective(m, n)),
{
    assert forall|i: int, j: int| 1 <= i <= n && 1 <= j <= n && i != j implies #[trigger] load(
        m,
        n,
        i,
        j,
    ) <= implied_objective(m, n) by {
        lemma_row_peak_covers(m, n, i, n, j);
        lemma_peak_covers(m, n, n, i);
    }
    if implied_objective(m, n) > 0 {
        let i = lemma_peak_reached(m, n, n);
        let j = lemma_row_peak_reached(m, n, i, n);
        assert(load(m, n, i, j) == implied_objective(m, n));
    } else {
        assert(load(m, n, 1, 2) <= implied_objective(m, n));
        assert(load(m, n, 1, 2) == implied_objective(m, n));
    }
}

/// A solution is valid exactly where the three checks hold of it.
pub proof fn lemma_valid_iff(demand: Seq<Seq<u32>>, m: SolutionModel, n: int, scale: int)
    requires
        valid_size(n),
    ensures
        verdict_of(demand, m, n, scale).accepted() <==> degrees_hold(m, n) && conservation_holds(
            demand,
            m,
            n,
            scale,
        ) && capacity_holds(m, n),
{
    lemma_degrees_pass_iff(m, n);
    lemma_conservation_pass_iff(demand, m, n, scale);
    lemma_capacity_pass_iff(m, n);
}

/// The first check that fails decides: the verdict names what the degree
/// check finds; where that finds nothing, what the conservation check finds;
/// and where that finds nothing either, what the capacity check finds.
pub proof fn lemma_first_failure_decides(
    demand: Seq<Seq<u32>>,
    m: SolutionModel,
    n: int,
    scale: int,
)
    ensures
        degree_violation(m, n) matches Some(v) ==> verdict_of(demand, m, n, scale)
            == Verdict::Invalid(v),
        degree_violation(m, n) is None ==> (conservation_violation(demand, m, n, scale) matches Some(
            v,
        ) ==> verdict_of(demand, m, n, scale) == Verdict::Invalid(v)),
        degree_violation(m, n) is None && conservation_violation(demand, m, n, scale) is None ==> (
        capacity_violation(m, n) matches Some(v) ==> verdict_of(demand, m, n, scale)
            == Verdict::Invalid(v)),
{
}

/// The claimed objective never decides: whatever the solver claims, the
/// solution is valid or invalid as before, for the same reason, and implies
/// the same objective. A claim that differs from the implied objective makes
/// a warning and nothing else.
pub proof fn lemma_claim_never_decides(
    demand: Seq<Seq<u32>>,
    m: SolutionModel,
    n: int,
    scale: int,
    claim: u32,
)
    ensures
        first_violation(demand, m.with_objective(claim), n, scale) == first_violation(
            demand,
            m,
            n,
            scale,
        ),
        implied_objective(m.with_objective(claim), n) == implied_objective(m, n),
        verdict_of(demand, m.with_objective(claim), n, scale).accepted() == verdict_of(
            demand,
            m,
            n,
            scale,
        ).accepted(),
        verdict_of(demand, m.with_objective(claim), n, scale).mismatch() <==> verdict_of(
            demand,
            m,
            n,
            scale,
        ).accepted() && claim != implied_objective(m, n) as u64,
{
    lemma_same_lookups(demand, m.with_objective(claim), m, n, scale);
}

/// Whether two solutions read the same everywhere: every arc and every flow
/// has the same value in both, set or not.
pub open spec fn same_lookups(a: SolutionModel, b: SolutionModel) -> bool {
    &&& forall|i: int, j: int| #[trigger] a.arc(i, j) == b.arc(i, j)
    &&& forall|k: int, i: int, j: int| #[trigger] a.flow(k, i, j) == b.flow(k, i, j)
}

/// Nothing tells an entry that was never set from one that was set to 0: two
/// solutions that read the same everywhere get the same findings and imply
/// the same objective.
pub proof fn lemma_same_lookups(
    demand: Seq<Seq<u32>>,
    a: SolutionModel,
    b: SolutionModel,
    n: int,
    scale: int,
)
    requires
        same_lookups(a, b),
    ensures
        first_violation(demand, a, n, scale) == first_violation(demand, b, n, scale),
        implied_objective(a, n) == implied_objective(b, n),
{
    lemma_same_sums(a, b);
    assert(bad_out(a, n) =~= bad_out(b, n));
    assert(bad_in(a, n) =~= bad_in(b, n));
    assert forall|k: int| unbalanced_nodes(demand, a, n, scale, k) == unbalanced_nodes(
        demand,
        b,
        n,
        scale,
        k,
    ) by {
        assert(unbalanced_nodes(demand, a, n, scale, k) =~= unbalanced_nodes(
            demand,
            b,
            n,
            scale,
            k,
        ));
    }
    assert(unbalanced_commodities(demand, a, n, scale) =~= unbalanced_commodities(
        demand,
        b,
        n,
        scale,
    ));
    assert forall|i: int, j: int| stray_commodities(a, i, j) == stray_commodities(b, i, j) by {
        assert(stray_commodities(a, i, j) =~= stray_commodities(b, i, j));
    }
    assert forall|i: int| stray_targets(a, n, i) == stray_targets(b, n, i) by {
        assert(stray_targets(a, n, i) =~= stray_targets(b, n, i));
    }
    assert(stray_sources(a, n) =~= stray_sources(b, n));
    lemma_same_peak(a, b, n, n);
}

/// Two solutions that read the same everywhere have the same entries to add
/// up.
proof fn lemma_same_sums(a: SolutionModel, b: SolutionModel)
    requires
        same_lookups(a, b),
    ensures
        forall|i: int| #[trigger] arcs_out(a, i) == arcs_out(b, i),
        forall|i: int| #[trigger] arcs_in(a, i) == arcs_in(b, i),
        forall|k: int, i: int| #[trigger] flows_in(a, k, i) == flows_in(b, k, i),
        forall|k: int, i: int| #[trigger] flows_out(a, k, i) == flows_out(b, k, i),
        forall|i: int, j: int| #[trigger] flows_over(a, i, j) == flows_over(b, i, j),
{
    assert forall|i: int| #[trigger] arcs_out(a, i) == arcs_out(b, i) by {
        assert(arcs_out(a, i) =~= arcs_out(b, i));
    }
    assert forall|i: int| #[trigger] arcs_in(a, i) == arcs_in(b, i) by {
        assert(arcs_in(a, i) =~= arcs_in(b, i));
    }
    assert forall|k: int, i: int| #[trigger] flows_in(a, k, i) == flows_in(b, k, i) by {
        assert(flows_in(a, k, i) =~= flows_in(b, k, i));
    }
    assert forall|k: int, i: int| #[trigger] flows_out(a, k, i) == flows_out(b, k, i) by {
        assert(flows_out(a, k, i) =~= flows_out(b, k, i));
    }
    assert forall|i: int, j: int| #[trigger] flows_over(a, i, j) == flows_over(b, i, j) by {
        assert(flows_over(a, i, j) =~= flows_over(b, i, j));
    }
}

/// Two solutions that read the same everywhere have the same largest load.
proof fn lemma_same_peak(a: SolutionModel, b: SolutionModel, n: int, upto: int)
    requires
        same_lookups(a, b),
    ensures
        peak(a, n, upto) == peak(b, n, upto),
    decreases upto,
{
    if upto > 0 {
        lemma_same_peak(a, b, n, upto - 1);
        lemma_same_row_peak(a, b, n, upto, n);
    }
}

/// Two solutions that read the same everywhere have the same largest load in
/// every row.
proof fn lemma_same_row_peak(a: SolutionModel, b: SolutionModel, n: int, i: int, upto: int)
    requires
        same_lookups(a, b),
    ensures
        row_peak(a, n, i, upto) == row_peak(b, n, i, upto),
    decreases upto,
{
    if upto > 0 {
        lemma_same_row_peak(a, b, n, i, upto - 1);
        lemma_same_sums(a, b);
    }
}

/// Setting an entry to 0 that was not set makes no difference to any check
/// or to the implied objective.
pub proof fn lemma_explicit_zero_is_absent(
    demand: Seq<Seq<u32>>,
    m: SolutionModel,
    n: int,
    scale: int,
    k: int,
    i: int,
    j: int,
)
    ensures
        !m.arcs.contains_key((i, j)) ==> verdict_of(demand, m.with_arc(i, j, 0), n, scale)
            == verdict_of(demand, m, n, scale),
        !m.flows.contains_key((k, i, j)) ==> verdict_of(demand, m.with_flow(k, i, j, 0), n, scale)
            == verdict_of(demand, m, n, scale),
{
    if !m.arcs.contains_key((i, j)) {
        lemma_same_lookups(demand, m.with_arc(i, j, 0), m, n, scale);
    }
    if !m.flows.contains_key((k, i, j)) {
        lemma_same_lookups(demand, m.with_flow(k, i, j, 0), m, n, scale);
    }
}

/// Checking the same texts again gives the same outcome, and the same words
/// are said of it: whatever two runs of `check_network` on one input return
/// is the same, and so is what `describe` makes of it.
pub proof fn lemma_rerun_agrees(
    n: usize,
    demand: &str,
    solution: &str,
    once: Result<Verdict, CheckError>,
    again: Result<Verdict, CheckError>,
    words: String,
    words_again: String,
)
    requires
        call_ensures(check_network, (n, demand, solution), once),
        call_ensures(check_network, (n, demand, solution), again),
        call_ensures(describe, (&once,), words),
        call_ensures(describe, (&again,), words_again),
    ensures
        once == again,
        words@ == words_again@,
        once == outcome_of(n as int, demand@, solution@),
        words@ == outcome_text(once),
{
}

/// The number of nodes is looked at before anything else: where it is not
/// one of 5 to 24 the outcome is the same whatever the two texts hold, and
/// where it is, the outcome is never that the size is wrong.
pub proof fn lemma_size_first(n: int, demand: Seq<char>, solution: Seq<char>)
    ensures
        !(5 <= n <= 24) ==> outcome_of(n, demand, solution) == Err::<Verdict, CheckError>(
            CheckError::Size,
        ),
        5 <= n <= 24 ==> outcome_of(n, demand, solution) != Err::<Verdict, CheckError>(
            CheckError::Size,
        ),
{
}

} // verus!
