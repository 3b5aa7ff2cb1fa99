use network_check::checks::Violation;
use network_check::demand::DemandError;
use network_check::instance::{parse_size, size_in_range};
use network_check::report::describe;
use network_check::solution::{SolutionError, Variable};
use network_check::verdict::{check_network, CheckError, Verdict};

/// A demand table for `n` nodes, with a header line, in which node `i` asks
/// for `ask(k, i)` of commodity `k`.
fn table(n: usize, ask: fn(usize, usize) -> u32) -> String {
    let mut text = String::from("|   |");
    for c in 1..=n {
        text.push_str(&format!(" {},", c));
    }
    text.push('\n');
    for k in 1..=n {
        text.push_str(&format!("|{}  |", k));
        for i in 1..=n {
            if i > 1 {
                text.push(',');
            }
            text.push_str(&format!(" {}", ask(k, i)));
        }
        text.push_str("|\n");
    }
    text
}

fn nothing(_k: usize, _i: usize) -> u32 {
    0
}

/// The arcs from every node to the nodes `a` and `b` steps further round the
/// circle of `n` nodes.
fn circulant(n: usize, a: usize, b: usize) -> String {
    let mut text = String::from("# arcs\n");
    for i in 1..=n {
        text.push_str(&format!("x#{}#{} 1\n", i, (i - 1 + a) % n + 1));
        text.push_str(&format!("x#{}#{} 1\n", i, (i - 1 + b) % n + 1));
    }
    text
}

/// The arcs of a cycle through `nodes`, in both directions.
fn cycle_both_ways(nodes: &[usize]) -> String {
    let mut text = String::new();
    for at in 0..nodes.len() {
        let here = nodes[at];
        let next = nodes[(at + 1) % nodes.len()];
        text.push_str(&format!("x#{}#{} 1\nx#{}#{} 1\n", here, next, next, here));
    }
    text
}

#[test]
fn two_disjoint_cycles_are_valid() {
    let demand = table(7, nothing);
    let solution = format!(
        "{}{}z 0\n",
        cycle_both_ways(&[1, 2, 3]),
        cycle_both_ways(&[4, 5, 6, 7])
    );
    let outcome = check_network(7, &demand, &solution);
    assert_eq!(outcome, Ok(Verdict::Valid { computed: 0, claimed: 0 }));
    assert!(!outcome.unwrap().has_warning());
    assert_eq!(
        describe(&outcome),
        "Computed maximum flow: 0\nSolution objective value: 0\n\
         VALID: Solution successfully verified\n"
    );
}

#[test]
fn two_disjoint_cycles_with_an_arc_missing_are_invalid() {
    let demand = table(7, nothing);
    let solution = format!(
        "{}{}z 0\n",
        cycle_both_ways(&[1, 2, 3]),
        cycle_both_ways(&[4, 5, 6, 7])
    )
    .replace("x#3#1 1\n", "");
    let outcome = check_network(7, &demand, &solution);
    assert_eq!(
        outcome,
        Ok(Verdict::Invalid(Violation::OutDegree { node: 3, degree: 1 }))
    );
    assert_eq!(
        describe(&outcome),
        "INVALID: Node 3 has out-degree 1 (expected 2)\n\
         INVALID: Solution verification failed\n"
    );
}

#[test]
fn valid_solution_without_flow() {
    let demand = table(5, nothing);
    let solution = format!("{}z 0\n", circulant(5, 1, 2));
    let outcome = check_network(5, &demand, &solution);
    assert_eq!(outcome, Ok(Verdict::Valid { computed: 0, claimed: 0 }));
    assert_eq!(
        describe(&outcome),
        "Computed maximum flow: 0\nSolution objective value: 0\n\
         VALID: Solution successfully verified\n"
    );
}

#[test]
fn valid_solution_with_explicit_zero_flows() {
    let demand = table(6, nothing);
    let mut solution = circulant(6, 1, 2);
    for k in 1..=6 {
        for i in 1..=6 {
            for j in 1..=6 {
                if i != j {
                    solution.push_str(&format!("f#{}#{}#{} 0\n", k, i, j));
                }
            }
        }
    }
    assert_eq!(
        check_network(6, &demand, &solution),
        Ok(Verdict::Valid { computed: 0, claimed: 0 })
    );
}

#[test]
fn missing_arc_is_a_degree_violation() {
    let demand = table(5, nothing);
    let solution = circulant(5, 1, 2).replace("x#3#4 1\n", "");
    let outcome = check_network(5, &demand, &solution);
    assert_eq!(
        outcome,
        Ok(Verdict::Invalid(Violation::OutDegree { node: 3, degree: 1 }))
    );
    assert_eq!(
        describe(&outcome),
        "INVALID: Node 3 has out-degree 1 (expected 2)\n\
         INVALID: Solution verification failed\n"
    );
}

#[test]
fn arc_set_to_zero_counts_as_missing() {
    let demand = table(5, nothing);
    let solution = format!("{}x#3#4 0\n", circulant(5, 1, 2));
    assert_eq!(
        check_network(5, &demand, &solution),
        Ok(Verdict::Invalid(Violation::OutDegree { node: 3, degree: 1 }))
    );
}

#[test]
fn in_degree_is_checked_after_all_out_degrees() {
    let demand = table(5, nothing);
    // Node 3 sends its second arc to node 1 instead of node 5.
    let solution = circulant(5, 1, 2).replace("x#3#5 1\n", "x#3#1 1\n");
    let outcome = check_network(5, &demand, &solution);
    assert_eq!(
        outcome,
        Ok(Verdict::Invalid(Violation::InDegree { node: 1, degree: 3 }))
    );
    assert_eq!(
        describe(&outcome),
        "INVALID: Node 1 has in-degree 3 (expected 2)\n\
         INVALID: Solution verification failed\n"
    );
}

fn one_for_two_of_commodity_one(k: usize, i: usize) -> u32 {
    if k == 1 && i == 2 {
        1
    } else {
        0
    }
}

#[test]
fn flow_on_unselected_arc_is_a_capacity_violation() {
    let demand = table(5, one_for_two_of_commodity_one);
    // The arcs to the nodes two and four steps on: 1 -> 3 and 1 -> 5, not 1 -> 2.
    let solution = format!(
        "{}f#1#1#2 500\nf#1#1#5 500\nf#1#5#2 500\nz 500\n",
        circulant(5, 2, 4)
    );
    let outcome = check_network(5, &demand, &solution);
    assert_eq!(
        outcome,
        Ok(Verdict::Invalid(Violation::Capacity { from: 1, to: 2, commodity: 1, flow: 500 }))
    );
    assert_eq!(
        describe(&outcome),
        "INVALID: Flow 500 of commodity 1 on non-existent edge (1, 2)\n\
         INVALID: Solution verification failed\n"
    );
}

fn three_for_two_of_commodity_one(k: usize, i: usize) -> u32 {
    if k == 1 && i == 2 {
        3
    } else {
        0
    }
}

#[test]
fn objective_mismatch_is_a_warning_only() {
    let demand = table(5, three_for_two_of_commodity_one);
    let solution = format!("{}f#1#1#2 3000\nz 2000\n", circulant(5, 1, 2));
    let outcome = check_network(5, &demand, &solution);
    assert_eq!(outcome, Ok(Verdict::Valid { computed: 3000, claimed: 2000 }));
    let verdict = outcome.unwrap();
    assert!(verdict.is_valid());
    assert!(verdict.has_warning());
    assert_eq!(
        describe(&outcome),
        "Computed maximum flow: 3000\nSolution objective value: 2000\n\
         WARNING: Computed objective (3000) doesn't match solution objective (2000)\n\
         VALID: Solution successfully verified\n"
    );
}

#[test]
fn matching_objective_gives_no_warning() {
    let demand = table(5, three_for_two_of_commodity_one);
    let solution = format!("z 3000\n{}f#1#1#2 3000\n", circulant(5, 1, 2));
    let outcome = check_network(5, &demand, &solution);
    assert_eq!(outcome, Ok(Verdict::Valid { computed: 3000, claimed: 3000 }));
    assert!(!outcome.unwrap().has_warning());
}

#[test]
fn objective_defaults_to_zero() {
    let demand = table(5, three_for_two_of_commodity_one);
    let solution = format!("{}f#1#1#2 3000\n", circulant(5, 1, 2));
    assert_eq!(
        check_network(5, &demand, &solution),
        Ok(Verdict::Valid { computed: 3000, claimed: 0 })
    );
}

#[test]
fn unmet_demand_is_a_conservation_violation() {
    let demand = table(5, three_for_two_of_commodity_one);
    let solution = format!("{}f#1#1#2 2999\n", circulant(5, 1, 2));
    let outcome = check_network(5, &demand, &solution);
    assert_eq!(
        outcome,
        Ok(Verdict::Invalid(Violation::Conservation {
            commodity: 1,
            node: 2,
            flow_in: 2999,
            flow_out: 0,
            expected: 3000
        }))
    );
    assert_eq!(
        describe(&outcome),
        "INVALID: Flow conservation violated for commodity 1 at node 2\n  \
         Flow in: 2999, Flow out: 0, Net: 2999, Expected: 3000\n\
         INVALID: Solution verification failed\n"
    );
}

#[test]
fn smallest_and_largest_size_are_accepted() {
    for n in [5usize, 24] {
        let demand = table(n, nothing);
        let solution = circulant(n, 1, 2);
        assert_eq!(
            check_network(n, &demand, &solution),
            Ok(Verdict::Valid { computed: 0, claimed: 0 })
        );
    }
}

#[test]
fn size_out_of_range_is_refused_first() {
    assert_eq!(check_network(4, "", ""), Err(CheckError::Size));
    assert_eq!(check_network(25, "", ""), Err(CheckError::Size));
    assert_eq!(check_network(0, "", ""), Err(CheckError::Size));
    assert_eq!(check_network(usize::MAX, "", ""), Err(CheckError::Size));
    let demand = table(4, nothing);
    let solution = circulant(4, 1, 2);
    let outcome = check_network(4, &demand, &solution);
    assert_eq!(outcome, Err(CheckError::Size));
    assert_eq!(describe(&outcome), "ERROR: instance_size must be between 5 and 24\n");
}

#[test]
fn size_is_read_from_text() {
    assert_eq!(parse_size("5"), Some(5));
    assert_eq!(parse_size("24"), Some(24));
    assert_eq!(parse_size("+7"), Some(7));
    assert_eq!(parse_size("0012"), Some(12));
    for text in ["4", "25", "0", "", "+", "-5", " 5", "5 ", "five", "5.0", "99999999999999999999"] {
        assert_eq!(parse_size(text), None, "{:?}", text);
    }
    for n in 0..=40usize {
        assert_eq!(size_in_range(n), (5..=24).contains(&n));
        assert_eq!(parse_size(&format!("{}", n)), if size_in_range(n) { Some(n) } else { None });
    }
}

#[test]
fn demand_error_comes_before_solution_error() {
    let solution = "x#9#9 1\n";
    assert_eq!(
        check_network(5, "", solution),
        Err(CheckError::Demand(DemandError::RowCount { found: 0 }))
    );
    let demand = table(5, nothing);
    assert_eq!(
        check_network(5, &demand, solution),
        Err(CheckError::Solution(SolutionError::ArcIndex { i: 9, j: 9 }))
    );
}

#[test]
fn unreadable_solution_is_an_error_not_a_verdict() {
    let demand = table(5, nothing);
    let outcome = check_network(5, &demand, "z 99999999999\n");
    assert_eq!(
        outcome,
        Err(CheckError::Solution(SolutionError::TooLarge(Variable::Objective)))
    );
    assert_eq!(describe(&outcome), "ERROR: Error parsing z value: number too large\n");
}

#[test]
fn same_input_gives_same_outcome_and_words() {
    let demand = table(5, three_for_two_of_commodity_one);
    let solution = format!("{}f#1#1#2 2999\nz 7\n", circulant(5, 1, 2));
    let once = check_network(5, &demand, &solution);
    let again = check_network(5, &demand, &solution);
    assert_eq!(once, again);
    assert_eq!(describe(&once), describe(&again));
}
