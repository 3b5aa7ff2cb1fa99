use network_check::checks::Violation;
use network_check::demand::DemandError;
use network_check::report::{describe, write_error, write_verdict, write_violation};
use network_check::solution::{SolutionError, Variable};
use network_check::verdict::{CheckError, Verdict};

fn violation(v: Violation) -> String {
    let mut out = String::new();
    write_violation(&mut out, &v);
    out
}

fn error(e: CheckError) -> String {
    let mut out = String::new();
    write_error(&mut out, &e);
    out
}

#[test]
fn words_for_violations() {
    assert_eq!(
        violation(Violation::OutDegree { node: 3, degree: 1 }),
        "INVALID: Node 3 has out-degree 1 (expected 2)\n"
    );
    assert_eq!(
        violation(Violation::InDegree { node: 24, degree: 0 }),
        "INVALID: Node 24 has in-degree 0 (expected 2)\n"
    );
    assert_eq!(
        violation(Violation::Conservation {
            commodity: 2,
            node: 17,
            flow_in: 1500,
            flow_out: 4000,
            expected: 3000
        }),
        "INVALID: Flow conservation violated for commodity 2 at node 17\n  \
         Flow in: 1500, Flow out: 4000, Net: -2500, Expected: 3000\n"
    );
    assert_eq!(
        violation(Violation::Capacity { from: 1, to: 2, commodity: 1, flow: 500 }),
        "INVALID: Flow 500 of commodity 1 on non-existent edge (1, 2)\n"
    );
}

#[test]
fn words_for_verdicts() {
    let mut out = String::from("> ");
    write_verdict(&mut out, &Verdict::Valid { computed: 12, claimed: 12 });
    assert_eq!(
        out,
        "> Computed maximum flow: 12\nSolution objective value: 12\n\
         VALID: Solution successfully verified\n"
    );
    assert_eq!(
        describe(&Ok(Verdict::Valid { computed: 3000, claimed: 2000 })),
        "Computed maximum flow: 3000\nSolution objective value: 2000\n\
         WARNING: Computed objective (3000) doesn't match solution objective (2000)\n\
         VALID: Solution successfully verified\n"
    );
    assert_eq!(
        describe(&Ok(Verdict::Invalid(Violation::InDegree { node: 5, degree: 4 }))),
        "INVALID: Node 5 has in-degree 4 (expected 2)\n\
         INVALID: Solution verification failed\n"
    );
}

#[test]
fn words_for_errors() {
    assert_eq!(error(CheckError::Size), "ERROR: instance_size must be between 5 and 24\n");
    assert_eq!(
        error(CheckError::Demand(DemandError::Field { row: 3, column: 4 })),
        "ERROR: Error parsing demand values: row 3, column 4\n"
    );
    assert_eq!(
        error(CheckError::Demand(DemandError::ColumnCount { row: 2, found: 4 })),
        "ERROR: Row 2 has only 4 values\n"
    );
    assert_eq!(
        error(CheckError::Demand(DemandError::RowCount { found: 23 })),
        "ERROR: Demand file has 23 rows, not one for each node\n"
    );
    assert_eq!(
        error(CheckError::Demand(DemandError::MissingRow { row: 7 })),
        "ERROR: Demand file has no row 7\n"
    );
    assert_eq!(
        error(CheckError::Solution(SolutionError::TooLarge(Variable::Objective))),
        "ERROR: Error parsing z value: number too large\n"
    );
    assert_eq!(
        error(CheckError::Solution(SolutionError::TooLarge(Variable::Arc))),
        "ERROR: Error parsing x variable: number too large\n"
    );
    assert_eq!(
        error(CheckError::Solution(SolutionError::TooLarge(Variable::Flow))),
        "ERROR: Error parsing f variable: number too large\n"
    );
    assert_eq!(
        error(CheckError::Solution(SolutionError::ArcIndex { i: 0, j: 25 })),
        "ERROR: Invalid x variable indices: x#0#25\n"
    );
    assert_eq!(
        describe(&Err(CheckError::Solution(SolutionError::FlowIndex { k: 1, i: 7, j: 7 }))),
        "ERROR: Invalid f variable indices: f#1#7#7\n"
    );
}
