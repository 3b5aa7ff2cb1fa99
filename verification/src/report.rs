//! What is said of an outcome, in words.
//!
//! Every text is given twice: as a function of the value that it describes,
//! and by a function that writes it. Numbers are written in decimal.

use vstd::prelude::*;
use vstd::string::StringExecFns;
use crate::checks::Violation;
use crate::demand::DemandError;
use crate::solution::{SolutionError, Variable};
use crate::text::{decimal, push_decimal, push_difference, signed_decimal};
use crate::verdict::{CheckError, Verdict};

verus! {

/// What is said of a violation.
pub open spec fn violation_text(v: Violation) -> Seq<char> {
    match v {
        Violation::OutDegree { node, degree } => "INVALID: Node "@ + decimal(node as nat)
            + " has out-degree "@ + decimal(degree as nat) + " (expected 2)\n"@,
        Violation::InDegree { node, degree } => "INVALID: Node "@ + decimal(node as nat)
            + " has in-degree "@ + decimal(degree as nat) + " (expected 2)\n"@,
        Violation::Conservation { commodity, node, flow_in, flow_out, expected } =>
            "INVALID: Flow conservation violated for commodity "@ + decimal(commodity as nat)
            + " at node "@ + decimal(node as nat) + "\n  Flow in: "@ + decimal(flow_in as nat)
            + ", Flow out: "@ + decimal(flow_out as nat) + ", Net: "@ + signed_decimal(
            flow_in - flow_out,
        ) + ", Expected: "@ + decimal(expected as nat) + "\n"@,
        Violation::Capacity { from, to, commodity, flow } => "INVALID: Flow "@ + decimal(
            flow as nat,
        ) + " of commodity "@ + decimal(commodity as nat) + " on non-existent edge ("@ + decimal(
            from as nat,
        ) + ", "@ + decimal(to as nat) + ")\n"@,
    }
}

/// The words for a verdict. A valid solution gets the two objectives, a
/// warning where they differ, and the closing line. An invalid one gets the
/// words for its violation and the closing line.
pub open spec fn verdict_text(v: Verdict) -> Seq<char> {
    match v {
        Verdict::Valid { computed, claimed } => "Computed maximum flow: "@ + decimal(
            computed as nat,
        ) + "\nSolution objective value: "@ + decimal(claimed as nat) + "\n"@ + (if computed
            != claimed {
            "WARNING: Computed objective ("@ + decimal(computed as nat)
                + ") doesn't match solution objective ("@ + decimal(claimed as nat) + ")\n"@
        } else {
            Seq::<char>::empty()
        }) + "VALID: Solution successfully verified\n"@,
        Verdict::Invalid(violation) => violation_text(violation)
            + "INVALID: Solution verification failed\n"@,
    }
}

/// The name of a kind of variable.
pub open spec fn variable_text(v: Variable) -> Seq<char> {
    match v {
        Variable::Objective => "z value"@,
        Variable::Arc => "x variable"@,
        Variable::Flow => "f variable"@,
    }
}

/// What is said of an error.
pub open spec fn error_text(e: CheckError) -> Seq<char> {
    match e {
        CheckError::Size => "ERROR: instance_size must be between 5 and 24\n"@,
        CheckError::Demand(DemandError::Field { row, column }) =>
            "ERROR: Error parsing demand values: row "@ + decimal(row as nat) + ", column "@
            + decimal(column as nat) + "\n"@,
        CheckError::Demand(DemandError::ColumnCount { row, found }) => "ERROR: Row "@ + decimal(
            row as nat,
        ) + " has only "@ + decimal(found as nat) + " values\n"@,
        CheckError::Demand(DemandError::RowCount { found }) => "ERROR: Demand file has "@
            + decimal(found as nat) + " rows, not one for each node\n"@,
        CheckError::Demand(DemandError::MissingRow { row }) => "ERROR: Demand file has no row "@
            + decimal(row as nat) + "\n"@,
        CheckError::Solution(SolutionError::TooLarge(variable)) => "ERROR: Error parsing "@
            + variable_text(variable) + ": number too large\n"@,
        CheckError::Solution(SolutionError::ArcIndex { i, j }) =>
            "ERROR: Invalid x variable indices: x#"@ + decimal(i as nat) + "#"@ + decimal(
            j as nat,
        ) + "\n"@,
        CheckError::Solution(SolutionError::FlowIndex { k, i, j }) =>
            "ERROR: Invalid f variable indices: f#"@ + decimal(k as nat) + "#"@ + decimal(
            i as nat,
        ) + "#"@ + decimal(j as nat) + "\n"@,
    }
}

/// What is said of an outcome.
pub open spec fn outcome_text(r: Result<Verdict, CheckError>) -> Seq<char> {
    match r {
        Ok(v) => verdict_text(v),
        Err(e) => error_text(e),
    }
}

/// Writes what is said of a violation at the end of `out`.
pub fn write_violation(out: &mut String, v: &Violation)
    ensures
        final(out)@ == old(out)@ + violation_text(*v),
{
    match v {
        Violation::OutDegree { node, degree } => {
            out.append("INVALID: Node ");
            push_decimal(out, *node as u64);
            out.append(" has out-degree ");
            push_decimal(out, *degree);
            out.append(" (expected 2)\n");
        },
        Violation::InDegree { node, degree } => {
            out.append("INVALID: Node ");
            push_decimal(out, *node as u64);
            out.append(" has in-degree ");
            push_decimal(out, *degree);
            out.append(" (expected 2)\n");
        },
        Violation::Conservation { commodity, node, flow_in, flow_out, expected } => {
            out.append("INVALID: Flow conservation violated for commodity ");
            push_decimal(out, *commodity as u64);
            out.append(" at node ");
            push_decimal(out, *node as u64);
            out.append("\n  Flow in: ");
            push_decimal(out, *flow_in);
            out.append(", Flow out: ");
            push_decimal(out, *flow_out);
            out.append(", Net: ");
            push_difference(out, *flow_in, *flow_out);
            out.append(", Expected: ");
            push_decimal(out, *expected);
            out.append("\n");
        },
        Violation::Capacity { from, to, commodity, flow } => {
            out.append("INVALID: Flow ");
            push_decimal(out, *flow as u64);
            out.append(" of commodity ");
            push_decimal(out, *commodity as u64);
            out.append(" on non-existent edge (");
            push_decimal(out, *from as u64);
            out.append(", ");
            push_decimal(out, *to as u64);
            out.append(")\n");
        },
    }
    assert(out@ =~= old(out)@ + violation_text(*v));
}

/// Writes what is said of a verdict at the end of `out`.
pub fn write_verdict(out: &mut String, v: &Verdict)
    ensures
        final(out)@ == old(out)@ + verdict_text(*v),
{
    match v {
        Verdict::Valid { computed, claimed } => {
            out.append("Computed maximum flow: ");
            push_decimal(out, *computed);
            out.append("\nSolution objective value: ");
            push_decimal(out, *claimed as u64);
            out.append("\n");
            if *computed != *claimed as u64 {
                out.append("WARNING: Computed objective (");
                push_decimal(out, *computed);
                out.append(") doesn't match solution objective (");
                push_decimal(out, *claimed as u64);
                out.append(")\n");
            }
            out.append("VALID: Solution successfully verified\n");
        },
        Verdict::Invalid(violation) => {
            write_violation(out, violation);
            out.append("INVALID: Solution verification failed\n");
        },
    }
    assert(out@ =~= old(out)@ + verdict_text(*v));
}

/// The name of a kind of variable.
fn variable_name(v: Variable) -> (s: &'static str)
    ensures
        s@ == variable_text(v),
{
    match v {
        Variable::Objective => "z value",
        Variable::Arc => "x variable",
        Variable::Flow => "f variable",
    }
}

/// Writes what is said of an error at the end of `out`.
pub fn write_error(out: &mut String, e: &CheckError)
    ensures
        final(out)@ == old(out)@ + error_text(*e),
{
    match e {
        CheckError::Size => {
            out.append("ERROR: instance_size must be between 5 and 24\n");
        },
        CheckError::Demand(DemandError::Field { row, column }) => {
            out.append("ERROR: Error parsing demand values: row ");
            push_decimal(out, *row as u64);
            out.append(", column ");
            push_decimal(out, *column as u64);
            out.append("\n");
        },
        CheckError::Demand(DemandError::ColumnCount { row, found }) => {
            out.append("ERROR: Row ");
            push_decimal(out, *row as u64);
            out.append(" has only ");
            push_decimal(out, *found as u64);
            out.append(" values\n");
        },
        CheckError::Demand(DemandError::RowCount { found }) => {
            out.append("ERROR: Demand file has ");
            push_decimal(out, *found as u64);
            out.append(" rows, not one for each node\n");
        },
        CheckError::Demand(DemandError::MissingRow { row }) => {
            out.append("ERROR: Demand file has no row ");
            push_decimal(out, *row as u64);
            out.append("\n");
        },
        CheckError::Solution(SolutionError::TooLarge(variable)) => {
            out.append("ERROR: Error parsing ");
            out.append(variable_name(*variable));
            out.append(": number too large\n");
        },
        CheckError::Solution(SolutionError::ArcIndex { i, j }) => {
            out.append("ERROR: Invalid x variable indices: x#");
            push_decimal(out, *i);
            out.append("#");
            push_decimal(out, *j);
            out.append("\n");
        },
        CheckError::Solution(SolutionError::FlowIndex { k, i, j }) => {
            out.append("ERROR: Invalid f variable indices: f#");
            push_decimal(out, *k);
            out.append("#");
            push_decimal(out, *i);
            out.append("#");
            push_decimal(out, *j);
            out.append("\n");
        },
    }
    assert(out@ =~= old(out)@ + error_text(*e));
}

/// What is said of an outcome.
pub fn describe(r: &Result<Verdict, CheckError>) -> (text: String)
    ensures
        text@ == outcome_text(*r),
{
    let mut text = String::new();
    match r {
        Ok(v) => write_verdict(&mut text, v),
        Err(e) => write_error(&mut text, e),
    }
    assert(text@ =~= outcome_text(*r));
    text
}

} // verus!
