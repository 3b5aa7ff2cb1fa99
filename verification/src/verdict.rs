//! The verdict on a solution, and the way from the two texts to a verdict.
//!
//! The checks are made in a fixed order: degrees, conservation, capacity. The
//! first one that finds something wrong decides, and nothing after it is
//! looked at. Where all three pass the solution is valid. Its implied
//! objective is then computed and set beside the objective that the solver
//! claims; that the two differ is worth a warning and changes nothing else.

use vstd::prelude::*;
use crate::checks::{
    Violation, capacity_holds, capacity_violation, check_capacity, check_conservation,
    check_degrees, compute_objective, conservation_holds, conservation_violation,
    degree_violation, degrees_hold, implied_objective,
};
use crate::demand::{DemandError, demand_table, parse_demand};
use crate::directive::{parse_solution, solution_of};
use crate::instance::{Instance, SCALE, size_in_range, valid_size};
use crate::solution::{Solution, SolutionError, SolutionModel};

verus! {

/// What the checks say of a solution.
#[derive(Clone, Copy, Debug, PartialEq, Eq, Structural)]
pub enum Verdict {
    /// Every check passed. `computed` is the objective that the solution
    /// implies, `claimed` the one that the solver gave.
    Valid { computed: u64, claimed: u32 },
    /// A check failed, and this is the first thing that was wrong.
    Invalid(Violation),
}

/// Why no verdict could be reached.
#[derive(Clone, Copy, Debug, PartialEq, Eq, Structural)]
pub enum CheckError {
    /// The number of nodes is not an accepted one.
    Size,
    /// The demand table could not be read.
    Demand(DemandError),
    /// The solution could not be read.
    Solution(SolutionError),
}

impl Verdict {
    /// Whether the solution passed every check.
    pub open spec fn accepted(self) -> bool {
        self is Valid
    }

    /// Whether the solution passed every check but implies another objective
    /// than the solver claims.
    pub open spec fn mismatch(self) -> bool {
        match self {
            Verdict::Valid { computed, claimed } => computed != claimed,
            Verdict::Invalid(_) => false,
        }
    }

    /// Tells whether the solution passed every check.
    pub fn is_valid(&self) -> (b: bool)
        ensures
            b == self.accepted(),
    {
        match self {
            Verdict::Valid { .. } => true,
            Verdict::Invalid(_) => false,
        }
    }

    /// Tells whether a warning is due: the solution passed every check but
    /// implies another objective than the solver claims.
    pub fn has_warning(&self) -> (b: bool)
        ensures
            b == self.mismatch(),
    {
        match self {
            Verdict::Valid { computed, claimed } => *computed != *claimed as u64,
            Verdict::Invalid(_) => false,
        }
    }
}

/// The first thing wrong with a solution, going through the checks in order,
/// or nothing where it passes them all.
pub open spec fn first_violation(
    demand: Seq<Seq<u32>>,
    m: SolutionModel,
    n: int,
    scale: int,
) -> Option<Violation> {
    if degree_violation(m, n) is Some {
        degree_violation(m, n)
    } else if conservation_violation(demand, m, n, scale) is Some {
        conservation_violation(demand, m, n, scale)
    } else {
        capacity_violation(m, n)
    }
}

/// The verdict on the solution `m` for the demands `demand` of `n` nodes,
/// with `scale` as the factor between a demand and the flow that meets it.
pub open spec fn verdict_of(demand: Seq<Seq<u32>>, m: SolutionModel, n: int, scale: int) -> Verdict {
    match first_violation(demand, m, n, scale) {
        Some(v) => Verdict::Invalid(v),
        None => Verdict::Valid {
            computed: implied_objective(m, n) as u64,
            claimed: m.objective,
        },
    }
}

/// What checking the solution file `solution` against the demands `demand`
/// of `n` nodes gives: a verdict, or the reason why the file cannot be read.
pub open spec fn run_of(demand: Seq<Seq<u32>>, n: int, solution: Seq<char>) -> Result<
    Verdict,
    SolutionError,
> {
    match solution_of(solution, n) {
        Ok(m) => Ok(verdict_of(demand, m, n, SCALE as int)),
        Err(e) => Err(e),
    }
}

/// What checking the solution file `solution` against the demand table
/// `demand` for `n` nodes gives. The number of nodes is looked at first, then
/// the demand table, then the solution file; what is wrong with an earlier
/// one hides what is wrong with a later one.
pub open spec fn outcome_of(n: int, demand: Seq<char>, solution: Seq<char>) -> Result<
    Verdict,
    CheckError,
> {
    if !valid_size(n) {
        Err(CheckError::Size)
    } else {
        match demand_table(demand, n) {
            Err(e) => Err(CheckError::Demand(e)),
            Ok(matrix) => match run_of(matrix, n, solution) {
                Err(e) => Err(CheckError::Solution(e)),
                Ok(v) => Ok(v),
            },
        }
    }
}

/// Checks a solution against an instance.
pub fn verify(instance: &Instance, solution: &Solution, scale: u32) -> (v: Verdict)
    requires
        instance.wf(),
    ensures
        v == verdict_of(instance@, solution@, instance.size(), scale as int),
        v.accepted() <==> degrees_hold(solution@, instance.size()) && conservation_holds(
            instance@,
            solution@,
            instance.size(),
            scale as int,
        ) && capacity_holds(solution@, instance.size()),
{
    let n = instance.node_count();
    if let Some(v) = check_degrees(solution, n) {
        return Verdict::Invalid(v);
    }
    if let Some(v) = check_conservation(instance, solution, scale) {
        return Verdict::Invalid(v);
    }
    if let Some(v) = check_capacity(solution, n) {
        return Verdict::Invalid(v);
    }
    Verdict::Valid { computed: compute_objective(solution, n), claimed: solution.objective() }
}

/// Reads a solution file and checks the solution against an instance.
pub fn run_checker(instance: &Instance, solution: &str) -> (r: Result<Verdict, SolutionError>)
    requires
        instance.wf(),
    ensures
        r == run_of(instance@, instance.size(), solution@),
{
    match parse_solution(solution, instance.node_count()) {
        Ok(s) => Ok(verify(instance, &s, SCALE)),
        Err(e) => Err(e),
    }
}

/// Reads a demand table for `n` nodes and a solution file, and checks the
/// solution.
pub fn check_network(n: usize, demand: &str, solution: &str) -> (r: Result<Verdict, CheckError>)
    ensures
        r == outcome_of(n as int, demand@, solution@),
{
    if !size_in_range(n) {
        return Err(CheckError::Size);
    }
    match parse_demand(demand, n) {
        Err(e) => Err(CheckError::Demand(e)),
        Ok(instance) => match run_checker(&instance, solution) {
            Err(e) => Err(CheckError::Solution(e)),
            Ok(v) => Ok(v),
        },
    }
}

} // verus!
