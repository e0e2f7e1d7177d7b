//! What the status codes that Clp returns from a solve mean.

use vstd::prelude::*;

use crate::text::{i32_to_decimal, signed_decimal};

verus! {

/// Secondary status codes from Clp.
#[derive(Debug, Clone, Copy, PartialEq, Eq, Structural)]
pub enum ClpSecondaryStatus {
    NotSet,
    MaybePrimalInfeasible,
    ScaledOptimalPrimalInfeasible,
    ScaledOptimalDualInfeasible,
    ScaledOptimalPrimalAndDualInfeasible,
    GivingUpPrimal,
    EmptyProblemCheck,
    PostSolveNotOptimal,
    BadElementCheck,
    StoppedOnTime,
    StoppedAsPrimalFeasible,
    PresolveInfeasibleOrUnbounded,
    Unknown(i32),
}

/// The secondary status that a code stands for: codes 0 to 11 in the order of the variants,
/// any other code unknown.
pub open spec fn secondary_status_of(code: i32) -> ClpSecondaryStatus {
    if code == 0 {
        ClpSecondaryStatus::NotSet
    } else if code == 1 {
        ClpSecondaryStatus::MaybePrimalInfeasible
    } else if code == 2 {
        ClpSecondaryStatus::ScaledOptimalPrimalInfeasible
    } else if code == 3 {
        ClpSecondaryStatus::ScaledOptimalDualInfeasible
    } else if code == 4 {
        ClpSecondaryStatus::ScaledOptimalPrimalAndDualInfeasible
    } else if code == 5 {
        ClpSecondaryStatus::GivingUpPrimal
    } else if code == 6 {
        ClpSecondaryStatus::EmptyProblemCheck
    } else if code == 7 {
        ClpSecondaryStatus::PostSolveNotOptimal
    } else if code == 8 {
        ClpSecondaryStatus::BadElementCheck
    } else if code == 9 {
        ClpSecondaryStatus::StoppedOnTime
    } else if code == 10 {
        ClpSecondaryStatus::StoppedAsPrimalFeasible
    } else if code == 11 {
        ClpSecondaryStatus::PresolveInfeasibleOrUnbounded
    } else {
        ClpSecondaryStatus::Unknown(code)
    }
}

impl From<i32> for ClpSecondaryStatus {
    fn from(code: i32) -> (r: Self) {
        match code {
            0 => ClpSecondaryStatus::NotSet,
            1 => ClpSecondaryStatus::MaybePrimalInfeasible,
            2 => ClpSecondaryStatus::ScaledOptimalPrimalInfeasible,
            3 => ClpSecondaryStatus::ScaledOptimalDualInfeasible,
            4 => ClpSecondaryStatus::ScaledOptimalPrimalAndDualInfeasible,
            5 => ClpSecondaryStatus::GivingUpPrimal,
            6 => ClpSecondaryStatus::EmptyProblemCheck,
            7 => ClpSecondaryStatus::PostSolveNotOptimal,
            8 => ClpSecondaryStatus::BadElementCheck,
            9 => ClpSecondaryStatus::StoppedOnTime,
            10 => ClpSecondaryStatus::StoppedAsPrimalFeasible,
            11 => ClpSecondaryStatus::PresolveInfeasibleOrUnbounded,
            other => ClpSecondaryStatus::Unknown(other),
        }
    }
}

impl vstd::std_specs::convert::FromSpecImpl<i32> for ClpSecondaryStatus {
    open spec fn obeys_from_spec() -> bool {
        true
    }

    open spec fn from_spec(code: i32) -> Self {
        secondary_status_of(code)
    }
}

/// The description of a secondary status.
pub open spec fn secondary_status_message(status: ClpSecondaryStatus) -> Seq<char> {
    match status {
        ClpSecondaryStatus::NotSet => "No secondary status set"@,
        ClpSecondaryStatus::MaybePrimalInfeasible =>
            "Primal infeasible because dual limit reached OR (probably primal infeasible but can't prove it - main status was 4)"@,
        ClpSecondaryStatus::ScaledOptimalPrimalInfeasible =>
            "Scaled problem optimal - unscaled problem has primal infeasibilities"@,
        ClpSecondaryStatus::ScaledOptimalDualInfeasible =>
            "Scaled problem optimal - unscaled problem has dual infeasibilities"@,
        ClpSecondaryStatus::ScaledOptimalPrimalAndDualInfeasible =>
            "Scaled problem optimal - unscaled problem has primal and dual infeasibilities"@,
        ClpSecondaryStatus::GivingUpPrimal => "Giving up in primal with flagged variables"@,
        ClpSecondaryStatus::EmptyProblemCheck => "Failed due to empty problem check"@,
        ClpSecondaryStatus::PostSolveNotOptimal => "PostSolve says not optimal"@,
        ClpSecondaryStatus::BadElementCheck => "Failed due to bad element check"@,
        ClpSecondaryStatus::StoppedOnTime => "Status was 3 and stopped on time"@,
        ClpSecondaryStatus::StoppedAsPrimalFeasible => "Status was 3 but stopped as primal feasible"@,
        ClpSecondaryStatus::PresolveInfeasibleOrUnbounded =>
            "Status was 1/2 from presolve found infeasible or unbounded"@,
        ClpSecondaryStatus::Unknown(code) => "An unknown secondary status error occurred in Clp with code "@
            + signed_decimal(code as int),
    }
}

impl ClpSecondaryStatus {
    /// The description of the status, as its `Display` gives it.
    pub fn message(&self) -> (r: String)
        ensures
            r@ == secondary_status_message(*self),
    {
        match self {
            ClpSecondaryStatus::NotSet => String::from_str("No secondary status set"),
            ClpSecondaryStatus::MaybePrimalInfeasible => String::from_str(
                "Primal infeasible because dual limit reached OR (probably primal infeasible but can't prove it - main status was 4)",
            ),
            ClpSecondaryStatus::ScaledOptimalPrimalInfeasible => String::from_str(
                "Scaled problem optimal - unscaled problem has primal infeasibilities",
            ),
            ClpSecondaryStatus::ScaledOptimalDualInfeasible => String::from_str(
                "Scaled problem optimal - unscaled problem has dual infeasibilities",
            ),
            ClpSecondaryStatus::ScaledOptimalPrimalAndDualInfeasible => String::from_str(
                "Scaled problem optimal - unscaled problem has primal and dual infeasibilities",
            ),
            ClpSecondaryStatus::GivingUpPrimal => String::from_str("Giving up in primal with flagged variables"),
            ClpSecondaryStatus::EmptyProblemCheck => String::from_str("Failed due to empty problem check"),
            ClpSecondaryStatus::PostSolveNotOptimal => String::from_str("PostSolve says not optimal"),
            ClpSecondaryStatus::BadElementCheck => String::from_str("Failed due to bad element check"),
            ClpSecondaryStatus::StoppedOnTime => String::from_str("Status was 3 and stopped on time"),
            ClpSecondaryStatus::StoppedAsPrimalFeasible => String::from_str(
                "Status was 3 but stopped as primal feasible",
            ),
            ClpSecondaryStatus::PresolveInfeasibleOrUnbounded => String::from_str(
                "Status was 1/2 from presolve found infeasible or unbounded",
            ),
            ClpSecondaryStatus::Unknown(code) => {
                let mut text = String::from_str("An unknown secondary status error occurred in Clp with code ");
                let digits = i32_to_decimal(*code);
                text.append(digits.as_str());
                text
            },
        }
    }
}

/// Why a Clp solve did not reach an optimum: its primary status and its secondary status.
#[derive(Debug, Clone, Copy, PartialEq, Eq, Structural)]
pub enum ClpSolveStatusError {
    PrimalInfeasible { secondary: ClpSecondaryStatus },
    DualInfeasible { secondary: ClpSecondaryStatus },
    StoppedOnIterations { secondary: ClpSecondaryStatus },
    StoppedOnErrors { secondary: ClpSecondaryStatus },
    Unknown { code: i32, secondary: ClpSecondaryStatus },
}

/// What a pair of Clp status codes means: success for a primary status of 0; otherwise the
/// error of the primary status (1 to 4, any other unknown), with the secondary status.
pub open spec fn clp_result_of(code: i32, secondary: i32) -> Result<(), ClpSolveStatusError> {
    let s = secondary_status_of(secondary);
    if code == 0 {
        Ok(())
    } else if code == 1 {
        Err(ClpSolveStatusError::PrimalInfeasible { secondary: s })
    } else if code == 2 {
        Err(ClpSolveStatusError::DualInfeasible { secondary: s })
    } else if code == 3 {
        Err(ClpSolveStatusError::StoppedOnIterations { secondary: s })
    } else if code == 4 {
        Err(ClpSolveStatusError::StoppedOnErrors { secondary: s })
    } else {
        Err(ClpSolveStatusError::Unknown { code, secondary: s })
    }
}

/// Converts the status codes of a Clp solve to a result (see [`clp_result_of`]).
pub fn to_clp_result(code: i32, secondary: i32) -> (r: Result<(), ClpSolveStatusError>)
    ensures
        r == clp_result_of(code, secondary),
{
    let secondary_status = ClpSecondaryStatus::from(secondary);
    match code {
        0 => Ok(()),
        1 => Err(ClpSolveStatusError::PrimalInfeasible { secondary: secondary_status }),
        2 => Err(ClpSolveStatusError::DualInfeasible { secondary: secondary_status }),
        3 => Err(ClpSolveStatusError::StoppedOnIterations { secondary: secondary_status }),
        4 => Err(ClpSolveStatusError::StoppedOnErrors { secondary: secondary_status }),
        other => Err(ClpSolveStatusError::Unknown { code: other, secondary: secondary_status }),
    }
}

/// The description of a solve's error, as its `Display` gives it.
pub open spec fn solve_error_message(e: ClpSolveStatusError) -> Seq<char> {
    match e {
        ClpSolveStatusError::PrimalInfeasible { secondary } => "The problem is primal infeasible. Secondary status: "@
            + secondary_status_message(secondary),
        ClpSolveStatusError::DualInfeasible { secondary } => "The problem is dual infeasible. Secondary status: "@
            + secondary_status_message(secondary),
        ClpSolveStatusError::StoppedOnIterations { secondary } =>
            "The problem is stopped on iterations. Secondary status: "@ + secondary_status_message(secondary),
        ClpSolveStatusError::StoppedOnErrors { secondary } =>
            "The problem is stopped due to errors. Secondary status: "@ + secondary_status_message(secondary),
        ClpSolveStatusError::Unknown { code, secondary } => "An unknown error occurred in Clp with code "@
            + signed_decimal(code as int) + ". Secondary status: "@ + secondary_status_message(secondary),
    }
}

impl ClpSolveStatusError {
    /// The description of the error, as its `Display` gives it.
    pub fn message(&self) -> (r: String)
        ensures
            r@ == solve_error_message(*self),
    {
        match self {
            ClpSolveStatusError::PrimalInfeasible { secondary } => {
                let mut text = String::from_str("The problem is primal infeasible. Secondary status: ");
                let detail = secondary.message();
                text.append(detail.as_str());
                text
            },
            ClpSolveStatusError::DualInfeasible { secondary } => {
                let mut text = String::from_str("The problem is dual infeasible. Secondary status: ");
                let detail = secondary.message();
                text.append(detail.as_str());
                text
            },
            ClpSolveStatusError::StoppedOnIterations { secondary } => {
                let mut text = String::from_str("The problem is stopped on iterations. Secondary status: ");
                let detail = secondary.message();
                text.append(detail.as_str());
                text
            },
            ClpSolveStatusError::StoppedOnErrors { secondary } => {
                let mut text = String::from_str("The problem is stopped due to errors. Secondary status: ");
                let detail = secondary.message();
                text.append(detail.as_str());
                text
            },
            ClpSolveStatusError::Unknown { code, secondary } => {
                let mut text = String::from_str("An unknown error occurred in Clp with code ");
                let digits = i32_to_decimal(*code);
                text.append(digits.as_str());
                text.append(". Secondary status: ");
                let detail = secondary.message();
                text.append(detail.as_str());
                text
            },
        }
    }
}

/// The code of a secondary status: its position in Clp's documented list, or the code it was
/// read from where it is unknown.
pub open spec fn secondary_code(status: ClpSecondaryStatus) -> i32 {
    match status {
        ClpSecondaryStatus::NotSet => 0,
        ClpSecondaryStatus::MaybePrimalInfeasible => 1,
        ClpSecondaryStatus::ScaledOptimalPrimalInfeasible => 2,
        ClpSecondaryStatus::ScaledOptimalDualInfeasible => 3,
        ClpSecondaryStatus::ScaledOptimalPrimalAndDualInfeasible => 4,
        ClpSecondaryStatus::GivingUpPrimal => 5,
        ClpSecondaryStatus::EmptyProblemCheck => 6,
        ClpSecondaryStatus::PostSolveNotOptimal => 7,
        ClpSecondaryStatus::BadElementCheck => 8,
        ClpSecondaryStatus::StoppedOnTime => 9,
        ClpSecondaryStatus::StoppedAsPrimalFeasible => 10,
        ClpSecondaryStatus::PresolveInfeasibleOrUnbounded => 11,
        ClpSecondaryStatus::Unknown(code) => code,
    }
}

/// Clp's secondary status codes, in its documented order: 0 no status, 1 maybe primal
/// infeasible, 2 to 4 scaled optimal with primal, dual, or both infeasibilities, 5 giving up
/// in primal, 6 the empty problem check, 7 postsolve not optimal, 8 the bad element check,
/// 9 stopped on time, 10 stopped as primal feasible, 11 presolve found the problem infeasible
/// or unbounded; every other code is unknown and keeps its value. Reading a code gives back
/// the code, and each status comes from exactly one code.
pub proof fn law_secondary_codes(code: i32, status: ClpSecondaryStatus)
    ensures
        secondary_status_of(0) == ClpSecondaryStatus::NotSet,
        secondary_status_of(1) == ClpSecondaryStatus::MaybePrimalInfeasible,
        secondary_status_of(2) == ClpSecondaryStatus::ScaledOptimalPrimalInfeasible,
        secondary_status_of(3) == ClpSecondaryStatus::ScaledOptimalDualInfeasible,
        secondary_status_of(4) == ClpSecondaryStatus::ScaledOptimalPrimalAndDualInfeasible,
        secondary_status_of(5) == ClpSecondaryStatus::GivingUpPrimal,
        secondary_status_of(6) == ClpSecondaryStatus::EmptyProblemCheck,
        secondary_status_of(7) == ClpSecondaryStatus::PostSolveNotOptimal,
        secondary_status_of(8) == ClpSecondaryStatus::BadElementCheck,
        secondary_status_of(9) == ClpSecondaryStatus::StoppedOnTime,
        secondary_status_of(10) == ClpSecondaryStatus::StoppedAsPrimalFeasible,
        secondary_status_of(11) == ClpSecondaryStatus::PresolveInfeasibleOrUnbounded,
        !(0 <= code <= 11) ==> secondary_status_of(code) == ClpSecondaryStatus::Unknown(code),
        secondary_code(secondary_status_of(code)) == code,
        (status !is Unknown || !(0 <= secondary_code(status) <= 11)) ==> secondary_status_of(
            secondary_code(status),
        ) == status,
{
}

} // verus!
