use pywr_core::solvers::clp_status::{to_clp_result, ClpSecondaryStatus, ClpSolveStatusError};

#[test]
fn secondary_codes_map_to_statuses() {
    assert_eq!(ClpSecondaryStatus::from(0), ClpSecondaryStatus::NotSet);
    assert_eq!(ClpSecondaryStatus::from(3), ClpSecondaryStatus::ScaledOptimalDualInfeasible);
    assert_eq!(ClpSecondaryStatus::from(11), ClpSecondaryStatus::PresolveInfeasibleOrUnbounded);
    assert_eq!(ClpSecondaryStatus::from(12), ClpSecondaryStatus::Unknown(12));
    assert_eq!(ClpSecondaryStatus::from(-7), ClpSecondaryStatus::Unknown(-7));
}

#[test]
fn primary_codes_map_to_results() {
    assert_eq!(to_clp_result(0, 5), Ok(()));
    assert_eq!(
        to_clp_result(1, 2),
        Err(ClpSolveStatusError::PrimalInfeasible { secondary: ClpSecondaryStatus::ScaledOptimalPrimalInfeasible })
    );
    assert_eq!(
        to_clp_result(2, 0),
        Err(ClpSolveStatusError::DualInfeasible { secondary: ClpSecondaryStatus::NotSet })
    );
    assert_eq!(
        to_clp_result(3, 9),
        Err(ClpSolveStatusError::StoppedOnIterations { secondary: ClpSecondaryStatus::StoppedOnTime })
    );
    assert_eq!(
        to_clp_result(4, 8),
        Err(ClpSolveStatusError::StoppedOnErrors { secondary: ClpSecondaryStatus::BadElementCheck })
    );
    assert_eq!(
        to_clp_result(-1, 99),
        Err(ClpSolveStatusError::Unknown { code: -1, secondary: ClpSecondaryStatus::Unknown(99) })
    );
}

#[test]
fn statuses_describe_themselves() {
    assert_eq!(ClpSecondaryStatus::NotSet.message(), "No secondary status set");
    assert_eq!(ClpSecondaryStatus::StoppedOnTime.message(), "Status was 3 and stopped on time");
    assert_eq!(
        ClpSecondaryStatus::Unknown(-42).message(),
        "An unknown secondary status error occurred in Clp with code -42"
    );
    assert_eq!(
        to_clp_result(1, 0).unwrap_err().message(),
        "The problem is primal infeasible. Secondary status: No secondary status set"
    );
    assert_eq!(
        to_clp_result(7, 123).unwrap_err().message(),
        "An unknown error occurred in Clp with code 7. Secondary status: An unknown secondary status error occurred in Clp with code 123"
    );
}
