use mcmc::chains::{lag_column, pooled_draws};
use mcmc::checks::{
    checked_length, first_draw_where, validate_draws, ESS_MIN_DRAWS, RHAT_MIN_DRAWS,
};
use mcmc::{effective_length, DiagnosticError};

fn ess_checks(chains: &Vec<Vec<f64>>) -> Result<usize, DiagnosticError> {
    validate_draws(
        chains,
        ESS_MIN_DRAWS,
        |x: f64| !x.is_finite(),
        |a: f64, b: f64| (a - b).abs() >= 1e-10,
    )
}

#[test]
fn effective_length_is_the_shortest() {
    assert_eq!(effective_length(&vec![vec![1.0, 2.0, 3.0], vec![1.0], vec![4.0, 5.0]]), Some(1));
    assert_eq!(effective_length(&vec![vec![0u8; 6], vec![0u8; 4]]), Some(4));
    let none: Vec<Vec<f64>> = vec![];
    assert_eq!(effective_length(&none), None);
    assert_eq!(effective_length(&vec![Vec::<f64>::new()]), Some(0));
}

#[test]
fn checked_length_names_the_failure() {
    let none: Vec<Vec<f64>> = vec![];
    assert_eq!(checked_length(&none, RHAT_MIN_DRAWS), Err(DiagnosticError::EmptyInput));
    assert_eq!(
        checked_length(&vec![vec![1.0, 2.0], vec![3.0]], RHAT_MIN_DRAWS),
        Err(DiagnosticError::InsufficientDraws { required: 2, found: 1 })
    );
    assert_eq!(checked_length(&vec![vec![1.0, 2.0], vec![3.0, 4.0, 5.0]], RHAT_MIN_DRAWS), Ok(2));
}

#[test]
fn ess_three_draws_are_insufficient() {
    let chains = vec![vec![1.0, 2.0, 3.0]];
    assert_eq!(
        ess_checks(&chains),
        Err(DiagnosticError::InsufficientDraws { required: 4, found: 3 })
    );
}

#[test]
fn ess_four_draws_pass_the_checks() {
    let chains = vec![vec![1.0, 2.0, 3.0, 4.0]];
    assert_eq!(ess_checks(&chains), Ok(4));
}

#[test]
fn ess_nan_is_non_finite() {
    let chains = vec![vec![1.0, f64::NAN, 3.0, 4.0]];
    assert_eq!(ess_checks(&chains), Err(DiagnosticError::NonFinite { chain: 0, draw: 1 }));
}

#[test]
fn ess_infinity_in_second_chain_is_named() {
    let chains = vec![vec![1.0, 2.0, 3.0, 4.0], vec![1.0, 2.0, 3.0, f64::INFINITY, 9.0]];
    assert_eq!(ess_checks(&chains), Err(DiagnosticError::NonFinite { chain: 1, draw: 3 }));
}

#[test]
fn ess_non_finite_past_effective_length_is_not_read() {
    let chains = vec![vec![1.0, 2.0, 3.0, 4.0, f64::NAN], vec![5.0, 6.0, 7.0, 8.0]];
    assert_eq!(ess_checks(&chains), Ok(4));
}

#[test]
fn ess_constant_chain_is_degenerate() {
    let chains = vec![vec![1.0, 1.0, 1.0, 1.0]];
    assert_eq!(ess_checks(&chains), Err(DiagnosticError::Degenerate));
}

#[test]
fn ess_constant_within_tolerance_is_degenerate() {
    let chains = vec![vec![2.0, 2.0 + 1e-12, 2.0, 2.0], vec![2.0, 2.0, 2.0 - 1e-12, 2.0]];
    assert_eq!(ess_checks(&chains), Err(DiagnosticError::Degenerate));
}

#[test]
fn ess_one_differing_draw_is_not_degenerate() {
    let chains = vec![vec![1.0, 1.0, 1.0, 1.0], vec![1.0, 1.0, 1.0, 1.5]];
    assert_eq!(ess_checks(&chains), Ok(4));
}

#[test]
fn ess_no_chain_is_empty_input() {
    let chains: Vec<Vec<f64>> = vec![];
    assert_eq!(ess_checks(&chains), Err(DiagnosticError::EmptyInput));
}

#[test]
fn first_draw_where_scans_chain_after_chain() {
    let chains = vec![vec![1, 2, 3], vec![4, 5, 6]];
    assert_eq!(first_draw_where(&chains, 3, |x: i32| x % 5 == 0), Some((1, 1)));
    assert_eq!(first_draw_where(&chains, 3, |x: i32| x > 2), Some((0, 2)));
    assert_eq!(first_draw_where(&chains, 2, |x: i32| x == 3 || x == 6), None);
}

#[test]
fn pooled_draws_concatenate_chains() {
    let chains = vec![vec![1.0, 2.0], vec![], vec![3.0, 4.0, 5.0]];
    assert_eq!(pooled_draws(&chains), vec![1.0, 2.0, 3.0, 4.0, 5.0]);
}

#[test]
fn lag_column_takes_one_lag_of_each_chain() {
    let acovs = vec![vec![0.5, 0.25, 0.125], vec![2.0, 1.0, -1.0]];
    assert_eq!(lag_column(&acovs, 1), vec![0.25, 1.0]);
    assert_eq!(lag_column(&acovs, 2), vec![0.125, -1.0]);
}
