use polars_planner::physical::PlanError;
use polars_planner::plan::{AcceptAll, RejectImplode, StateCheck};
use polars_planner::state::{ExpressionConversionState, LocalConversionState};

#[test]
fn a_fresh_state_knows_of_nothing() {
    for allow_threading in [false, true] {
        let state = ExpressionConversionState::new(allow_threading);
        assert_eq!(state.allow_threading, allow_threading);
        assert!(!state.has_cache);
        assert!(!state.has_windows);
        assert!(!state.has_implode());
        assert_eq!(state.local, LocalConversionState::default());
    }
}

#[test]
fn the_default_state_allows_no_threads() {
    assert_eq!(ExpressionConversionState::default(), ExpressionConversionState::new(false));
}

#[test]
fn a_window_is_noted_for_the_expression_and_the_context() {
    let mut state = ExpressionConversionState::new(true);
    state.set_window();
    assert!(state.has_windows);
    assert!(state.local.has_window);
    assert!(!state.has_implode());
}

#[test]
fn a_reset_forgets_the_expression_only() {
    let mut state = ExpressionConversionState::new(true);
    state.has_cache = true;
    state.set_window();
    state.note_agg(true);
    assert!(state.has_implode());
    state.reset();
    assert_eq!(state.local, LocalConversionState::default());
    assert!(state.has_windows);
    assert!(state.has_cache);
    assert!(state.allow_threading);
}

#[test]
fn an_aggregation_does_not_clear_an_implode() {
    let mut state = ExpressionConversionState::new(false);
    state.note_agg(false);
    assert!(!state.has_implode());
    state.note_agg(true);
    state.note_agg(false);
    assert!(state.has_implode());
}

#[test]
fn checks_look_at_the_implode() {
    let mut state = ExpressionConversionState::new(false);
    assert!(RejectImplode { active: true }.check(&state).is_ok());
    state.note_agg(true);
    assert!(AcceptAll.check(&state).is_ok());
    assert!(RejectImplode { active: false }.check(&state).is_ok());
    assert!(matches!(
        RejectImplode { active: true }.check(&state),
        Err(PlanError::ImplodeThenAggregation)
    ));
}
