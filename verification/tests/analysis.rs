use dub_library::analysis::{analysis_plan, may_analyze, AnalysisFindings, AnalysisRefusal, AnalysisState};

fn state(locked: bool, grid: bool, key: bool) -> AnalysisState {
    AnalysisState { grid_locked: locked, other_grid_active: grid, other_key_active: key }
}

#[test]
fn a_locked_grid_refuses_the_pass() {
    assert_eq!(may_analyze(&state(true, false, false)), Err(AnalysisRefusal::GridLocked));
    assert_eq!(may_analyze(&state(false, true, true)), Ok(()));
}

#[test]
fn auto_rows_are_active_only_without_an_active_import() {
    let found = AnalysisFindings { grid_found: true, key_found: true };
    let alone = analysis_plan(&state(false, false, false), &found);
    assert!(alone.demote_user_tap && alone.write_grid && alone.grid_auto_is_active);
    assert!(alone.write_key && alone.key_auto_is_active);
    let imported = analysis_plan(&state(false, true, true), &found);
    assert!(imported.write_grid && !imported.grid_auto_is_active);
    assert!(imported.write_key && !imported.key_auto_is_active);
}

#[test]
fn nothing_found_writes_nothing() {
    let p = analysis_plan(&state(false, false, false), &AnalysisFindings { grid_found: false, key_found: false });
    assert!(p.demote_user_tap);
    assert!(!p.write_grid && !p.grid_auto_is_active && !p.write_key && !p.key_auto_is_active);
}
