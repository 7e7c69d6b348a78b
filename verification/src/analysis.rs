//! The decisions of an analysis pass over one track: whether it may run at
//! all, and which of its results are written and made active.
//!
//! A locked grid refuses the whole pass. Otherwise the pass demotes any
//! active tapped grid (a re-analysis is a reset), writes an auto grid and an
//! auto key only when the analysers found one with positive confidence, and
//! makes each auto row active only when no imported row of that kind is
//! active: an imported grid or key stays in charge.

use vstd::prelude::*;

verus! {

/// What the database says of a track before its analysis pass.
#[derive(Debug, Clone, Copy)]
pub struct AnalysisState {
    /// The user locked the track's grid.
    pub grid_locked: bool,
    /// A grid from a source other than the analyser is active.
    pub other_grid_active: bool,
    /// A key from a source other than the analyser is active.
    pub other_key_active: bool,
}

/// What the analysers found (a positive confidence each).
#[derive(Debug, Clone, Copy)]
pub struct AnalysisFindings {
    /// The beat-grid analyser found a grid.
    pub grid_found: bool,
    /// The key analyser found a key.
    pub key_found: bool,
}

/// The writes of an analysis pass.
#[derive(Debug, Clone, Copy)]
pub struct AnalysisPlan {
    /// Demote any active tapped grid before writing.
    pub demote_user_tap: bool,
    /// Write (or refresh) the auto grid row.
    pub write_grid: bool,
    /// The auto grid row is the active one.
    pub grid_auto_is_active: bool,
    /// Write (or refresh) the auto key row.
    pub write_key: bool,
    /// The auto key row is the active one.
    pub key_auto_is_active: bool,
}

/// Why an analysis pass did not run.
#[derive(Debug, Clone, Copy, PartialEq, Eq, Structural)]
pub enum AnalysisRefusal {
    /// The grid is locked: the lock is absolute.
    GridLocked,
}

/// Whether an analysis pass may run: a locked grid refuses it.
pub fn may_analyze(state: &AnalysisState) -> (r: Result<(), AnalysisRefusal>)
    ensures
        r is Err <==> state.grid_locked,
        r matches Err(e) ==> e == AnalysisRefusal::GridLocked,
{
    if state.grid_locked {
        Err(AnalysisRefusal::GridLocked)
    } else {
        Ok(())
    }
}

/// The writes of an unlocked pass: always demote a tapped grid; write each
/// result found; make it active unless an imported row of its kind is.
pub open spec fn plan_of(state: AnalysisState, found: AnalysisFindings) -> AnalysisPlan {
    AnalysisPlan {
        demote_user_tap: true,
        write_grid: found.grid_found,
        grid_auto_is_active: found.grid_found && !state.other_grid_active,
        write_key: found.key_found,
        key_auto_is_active: found.key_found && !state.other_key_active,
    }
}

/// The writes of an unlocked analysis pass, given what it found.
pub fn analysis_plan(state: &AnalysisState, found: &AnalysisFindings) -> (p: AnalysisPlan)
    requires
        !state.grid_locked,
    ensures
        p == plan_of(*state, *found),
{
    AnalysisPlan {
        demote_user_tap: true,
        write_grid: found.grid_found,
        grid_auto_is_active: found.grid_found && !state.other_grid_active,
        write_key: found.key_found,
        key_auto_is_active: found.key_found && !state.other_key_active,
    }
}

/// An imported grid or key that is active stays active: the pass never makes
/// its own row active over it, and a pass that found nothing makes nothing
/// active.
pub proof fn lemma_imports_keep_priority(state: AnalysisState, found: AnalysisFindings)
    ensures
        state.other_grid_active ==> !plan_of(state, found).grid_auto_is_active,
        state.other_key_active ==> !plan_of(state, found).key_auto_is_active,
        plan_of(state, found).grid_auto_is_active ==> plan_of(state, found).write_grid,
        plan_of(state, found).key_auto_is_active ==> plan_of(state, found).write_key,
{
}

} // verus!
