//! Rebinding the plugins that Desktop manages to the active core.
//!
//! The user's selection is logical state kept in the settings; what the
//! profile depends on is its projection for the active core's artifact set.
//! After a core switch the shell gathers what it knows of each selected
//! plugin, and these functions decide what to uninstall and what to install.

use vstd::prelude::*;
use crate::order::views;

verus! {

/// What the shell knows of a selected plugin before refreshing the core's own
/// plugins.
#[derive(Debug, Clone)]
pub struct SelectedPlugin {
    pub id: String,
    /// The active core ships this capability itself.
    pub provided_by_core: bool,
    /// An overriding plugin is installed in the profile.
    pub installed: bool,
}

/// Whether the installed override of a plugin must go: the active core
/// provides the capability natively. The selection itself stays.
pub open spec fn needs_uninstall(p: SelectedPlugin) -> bool {
    p.provided_by_core && p.installed
}

/// The plugins whose overrides are uninstalled, in selection order.
pub fn recovery_uninstalls(selected: &Vec<SelectedPlugin>) -> (res: Vec<String>)
    ensures
        views(res@) == selected@.filter(|p: SelectedPlugin| needs_uninstall(p)).map_values(
            |p: SelectedPlugin| p.id@,
        ),
{
    let ghost pred = |p: SelectedPlugin| needs_uninstall(p);
    let mut res: Vec<String> = Vec::new();
    let mut i: usize = 0;
    assert(selected@.take(0).filter(pred) =~= Seq::<SelectedPlugin>::empty()) by {
        reveal(Seq::filter);
    }
    while i < selected.len()
        invariant
            i <= selected.len(),
            pred == (|p: SelectedPlugin| needs_uninstall(p)),
            views(res@) == selected@.take(i as int).filter(pred).map_values(|p: SelectedPlugin| p.id@),
        decreases selected.len() - i,
    {
        let p = &selected[i];
        proof {
            assert(selected@.take(i + 1) =~= selected@.take(i as int).push(selected@[i as int]));
            selected@.take(i as int).lemma_filter_push(selected@[i as int], pred);
        }
        let ghost before = res@;
        if p.provided_by_core && p.installed {
            let id = p.id.clone();
            res.push(id);
            assert(views(res@) =~= views(before).push(id@));
        }
        assert(views(res@) =~= selected@.take(i + 1).filter(pred).map_values(
            |p: SelectedPlugin| p.id@,
        ));
        i = i + 1;
    }
    assert(selected@.take(selected.len() as int) =~= selected@);
    res
}

/// What the shell knows of a selected plugin's projection in the profile.
#[derive(Debug, Clone)]
pub struct ProjectionState {
    pub id: String,
    /// The active core ships this capability itself.
    pub provided_by_core: bool,
    /// The plugin is among the known presets.
    pub preset_known: bool,
    /// The profile holds the plugin's package entry.
    pub entry_ready: bool,
    /// The profile's dependency points at the active artifact set.
    pub projection_ready: bool,
}

/// Whether a plugin's projection is (re)installed: it is not provided by the
/// core and is unknown as a preset, or its entry or projection is missing.
pub open spec fn needs_install(p: ProjectionState) -> bool {
    !p.provided_by_core && (!p.preset_known || !p.entry_ready || !p.projection_ready)
}

/// The plugins whose projections are installed, in selection order; none
/// means the profile already matches the active artifact set.
pub fn projection_installs(states: &Vec<ProjectionState>) -> (res: Vec<String>)
    ensures
        views(res@) == states@.filter(|p: ProjectionState| needs_install(p)).map_values(
            |p: ProjectionState| p.id@,
        ),
{
    let ghost pred = |p: ProjectionState| needs_install(p);
    let mut res: Vec<String> = Vec::new();
    let mut i: usize = 0;
    assert(states@.take(0).filter(pred) =~= Seq::<ProjectionState>::empty()) by {
        reveal(Seq::filter);
    }
    while i < states.len()
        invariant
            i <= states.len(),
            pred == (|p: ProjectionState| needs_install(p)),
            views(res@) == states@.take(i as int).filter(pred).map_values(
                |p: ProjectionState| p.id@,
            ),
        decreases states.len() - i,
    {
        let p = &states[i];
        proof {
            assert(states@.take(i + 1) =~= states@.take(i as int).push(states@[i as int]));
            states@.take(i as int).lemma_filter_push(states@[i as int], pred);
        }
        let ghost before = res@;
        if !p.provided_by_core && (!p.preset_known || !p.entry_ready || !p.projection_ready) {
            let id = p.id.clone();
            res.push(id);
            assert(views(res@) =~= views(before).push(id@));
        }
        assert(views(res@) =~= states@.take(i + 1).filter(pred).map_values(
            |p: ProjectionState| p.id@,
        ));
        i = i + 1;
    }
    assert(states@.take(states.len() as int) =~= states@);
    res
}

/// Where a rebind stands.
#[derive(Debug)]
pub enum RebindPhase {
    /// Uninstalling the override at this position of the uninstall list.
    Uninstalling { next: usize },
    /// Refreshing the core's own internal plugins.
    EnsuringInternal,
    /// Waiting for the projection states of the selected plugins.
    Gathering,
    /// Installing the stale projections.
    Installing,
    /// Running the compatibility gate of the active core.
    Checking,
    Finished,
}

/// What the caller does next during a rebind.
#[derive(Debug)]
pub enum RebindStep {
    /// Uninstall the override of this plugin (the selection stays).
    Uninstall(String),
    /// Refresh the core's internal plugins.
    EnsureInternal,
    /// Stage the preset artifacts and report each selected plugin's projection
    /// (through `gathered`).
    GatherProjections,
    /// Install these projections, in one run of the installer.
    Install(Vec<String>),
    /// Require the active core and profile to be compatible.
    RequireCompatible,
    /// Stop: `Ok` only when the compatibility gate passed.
    Finish(Result<(), String>),
}

/// A rebind of the managed plugins to the active core, in progress.
#[derive(Debug)]
pub struct Rebind {
    pub uninstalls: Vec<String>,
    pub phase: RebindPhase,
}

impl Rebind {
    /// The phase refers to an override that exists.
    pub open spec fn well_formed(&self) -> bool {
        self.phase matches RebindPhase::Uninstalling { next } ==> next < self.uninstalls.len()
    }
}

/// The transition of a rebind on the outcome of the last step (all phases
/// but `Gathering`, which waits for projection states instead).
///
/// The overrides are uninstalled in order, then the internal plugins are
/// refreshed, then the projections are gathered; after an install the
/// compatibility gate runs, and its outcome ends the rebind. Any failure ends
/// the rebind with that failure.
pub open spec fn rebind_next(
    uninstalls: Seq<String>,
    phase: RebindPhase,
    outcome: Result<(), String>,
) -> (RebindPhase, RebindStep) {
    match outcome {
        Err(e) => (RebindPhase::Finished, RebindStep::Finish(Err(e))),
        Ok(_) => match phase {
            RebindPhase::Uninstalling { next } => if next + 1 < uninstalls.len() {
                (
                    RebindPhase::Uninstalling { next: (next + 1) as usize },
                    RebindStep::Uninstall(uninstalls[next + 1]),
                )
            } else {
                (RebindPhase::EnsuringInternal, RebindStep::EnsureInternal)
            },
            RebindPhase::EnsuringInternal => (RebindPhase::Gathering, RebindStep::GatherProjections),
            RebindPhase::Gathering => (RebindPhase::Gathering, RebindStep::GatherProjections),
            RebindPhase::Installing => (RebindPhase::Checking, RebindStep::RequireCompatible),
            RebindPhase::Checking => (RebindPhase::Finished, RebindStep::Finish(Ok(()))),
            RebindPhase::Finished => (RebindPhase::Finished, RebindStep::Finish(Ok(()))),
        },
    }
}

impl Rebind {
    /// Begin a rebind: uninstall the overrides of capabilities the active core
    /// provides, else refresh the internal plugins.
    pub fn begin(selected: &Vec<SelectedPlugin>) -> (res: (Rebind, RebindStep))
        ensures
            res.0.well_formed(),
            views(res.0.uninstalls@) == selected@.filter(|p: SelectedPlugin| needs_uninstall(p)).map_values(
                |p: SelectedPlugin| p.id@,
            ),
            res.0.uninstalls@.len() > 0 ==> res.0.phase == (RebindPhase::Uninstalling { next: 0 })
                && res.1 == RebindStep::Uninstall(res.0.uninstalls@[0]),
            res.0.uninstalls@.len() == 0 ==> res.0.phase is EnsuringInternal
                && res.1 is EnsureInternal,
    {
        let uninstalls = recovery_uninstalls(selected);
        if uninstalls.len() > 0 {
            let first = uninstalls[0].clone();
            (Rebind { uninstalls, phase: RebindPhase::Uninstalling { next: 0 } }, RebindStep::Uninstall(first))
        } else {
            (Rebind { uninstalls, phase: RebindPhase::EnsuringInternal }, RebindStep::EnsureInternal)
        }
    }

    /// Advance on the outcome of the step just performed.
    pub fn advance(self, outcome: Result<(), String>) -> (res: (Rebind, RebindStep))
        requires
            self.well_formed(),
            !(self.phase is Gathering),
        ensures
            res.0.well_formed(),
            res.0.uninstalls == self.uninstalls,
            (res.0.phase, res.1) == rebind_next(self.uninstalls@, self.phase, outcome),
    {
        let uninstalls = self.uninstalls;
        match outcome {
            Err(e) => (Rebind { uninstalls, phase: RebindPhase::Finished }, RebindStep::Finish(Err(e))),
            Ok(()) => match self.phase {
                RebindPhase::Uninstalling { next } => if next + 1 < uninstalls.len() {
                    let id = uninstalls[next + 1].clone();
                    (
                        Rebind { uninstalls, phase: RebindPhase::Uninstalling { next: next + 1 } },
                        RebindStep::Uninstall(id),
                    )
                } else {
                    (Rebind { uninstalls, phase: RebindPhase::EnsuringInternal }, RebindStep::EnsureInternal)
                },
                RebindPhase::EnsuringInternal => (
                    Rebind { uninstalls, phase: RebindPhase::Gathering },
                    RebindStep::GatherProjections,
                ),
                RebindPhase::Gathering => (
                    Rebind { uninstalls, phase: RebindPhase::Gathering },
                    RebindStep::GatherProjections,
                ),
                RebindPhase::Installing => (
                    Rebind { uninstalls, phase: RebindPhase::Checking },
                    RebindStep::RequireCompatible,
                ),
                RebindPhase::Checking => (
                    Rebind { uninstalls, phase: RebindPhase::Finished },
                    RebindStep::Finish(Ok(())),
                ),
                RebindPhase::Finished => (
                    Rebind { uninstalls, phase: RebindPhase::Finished },
                    RebindStep::Finish(Ok(())),
                ),
            },
        }
    }

    /// Take the projection states gathered after the internal plugins were
    /// refreshed: install the stale projections in one run, or go straight to
    /// the compatibility gate when every projection matches; a failure while
    /// gathering ends the rebind.
    pub fn gathered(self, states: Result<Vec<ProjectionState>, String>) -> (res: (Rebind, RebindStep))
        requires
            self.phase is Gathering,
        ensures
            res.0.well_formed(),
            res.0.uninstalls == self.uninstalls,
            match states {
                Err(e) => res.0.phase is Finished && res.1 == RebindStep::Finish(Err(e)),
                Ok(s) => {
                    let ids = s@.filter(|p: ProjectionState| needs_install(p)).map_values(
                        |p: ProjectionState| p.id@,
                    );
                    if ids.len() > 0 {
                        res.0.phase is Installing && (res.1 matches RebindStep::Install(v) && views(
                            v@,
                        ) == ids)
                    } else {
                        res.0.phase is Checking && res.1 is RequireCompatible
                    }
                },
            },
    {
        let uninstalls = self.uninstalls;
        match states {
            Err(e) => (Rebind { uninstalls, phase: RebindPhase::Finished }, RebindStep::Finish(Err(e))),
            Ok(s) => {
                let install = projection_installs(&s);
                if install.len() > 0 {
                    (Rebind { uninstalls, phase: RebindPhase::Installing }, RebindStep::Install(install))
                } else {
                    (Rebind { uninstalls, phase: RebindPhase::Checking }, RebindStep::RequireCompatible)
                }
            },
        }
    }
}

/// A rebind succeeds only through the compatibility gate, and runs the
/// installer at most once: `Finish(Ok)` follows only a passed gate (or an
/// already finished rebind); once installing, checking or finished, a rebind
/// never goes back to uninstalling, refreshing or gathering; gathering is
/// entered only from the refresh of the internal plugins; and `advance` never
/// asks for an install (only `gathered`, which leaves gathering for good, does).
pub proof fn lemma_rebind_installs_once(
    uninstalls: Seq<String>,
    phase: RebindPhase,
    outcome: Result<(), String>,
)
    ensures
        ({
            let (next, step) = rebind_next(uninstalls, phase, outcome);
            &&& (step matches RebindStep::Finish(Ok(_))) ==> outcome is Ok && (phase is Checking
                || phase is Finished)
            &&& (phase is Installing || phase is Checking || phase is Finished) ==> (next is Checking
                || next is Finished)
            &&& next is Gathering ==> (phase is EnsuringInternal || phase is Gathering)
            &&& !(step is Install)
            &&& outcome is Err ==> next is Finished
        }),
{
}

} // verus!
