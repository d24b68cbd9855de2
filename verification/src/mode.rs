//! Modes of operation and the steps that each mode runs on a repository.

use vstd::prelude::*;

verus! {

/// What a run of the normalizer does.
#[derive(Clone, Copy, PartialEq, Eq, Structural, Debug)]
pub enum Mode {
    /// Full normalization: check and fix everything.
    Full,
    /// Only check, report issues: everything `Full` would fix is reported
    /// and nothing is changed, even when changes are asked to be executed.
    Check,
    /// Only fix `.scm` conversion.
    Transpile,
    /// Only fix file locations.
    Organize,
    /// Only create missing README and manifest files.
    Documents,
}

/// The steps applied to each repository, in the order they run.
#[derive(Clone, Copy, PartialEq, Eq, Structural, Debug)]
pub enum Step {
    /// Convert core `.scm` files into `.a2ml` files in `6a2/`.
    ConvertScm,
    /// Move core `.a2ml` files found elsewhere into `6a2/`.
    PlaceCoreFiles,
    /// Move anchor files into `6a2/anchor/`.
    PlaceAnchors,
    /// Add the README and AI manifest where they are missing.
    AddDocuments,
    /// Remove old directories left empty, such as `anchors/` and `6scm/6a2/`.
    RemoveEmptyDirs,
}

/// Whether `mode` runs `step`.
pub open spec fn step_runs(mode: Mode, step: Step) -> bool {
    match step {
        Step::ConvertScm => mode == Mode::Full || mode == Mode::Check || mode == Mode::Transpile,
        Step::PlaceCoreFiles => mode == Mode::Full || mode == Mode::Check || mode == Mode::Organize,
        Step::PlaceAnchors => mode == Mode::Full || mode == Mode::Check || mode == Mode::Organize,
        Step::AddDocuments => mode == Mode::Full || mode == Mode::Check || mode == Mode::Documents,
        Step::RemoveEmptyDirs => mode == Mode::Full || mode == Mode::Check || mode == Mode::Organize,
    }
}

/// Every step, in the order in which steps run.
pub open spec fn all_steps() -> Seq<Step> {
    seq![
        Step::ConvertScm,
        Step::PlaceCoreFiles,
        Step::PlaceAnchors,
        Step::AddDocuments,
        Step::RemoveEmptyDirs,
    ]
}

/// The test that selects the steps of `mode`.
pub open spec fn runs_in(mode: Mode) -> spec_fn(Step) -> bool {
    |step: Step| step_runs(mode, step)
}

/// Whether `mode` runs `step`.
pub fn mode_runs_step(mode: Mode, step: Step) -> (runs: bool)
    ensures
        runs == step_runs(mode, step),
{
    match step {
        Step::ConvertScm => mode == Mode::Full || mode == Mode::Check || mode == Mode::Transpile,
        Step::PlaceCoreFiles => mode == Mode::Full || mode == Mode::Check || mode == Mode::Organize,
        Step::PlaceAnchors => mode == Mode::Full || mode == Mode::Check || mode == Mode::Organize,
        Step::AddDocuments => mode == Mode::Full || mode == Mode::Check || mode == Mode::Documents,
        Step::RemoveEmptyDirs => mode == Mode::Full || mode == Mode::Check || mode == Mode::Organize,
    }
}

/// The steps that `mode` runs on a repository, in order.
pub fn steps_for_mode(mode: Mode) -> (steps: Vec<Step>)
    ensures
        steps@ == all_steps().filter(runs_in(mode)),
{
    let all = vec![
        Step::ConvertScm,
        Step::PlaceCoreFiles,
        Step::PlaceAnchors,
        Step::AddDocuments,
        Step::RemoveEmptyDirs,
    ];
    let mut steps: Vec<Step> = Vec::new();
    let mut i: usize = 0;
    assert(all@ == all_steps());
    assert(all_steps().take(0).filter(runs_in(mode)) =~= steps@) by {
        reveal(Seq::filter);
    }
    while i < all.len()
        invariant
            all@ == all_steps(),
            i <= all.len(),
            steps@ == all_steps().take(i as int).filter(runs_in(mode)),
        decreases all.len() - i,
    {
        let step = all[i];
        assert(all_steps().take(i + 1).drop_last() =~= all_steps().take(i as int));
        if mode_runs_step(mode, step) {
            steps.push(step);
        }
        assert(steps@ == all_steps().take(i + 1).filter(runs_in(mode))) by {
            reveal(Seq::filter);
        }
        i = i + 1;
    }
    assert(all_steps().take(5) =~= all_steps());
    steps
}

/// Whether the changes a run decides on are carried out: only when they
/// are asked for and the mode is not `Check`.
pub open spec fn performs_changes(mode: Mode, execute: bool) -> bool {
    execute && mode != Mode::Check
}

/// Whether the changes a run decides on are carried out.
pub fn changes_performed(mode: Mode, execute: bool) -> (perform: bool)
    ensures
        perform == performs_changes(mode, execute),
        mode != Mode::Check ==> perform == execute,
        mode == Mode::Check ==> !perform,
{
    execute && mode != Mode::Check
}

/// `Full` and `Check` run every step; `Check` never carries out a change,
/// so it reports exactly what a dry run of `Full` reports.
pub proof fn lemma_full_and_check_modes(step: Step, execute: bool)
    ensures
        step_runs(Mode::Full, step),
        step_runs(Mode::Check, step),
        !performs_changes(Mode::Check, execute),
        performs_changes(Mode::Full, execute) == execute,
{
}

/// Changes are carried out exactly when execution is asked for, in every
/// mode but `Check`, which never carries one out: `Transpile`, `Organize`
/// and `Documents` act on their own steps just as `Full` does.
pub proof fn lemma_execute_decides_changes(mode: Mode, execute: bool)
    ensures
        mode != Mode::Check ==> (performs_changes(mode, execute) <==> execute),
        !performs_changes(Mode::Check, execute),
{
}

/// Every mode but `Full` and `Check` runs exactly the steps of its own
/// concern: `Transpile` only conversion, `Documents` only the documents, and
/// `Organize` the three steps that move or remove files.
pub proof fn lemma_partial_modes(step: Step)
    ensures
        step_runs(Mode::Transpile, step) <==> step == Step::ConvertScm,
        step_runs(Mode::Documents, step) <==> step == Step::AddDocuments,
        step_runs(Mode::Organize, step) <==> (step == Step::PlaceCoreFiles || step == Step::PlaceAnchors
            || step == Step::RemoveEmptyDirs),
{
}

} // verus!
