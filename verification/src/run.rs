//! Per-repository step selection and the totals of a whole run.

use vstd::prelude::*;
use crate::mode::{all_steps, changes_performed, performs_changes, runs_in, steps_for_mode, Mode, Step};

verus! {

/// What to do with one repository.
pub struct RepoPlan {
    /// Create `6a2/` and `6a2/anchor/` before the steps run.
    pub create_layout_dirs: bool,
    /// The steps to run, in order.
    pub steps: Vec<Step>,
    /// Whether the steps carry out their changes (otherwise they only report).
    pub perform: bool,
}

/// What to do with a repository: nothing when it has no
/// `.machine_readable/` directory; otherwise the steps of `mode`, after
/// creating the layout directories when changes are carried out. In `Check`
/// mode changes are never carried out.
pub fn plan_repo(mode: Mode, has_machine_readable: bool, execute: bool) -> (plan: RepoPlan)
    ensures
        plan.perform == performs_changes(mode, execute),
        plan.create_layout_dirs == (has_machine_readable && performs_changes(mode, execute)),
        mode != Mode::Check ==> plan.perform == execute,
        mode != Mode::Check ==> plan.create_layout_dirs == (has_machine_readable && execute),
        mode == Mode::Check ==> !plan.perform && !plan.create_layout_dirs,
        plan.steps@ == if has_machine_readable {
            all_steps().filter(runs_in(mode))
        } else {
            Seq::<Step>::empty()
        },
{
    if !has_machine_readable {
        return RepoPlan { create_layout_dirs: false, steps: Vec::new(), perform: changes_performed(mode, execute) };
    }
    let perform = changes_performed(mode, execute);
    RepoPlan { create_layout_dirs: perform, steps: steps_for_mode(mode), perform }
}

/// The running totals of a run over the estate.
pub struct RunTotals {
    /// Repositories processed so far.
    pub processed: usize,
    /// Repositories processed without error.
    pub succeeded: usize,
    /// Repositories whose processing failed.
    pub issues: usize,
    /// Fixes applied (or, in a dry run, that would be applied) in the
    /// repositories processed without error.
    pub fixes: usize,
}

impl RunTotals {
    /// Every processed repository either succeeded or is an issue.
    pub open spec fn well_formed(&self) -> bool {
        self.processed == self.succeeded + self.issues
    }

    /// Totals before any repository is processed.
    pub fn new() -> (t: RunTotals)
        ensures
            t.well_formed(),
            t.processed == 0,
            t.succeeded == 0,
            t.issues == 0,
            t.fixes == 0,
    {
        RunTotals { processed: 0, succeeded: 0, issues: 0, fixes: 0 }
    }

    /// Records a repository processed without error, with its fixes.
    pub fn record_success(&mut self, fixes: usize)
        requires
            old(self).well_formed(),
            old(self).processed < usize::MAX,
            old(self).fixes + fixes <= usize::MAX,
        ensures
            final(self).well_formed(),
            final(self).processed == old(self).processed + 1,
            final(self).succeeded == old(self).succeeded + 1,
            final(self).issues == old(self).issues,
            final(self).fixes == old(self).fixes + fixes,
    {
        self.processed = self.processed + 1;
        self.succeeded = self.succeeded + 1;
        self.fixes = self.fixes + fixes;
    }

    /// Records a repository whose processing failed; its fixes do not count.
    pub fn record_issue(&mut self)
        requires
            old(self).well_formed(),
            old(self).processed < usize::MAX,
        ensures
            final(self).well_formed(),
            final(self).processed == old(self).processed + 1,
            final(self).succeeded == old(self).succeeded,
            final(self).issues == old(self).issues + 1,
            final(self).fixes == old(self).fixes,
    {
        self.processed = self.processed + 1;
        self.issues = self.issues + 1;
    }

    /// The outcome of the run: an error carrying the number of issues when
    /// there was any.
    pub fn outcome(&self) -> (result: Result<(), usize>)
        ensures
            result is Ok <==> self.issues == 0,
            result matches Err(n) ==> n == self.issues,
    {
        if self.issues > 0 {
            Err(self.issues)
        } else {
            Ok(())
        }
    }
}

/// The sum of a sequence of counts.
pub open spec fn sum_of(counts: Seq<usize>) -> int
    decreases counts.len(),
{
    if counts.len() == 0 {
        0
    } else {
        sum_of(counts.drop_last()) + counts.last()
    }
}

/// The fixes of a repository: the sum of the fixes of its steps, or `None`
/// when the sum does not fit in a `usize`.
pub fn repo_fixes(step_fixes: &Vec<usize>) -> (total: Option<usize>)
    ensures
        total is Some <==> sum_of(step_fixes@) <= usize::MAX,
        total matches Some(t) ==> t == sum_of(step_fixes@),
{
    let mut total: usize = 0;
    let mut i: usize = 0;
    while i < step_fixes.len()
        invariant
            i <= step_fixes.len(),
            total == sum_of(step_fixes@.take(i as int)),
        decreases step_fixes.len() - i,
    {
        assert(step_fixes@.take(i + 1).drop_last() =~= step_fixes@.take(i as int));
        if step_fixes[i] > usize::MAX - total {
            proof {
                lemma_sum_prefix_grows(step_fixes@, i + 1);
            }
            return None;
        }
        total = total + step_fixes[i];
        i = i + 1;
    }
    assert(step_fixes@.take(step_fixes.len() as int) =~= step_fixes@);
    Some(total)
}

/// A sum over a prefix is at most the whole sum.
proof fn lemma_sum_prefix_grows(counts: Seq<usize>, k: int)
    requires
        0 <= k <= counts.len(),
    ensures
        sum_of(counts.take(k)) <= sum_of(counts),
    decreases counts.len() - k,
{
    if k < counts.len() {
        lemma_sum_prefix_grows(counts, k + 1);
        assert(counts.take(k + 1).drop_last() =~= counts.take(k));
    } else {
        assert(counts.take(k) =~= counts);
    }
}

} // verus!
