//! Plans for the two steps that bring the core files into `6a2/`: turning
//! core `.scm` files into `.a2ml` files, and moving core `.a2ml` files that
//! sit elsewhere under `.machine_readable/`.
//!
//! Both take the entries of a walk of `.machine_readable/` and which of
//! their target files exist in `6a2/` beforehand. A file that a step puts in
//! place (when changes are executed) counts as existing for the entries
//! after it, so only the first one moves and later ones are duplicates. In a
//! dry run every action is only reported.

use vstd::prelude::*;
use crate::text::{replaced, str_eq, views};
use crate::names::{
    core_a2ml_file, core_a2ml_names, core_scm_names, is_core_scm_file, lemma_core_scm_targets,
    CORE_FILE_COUNT,
};
use crate::paths::{clone_path, contains_str, has_file_name, is_under, path_eq, path_is_under, path_view, paths_view};

verus! {

/// What happens to a core `.scm` file.
#[derive(Clone, Copy, PartialEq, Eq, Structural, Debug)]
pub enum ScmAction {
    /// Its `.a2ml` file is already in `6a2/`: the `.scm` file is removed.
    RemoveDuplicate,
    /// It is converted into its `.a2ml` file in `6a2/` and then removed.
    Transpile,
    /// Dry run: report that it would be removed as a duplicate.
    ReportDuplicate,
    /// Dry run: report that it would be converted.
    ReportTranspile,
}

/// An action on the walk entry at index `entry`.
#[derive(Clone, Copy, PartialEq, Eq, Structural, Debug)]
pub struct ScmTask {
    pub entry: usize,
    pub action: ScmAction,
}

/// What happens to a core `.a2ml` file found outside its place.
#[derive(Clone, Copy, PartialEq, Eq, Structural, Debug)]
pub enum CoreAction {
    /// The file is already in `6a2/`: this copy is removed.
    RemoveDuplicate,
    /// This copy is moved into `6a2/`.
    Move,
    /// Dry run: report that this copy would be removed as a duplicate.
    ReportDuplicate,
    /// Dry run: report that this copy would be moved.
    ReportMove,
}

/// An action on the walk entry at index `entry`, which is the core file at
/// index `file` of the core file list.
#[derive(Clone, Copy, PartialEq, Eq, Structural, Debug)]
pub struct CoreTask {
    pub file: usize,
    pub entry: usize,
    pub action: CoreAction,
}

/// Whether an action on a `.scm` file only reports.
pub open spec fn scm_reports(a: ScmAction) -> bool {
    a == ScmAction::ReportDuplicate || a == ScmAction::ReportTranspile
}

/// Whether an action on a core file only reports.
pub open spec fn core_reports(a: CoreAction) -> bool {
    a == CoreAction::ReportDuplicate || a == CoreAction::ReportMove
}

/// A core `.scm` file outside `six_a2` (which is where its `.a2ml` form
/// belongs); old locations such as `6scm/6a2/` count as outside.
pub open spec fn is_scm_candidate(p: Seq<Seq<char>>, six_a2: Seq<Seq<char>>) -> bool {
    &&& !is_under(p, six_a2)
    &&& core_scm_names().contains(p.last())
}

/// The name of the `.a2ml` file that the file at `p` becomes.
pub open spec fn scm_target(p: Seq<Seq<char>>) -> Seq<char> {
    replaced(p.last(), ".scm"@, ".a2ml"@)
}

/// The actions on the walk entries from index `from` on, when the files
/// named in `known` exist in `6a2/`.
pub open spec fn scm_plan(
    walk: Seq<Seq<Seq<char>>>,
    from: int,
    six_a2: Seq<Seq<char>>,
    known: Seq<Seq<char>>,
    execute: bool,
) -> Seq<ScmTask>
    decreases walk.len() - from,
{
    if from < 0 || from >= walk.len() {
        Seq::empty()
    } else if is_scm_candidate(walk[from], six_a2) {
        let target = scm_target(walk[from]);
        if known.contains(target) {
            let action = if execute { ScmAction::RemoveDuplicate } else { ScmAction::ReportDuplicate };
            seq![ScmTask { entry: from as usize, action }] + scm_plan(walk, from + 1, six_a2, known, execute)
        } else {
            let action = if execute { ScmAction::Transpile } else { ScmAction::ReportTranspile };
            seq![ScmTask { entry: from as usize, action }] + scm_plan(
                walk,
                from + 1,
                six_a2,
                if execute { known.push(target) } else { known },
                execute,
            )
        }
    } else {
        scm_plan(walk, from + 1, six_a2, known, execute)
    }
}

/// The indices, from `from` on, of the walk entries that are core `.scm`
/// files outside `six_a2`.
pub open spec fn scm_candidates(walk: Seq<Seq<Seq<char>>>, from: int, six_a2: Seq<Seq<char>>) -> Seq<usize>
    decreases walk.len() - from,
{
    if from < 0 || from >= walk.len() {
        Seq::empty()
    } else if is_scm_candidate(walk[from], six_a2) {
        seq![from as usize] + scm_candidates(walk, from + 1, six_a2)
    } else {
        scm_candidates(walk, from + 1, six_a2)
    }
}

/// Whether a path is directly in `six_a2` or directly in `six_a2/anchor`:
/// the places where a core `.a2ml` file is left alone.
pub open spec fn in_place(p: Seq<Seq<char>>, six_a2: Seq<Seq<char>>) -> bool {
    ||| p.len() >= 1 && p.drop_last() == six_a2
    ||| p.len() >= 1 && p.drop_last() == six_a2.push("anchor"@)
}

/// A copy of the core file `file` outside its place.
pub open spec fn is_stray_core(p: Seq<Seq<char>>, file: int, six_a2: Seq<Seq<char>>) -> bool {
    &&& p.len() > 0
    &&& p.last() == core_a2ml_names()[file]
    &&& !in_place(p, six_a2)
}

/// The actions for the core file `file` on the walk entries from `from` on,
/// given whether that file exists in `6a2/`.
pub open spec fn core_plan_for(
    walk: Seq<Seq<Seq<char>>>,
    from: int,
    file: int,
    six_a2: Seq<Seq<char>>,
    exists: bool,
    execute: bool,
) -> Seq<CoreTask>
    decreases walk.len() - from,
{
    if from < 0 || from >= walk.len() {
        Seq::empty()
    } else if is_stray_core(walk[from], file, six_a2) {
        if exists {
            let action = if execute { CoreAction::RemoveDuplicate } else { CoreAction::ReportDuplicate };
            seq![CoreTask { file: file as usize, entry: from as usize, action }] + core_plan_for(
                walk,
                from + 1,
                file,
                six_a2,
                exists,
                execute,
            )
        } else {
            let action = if execute { CoreAction::Move } else { CoreAction::ReportMove };
            seq![CoreTask { file: file as usize, entry: from as usize, action }] + core_plan_for(
                walk,
                from + 1,
                file,
                six_a2,
                execute,
                execute,
            )
        }
    } else {
        core_plan_for(walk, from + 1, file, six_a2, exists, execute)
    }
}

/// The walk entries that are copies of core file `file` outside its place.
pub open spec fn stray_copies(walk: Seq<Seq<Seq<char>>>, from: int, file: int, six_a2: Seq<Seq<char>>) -> Seq<usize>
    decreases walk.len() - from,
{
    if from < 0 || from >= walk.len() {
        Seq::empty()
    } else if is_stray_core(walk[from], file, six_a2) {
        seq![from as usize] + stray_copies(walk, from + 1, file, six_a2)
    } else {
        stray_copies(walk, from + 1, file, six_a2)
    }
}

/// The actions of the `.scm` step on a walk of `.machine_readable/`, in walk
/// order. `six_a2` is the `6a2/` directory; `present` names the `.a2ml`
/// files that exist there when the step starts; `execute` tells whether the
/// actions are carried out (a converted file then exists for the entries
/// after it) or only reported.
pub fn plan_scm_files(
    walk: &Vec<Vec<String>>,
    six_a2: &Vec<String>,
    present: &Vec<String>,
    execute: bool,
) -> (tasks: Vec<ScmTask>)
    requires
        forall|i: int| 0 <= i < walk.len() ==> has_file_name(#[trigger] path_view(walk@[i])),
    ensures
        tasks@ == scm_plan(paths_view(walk@), 0, path_view(*six_a2), views(present@), execute),
{
    let ghost w = paths_view(walk@);
    let ghost six = path_view(*six_a2);
    let mut known: Vec<String> = Vec::new();
    let mut j: usize = 0;
    while j < present.len()
        invariant
            j <= present.len(),
            known@ == present@.take(j as int),
        decreases present.len() - j,
    {
        known.push(present[j].clone());
        assert(known@ =~= present@.take(j + 1));
        j = j + 1;
    }
    assert(present@.take(present.len() as int) =~= present@);
    let mut tasks: Vec<ScmTask> = Vec::new();
    let mut i: usize = 0;
    assert(scm_plan(w, 0, six, views(present@), execute) == tasks@ + scm_plan(w, 0, six, views(known@), execute));
    while i < walk.len()
        invariant
            w == paths_view(walk@),
            six == path_view(*six_a2),
            i <= walk.len(),
            forall|k: int| 0 <= k < walk.len() ==> has_file_name(#[trigger] path_view(walk@[k])),
            scm_plan(w, 0, six, views(present@), execute) == tasks@ + scm_plan(
                w,
                i as int,
                six,
                views(known@),
                execute,
            ),
        decreases walk.len() - i,
    {
        let p = &walk[i];
        assert(w[i as int] == path_view(*p));
        assert(has_file_name(path_view(*p)));
        let n = p.len();
        assert(path_view(*p).last() == p@[n - 1]@);
        if !path_is_under(p, six_a2) && is_core_scm_file(p[n - 1].as_str()) {
            let target = crate::names::scm_target_name(p[n - 1].as_str());
            if contains_str(&known, target.as_str()) {
                let action = if execute { ScmAction::RemoveDuplicate } else { ScmAction::ReportDuplicate };
                tasks.push(ScmTask { entry: i, action });
            } else {
                let action = if execute { ScmAction::Transpile } else { ScmAction::ReportTranspile };
                tasks.push(ScmTask { entry: i, action });
                if execute {
                    let ghost before = views(known@);
                    known.push(target);
                    assert(views(known@) =~= before.push(scm_target(w[i as int])));
                }
            }
        }
        i = i + 1;
    }
    tasks
}

/// The actions of the step that moves core `.a2ml` files into `6a2/`, for
/// the core file at index `file`: its copies anywhere under the walked
/// directory except directly in `six_a2` or in `six_a2/anchor`, in walk
/// order. `exists` tells whether the file is in `six_a2` when its turn
/// comes; `execute` whether actions are carried out or only reported.
pub fn plan_core_file(
    walk: &Vec<Vec<String>>,
    six_a2: &Vec<String>,
    file: usize,
    exists: bool,
    execute: bool,
) -> (tasks: Vec<CoreTask>)
    requires
        file < CORE_FILE_COUNT,
    ensures
        tasks@ == core_plan_for(paths_view(walk@), 0, file as int, path_view(*six_a2), exists, execute),
        exists ==> forall|a: int| 0 <= a < tasks@.len() ==> (#[trigger] tasks@[a]).action == (if execute {
            CoreAction::RemoveDuplicate
        } else {
            CoreAction::ReportDuplicate
        }),
        !exists && !execute ==> forall|a: int| 0 <= a < tasks@.len() ==> (#[trigger] tasks@[a]).action
            == CoreAction::ReportMove,
{
    let ghost w = paths_view(walk@);
    let ghost six = path_view(*six_a2);
    let name = core_a2ml_file(file);
    let mut present = exists;
    let mut tasks: Vec<CoreTask> = Vec::new();
    let mut i: usize = 0;
    while i < walk.len()
        invariant
            w == paths_view(walk@),
            six == path_view(*six_a2),
            name@ == core_a2ml_names()[file as int],
            file < CORE_FILE_COUNT,
            i <= walk.len(),
            core_plan_for(w, 0, file as int, six, exists, execute) == tasks@ + core_plan_for(
                w,
                i as int,
                file as int,
                six,
                present,
                execute,
            ),
        decreases walk.len() - i,
    {
        let p = &walk[i];
        assert(w[i as int] == path_view(*p));
        let n = p.len();
        if n > 0 {
            assert(path_view(*p).last() == p@[n - 1]@);
        }
        if n > 0 && str_eq(p[n - 1].as_str(), name) && !placed(p, six_a2) {
            if present {
                let action = if execute { CoreAction::RemoveDuplicate } else { CoreAction::ReportDuplicate };
                tasks.push(CoreTask { file, entry: i, action });
            } else {
                let action = if execute { CoreAction::Move } else { CoreAction::ReportMove };
                tasks.push(CoreTask { file, entry: i, action });
                present = execute;
            }
        }
        i = i + 1;
    }
    proof {
        lemma_core_plan_by_existence(w, 0, file as int, six, exists, execute);
    }
    tasks
}

/// Whether a path lies directly in `six_a2` or directly in `six_a2/anchor`.
fn placed(p: &Vec<String>, six_a2: &Vec<String>) -> (in_it: bool)
    requires
        p@.len() > 0,
    ensures
        in_it == in_place(path_view(*p), path_view(*six_a2)),
{
    let mut parent = clone_path(p);
    parent.pop();
    assert(path_view(parent) =~= path_view(*p).drop_last());
    if path_eq(&parent, six_a2) {
        return true;
    }
    let mut anchor_dir = clone_path(six_a2);
    anchor_dir.push(String::from_str("anchor"));
    assert(path_view(anchor_dir) =~= path_view(*six_a2).push("anchor"@));
    path_eq(&parent, &anchor_dir)
}

/// Every core `.scm` file outside `6a2/` gets exactly one action, in walk
/// order, and nothing else does, whatever already exists and whether or not
/// changes are executed. So a dry run reports the same files and the same
/// number of fixes as the run that executes them. A dry run only reports,
/// and an executed run only acts.
pub proof fn lemma_scm_plan_covers_candidates(
    walk: Seq<Seq<Seq<char>>>,
    from: int,
    six_a2: Seq<Seq<char>>,
    known: Seq<Seq<char>>,
    execute: bool,
)
    requires
        0 <= from,
    ensures
        scm_plan(walk, from, six_a2, known, execute).map_values(|t: ScmTask| t.entry) == scm_candidates(
            walk,
            from,
            six_a2,
        ),
        forall|a: int| #![trigger scm_plan(walk, from, six_a2, known, execute)[a]]
            0 <= a < scm_plan(walk, from, six_a2, known, execute).len()
            ==> scm_reports(scm_plan(walk, from, six_a2, known, execute)[a].action) == !execute,
    decreases walk.len() - from,
{
    if from < walk.len() {
        let target = scm_target(walk[from]);
        lemma_scm_plan_covers_candidates(walk, from + 1, six_a2, known, execute);
        lemma_scm_plan_covers_candidates(walk, from + 1, six_a2, known.push(target), execute);
        let plan = scm_plan(walk, from, six_a2, known, execute);
        if is_scm_candidate(walk[from], six_a2) {
            let rest_known = if known.contains(target) || !execute { known } else { known.push(target) };
            let rest = scm_plan(walk, from + 1, six_a2, rest_known, execute);
            assert(plan == seq![plan[0]] + rest);
            assert(plan.map_values(|t: ScmTask| t.entry) =~= seq![from as usize] + rest.map_values(
                |t: ScmTask| t.entry,
            ));
            assert forall|a: int| 0 <= a < plan.len() implies scm_reports(#[trigger] plan[a].action) == !execute by {
                if a > 0 {
                    assert(plan[a] == rest[a - 1]);
                }
            }
        }
    } else {
        assert(scm_plan(walk, from, six_a2, known, execute).map_values(|t: ScmTask| t.entry)
            =~= Seq::<usize>::empty());
    }
}

/// Each action is on a core `.scm` file outside `6a2/`, and what it produces
/// is one of the core `.a2ml` files.
pub proof fn lemma_scm_plan_targets(
    walk: Seq<Seq<Seq<char>>>,
    from: int,
    six_a2: Seq<Seq<char>>,
    known: Seq<Seq<char>>,
    execute: bool,
)
    requires
        0 <= from,
        walk.len() <= usize::MAX,
    ensures
        forall|a: int| #![trigger scm_plan(walk, from, six_a2, known, execute)[a]]
            0 <= a < scm_plan(walk, from, six_a2, known, execute).len() ==> {
                let e = scm_plan(walk, from, six_a2, known, execute)[a].entry as int;
                &&& from <= e < walk.len()
                &&& is_scm_candidate(walk[e], six_a2)
                &&& core_a2ml_names().contains(scm_target(walk[e]))
            },
    decreases walk.len() - from,
{
    if from < walk.len() {
        let target = scm_target(walk[from]);
        let plan = scm_plan(walk, from, six_a2, known, execute);
        if is_scm_candidate(walk[from], six_a2) {
            let rest_known = if known.contains(target) || !execute { known } else { known.push(target) };
            lemma_scm_plan_targets(walk, from + 1, six_a2, rest_known, execute);
            let rest = scm_plan(walk, from + 1, six_a2, rest_known, execute);
            assert(plan == seq![plan[0]] + rest);
            let k = choose|k: int| 0 <= k < core_scm_names().len() && core_scm_names()[k] == walk[from].last();
            lemma_core_scm_targets(k);
            assert(core_a2ml_names()[k] == target);
            assert forall|a: int| 0 <= a < plan.len() implies {
                let e = #[trigger] plan[a].entry as int;
                &&& from <= e < walk.len()
                &&& is_scm_candidate(walk[e], six_a2)
                &&& core_a2ml_names().contains(scm_target(walk[e]))
            } by {
                if a > 0 {
                    assert(plan[a] == rest[a - 1]);
                } else {
                    assert(plan[0].entry as int == from);
                    assert(core_a2ml_names()[k] == scm_target(walk[from]));
                }
            }
        } else {
            lemma_scm_plan_targets(walk, from + 1, six_a2, known, execute);
        }
    }
}

/// When changes are executed, no two conversions produce the same `.a2ml`
/// file and none produces a file that already existed: only one version of
/// each core file ends up in `6a2/`.
pub proof fn lemma_scm_plan_single_version(
    walk: Seq<Seq<Seq<char>>>,
    from: int,
    six_a2: Seq<Seq<char>>,
    known: Seq<Seq<char>>,
)
    requires
        0 <= from,
        walk.len() <= usize::MAX,
    ensures
        forall|a: int| #![trigger scm_plan(walk, from, six_a2, known, true)[a]]
            0 <= a < scm_plan(walk, from, six_a2, known, true).len()
            && scm_plan(walk, from, six_a2, known, true)[a].action == ScmAction::Transpile
            ==> !known.contains(scm_target(walk[scm_plan(walk, from, six_a2, known, true)[a].entry as int])),
        forall|a: int, b: int|
            0 <= a < b < scm_plan(walk, from, six_a2, known, true).len()
            && (#[trigger] scm_plan(walk, from, six_a2, known, true)[a]).action == ScmAction::Transpile
            && (#[trigger] scm_plan(walk, from, six_a2, known, true)[b]).action == ScmAction::Transpile
            ==> scm_target(walk[scm_plan(walk, from, six_a2, known, true)[a].entry as int]) != scm_target(
                walk[scm_plan(walk, from, six_a2, known, true)[b].entry as int],
            ),
    decreases walk.len() - from,
{
    if from < walk.len() {
        let target = scm_target(walk[from]);
        let plan = scm_plan(walk, from, six_a2, known, true);
        lemma_scm_plan_single_version(walk, from + 1, six_a2, known);
        lemma_scm_plan_single_version(walk, from + 1, six_a2, known.push(target));
        if is_scm_candidate(walk[from], six_a2) {
            let rest_known = if known.contains(target) { known } else { known.push(target) };
            let rest = scm_plan(walk, from + 1, six_a2, rest_known, true);
            assert(plan == seq![plan[0]] + rest);
            assert(plan[0].entry == from);
            assert forall|a: int| 0 <= a < plan.len() && (#[trigger] plan[a]).action == ScmAction::Transpile implies !known.contains(
                scm_target(walk[plan[a].entry as int]),
            ) by {
                if a > 0 {
                    assert(plan[a] == rest[a - 1]);
                    if !known.contains(target) {
                        let x = scm_target(walk[rest[a - 1].entry as int]);
                        assert(!known.push(target).contains(x));
                        if known.contains(x) {
                            let i = choose|i: int| 0 <= i < known.len() && known[i] == x;
                            assert(known.push(target)[i] == x);
                        }
                    }
                }
            }
            assert forall|a: int, b: int|
                0 <= a < b < plan.len() && (#[trigger] plan[a]).action == ScmAction::Transpile
                    && (#[trigger] plan[b]).action == ScmAction::Transpile implies scm_target(
                walk[plan[a].entry as int],
            ) != scm_target(walk[plan[b].entry as int]) by {
                assert(plan[b] == rest[b - 1]);
                if a > 0 {
                    assert(plan[a] == rest[a - 1]);
                } else {
                    assert(!known.contains(target));
                    assert(known.push(target)[known.len() as int] == target);
                    assert(known.push(target).contains(target));
                }
            }
        } else {
            assert(plan == scm_plan(walk, from + 1, six_a2, known, true));
        }
    }
}

/// A core `.scm` file whose `.a2ml` file already exists in `6a2/` is a
/// duplicate: it is removed, or in a dry run reported as one to remove, and
/// never converted over the existing file. In a dry run nothing is written,
/// so every other candidate is reported as a conversion.
pub proof fn lemma_scm_plan_existing_target(
    walk: Seq<Seq<Seq<char>>>,
    from: int,
    six_a2: Seq<Seq<char>>,
    known: Seq<Seq<char>>,
    execute: bool,
)
    requires
        0 <= from,
        walk.len() <= usize::MAX,
    ensures
        forall|a: int| #![trigger scm_plan(walk, from, six_a2, known, execute)[a]]
            0 <= a < scm_plan(walk, from, six_a2, known, execute).len() ==> {
                let t = scm_plan(walk, from, six_a2, known, execute)[a];
                &&& known.contains(scm_target(walk[t.entry as int])) ==> t.action == (if execute {
                    ScmAction::RemoveDuplicate
                } else {
                    ScmAction::ReportDuplicate
                })
                &&& !execute && !known.contains(scm_target(walk[t.entry as int])) ==> t.action
                    == ScmAction::ReportTranspile
            },
    decreases walk.len() - from,
{
    if from < walk.len() {
        let target = scm_target(walk[from]);
        let plan = scm_plan(walk, from, six_a2, known, execute);
        if is_scm_candidate(walk[from], six_a2) {
            let rest_known = if known.contains(target) || !execute { known } else { known.push(target) };
            lemma_scm_plan_existing_target(walk, from + 1, six_a2, rest_known, execute);
            let rest = scm_plan(walk, from + 1, six_a2, rest_known, execute);
            assert(plan == seq![plan[0]] + rest);
            assert(plan[0].entry as int == from);
            assert forall|a: int| 0 <= a < plan.len() implies {
                let t = #[trigger] plan[a];
                &&& known.contains(scm_target(walk[t.entry as int])) ==> t.action == (if execute {
                    ScmAction::RemoveDuplicate
                } else {
                    ScmAction::ReportDuplicate
                })
                &&& !execute && !known.contains(scm_target(walk[t.entry as int])) ==> t.action
                    == ScmAction::ReportTranspile
            } by {
                if a > 0 {
                    assert(plan[a] == rest[a - 1]);
                    let x = scm_target(walk[rest[a - 1].entry as int]);
                    if known.contains(x) {
                        let i = choose|i: int| 0 <= i < known.len() && known[i] == x;
                        assert(rest_known[i] == x);
                    }
                }
            }
        } else {
            lemma_scm_plan_existing_target(walk, from + 1, six_a2, known, execute);
        }
    }
}

/// The actions for one core file go to exactly its copies outside their
/// place, in walk order, whatever exists and whether or not changes are
/// executed; a dry run only reports and an executed run only acts.
pub proof fn lemma_core_plan_covers_copies(
    walk: Seq<Seq<Seq<char>>>,
    from: int,
    file: int,
    six_a2: Seq<Seq<char>>,
    exists: bool,
    execute: bool,
)
    requires
        0 <= from,
        0 <= file < 6,
    ensures
        core_plan_for(walk, from, file, six_a2, exists, execute).map_values(|t: CoreTask| t.entry)
            == stray_copies(walk, from, file, six_a2),
        forall|a: int| #![trigger core_plan_for(walk, from, file, six_a2, exists, execute)[a]]
            0 <= a < core_plan_for(walk, from, file, six_a2, exists, execute).len()
            ==> core_plan_for(walk, from, file, six_a2, exists, execute)[a].file == file
                && core_reports(core_plan_for(walk, from, file, six_a2, exists, execute)[a].action) == !execute,
    decreases walk.len() - from,
{
    if from < walk.len() {
        lemma_core_plan_covers_copies(walk, from + 1, file, six_a2, exists, execute);
        lemma_core_plan_covers_copies(walk, from + 1, file, six_a2, execute, execute);
        let plan = core_plan_for(walk, from, file, six_a2, exists, execute);
        if is_stray_core(walk[from], file, six_a2) {
            let rest = if exists { core_plan_for(walk, from + 1, file, six_a2, exists, execute) }
                else { core_plan_for(walk, from + 1, file, six_a2, execute, execute) };
            assert(plan == seq![plan[0]] + rest);
            assert(plan.map_values(|t: CoreTask| t.entry) =~= seq![from as usize] + rest.map_values(
                |t: CoreTask| t.entry,
            ));
            assert forall|a: int| 0 <= a < plan.len() implies (#[trigger] plan[a]).file == file
                && core_reports(plan[a].action) == !execute by {
                if a > 0 {
                    assert(plan[a] == rest[a - 1]);
                }
            }
        }
    } else {
        assert(core_plan_for(walk, from, file, six_a2, exists, execute).map_values(|t: CoreTask| t.entry)
            =~= Seq::<usize>::empty());
    }
}

/// When changes are executed, at most one copy of a core file is moved into
/// `6a2/`, and none when the file is already there; every other copy is
/// removed as a duplicate.
pub proof fn lemma_core_plan_single_move(
    walk: Seq<Seq<Seq<char>>>,
    from: int,
    file: int,
    six_a2: Seq<Seq<char>>,
    exists: bool,
)
    requires
        0 <= from,
    ensures
        exists ==> forall|a: int| #![trigger core_plan_for(walk, from, file, six_a2, exists, true)[a]]
            0 <= a < core_plan_for(walk, from, file, six_a2, exists, true).len()
            ==> core_plan_for(walk, from, file, six_a2, exists, true)[a].action == CoreAction::RemoveDuplicate,
        forall|a: int, b: int|
            0 <= a < b < core_plan_for(walk, from, file, six_a2, exists, true).len()
            && (#[trigger] core_plan_for(walk, from, file, six_a2, exists, true)[a]).action == CoreAction::Move
            ==> (#[trigger] core_plan_for(walk, from, file, six_a2, exists, true)[b]).action
                == CoreAction::RemoveDuplicate,
    decreases walk.len() - from,
{
    if from < walk.len() {
        lemma_core_plan_single_move(walk, from + 1, file, six_a2, exists);
        lemma_core_plan_single_move(walk, from + 1, file, six_a2, true);
        let plan = core_plan_for(walk, from, file, six_a2, exists, true);
        if is_stray_core(walk[from], file, six_a2) {
            let rest = core_plan_for(walk, from + 1, file, six_a2, true, true);
            assert(plan == seq![plan[0]] + rest);
            assert forall|a: int, b: int|
                0 <= a < b < plan.len() && (#[trigger] plan[a]).action == CoreAction::Move
                    implies (#[trigger] plan[b]).action == CoreAction::RemoveDuplicate by {
                assert(plan[b] == rest[b - 1]);
                if a > 0 {
                    assert(plan[a] == rest[a - 1]);
                }
            }
            if exists {
                assert forall|a: int| 0 <= a < plan.len() implies (#[trigger] plan[a]).action
                    == CoreAction::RemoveDuplicate by {
                    if a > 0 {
                        assert(plan[a] == rest[a - 1]);
                    }
                }
            }
        }
    }
}

/// When the core file already exists in `6a2/`, every copy found elsewhere
/// is a duplicate: it is removed, or in a dry run reported as one to remove;
/// none is moved over the existing file. When it does not exist, a dry run
/// writes nothing, so every copy is reported as one to move.
pub proof fn lemma_core_plan_by_existence(
    walk: Seq<Seq<Seq<char>>>,
    from: int,
    file: int,
    six_a2: Seq<Seq<char>>,
    exists: bool,
    execute: bool,
)
    ensures
        forall|a: int| #![trigger core_plan_for(walk, from, file, six_a2, exists, execute)[a]]
            0 <= a < core_plan_for(walk, from, file, six_a2, exists, execute).len() ==> {
                let action = core_plan_for(walk, from, file, six_a2, exists, execute)[a].action;
                &&& exists ==> action == (if execute {
                    CoreAction::RemoveDuplicate
                } else {
                    CoreAction::ReportDuplicate
                })
                &&& !exists && !execute ==> action == CoreAction::ReportMove
            },
    decreases walk.len() - from,
{
    if 0 <= from < walk.len() {
        lemma_core_plan_by_existence(walk, from + 1, file, six_a2, exists, execute);
        let plan = core_plan_for(walk, from, file, six_a2, exists, execute);
        let rest = core_plan_for(walk, from + 1, file, six_a2, exists, execute);
        if is_stray_core(walk[from], file, six_a2) {
            if !exists && execute {
                lemma_core_plan_by_existence(walk, from + 1, file, six_a2, true, true);
            }
            let rest2 = if exists { rest } else { core_plan_for(walk, from + 1, file, six_a2, execute, execute) };
            assert(plan == seq![plan[0]] + rest2);
            assert forall|a: int| 0 <= a < plan.len() implies {
                let action = (#[trigger] plan[a]).action;
                &&& exists ==> action == (if execute {
                    CoreAction::RemoveDuplicate
                } else {
                    CoreAction::ReportDuplicate
                })
                &&& !exists && !execute ==> action == CoreAction::ReportMove
            } by {
                if a > 0 {
                    assert(plan[a] == rest2[a - 1]);
                }
            }
        }
    }
}

/// A later run of the `.scm` step finds nothing to do: once the step is
/// carried out, every core `.scm` file outside `6a2/` has been converted or
/// removed (see `lemma_scm_plan_covers_candidates`) and the step wrote only
/// into `6a2/`, so a later walk holds only entries of the first walk that
/// were no candidates and entries below `6a2/`; its plan is empty.
pub proof fn lemma_scm_second_run_empty(
    walk: Seq<Seq<Seq<char>>>,
    later_walk: Seq<Seq<Seq<char>>>,
    from: int,
    six_a2: Seq<Seq<char>>,
    known: Seq<Seq<char>>,
    execute: bool,
)
    requires
        forall|j: int| #![trigger later_walk[j]]
            0 <= j < later_walk.len() ==> is_under(later_walk[j], six_a2) || exists|i: int|
                0 <= i < walk.len() && walk[i] == later_walk[j] && !is_scm_candidate(walk[i], six_a2),
    ensures
        scm_plan(later_walk, from, six_a2, known, execute) == Seq::<ScmTask>::empty(),
    decreases later_walk.len() - from,
{
    if 0 <= from < later_walk.len() {
        if !is_under(later_walk[from], six_a2) {
            let i = choose|i: int| 0 <= i < walk.len() && walk[i] == later_walk[from] && !is_scm_candidate(walk[i], six_a2);
        }
        lemma_scm_second_run_empty(walk, later_walk, from + 1, six_a2, known, execute);
    }
}

/// A later run of the core-file step finds nothing to do for a core file:
/// once the step is carried out, every copy outside its place has been moved
/// or removed (see `lemma_core_plan_covers_copies`) and the one moved copy
/// sits directly in `6a2/`, so a later walk holds only entries of the first
/// walk that were no stray copies and entries in their place; its plan is
/// empty.
pub proof fn lemma_core_second_run_empty(
    walk: Seq<Seq<Seq<char>>>,
    later_walk: Seq<Seq<Seq<char>>>,
    from: int,
    file: int,
    six_a2: Seq<Seq<char>>,
    exists: bool,
    execute: bool,
)
    requires
        forall|j: int| #![trigger later_walk[j]]
            0 <= j < later_walk.len() ==> in_place(later_walk[j], six_a2) || exists|i: int|
                0 <= i < walk.len() && walk[i] == later_walk[j] && !is_stray_core(walk[i], file, six_a2),
    ensures
        core_plan_for(later_walk, from, file, six_a2, exists, execute) == Seq::<CoreTask>::empty(),
    decreases later_walk.len() - from,
{
    if 0 <= from < later_walk.len() {
        if !in_place(later_walk[from], six_a2) {
            let i = choose|i: int| 0 <= i < walk.len() && walk[i] == later_walk[from] && !is_stray_core(walk[i], file, six_a2);
        }
        lemma_core_second_run_empty(walk, later_walk, from + 1, file, six_a2, exists, execute);
    }
}

} // verus!
