//! Removing the old directories that the other steps leave empty: the old
//! `anchors/` directory, and the directories that held the files the run
//! moved away or removed (such as `6scm/6a2/`), up to `.machine_readable/`.
//!
//! The plan works on a walk of `.machine_readable/` and the paths of the
//! files that the earlier steps of the run move away or remove (`vacated`).
//! When the steps were carried out those files are already gone; in a dry
//! run they are still there but count as gone, so a dry run reports the
//! directories that an executed run removes.

use vstd::prelude::*;
use crate::paths::{is_under, path_eq, path_is_under, path_view, paths_view, WalkEntry};

verus! {

/// What the cleanup step does with an empty old directory.
#[derive(Clone, Copy, PartialEq, Eq, Structural, Debug)]
pub enum CleanupAction {
    /// Remove the directory at walk entry `entry`.
    RemoveDir(usize),
    /// Dry run: report that it would be removed.
    ReportRemoveDir(usize),
}

/// The directories the normalizer keeps even when empty: `6a2/` and
/// `6a2/anchor/`.
pub open spec fn is_layout_dir(d: Seq<Seq<char>>, six_a2: Seq<Seq<char>>) -> bool {
    d == six_a2 || d == six_a2.push("anchor"@)
}

/// An old location: the old `anchors/` directory, or a directory that held
/// a file the run moved away or removed.
pub open spec fn is_old_location(
    d: Seq<Seq<char>>,
    vacated: Seq<Seq<Seq<char>>>,
    machine_readable: Seq<Seq<char>>,
) -> bool {
    d == machine_readable.push("anchors"@) || exists|k: int| 0 <= k < vacated.len() && is_under(#[trigger] vacated[k], d)
}

/// Whether a file that stays (not a directory, not vacated) lies below `d`.
pub open spec fn holds_remaining_file(walk: Seq<WalkEntry>, vacated: Seq<Seq<Seq<char>>>, d: Seq<Seq<char>>) -> bool {
    exists|j: int|
        0 <= j < walk.len() && !(#[trigger] walk[j]).is_dir && is_under(path_view(walk[j].path), d)
            && !vacated.contains(path_view(walk[j].path))
}

/// A directory that the cleanup removes: an old location below
/// `.machine_readable/`, not a layout directory nor above one, with no
/// remaining file anywhere below it.
pub open spec fn is_removable(
    walk: Seq<WalkEntry>,
    vacated: Seq<Seq<Seq<char>>>,
    e: WalkEntry,
    machine_readable: Seq<Seq<char>>,
    six_a2: Seq<Seq<char>>,
) -> bool {
    let d = path_view(e.path);
    &&& e.is_dir
    &&& is_under(d, machine_readable)
    &&& !is_layout_dir(d, six_a2)
    &&& !is_under(six_a2, d)
    &&& !is_under(six_a2.push("anchor"@), d)
    &&& is_old_location(d, vacated, machine_readable)
    &&& !holds_remaining_file(walk, vacated, d)
}

/// The action on a removable directory.
pub open spec fn cleanup_action(entry: int, perform: bool) -> CleanupAction {
    if perform { CleanupAction::RemoveDir(entry as usize) } else { CleanupAction::ReportRemoveDir(entry as usize) }
}

/// The actions on the walk entries before index `upto`, last entry first, so
/// that a directory comes after everything below it (the walk lists a
/// directory before its contents).
pub open spec fn cleanup_plan(
    walk: Seq<WalkEntry>,
    vacated: Seq<Seq<Seq<char>>>,
    upto: int,
    machine_readable: Seq<Seq<char>>,
    six_a2: Seq<Seq<char>>,
    perform: bool,
) -> Seq<CleanupAction>
    decreases upto,
{
    if upto <= 0 {
        Seq::empty()
    } else {
        let rest = cleanup_plan(walk, vacated, upto - 1, machine_readable, six_a2, perform);
        if is_removable(walk, vacated, walk[upto - 1], machine_readable, six_a2) {
            seq![cleanup_action(upto - 1, perform)] + rest
        } else {
            rest
        }
    }
}

/// Whether `p` is one of `list`.
fn contains_path(list: &Vec<Vec<String>>, p: &Vec<String>) -> (found: bool)
    ensures
        found == paths_view(list@).contains(path_view(*p)),
{
    let mut i: usize = 0;
    while i < list.len()
        invariant
            i <= list.len(),
            forall|k: int| 0 <= k < i ==> path_view(list@[k]) != path_view(*p),
        decreases list.len() - i,
    {
        if path_eq(&list[i], p) {
            assert(paths_view(list@)[i as int] == path_view(*p));
            return true;
        }
        i = i + 1;
    }
    assert forall|k: int| 0 <= k < paths_view(list@).len() implies paths_view(list@)[k] != path_view(*p) by {
        assert(path_view(list@[k]) != path_view(*p));
    }
    false
}

/// Whether some path of `list` lies below `d`.
fn has_path_below(list: &Vec<Vec<String>>, d: &Vec<String>) -> (found: bool)
    ensures
        found == exists|k: int| 0 <= k < list.len() && is_under(#[trigger] paths_view(list@)[k], path_view(*d)),
{
    let mut i: usize = 0;
    while i < list.len()
        invariant
            i <= list.len(),
            forall|k: int| 0 <= k < i ==> !is_under(#[trigger] paths_view(list@)[k], path_view(*d)),
        decreases list.len() - i,
    {
        if path_is_under(&list[i], d) {
            assert(is_under(paths_view(list@)[i as int], path_view(*d)));
            return true;
        }
        i = i + 1;
    }
    false
}

/// Whether a remaining file lies below the directory `d`.
fn has_remaining_file(walk: &Vec<WalkEntry>, vacated: &Vec<Vec<String>>, d: &Vec<String>) -> (found: bool)
    ensures
        found == holds_remaining_file(walk@, paths_view(vacated@), path_view(*d)),
{
    let mut j: usize = 0;
    while j < walk.len()
        invariant
            j <= walk.len(),
            forall|k: int|
                0 <= k < j ==> !(!(#[trigger] walk@[k]).is_dir && is_under(path_view(walk@[k].path), path_view(*d))
                    && !paths_view(vacated@).contains(path_view(walk@[k].path))),
        decreases walk.len() - j,
    {
        let e = &walk[j];
        if !e.is_dir && path_is_under(&e.path, d) && !contains_path(vacated, &e.path) {
            return true;
        }
        j = j + 1;
    }
    false
}

/// The cleanup actions: every old location (the `anchors/` directory, or a
/// directory above a vacated file) below `machine_readable`, other than
/// `six_a2`, `six_a2/anchor` and their ancestors, that has no remaining file
/// below it, deepest (last walked) first; each counts one fix, whether it
/// is carried out or only reported.
pub fn plan_cleanup(
    walk: &Vec<WalkEntry>,
    vacated: &Vec<Vec<String>>,
    machine_readable: &Vec<String>,
    six_a2: &Vec<String>,
    perform: bool,
) -> (actions: Vec<CleanupAction>)
    ensures
        actions@ == cleanup_plan(
            walk@,
            paths_view(vacated@),
            walk@.len() as int,
            path_view(*machine_readable),
            path_view(*six_a2),
            perform,
        ),
        forall|a: int| 0 <= a < actions@.len() ==> {
            let i = cleanup_entry(#[trigger] actions@[a]);
            let d = path_view(walk@[i].path);
            &&& 0 <= i < walk.len()
            &&& (actions@[a] is RemoveDir <==> perform)
            &&& walk@[i].is_dir
            &&& is_under(d, path_view(*machine_readable))
            &&& forall|j: int|
                0 <= j < walk.len() && !(#[trigger] walk@[j]).is_dir && is_under(path_view(walk@[j].path), d)
                    ==> paths_view(vacated@).contains(path_view(walk@[j].path))
        },
{
    let ghost vac = paths_view(vacated@);
    let ghost mr = path_view(*machine_readable);
    let ghost six = path_view(*six_a2);
    let mut anchor_dir: Vec<String> = crate::paths::clone_path(six_a2);
    anchor_dir.push(String::from_str("anchor"));
    assert(path_view(anchor_dir) =~= six.push("anchor"@));
    let mut anchors_dir: Vec<String> = crate::paths::clone_path(machine_readable);
    anchors_dir.push(String::from_str("anchors"));
    assert(path_view(anchors_dir) =~= mr.push("anchors"@));
    let mut actions: Vec<CleanupAction> = Vec::new();
    let mut i: usize = walk.len();
    while i > 0
        invariant
            vac == paths_view(vacated@),
            mr == path_view(*machine_readable),
            six == path_view(*six_a2),
            path_view(anchor_dir) == six.push("anchor"@),
            path_view(anchors_dir) == mr.push("anchors"@),
            i <= walk.len(),
            cleanup_plan(walk@, vac, walk@.len() as int, mr, six, perform) == actions@ + cleanup_plan(
                walk@,
                vac,
                i as int,
                mr,
                six,
                perform,
            ),
        decreases i,
    {
        let k = i - 1;
        let e = &walk[k];
        let old_location = path_eq(&e.path, &anchors_dir) || has_path_below(vacated, &e.path);
        let removable = e.is_dir && path_is_under(&e.path, machine_readable) && !path_eq(&e.path, six_a2)
            && !path_eq(&e.path, &anchor_dir) && !path_is_under(six_a2, &e.path) && !path_is_under(&anchor_dir, &e.path)
            && old_location && !has_remaining_file(walk, vacated, &e.path);
        assert(removable == is_removable(walk@, vac, walk@[k as int], mr, six));
        if removable {
            let ghost before = actions@;
            actions.push(if perform { CleanupAction::RemoveDir(k) } else { CleanupAction::ReportRemoveDir(k) });
            assert(actions@ + cleanup_plan(walk@, vac, k as int, mr, six, perform) =~= before + (seq![
                cleanup_action(k as int, perform),
            ] + cleanup_plan(walk@, vac, k as int, mr, six, perform)));
        }
        i = k;
    }
    assert(actions@ + cleanup_plan(walk@, vac, 0, mr, six, perform) =~= actions@);
    proof {
        lemma_cleanup_removes_only_emptied_dirs(walk@, vac, walk@.len() as int, mr, six, perform);
        assert forall|a: int| 0 <= a < actions@.len() implies {
            let i = cleanup_entry(#[trigger] actions@[a]);
            let d = path_view(walk@[i].path);
            &&& 0 <= i < walk.len()
            &&& (actions@[a] is RemoveDir <==> perform)
            &&& walk@[i].is_dir
            &&& is_under(d, mr)
            &&& forall|j: int|
                0 <= j < walk.len() && !(#[trigger] walk@[j]).is_dir && is_under(path_view(walk@[j].path), d)
                    ==> vac.contains(path_view(walk@[j].path))
        } by {
            assert(actions@[a] == cleanup_plan(walk@, vac, walk@.len() as int, mr, six, perform)[a]);
        }
    }
    actions
}

/// The walk entry that a cleanup action is on.
pub open spec fn cleanup_entry(a: CleanupAction) -> int {
    match a {
        CleanupAction::RemoveDir(i) => i as int,
        CleanupAction::ReportRemoveDir(i) => i as int,
    }
}

/// Only emptied directories are removed: every action of the plan is on a
/// directory below `.machine_readable/`, neither `6a2/` nor `6a2/anchor/`
/// nor above them, that is the old `anchors/` directory or lies above a
/// vacated file, and below which every file is vacated. A directory that
/// still holds a file anywhere below it stays. Entries are planned at most
/// once, the deepest (last walked) first, and an action is carried out
/// exactly when changes are.
pub proof fn lemma_cleanup_removes_only_emptied_dirs(
    walk: Seq<WalkEntry>,
    vacated: Seq<Seq<Seq<char>>>,
    upto: int,
    machine_readable: Seq<Seq<char>>,
    six_a2: Seq<Seq<char>>,
    perform: bool,
)
    requires
        upto <= walk.len() <= usize::MAX,
    ensures
        forall|a: int| #![trigger cleanup_plan(walk, vacated, upto, machine_readable, six_a2, perform)[a]]
            0 <= a < cleanup_plan(walk, vacated, upto, machine_readable, six_a2, perform).len() ==> {
                let act = cleanup_plan(walk, vacated, upto, machine_readable, six_a2, perform)[a];
                let i = cleanup_entry(act);
                let d = path_view(walk[i].path);
                &&& 0 <= i < upto
                &&& (act is RemoveDir <==> perform)
                &&& walk[i].is_dir
                &&& is_under(d, machine_readable)
                &&& d != six_a2 && d != six_a2.push("anchor"@)
                &&& !is_under(six_a2, d) && !is_under(six_a2.push("anchor"@), d)
                &&& (d == machine_readable.push("anchors"@) || exists|k: int|
                    0 <= k < vacated.len() && is_under(#[trigger] vacated[k], d))
                &&& forall|j: int|
                    0 <= j < walk.len() && !(#[trigger] walk[j]).is_dir && is_under(path_view(walk[j].path), d)
                        ==> vacated.contains(path_view(walk[j].path))
            },
        forall|a: int, b: int|
            0 <= a < b < cleanup_plan(walk, vacated, upto, machine_readable, six_a2, perform).len()
                ==> cleanup_entry(#[trigger] cleanup_plan(walk, vacated, upto, machine_readable, six_a2, perform)[a])
                > cleanup_entry(#[trigger] cleanup_plan(walk, vacated, upto, machine_readable, six_a2, perform)[b]),
    decreases upto,
{
    if upto > 0 {
        lemma_cleanup_removes_only_emptied_dirs(walk, vacated, upto - 1, machine_readable, six_a2, perform);
        let plan = cleanup_plan(walk, vacated, upto, machine_readable, six_a2, perform);
        let rest = cleanup_plan(walk, vacated, upto - 1, machine_readable, six_a2, perform);
        if is_removable(walk, vacated, walk[upto - 1], machine_readable, six_a2) {
            assert(plan == seq![cleanup_action(upto - 1, perform)] + rest);
            assert(cleanup_entry(plan[0]) == upto - 1);
            assert forall|a: int| 0 <= a < plan.len() implies {
                let act = #[trigger] plan[a];
                let i = cleanup_entry(act);
                let d = path_view(walk[i].path);
                &&& 0 <= i < upto
                &&& (act is RemoveDir <==> perform)
                &&& walk[i].is_dir
                &&& is_under(d, machine_readable)
                &&& d != six_a2 && d != six_a2.push("anchor"@)
                &&& !is_under(six_a2, d) && !is_under(six_a2.push("anchor"@), d)
                &&& (d == machine_readable.push("anchors"@) || exists|k: int|
                    0 <= k < vacated.len() && is_under(#[trigger] vacated[k], d))
                &&& forall|j: int|
                    0 <= j < walk.len() && !(#[trigger] walk[j]).is_dir && is_under(path_view(walk[j].path), d)
                        ==> vacated.contains(path_view(walk[j].path))
            } by {
                if a > 0 {
                    assert(plan[a] == rest[a - 1]);
                } else {
                    let d = path_view(walk[upto - 1].path);
                    assert forall|j: int|
                        0 <= j < walk.len() && !(#[trigger] walk[j]).is_dir && is_under(path_view(walk[j].path), d)
                            implies vacated.contains(path_view(walk[j].path)) by {
                        if !vacated.contains(path_view(walk[j].path)) {
                            assert(holds_remaining_file(walk, vacated, d));
                        }
                    }
                }
            }
            assert forall|a: int, b: int| 0 <= a < b < plan.len() implies cleanup_entry(#[trigger] plan[a])
                > cleanup_entry(#[trigger] plan[b]) by {
                assert(plan[b] == rest[b - 1]);
                if a > 0 {
                    assert(plan[a] == rest[a - 1]);
                }
            }
        }
    }
}

/// A dry run and an executed run remove the same directories: the plans
/// differ only in whether each action is carried out or reported.
pub proof fn lemma_cleanup_same_in_dry_run(
    walk: Seq<WalkEntry>,
    vacated: Seq<Seq<Seq<char>>>,
    upto: int,
    machine_readable: Seq<Seq<char>>,
    six_a2: Seq<Seq<char>>,
)
    ensures
        cleanup_plan(walk, vacated, upto, machine_readable, six_a2, true).len() == cleanup_plan(
            walk,
            vacated,
            upto,
            machine_readable,
            six_a2,
            false,
        ).len(),
        forall|a: int| #![trigger cleanup_plan(walk, vacated, upto, machine_readable, six_a2, true)[a]]
            0 <= a < cleanup_plan(walk, vacated, upto, machine_readable, six_a2, true).len() ==> (
            cleanup_plan(walk, vacated, upto, machine_readable, six_a2, true)[a] matches CleanupAction::RemoveDir(e)
                && cleanup_plan(walk, vacated, upto, machine_readable, six_a2, false)[a]
                == CleanupAction::ReportRemoveDir(e)),
    decreases upto,
{
    if upto > 0 {
        lemma_cleanup_same_in_dry_run(walk, vacated, upto - 1, machine_readable, six_a2);
        let p = cleanup_plan(walk, vacated, upto, machine_readable, six_a2, true);
        let q = cleanup_plan(walk, vacated, upto, machine_readable, six_a2, false);
        let pr = cleanup_plan(walk, vacated, upto - 1, machine_readable, six_a2, true);
        let qr = cleanup_plan(walk, vacated, upto - 1, machine_readable, six_a2, false);
        if is_removable(walk, vacated, walk[upto - 1], machine_readable, six_a2) {
            assert forall|a: int| 0 <= a < p.len() implies (#[trigger] p[a] matches CleanupAction::RemoveDir(e) && q[a]
                == CleanupAction::ReportRemoveDir(e)) by {
                if a > 0 {
                    assert(p[a] == pr[a - 1]);
                    assert(q[a] == qr[a - 1]);
                }
            }
        }
    }
}

/// The entries that a walk finds once the cleanup and the earlier steps are
/// carried out: the removed directories and the vacated files are gone.
pub open spec fn after_cleanup(
    walk: Seq<WalkEntry>,
    vacated: Seq<Seq<Seq<char>>>,
    machine_readable: Seq<Seq<char>>,
    six_a2: Seq<Seq<char>>,
) -> Seq<WalkEntry> {
    walk.filter(
        |e: WalkEntry|
            !is_removable(walk, vacated, e, machine_readable, six_a2) && !(!e.is_dir && vacated.contains(
                path_view(e.path),
            )),
    )
}

/// A plan over a walk with no removable entry is empty.
proof fn lemma_cleanup_plan_empty(
    walk: Seq<WalkEntry>,
    vacated: Seq<Seq<Seq<char>>>,
    upto: int,
    machine_readable: Seq<Seq<char>>,
    six_a2: Seq<Seq<char>>,
    perform: bool,
)
    requires
        upto <= walk.len(),
        forall|i: int| 0 <= i < walk.len() ==> !is_removable(walk, vacated, #[trigger] walk[i], machine_readable, six_a2),
    ensures
        cleanup_plan(walk, vacated, upto, machine_readable, six_a2, perform) == Seq::<CleanupAction>::empty(),
    decreases upto,
{
    if upto > 0 {
        lemma_cleanup_plan_empty(walk, vacated, upto - 1, machine_readable, six_a2, perform);
    }
}

/// The cleanup is idempotent: once it and the earlier steps are carried
/// out, planning it again, with the same vacated files or with fewer (a
/// later run vacates none), removes nothing.
pub proof fn lemma_cleanup_idempotent(
    walk: Seq<WalkEntry>,
    vacated: Seq<Seq<Seq<char>>>,
    later_vacated: Seq<Seq<Seq<char>>>,
    machine_readable: Seq<Seq<char>>,
    six_a2: Seq<Seq<char>>,
    perform: bool,
)
    requires
        forall|p: Seq<Seq<char>>| later_vacated.contains(p) ==> vacated.contains(p),
    ensures
        cleanup_plan(
            after_cleanup(walk, vacated, machine_readable, six_a2),
            later_vacated,
            after_cleanup(walk, vacated, machine_readable, six_a2).len() as int,
            machine_readable,
            six_a2,
            perform,
        ) == Seq::<CleanupAction>::empty(),
{
    let pred = |e: WalkEntry|
        !is_removable(walk, vacated, e, machine_readable, six_a2) && !(!e.is_dir && vacated.contains(
            path_view(e.path),
        ));
    let after = after_cleanup(walk, vacated, machine_readable, six_a2);
    assert(after == walk.filter(pred));
    assert forall|i: int| 0 <= i < after.len() implies !is_removable(
        after,
        later_vacated,
        #[trigger] after[i],
        machine_readable,
        six_a2,
    ) by {
        let e = after[i];
        walk.lemma_filter_pred(pred, i);
        let d = path_view(e.path);
        if is_removable(after, later_vacated, e, machine_readable, six_a2) {
            if d != machine_readable.push("anchors"@) {
                let k = choose|k: int| 0 <= k < later_vacated.len() && is_under(#[trigger] later_vacated[k], d);
                assert(later_vacated.contains(later_vacated[k]));
                let m = choose|m: int| 0 <= m < vacated.len() && vacated[m] == later_vacated[k];
                assert(is_under(vacated[m], d));
            }
            assert(is_old_location(d, vacated, machine_readable));
            assert(holds_remaining_file(walk, vacated, d));
            let j = choose|j: int|
                0 <= j < walk.len() && !(#[trigger] walk[j]).is_dir && is_under(path_view(walk[j].path), d)
                    && !vacated.contains(path_view(walk[j].path));
            let f = walk[j];
            assert(pred(f));
            walk.lemma_filter_contains(pred, j);
            assert(after.contains(f));
            let jj = choose|jj: int| 0 <= jj < after.len() && after[jj] == f;
            assert(!later_vacated.contains(path_view(f.path)));
            assert(!after[jj].is_dir && is_under(path_view(after[jj].path), d) && !later_vacated.contains(
                path_view(after[jj].path),
            ));
            assert(holds_remaining_file(after, later_vacated, d));
        }
    }
    lemma_cleanup_plan_empty(after, later_vacated, after.len() as int, machine_readable, six_a2, perform);
}

} // verus!
