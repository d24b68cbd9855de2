//! Paths as sequences of components, their order, and the path-level
//! decisions of the normalizer: where the estate root is, which directories
//! are repositories, and which repositories a comma-separated filter keeps.
//!
//! A path is a `Vec<String>` of its components in order. An absolute path
//! starts with the component `"/"`; every other component is a plain name,
//! `"."` or `".."`.

use vstd::prelude::*;
use crate::text::{
    lemma_text_less_irreflexive, lemma_text_less_total, lemma_text_less_transitive, split_on, split_str, str_eq, str_less,
    text_less, views,
};

verus! {

/// The character view of a path.
pub open spec fn path_view(p: Vec<String>) -> Seq<Seq<char>> {
    views(p@)
}

/// The character views of a list of paths.
pub open spec fn paths_view(ps: Seq<Vec<String>>) -> Seq<Seq<Seq<char>>> {
    ps.map_values(|p: Vec<String>| path_view(p))
}

/// The order of `std::path::Path`: lexicographic over components, each
/// component compared by its characters.
pub open spec fn path_less(a: Seq<Seq<char>>, b: Seq<Seq<char>>) -> bool
    decreases a.len(),
{
    if a.len() == 0 {
        b.len() > 0
    } else if b.len() == 0 {
        false
    } else if a[0] != b[0] {
        text_less(a[0], b[0])
    } else {
        path_less(a.drop_first(), b.drop_first())
    }
}

/// Every path comes strictly after the ones before it.
pub open spec fn strictly_ascending(ps: Seq<Seq<Seq<char>>>) -> bool {
    forall|i: int, j: int| 0 <= i < j < ps.len() ==> path_less(#[trigger] ps[i], #[trigger] ps[j])
}

/// A path whose last component is a plain name (`Path::file_name` is `Some`).
pub open spec fn has_file_name(p: Seq<Seq<char>>) -> bool {
    &&& p.len() > 0
    &&& p.last() != "/"@
    &&& p.last() != "."@
    &&& p.last() != ".."@
}

/// `path_less` is irreflexive.
pub proof fn lemma_path_less_irreflexive(a: Seq<Seq<char>>)
    ensures
        !path_less(a, a),
    decreases a.len(),
{
    if a.len() > 0 {
        lemma_path_less_irreflexive(a.drop_first());
    }
}

/// `path_less` is transitive.
pub proof fn lemma_path_less_transitive(a: Seq<Seq<char>>, b: Seq<Seq<char>>, c: Seq<Seq<char>>)
    requires
        path_less(a, b),
        path_less(b, c),
    ensures
        path_less(a, c),
    decreases a.len(),
{
    if a.len() > 0 && b.len() > 0 && c.len() > 0 {
        if a[0] == b[0] && b[0] == c[0] {
            lemma_path_less_transitive(a.drop_first(), b.drop_first(), c.drop_first());
        } else if a[0] != b[0] && b[0] != c[0] {
            lemma_text_less_transitive(a[0], b[0], c[0]);
            lemma_text_less_irreflexive(a[0]);
        }
    }
}

/// Two different paths are ordered one way or the other.
pub proof fn lemma_path_less_total(a: Seq<Seq<char>>, b: Seq<Seq<char>>)
    ensures
        a == b || path_less(a, b) || path_less(b, a),
    decreases a.len(),
{
    if a.len() > 0 && b.len() > 0 {
        if a[0] == b[0] {
            lemma_path_less_total(a.drop_first(), b.drop_first());
            if a.drop_first() == b.drop_first() {
                assert(a =~= seq![a[0]] + a.drop_first());
                assert(b =~= seq![b[0]] + b.drop_first());
            }
        } else {
            lemma_text_less_total(a[0], b[0]);
        }
    } else if a.len() == 0 && b.len() == 0 {
        assert(a =~= b);
    }
}

/// Dropping a common prefix of components does not change the order.
pub proof fn lemma_path_less_common_prefix(a: Seq<Seq<char>>, b: Seq<Seq<char>>, k: int)
    requires
        0 <= k <= a.len(),
        k <= b.len(),
        a.take(k) == b.take(k),
    ensures
        path_less(a, b) == path_less(a.skip(k), b.skip(k)),
    decreases k,
{
    if k > 0 {
        assert(a[0] == a.take(k)[0]);
        assert(b[0] == b.take(k)[0]);
        assert(a.drop_first().take(k - 1) =~= a.take(k).drop_first());
        assert(b.drop_first().take(k - 1) =~= b.take(k).drop_first());
        lemma_path_less_common_prefix(a.drop_first(), b.drop_first(), k - 1);
        assert(a.drop_first().skip(k - 1) =~= a.skip(k));
        assert(b.drop_first().skip(k - 1) =~= b.skip(k));
    } else {
        assert(a.skip(0) =~= a);
        assert(b.skip(0) =~= b);
    }
}

/// A strictly ascending list of paths is determined by the paths it holds:
/// two such lists with the same members are the same list. So sorting and
/// removing duplicates has exactly one possible outcome.
pub proof fn lemma_ascending_paths_unique(s1: Seq<Seq<Seq<char>>>, s2: Seq<Seq<Seq<char>>>)
    requires
        strictly_ascending(s1),
        strictly_ascending(s2),
        forall|p: Seq<Seq<char>>| s1.contains(p) <==> s2.contains(p),
    ensures
        s1 == s2,
    decreases s1.len(),
{
    if s1.len() == 0 {
        if s2.len() > 0 {
            assert(s2.contains(s2[0]));
        }
        assert(s1 =~= s2);
    } else if s2.len() == 0 {
        assert(s1.contains(s1[0]));
    } else {
        assert(s1.contains(s1[0]));
        assert(s2.contains(s2[0]));
        let k = choose|k: int| 0 <= k < s2.len() && s2[k] == s1[0];
        let m = choose|m: int| 0 <= m < s1.len() && s1[m] == s2[0];
        if k > 0 {
            assert(path_less(s2[0], s2[k]));
            if m > 0 {
                assert(path_less(s1[0], s1[m]));
                lemma_path_less_transitive(s2[0], s1[0], s2[0]);
            }
            lemma_path_less_irreflexive(s2[0]);
        }
        assert(s1[0] == s2[0]);
        let t1 = s1.drop_first();
        let t2 = s2.drop_first();
        assert forall|p: Seq<Seq<char>>| t1.contains(p) <==> t2.contains(p) by {
            if t1.contains(p) {
                let i = choose|i: int| 0 <= i < t1.len() && t1[i] == p;
                assert(s1.contains(p));
                assert(path_less(s1[0], s1[i + 1]));
                lemma_path_less_irreflexive(p);
                let j = choose|j: int| 0 <= j < s2.len() && s2[j] == p;
                assert(j != 0);
                assert(t2[j - 1] == p);
            }
            if t2.contains(p) {
                let i = choose|i: int| 0 <= i < t2.len() && t2[i] == p;
                assert(s2.contains(p));
                assert(path_less(s2[0], s2[i + 1]));
                lemma_path_less_irreflexive(p);
                let j = choose|j: int| 0 <= j < s1.len() && s1[j] == p;
                assert(j != 0);
                assert(t1[j - 1] == p);
            }
        }
        lemma_ascending_paths_unique(t1, t2);
        assert(s1 =~= seq![s1[0]] + t1);
        assert(s2 =~= seq![s2[0]] + t2);
    }
}

/// A copy of a path.
pub fn clone_path(p: &Vec<String>) -> (copy: Vec<String>)
    ensures
        copy@ == p@,
{
    let mut copy: Vec<String> = Vec::new();
    let mut i: usize = 0;
    while i < p.len()
        invariant
            i <= p.len(),
            copy@ == p@.take(i as int),
        decreases p.len() - i,
    {
        copy.push(p[i].clone());
        assert(copy@ =~= p@.take(i + 1));
        i = i + 1;
    }
    assert(p@.take(p.len() as int) =~= p@);
    copy
}

/// Whether two paths have the same components.
pub fn path_eq(a: &Vec<String>, b: &Vec<String>) -> (same: bool)
    ensures
        same == (path_view(*a) == path_view(*b)),
{
    if a.len() != b.len() {
        assert(path_view(*a).len() != path_view(*b).len());
        return false;
    }
    let mut i: usize = 0;
    while i < a.len()
        invariant
            a.len() == b.len(),
            i <= a.len(),
            forall|k: int| 0 <= k < i ==> a@[k]@ == b@[k]@,
        decreases a.len() - i,
    {
        if !str_eq(a[i].as_str(), b[i].as_str()) {
            assert(path_view(*a)[i as int] != path_view(*b)[i as int]);
            return false;
        }
        i = i + 1;
    }
    assert(path_view(*a) =~= path_view(*b));
    true
}

/// Whether `a` comes before `b` in the order of `std::path::Path`.
pub fn path_precedes(a: &Vec<String>, b: &Vec<String>) -> (less: bool)
    ensures
        less == path_less(path_view(*a), path_view(*b)),
{
    let ghost av = path_view(*a);
    let ghost bv = path_view(*b);
    let mut i: usize = 0;
    while i < a.len() && i < b.len()
        invariant
            av == path_view(*a),
            bv == path_view(*b),
            i <= a.len(),
            i <= b.len(),
            av.take(i as int) == bv.take(i as int),
        decreases a.len() - i,
    {
        if !str_eq(a[i].as_str(), b[i].as_str()) {
            let less = str_less(a[i].as_str(), b[i].as_str());
            proof {
                lemma_path_less_common_prefix(av, bv, i as int);
                assert(av.skip(i as int)[0] == a@[i as int]@);
                assert(bv.skip(i as int)[0] == b@[i as int]@);
            }
            return less;
        }
        assert(av.take(i + 1) =~= av.take(i as int).push(av[i as int]));
        assert(bv.take(i + 1) =~= bv.take(i as int).push(bv[i as int]));
        i = i + 1;
    }
    proof {
        lemma_path_less_common_prefix(av, bv, i as int);
    }
    i == a.len() && i < b.len()
}

/// Adds `x` to a strictly ascending list of paths unless it is already there.
fn insert_ascending(list: &mut Vec<Vec<String>>, x: Vec<String>)
    requires
        strictly_ascending(paths_view(old(list)@)),
    ensures
        strictly_ascending(paths_view(final(list)@)),
        forall|q: Seq<Seq<char>>|
            paths_view(final(list)@).contains(q) <==> (paths_view(old(list)@).contains(q) || q == path_view(x)),
{
    let ghost before = paths_view(list@);
    let ghost xv = path_view(x);
    let mut p: usize = 0;
    while p < list.len() && path_precedes(&list[p], &x)
        invariant
            list@ == old(list)@,
            before == paths_view(list@),
            xv == path_view(x),
            p <= list.len(),
            forall|k: int| 0 <= k < p ==> path_less(#[trigger] before[k], xv),
        decreases list.len() - p,
    {
        p = p + 1;
    }
    if p < list.len() && path_eq(&list[p], &x) {
        assert(before[p as int] == xv);
        return;
    }
    proof {
        if p < before.len() {
            lemma_path_less_total(before[p as int], xv);
        }
    }
    list.insert(p, x);
    let ghost after = paths_view(list@);
    assert(after =~= before.insert(p as int, xv));
    assert forall|i: int, j: int| 0 <= i < j < after.len() implies path_less(#[trigger] after[i], #[trigger] after[j]) by {
        if j < p {
        } else if j == p {
        } else if i < p {
            if j - 1 > p {
                lemma_path_less_transitive(xv, before[p as int], before[j - 1]);
            }
            lemma_path_less_transitive(after[i], xv, after[j]);
        } else if i == p {
            if j - 1 > p {
                lemma_path_less_transitive(xv, before[p as int], before[j - 1]);
            }
        } else {
        }
    }
    assert forall|q: Seq<Seq<char>>| after.contains(q) <==> (before.contains(q) || q == xv) by {
        if after.contains(q) {
            let i = choose|i: int| 0 <= i < after.len() && after[i] == q;
            if i < p {
                assert(before[i] == q);
            } else if i > p {
                assert(before[i - 1] == q);
            }
        }
        if before.contains(q) {
            let i = choose|i: int| 0 <= i < before.len() && before[i] == q;
            if i < p {
                assert(after[i] == q);
            } else {
                assert(after[i + 1] == q);
            }
        }
        if q == xv {
            assert(after[p as int] == q);
        }
    }
}


/// One entry yielded by walking the estate: its path and whether it is a
/// directory (following symbolic links).
pub struct WalkEntry {
    pub path: Vec<String>,
    pub is_dir: bool,
}

/// A `.git` directory, which marks its parent as a repository root.
pub open spec fn is_git_marker(e: WalkEntry) -> bool {
    &&& e.is_dir
    &&& e.path@.len() > 0
    &&& e.path@.last()@ == ".git"@
}

/// The directory that holds the entry.
pub open spec fn parent_of(e: WalkEntry) -> Seq<Seq<char>> {
    path_view(e.path).drop_last()
}

/// Paths in which the root component `"/"` can only come first.
pub open spec fn well_formed_path(p: Seq<Seq<char>>) -> bool {
    forall|j: int| 0 < j < p.len() ==> p[j] != "/"@
}

/// Whether `p` lies strictly below the directory `dir`.
pub open spec fn is_under(p: Seq<Seq<char>>, dir: Seq<Seq<char>>) -> bool {
    p.len() > dir.len() && p.take(dir.len() as int) == dir
}

/// Whether some component of `p` is `name`.
pub open spec fn has_component(p: Seq<Seq<char>>, name: Seq<char>) -> bool {
    exists|i: int| 0 <= i < p.len() && p[i] == name
}

/// The repository roots under the estate, given every entry of a walk of
/// it: the parent of each `.git` directory, sorted in path order and without
/// duplicates.
pub fn find_git_repos(walk: &Vec<WalkEntry>) -> (repos: Vec<Vec<String>>)
    ensures
        strictly_ascending(paths_view(repos@)),
        forall|q: Seq<Seq<char>>|
            paths_view(repos@).contains(q) <==> exists|i: int|
                0 <= i < walk.len() && #[trigger] is_git_marker(walk@[i]) && q == parent_of(walk@[i]),
{
    let mut repos: Vec<Vec<String>> = Vec::new();
    let mut i: usize = 0;
    while i < walk.len()
        invariant
            i <= walk.len(),
            strictly_ascending(paths_view(repos@)),
            forall|q: Seq<Seq<char>>|
                paths_view(repos@).contains(q) <==> exists|k: int|
                    0 <= k < i && #[trigger] is_git_marker(walk@[k]) && q == parent_of(walk@[k]),
        decreases walk.len() - i,
    {
        let entry = &walk[i];
        let n = entry.path.len();
        if entry.is_dir && n > 0 && str_eq(entry.path[n - 1].as_str(), ".git") {
            let mut parent = clone_path(&entry.path);
            parent.pop();
            assert(path_view(parent) =~= parent_of(walk@[i as int]));
            let ghost before = paths_view(repos@);
            let ghost fresh = parent_of(walk@[i as int]);
            assert(is_git_marker(walk@[i as int]));
            insert_ascending(&mut repos, parent);
            assert forall|q: Seq<Seq<char>>|
                paths_view(repos@).contains(q) <==> exists|k: int|
                    0 <= k < i + 1 && #[trigger] is_git_marker(walk@[k]) && q == parent_of(walk@[k]) by {
                if paths_view(repos@).contains(q) {
                    if q == fresh {
                        assert(is_git_marker(walk@[i as int]) && q == parent_of(walk@[i as int]));
                    } else {
                        assert(before.contains(q));
                        let k = choose|k: int| 0 <= k < i && #[trigger] is_git_marker(walk@[k]) && q == parent_of(walk@[k]);
                        assert(0 <= k < i + 1 && is_git_marker(walk@[k]) && q == parent_of(walk@[k]));
                    }
                }
                if exists|k: int| 0 <= k < i + 1 && #[trigger] is_git_marker(walk@[k]) && q == parent_of(walk@[k]) {
                    let k = choose|k: int| 0 <= k < i + 1 && #[trigger] is_git_marker(walk@[k]) && q == parent_of(walk@[k]);
                    if k < i {
                        assert(before.contains(q));
                    }
                }
            }
        } else {
            assert(!is_git_marker(walk@[i as int]));
        }
        i = i + 1;
    }
    repos
}

/// Whether `p` lies strictly below the directory `dir`.
pub fn path_is_under(p: &Vec<String>, dir: &Vec<String>) -> (under: bool)
    ensures
        under == is_under(path_view(*p), path_view(*dir)),
{
    if p.len() <= dir.len() {
        return false;
    }
    let ghost pv = path_view(*p);
    let ghost dv = path_view(*dir);
    let mut i: usize = 0;
    while i < dir.len()
        invariant
            pv == path_view(*p),
            dv == path_view(*dir),
            p.len() > dir.len(),
            i <= dir.len(),
            forall|k: int| 0 <= k < i ==> pv[k] == dv[k],
        decreases dir.len() - i,
    {
        if !str_eq(p[i].as_str(), dir[i].as_str()) {
            assert(pv.take(dv.len() as int)[i as int] != dv[i as int]);
            return false;
        }
        i = i + 1;
    }
    assert(pv.take(dv.len() as int) =~= dv);
    true
}

/// Whether `x` is one of the strings of `list`.
pub fn contains_str(list: &Vec<String>, x: &str) -> (found: bool)
    ensures
        found == views(list@).contains(x@),
{
    let mut i: usize = 0;
    while i < list.len()
        invariant
            i <= list.len(),
            forall|k: int| 0 <= k < i ==> list@[k]@ != x@,
        decreases list.len() - i,
    {
        if str_eq(list[i].as_str(), x) {
            assert(views(list@)[i as int] == x@);
            return true;
        }
        i = i + 1;
    }
    assert forall|k: int| 0 <= k < views(list@).len() implies views(list@)[k] != x@ by {
        assert(list@[k]@ != x@);
    }
    false
}

/// Whether a repository is named in a comma-separated list of names.
pub open spec fn named_in(filter: Seq<char>, repo: Seq<Seq<char>>) -> bool {
    split_on(filter, ',').contains(repo.last())
}

/// The test that the repository filter `filter` applies.
pub open spec fn kept_by(filter: Seq<char>) -> spec_fn(Seq<Seq<char>>) -> bool {
    |p: Seq<Seq<char>>| named_in(filter, p)
}

/// The repositories whose directory name is one of the comma-separated
/// names of `filter`, in their order.
pub fn filter_repos(repos: &Vec<Vec<String>>, filter: &str) -> (kept: Vec<Vec<String>>)
    requires
        forall|i: int| 0 <= i < repos.len() ==> has_file_name(#[trigger] path_view(repos@[i])),
    ensures
        paths_view(kept@) == paths_view(repos@).filter(kept_by(filter@)),
{
    let names = split_str(filter, ',');
    let ghost pred = kept_by(filter@);
    let mut kept: Vec<Vec<String>> = Vec::new();
    let mut i: usize = 0;
    assert(paths_view(repos@).take(0).filter(pred) =~= paths_view(kept@)) by {
        reveal(Seq::filter);
    }
    while i < repos.len()
        invariant
            i <= repos.len(),
            views(names@) == split_on(filter@, ','),
            pred == kept_by(filter@),
            forall|k: int| 0 <= k < repos.len() ==> has_file_name(#[trigger] path_view(repos@[k])),
            paths_view(kept@) == paths_view(repos@).take(i as int).filter(pred),
        decreases repos.len() - i,
    {
        let repo = &repos[i];
        assert(has_file_name(path_view(repos@[i as int])));
        let n = repo.len();
        let ghost all = paths_view(repos@);
        assert(all.take(i + 1).drop_last() =~= all.take(i as int));
        assert(all.take(i + 1).last() == path_view(*repo));
        assert(path_view(*repo).last() == repo@[n - 1]@);
        let found = contains_str(&names, repo[n - 1].as_str());
        assert(named_in(filter@, path_view(*repo)) == split_on(filter@, ',').contains(repo@[n - 1]@));
        assert(found == named_in(filter@, path_view(*repo)));
        assert(found == pred(all.take(i + 1).last()));
        if found {
            let ghost before = paths_view(kept@);
            kept.push(clone_path(repo));
            assert(paths_view(kept@) =~= before.push(path_view(*repo)));
            assert(paths_view(kept@) == all.take(i + 1).filter(pred)) by {
                reveal(Seq::filter);
            }
        } else {
            assert(paths_view(kept@) == all.take(i + 1).filter(pred)) by {
                reveal(Seq::filter);
            }
        }
        i = i + 1;
    }
    assert(paths_view(repos@).take(repos.len() as int) =~= paths_view(repos@));
    kept
}

/// The estate root that the normalizer assumes when none is given: the
/// starting directory cut back to its last component named `repos`, or to
/// the file-system root (or nothing, for a relative path) when no component
/// has that name.
pub fn estate_root_from(start: &Vec<String>) -> (root: Vec<String>)
    requires
        well_formed_path(path_view(*start)),
    ensures
        has_component(path_view(*start), "repos"@) ==> {
            &&& root@.len() > 0
            &&& root@ == start@.take(root@.len() as int)
            &&& root@.last()@ == "repos"@
            &&& forall|j: int| root@.len() <= j < start@.len() ==> start@[j]@ != "repos"@
        },
        !has_component(path_view(*start), "repos"@) ==> root@ == start@.take(
            if start@.len() > 0 && start@[0]@ == "/"@ { 1int } else { 0int },
        ),
{
    let ghost sv = path_view(*start);
    let mut i: usize = start.len();
    while i > 0 && !str_eq(start[i - 1].as_str(), "repos") && !(i == 1 && str_eq(start[0].as_str(), "/"))
        invariant
            sv == path_view(*start),
            i <= start.len(),
            forall|j: int| i <= j < start@.len() ==> start@[j]@ != "repos"@,
            i == 0 ==> (start@.len() == 0 || start@[0]@ != "/"@),
        decreases i,
    {
        i = i - 1;
    }
    let mut root: Vec<String> = Vec::new();
    let mut k: usize = 0;
    while k < i
        invariant
            i <= start.len(),
            k <= i,
            root@ == start@.take(k as int),
        decreases i - k,
    {
        root.push(start[k].clone());
        assert(root@ =~= start@.take(k + 1));
        k = k + 1;
    }
    proof {
        if has_component(sv, "repos"@) {
            let w = choose|w: int| 0 <= w < sv.len() && sv[w] == "repos"@;
            assert(start@[w]@ == "repos"@);
            if i == 0 {
                assert(false);
            } else if i == 1 && start@[0]@ == "/"@ && start@[0]@ != "repos"@ {
                if w > 0 {
                    assert(false);
                } else {
                    assert(sv[0] == start@[0]@);
                }
            }
        } else {
            if i > 0 && start@[i - 1]@ == "repos"@ {
                assert(sv[i - 1] == "repos"@);
            }
            if i > 1 {
                assert(start@[i - 1]@ == "repos"@);
                assert(sv[i - 1] == "repos"@);
            }
            if i == 1 {
                assert(start@[0]@ == "/"@ || start@[0]@ == "repos"@);
            }
            if i == 1 {
                if start@[0]@ != "/"@ {
                    assert(start@[0]@ == "repos"@);
                    assert(sv[0] == "repos"@);
                }
            }
            if i == 0 && start@.len() > 0 && start@[0]@ == "/"@ {
                assert(start@[0]@ != "repos"@) by {
                    reveal_strlit("repos");
                    reveal_strlit("/");
                }
            }
        }
    }
    root
}

} // verus!
