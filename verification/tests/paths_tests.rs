use a2ml_estate_normalizer::paths::{estate_root_from, filter_repos, find_git_repos, path_precedes, WalkEntry};
use a2ml_estate_normalizer::text::{replace_all, split_str, str_less};

fn path(parts: &[&str]) -> Vec<String> {
    parts.iter().map(|s| s.to_string()).collect()
}

fn entry(parts: &[&str], is_dir: bool) -> WalkEntry {
    WalkEntry { path: path(parts), is_dir }
}

#[test]
fn git_repos_are_sorted_and_unique() {
    let walk = vec![
        entry(&["/", "estate"], true),
        entry(&["/", "estate", "zeta", ".git"], true),
        entry(&["/", "estate", "alpha", ".git"], true),
        entry(&["/", "estate", "alpha", ".git"], true),
        entry(&["/", "estate", "beta", ".git"], false),
        entry(&["/", "estate", "a-b", ".git"], true),
        entry(&["/", "estate", "a", "b", ".git"], true),
        entry(&["/", "estate", "alpha", "README.md"], false),
    ];
    let repos = find_git_repos(&walk);
    assert_eq!(
        repos,
        vec![
            path(&["/", "estate", "a", "b"]),
            path(&["/", "estate", "a-b"]),
            path(&["/", "estate", "alpha"]),
            path(&["/", "estate", "zeta"]),
        ]
    );
}

#[test]
fn git_file_is_not_a_repository_marker() {
    let walk = vec![entry(&["/", "estate", "worktree", ".git"], false)];
    assert!(find_git_repos(&walk).is_empty());
}

#[test]
fn path_order_is_by_component() {
    // As strings "a-b" < "a/b", but as paths "a/b" comes first.
    assert!(path_precedes(&path(&["a", "b"]), &path(&["a-b"])));
    assert!(!path_precedes(&path(&["a-b"]), &path(&["a", "b"])));
    assert!(path_precedes(&path(&["a"]), &path(&["a", "b"])));
    assert!(!path_precedes(&path(&["a"]), &path(&["a"])));
    assert!(str_less("Zebra", "apple"));
    assert!(str_less("é", "ü"));
}

#[test]
fn repo_filter_keeps_named_repositories_in_order() {
    let repos = vec![
        path(&["/", "r", "alpha"]),
        path(&["/", "r", "beta"]),
        path(&["/", "r", "gamma"]),
    ];
    let kept = filter_repos(&repos, "gamma,alpha");
    assert_eq!(kept, vec![path(&["/", "r", "alpha"]), path(&["/", "r", "gamma"])]);
    assert!(filter_repos(&repos, "").is_empty());
    assert!(filter_repos(&repos, "alph").is_empty());
    assert_eq!(filter_repos(&repos, ",beta,"), vec![path(&["/", "r", "beta"])]);
}

#[test]
fn split_matches_str_split() {
    for s in ["", "a", "a,b", ",a,", "a,,b", ","] {
        let expected: Vec<String> = s.split(',').map(|p| p.to_string()).collect();
        assert_eq!(split_str(s, ','), expected);
    }
}

#[test]
fn replace_matches_str_replace() {
    for s in ["STATE.scm", "a.scm.scm", ".scm", "x.sc", "", "..scmm"] {
        assert_eq!(replace_all(s, ".scm", ".a2ml"), s.replace(".scm", ".a2ml"));
    }
    assert_eq!(replace_all("aaa", "aa", "b"), "ba");
}

#[test]
fn estate_root_is_last_repos_ancestor() {
    let start = path(&["/", "home", "u", "repos", "a2ml", "repos", "tool"]);
    assert_eq!(estate_root_from(&start), path(&["/", "home", "u", "repos", "a2ml", "repos"]));
    let start = path(&["/", "home", "u", "repos", "a2ml", "a2ml-estate-normalizer"]);
    assert_eq!(estate_root_from(&start), path(&["/", "home", "u", "repos"]));
}

#[test]
fn estate_root_without_repos_falls_back_to_root() {
    assert_eq!(estate_root_from(&path(&["/", "home", "u"])), path(&["/"]));
    assert_eq!(estate_root_from(&path(&["home", "u"])), path(&[]));
    assert_eq!(estate_root_from(&path(&["repos"])), path(&["repos"]));
}
