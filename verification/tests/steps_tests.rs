use a2ml_estate_normalizer::cleanup::{plan_cleanup, CleanupAction};
use a2ml_estate_normalizer::documents::{
    anchor_dir_holds_anchor_after_step, anchor_listing_needed, document_file_name, document_text, holds_anchor_file,
    plan_documents, Document, DocumentAction, DocumentFacts,
};
use a2ml_estate_normalizer::mode::{changes_performed, steps_for_mode, Mode, Step};
use a2ml_estate_normalizer::paths::WalkEntry;
use a2ml_estate_normalizer::run::{plan_repo, repo_fixes, RunTotals};

fn path(parts: &[&str]) -> Vec<String> {
    parts.iter().map(|s| s.to_string()).collect()
}

fn all_steps() -> Vec<Step> {
    vec![Step::ConvertScm, Step::PlaceCoreFiles, Step::PlaceAnchors, Step::AddDocuments, Step::RemoveEmptyDirs]
}

#[test]
fn full_mode_runs_every_step_in_order() {
    assert_eq!(steps_for_mode(Mode::Full), all_steps());
}

#[test]
fn check_mode_reports_everything_and_changes_nothing() {
    assert_eq!(steps_for_mode(Mode::Check), all_steps());
    assert!(!changes_performed(Mode::Check, true));
    assert!(!changes_performed(Mode::Check, false));
    assert!(changes_performed(Mode::Full, true));
    assert!(!changes_performed(Mode::Full, false));
    let plan = plan_repo(Mode::Check, true, true);
    assert!(!plan.create_layout_dirs);
    assert!(!plan.perform);
    assert_eq!(plan.steps, all_steps());
}

#[test]
fn partial_modes_run_their_steps() {
    assert_eq!(steps_for_mode(Mode::Transpile), vec![Step::ConvertScm]);
    assert_eq!(steps_for_mode(Mode::Organize), vec![Step::PlaceCoreFiles, Step::PlaceAnchors, Step::RemoveEmptyDirs]);
    assert_eq!(steps_for_mode(Mode::Documents), vec![Step::AddDocuments]);
}

#[test]
fn repository_without_machine_readable_is_skipped() {
    let plan = plan_repo(Mode::Full, false, true);
    assert!(!plan.create_layout_dirs);
    assert!(plan.steps.is_empty());
    let plan = plan_repo(Mode::Full, true, false);
    assert!(!plan.create_layout_dirs);
    assert_eq!(plan.steps.len(), 5);
    let plan = plan_repo(Mode::Full, true, true);
    assert!(plan.create_layout_dirs);
    assert!(plan.perform);
}

fn facts() -> DocumentFacts {
    DocumentFacts {
        readme_6a2: false,
        manifest_6a2: false,
        alt_manifest_6a2: false,
        readme_anchor: false,
        manifest_anchor: false,
        alt_manifest_anchor: false,
        anchor_dir_holds_anchor: false,
    }
}

#[test]
fn missing_documents_are_planned() {
    assert_eq!(
        plan_documents(facts(), true),
        vec![DocumentAction::Create(Document::Readme6a2), DocumentAction::Create(Document::Manifest6a2)]
    );
    let f = DocumentFacts { anchor_dir_holds_anchor: true, ..facts() };
    assert_eq!(
        plan_documents(f, false),
        vec![
            DocumentAction::ReportCreate(Document::Readme6a2),
            DocumentAction::ReportCreate(Document::Manifest6a2),
            DocumentAction::ReportCreate(Document::ReadmeAnchor),
            DocumentAction::ReportCreate(Document::ManifestAnchor)
        ]
    );
}

#[test]
fn anchor_documents_need_an_anchor_file() {
    // A lone README in 6a2/anchor/ is no anchor file: no manifest is added.
    let f = DocumentFacts { readme_6a2: true, manifest_6a2: true, readme_anchor: true, ..facts() };
    assert!(plan_documents(f, true).is_empty());
    assert!(anchor_dir_holds_anchor_after_step(false, 1));
    assert!(anchor_dir_holds_anchor_after_step(true, 0));
    assert!(!anchor_dir_holds_anchor_after_step(false, 0));
    assert!(!holds_anchor_file(&path(&["README.adoc", "0-AI-MANIFEST.a2ml"])));
    assert!(holds_anchor_file(&path(&["ANCHOR_v1.a2ml"])));
    assert!(holds_anchor_file(&path(&["README.adoc", "ANCHOR_2024_01_15_2.a2ml"])));
    assert!(!holds_anchor_file(&Vec::new()));
}

#[test]
fn alternative_manifest_name_counts() {
    let f = DocumentFacts {
        readme_6a2: true,
        alt_manifest_6a2: true,
        readme_anchor: true,
        alt_manifest_anchor: true,
        anchor_dir_holds_anchor: true,
        ..facts()
    };
    assert!(plan_documents(f, true).is_empty());
    assert!(!anchor_listing_needed(true, false, true));
    assert!(anchor_listing_needed(false, true, true));
}

#[test]
fn documents_planning_is_idempotent() {
    let f = DocumentFacts { anchor_dir_holds_anchor: true, manifest_6a2: true, ..facts() };
    assert_eq!(plan_documents(f, true).len(), 3);
    let after = DocumentFacts { readme_6a2: true, readme_anchor: true, manifest_anchor: true, ..f };
    assert!(plan_documents(after, true).is_empty());
}

#[test]
fn document_names_and_texts() {
    assert_eq!(document_file_name(Document::Readme6a2), "README.adoc");
    assert_eq!(document_file_name(Document::ManifestAnchor), "0-AI-MANIFEST.a2ml");
    assert!(document_text(Document::Readme6a2).starts_with("# A2ML 6a2 Directory\n"));
    assert!(document_text(Document::ReadmeAnchor).starts_with("# A2ML Anchor Directory\n"));
    assert!(document_text(Document::Manifest6a2).contains("6. STATE.a2ml\n"));
    assert!(document_text(Document::ManifestAnchor).ends_with("- Single source of truth for anchor documents\n"));
}

fn dir(parts: &[&str]) -> WalkEntry {
    WalkEntry { path: path(parts), is_dir: true }
}

fn file(parts: &[&str]) -> WalkEntry {
    WalkEntry { path: path(parts), is_dir: false }
}

#[test]
fn emptied_old_directories_are_removed_deepest_first() {
    let walk = vec![
        dir(&["m"]),
        dir(&["m", "6a2"]),
        dir(&["m", "6a2", "anchor"]),
        dir(&["m", "6a2", "old"]),
        file(&["m", "6a2", "old", "STATE.a2ml"]),
        dir(&["m", "6scm"]),
        dir(&["m", "6scm", "6a2"]),
        file(&["m", "6scm", "6a2", "STATE.scm"]),
        dir(&["m", "anchors"]),
        dir(&["m", "notes"]),
        dir(&["m", "kept"]),
        file(&["m", "kept", "todo.txt"]),
    ];
    let six = path(&["m", "6a2"]);
    let mr = path(&["m"]);
    // Earlier steps move the two core files away; notes/ was never touched.
    let vacated = vec![path(&["m", "6scm", "6a2", "STATE.scm"]), path(&["m", "6a2", "old", "STATE.a2ml"])];
    assert_eq!(
        plan_cleanup(&walk, &vacated, &mr, &six, true),
        vec![
            CleanupAction::RemoveDir(8),
            CleanupAction::RemoveDir(6),
            CleanupAction::RemoveDir(5),
            CleanupAction::RemoveDir(3),
        ]
    );
    assert_eq!(
        plan_cleanup(&walk, &vacated, &mr, &six, false),
        vec![
            CleanupAction::ReportRemoveDir(8),
            CleanupAction::ReportRemoveDir(6),
            CleanupAction::ReportRemoveDir(5),
            CleanupAction::ReportRemoveDir(3),
        ]
    );
    // Nothing vacated: only the empty anchors/ goes.
    assert_eq!(plan_cleanup(&walk, &Vec::new(), &mr, &six, true), vec![CleanupAction::RemoveDir(8)]);
}

#[test]
fn untouched_empty_directory_stays() {
    let walk = vec![dir(&["m"]), dir(&["m", "6a2"]), dir(&["m", "notes"])];
    assert!(plan_cleanup(&walk, &Vec::new(), &path(&["m"]), &path(&["m", "6a2"]), true).is_empty());
}

#[test]
fn cleanup_again_removes_nothing() {
    let after = vec![dir(&["m"]), dir(&["m", "6a2"]), dir(&["m", "notes"]), dir(&["m", "kept"]), file(&["m", "kept", "todo.txt"])];
    assert!(plan_cleanup(&after, &Vec::new(), &path(&["m"]), &path(&["m", "6a2"]), true).is_empty());
}

#[test]
fn repo_fixes_sum_steps() {
    assert_eq!(repo_fixes(&vec![1, 0, 2, 3]), Some(6));
    assert_eq!(repo_fixes(&vec![]), Some(0));
    assert_eq!(repo_fixes(&vec![usize::MAX, 1]), None);
}

#[test]
fn totals_count_every_repository_once() {
    let mut t = RunTotals::new();
    assert_eq!(t.outcome(), Ok(()));
    t.record_success(3);
    t.record_issue();
    t.record_success(2);
    assert_eq!((t.processed, t.succeeded, t.issues, t.fixes), (3, 2, 1, 5));
    assert_eq!(t.outcome(), Err(1));
}
