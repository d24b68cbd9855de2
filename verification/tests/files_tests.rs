use a2ml_estate_normalizer::anchor::{
    anchor_destination, collect_anchor_files, dated_slot_name, decide_anchor, resolve_conflict, settle_in_slot,
    AnchorDecision, AnchorSource, ConflictResolution, DatedAnchorMatcher, SlotDecision,
};
use a2ml_estate_normalizer::clock::{file_date_suffix, render_date, timestamp_from_epoch_offset, DateStyle};
use a2ml_estate_normalizer::names::{
    core_a2ml_file, core_scm_file, is_anchor_file, is_core_scm_file, scm_target_name, CORE_FILE_COUNT,
};
use a2ml_estate_normalizer::relocate::{plan_core_file, plan_scm_files, CoreAction, CoreTask, ScmAction, ScmTask};
use a2ml_estate_normalizer::text::decimal_text;
use a2ml_estate_normalizer::transpile::{render_a2ml, transpile_scm_to_a2ml};

fn path(parts: &[&str]) -> Vec<String> {
    parts.iter().map(|s| s.to_string()).collect()
}

fn strings(parts: &[&str]) -> Vec<String> {
    path(parts)
}

#[test]
fn core_names_convert() {
    assert!(is_core_scm_file("STATE.scm"));
    assert!(is_core_scm_file("PLAYBOOK.scm"));
    assert!(!is_core_scm_file("state.scm"));
    assert!(!is_core_scm_file("ANCHOR.scm"));
    assert_eq!(scm_target_name("ECOSYSTEM.scm"), "ECOSYSTEM.a2ml");
    assert!(is_anchor_file("anchor.a2ml"));
    assert!(!is_anchor_file("ANCHOR_2024_01_01.a2ml"));
}

#[test]
fn every_core_scm_file_converts_to_its_a2ml_file() {
    for k in 0..CORE_FILE_COUNT {
        assert_eq!(scm_target_name(core_scm_file(k)), core_a2ml_file(k));
    }
}

#[test]
fn scm_plan_transpiles_once_then_removes_duplicates() {
    let six = path(&["/", "r", ".machine_readable", "6a2"]);
    let walk = vec![
        path(&["/", "r", ".machine_readable"]),
        path(&["/", "r", ".machine_readable", "STATE.scm"]),
        path(&["/", "r", ".machine_readable", "old", "STATE.scm"]),
        path(&["/", "r", ".machine_readable", "META.scm"]),
        path(&["/", "r", ".machine_readable", "6a2", "AGENTIC.scm"]),
        path(&["/", "r", ".machine_readable", "notes.scm"]),
    ];
    let present = strings(&["META.a2ml"]);
    assert_eq!(
        plan_scm_files(&walk, &six, &present, true),
        vec![
            ScmTask { entry: 1, action: ScmAction::Transpile },
            ScmTask { entry: 2, action: ScmAction::RemoveDuplicate },
            ScmTask { entry: 3, action: ScmAction::RemoveDuplicate },
        ]
    );
    // A dry run changes nothing, so both copies would be converted.
    assert_eq!(
        plan_scm_files(&walk, &six, &present, false),
        vec![
            ScmTask { entry: 1, action: ScmAction::ReportTranspile },
            ScmTask { entry: 2, action: ScmAction::ReportTranspile },
            ScmTask { entry: 3, action: ScmAction::ReportDuplicate },
        ]
    );
}

#[test]
fn scm_in_old_6a2_location_is_converted() {
    let six = path(&["m", "6a2"]);
    let walk = vec![
        path(&["m"]),
        path(&["m", "6a2"]),
        path(&["m", "6scm"]),
        path(&["m", "6scm", "6a2"]),
        path(&["m", "6scm", "6a2", "STATE.scm"]),
        path(&["m", "6a2", "META.scm"]),
    ];
    assert_eq!(
        plan_scm_files(&walk, &six, &Vec::new(), true),
        vec![ScmTask { entry: 4, action: ScmAction::Transpile }]
    );
}

#[test]
fn core_plan_moves_first_copy_only() {
    let six = path(&["/", "r", ".machine_readable", "6a2"]);
    let walk = vec![
        path(&["/", "r", ".machine_readable", "STATE.a2ml"]),
        path(&["/", "r", ".machine_readable", "6a2", "STATE.a2ml"]),
        path(&["/", "r", ".machine_readable", "6a2", "anchor", "STATE.a2ml"]),
        path(&["/", "r", ".machine_readable", "6scm", "6a2", "STATE.a2ml"]),
        path(&["/", "r", ".machine_readable", "6a2", "x", "y", "META.a2ml"]),
        path(&["/", "r", ".machine_readable", "PLAYBOOK.a2ml"]),
        path(&["/", "r", ".machine_readable", "6a2", "old", "STATE.a2ml"]),
    ];
    assert_eq!(
        plan_core_file(&walk, &six, 0, false, true),
        vec![
            CoreTask { file: 0, entry: 0, action: CoreAction::Move },
            CoreTask { file: 0, entry: 3, action: CoreAction::RemoveDuplicate },
            CoreTask { file: 0, entry: 6, action: CoreAction::RemoveDuplicate },
        ]
    );
    assert_eq!(
        plan_core_file(&walk, &six, 0, false, false),
        vec![
            CoreTask { file: 0, entry: 0, action: CoreAction::ReportMove },
            CoreTask { file: 0, entry: 3, action: CoreAction::ReportMove },
            CoreTask { file: 0, entry: 6, action: CoreAction::ReportMove },
        ]
    );
    assert_eq!(
        plan_core_file(&walk, &six, 1, false, true),
        vec![CoreTask { file: 1, entry: 4, action: CoreAction::Move }]
    );
    assert_eq!(
        plan_core_file(&walk, &six, 5, true, true),
        vec![CoreTask { file: 5, entry: 5, action: CoreAction::RemoveDuplicate }]
    );
    assert!(plan_core_file(&walk, &six, 2, false, true).is_empty());
}

#[test]
fn core_file_in_subdirectory_of_6a2_is_moved() {
    let six = path(&["m", "6a2"]);
    let walk = vec![path(&["m"]), path(&["m", "6a2"]), path(&["m", "6a2", "old"]), path(&["m", "6a2", "old", "STATE.a2ml"])];
    assert_eq!(
        plan_core_file(&walk, &six, 0, false, true),
        vec![CoreTask { file: 0, entry: 3, action: CoreAction::Move }]
    );
}

#[test]
fn a2ml_document_has_header_then_content() {
    let doc = render_a2ml("(state)\n", "STATE.a2ml", "2024-05-01T12:30:00Z", "2024");
    assert_eq!(
        doc,
        "# SPDX-License-Identifier: PMPL-1.0-or-later\n\
         # Copyright (c) 2024 Jonathan D.A. Jewell (hyperpolymath) <j.d.a.jewell@open.ac.uk>\n\
         #\n\
         # STATE.a2ml — Transpiled from .scm format\n\
         [metadata]\n\
         converted-from-scm = true\n\
         conversion-date = \"2024-05-01T12:30:00Z\"\n\
         \n\
         (state)\n"
    );
}

#[test]
fn transpiled_document_is_dated_with_the_given_instant() {
    let doc = transpile_scm_to_a2ml("(meta)", "META.a2ml", false, 1431648000, 0).unwrap();
    assert_eq!(doc, render_a2ml("(meta)", "META.a2ml", "2015-05-15T00:00:00Z", "2015"));
    let doc = transpile_scm_to_a2ml("(meta)", "META.a2ml", true, 1, 0).unwrap();
    assert!(doc.contains("conversion-date = \"1969-12-31T23:59:59Z\"\n"));
    assert!(doc.contains("# Copyright (c) 1969 "));
    assert_eq!(transpile_scm_to_a2ml("(meta)", "META.a2ml", false, u64::MAX, 0), None);
    assert_eq!(transpile_scm_to_a2ml("(meta)", "META.a2ml", false, i64::MAX as u64, 0), None);
}

#[test]
fn dates_render_in_each_style() {
    assert_eq!(render_date(0, 0, DateStyle::Timestamp), Some("1970-01-01T00:00:00Z".to_string()));
    assert_eq!(render_date(1431648000, 0, DateStyle::Year), Some("2015".to_string()));
    assert_eq!(render_date(1431648000, 5, DateStyle::AnchorSuffix), Some("2015_05_15".to_string()));
    assert_eq!(render_date(i64::MAX, 0, DateStyle::Year), None);
    assert_eq!(render_date(0, 2_000_000_000, DateStyle::Year), None);
}

#[test]
fn epoch_offsets_become_timestamps() {
    assert_eq!(timestamp_from_epoch_offset(false, 5, 7), Some((5, 7)));
    assert_eq!(timestamp_from_epoch_offset(true, 1, 0), Some((-1, 0)));
    assert_eq!(timestamp_from_epoch_offset(true, 1, 250_000_000), Some((-2, 750_000_000)));
    assert_eq!(timestamp_from_epoch_offset(false, u64::MAX, 0), None);
    assert_eq!(timestamp_from_epoch_offset(true, 1 << 63, 0), Some((i64::MIN, 0)));
}

#[test]
fn file_dates() {
    assert_eq!(file_date_suffix(false, 1431648000, 0), Some("2015_05_15".to_string()));
    assert_eq!(file_date_suffix(true, 1, 0), Some("1969_12_31".to_string()));
    assert_eq!(file_date_suffix(false, u64::MAX, 0), None);
    assert_eq!(file_date_suffix(false, i64::MAX as u64, 0), None);
}

#[test]
fn dated_slot_names_are_distinct() {
    assert_eq!(dated_slot_name("2024_01_31", 0), "ANCHOR_2024_01_31.a2ml");
    assert_eq!(dated_slot_name("2024_01_31", 1), "ANCHOR_2024_01_31_2.a2ml");
    assert_eq!(dated_slot_name("2024_01_31", 9), "ANCHOR_2024_01_31_10.a2ml");
    assert_eq!(decimal_text(0), "0");
    assert_eq!(decimal_text(1205), "1205");
    let names: std::collections::HashSet<String> = (0..50).map(|a| dated_slot_name("d", a)).collect();
    assert_eq!(names.len(), 50);
}

#[test]
fn dated_slots_never_overwrite() {
    assert_eq!(settle_in_slot("new", None), SlotDecision::Take);
    assert_eq!(settle_in_slot("new", Some("new")), SlotDecision::RemoveDuplicate);
    assert_eq!(settle_in_slot("new", Some("older")), SlotDecision::TryNext);
}

#[test]
fn dated_anchor_pattern() {
    let m = DatedAnchorMatcher::new().unwrap();
    assert!(m.is_dated("ANCHOR_2024_01_31.a2ml"));
    assert!(m.is_dated("old-ANCHOR_2024_01_31.a2ml.bak"));
    assert!(!m.is_dated("ANCHOR.a2ml"));
    assert!(!m.is_dated("anchor.a2ml"));
    assert!(!m.is_dated("ANCHOR_24_01_31.a2ml"));
    assert!(!m.is_dated("ANCHOR_2024_01_31xa2ml"));
    assert!(m.is_anchor_like("anchor.a2ml"));
    assert!(!m.is_anchor_like("README.adoc"));
}

#[test]
fn anchors_are_gathered_in_order() {
    let m = DatedAnchorMatcher::new().unwrap();
    let files = collect_anchor_files(
        &m,
        &strings(&["notes", "anchor.a2ml", "ANCHOR_2024_01_15.a2ml", "ANCHOR.a2ml"]),
        &strings(&["STATE.a2ml", "ANCHOR.a2ml", "anchor"]),
        true,
        true,
        &strings(&["6a2", "anchor.a2ml", "ANCHOR_2023_02_02.a2ml", "ANCHOR.a2ml", "STATE.scm"]),
    );
    let got: Vec<(AnchorSource, String, bool)> = files.into_iter().map(|f| (f.source, f.name, f.dated)).collect();
    assert_eq!(
        got,
        vec![
            (AnchorSource::AnchorsDir, "anchor.a2ml".to_string(), false),
            (AnchorSource::AnchorsDir, "ANCHOR_2024_01_15.a2ml".to_string(), true),
            (AnchorSource::AnchorsDir, "ANCHOR.a2ml".to_string(), false),
            (AnchorSource::SixA2Dir, "ANCHOR.a2ml".to_string(), false),
            (AnchorSource::MachineReadableDir, "ANCHOR.a2ml".to_string(), false),
            (AnchorSource::MachineReadableDir, "anchor.a2ml".to_string(), false),
            (AnchorSource::MachineReadableDir, "ANCHOR_2023_02_02.a2ml".to_string(), true),
        ]
    );
}

#[test]
fn anchor_destinations_and_decisions() {
    assert_eq!(anchor_destination("anchor.a2ml", false), "ANCHOR.a2ml");
    assert_eq!(anchor_destination("ANCHOR_2024_01_31.a2ml", true), "ANCHOR_2024_01_31.a2ml");
    assert_eq!(decide_anchor("anchor.a2ml", false, true), AnchorDecision::MoveTo { target: "ANCHOR.a2ml".to_string() });
    assert_eq!(decide_anchor("ANCHOR.a2ml", false, true), AnchorDecision::MoveTo { target: "ANCHOR.a2ml".to_string() });
    assert_eq!(
        decide_anchor("ANCHOR_2024_01_15.a2ml", false, true),
        AnchorDecision::MoveTo { target: "ANCHOR_2024_01_15.a2ml".to_string() }
    );
    assert_eq!(decide_anchor("ANCHOR.a2ml", true, true), AnchorDecision::CompareWithDestination);
    assert_eq!(decide_anchor("ANCHOR.a2ml", true, false), AnchorDecision::ReportConflict);
    assert_eq!(decide_anchor("ANCHOR.a2ml", false, false), AnchorDecision::ReportMove);
}

#[test]
fn anchor_conflicts_keep_different_content() {
    assert_eq!(resolve_conflict("same", "same"), ConflictResolution::RemoveDuplicate);
    assert_eq!(resolve_conflict("new", "old"), ConflictResolution::KeepDated);
}
