//! The README and AI manifest that each layout directory should hold.

use vstd::prelude::*;

verus! {

/// A generated document.
#[derive(Clone, Copy, PartialEq, Eq, Structural, Debug)]
pub enum Document {
    /// `6a2/README.adoc`
    Readme6a2,
    /// `6a2/0-AI-MANIFEST.a2ml`
    Manifest6a2,
    /// `6a2/anchor/README.adoc`
    ReadmeAnchor,
    /// `6a2/anchor/0-AI-MANIFEST.a2ml`
    ManifestAnchor,
}

/// The directory a document belongs in.
#[derive(Clone, Copy, PartialEq, Eq, Structural, Debug)]
pub enum DocumentDir {
    /// `.machine_readable/6a2/`
    SixA2,
    /// `.machine_readable/6a2/anchor/`
    Anchor,
}

/// What is known of the two directories when the documents step starts.
#[derive(Clone, Copy, PartialEq, Eq, Structural, Debug)]
pub struct DocumentFacts {
    /// `6a2/README.adoc` exists.
    pub readme_6a2: bool,
    /// `6a2/0-AI-MANIFEST.a2ml` exists.
    pub manifest_6a2: bool,
    /// `6a2/AI-MANIFEST.a2ml` exists.
    pub alt_manifest_6a2: bool,
    /// `6a2/anchor/README.adoc` exists.
    pub readme_anchor: bool,
    /// `6a2/anchor/0-AI-MANIFEST.a2ml` exists.
    pub manifest_anchor: bool,
    /// `6a2/anchor/AI-MANIFEST.a2ml` exists.
    pub alt_manifest_anchor: bool,
    /// `6a2/anchor/` holds an anchor file, any entry but its documents (see
    /// `holds_anchor_file`; after the anchor
    /// step, when it runs: see `anchor_dir_holds_anchor_after_step`); only
    /// consulted when an anchor document is missing (see
    /// `anchor_listing_needed`).
    pub anchor_dir_holds_anchor: bool,
}

/// A document to add when it is missing, as a list of zero or one.
pub open spec fn wanted(missing: bool, doc: Document) -> Seq<Document> {
    if missing { seq![doc] } else { Seq::empty() }
}

/// The documents to add, in order: the README and manifest of `6a2/` when
/// missing (a manifest under either name counts), then those of
/// `6a2/anchor/` when missing and the directory holds anything.
pub open spec fn documents_needed(f: DocumentFacts) -> Seq<Document> {
    wanted(!f.readme_6a2, Document::Readme6a2) + wanted(!f.manifest_6a2 && !f.alt_manifest_6a2, Document::Manifest6a2)
        + wanted(!f.readme_anchor && f.anchor_dir_holds_anchor, Document::ReadmeAnchor) + wanted(
        !f.manifest_anchor && !f.alt_manifest_anchor && f.anchor_dir_holds_anchor,
        Document::ManifestAnchor,
    )
}

/// What is known of the directories once the given documents are added.
pub open spec fn facts_after(f: DocumentFacts, added: Seq<Document>) -> DocumentFacts {
    DocumentFacts {
        readme_6a2: f.readme_6a2 || added.contains(Document::Readme6a2),
        manifest_6a2: f.manifest_6a2 || added.contains(Document::Manifest6a2),
        readme_anchor: f.readme_anchor || added.contains(Document::ReadmeAnchor),
        manifest_anchor: f.manifest_anchor || added.contains(Document::ManifestAnchor),
        anchor_dir_holds_anchor: f.anchor_dir_holds_anchor || added.contains(Document::ReadmeAnchor)
            || added.contains(Document::ManifestAnchor),
        ..f
    }
}

/// Whether the step needs to know if `6a2/anchor/` holds anything: only
/// when one of its documents is missing.
pub fn anchor_listing_needed(readme_anchor: bool, manifest_anchor: bool, alt_manifest_anchor: bool) -> (needed: bool)
    ensures
        needed == (!readme_anchor || (!manifest_anchor && !alt_manifest_anchor)),
{
    !readme_anchor || (!manifest_anchor && !alt_manifest_anchor)
}

/// What the documents step does with a missing document.
#[derive(Clone, Copy, PartialEq, Eq, Structural, Debug)]
pub enum DocumentAction {
    /// Write the document.
    Create(Document),
    /// Dry run: report that it would be written.
    ReportCreate(Document),
}

/// The action on a missing document.
pub open spec fn document_action(doc: Document, perform: bool) -> DocumentAction {
    if perform { DocumentAction::Create(doc) } else { DocumentAction::ReportCreate(doc) }
}

/// The actions of the documents step, one per missing document, in the order
/// of `documents_needed`; each counts one fix, whether it is carried out or
/// only reported.
pub fn plan_documents(f: DocumentFacts, perform: bool) -> (actions: Vec<DocumentAction>)
    ensures
        actions@ == documents_needed(f).map_values(|d: Document| document_action(d, perform)),
        actions@.contains(document_action(Document::Readme6a2, perform)) <==> !f.readme_6a2,
        actions@.contains(document_action(Document::Manifest6a2, perform)) <==> (!f.manifest_6a2
            && !f.alt_manifest_6a2),
        actions@.contains(document_action(Document::ReadmeAnchor, perform)) <==> (!f.readme_anchor
            && f.anchor_dir_holds_anchor),
        actions@.contains(document_action(Document::ManifestAnchor, perform)) <==> (!f.manifest_anchor
            && !f.alt_manifest_anchor && f.anchor_dir_holds_anchor),
{
    let mut actions: Vec<DocumentAction> = Vec::new();
    if !f.readme_6a2 {
        actions.push(if perform { DocumentAction::Create(Document::Readme6a2) } else { DocumentAction::ReportCreate(Document::Readme6a2) });
    }
    if !f.manifest_6a2 && !f.alt_manifest_6a2 {
        actions.push(if perform { DocumentAction::Create(Document::Manifest6a2) } else { DocumentAction::ReportCreate(Document::Manifest6a2) });
    }
    if !f.readme_anchor && f.anchor_dir_holds_anchor {
        actions.push(if perform { DocumentAction::Create(Document::ReadmeAnchor) } else { DocumentAction::ReportCreate(Document::ReadmeAnchor) });
    }
    if !f.manifest_anchor && !f.alt_manifest_anchor && f.anchor_dir_holds_anchor {
        actions.push(if perform { DocumentAction::Create(Document::ManifestAnchor) } else { DocumentAction::ReportCreate(Document::ManifestAnchor) });
    }
    let ghost needed = documents_needed(f);
    assert(actions@ =~= needed.map_values(|d: Document| document_action(d, perform)));
    proof {
        lemma_documents_needed_when_missing(f);
        assert forall|d: Document| actions@.contains(document_action(d, perform)) <==> needed.contains(d) by {
            if actions@.contains(document_action(d, perform)) {
                let k = choose|k: int| 0 <= k < actions@.len() && actions@[k] == document_action(d, perform);
                assert(needed[k] == d);
            }
            if needed.contains(d) {
                let k = choose|k: int| 0 <= k < needed.len() && needed[k] == d;
                assert(actions@[k] == document_action(d, perform));
            }
        }
    }
    actions
}

/// The names of the documents that `6a2/anchor/` may hold besides anchor
/// files.
pub open spec fn is_document_name(name: Seq<char>) -> bool {
    name == "README.adoc"@ || name == "0-AI-MANIFEST.a2ml"@ || name == "AI-MANIFEST.a2ml"@
}

/// Whether the listing of `6a2/anchor/` holds an anchor file: an entry other
/// than its documents.
pub fn holds_anchor_file(listing: &Vec<String>) -> (holds: bool)
    ensures
        holds == exists|i: int| 0 <= i < listing.len() && !is_document_name(#[trigger] listing@[i]@),
{
    let mut i: usize = 0;
    while i < listing.len()
        invariant
            i <= listing.len(),
            forall|k: int| 0 <= k < i ==> is_document_name(#[trigger] listing@[k]@),
        decreases listing.len() - i,
    {
        let n = listing[i].as_str();
        if !(crate::text::str_eq(n, "README.adoc") || crate::text::str_eq(n, "0-AI-MANIFEST.a2ml")
            || crate::text::str_eq(n, "AI-MANIFEST.a2ml")) {
            return true;
        }
        i = i + 1;
    }
    false
}

/// Whether `6a2/anchor/` holds an anchor file once the anchor step has run:
/// it did before, or the step gathered a file. Every gathered file ends up
/// there, or is a duplicate of a file that is there, so a dry run predicts
/// what an executed run finds.
pub fn anchor_dir_holds_anchor_after_step(held_before: bool, gathered: usize) -> (holds: bool)
    ensures
        holds == (held_before || gathered > 0),
{
    held_before || gathered > 0
}

/// The directory of a document.
pub fn document_dir(doc: Document) -> (dir: DocumentDir)
    ensures
        dir == (if doc == Document::Readme6a2 || doc == Document::Manifest6a2 {
            DocumentDir::SixA2
        } else {
            DocumentDir::Anchor
        }),
{
    match doc {
        Document::Readme6a2 | Document::Manifest6a2 => DocumentDir::SixA2,
        _ => DocumentDir::Anchor,
    }
}

/// The file name of a document.
pub fn document_file_name(doc: Document) -> (name: &'static str)
    ensures
        name@ == (if doc == Document::Readme6a2 || doc == Document::ReadmeAnchor {
            "README.adoc"@
        } else {
            "0-AI-MANIFEST.a2ml"@
        }),
{
    match doc {
        Document::Readme6a2 | Document::ReadmeAnchor => "README.adoc",
        _ => "0-AI-MANIFEST.a2ml",
    }
}

/// The README of `6a2/`.
pub const README_6A2: &'static str = r#"# A2ML 6a2 Directory

This directory contains the 6 core A2ML machine-readable metadata files for this repository.

## Files

- `AGENTIC.a2ml` - AI agent operational gating, safety controls
- `ECOSYSTEM.a2ml` - Project ecosystem position, relationships, explicit boundaries
- `META.a2ml` - Architecture decisions (ADRs), development practices, design rationale
- `NEUROSYM.a2ml` - Symbolic semantics, composition algebra
- `PLAYBOOK.a2ml` - Executable plans, operational runbooks
- `STATE.a2ml` - Project state, phase, milestones, session history

## Standards Compliance

These files follow the A2ML Format Family specification from:
https://github.com/hyperpolymath/standards/tree/main/a2ml

## Generation

These files may be generated from .scm source files using transpilation tools.
Source .scm files should be removed after successful transpilation.

## See Also

- [A2ML Repository Template](https://github.com/hyperpolymath/standards/blob/main/A2ML-REPO-TEMPLATE.adoc)
- [6A2 Format Family](https://github.com/hyperpolymath/standards#a2ml-format-family-7-formats)
"#;

/// The README of `6a2/anchor/`.
pub const README_ANCHOR: &'static str = r#"# A2ML Anchor Directory

This directory contains ANCHOR.a2ml files for project recalibration and scope intervention.

## Files

- `ANCHOR.a2ml` - Project recalibration, scope intervention, canonical authority

## Multiple Versions

Unlike other A2ML files, multiple versions of ANCHOR.a2ml with different dates may exist.
Each version represents a specific recalibration point in the project history.

## Standards Compliance

These files follow the ANCHOR.a2ml specification from:
https://github.com/hyperpolymath/standards/tree/main/anchor-a2ml

## See Also

- [A2ML Repository Template](https://github.com/hyperpolymath/standards/blob/main/A2ML-REPO-TEMPLATE.adoc)
- [Anchor A2ML Spec](https://github.com/hyperpolymath/standards/tree/main/anchor-a2ml)
"#;

/// The AI manifest of `6a2/`.
pub const AI_MANIFEST_6A2: &'static str = r#"# AI Manifest for 6a2 Directory

## Purpose

This manifest declares the AI-assistant context for the 6a2 machine-readable metadata directory.

## Canonical Locations

The 6 core A2ML files MUST exist in this directory:
1. AGENTIC.a2ml
2. ECOSYSTEM.a2ml
3. META.a2ml
4. NEUROSYM.a2ml
5. PLAYBOOK.a2ml
6. STATE.a2ml

## Invariants

- No duplicate files in root directory
- Single source of truth: this directory is authoritative
- No stale metadata

## Protocol

When multiple agents may write to A2ML files concurrently:
1. Read file and record git-sha-at-read in [provenance] section
2. Lock by creating .lock-<FILENAME>
3. Write updated file with new [provenance] metadata
4. Release by removing lock file
5. On conflict: re-read and retry if git-sha-at-read does not match HEAD
"#;

/// The AI manifest of `6a2/anchor/`.
pub const AI_MANIFEST_ANCHOR: &'static str = r#"# AI Manifest for Anchor Directory

## Purpose

This manifest declares the AI-assistant context for the anchor machine-readable metadata directory.

## Canonical Locations

ANCHOR.a2ml files MUST exist in this directory.

## Multiple Versions

Unlike other A2ML files, multiple versions of ANCHOR.a2ml with different dates MAY exist.
Each version represents a specific recalibration point.

## Invariants

- Multiple versions with different dates are permitted
- No other A2ML files in this directory
- Single source of truth for anchor documents
"#;

/// The text of each document.
pub open spec fn document_content(doc: Document) -> Seq<char> {
    match doc {
        Document::Readme6a2 => README_6A2@,
        Document::Manifest6a2 => AI_MANIFEST_6A2@,
        Document::ReadmeAnchor => README_ANCHOR@,
        Document::ManifestAnchor => AI_MANIFEST_ANCHOR@,
    }
}

/// The text of a document.
pub fn document_text(doc: Document) -> (text: &'static str)
    ensures
        text@ == document_content(doc),
{
    match doc {
        Document::Readme6a2 => README_6A2,
        Document::Manifest6a2 => AI_MANIFEST_6A2,
        Document::ReadmeAnchor => README_ANCHOR,
        Document::ManifestAnchor => AI_MANIFEST_ANCHOR,
    }
}

/// Once the planned documents are added, planning again adds nothing: the
/// step is idempotent.
pub proof fn lemma_documents_idempotent(f: DocumentFacts)
    ensures
        documents_needed(facts_after(f, documents_needed(f))) =~= Seq::<Document>::empty(),
{
    let added = documents_needed(f);
    let g = facts_after(f, added);
    if !f.readme_6a2 {
        assert(added[0] == Document::Readme6a2);
    }
    if !f.manifest_6a2 && !f.alt_manifest_6a2 {
        let i = if !f.readme_6a2 { 1int } else { 0int };
        assert(added[i] == Document::Manifest6a2);
    }
    if !f.readme_anchor && f.anchor_dir_holds_anchor {
        let i = wanted(!f.readme_6a2, Document::Readme6a2).len() + wanted(
            !f.manifest_6a2 && !f.alt_manifest_6a2,
            Document::Manifest6a2,
        ).len();
        assert(added[i as int] == Document::ReadmeAnchor);
    }
    if !f.manifest_anchor && !f.alt_manifest_anchor && f.anchor_dir_holds_anchor {
        assert(added[added.len() - 1] == Document::ManifestAnchor);
    }
}

/// Each document is planned exactly when it is missing, whatever the others:
/// the README of a directory when it has none, its manifest when it has one
/// under neither name; those of `6a2/anchor/` only when that directory holds
/// an anchor file. No document is planned twice.
pub proof fn lemma_documents_needed_when_missing(f: DocumentFacts)
    ensures
        documents_needed(f).contains(Document::Readme6a2) <==> !f.readme_6a2,
        documents_needed(f).contains(Document::Manifest6a2) <==> (!f.manifest_6a2 && !f.alt_manifest_6a2),
        documents_needed(f).contains(Document::ReadmeAnchor) <==> (!f.readme_anchor && f.anchor_dir_holds_anchor),
        documents_needed(f).contains(Document::ManifestAnchor) <==> (!f.manifest_anchor && !f.alt_manifest_anchor
            && f.anchor_dir_holds_anchor),
        forall|i: int, j: int|
            0 <= i < j < documents_needed(f).len() ==> #[trigger] documents_needed(f)[i] != #[trigger] documents_needed(
                f,
            )[j],
{
    let w1 = wanted(!f.readme_6a2, Document::Readme6a2);
    let w2 = wanted(!f.manifest_6a2 && !f.alt_manifest_6a2, Document::Manifest6a2);
    let w3 = wanted(!f.readme_anchor && f.anchor_dir_holds_anchor, Document::ReadmeAnchor);
    let w4 = wanted(!f.manifest_anchor && !f.alt_manifest_anchor && f.anchor_dir_holds_anchor, Document::ManifestAnchor);
    let all = documents_needed(f);
    assert(all == w1 + w2 + w3 + w4);
    let n1 = w1.len() as int;
    let n2 = n1 + w2.len();
    let n3 = n2 + w3.len();
    assert forall|k: int| 0 <= k < all.len() implies (#[trigger] all[k] == Document::Readme6a2 <==> k < n1)
        && (all[k] == Document::Manifest6a2 <==> n1 <= k < n2) && (all[k] == Document::ReadmeAnchor <==> n2 <= k
        < n3) && (all[k] == Document::ManifestAnchor <==> n3 <= k) by {
        if k < n1 {
            assert(all[k] == w1[k]);
        } else if k < n2 {
            assert(all[k] == w2[k - n1]);
        } else if k < n3 {
            assert(all[k] == w3[k - n2]);
        } else {
            assert(all[k] == w4[k - n3]);
        }
    }
    if !f.readme_6a2 {
        assert(all[0] == Document::Readme6a2);
    }
    if !f.manifest_6a2 && !f.alt_manifest_6a2 {
        assert(all[n1] == Document::Manifest6a2);
    }
    if !f.readme_anchor && f.anchor_dir_holds_anchor {
        assert(all[n2] == Document::ReadmeAnchor);
    }
    if !f.manifest_anchor && !f.alt_manifest_anchor && f.anchor_dir_holds_anchor {
        assert(all[n3] == Document::ManifestAnchor);
    }
}

/// A dry run reports the same documents, in the same order, as an executed
/// run creates.
pub proof fn lemma_documents_same_in_dry_run(f: DocumentFacts)
    ensures
        documents_needed(f).map_values(|d: Document| document_action(d, true)).len() == documents_needed(
            f,
        ).map_values(|d: Document| document_action(d, false)).len(),
        forall|i: int| #![trigger documents_needed(f)[i]]
            0 <= i < documents_needed(f).len() ==> documents_needed(f).map_values(
                |d: Document| document_action(d, true),
            )[i] == DocumentAction::Create(documents_needed(f)[i]) && documents_needed(f).map_values(
                |d: Document| document_action(d, false),
            )[i] == DocumentAction::ReportCreate(documents_needed(f)[i]),
{
}

} // verus!
