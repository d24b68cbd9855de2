//! The anchor step: which anchor files are gathered into `6a2/anchor/`,
//! where each one goes, and what happens when its place is already taken.
//!
//! The step reads and changes the file system between decisions, so the
//! caller runs it: for each gathered file it asks `anchor_destination`,
//! checks whether that file exists, and asks `decide_anchor`. When two
//! different files compete for one place, `resolve_conflict` keeps the
//! incoming one under a dated name: the caller tries the names of
//! `dated_slot_name` in turn, asking `settle_in_slot` about each, until one
//! is free or holds the same content. No version is ever overwritten.

use vstd::prelude::*;
use crate::text::{decimal, decimal_text, lemma_decimal_injective, str_eq, views};
use crate::names::{anchor_names, canonical_anchor_file, canonical_anchor_name, is_anchor_file};

verus! {

#[verifier::external_type_specification]
#[verifier::external_body]
pub struct ExRegex(regex::Regex);

#[verifier::external_type_specification]
#[verifier::external_body]
pub struct ExRegexError(regex::Error);

/// Whether `regex::Regex::new` accepts `pattern`.
pub uninterp spec fn regex_compiles(pattern: Seq<char>) -> bool;

/// What `regex::Regex::is_match` answers for the regex compiled from
/// `pattern` on `haystack`: whether it matches anywhere in it.
pub uninterp spec fn regex_finds_match(pattern: Seq<char>, haystack: Seq<char>) -> bool;

/// A compiled regular expression together with its source pattern.
pub struct CompiledRegex {
    source: String,
    regex: regex::Regex,
}

impl View for CompiledRegex {
    type V = Seq<char>;

    closed spec fn view(&self) -> Seq<char> {
        self.source@
    }
}

/// Compiles `pattern` with `regex::Regex::new`, which fails exactly on the
/// patterns it does not accept.
#[verifier::external_body]
fn compile_regex(pattern: &str) -> (compiled: Result<CompiledRegex, regex::Error>)
    ensures
        compiled is Ok <==> regex_compiles(pattern@),
        compiled matches Ok(c) ==> c@ == pattern@,
{
    match regex::Regex::new(pattern) {
        Ok(regex) => Ok(CompiledRegex { source: pattern.to_string(), regex }),
        Err(e) => Err(e),
    }
}

/// Whether the compiled regex matches anywhere in `haystack`, by
/// `regex::Regex::is_match`.
#[verifier::external_body]
fn regex_is_match(compiled: &CompiledRegex, haystack: &str) -> (found: bool)
    ensures
        found == regex_finds_match(compiled@, haystack@),
{
    compiled.regex.is_match(haystack)
}

/// The pattern of a dated anchor file name.
pub open spec fn dated_anchor_pattern() -> Seq<char> {
    "ANCHOR_\\d{4}_\\d{2}_\\d{2}\\.a2ml"@
}

/// Whether a name holds a dated anchor name such as `ANCHOR_2024_05_01.a2ml`
/// (the pattern is not anchored, and `\d` is any Unicode decimal digit).
pub open spec fn is_dated(name: Seq<char>) -> bool {
    regex_finds_match(dated_anchor_pattern(), name)
}

/// A file name that marks an anchor file: an undated anchor name, or a
/// dated one.
pub open spec fn is_anchor_like(name: Seq<char>) -> bool {
    anchor_names().contains(name) || is_dated(name)
}

/// The dated-anchor pattern could not be compiled.
#[derive(Clone, Copy, PartialEq, Eq, Structural, Debug)]
pub enum AnchorPatternError {
    InvalidPattern,
}

/// The compiled pattern of dated anchor names.
pub struct DatedAnchorMatcher {
    compiled: CompiledRegex,
}

impl DatedAnchorMatcher {
    #[verifier::type_invariant]
    spec fn compiled_from_pattern(self) -> bool {
        self.compiled@ == dated_anchor_pattern()
    }

    /// Compiles the dated-anchor pattern.
    pub fn new() -> (m: Result<DatedAnchorMatcher, AnchorPatternError>)
        ensures
            m is Ok <==> regex_compiles(dated_anchor_pattern()),
    {
        match compile_regex("ANCHOR_\\d{4}_\\d{2}_\\d{2}\\.a2ml") {
            Ok(compiled) => Ok(DatedAnchorMatcher { compiled }),
            Err(_) => Err(AnchorPatternError::InvalidPattern),
        }
    }

    /// Whether a file name holds a dated anchor name.
    pub fn is_dated(&self, name: &str) -> (dated: bool)
        ensures
            dated == is_dated(name@),
    {
        proof {
            use_type_invariant(self);
        }
        regex_is_match(&self.compiled, name)
    }

    /// Whether a file name marks an anchor file, dated or not.
    pub fn is_anchor_like(&self, name: &str) -> (anchor: bool)
        ensures
            anchor == is_anchor_like(name@),
    {
        is_anchor_file(name) || self.is_dated(name)
    }
}

/// Where an anchor file was found.
#[derive(Clone, Copy, PartialEq, Eq, Structural, Debug)]
pub enum AnchorSource {
    /// `.machine_readable/anchors/`
    AnchorsDir,
    /// `.machine_readable/6a2/`
    SixA2Dir,
    /// `.machine_readable/` itself
    MachineReadableDir,
}

/// An anchor file to bring into `6a2/anchor/`, and whether its name is dated.
pub struct AnchorFile {
    pub source: AnchorSource,
    pub name: String,
    pub dated: bool,
}

/// Whether a name in a listing is gathered: any anchor name, or, where
/// `dated_only`, only a dated name that is not one of the undated ones.
pub open spec fn gathered_name(name: Seq<char>, dated_only: bool) -> bool {
    if dated_only { is_dated(name) && !anchor_names().contains(name) } else { is_anchor_like(name) }
}

/// The gathered names among the entries of a directory, in listing order.
pub open spec fn gathered_among(listing: Seq<Seq<char>>, dated_only: bool) -> Seq<Seq<char>> {
    listing.filter(|n: Seq<char>| gathered_name(n, dated_only))
}

/// The anchor file names among the entries of a directory, in listing order.
pub open spec fn anchors_among(listing: Seq<Seq<char>>) -> Seq<Seq<char>> {
    gathered_among(listing, false)
}

/// The anchor files gathered directly in `.machine_readable/`: `ANCHOR.a2ml`
/// and then `anchor.a2ml`, where they exist, then the dated ones in listing
/// order.
pub open spec fn root_anchors(upper_exists: bool, lower_exists: bool, listing: Seq<Seq<char>>) -> Seq<Seq<char>> {
    (if upper_exists { seq![anchor_names()[0]] } else { Seq::empty() }) + (if lower_exists {
        seq![anchor_names()[1]]
    } else {
        Seq::empty()
    }) + gathered_among(listing, true)
}

/// Whether the gathered files are, in order: the anchor files of
/// `anchors/`, then those of `6a2/`, then `root`, those directly in
/// `.machine_readable/`, each marked dated exactly when its name is.
pub open spec fn gathered_as(
    files: Seq<AnchorFile>,
    anchors_dir: Seq<Seq<char>>,
    six_a2_dir: Seq<Seq<char>>,
    root: Seq<Seq<char>>,
) -> bool {
    let a = anchors_among(anchors_dir);
    let b = anchors_among(six_a2_dir);
    let c = root;
    &&& files.len() == a.len() + b.len() + c.len()
    &&& forall|i: int| 0 <= i < files.len() ==> (#[trigger] files[i]).dated == is_dated(files[i].name@)
    &&& forall|i: int| 0 <= i < a.len() ==> (#[trigger] files[i]).source == AnchorSource::AnchorsDir
        && files[i].name@ == a[i]
    &&& forall|i: int| a.len() <= i < a.len() + b.len() ==> (#[trigger] files[i]).source
        == AnchorSource::SixA2Dir && files[i].name@ == b[i - a.len()]
    &&& forall|i: int| a.len() + b.len() <= i < files.len() ==> (#[trigger] files[i]).source
        == AnchorSource::MachineReadableDir && files[i].name@ == c[i - a.len() - b.len()]
}

/// Appends the anchor files of one directory listing.
fn gather_from(
    m: &DatedAnchorMatcher,
    files: &mut Vec<AnchorFile>,
    listing: &Vec<String>,
    source: AnchorSource,
    dated_only: bool,
)
    requires
        forall|i: int| 0 <= i < old(files)@.len() ==> (#[trigger] old(files)@[i]).dated == is_dated(
            old(files)@[i].name@,
        ),
    ensures
        final(files)@.len() == old(files)@.len() + gathered_among(views(listing@), dated_only).len(),
        forall|i: int| 0 <= i < old(files)@.len() ==> #[trigger] final(files)@[i] == old(files)@[i],
        forall|i: int| 0 <= i < final(files)@.len() ==> (#[trigger] final(files)@[i]).dated == is_dated(
            final(files)@[i].name@,
        ),
        forall|i: int| old(files)@.len() <= i < final(files)@.len() ==> (#[trigger] final(files)@[i]).source == source
            && final(files)@[i].name@ == gathered_among(views(listing@), dated_only)[i - old(files)@.len()],
{
    let ghost start = files@;
    let ghost pred = |n: Seq<char>| gathered_name(n, dated_only);
    let ghost lv = views(listing@);
    let mut i: usize = 0;
    assert(lv.take(0).filter(pred) =~= Seq::<Seq<char>>::empty()) by {
        reveal(Seq::filter);
    }
    while i < listing.len()
        invariant
            pred == (|n: Seq<char>| gathered_name(n, dated_only)),
            lv == views(listing@),
            i <= listing.len(),
            files@.len() == start.len() + lv.take(i as int).filter(pred).len(),
            forall|k: int| 0 <= k < start.len() ==> #[trigger] files@[k] == start[k],
            forall|k: int| 0 <= k < files@.len() ==> (#[trigger] files@[k]).dated == is_dated(files@[k].name@),
            forall|k: int| start.len() <= k < files@.len() ==> (#[trigger] files@[k]).source == source
                && files@[k].name@ == lv.take(i as int).filter(pred)[k - start.len()],
        decreases listing.len() - i,
    {
        assert(lv.take(i + 1).drop_last() =~= lv.take(i as int));
        assert(lv.take(i + 1).last() == listing@[i as int]@);
        let found = if dated_only {
            m.is_dated(listing[i].as_str()) && !is_anchor_file(listing[i].as_str())
        } else {
            m.is_anchor_like(listing[i].as_str())
        };
        assert(found == pred(lv.take(i + 1).last()));
        if found {
            let dated = m.is_dated(listing[i].as_str());
            files.push(AnchorFile { source, name: listing[i].clone(), dated });
            assert(lv.take(i + 1).filter(pred) == lv.take(i as int).filter(pred).push(listing@[i as int]@)) by {
                reveal(Seq::filter);
            }
        } else {
            assert(lv.take(i + 1).filter(pred) == lv.take(i as int).filter(pred)) by {
                reveal(Seq::filter);
            }
        }
        i = i + 1;
    }
    assert(lv.take(listing.len() as int) =~= lv);
}

/// The anchor files to bring into `6a2/anchor/`: those named like an anchor
/// file, dated or not, in `anchors/`, then in `6a2/`, each in listing
/// order; then, directly in `.machine_readable/`, `ANCHOR.a2ml` and
/// `anchor.a2ml` where `upper_exists` and `lower_exists` say they exist, and
/// the dated ones of its listing. A directory that does not exist has an
/// empty listing.
pub fn collect_anchor_files(
    m: &DatedAnchorMatcher,
    anchors_dir: &Vec<String>,
    six_a2_dir: &Vec<String>,
    upper_exists: bool,
    lower_exists: bool,
    machine_readable_dir: &Vec<String>,
) -> (files: Vec<AnchorFile>)
    ensures
        gathered_as(
            files@,
            views(anchors_dir@),
            views(six_a2_dir@),
            root_anchors(upper_exists, lower_exists, views(machine_readable_dir@)),
        ),
{
    let mut files: Vec<AnchorFile> = Vec::new();
    gather_from(m, &mut files, anchors_dir, AnchorSource::AnchorsDir, false);
    gather_from(m, &mut files, six_a2_dir, AnchorSource::SixA2Dir, false);
    let ghost after_b = files@;
    if upper_exists {
        let name = String::from_str("ANCHOR.a2ml");
        let dated = m.is_dated(name.as_str());
        files.push(AnchorFile { source: AnchorSource::MachineReadableDir, name, dated });
    }
    if lower_exists {
        let name = String::from_str("anchor.a2ml");
        let dated = m.is_dated(name.as_str());
        files.push(AnchorFile { source: AnchorSource::MachineReadableDir, name, dated });
    }
    let ghost after_undated = files@;
    gather_from(m, &mut files, machine_readable_dir, AnchorSource::MachineReadableDir, true);
    let ghost root = root_anchors(upper_exists, lower_exists, views(machine_readable_dir@));
    assert forall|i: int| after_b.len() <= i < files@.len() implies (#[trigger] files@[i]).source
        == AnchorSource::MachineReadableDir && files@[i].name@ == root[i - after_b.len()] by {
        if i >= after_undated.len() {
        } else {
            assert(files@[i] == after_undated[i]);
        }
    }
    files
}

/// The place in `6a2/anchor/` that an anchor file goes to: its own name
/// when it is dated, otherwise the canonical `ANCHOR.a2ml`.
pub open spec fn destination_name(name: Seq<char>, dated: bool) -> Seq<char> {
    if dated { name } else { canonical_anchor_name() }
}

/// The name an anchor file gets when it moves into a free place: the
/// lower-case `anchor.a2ml` takes the canonical name, any other keeps its own.
pub open spec fn moved_name(name: Seq<char>) -> Seq<char> {
    if name == "anchor.a2ml"@ { canonical_anchor_name() } else { name }
}

/// The place in `6a2/anchor/` that an anchor file goes to.
pub fn anchor_destination(name: &str, dated: bool) -> (dest: String)
    ensures
        dest@ == destination_name(name@, dated),
{
    if dated {
        String::from_str(name)
    } else {
        String::from_str(canonical_anchor_file())
    }
}

/// What to do with one anchor file.
#[derive(PartialEq, Eq, Debug)]
pub enum AnchorDecision {
    /// Dry run, its place is taken: only report it.
    ReportConflict,
    /// Dry run, its place is free: only report the move.
    ReportMove,
    /// Its place is taken: compare the two files (see `resolve_conflict`).
    CompareWithDestination,
    /// Its place is free: move it to `6a2/anchor/<target>`.
    MoveTo { target: String },
}

/// What to do with an anchor file named `name`, given whether its place in
/// `6a2/anchor/` is taken and whether changes are carried out.
pub fn decide_anchor(name: &str, destination_exists: bool, perform: bool) -> (decision: AnchorDecision)
    ensures
        destination_exists && !perform ==> decision == AnchorDecision::ReportConflict,
        !destination_exists && !perform ==> decision == AnchorDecision::ReportMove,
        destination_exists && perform ==> decision == AnchorDecision::CompareWithDestination,
        !destination_exists && perform ==> (decision matches AnchorDecision::MoveTo { target } && target@
            == moved_name(name@)),
{
    if destination_exists {
        if perform {
            AnchorDecision::CompareWithDestination
        } else {
            AnchorDecision::ReportConflict
        }
    } else if perform {
        if str_eq(name, "anchor.a2ml") {
            AnchorDecision::MoveTo { target: String::from_str(canonical_anchor_file()) }
        } else {
            AnchorDecision::MoveTo { target: String::from_str(name) }
        }
    } else {
        AnchorDecision::ReportMove
    }
}

/// How two anchor files competing for one place are reconciled.
#[derive(Clone, Copy, PartialEq, Eq, Structural, Debug)]
pub enum ConflictResolution {
    /// Same content: the incoming file is removed.
    RemoveDuplicate,
    /// Different content: the incoming file is kept under a dated name.
    KeepDated,
}

/// Reconciles an incoming anchor file with the one already in its place,
/// from their contents.
pub fn resolve_conflict(incoming: &str, existing: &str) -> (resolution: ConflictResolution)
    ensures
        resolution == if incoming@ == existing@ {
            ConflictResolution::RemoveDuplicate
        } else {
            ConflictResolution::KeepDated
        },
{
    if str_eq(incoming, existing) {
        ConflictResolution::RemoveDuplicate
    } else {
        ConflictResolution::KeepDated
    }
}

/// The dated names tried, in turn, for a differing anchor file whose date
/// suffix is `suffix`: `ANCHOR_<suffix>.a2ml`, then `ANCHOR_<suffix>_2.a2ml`,
/// `ANCHOR_<suffix>_3.a2ml`, and so on.
pub open spec fn dated_slot(suffix: Seq<char>, attempt: nat) -> Seq<char> {
    if attempt == 0 {
        "ANCHOR_"@ + suffix + ".a2ml"@
    } else {
        "ANCHOR_"@ + suffix + "_"@ + decimal(attempt + 1) + ".a2ml"@
    }
}

/// The dated name tried at `attempt` for a date suffix.
pub fn dated_slot_name(suffix: &str, attempt: usize) -> (name: String)
    requires
        attempt < usize::MAX,
    ensures
        name@ == dated_slot(suffix@, attempt as nat),
{
    let mut name = String::from_str("ANCHOR_");
    name.append(suffix);
    if attempt > 0 {
        name.append("_");
        let number = decimal_text(attempt + 1);
        name.append(number.as_str());
    }
    name.append(".a2ml");
    name
}

/// What to do with a differing anchor file at one dated name.
#[derive(Clone, Copy, PartialEq, Eq, Structural, Debug)]
pub enum SlotDecision {
    /// The name is free: move the file there.
    Take,
    /// A file with the same content already has the name: remove the
    /// incoming one.
    RemoveDuplicate,
    /// A different file has the name: try the next one.
    TryNext,
}

/// Decides about one dated name, given the content of the incoming file and
/// the content of the file at that name, if there is one.
pub fn settle_in_slot(incoming: &str, occupant: Option<&str>) -> (decision: SlotDecision)
    ensures
        decision == match occupant {
            None => SlotDecision::Take,
            Some(o) => if o@ == incoming@ { SlotDecision::RemoveDuplicate } else { SlotDecision::TryNext },
        },
{
    match occupant {
        None => SlotDecision::Take,
        Some(o) => {
            if str_eq(o, incoming) {
                SlotDecision::RemoveDuplicate
            } else {
                SlotDecision::TryNext
            }
        },
    }
}

/// Different attempts give different names, so the search for a dated name
/// never comes back to a name it has passed, and it ends, with a free name
/// or a file of the same content, after at most as many attempts as the
/// directory has entries: no version is overwritten.
pub proof fn lemma_dated_slots_distinct(suffix: Seq<char>, a: nat, b: nat)
    requires
        dated_slot(suffix, a) == dated_slot(suffix, b),
    ensures
        a == b,
{
    reveal_strlit("ANCHOR_");
    reveal_strlit(".a2ml");
    reveal_strlit("_");
    let prefix = "ANCHOR_"@ + suffix;
    let k = prefix.len() as int;
    if a == 0 && b != 0 {
        assert(dated_slot(suffix, a)[k] == '.');
        assert(dated_slot(suffix, b)[k] == '_');
    } else if a != 0 && b == 0 {
        assert(dated_slot(suffix, a)[k] == '_');
        assert(dated_slot(suffix, b)[k] == '.');
    } else if a != 0 && b != 0 {
        let da = decimal(a + 1);
        let db = decimal(b + 1);
        let sa = dated_slot(suffix, a);
        let sb = dated_slot(suffix, b);
        assert(sa.len() == k + 1 + da.len() + 5);
        assert(sb.len() == k + 1 + db.len() + 5);
        assert(sa.subrange(k + 1, k + 1 + da.len()) =~= da);
        assert(sb.subrange(k + 1, k + 1 + db.len()) =~= db);
        lemma_decimal_injective(a + 1, b + 1);
    }
}

/// An undated anchor file, under either of its names, always goes to the
/// canonical `ANCHOR.a2ml`: as its place, and as the name it moves to.
pub proof fn lemma_undated_anchors_become_canonical(name: Seq<char>)
    requires
        anchor_names().contains(name),
    ensures
        destination_name(name, false) == canonical_anchor_name(),
        moved_name(name) == canonical_anchor_name(),
{
    let i = choose|i: int| 0 <= i < anchor_names().len() && anchor_names()[i] == name;
    assert(i == 0 || i == 1);
}

/// A dated anchor file keeps its own name, both as its place and when it
/// moves.
pub proof fn lemma_dated_anchors_keep_their_name(name: Seq<char>)
    requires
        name != "anchor.a2ml"@,
    ensures
        destination_name(name, true) == name,
        moved_name(name) == name,
{
}

} // verus!
