//! The names of the files that the normalizer manages.

use vstd::prelude::*;
use crate::text::{replace_all, replaced, str_eq};

verus! {

/// How many core files there are.
pub const CORE_FILE_COUNT: usize = 6;

/// The core files in their `.scm` form, in the order they are handled.
pub open spec fn core_scm_names() -> Seq<Seq<char>> {
    seq![
        "STATE.scm"@,
        "META.scm"@,
        "ECOSYSTEM.scm"@,
        "AGENTIC.scm"@,
        "NEUROSYM.scm"@,
        "PLAYBOOK.scm"@,
    ]
}

/// The core files in their `.a2ml` form, in the order they are handled.
pub open spec fn core_a2ml_names() -> Seq<Seq<char>> {
    seq![
        "STATE.a2ml"@,
        "META.a2ml"@,
        "ECOSYSTEM.a2ml"@,
        "AGENTIC.a2ml"@,
        "NEUROSYM.a2ml"@,
        "PLAYBOOK.a2ml"@,
    ]
}

/// The names under which an undated anchor file may be found.
pub open spec fn anchor_names() -> Seq<Seq<char>> {
    seq!["ANCHOR.a2ml"@, "anchor.a2ml"@]
}

/// The canonical name of the undated anchor file.
pub open spec fn canonical_anchor_name() -> Seq<char> {
    "ANCHOR.a2ml"@
}

/// The name of the `k`-th core file in its `.scm` form.
pub fn core_scm_file(k: usize) -> (name: &'static str)
    requires
        k < CORE_FILE_COUNT,
    ensures
        name@ == core_scm_names()[k as int],
{
    match k {
        0 => "STATE.scm",
        1 => "META.scm",
        2 => "ECOSYSTEM.scm",
        3 => "AGENTIC.scm",
        4 => "NEUROSYM.scm",
        _ => "PLAYBOOK.scm",
    }
}

/// The name of the `k`-th core file in its `.a2ml` form.
pub fn core_a2ml_file(k: usize) -> (name: &'static str)
    requires
        k < CORE_FILE_COUNT,
    ensures
        name@ == core_a2ml_names()[k as int],
{
    match k {
        0 => "STATE.a2ml",
        1 => "META.a2ml",
        2 => "ECOSYSTEM.a2ml",
        3 => "AGENTIC.a2ml",
        4 => "NEUROSYM.a2ml",
        _ => "PLAYBOOK.a2ml",
    }
}

/// The canonical name of the undated anchor file.
pub fn canonical_anchor_file() -> (name: &'static str)
    ensures
        name@ == canonical_anchor_name(),
{
    "ANCHOR.a2ml"
}

/// Whether `name` is one of the core `.scm` files.
pub fn is_core_scm_file(name: &str) -> (core: bool)
    ensures
        core == core_scm_names().contains(name@),
{
    let mut k: usize = 0;
    while k < CORE_FILE_COUNT
        invariant
            k <= CORE_FILE_COUNT,
            forall|j: int| 0 <= j < k ==> core_scm_names()[j] != name@,
        decreases CORE_FILE_COUNT - k,
    {
        if str_eq(name, core_scm_file(k)) {
            return true;
        }
        k = k + 1;
    }
    false
}

/// Whether `name` is one of the names of an undated anchor file.
pub fn is_anchor_file(name: &str) -> (anchor: bool)
    ensures
        anchor == anchor_names().contains(name@),
{
    if str_eq(name, "ANCHOR.a2ml") {
        return true;
    }
    if str_eq(name, "anchor.a2ml") {
        return true;
    }
    assert forall|j: int| 0 <= j < anchor_names().len() implies anchor_names()[j] != name@ by {}
    false
}

/// The name of the `.a2ml` file that a `.scm` file becomes: every `.scm`
/// in the name replaced by `.a2ml`.
pub fn scm_target_name(name: &str) -> (target: String)
    ensures
        target@ == replaced(name@, ".scm"@, ".a2ml"@),
{
    proof {
        reveal_strlit(".scm");
    }
    replace_all(name, ".scm", ".a2ml")
}

/// A name made of a base without dots and the `.scm` extension becomes the
/// same base with the `.a2ml` extension.
pub proof fn lemma_scm_extension_replaced(base: Seq<char>)
    requires
        !base.contains('.'),
    ensures
        replaced(base + ".scm"@, ".scm"@, ".a2ml"@) == base + ".a2ml"@,
    decreases base.len(),
{
    reveal_strlit(".scm");
    reveal_strlit(".a2ml");
    let s = base + ".scm"@;
    if base.len() == 0 {
        assert(s =~= ".scm"@);
        assert(s.take(4) =~= ".scm"@);
        assert(s.skip(4) =~= Seq::<char>::empty());
        assert(replaced(Seq::<char>::empty(), ".scm"@, ".a2ml"@) == Seq::<char>::empty());
        assert(replaced(s, ".scm"@, ".a2ml"@) == ".a2ml"@ + replaced(s.skip(4), ".scm"@, ".a2ml"@));
        assert(base + ".a2ml"@ =~= ".a2ml"@ + Seq::<char>::empty());
    } else {
        assert(s[0] == base[0]);
        assert(base[0] != '.');
        assert(s.take(4)[0] != ".scm"@[0]);
        assert(s.take(4) != ".scm"@);
        assert(replaced(s, ".scm"@, ".a2ml"@) == seq![s[0]] + replaced(s.skip(1), ".scm"@, ".a2ml"@));
        let rest = base.drop_first();
        assert(!rest.contains('.')) by {
            if rest.contains('.') {
                let i = choose|i: int| 0 <= i < rest.len() && rest[i] == '.';
                assert(base[i + 1] == '.');
            }
        }
        lemma_scm_extension_replaced(rest);
        assert(s.skip(1) =~= rest + ".scm"@);
        assert(base + ".a2ml"@ =~= seq![base[0]] + (rest + ".a2ml"@));
    }
}

/// Each core `.scm` file becomes the core `.a2ml` file of the same place
/// in the list: converting never invents a name outside the core set.
pub proof fn lemma_core_scm_targets(k: int)
    requires
        0 <= k < 6,
    ensures
        replaced(core_scm_names()[k], ".scm"@, ".a2ml"@) == core_a2ml_names()[k],
{
    reveal_strlit(".scm");
    reveal_strlit(".a2ml");
    let a2ml = core_a2ml_names()[k];
    let scm = core_scm_names()[k];
    if k == 0 {
        reveal_strlit("STATE.scm");
        reveal_strlit("STATE.a2ml");
    } else if k == 1 {
        reveal_strlit("META.scm");
        reveal_strlit("META.a2ml");
    } else if k == 2 {
        reveal_strlit("ECOSYSTEM.scm");
        reveal_strlit("ECOSYSTEM.a2ml");
    } else if k == 3 {
        reveal_strlit("AGENTIC.scm");
        reveal_strlit("AGENTIC.a2ml");
    } else if k == 4 {
        reveal_strlit("NEUROSYM.scm");
        reveal_strlit("NEUROSYM.a2ml");
    } else {
        reveal_strlit("PLAYBOOK.scm");
        reveal_strlit("PLAYBOOK.a2ml");
    }
    let base = a2ml.take(a2ml.len() - 5);
    assert(a2ml =~= base + ".a2ml"@);
    assert(scm =~= base + ".scm"@);
    assert(!base.contains('.')) by {
        if base.contains('.') {
            let i = choose|i: int| 0 <= i < base.len() && base[i] == '.';
            assert(a2ml[i] == '.');
        }
    }
    lemma_scm_extension_replaced(base);
}

} // verus!
