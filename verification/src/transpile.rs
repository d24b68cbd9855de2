//! The `.a2ml` form of a core `.scm` file: a licence and metadata header
//! followed by the `.scm` content, unchanged.

use vstd::prelude::*;
use crate::clock::{epoch_timestamp, pattern_of, render_date, timestamp_from_epoch_offset, utc_rendering, DateStyle};

verus! {

/// The licence line that opens the header.
pub open spec fn licence_line() -> Seq<char> {
    "# SPDX-License-Identifier: PMPL-1.0-or-later\n"@
}

/// The metadata header that precedes the converted content.
pub open spec fn a2ml_header(filename: Seq<char>, timestamp: Seq<char>, year: Seq<char>) -> Seq<char> {
    licence_line() + "# Copyright (c) "@ + year
        + " Jonathan D.A. Jewell (hyperpolymath) <j.d.a.jewell@open.ac.uk>\n"@ + "#\n"@ + "# "@
        + filename + " — Transpiled from .scm format\n"@ + "[metadata]\n"@
        + "converted-from-scm = true\n"@ + "conversion-date = \""@ + timestamp + "\"\n"@ + "\n"@
}

/// The `.a2ml` document for `content`, converted into the file `filename`
/// at `timestamp` in the year `year`.
pub open spec fn a2ml_document(
    content: Seq<char>,
    filename: Seq<char>,
    timestamp: Seq<char>,
    year: Seq<char>,
) -> Seq<char> {
    a2ml_header(filename, timestamp, year) + content
}

/// The `.a2ml` document for `content` with the given name, time and year.
pub fn render_a2ml(content: &str, filename: &str, timestamp: &str, year: &str) -> (doc: String)
    ensures
        doc@ == a2ml_document(content@, filename@, timestamp@, year@),
{
    let mut out = String::new();
    out.append("# SPDX-License-Identifier: PMPL-1.0-or-later\n");
    out.append("# Copyright (c) ");
    out.append(year);
    out.append(" Jonathan D.A. Jewell (hyperpolymath) <j.d.a.jewell@open.ac.uk>\n");
    out.append("#\n");
    out.append("# ");
    out.append(filename);
    out.append(" — Transpiled from .scm format\n");
    out.append("[metadata]\n");
    out.append("converted-from-scm = true\n");
    out.append("conversion-date = \"");
    out.append(timestamp);
    out.append("\"\n");
    out.append("\n");
    out.append(content);
    assert(out@ =~= a2ml_document(content@, filename@, timestamp@, year@));
    out
}

/// The document that converting `content` into the file `filename` gives
/// at the time that lies `secs` seconds and `nanos` nanoseconds before (or
/// after) the UNIX epoch: dated with that instant's timestamp and year, or
/// `None` when the instant cannot be placed on the calendar.
pub open spec fn converted_document(
    content: Seq<char>,
    filename: Seq<char>,
    before_epoch: bool,
    secs: u64,
    nanos: u32,
) -> Option<Seq<char>> {
    match epoch_timestamp(before_epoch, secs, nanos) {
        None => None,
        Some(stamp) => match (
            utc_rendering(stamp.0, stamp.1, pattern_of(DateStyle::Timestamp)),
            utc_rendering(stamp.0, stamp.1, pattern_of(DateStyle::Year)),
        ) {
            (Some(timestamp), Some(year)) => Some(a2ml_document(content, filename, timestamp, year)),
            _ => None,
        },
    }
}

/// Converts the content of a core `.scm` file into the `.a2ml` document
/// named `filename`, dated with the instant of the conversion, given as its
/// distance from the UNIX epoch; `None` when that instant cannot be placed
/// on the calendar.
pub fn transpile_scm_to_a2ml(
    scm_content: &str,
    filename: &str,
    before_epoch: bool,
    secs: u64,
    nanos: u32,
) -> (doc: Option<String>)
    requires
        nanos < 1_000_000_000,
    ensures
        match doc {
            Some(d) => converted_document(scm_content@, filename@, before_epoch, secs, nanos) == Some(d@),
            None => converted_document(scm_content@, filename@, before_epoch, secs, nanos) is None,
        },
{
    let stamp = match timestamp_from_epoch_offset(before_epoch, secs, nanos) {
        Some(stamp) => stamp,
        None => return None,
    };
    let timestamp = match render_date(stamp.0, stamp.1, DateStyle::Timestamp) {
        Some(t) => t,
        None => return None,
    };
    let year = match render_date(stamp.0, stamp.1, DateStyle::Year) {
        Some(y) => y,
        None => return None,
    };
    Some(render_a2ml(scm_content, filename, timestamp.as_str(), year.as_str()))
}

/// A converted document starts with the licence line and ends with the
/// `.scm` content, unchanged.
pub proof fn lemma_a2ml_document_shape(content: Seq<char>, filename: Seq<char>, timestamp: Seq<char>, year: Seq<char>)
    ensures
        a2ml_document(content, filename, timestamp, year).take(licence_line().len() as int) == licence_line(),
        a2ml_document(content, filename, timestamp, year).skip(
            a2ml_document(content, filename, timestamp, year).len() - content.len(),
        ) == content,
        a2ml_document(content, filename, timestamp, year).len() == a2ml_header(filename, timestamp, year).len()
            + content.len(),
{
    let doc = a2ml_document(content, filename, timestamp, year);
    let header = a2ml_header(filename, timestamp, year);
    assert(doc.skip(header.len() as int) =~= content);
    let rest = "# Copyright (c) "@ + year
        + " Jonathan D.A. Jewell (hyperpolymath) <j.d.a.jewell@open.ac.uk>\n"@ + "#\n"@ + "# "@
        + filename + " — Transpiled from .scm format\n"@ + "[metadata]\n"@
        + "converted-from-scm = true\n"@ + "conversion-date = \""@ + timestamp + "\"\n"@ + "\n"@;
    assert(header =~= licence_line() + rest);
    assert(doc =~= licence_line() + (rest + content));
    assert(doc.take(licence_line().len() as int) =~= licence_line());
}

} // verus!
