//! Browser history import: how rows read from Chromium and Firefox history
//! databases become index rows, and how the import is tallied. Reading the
//! databases (copies of them, read-only) is done by the application shell.

use vstd::prelude::*;
use crate::text::{chars_of, has_prefix, same_chars, starts_with};

verus! {

/// Per-source cap keeps the index lean and the import fast.
pub const MAX_ROWS_PER_SOURCE: usize = 4000;

/// Chrome/WebKit epoch (1601-01-01) to Unix epoch offset in seconds.
pub const CHROME_EPOCH_OFFSET: i64 = 11_644_473_600;

pub struct HistoryRow {
    pub url: String,
    pub title: Option<String>,
    pub visit_count: i64,
    /// Unix seconds.
    pub last_visited: Option<i64>,
}

#[derive(Debug, Default)]
pub struct ImportStats {
    pub sources_found: usize,
    pub rows_imported: usize,
}

/// What came of one history database.
pub enum SourceOutcome {
    /// The database could not be copied, opened or queried.
    Unreadable,
    /// The database was read and held no usable rows.
    Empty,
    /// The database's rows were merged; this many were written to the index.
    Merged(usize),
}

/// The text of an optional string.
pub open spec fn opt_view(s: Option<String>) -> Option<Seq<char>> {
    match s {
        Some(t) => Some(t@),
        None => None,
    }
}

/// A title is kept only when it is not empty.
pub open spec fn kept_title(title: Option<Seq<char>>) -> Option<Seq<char>> {
    match title {
        Some(t) => if t.len() > 0 {
            Some(t)
        } else {
            None
        },
        None => None,
    }
}

/// Unix seconds for a Chromium timestamp (microseconds since 1601-01-01),
/// kept only when positive.
pub open spec fn chromium_seconds(t: Option<i64>) -> Option<i64> {
    match t {
        Some(us) => if us >= 0 && us / 1_000_000 - CHROME_EPOCH_OFFSET > 0 {
            Some((us / 1_000_000 - CHROME_EPOCH_OFFSET) as i64)
        } else {
            None
        },
        None => None,
    }
}

/// Unix seconds for a Firefox timestamp (microseconds since the Unix epoch),
/// kept only when positive.
pub open spec fn firefox_seconds(t: Option<i64>) -> Option<i64> {
    match t {
        Some(us) => if us >= 0 && us / 1_000_000 > 0 {
            Some((us / 1_000_000) as i64)
        } else {
            None
        },
        None => None,
    }
}

fn keep_title(title: Option<String>) -> (r: Option<String>)
    ensures
        match r {
            Some(t) => kept_title(opt_view(title)) == Some(t@),
            None => kept_title(opt_view(title)) is None,
        },
{
    match title {
        Some(t) => if t.as_str().unicode_len() > 0 {
            Some(t)
        } else {
            None
        },
        None => None,
    }
}

/// The index row for one Chromium `urls` row. Chromium stores microseconds
/// since 1601-01-01; a negative or pre-1970 time becomes `None`.
pub fn chromium_history_row(
    url: String,
    title: Option<String>,
    visit_count: i64,
    last_visit_time: Option<i64>,
) -> (r: HistoryRow)
    ensures
        r.url == url,
        opt_view(r.title) == kept_title(opt_view(title)),
        r.visit_count == visit_count,
        r.last_visited == chromium_seconds(last_visit_time),
{
    let last_visited = match last_visit_time {
        Some(us) => if us >= 0 {
            let secs = (us as u64 / 1_000_000) as i64;
            if secs - CHROME_EPOCH_OFFSET > 0 {
                Some(secs - CHROME_EPOCH_OFFSET)
            } else {
                None
            }
        } else {
            None
        },
        None => None,
    };
    HistoryRow { url, title: keep_title(title), visit_count, last_visited }
}

/// The index row for one Firefox `moz_places` row. Firefox stores
/// microseconds since the Unix epoch.
pub fn firefox_history_row(
    url: String,
    title: Option<String>,
    visit_count: i64,
    last_visit_date: Option<i64>,
) -> (r: HistoryRow)
    ensures
        r.url == url,
        opt_view(r.title) == kept_title(opt_view(title)),
        r.visit_count == visit_count,
        r.last_visited == firefox_seconds(last_visit_date),
{
    let last_visited = match last_visit_date {
        Some(us) => if us >= 0 {
            let secs = (us as u64 / 1_000_000) as i64;
            if secs > 0 {
                Some(secs)
            } else {
                None
            }
        } else {
            None
        },
        None => None,
    };
    HistoryRow { url, title: keep_title(title), visit_count, last_visited }
}

/// Number of sources in `outcomes` that could be read.
pub open spec fn readable_count(outcomes: Seq<SourceOutcome>) -> nat
    decreases outcomes.len(),
{
    if outcomes.len() == 0 {
        0
    } else {
        readable_count(outcomes.drop_last()) + match outcomes.last() {
            SourceOutcome::Unreadable => 0nat,
            _ => 1nat,
        }
    }
}

/// Rows written to the index over all of `outcomes`.
pub open spec fn merged_total(outcomes: Seq<SourceOutcome>) -> nat
    decreases outcomes.len(),
{
    if outcomes.len() == 0 {
        0
    } else {
        merged_total(outcomes.drop_last()) + match outcomes.last() {
            SourceOutcome::Merged(n) => n as nat,
            _ => 0nat,
        }
    }
}

proof fn lemma_merged_total_prefix(outcomes: Seq<SourceOutcome>, i: int)
    requires
        0 <= i <= outcomes.len(),
    ensures
        merged_total(outcomes.take(i)) <= merged_total(outcomes),
    decreases outcomes.len() - i,
{
    if i < outcomes.len() {
        lemma_merged_total_prefix(outcomes, i + 1);
        assert(outcomes.take(i + 1).drop_last() =~= outcomes.take(i));
    } else {
        assert(outcomes.take(i) =~= outcomes);
    }
}

/// Tally an import over every history database found: a database counts as
/// found when it could be read (even when empty), and the rows it merged
/// are added up.
pub fn import_all(outcomes: &[SourceOutcome]) -> (r: ImportStats)
    requires
        merged_total(outcomes@) <= usize::MAX,
    ensures
        r.sources_found == readable_count(outcomes@),
        r.rows_imported == merged_total(outcomes@),
{
    let mut stats = ImportStats { sources_found: 0, rows_imported: 0 };
    let mut i: usize = 0;
    while i < outcomes.len()
        invariant
            i <= outcomes@.len(),
            merged_total(outcomes@) <= usize::MAX,
            stats.sources_found == readable_count(outcomes@.take(i as int)),
            stats.rows_imported == merged_total(outcomes@.take(i as int)),
            stats.sources_found <= i,
        decreases outcomes@.len() - i,
    {
        proof {
            assert(outcomes@.take(i + 1).drop_last() =~= outcomes@.take(i as int));
            lemma_merged_total_prefix(outcomes@, i + 1);
        }
        match &outcomes[i] {
            SourceOutcome::Unreadable => {},
            SourceOutcome::Empty => {
                stats.sources_found += 1;
            },
            SourceOutcome::Merged(n) => {
                stats.sources_found += 1;
                stats.rows_imported += *n;
            },
        }
        i += 1;
    }
    assert(outcomes@.take(outcomes@.len() as int) =~= outcomes@);
    stats
}

/// A Chromium user-data entry that holds a profile: `Default` or `Profile <n>`.
pub open spec fn chromium_profile_name(name: Seq<char>) -> bool {
    name == "Default"@ || starts_with(name, "Profile "@)
}

/// Whether the user-data entry `name` is a Chromium profile directory.
pub fn is_chromium_profile(name: &str) -> (r: bool)
    ensures
        r == chromium_profile_name(name@),
{
    let n = chars_of(name);
    let d = chars_of("Default");
    let p = chars_of("Profile ");
    same_chars(n.as_slice(), d.as_slice()) || has_prefix(n.as_slice(), p.as_slice())
}

/// Whether the package directory `name` belongs to the Arc browser.
pub fn is_arc_package(name: &str) -> (r: bool)
    ensures
        r == starts_with(name@, "TheBrowserCompany.Arc"@),
{
    let n = chars_of(name);
    let p = chars_of("TheBrowserCompany.Arc");
    has_prefix(n.as_slice(), p.as_slice())
}

} // verus!
