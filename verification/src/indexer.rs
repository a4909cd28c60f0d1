//! Rules of the background file & application indexer: which directories a
//! scan skips, which files are application shortcuts, and the records the
//! scanners store. Walking the disk and watching it is done by the
//! application shell.

use vstd::prelude::*;
use crate::index::local::{NewApp, NewFile};
use crate::text::{chars_of, eq_ignore_ascii_case, eq_ignore_ascii_case_spec, lowercase, to_lowercase};

verus! {

/// Full rescan cadence, in seconds; the watcher handles everything in between.
pub const RESCAN_INTERVAL_SECS: i64 = 3600;
/// Recursion cap so a symlink loop or pathological tree can't hang a scan.
pub const MAX_DEPTH: usize = 14;
/// Recursion cap for the Start Menu walk.
pub const START_MENU_DEPTH: usize = 8;

/// Directories that are typically huge, irrelevant, or slow to walk.
pub open spec fn skip_dir_names() -> Seq<Seq<char>> {
    seq![
        "node_modules"@,
        ".git"@,
        "target"@,
        "dist"@,
        "build"@,
        "__pycache__"@,
        ".venv"@,
        "venv"@,
        "$RECYCLE.BIN"@,
        "System Volume Information"@,
        ".cache"@,
        "AppData"@,
    ]
}

/// A directory named `name` is left out of scans: it equals one of the
/// skipped names, ignoring ASCII case.
pub open spec fn skipped_dir(name: Seq<char>) -> bool {
    exists|i: int| 0 <= i < skip_dir_names().len() && eq_ignore_ascii_case_spec(skip_dir_names()[i], name)
}

/// The directories a scan leaves out are exactly those named, ignoring
/// ASCII case, `node_modules`, `.git`, `target`, `dist`, `build`,
/// `__pycache__`, `.venv`, `venv`, `$RECYCLE.BIN`,
/// `System Volume Information`, `.cache` or `AppData`.
pub proof fn lemma_skipped_dirs_are_the_heavy_ones(name: Seq<char>)
    ensures
        skipped_dir(name) <==> {
            ||| eq_ignore_ascii_case_spec("node_modules"@, name)
            ||| eq_ignore_ascii_case_spec(".git"@, name)
            ||| eq_ignore_ascii_case_spec("target"@, name)
            ||| eq_ignore_ascii_case_spec("dist"@, name)
            ||| eq_ignore_ascii_case_spec("build"@, name)
            ||| eq_ignore_ascii_case_spec("__pycache__"@, name)
            ||| eq_ignore_ascii_case_spec(".venv"@, name)
            ||| eq_ignore_ascii_case_spec("venv"@, name)
            ||| eq_ignore_ascii_case_spec("$RECYCLE.BIN"@, name)
            ||| eq_ignore_ascii_case_spec("System Volume Information"@, name)
            ||| eq_ignore_ascii_case_spec(".cache"@, name)
            ||| eq_ignore_ascii_case_spec("AppData"@, name)
        },
{
    let names = skip_dir_names();
    assert(names.len() == 12);
    assert(names[0] == "node_modules"@);
    assert(names[1] == ".git"@);
    assert(names[2] == "target"@);
    assert(names[3] == "dist"@);
    assert(names[4] == "build"@);
    assert(names[5] == "__pycache__"@);
    assert(names[6] == ".venv"@);
    assert(names[7] == "venv"@);
    assert(names[8] == "$RECYCLE.BIN"@);
    assert(names[9] == "System Volume Information"@);
    assert(names[10] == ".cache"@);
    assert(names[11] == "AppData"@);
    if skipped_dir(name) {
        let i = choose|i: int| 0 <= i < names.len() && eq_ignore_ascii_case_spec(names[i], name);
        assert(0 <= i < 12);
    }
}

/// Whether a scan leaves out a directory named `name`.
pub fn is_skipped_dir(name: &str) -> (r: bool)
    ensures
        r == skipped_dir(name@),
{
    let names: [&str; 12] = [
        "node_modules",
        ".git",
        "target",
        "dist",
        "build",
        "__pycache__",
        ".venv",
        "venv",
        "$RECYCLE.BIN",
        "System Volume Information",
        ".cache",
        "AppData",
    ];
    let n = chars_of(name);
    let mut i: usize = 0;
    while i < 12
        invariant
            i <= 12,
            n@ == name@,
            forall|j: int| 0 <= j < 12 ==> (#[trigger] names@[j])@ == skip_dir_names()[j],
            forall|j: int| 0 <= j < i ==> !eq_ignore_ascii_case_spec(#[trigger] skip_dir_names()[j], n@),
        decreases 12 - i,
    {
        let s = chars_of(names[i]);
        if eq_ignore_ascii_case(s.as_slice(), n.as_slice()) {
            return true;
        }
        i += 1;
    }
    false
}

/// A file is an application shortcut when its extension is `lnk`, ignoring
/// ASCII case.
pub open spec fn shortcut_extension(ext: Option<Seq<char>>) -> bool {
    match ext {
        Some(e) => eq_ignore_ascii_case_spec(e, "lnk"@),
        None => false,
    }
}

/// The app record for a file found in a Start Menu folder: a `.lnk`
/// shortcut becomes an app named after its file stem, launched through the
/// shortcut itself; any other file gives nothing.
pub fn shortcut_app(stem: String, path: String, extension: Option<&str>) -> (r: Option<NewApp>)
    ensures
        r is Some == shortcut_extension(match extension {
            Some(e) => Some(e@),
            None => None,
        }),
        r matches Some(a) ==> a.name == stem && a.path == path && a.icon is None,
{
    let is_lnk = match extension {
        Some(e) => {
            let lnk = chars_of("lnk");
            eq_ignore_ascii_case(chars_of(e).as_slice(), lnk.as_slice())
        },
        None => false,
    };
    if is_lnk {
        Some(NewApp { name: stem, path, icon: None })
    } else {
        None
    }
}

/// The file record for one file the scan met: its extension lower-cased,
/// its size as a signed count (`as i64`, which wraps past `i64::MAX`), and
/// a missing creation or modification time stored as 0.
pub fn file_record(
    name: String,
    full_path: String,
    extension: Option<&str>,
    size: u64,
    created: Option<i64>,
    modified: Option<i64>,
) -> (r: NewFile)
    ensures
        r.name == name,
        r.full_path == full_path,
        match extension {
            Some(e) => r.extension matches Some(x) && x@ == lowercase(e@),
            None => r.extension is None,
        },
        r.size == size as i64,
        r.created_date == match created {
            Some(t) => t,
            None => 0,
        },
        r.modified_date == match modified {
            Some(t) => t,
            None => 0,
        },
{
    let extension = match extension {
        Some(e) => Some(to_lowercase(e)),
        None => None,
    };
    NewFile {
        name,
        full_path,
        extension,
        size: size as i64,
        created_date: match created {
            Some(t) => t,
            None => 0,
        },
        modified_date: match modified {
            Some(t) => t,
            None => 0,
        },
    }
}

} // verus!
