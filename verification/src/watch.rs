//! Which files are scripts, and which changes to them call for a reload.

use vstd::prelude::*;
use vstd::string::StrSliceExecFns;
use vstd::string::StringExecFns;

verus! {

/// The extension of a script file.
pub open spec fn script_extension() -> Seq<char> {
    seq!['t', 'x', 't']
}

/// What is put behind a directory to name every script file below it, at any
/// depth.
pub open spec fn pattern_suffix() -> Seq<char> {
    seq!['/', '*', '*', '/', '*', '.', 't', 'x', 't']
}

/// Whether a file with this extension is a script.
pub fn is_script_extension(extension: &str) -> (r: bool)
    ensures
        r == (extension@ == script_extension()),
{
    if !extension.is_ascii() {
        return false;
    }
    if extension.unicode_len() != 3 {
        return false;
    }
    let found = extension.get_ascii(0) == 116 && extension.get_ascii(1) == 120
        && extension.get_ascii(2) == 116;
    proof {
        if found {
            assert(extension@ =~= script_extension());
        }
    }
    found
}

/// The pattern that names every script file below a directory.
pub fn script_pattern(dir: &str) -> (pattern: String)
    ensures
        pattern@ == dir@ + pattern_suffix(),
{
    let mut pattern = dir.to_owned();
    proof {
        reveal_strlit("/**/*.txt");
        assert("/**/*.txt"@ =~= pattern_suffix());
    }
    pattern.append("/**/*.txt");
    pattern
}

/// What happened to files, as far as a reload depends on it.
#[derive(Clone, Copy, Debug, PartialEq, Eq)]
pub enum Change {
    /// A file or directory was created.
    Created,
    /// The content of a file was changed.
    DataModified,
    /// A file was renamed, and both its old and its new name are known.
    Renamed,
    /// A file or directory was removed.
    Removed,
    /// Anything else: a file was read, its metadata changed, and the like.
    Other,
}

/// Whether one of the extensions is that of a script.
pub open spec fn names_script(extensions: Seq<Option<Seq<char>>>) -> bool {
    exists|i: int| 0 <= i < extensions.len() && extensions[i] == Some(script_extension())
}

/// Whether a change calls for a reload: it concerns at least one script file,
/// told by the extensions of the paths it names, and it creates, rewrites,
/// renames or removes.
pub fn calls_for_reload(change: Change, extensions: &Vec<Option<String>>) -> (r: bool)
    ensures
        r == (change != Change::Other && names_script(extensions.deep_view())),
{
    if let Change::Other = change {
        return false;
    }
    let ghost all = extensions.deep_view();
    let mut i: usize = 0;
    while i < extensions.len()
        invariant
            i <= extensions.len(),
            change != Change::Other,
            all == extensions.deep_view(),
            forall|j: int| 0 <= j < i ==> all[j] != Some(script_extension()),
        decreases extensions.len() - i,
    {
        if let Some(extension) = &extensions[i] {
            if is_script_extension(extension.as_str()) {
                assert(all[i as int] == Some(script_extension()));
                return true;
            }
        }
        i += 1;
    }
    false
}

} // verus!
