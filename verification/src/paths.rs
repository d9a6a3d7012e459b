//! Layout of the application data directory and its subdirectories.
//!
//! Paths are strings here; the caller supplies the environment values it read
//! and the platform's main separator. The data directory is
//! `<Local AppData>\win-toolkit` when the Local AppData root is known, else
//! `<home>/.win-toolkit`. Joining follows `PathBuf::push` for a relative
//! name: a separator is added unless the base ends with one, where `/` counts
//! as a separator except in a verbatim (`\\?\`) path. A base made of a bare
//! drive prefix such as `C:` gets a separator here, so that the directory is
//! `C:\win-toolkit` as documented, where `PathBuf::push` adds none; and a
//! verbatim base is not rebuilt from its components as `PathBuf::push` does
//! (which matters only for one with repeated separators or `.`/`..` parts).
use vstd::prelude::*;

use crate::APP_SLUG;

verus! {

broadcast use vstd::string::group_string_axioms;

/// Whether `path` is a verbatim Windows path (it starts with `\\?\`).
pub open spec fn is_verbatim(path: Seq<char>) -> bool {
    path.len() >= 4 && path[0] == '\\' && path[1] == '\\' && path[2] == '?' && path[3] == '\\'
}

/// Whether `c` separates path components in a path that is `verbatim` or
/// not: the platform's main separator always, and `/` outside verbatim paths.
pub open spec fn is_separator(c: char, separator: char, verbatim: bool) -> bool {
    c == separator || (c == '/' && !verbatim)
}

/// `base` with the relative component `name` appended: a separator goes
/// between them unless `base` is empty or already ends with one.
pub open spec fn joined(base: Seq<char>, name: Seq<char>, separator: char) -> Seq<char> {
    if base.len() > 0 && !is_separator(base.last(), separator, is_verbatim(base)) {
        base + seq![separator] + name
    } else {
        base + name
    }
}

/// An environment value that is present and not empty.
pub open spec fn present(value: Option<Seq<char>>) -> bool {
    value matches Some(v) && v.len() > 0
}

/// The view of an optional string slice.
pub open spec fn opt_view(value: Option<&str>) -> Option<Seq<char>> {
    match value {
        Some(v) => Some(v@),
        None => None,
    }
}

/// The application's data directory, from the Local AppData root and the home
/// directory (each ignored when missing or empty).
pub open spec fn data_dir_of(
    local_app_data: Option<Seq<char>>,
    home: Option<Seq<char>>,
    separator: char,
) -> Option<Seq<char>> {
    if present(local_app_data) {
        Some(joined(local_app_data->0, APP_SLUG@, separator))
    } else if present(home) {
        Some(joined(home->0, seq!['.'] + APP_SLUG@, separator))
    } else {
        None
    }
}

/// A named subdirectory of the data directory.
pub open spec fn sub_dir_of(
    local_app_data: Option<Seq<char>>,
    home: Option<Seq<char>>,
    separator: char,
    name: Seq<char>,
) -> Option<Seq<char>> {
    match data_dir_of(local_app_data, home, separator) {
        Some(dir) => Some(joined(dir, name, separator)),
        None => None,
    }
}

/// Appends the relative component `name` to the path `base`.
pub fn join_path(base: &str, name: &str, separator: char) -> (path: String)
    ensures
        path@ == joined(base@, name@, separator),
{
    let chars = crate::text::chars_of(base);
    let verbatim = chars.len() >= 4 && chars[0] == '\\' && chars[1] == '\\' && chars[2] == '?'
        && chars[3] == '\\';
    let mut path = String::from_str(base);
    if chars.len() > 0 {
        let last = chars[chars.len() - 1];
        if !(last == separator || (last == '/' && !verbatim)) {
            path.push(separator);
        }
    }
    path.append(name);
    path
}

/// Whether an optional environment value is present and not empty.
fn is_present(value: Option<&str>) -> (b: bool)
    ensures
        b == present(opt_view(value)),
{
    match value {
        Some(v) => !v.is_empty(),
        None => false,
    }
}

/// The user's home directory: `USERPROFILE` when set and not empty, else
/// `HOME` when set and not empty.
pub fn home_dir(user_profile: Option<&str>, home: Option<&str>) -> (dir: Option<String>)
    ensures
        present(opt_view(user_profile)) ==> (dir matches Some(d) && d@ == user_profile->0@),
        !present(opt_view(user_profile)) && present(opt_view(home)) ==> (dir matches Some(d)
            && d@ == home->0@),
        !present(opt_view(user_profile)) && !present(opt_view(home)) ==> dir is None,
{
    if is_present(user_profile) {
        return Some(String::from_str(user_profile.unwrap()));
    }
    if is_present(home) {
        return Some(String::from_str(home.unwrap()));
    }
    None
}

/// The application's data directory: `<Local AppData>\win-toolkit` when the
/// Local AppData root is known, else `<home>/.win-toolkit`, else none.
pub fn app_data_dir(local_app_data: Option<&str>, home: Option<&str>, separator: char) -> (dir:
    Option<String>)
    ensures
        dir matches Some(d) ==> data_dir_of(opt_view(local_app_data), opt_view(home), separator)
            == Some(d@),
        dir is None ==> data_dir_of(opt_view(local_app_data), opt_view(home), separator) is None,
{
    if is_present(local_app_data) {
        return Some(join_path(local_app_data.unwrap(), APP_SLUG, separator));
    }
    if is_present(home) {
        let mut name = String::from_str(".");
        name.append(APP_SLUG);
        assert(name@ =~= seq!['.'] + APP_SLUG@) by {
            reveal_strlit(".");
        }
        return Some(join_path(home.unwrap(), name.as_str(), separator));
    }
    None
}

/// A named subdirectory of the data directory.
fn sub_dir(local_app_data: Option<&str>, home: Option<&str>, separator: char, name: &str) -> (dir:
    Option<String>)
    ensures
        dir matches Some(d) ==> sub_dir_of(opt_view(local_app_data), opt_view(home), separator, name@)
            == Some(d@),
        dir is None ==> sub_dir_of(opt_view(local_app_data), opt_view(home), separator, name@) is None,
{
    match app_data_dir(local_app_data, home, separator) {
        Some(dir) => Some(join_path(dir.as_str(), name, separator)),
        None => None,
    }
}

/// Directory the diagnostics log is written to: `logs` under the data
/// directory.
pub fn logs_dir(local_app_data: Option<&str>, home: Option<&str>, separator: char) -> (dir: Option<
    String,
>)
    ensures
        dir matches Some(d) ==> sub_dir_of(opt_view(local_app_data), opt_view(home), separator, "logs"@)
            == Some(d@),
        dir is None ==> sub_dir_of(opt_view(local_app_data), opt_view(home), separator, "logs"@) is None,
{
    sub_dir(local_app_data, home, separator, "logs")
}

/// Directory the captured output of elevated child processes is written to:
/// `runs` under the data directory.
pub fn runs_dir(local_app_data: Option<&str>, home: Option<&str>, separator: char) -> (dir: Option<
    String,
>)
    ensures
        dir matches Some(d) ==> sub_dir_of(opt_view(local_app_data), opt_view(home), separator, "runs"@)
            == Some(d@),
        dir is None ==> sub_dir_of(opt_view(local_app_data), opt_view(home), separator, "runs"@) is None,
{
    sub_dir(local_app_data, home, separator, "runs")
}

/// A subdirectory of the data directory (such as `logs` or `runs`) exists
/// exactly when the data directory does, and is the data directory joined with
/// its name.
pub proof fn lemma_subdirs_nest(
    local_app_data: Option<Seq<char>>,
    home: Option<Seq<char>>,
    separator: char,
    name: Seq<char>,
)
    ensures
        sub_dir_of(local_app_data, home, separator, name) is Some <==> data_dir_of(
            local_app_data,
            home,
            separator,
        ) is Some,
        data_dir_of(local_app_data, home, separator) matches Some(dir) ==> sub_dir_of(
            local_app_data,
            home,
            separator,
            name,
        ) == Some(joined(dir, name, separator)),
{
}

} // verus!
