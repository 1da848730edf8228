//! The checks behind the application's commands: URL validation for the
//! user interface, which settings may be saved, and renaming a downloaded
//! file.

use vstd::prelude::*;
use crate::config::Config;
use crate::error::{AppError, ErrorKind};
use crate::output::{OutputFile, is_whitespace, is_ws, sanitized_title};
use crate::text::{chars_of, concat, eq_str};
use crate::validator::{invalid_url_with, url_fault};

verus! {

/// The size of a file.
#[derive(Debug, Clone)]
pub struct FileSizeResult {
    pub size: u64,
}

/// Where a renamed file now is, and the title it was given.
#[derive(Debug, Clone)]
pub struct RenameResult {
    pub new_path: String,
    pub new_title: String,
}

/// The greeting of the application.
pub fn greet(name: &str) -> (s: String)
    ensures
        s@ == "Hello, "@ + name@ + "! AnyflipDL is running."@,
{
    let mut s = concat("Hello, ", name);
    s.append("! AnyflipDL is running.");
    s
}

/// Validation for the user interface: an empty URL is an error, any other
/// URL gives whether it is an acceptable Anyflip URL.
pub fn validate_url(url: &str) -> (r: Result<bool, AppError>)
    ensures
        url@.len() == 0 ==> (r matches Err(e) && invalid_url_with(e, "URL cannot be empty"@)),
        url@.len() > 0 ==> r == Ok::<bool, AppError>(url_fault(url@) is None),
{
    if url.is_empty() {
        return Err(AppError::InvalidUrl("URL cannot be empty".to_string()));
    }
    match crate::validator::validate_url(url) {
        Ok(()) => Ok(true),
        Err(_) => Ok(false),
    }
}

/// Why settings are refused (`None` if they may be saved): the save location
/// must not be empty, the format must be `pdf` or `epub`, the theme `light`
/// or `dark`.
pub open spec fn settings_fault(c: Config) -> Option<(ErrorKind, Seq<char>)> {
    if c.save_location@.len() == 0 {
        Some((ErrorKind::InvalidUrl, "Save location cannot be empty"@))
    } else if c.default_format@ != "pdf"@ && c.default_format@ != "epub"@ {
        Some(
            (
                ErrorKind::SettingsError,
                "Invalid format '"@ + c.default_format@ + "': must be 'pdf' or 'epub'"@,
            ),
        )
    } else if c.theme@ != "light"@ && c.theme@ != "dark"@ {
        Some(
            (
                ErrorKind::SettingsError,
                "Invalid theme '"@ + c.theme@ + "': must be 'light' or 'dark'"@,
            ),
        )
    } else {
        None
    }
}

/// Checks settings before they are saved.
pub fn check_settings(settings: &Config) -> (r: Result<(), AppError>)
    ensures
        match settings_fault(*settings) {
            None => r is Ok,
            Some((k, msg)) => r matches Err(e) && e.is(k, msg),
        },
{
    if settings.save_location.as_str().is_empty() {
        return Err(AppError::InvalidUrl("Save location cannot be empty".to_string()));
    }
    let f = chars_of(settings.default_format.as_str());
    if !eq_str(&f, "pdf") && !eq_str(&f, "epub") {
        let mut m = concat("Invalid format '", settings.default_format.as_str());
        m.append("': must be 'pdf' or 'epub'");
        return Err(AppError::SettingsError(m));
    }
    let t = chars_of(settings.theme.as_str());
    if !eq_str(&t, "light") && !eq_str(&t, "dark") {
        let mut m = concat("Invalid theme '", settings.theme.as_str());
        m.append("': must be 'light' or 'dark'");
        return Err(AppError::SettingsError(m));
    }
    Ok(())
}

/// A file path given to a file command must not be empty.
pub fn require_file_path(path: &str) -> (r: Result<(), AppError>)
    ensures
        path@.len() == 0 ==> (r matches Err(e) && e.is(
            ErrorKind::FileSystemError,
            "File path cannot be empty"@,
        )),
        path@.len() > 0 ==> r is Ok,
{
    if path.is_empty() {
        return Err(AppError::FileSystemError("File path cannot be empty".to_string()));
    }
    Ok(())
}

/// Checks a path given to open a file: an empty path is refused as an
/// invalid URL, a missing file as not found.
pub fn check_open_path(path: &str, exists: bool) -> (r: Result<(), AppError>)
    ensures
        path@.len() == 0 ==> (r matches Err(e) && e.is(
            ErrorKind::InvalidUrl,
            "File path cannot be empty"@,
        )),
        path@.len() > 0 && !exists ==> (r matches Err(e) && e.is(
            ErrorKind::FileSystemError,
            "File not found: "@ + path@,
        )),
        path@.len() > 0 && exists ==> r is Ok,
{
    if path.is_empty() {
        return Err(AppError::InvalidUrl("File path cannot be empty".to_string()));
    }
    if !exists {
        return Err(file_not_found(path));
    }
    Ok(())
}

/// The error for a file that is not there.
pub fn file_not_found(path: &str) -> (e: AppError)
    ensures
        e.is(ErrorKind::FileSystemError, "File not found: "@ + path@),
{
    AppError::FileSystemError(concat("File not found: ", path))
}

/// The new name of a renamed file and the title it was given.
#[derive(Debug, Clone)]
pub struct RenamePlan {
    pub new_filename: String,
    pub new_title: String,
}

pub open spec fn all_whitespace(s: Seq<char>) -> bool {
    forall|i: int| 0 <= i < s.len() ==> is_ws(#[trigger] s[i])
}

/// The new file name for a rename: the sanitized title, a dot, and the old
/// extension (`pdf` when there was none). A title that sanitizes to
/// `untitled` and is blank is refused.
pub fn rename_plan(new_title: &str, extension: Option<&str>) -> (r: Result<RenamePlan, AppError>)
    ensures
        sanitized_title(new_title@) == "untitled"@ && all_whitespace(new_title@) ==> (r matches Err(
            e,
        ) && e.is(ErrorKind::FileSystemError, "Title cannot be empty"@)),
        !(sanitized_title(new_title@) == "untitled"@ && all_whitespace(new_title@)) ==> (r matches Ok(
            p,
        ) && p.new_title@ == sanitized_title(new_title@) && p.new_filename@ == sanitized_title(
            new_title@,
        ) + "."@ + match extension {
            Some(x) => x@,
            None => "pdf"@,
        }),
{
    let sanitized = OutputFile::sanitize_filename(new_title);
    let cs = chars_of(new_title);
    let mut blank = true;
    let mut i: usize = 0;
    while i < cs.len()
        invariant
            i <= cs.len(),
            cs@ == new_title@,
            blank == (forall|j: int| 0 <= j < i ==> is_ws(#[trigger] cs@[j])),
        decreases cs.len() - i,
    {
        if !is_whitespace(cs[i]) {
            blank = false;
        }
        i += 1;
    }
    if eq_str(&chars_of(sanitized.as_str()), "untitled") && blank {
        return Err(AppError::FileSystemError("Title cannot be empty".to_string()));
    }
    let ext: &str = match extension {
        Some(x) => x,
        None => "pdf",
    };
    let mut new_filename = concat(sanitized.as_str(), ".");
    new_filename.append(ext);
    Ok(RenamePlan { new_filename, new_title: sanitized })
}

/// Whether to rename, given whether a file already exists at the target and
/// whether the target is the file itself: another file there is an error;
/// the same path needs no rename.
pub fn rename_needed(target_exists: bool, same_path: bool, new_filename: &str) -> (r: Result<
    bool,
    AppError,
>)
    ensures
        target_exists && !same_path ==> (r matches Err(e) && e.is(
            ErrorKind::FileSystemError,
            "A file named '"@ + new_filename@ + "' already exists"@,
        )),
        !(target_exists && !same_path) ==> r == Ok::<bool, AppError>(!same_path),
{
    if target_exists && !same_path {
        let mut m = concat("A file named '", new_filename);
        m.append("' already exists");
        return Err(AppError::FileSystemError(m));
    }
    Ok(!same_path)
}

} // verus!
