//! The setting that names the directory into which downloads are saved.

use vstd::prelude::*;

use crate::text::{blank, is_blank, owned};

verus! {

/// The text with which a blank directory is refused.
pub open spec fn empty_directory_text() -> Seq<char> {
    "download directory cannot be empty"@
}

/// The text that reports that no default directory could be found.
pub open spec fn no_default_text() -> Seq<char> {
    "failed to resolve default download directory"@
}

/// The directory in force: the stored one, or else the default that the
/// caller resolved; an error when there is neither.
pub fn get_download_directory(stored: Option<String>, default_directory: Option<String>) -> (r:
    Result<String, String>)
    ensures
        match stored {
            Some(path) => r == Ok::<String, String>(path),
            None => match default_directory {
                Some(path) => r == Ok::<String, String>(path),
                None => r is Err && r->Err_0@ == no_default_text(),
            },
        },
{
    match stored {
        Some(path) => Ok(path),
        None => match default_directory {
            Some(path) => Ok(path),
            None => Err(owned("failed to resolve default download directory")),
        },
    }
}

/// Accepts a new directory unless it is blank; the caller stores what is
/// accepted.
pub fn set_download_directory(path: String) -> (r: Result<String, String>)
    ensures
        if is_blank(path@) {
            r is Err && r->Err_0@ == empty_directory_text()
        } else {
            r == Ok::<String, String>(path)
        },
{
    if blank(path.as_str()) {
        return Err(owned("download directory cannot be empty"));
    }
    Ok(path)
}

} // verus!
