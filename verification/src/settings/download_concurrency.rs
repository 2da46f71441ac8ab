//! The setting that bounds the number of simultaneous downloads.

use vstd::prelude::*;
use vstd::string::StringExecFns;

use crate::text::{owned, parsed_number};

verus! {

/// Smallest number of simultaneous downloads that can be configured.
pub const MIN_DOWNLOAD_CONCURRENCY: usize = 1;

/// Largest number of simultaneous downloads that can be configured.
pub const MAX_DOWNLOAD_CONCURRENCY: usize = 8;

/// Number of simultaneous downloads when nothing is configured.
pub const DEFAULT_DOWNLOAD_CONCURRENCY: usize = 4;

/// `n` brought into the configurable range.
pub open spec fn clamped(n: nat) -> nat {
    if n < MIN_DOWNLOAD_CONCURRENCY {
        MIN_DOWNLOAD_CONCURRENCY as nat
    } else if n > MAX_DOWNLOAD_CONCURRENCY {
        MAX_DOWNLOAD_CONCURRENCY as nat
    } else {
        n
    }
}

/// The text with which a value outside the range is refused.
pub open spec fn out_of_range_text() -> Seq<char> {
    "download concurrency must be between 1 and 8"@
}

/// The beginning of the text with which a stored value that is no number
/// is reported.
pub open spec fn invalid_value_prefix() -> Seq<char> {
    "invalid download concurrency value: "@
}

/// Calls `str::parse::<usize>` and renders the error: the number that the
/// string denotes, or the reason why it denotes none that a `usize` can
/// hold.
#[verifier::external_body]
fn parse_count(raw: &str) -> (r: Result<usize, String>)
    ensures
        match parsed_number(raw@, usize::MAX as nat) {
            Some(n) => r == Ok::<usize, String>(n as usize),
            None => r is Err,
        },
{
    raw.parse::<usize>().map_err(|e| e.to_string())
}

/// Reads a stored limit: the number that the text denotes, brought into
/// the configurable range; an error when the text denotes no number.
pub fn parse_and_clamp(raw: &str) -> (r: Result<usize, String>)
    ensures
        match parsed_number(raw@, usize::MAX as nat) {
            Some(n) => r == Ok::<usize, String>(clamped(n) as usize),
            None => r is Err && invalid_value_prefix().is_prefix_of(r->Err_0@),
        },
{
    match parse_count(raw) {
        Ok(parsed) => {
            if parsed < MIN_DOWNLOAD_CONCURRENCY {
                Ok(MIN_DOWNLOAD_CONCURRENCY)
            } else if parsed > MAX_DOWNLOAD_CONCURRENCY {
                Ok(MAX_DOWNLOAD_CONCURRENCY)
            } else {
                Ok(parsed)
            }
        },
        Err(reason) => {
            let text = owned("invalid download concurrency value: ").concat(reason.as_str());
            proof {
                assert(text@.subrange(0, invalid_value_prefix().len() as int)
                    =~= invalid_value_prefix());
            }
            Err(text)
        },
    }
}

/// The limit in force, given the stored setting: the stored value brought
/// into the configurable range, or the default when nothing is stored. A
/// stored value that is no number is an error.
pub fn get_download_concurrency(stored: Option<String>) -> (r: Result<usize, String>)
    ensures
        match stored {
            Some(raw) => match parsed_number(raw@, usize::MAX as nat) {
                Some(n) => r == Ok::<usize, String>(clamped(n) as usize),
                None => r is Err && invalid_value_prefix().is_prefix_of(r->Err_0@),
            },
            None => r == Ok::<usize, String>(DEFAULT_DOWNLOAD_CONCURRENCY),
        },
        r is Ok ==> MIN_DOWNLOAD_CONCURRENCY <= r->Ok_0 <= MAX_DOWNLOAD_CONCURRENCY,
{
    match stored {
        Some(raw) => parse_and_clamp(raw.as_str()),
        None => Ok(DEFAULT_DOWNLOAD_CONCURRENCY),
    }
}

/// Accepts a new limit if it lies within the configurable range; the
/// caller stores what is accepted.
pub fn set_download_concurrency(value: usize) -> (r: Result<usize, String>)
    ensures
        if MIN_DOWNLOAD_CONCURRENCY <= value <= MAX_DOWNLOAD_CONCURRENCY {
            r == Ok::<usize, String>(value)
        } else {
            r is Err && r->Err_0@ == out_of_range_text()
        },
{
    if value < MIN_DOWNLOAD_CONCURRENCY || value > MAX_DOWNLOAD_CONCURRENCY {
        return Err(owned("download concurrency must be between 1 and 8"));
    }
    Ok(value)
}

/// The limit when nothing is configured.
pub fn default_download_concurrency() -> (limit: usize)
    ensures
        limit == DEFAULT_DOWNLOAD_CONCURRENCY,
{
    DEFAULT_DOWNLOAD_CONCURRENCY
}

} // verus!
