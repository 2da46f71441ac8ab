//! What the answers of the remote service mean, by HTTP status.

use vstd::prelude::*;
use vstd::string::StringExecFns;

use crate::text::{opt_view, owned};

verus! {

/// The address under which the remote service is reached.
pub const GRAPH_BASE: &'static str = "https://graph.microsoft.com/v1.0";

/// Seconds that a request for metadata may take.
pub const METADATA_TIMEOUT_SECS: u64 = 30;

/// Seconds that the transfer of a whole body may take.
pub const STREAM_TIMEOUT_SECS: u64 = 600;

/// Seconds that the transfer of one chunk, or of a small file, may take.
pub const CHUNK_TIMEOUT_SECS: u64 = 120;

/// Seconds that the creation or the query of an upload session may take.
pub const SESSION_TIMEOUT_SECS: u64 = 30;

/// Seconds that the cancellation of an upload session may take.
pub const SESSION_CANCEL_TIMEOUT_SECS: u64 = 10;

/// Whether a status lies in the range of success, 200 to 299.
pub open spec fn success(code: u16) -> bool {
    200 <= code < 300
}

/// Tells whether a status lies in the range of success.
pub fn is_success(code: u16) -> (r: bool)
    ensures
        r == success(code),
{
    200 <= code && code < 300
}

/// The text that reports a refused credential.
pub open spec fn auth_rejected_text() -> Seq<char> {
    "access token rejected by Graph API; please sign in again"@
}

/// The text that reports a refused credential.
pub fn auth_rejected() -> (r: String)
    ensures
        r@ == auth_rejected_text(),
{
    owned("access token rejected by Graph API; please sign in again")
}

/// The texts with which one kind of request reports its failures. A status
/// without a text of its own is reported by the general text, which names
/// the status between `failure_prefix` and `failure_suffix`.
pub struct FailureTexts {
    /// For status 403, if the request tells it apart.
    pub forbidden: Option<String>,
    /// For status 404, if the request tells it apart.
    pub not_found: Option<String>,
    /// For status 412, if the request tells it apart.
    pub precondition: Option<String>,
    /// What stands before the status in the general text.
    pub failure_prefix: String,
    /// What stands behind the status in the general text.
    pub failure_suffix: String,
}

/// Mathematical view of [`FailureTexts`].
pub ghost struct FailureTextsView {
    pub forbidden: Option<Seq<char>>,
    pub not_found: Option<Seq<char>>,
    pub precondition: Option<Seq<char>>,
    pub failure_prefix: Seq<char>,
    pub failure_suffix: Seq<char>,
}

impl View for FailureTexts {
    type V = FailureTextsView;

    open spec fn view(&self) -> FailureTextsView {
        FailureTextsView {
            forbidden: opt_view(self.forbidden),
            not_found: opt_view(self.not_found),
            precondition: opt_view(self.precondition),
            failure_prefix: self.failure_prefix@,
            failure_suffix: self.failure_suffix@,
        }
    }
}

/// The texts of a request that tells no status apart.
pub open spec fn plain_texts(prefix: Seq<char>, suffix: Seq<char>) -> FailureTextsView {
    FailureTextsView {
        forbidden: None,
        not_found: None,
        precondition: None,
        failure_prefix: prefix,
        failure_suffix: suffix,
    }
}

/// The failure that a status stands for, if it stands for one: 401 is a
/// refused credential; 404, 412 and 403 have the texts that the request
/// gives them, in this order; any other status outside the range of
/// success is reported by the general text.
pub open spec fn failure_of(code: u16, shown: Seq<char>, texts: FailureTextsView) -> Option<
    Seq<char>,
> {
    if code == 401 {
        Some(auth_rejected_text())
    } else if code == 404 && texts.not_found is Some {
        texts.not_found
    } else if code == 412 && texts.precondition is Some {
        texts.precondition
    } else if code == 403 && texts.forbidden is Some {
        texts.forbidden
    } else if !success(code) {
        Some(texts.failure_prefix + shown + texts.failure_suffix)
    } else {
        None
    }
}

/// Judges the status of an answer: `Ok` for success, the text of the
/// failure otherwise. `shown` is the status as it is to appear in the
/// general text.
pub fn check_status(code: u16, shown: &str, texts: FailureTexts) -> (r: Result<(), String>)
    ensures
        match failure_of(code, shown@, texts@) {
            Some(text) => r is Err && r->Err_0@ == text,
            None => r is Ok,
        },
{
    if code == 401 {
        return Err(auth_rejected());
    }
    if code == 404 {
        if let Some(text) = texts.not_found {
            return Err(text);
        }
    }
    if code == 412 {
        if let Some(text) = texts.precondition {
            return Err(text);
        }
    }
    if code == 403 {
        if let Some(text) = texts.forbidden {
            return Err(text);
        }
    }
    if !is_success(code) {
        return Err(texts.failure_prefix.concat(shown).concat(texts.failure_suffix.as_str()));
    }
    Ok(())
}

/// Judges the status of an answer to a request that tells no status apart.
pub fn check_plain_status(code: u16, shown: &str, prefix: &str, suffix: &str) -> (r: Result<
    (),
    String,
>)
    ensures
        match failure_of(code, shown@, plain_texts(prefix@, suffix@)) {
            Some(text) => r is Err && r->Err_0@ == text,
            None => r is Ok,
        },
{
    check_status(
        code,
        shown,
        FailureTexts {
            forbidden: None,
            not_found: None,
            precondition: None,
            failure_prefix: owned(prefix),
            failure_suffix: owned(suffix),
        },
    )
}

/// Judges the status of an answer to a request that knows success and
/// failure only: any status outside the range of success is reported by
/// the text that names it between `prefix` and `suffix`.
pub fn check_success(code: u16, shown: &str, prefix: &str, suffix: &str) -> (r: Result<(), String>)
    ensures
        if success(code) {
            r is Ok
        } else {
            r is Err && r->Err_0@ == prefix@ + shown@ + suffix@
        },
{
    if !is_success(code) {
        return Err(owned(prefix).concat(shown).concat(suffix));
    }
    Ok(())
}

} // verus!
