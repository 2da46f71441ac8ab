//! Signing in: the pieces of the authorization-code flow that compute.

use base64::Engine;
use rand::Rng;
use sha2::Digest;
use vstd::prelude::*;
use vstd::string::{StrSliceExecFns, StringExecFns, StringSliceAdditionalSpecFns};

use crate::api::http::{check_success, success};
use crate::db::{build_record, stored_size, AuthTokenRecord};
use crate::queue_model::first_index;
use crate::text::{
    char_is_whitespace, decimal, decimal_text, is_whitespace, opt_view, owned, position_of_char,
    str_eq, trim, trimmed,
};

verus! {

/// The address of the authorization service.
pub const AUTHORITY: &'static str = "https://login.microsoftonline.com/common/oauth2/v2.0";

/// The path of the authorization endpoint.
pub const AUTHORIZE_PATH: &'static str = "authorize";

/// The path of the token endpoint.
pub const TOKEN_PATH: &'static str = "token";

/// The tokens that signing in yields.
#[derive(Debug, PartialEq, Eq)]
pub struct AuthTokens {
    pub access_token: String,
    pub refresh_token: Option<String>,
    pub expires_in: Option<u64>,
    pub id_token: Option<String>,
    pub scope: Option<String>,
    pub token_type: Option<String>,
}

impl Clone for AuthTokens {
    fn clone(&self) -> (r: Self)
        ensures
            r == *self,
    {
        AuthTokens {
            access_token: self.access_token.clone(),
            refresh_token: self.refresh_token.clone(),
            expires_in: self.expires_in,
            id_token: self.id_token.clone(),
            scope: self.scope.clone(),
            token_type: self.token_type.clone(),
        }
    }
}

/// The tokens as they are kept between runs.
#[derive(Debug, PartialEq, Eq)]
pub struct StoredAuthState {
    pub client_id: String,
    pub tokens: AuthTokens,
    pub updated_at_millis: i64,
}

impl Clone for StoredAuthState {
    fn clone(&self) -> (r: Self)
        ensures
            r == *self,
    {
        StoredAuthState {
            client_id: self.client_id.clone(),
            tokens: self.tokens.clone(),
            updated_at_millis: self.updated_at_millis,
        }
    }
}

/// A stored lifetime read back: a negative one is read as absent.
pub open spec fn lifetime_of(value: Option<i64>) -> Option<u64> {
    match value {
        Some(v) => if v < 0 {
            None
        } else {
            Some(v as u64)
        },
        None => None,
    }
}

/// Reads a stored lifetime back.
pub fn convert_expires_in(value: Option<i64>) -> (r: Option<u64>)
    ensures
        r == lifetime_of(value),
{
    match value {
        Some(v) => if v < 0 {
            None
        } else {
            Some(v as u64)
        },
        None => None,
    }
}

impl From<AuthTokenRecord> for StoredAuthState {
    fn from(record: AuthTokenRecord) -> (state: StoredAuthState) {
        StoredAuthState {
            client_id: record.client_id,
            tokens: AuthTokens {
                access_token: record.access_token,
                refresh_token: record.refresh_token,
                expires_in: convert_expires_in(record.expires_in_seconds),
                id_token: record.id_token,
                scope: record.scope,
                token_type: record.token_type,
            },
            updated_at_millis: record.updated_at_millis,
        }
    }
}

impl vstd::std_specs::convert::FromSpecImpl<AuthTokenRecord> for StoredAuthState {
    open spec fn obeys_from_spec() -> bool {
        true
    }

    open spec fn from_spec(record: AuthTokenRecord) -> StoredAuthState {
        StoredAuthState {
            client_id: record.client_id,
            tokens: AuthTokens {
                access_token: record.access_token,
                refresh_token: record.refresh_token,
                expires_in: lifetime_of(record.expires_in_seconds),
                id_token: record.id_token,
                scope: record.scope,
                token_type: record.token_type,
            },
            updated_at_millis: record.updated_at_millis,
        }
    }
}

/// Whether one of the scopes is `name`.
pub open spec fn has_scope(scopes: Seq<Seq<char>>, name: Seq<char>) -> bool {
    exists|i: int| 0 <= i < scopes.len() && #[trigger] scopes[i] == name
}

/// The scopes that are asked for: those given, or `User.Read` when none is
/// given, followed by `offline_access` and `openid` where they are
/// missing.
pub open spec fn normalized_scopes(scopes: Seq<Seq<char>>) -> Seq<Seq<char>> {
    let base = if scopes.len() == 0 {
        seq!["User.Read"@]
    } else {
        scopes
    };
    let offline = if has_scope(base, "offline_access"@) {
        base
    } else {
        base.push("offline_access"@)
    };
    if has_scope(offline, "openid"@) {
        offline
    } else {
        offline.push("openid"@)
    }
}

fn contains_scope(scopes: &Vec<String>, name: &str) -> (r: bool)
    ensures
        r == has_scope(scopes.deep_view(), name@),
{
    let mut i: usize = 0;
    while i < scopes.len()
        invariant
            i <= scopes.len(),
            forall|j: int| 0 <= j < i ==> (#[trigger] scopes.deep_view()[j]) != name@,
        decreases scopes.len() - i,
    {
        if str_eq(scopes[i].as_str(), name) {
            assert(scopes.deep_view()[i as int] == name@);
            return true;
        }
        i += 1;
    }
    false
}

/// Completes the list of scopes to ask for.
pub fn normalize_scopes(scopes: Vec<String>) -> (r: Vec<String>)
    ensures
        r.deep_view() == normalized_scopes(scopes.deep_view()),
{
    let mut scopes = scopes;
    let ghost given = scopes.deep_view();
    if scopes.len() == 0 {
        scopes.push(owned("User.Read"));
        proof {
            assert(scopes.deep_view() =~= seq!["User.Read"@]);
        }
    }
    let ghost base = scopes.deep_view();
    if !contains_scope(&scopes, "offline_access") {
        scopes.push(owned("offline_access"));
        proof {
            assert(scopes.deep_view() =~= base.push("offline_access"@));
        }
    }
    let ghost offline = scopes.deep_view();
    if !contains_scope(&scopes, "openid") {
        scopes.push(owned("openid"));
        proof {
            assert(scopes.deep_view() =~= offline.push("openid"@));
        }
    }
    scopes
}

/// The row under which tokens are stored for the application `client_id`,
/// stamped with the current time.
pub fn record_from_tokens(client_id: &str, tokens: &AuthTokens) -> (r: AuthTokenRecord)
    ensures
        r.client_id@ == client_id@,
        r.access_token@ == tokens.access_token@,
        opt_view(r.refresh_token) == opt_view(tokens.refresh_token),
        r.expires_in_seconds == stored_size(tokens.expires_in),
        opt_view(r.id_token) == opt_view(tokens.id_token),
        opt_view(r.scope) == opt_view(tokens.scope),
        opt_view(r.token_type) == opt_view(tokens.token_type),
{
    build_record(
        owned(client_id),
        tokens.access_token.clone(),
        tokens.refresh_token.clone(),
        tokens.expires_in,
        tokens.id_token.clone(),
        tokens.scope.clone(),
        tokens.token_type.clone(),
    )
}

/// What the token endpoint answers.
#[derive(Debug, PartialEq, Eq)]
pub struct TokenResponse {
    pub access_token: Option<String>,
    pub refresh_token: Option<String>,
    pub expires_in: Option<u64>,
    pub id_token: Option<String>,
    pub scope: Option<String>,
    pub token_type: Option<String>,
    pub error: Option<String>,
    pub error_description: Option<String>,
}

/// The text that reports an answer without access token.
pub open spec fn missing_token_text() -> Seq<char> {
    "missing access_token in response"@
}

/// The text that reports the error of an answer: the error, a colon and
/// the description, which is empty when the answer has none.
pub open spec fn error_text(error: Seq<char>, description: Option<Seq<char>>) -> Seq<char> {
    error + ": "@ + match description {
        Some(d) => d,
        None => Seq::empty(),
    }
}

/// Reads the tokens out of the answer to a code exchange. An answer that
/// carries an error is that error; an answer without access token is an
/// error too.
pub fn tokens_from_response(payload: TokenResponse) -> (r: Result<AuthTokens, String>)
    ensures
        match payload.error {
            Some(e) => r is Err && r->Err_0@ == error_text(e@, opt_view(payload.error_description)),
            None => match payload.access_token {
                Some(token) => r == Ok::<AuthTokens, String>(
                    AuthTokens {
                        access_token: token,
                        refresh_token: payload.refresh_token,
                        expires_in: payload.expires_in,
                        id_token: payload.id_token,
                        scope: payload.scope,
                        token_type: payload.token_type,
                    },
                ),
                None => r is Err && r->Err_0@ == missing_token_text(),
            },
        },
{
    if let Some(error) = payload.error {
        let description = match payload.error_description {
            Some(d) => d,
            None => String::new(),
        };
        return Err(error.concat(": ").concat(description.as_str()));
    }
    match payload.access_token {
        Some(access_token) => Ok(
            AuthTokens {
                access_token,
                refresh_token: payload.refresh_token,
                expires_in: payload.expires_in,
                id_token: payload.id_token,
                scope: payload.scope,
                token_type: payload.token_type,
            },
        ),
        None => Err(owned("missing access_token in response")),
    }
}

/// Reads the tokens out of the answer to a refresh. Where the answer
/// names no refresh token the one that was used stands, and where it names
/// no scope the scope that was stored stands.
pub fn tokens_from_refresh(payload: TokenResponse, refresh_token: &str, scope: Option<String>)
    -> (r: Result<AuthTokens, String>)
    ensures
        match payload.error {
            Some(e) => r is Err && r->Err_0@ == error_text(e@, opt_view(payload.error_description)),
            None => match payload.access_token {
                Some(token) => {
                    &&& r is Ok
                    &&& r->Ok_0.access_token == token
                    &&& opt_view(r->Ok_0.refresh_token) == match payload.refresh_token {
                        Some(t) => Some(t@),
                        None => Some(refresh_token@),
                    }
                    &&& r->Ok_0.expires_in == payload.expires_in
                    &&& r->Ok_0.id_token == payload.id_token
                    &&& r->Ok_0.scope == if payload.scope is Some {
                        payload.scope
                    } else {
                        scope
                    }
                    &&& r->Ok_0.token_type == payload.token_type
                },
                None => r is Err && r->Err_0@ == missing_token_text(),
            },
        },
{
    if let Some(error) = payload.error {
        let description = match payload.error_description {
            Some(d) => d,
            None => String::new(),
        };
        return Err(error.concat(": ").concat(description.as_str()));
    }
    match payload.access_token {
        Some(access_token) => Ok(
            AuthTokens {
                access_token,
                refresh_token: match payload.refresh_token {
                    Some(t) => Some(t),
                    None => Some(owned(refresh_token)),
                },
                expires_in: payload.expires_in,
                id_token: payload.id_token,
                scope: match payload.scope {
                    Some(s) => Some(s),
                    None => scope,
                },
                token_type: payload.token_type,
            },
        ),
        None => Err(owned("missing access_token in response")),
    }
}

/// One field of a form: name and value.
#[derive(Debug, PartialEq, Eq)]
pub struct FormField {
    pub name: String,
    pub value: String,
}

/// The view of a form: names and values in order.
pub open spec fn form_view(form: Seq<FormField>) -> Seq<(Seq<char>, Seq<char>)> {
    Seq::new(form.len(), |i: int| (form[i].name@, form[i].value@))
}

fn field(name: &str, value: &str) -> (f: FormField)
    ensures
        f.name@ == name@,
        f.value@ == value@,
{
    FormField { name: owned(name), value: owned(value) }
}

/// The form that exchanges an authorization code for tokens. The scope is
/// part of it unless it is empty.
pub fn code_exchange_form(
    client_id: &str,
    scope: &str,
    redirect_uri: &str,
    code_verifier: &str,
    code: &str,
) -> (form: Vec<FormField>)
    ensures
        form_view(form@) == seq![
            ("client_id"@, client_id@),
            ("grant_type"@, "authorization_code"@),
            ("code"@, code@),
            ("redirect_uri"@, redirect_uri@),
            ("code_verifier"@, code_verifier@),
        ] + if scope@.len() == 0 {
            Seq::<(Seq<char>, Seq<char>)>::empty()
        } else {
            seq![("scope"@, scope@)]
        },
{
    let mut form: Vec<FormField> = Vec::new();
    form.push(field("client_id", client_id));
    form.push(field("grant_type", "authorization_code"));
    form.push(field("code", code));
    form.push(field("redirect_uri", redirect_uri));
    form.push(field("code_verifier", code_verifier));
    if !scope.is_empty() {
        form.push(field("scope", scope));
    }
    proof {
        let expected = seq![
            ("client_id"@, client_id@),
            ("grant_type"@, "authorization_code"@),
            ("code"@, code@),
            ("redirect_uri"@, redirect_uri@),
            ("code_verifier"@, code_verifier@),
        ] + if scope@.len() == 0 {
            Seq::<(Seq<char>, Seq<char>)>::empty()
        } else {
            seq![("scope"@, scope@)]
        };
        assert(form_view(form@) =~= expected);
    }
    form
}

/// The scope that a refresh asks for: the stored scope without the white
/// space around it, unless nothing is left of it.
pub open spec fn refresh_scope(scope: Option<Seq<char>>) -> Option<Seq<char>> {
    match scope {
        Some(s) => if trimmed(s).len() == 0 {
            None
        } else {
            Some(trimmed(s))
        },
        None => None,
    }
}

/// The form that exchanges a refresh token for tokens.
pub fn refresh_form(client_id: &str, refresh_token: &str, scope: &Option<String>) -> (form: Vec<
    FormField,
>)
    ensures
        form_view(form@) == seq![
            ("client_id"@, client_id@),
            ("grant_type"@, "refresh_token"@),
            ("refresh_token"@, refresh_token@),
        ] + match refresh_scope(opt_view(*scope)) {
            Some(s) => seq![("scope"@, s)],
            None => Seq::<(Seq<char>, Seq<char>)>::empty(),
        },
{
    let mut form: Vec<FormField> = Vec::new();
    form.push(field("client_id", client_id));
    form.push(field("grant_type", "refresh_token"));
    form.push(field("refresh_token", refresh_token));
    if let Some(value) = scope {
        let kept = trim(value.as_str());
        if !kept.is_empty() {
            form.push(field("scope", kept));
        }
    }
    proof {
        let expected = seq![
            ("client_id"@, client_id@),
            ("grant_type"@, "refresh_token"@),
            ("refresh_token"@, refresh_token@),
        ] + match refresh_scope(opt_view(*scope)) {
            Some(s) => seq![("scope"@, s)],
            None => Seq::<(Seq<char>, Seq<char>)>::empty(),
        };
        assert(form_view(form@) =~= expected);
    }
    form
}

/// The text that reports a redirect whose state is not the one sent.
pub open spec fn state_mismatch_text() -> Seq<char> {
    "state mismatch in authorization response"@
}

/// Confirms that the redirect carries the state that was sent.
pub fn check_state(received: &Option<String>, expected: &str) -> (r: Result<(), String>)
    ensures
        if opt_view(*received) == Some(expected@) {
            r is Ok
        } else {
            r is Err && r->Err_0@ == state_mismatch_text()
        },
{
    match received {
        Some(state) => if str_eq(state.as_str(), expected) {
            Ok(())
        } else {
            Err(owned("state mismatch in authorization response"))
        },
        None => Err(owned("state mismatch in authorization response")),
    }
}

/// What the parameters of a redirect amount to, read in order: an `error`
/// ends the reading with its value; of several `code` and `state` the last
/// one counts.
pub enum Redirect {
    /// The authorization service reported this error.
    Refused(String),
    /// The code, if there was one, and the state, if there was one.
    Granted { code: Option<String>, state: Option<String> },
}

/// The text that reports a redirect without code.
pub open spec fn code_missing_text() -> Seq<char> {
    "authorization code missing in redirect"@
}

/// The result of reading the first `n` parameters, given that none of them
/// is an `error`.
pub open spec fn last_value(pairs: Seq<(Seq<char>, Seq<char>)>, name: Seq<char>) -> Option<
    Seq<char>,
>
    decreases pairs.len(),
{
    if pairs.len() == 0 {
        None
    } else if pairs.last().0 == name {
        Some(pairs.last().1)
    } else {
        last_value(pairs.drop_last(), name)
    }
}

/// The predicate "is an `error` parameter".
pub open spec fn is_error() -> spec_fn((Seq<char>, Seq<char>)) -> bool {
    |p: (Seq<char>, Seq<char>)| p.0 == "error"@
}

/// Reads the parameters of a redirect.
pub fn read_redirect(pairs: &Vec<FormField>) -> (r: Redirect)
    ensures
        ({
            let all = form_view(pairs@);
            let stop = first_index(all, is_error());
            if stop < all.len() {
                r is Refused && r->Refused_0@ == all[stop].1
            } else {
                &&& r is Granted
                &&& opt_view(r->code) == last_value(all, "code"@)
                &&& opt_view(r->state) == last_value(all, "state"@)
            }
        }),
{
    let ghost all = form_view(pairs@);
    let mut code: Option<String> = None;
    let mut state: Option<String> = None;
    let mut i: usize = 0;
    proof {
        assert(all.take(0) =~= Seq::<(Seq<char>, Seq<char>)>::empty());
    }
    while i < pairs.len()
        invariant
            i <= pairs.len(),
            all == form_view(pairs@),
            forall|j: int| 0 <= j < i ==> !is_error()(#[trigger] all[j]),
            opt_view(code) == last_value(all.take(i as int), "code"@),
            opt_view(state) == last_value(all.take(i as int), "state"@),
        decreases pairs.len() - i,
    {
        proof {
            assert(all.take(i + 1).drop_last() =~= all.take(i as int));
            assert(all.take(i + 1).last() == all[i as int]);
            assert(all[i as int] == (pairs@[i as int].name@, pairs@[i as int].value@));
            reveal_strlit("code");
            reveal_strlit("state");
            reveal_strlit("error");
            assert("code"@.len() == 4 && "state"@.len() == 5 && "error"@.len() == 5);
            assert("state"@[0] == 's' && "error"@[0] == 'e');
        }
        if str_eq(pairs[i].name.as_str(), "code") {
            code = Some(pairs[i].value.clone());
        } else if str_eq(pairs[i].name.as_str(), "state") {
            state = Some(pairs[i].value.clone());
        } else if str_eq(pairs[i].name.as_str(), "error") {
            proof {
                crate::queue_model::lemma_first_index_is(all, is_error(), i as int);
            }
            return Redirect::Refused(pairs[i].value.clone());
        }
        i += 1;
    }
    proof {
        assert(all.take(i as int) =~= all);
        crate::queue_model::lemma_first_index_is(all, is_error(), i as int);
    }
    Redirect::Granted { code, state }
}

/// The code and the state of a redirect, or the reason why it grants
/// nothing: the error that it reports, or the lack of a code.
pub fn code_from_redirect(redirect: Redirect) -> (r: Result<(String, Option<String>), String>)
    ensures
        match redirect {
            Redirect::Refused(e) => r is Err && r->Err_0@ == "authorization error: "@ + e@,
            Redirect::Granted { code, state } => match code {
                Some(c) => r == Ok::<(String, Option<String>), String>((c, state)),
                None => r is Err && r->Err_0@ == code_missing_text(),
            },
        },
{
    match redirect {
        Redirect::Refused(e) => Err(owned("authorization error: ").concat(e.as_str())),
        Redirect::Granted { code, state } => match code {
            Some(c) => Ok((c, state)),
            None => Err(owned("authorization code missing in redirect")),
        },
    }
}

/// The page that the browser is shown, as an HTTP response.
pub open spec fn response_text(title: Seq<char>, message: Seq<char>, body_bytes: nat) -> Seq<char> {
    "HTTP/1.1 200 OK\r\nContent-Type: text/html; charset=utf-8\r\nContent-Length: "@ + decimal(
        body_bytes,
    ) + "\r\nConnection: close\r\n\r\n"@ + page_text(title, message)
}

/// The page that the browser is shown.
pub open spec fn page_text(title: Seq<char>, message: Seq<char>) -> Seq<char> {
    "<html><head><meta charset=\"utf-8\"><title>"@ + title + "</title></head><body><h1>"@ + title
        + "</h1><p>"@ + message + "</p></body></html>"@
}

/// Renders the HTTP response that shows the browser a page with the given
/// title and message.
pub fn browser_response(title: &str, message: &str) -> (r: String)
    ensures
        r@ == response_text(
            title@,
            message@,
            (vstd::utf8::encode_utf8(page_text(title@, message@)).len() as usize) as nat,
        ),
{
    let body = owned("<html><head><meta charset=\"utf-8\"><title>").concat(title).concat(
        "</title></head><body><h1>",
    ).concat(title).concat("</h1><p>").concat(message).concat("</p></body></html>");
    let text = body.as_str();
    let length = text.len();
    proof {
        assert(body@ == page_text(title@, message@));
        assert(length == text.spec_bytes().len() as usize);
    }
    let r = owned(
        "HTTP/1.1 200 OK\r\nContent-Type: text/html; charset=utf-8\r\nContent-Length: ",
    ).concat(decimal_text(length as u64).as_str()).concat("\r\nConnection: close\r\n\r\n").concat(text);
    r
}

/// The SHA-256 digest of a sequence of bytes, as `sha2` computes it.
pub uninterp spec fn sha256(data: Seq<u8>) -> Seq<u8>;

/// The base64 text of a sequence of bytes in the URL-safe alphabet without
/// padding, as `base64` renders it.
pub uninterp spec fn base64_url(data: Seq<u8>) -> Seq<char>;

/// The address `endpoint` with the given parameters appended to its
/// query, as `url` parses, extends and serialises it, or the reason why
/// `url` cannot parse the endpoint.
pub uninterp spec fn url_with_query(endpoint: Seq<char>, pairs: Seq<(Seq<char>, Seq<char>)>)
    -> Result<Seq<char>, Seq<char>>;

/// The parameters in the query of an address, as `url` parses them, or the
/// reason why `url` cannot parse the address.
pub uninterp spec fn url_query_pairs(address: Seq<char>) -> Result<
    Seq<(Seq<char>, Seq<char>)>,
    Seq<char>,
>;

/// View of a text or the reason for its absence.
pub open spec fn text_result(r: Result<String, String>) -> Result<Seq<char>, Seq<char>> {
    match r {
        Ok(text) => Ok(text@),
        Err(reason) => Err(reason@),
    }
}

/// View of a list of parameters or the reason for its absence.
pub open spec fn pairs_result(r: Result<Vec<FormField>, String>) -> Result<
    Seq<(Seq<char>, Seq<char>)>,
    Seq<char>,
> {
    match r {
        Ok(pairs) => Ok(form_view(pairs@)),
        Err(reason) => Err(reason@),
    }
}

/// Computes the SHA-256 digest with `Sha256::digest`.
#[verifier::external_body]
fn sha256_digest(data: &[u8]) -> (digest: Vec<u8>)
    ensures
        digest@ == sha256(data@),
{
    sha2::Sha256::digest(data).to_vec()
}

/// Renders bytes with `URL_SAFE_NO_PAD.encode`.
#[verifier::external_body]
fn base64_url_encode(data: &Vec<u8>) -> (text: String)
    ensures
        text@ == base64_url(data@),
{
    base64::engine::general_purpose::URL_SAFE_NO_PAD.encode(data)
}

/// Whether `c` is an ASCII letter or digit.
pub open spec fn is_alphanumeric(c: char) -> bool {
    ('0' <= c <= '9') || ('a' <= c <= 'z') || ('A' <= c <= 'Z')
}

/// Draws `len` characters with `rand`, each uniformly from the ASCII
/// letters and digits.
#[verifier::external_body]
fn random_string(len: usize) -> (r: String)
    ensures
        r@.len() == len,
        forall|i: int| 0 <= i < r@.len() ==> is_alphanumeric(#[trigger] r@[i]),
{
    rand::thread_rng().sample_iter(&rand::distributions::Alphanumeric).take(len).map(
        char::from,
    ).collect()
}

/// Parses `endpoint` with `Url::parse`, appends the parameters to its
/// query with `extend_pairs` and serialises the result.
#[verifier::external_body]
fn append_query(endpoint: &str, pairs: &Vec<FormField>) -> (r: Result<String, String>)
    ensures
        text_result(r) == url_with_query(endpoint@, form_view(pairs@)),
{
    let mut url = url::Url::parse(endpoint).map_err(|e| e.to_string())?;
    url.query_pairs_mut().extend_pairs(pairs.iter().map(|f| (f.name.as_str(), f.value.as_str())));
    Ok(url.into())
}

/// The address of the authorization endpoint.
pub open spec fn authorize_endpoint() -> Seq<char> {
    AUTHORITY@ + "/"@ + AUTHORIZE_PATH@
}

/// The parameters of an authorization request, in the order in which they
/// are sent.
pub open spec fn authorize_pairs(
    client_id: Seq<char>,
    scope: Seq<char>,
    redirect_uri: Seq<char>,
    code_challenge: Seq<char>,
    state: Seq<char>,
) -> Seq<(Seq<char>, Seq<char>)> {
    seq![
        ("client_id"@, client_id),
        ("response_type"@, "code"@),
        ("response_mode"@, "query"@),
        ("redirect_uri"@, redirect_uri),
        ("scope"@, scope),
        ("code_challenge"@, code_challenge),
        ("code_challenge_method"@, "S256"@),
        ("state"@, state),
    ]
}

/// The beginning of the text that reports an endpoint that cannot be
/// parsed.
pub open spec fn endpoint_error_prefix() -> Seq<char> {
    "failed to parse authorize endpoint: "@
}

/// Builds the address to which the browser is sent: the authorization
/// endpoint with the parameters of the request.
pub fn build_authorize_url(
    client_id: &str,
    scope: &str,
    redirect_uri: &str,
    code_challenge: &str,
    state: &str,
) -> (r: Result<String, String>)
    ensures
        match url_with_query(
            authorize_endpoint(),
            authorize_pairs(client_id@, scope@, redirect_uri@, code_challenge@, state@),
        ) {
            Ok(address) => r is Ok && r->Ok_0@ == address,
            Err(reason) => r is Err && r->Err_0@ == endpoint_error_prefix() + reason,
        },
{
    let mut pairs: Vec<FormField> = Vec::new();
    pairs.push(field("client_id", client_id));
    pairs.push(field("response_type", "code"));
    pairs.push(field("response_mode", "query"));
    pairs.push(field("redirect_uri", redirect_uri));
    pairs.push(field("scope", scope));
    pairs.push(field("code_challenge", code_challenge));
    pairs.push(field("code_challenge_method", "S256"));
    pairs.push(field("state", state));
    proof {
        assert(form_view(pairs@) =~= authorize_pairs(
            client_id@,
            scope@,
            redirect_uri@,
            code_challenge@,
            state@,
        ));
    }
    let endpoint = owned(AUTHORITY).concat("/").concat(AUTHORIZE_PATH);
    match append_query(endpoint.as_str(), &pairs) {
        Ok(address) => Ok(address),
        Err(reason) => Err(owned("failed to parse authorize endpoint: ").concat(reason.as_str())),
    }
}

/// Parses an address with `Url::parse` and lists the parameters of its
/// query with `query_pairs`.
#[verifier::external_body]
fn query_pairs_of(address: &str) -> (r: Result<Vec<FormField>, String>)
    ensures
        pairs_result(r) == url_query_pairs(address@),
{
    let url = url::Url::parse(address).map_err(|e| e.to_string())?;
    Ok(
        url.query_pairs().map(
            |(k, v)| FormField { name: k.into_owned(), value: v.into_owned() },
        ).collect(),
    )
}

/// The verifier of a code exchange: 64 random letters and digits.
pub fn build_code_verifier() -> (r: String)
    ensures
        r@.len() == 64,
        forall|i: int| 0 <= i < r@.len() ==> is_alphanumeric(#[trigger] r@[i]),
{
    random_string(64)
}

/// The challenge that belongs to a verifier: the base64 text of the
/// digest of the verifier.
pub fn build_code_challenge(code_verifier: &str) -> (r: Result<String, String>)
    ensures
        r is Ok,
        r->Ok_0@ == base64_url(sha256(vstd::utf8::encode_utf8(code_verifier@))),
{
    let digest = sha256_digest(code_verifier.as_bytes());
    Ok(base64_url_encode(&digest))
}

/// `parts` with `separator` between them.
pub open spec fn joined(parts: Seq<Seq<char>>, separator: Seq<char>) -> Seq<char>
    decreases parts.len(),
{
    if parts.len() == 0 {
        Seq::empty()
    } else if parts.len() == 1 {
        parts[0]
    } else {
        joined(parts.drop_last(), separator) + separator + parts.last()
    }
}

/// Joins texts with a separator between them.
pub fn join(parts: &Vec<String>, separator: &str) -> (r: String)
    ensures
        r@ == joined(parts.deep_view(), separator@),
{
    let mut r = String::new();
    let mut i: usize = 0;
    proof {
        assert(parts.deep_view().take(0) =~= Seq::<Seq<char>>::empty());
    }
    while i < parts.len()
        invariant
            i <= parts.len(),
            r@ == joined(parts.deep_view().take(i as int), separator@),
        decreases parts.len() - i,
    {
        proof {
            let all = parts.deep_view();
            assert(all.take(i + 1).drop_last() =~= all.take(i as int));
            assert(all.take(i + 1).last() == parts@[i as int]@);
            if i == 0 {
                assert(r@ + parts@[0]@ =~= parts@[0]@);
                assert(all.take(1)[0] == parts@[0]@);
            }
        }
        if i > 0 {
            r = r.concat(separator);
        }
        r = r.concat(parts[i].as_str());
        i += 1;
    }
    proof {
        assert(parts.deep_view().take(i as int) =~= parts.deep_view());
    }
    r
}

/// What is needed to send the user to the authorization service and to
/// redeem the code that comes back.
pub struct AuthorizationRequest {
    /// The scopes asked for, separated by blanks.
    pub scope: String,
    /// The secret that proves, at the exchange, who asked.
    pub code_verifier: String,
    /// The value by which the redirect is recognised.
    pub state: String,
    /// The local address to which the service redirects.
    pub redirect_uri: String,
    /// The address to open in the browser.
    pub authorize_url: String,
}

/// Prepares the request for authorization of the application `client_id`
/// for the given scopes, with the redirect listener on `redirect_port`:
/// completes the scopes, draws verifier and state, derives the challenge
/// and builds the address to open.
pub fn begin_authorization(client_id: &str, scopes: Vec<String>, redirect_port: u16) -> (r:
    Result<AuthorizationRequest, String>)
    ensures
        match r {
            Ok(request) => {
                &&& request.scope@ == joined(normalized_scopes(scopes.deep_view()), " "@)
                &&& request.code_verifier@.len() == 64
                &&& request.state@.len() == 32
                &&& request.redirect_uri@ == "http://localhost:"@ + decimal(redirect_port as nat)
                &&& url_with_query(
                    authorize_endpoint(),
                    authorize_pairs(
                        client_id@,
                        request.scope@,
                        request.redirect_uri@,
                        base64_url(sha256(vstd::utf8::encode_utf8(request.code_verifier@))),
                        request.state@,
                    ),
                ) == Ok::<Seq<char>, Seq<char>>(request.authorize_url@)
            },
            Err(text) => endpoint_error_prefix().is_prefix_of(text@),
        },
{
    let scopes = normalize_scopes(scopes);
    let scope = join(&scopes, " ");
    let code_verifier = build_code_verifier();
    let code_challenge = match build_code_challenge(code_verifier.as_str()) {
        Ok(challenge) => challenge,
        Err(e) => {
            return Err(e);
        },
    };
    let state = random_string(32);
    let redirect_uri = owned("http://localhost:").concat(
        decimal_text(redirect_port as u64).as_str(),
    );
    match build_authorize_url(
        client_id,
        scope.as_str(),
        redirect_uri.as_str(),
        code_challenge.as_str(),
        state.as_str(),
    ) {
        Ok(authorize_url) => Ok(
            AuthorizationRequest { scope, code_verifier, state, redirect_uri, authorize_url },
        ),
        Err(text) => {
            proof {
                assert(text@.subrange(0, endpoint_error_prefix().len() as int)
                    =~= endpoint_error_prefix());
            }
            Err(text)
        },
    }
}

/// The predicate "is white space", or its opposite.
pub open spec fn space_is(wanted: bool) -> spec_fn(char) -> bool {
    |c: char| is_whitespace(c) == wanted
}

/// The first line of a text: what stands before the first line feed.
pub open spec fn first_line(s: Seq<char>) -> Seq<char> {
    s.take(position_of_char(s, '\n'))
}

/// Where the second word of a line begins and ends, words being separated
/// by white space.
pub open spec fn second_word_bounds(line: Seq<char>) -> (int, int) {
    let a = first_index(line, space_is(false));
    let b = a + first_index(line.subrange(a, line.len() as int), space_is(true));
    let c = b + first_index(line.subrange(b, line.len() as int), space_is(false));
    let d = c + first_index(line.subrange(c, line.len() as int), space_is(true));
    (c, d)
}

/// The path that an HTTP request asks for: the second word of its first
/// line, if the line has two words.
pub open spec fn requested_path(request: Seq<char>) -> Option<Seq<char>> {
    let line = first_line(request);
    let (c, d) = second_word_bounds(line);
    if c < line.len() {
        Some(line.subrange(c, d))
    } else {
        None
    }
}

/// Scans `s` from `from` up to `end` for the first character that is white
/// space, or the first that is not.
fn scan(s: &str, from: usize, end: usize, stop_at_space: bool) -> (r: usize)
    requires
        from <= end <= s@.len(),
    ensures
        from <= r <= end,
        r - from == first_index(s@.subrange(from as int, end as int), space_is(stop_at_space)),
{
    let ghost part = s@.subrange(from as int, end as int);
    let ghost p = space_is(stop_at_space);
    let mut r: usize = from;
    while r < end
        invariant
            from <= r <= end <= s@.len(),
            part == s@.subrange(from as int, end as int),
            p == space_is(stop_at_space),
            forall|j: int| 0 <= j < r - from ==> !p(#[trigger] part[j]),
        decreases end - r,
    {
        let c = s.get_char(r);
        proof {
            assert(part[r - from] == c);
        }
        if char_is_whitespace(c) == stop_at_space {
            proof {
                crate::queue_model::lemma_first_index_is(part, p, r - from);
            }
            return r;
        }
        r += 1;
    }
    proof {
        crate::queue_model::lemma_first_index_is(part, p, r - from);
    }
    r
}

/// Finds the first line feed of `s`.
fn line_end(s: &str) -> (r: usize)
    ensures
        r == position_of_char(s@, '\n'),
        r <= s@.len(),
{
    let n = s.unicode_len();
    let mut r: usize = 0;
    proof {
        assert(s@.skip(0) =~= s@);
    }
    while r < n
        invariant
            r <= n == s@.len(),
            position_of_char(s@, '\n') == r + position_of_char(s@.skip(r as int), '\n'),
        decreases n - r,
    {
        let c = s.get_char(r);
        proof {
            assert(s@.skip(r as int)[0] == c);
            assert(s@.skip(r as int).drop_first() =~= s@.skip(r + 1));
        }
        if c == '\n' {
            return r;
        }
        r += 1;
    }
    proof {
        assert(s@.skip(r as int) =~= Seq::<char>::empty());
    }
    r
}

/// Reads the path that an HTTP request asks for.
pub fn request_path(request: &str) -> (r: Option<String>)
    ensures
        opt_view(r) == requested_path(request@),
{
    let end = line_end(request);
    let ghost line = first_line(request@);
    proof {
        assert(line.subrange(0, end as int) =~= line);
        assert(request@.subrange(0, end as int) =~= line);
    }
    let a = scan(request, 0, end, false);
    proof {
        assert(request@.subrange(a as int, end as int) =~= line.subrange(
            a as int,
            line.len() as int,
        ));
    }
    let b = scan(request, a, end, true);
    proof {
        assert(request@.subrange(b as int, end as int) =~= line.subrange(
            b as int,
            line.len() as int,
        ));
    }
    let c = scan(request, b, end, false);
    proof {
        assert(request@.subrange(c as int, end as int) =~= line.subrange(
            c as int,
            line.len() as int,
        ));
    }
    let d = scan(request, c, end, true);
    if c < end {
        let word = request.substring_char(c, d);
        proof {
            assert(request@.subrange(c as int, d as int) =~= line.subrange(c as int, d as int));
        }
        Some(owned(word))
    } else {
        None
    }
}

/// The text that reports a request without a path.
pub open spec fn request_line_text() -> Seq<char> {
    "failed to parse HTTP request line"@
}

/// What the redirect request grants or refuses, given the request as the
/// listener received it: its path is read, the parameters of the path are
/// parsed, and the parameters are read in order.
pub fn redirect_of_request(request: &str) -> (r: Result<Redirect, String>)
    ensures
        match requested_path(request@) {
            None => r is Err && r->Err_0@ == request_line_text(),
            Some(path) => match url_query_pairs("http://localhost"@ + path) {
                Err(reason) => r is Err && r->Err_0@ == "failed to parse redirect url: "@ + reason,
                Ok(all) => {
                    &&& r is Ok
                    &&& ({
                        let stop = first_index(all, is_error());
                        if stop < all.len() {
                            r->Ok_0 is Refused && r->Ok_0->Refused_0@ == all[stop].1
                        } else {
                            &&& r->Ok_0 is Granted
                            &&& opt_view(r->Ok_0->code) == last_value(all, "code"@)
                            &&& opt_view(r->Ok_0->state) == last_value(all, "state"@)
                        }
                    })
                },
            },
        },
{
    let path = match request_path(request) {
        Some(path) => path,
        None => {
            return Err(owned("failed to parse HTTP request line"));
        },
    };
    let address = owned("http://localhost").concat(path.as_str());
    match query_pairs_of(address.as_str()) {
        Ok(pairs) => Ok(read_redirect(&pairs)),
        Err(reason) => Err(owned("failed to parse redirect url: ").concat(reason.as_str())),
    }
}

/// The text that reports that nobody is signed in.
pub open spec fn signed_out_text() -> Seq<char> {
    "no authentication state available; please sign in"@
}

/// The access token of the stored credential, if there is one.
pub fn current_access_token(record: Option<AuthTokenRecord>) -> (r: Result<String, String>)
    ensures
        match record {
            Some(stored) => r == Ok::<String, String>(stored.access_token),
            None => r is Err && r->Err_0@ == signed_out_text(),
        },
{
    match record {
        Some(stored) => Ok(stored.access_token),
        None => Err(owned("no authentication state available; please sign in")),
    }
}

/// What a refresh needs of the stored credential.
pub struct RefreshInputs {
    pub client_id: String,
    pub refresh_token: String,
    pub scope: Option<String>,
}

/// The text that reports that there is nothing to refresh.
pub open spec fn nothing_stored_text() -> Seq<char> {
    "no persisted authentication state found; please sign in first"@
}

/// The text that reports a credential without refresh token.
pub open spec fn no_refresh_token_text() -> Seq<char> {
    "no refresh token available; interactive authentication required"@
}

/// Picks what a refresh needs out of the stored credential; an error when
/// nothing is stored or no refresh token is.
pub fn refresh_inputs(record: Option<AuthTokenRecord>) -> (r: Result<RefreshInputs, String>)
    ensures
        match record {
            Some(stored) => match stored.refresh_token {
                Some(token) => {
                    &&& r is Ok
                    &&& r->Ok_0.client_id == stored.client_id
                    &&& r->Ok_0.refresh_token == token
                    &&& r->Ok_0.scope == stored.scope
                },
                None => r is Err && r->Err_0@ == no_refresh_token_text(),
            },
            None => r is Err && r->Err_0@ == nothing_stored_text(),
        },
{
    match record {
        Some(stored) => match stored.refresh_token {
            Some(token) => Ok(
                RefreshInputs {
                    client_id: stored.client_id,
                    refresh_token: token,
                    scope: stored.scope,
                },
            ),
            None => Err(owned("no refresh token available; interactive authentication required")),
        },
        None => Err(owned("no persisted authentication state found; please sign in first")),
    }
}

/// Judges the answer of the token endpoint by its status.
pub fn token_endpoint_outcome(code: u16, shown: &str) -> (r: Result<(), String>)
    ensures
        if success(code) {
            r is Ok
        } else {
            r is Err && r->Err_0@ == "token endpoint returned HTTP "@ + shown@
        },
{
    let r = check_success(code, shown, "token endpoint returned HTTP ", "");
    proof {
        reveal_strlit("");
        assert("token endpoint returned HTTP "@ + shown@ + ""@ =~= "token endpoint returned HTTP "@
            + shown@);
    }
    r
}

} // verus!
