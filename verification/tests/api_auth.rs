use skydrivex::api::auth::{
    begin_authorization, browser_response, build_authorize_url, build_code_challenge,
    build_code_verifier,
    check_state, code_exchange_form, code_from_redirect, convert_expires_in,
    current_access_token, join, normalize_scopes, read_redirect, record_from_tokens,
    redirect_of_request, refresh_form, refresh_inputs, request_path, token_endpoint_outcome,
    tokens_from_refresh, tokens_from_response, AuthTokens, FormField, Redirect, StoredAuthState,
    TokenResponse, AUTHORITY,
};
use skydrivex::db::build_record_at;

fn strings(list: &[&str]) -> Vec<String> {
    list.iter().map(|s| s.to_string()).collect()
}

fn pairs(form: &[FormField]) -> Vec<(String, String)> {
    form.iter().map(|f| (f.name.clone(), f.value.clone())).collect()
}

fn field(name: &str, value: &str) -> FormField {
    FormField { name: name.to_string(), value: value.to_string() }
}

fn answer() -> TokenResponse {
    TokenResponse {
        access_token: Some("at".to_string()),
        refresh_token: None,
        expires_in: Some(60),
        id_token: None,
        scope: None,
        token_type: Some("Bearer".to_string()),
        error: None,
        error_description: None,
    }
}

#[test]
fn scopes_are_completed() {
    assert_eq!(normalize_scopes(vec![]), strings(&["User.Read", "offline_access", "openid"]));
    assert_eq!(
        normalize_scopes(strings(&["Files.Read"])),
        strings(&["Files.Read", "offline_access", "openid"])
    );
    assert_eq!(
        normalize_scopes(strings(&["openid", "offline_access"])),
        strings(&["openid", "offline_access"])
    );
    assert_eq!(normalize_scopes(strings(&["openid"])), strings(&["openid", "offline_access"]));
    assert_eq!(
        normalize_scopes(strings(&["OpenID"])),
        strings(&["OpenID", "offline_access", "openid"])
    );
}

#[test]
fn texts_are_joined() {
    assert_eq!(join(&vec![], " "), "");
    assert_eq!(join(&strings(&["a"]), " "), "a");
    assert_eq!(join(&strings(&["a", "", "c"]), ", "), "a, , c");
}

#[test]
fn stored_lifetime_is_read_back() {
    assert_eq!(convert_expires_in(None), None);
    assert_eq!(convert_expires_in(Some(-1)), None);
    assert_eq!(convert_expires_in(Some(0)), Some(0));
    assert_eq!(convert_expires_in(Some(3600)), Some(3600));
}

#[test]
fn stored_state_is_read_from_its_row() {
    let row = build_record_at(
        "app".to_string(),
        "at".to_string(),
        Some("rt".to_string()),
        Some(7),
        Some("id".to_string()),
        None,
        None,
        99,
    );
    let state = StoredAuthState::from(row);
    assert_eq!(state.client_id, "app");
    assert_eq!(state.updated_at_millis, 99);
    assert_eq!(
        state.tokens,
        AuthTokens {
            access_token: "at".to_string(),
            refresh_token: Some("rt".to_string()),
            expires_in: Some(7),
            id_token: Some("id".to_string()),
            scope: None,
            token_type: None,
        }
    );
    assert_eq!(state.clone(), state);
    let row = record_from_tokens("app", &state.tokens);
    assert_eq!(row.client_id, "app");
    assert_eq!(row.access_token, "at");
    assert_eq!(row.expires_in_seconds, Some(7));
    assert_eq!(row.id_token.as_deref(), Some("id"));
}

#[test]
fn tokens_are_read_from_the_answer() {
    let tokens = tokens_from_response(answer()).unwrap();
    assert_eq!(tokens.access_token, "at");
    assert_eq!(tokens.refresh_token, None);
    assert_eq!(tokens.expires_in, Some(60));
    assert_eq!(tokens.token_type.as_deref(), Some("Bearer"));
    let mut refused = answer();
    refused.error = Some("invalid_grant".to_string());
    refused.error_description = Some("expired".to_string());
    assert_eq!(tokens_from_response(refused), Err("invalid_grant: expired".to_string()));
    let mut bare = answer();
    bare.error = Some("invalid_grant".to_string());
    assert_eq!(tokens_from_response(bare), Err("invalid_grant: ".to_string()));
    let mut empty = answer();
    empty.access_token = None;
    assert_eq!(tokens_from_response(empty), Err("missing access_token in response".to_string()));
}

#[test]
fn refresh_keeps_what_the_answer_leaves_out() {
    let tokens = tokens_from_refresh(answer(), "old", Some("a b".to_string())).unwrap();
    assert_eq!(tokens.refresh_token.as_deref(), Some("old"));
    assert_eq!(tokens.scope.as_deref(), Some("a b"));
    let mut full = answer();
    full.refresh_token = Some("new".to_string());
    full.scope = Some("c".to_string());
    let tokens = tokens_from_refresh(full, "old", Some("a b".to_string())).unwrap();
    assert_eq!(tokens.refresh_token.as_deref(), Some("new"));
    assert_eq!(tokens.scope.as_deref(), Some("c"));
    let mut refused = answer();
    refused.error = Some("e".to_string());
    assert_eq!(tokens_from_refresh(refused, "old", None), Err("e: ".to_string()));
    let mut empty = answer();
    empty.access_token = None;
    assert_eq!(
        tokens_from_refresh(empty, "old", None),
        Err("missing access_token in response".to_string())
    );
}

#[test]
fn exchange_form_carries_the_scope_unless_empty() {
    let form = code_exchange_form("app", "a b", "http://localhost:1", "ver", "code");
    assert_eq!(
        pairs(&form),
        vec![
            ("client_id".to_string(), "app".to_string()),
            ("grant_type".to_string(), "authorization_code".to_string()),
            ("code".to_string(), "code".to_string()),
            ("redirect_uri".to_string(), "http://localhost:1".to_string()),
            ("code_verifier".to_string(), "ver".to_string()),
            ("scope".to_string(), "a b".to_string()),
        ]
    );
    assert_eq!(code_exchange_form("app", "", "r", "v", "c").len(), 5);
}

#[test]
fn refresh_form_trims_the_scope() {
    let form = refresh_form("app", "rt", &Some("  a b \n".to_string()));
    assert_eq!(
        pairs(&form),
        vec![
            ("client_id".to_string(), "app".to_string()),
            ("grant_type".to_string(), "refresh_token".to_string()),
            ("refresh_token".to_string(), "rt".to_string()),
            ("scope".to_string(), "a b".to_string()),
        ]
    );
    assert_eq!(refresh_form("app", "rt", &Some("   ".to_string())).len(), 3);
    assert_eq!(refresh_form("app", "rt", &None).len(), 3);
}

#[test]
fn state_of_the_redirect_is_checked() {
    assert_eq!(check_state(&Some("s".to_string()), "s"), Ok(()));
    let mismatch = Err("state mismatch in authorization response".to_string());
    assert_eq!(check_state(&Some("t".to_string()), "s"), mismatch);
    assert_eq!(check_state(&None, "s"), mismatch);
}

#[test]
fn redirect_parameters_are_read_in_order() {
    let granted = read_redirect(&vec![
        field("code", "first"),
        field("x", "y"),
        field("state", "st"),
        field("code", "second"),
    ]);
    assert_eq!(
        code_from_redirect(granted),
        Ok(("second".to_string(), Some("st".to_string())))
    );
    let refused = read_redirect(&vec![
        field("code", "c"),
        field("error", "access_denied"),
        field("error", "later"),
    ]);
    assert!(matches!(&refused, Redirect::Refused(e) if e == "access_denied"));
    assert_eq!(
        code_from_redirect(refused),
        Err("authorization error: access_denied".to_string())
    );
    let nothing = read_redirect(&vec![field("state", "s")]);
    assert_eq!(
        code_from_redirect(nothing),
        Err("authorization code missing in redirect".to_string())
    );
    assert_eq!(
        code_from_redirect(read_redirect(&vec![field("code", "c")])),
        Ok(("c".to_string(), None))
    );
}

#[test]
fn path_is_the_second_word_of_the_request_line() {
    assert_eq!(
        request_path("GET /?code=abc&state=s HTTP/1.1\r\nHost: localhost\r\n\r\n").as_deref(),
        Some("/?code=abc&state=s")
    );
    assert_eq!(request_path("  GET \t /x").as_deref(), Some("/x"));
    assert_eq!(request_path("GET /only\r\n").as_deref(), Some("/only"));
    assert_eq!(request_path("GET\r\n/next-line HTTP/1.1"), None);
    assert_eq!(request_path("GET"), None);
    assert_eq!(request_path("GET   "), None);
    assert_eq!(request_path(""), None);
    assert_eq!(request_path("\nGET /x"), None);
}

#[test]
fn redirect_is_read_from_the_request() {
    let redirect =
        redirect_of_request("GET /?code=a%20b&state=x%2By&extra=1 HTTP/1.1\r\n\r\n").unwrap();
    assert_eq!(
        code_from_redirect(redirect),
        Ok(("a b".to_string(), Some("x+y".to_string())))
    );
    let refused = redirect_of_request("GET /cb?error=denied HTTP/1.1").unwrap();
    assert!(matches!(refused, Redirect::Refused(e) if e == "denied"));
    assert_eq!(
        redirect_of_request("nonsense").err(),
        Some("failed to parse HTTP request line".to_string())
    );
    let none = redirect_of_request("GET / HTTP/1.1").unwrap();
    assert!(matches!(none, Redirect::Granted { code: None, state: None }));
}

#[test]
fn verifier_is_64_letters_and_digits() {
    let a = build_code_verifier();
    let b = build_code_verifier();
    assert_eq!(a.chars().count(), 64);
    assert!(a.chars().all(|c| c.is_ascii_alphanumeric()));
    assert_ne!(a, b);
}

#[test]
fn challenge_is_the_encoded_digest_of_the_verifier() {
    assert_eq!(
        build_code_challenge("dBjftJeZ4CVP-mB92K27uhbUJU1p1r_wW1gFWFOEjXk"),
        Ok("E9Melhoa2OwvFrEMTJguCHaoeK1t8URWbuGJSstw-cM".to_string())
    );
    assert_eq!(
        build_code_challenge(""),
        Ok("47DEQpj8HBSa-_TImW-5JCeuQeRkm5NMpJWZG3hSuFU".to_string())
    );
}

#[test]
fn authorization_request_is_prepared() {
    let request = begin_authorization("my app", strings(&["Files.Read"]), 8123).unwrap();
    assert_eq!(request.scope, "Files.Read offline_access openid");
    assert_eq!(request.redirect_uri, "http://localhost:8123");
    assert_eq!(request.code_verifier.len(), 64);
    assert_eq!(request.state.len(), 32);
    let challenge = build_code_challenge(&request.code_verifier).unwrap();
    let expected = format!(
        "{AUTHORITY}/authorize?client_id=my+app&response_type=code&response_mode=query\
         &redirect_uri=http%3A%2F%2Flocalhost%3A8123&scope=Files.Read+offline_access+openid\
         &code_challenge={challenge}&code_challenge_method=S256&state={}",
        request.state
    );
    assert_eq!(request.authorize_url, expected);
    let other = begin_authorization("my app", vec![], 0).unwrap();
    assert_ne!(other.state, request.state);
    assert_eq!(other.redirect_uri, "http://localhost:0");
}

#[test]
fn browser_is_shown_a_page() {
    let response = browser_response("Done", "Bye \u{4f60}");
    let body =
        "<html><head><meta charset=\"utf-8\"><title>Done</title></head><body><h1>Done</h1><p>Bye \u{4f60}</p></body></html>";
    assert_eq!(
        response,
        format!(
            "HTTP/1.1 200 OK\r\nContent-Type: text/html; charset=utf-8\r\nContent-Length: {}\r\nConnection: close\r\n\r\n{}",
            body.len(),
            body
        )
    );
}

#[test]
fn stored_credential_is_picked_apart() {
    let row = build_record_at(
        "app".to_string(),
        "at".to_string(),
        Some("rt".to_string()),
        None,
        None,
        Some("s".to_string()),
        None,
        0,
    );
    assert_eq!(current_access_token(Some(row.clone())), Ok("at".to_string()));
    assert_eq!(
        current_access_token(None),
        Err("no authentication state available; please sign in".to_string())
    );
    let inputs = refresh_inputs(Some(row.clone())).unwrap();
    assert_eq!(inputs.client_id, "app");
    assert_eq!(inputs.refresh_token, "rt");
    assert_eq!(inputs.scope.as_deref(), Some("s"));
    let mut without = row;
    without.refresh_token = None;
    assert_eq!(
        refresh_inputs(Some(without)).err(),
        Some("no refresh token available; interactive authentication required".to_string())
    );
    assert_eq!(
        refresh_inputs(None).err(),
        Some("no persisted authentication state found; please sign in first".to_string())
    );
}

#[test]
fn token_endpoint_status_is_judged() {
    assert_eq!(token_endpoint_outcome(200, "200 OK"), Ok(()));
    assert_eq!(
        token_endpoint_outcome(400, "400 Bad Request"),
        Err("token endpoint returned HTTP 400 Bad Request".to_string())
    );
    assert_eq!(
        token_endpoint_outcome(401, "401 Unauthorized"),
        Err("token endpoint returned HTTP 401 Unauthorized".to_string())
    );
}

#[test]
fn authorize_address_encodes_its_parameters() {
    assert_eq!(
        build_authorize_url("id", "a b", "http://localhost:5", "ch-_", "s&t"),
        Ok(format!(
            "{AUTHORITY}/authorize?client_id=id&response_type=code&response_mode=query\
             &redirect_uri=http%3A%2F%2Flocalhost%3A5&scope=a+b&code_challenge=ch-_\
             &code_challenge_method=S256&state=s%26t"
        ))
    );
}
