use itzon::account::Account;
use itzon::error::ItzonError;
use itzon::oauth::accept_redirect;
use itzon::oauth::access_token;
use itzon::oauth::account_name;
use itzon::oauth::authorization_url;
use itzon::oauth::base64_url;
use itzon::oauth::callback_code;
use itzon::oauth::callback_response;
use itzon::oauth::chat_credential;
use itzon::oauth::configured_client_id;
use itzon::oauth::connected_token;
use itzon::oauth::create_session;
use itzon::oauth::default_access_lifetime;
use itzon::oauth::default_refresh_lifetime;
use itzon::oauth::disconnect;
use itzon::oauth::exchange_form;
use itzon::oauth::has_account;
use itzon::oauth::has_required_scopes;
use itzon::oauth::is_configured;
use itzon::oauth::parse_token_response;
use itzon::oauth::random_base64_url;
use itzon::oauth::redirect_uri;
use itzon::oauth::renew;
use itzon::oauth::renewal_form;
use itzon::oauth::required_client_id;
use itzon::oauth::session_from;
use itzon::oauth::store;
use itzon::oauth::valid_client_id;
use itzon::oauth::valid_token_shape;
use itzon::oauth::valid_username;
use itzon::oauth::AccessStep;
use itzon::oauth::OAuthToken;
use itzon::oauth::TokenAnswer;
use itzon::oauth::TokenResponse;
use sha2::Digest;
use sha2::Sha256;

const CLIENT: &str = "0123456789abcdef0123456789abcdef";
const SCOPES: &str = "identity chat api:read";

#[test]
fn creates_rfc7636_s256_session() {
    let session = create_session();
    assert_eq!(session.verifier.len(), 43);
    assert_eq!(session.challenge.len(), 43);
    assert_eq!(session.state.len(), 43);
    assert_eq!(
        session.challenge,
        base64_url(&Sha256::digest(session.verifier.as_bytes()))
    );
}

#[test]
fn the_challenge_of_the_standard_is_met() {
    let session = session_from(
        "dBjftJeZ4CVP-mB92K27uhbUJU1p1r_wW1gFWFOEjXk".to_string(),
        "state".to_string(),
    );
    assert_eq!(
        session.challenge,
        "E9Melhoa2OwvFrEMTJguCHaoeK1t8URWbuGJSstw-cM"
    );
    assert_eq!(session.state, "state");
    assert_eq!(base64_url(&[]), "");
    assert_eq!(base64_url(&[0xfb]), "-w");
    assert_eq!(base64_url(&[0xff, 0xff]), "__8");
    assert_eq!(base64_url(&[1, 2, 3]), "AQID");
    assert_eq!(random_base64_url(3).len(), 4);
    assert_ne!(random_base64_url(32), random_base64_url(32));
    assert_ne!(create_session().state, create_session().state);
}

#[test]
fn builds_public_client_authorization_url() {
    let session = create_session();
    let url = authorization_url(
        "0123456789abcdef0123456789abcdef",
        "http://127.0.0.1:49152/oauth/itzon/callback",
        &session,
    )
    .unwrap();
    let parsed = url::Url::parse(&url).unwrap();
    let query = parsed
        .query_pairs()
        .collect::<std::collections::HashMap<_, _>>();
    assert_eq!(parsed.scheme(), "https");
    assert_eq!(parsed.host_str(), Some("itzon.tv"));
    assert_eq!(query.get("scope").map(|value| value.as_ref()), Some(SCOPES));
    assert_eq!(
        query
            .get("code_challenge_method")
            .map(|value| value.as_ref()),
        Some("S256")
    );
    assert!(!query.contains_key("client_secret"));
    assert_eq!(parsed.path(), "/oauth/authorize");
    assert_eq!(query.len(), 7);
    assert_eq!(
        query.get("redirect_uri").map(|value| value.as_ref()),
        Some("http://127.0.0.1:49152/oauth/itzon/callback")
    );
    assert_eq!(
        query.get("code_challenge").map(|value| value.as_ref()),
        Some(session.challenge.as_str())
    );
}

#[test]
fn callback_requires_matching_state_and_exact_path() {
    assert_eq!(
        callback_code("/oauth/itzon/callback?code=abc&state=expected", "expected").unwrap(),
        Some("abc".to_string())
    );
    assert!(callback_code("/oauth/itzon/callback?code=abc&state=wrong", "expected").is_err());
    assert_eq!(callback_code("/favicon.ico", "expected").unwrap(), None);
}

#[test]
fn callbacks_say_what_went_wrong() {
    let error = |query: &str| {
        callback_code(&format!("/oauth/itzon/callback?{query}"), "s")
            .unwrap_err()
            .message()
    };
    assert_eq!(error("code=abc"), "itzon authorization state mismatch");
    assert_eq!(
        error("state=s&error=access_denied&code=abc"),
        "itzon authorization was not completed: access_denied"
    );
    assert_eq!(error("state=s"), "itzon authorization returned no code");
    assert_eq!(error("state=s&code="), "itzon authorization returned no code");
    assert_eq!(
        callback_code("/oauth/itzon/callback?state=x&state=s&code=a&code=b%20c", "s").unwrap(),
        Some("b c".to_string())
    );
    assert_eq!(callback_code(":bad", "s").unwrap_err().message(), "invalid port number");
}

#[test]
fn the_browser_is_answered() {
    let request = |target: &str| format!("GET {target} HTTP/1.1\r\nHost: x\r\n\r\n").into_bytes();
    let (response, end) =
        accept_redirect(&request("/oauth/itzon/callback?code=abc&state=s"), "s");
    assert!(response.starts_with("HTTP/1.1 200 OK\r\n"));
    assert!(response.contains("Return to StreamNook"));
    assert_eq!(end.unwrap().unwrap(), "abc");
    let (response, end) = accept_redirect(&request("/favicon.ico"), "s");
    assert!(response.starts_with("HTTP/1.1 404 Error\r\n"));
    assert!(end.is_none());
    let (response, end) = accept_redirect(&request("/oauth/itzon/callback?state=t"), "s");
    assert!(response.starts_with("HTTP/1.1 400 Error\r\n"));
    assert_eq!(
        end.unwrap().unwrap_err().message(),
        "itzon authorization state mismatch"
    );
    let (response, end) = accept_redirect(b"POST / HTTP/1.1\r\n", "s");
    assert!(response.starts_with("HTTP/1.1 404"));
    assert!(end.is_none());
    let (_, end) = accept_redirect(b"GET /oauth/itzon/callback?state=s&code=\xff\xfe x", "s");
    assert_eq!(end.unwrap().unwrap(), "\u{fffd}\u{fffd}");
}

#[test]
fn responses_tell_their_length_in_bytes() {
    let response = callback_response(200, "\u{fc}");
    let (head, body) = response.split_once("\r\n\r\n").unwrap();
    assert!(head.contains(&format!("Content-Length: {}", body.len())));
    assert!(head.ends_with("Connection: close"));
    assert!(body.contains("<h2>\u{fc}</h2>"));
}

#[test]
fn validates_client_id_and_required_scopes() {
    assert!(valid_client_id("0123456789abcdef0123456789abcdef"));
    assert!(!valid_client_id("not-a-client-id"));
    assert!(has_required_scopes("api:read identity chat"));
    assert!(!has_required_scopes("identity api:read"));
}

#[test]
fn client_ids_are_trimmed() {
    assert_eq!(
        configured_client_id(Some(" 0123456789abcdef0123456789abcdef\n")),
        Some(CLIENT)
    );
    assert_eq!(configured_client_id(Some("g123456789abcdef0123456789abcdef")), None);
    assert_eq!(configured_client_id(None), None);
    assert_eq!(required_client_id(Some(CLIENT)).unwrap(), CLIENT);
    assert_eq!(
        required_client_id(None).unwrap_err().message(),
        "itzon OAuth registration is pending; ITZON_OAUTH_CLIENT_ID is not configured"
    );
    assert!(is_configured(Some(CLIENT)));
    assert!(!is_configured(None));
    assert_eq!(redirect_uri(49152), "http://127.0.0.1:49152/oauth/itzon/callback");
    assert!(valid_username("a-B_1"));
    assert!(!valid_username(""));
    assert!(!valid_username("a b"));
    assert!(!valid_username(&"a".repeat(65)));
}

fn token(expires_at: u64, refresh_expires_at: u64) -> OAuthToken {
    OAuthToken {
        access_token: "at".to_string(),
        refresh_token: "rt".to_string(),
        client_id: CLIENT.to_string(),
        scope: SCOPES.to_string(),
        username: "user".to_string(),
        expires_at,
        refresh_expires_at,
    }
}

fn response(scope: &str) -> TokenResponse {
    TokenResponse {
        access_token: "at2".to_string(),
        refresh_token: "rt2".to_string(),
        expires_in: 100,
        refresh_expires_in: 0,
        scope: scope.to_string(),
    }
}

#[test]
fn only_complete_tokens_are_held() {
    let mut account = Account::new(Some(OAuthToken {
        scope: "chat".to_string(),
        ..token(1, 1)
    }));
    assert!(!has_account(&account));
    assert_eq!(account_name(&account), None);
    let before = account.revision();
    let nameless = OAuthToken { username: String::new(), ..token(1, 1) };
    let refused = store(&mut account, nameless, Ok(()));
    assert_eq!(
        refused.unwrap_err().message(),
        "itzon returned an incomplete OAuth token"
    );
    assert_eq!(account.revision(), before);
    let lost = store(&mut account, token(1, 1), Err("no store".to_string()));
    assert_eq!(lost.unwrap_err().message(), "no store");
    assert!(!has_account(&account));
    assert_eq!(account.revision(), before);
    assert!(store(&mut account, token(1, 1), Ok(())).is_ok());
    assert!(has_account(&account));
    assert_ne!(account.revision(), before);
    assert_eq!(account_name(&account).as_deref(), Some("user"));
    assert!(valid_token_shape(account.token().unwrap()));
    assert!(disconnect(&mut account));
    assert!(!disconnect(&mut account));
    assert!(!has_account(&account));
    assert!(has_account(&Account::new(Some(token(1, 1)))));
}

#[test]
fn tokens_are_used_renewed_or_given_up() {
    let account = Account::new(Some(token(1000, 2000)));
    assert!(matches!(
        access_token(&Account::new(None), 0),
        AccessStep::Missing
    ));
    assert!(matches!(access_token(&account, 939), AccessStep::Use(token) if token.access_token == "at"));
    assert!(matches!(access_token(&account, 940), AccessStep::Renew { .. }));
    assert!(matches!(access_token(&account, 1999), AccessStep::Renew { .. }));
    assert!(matches!(access_token(&account, 2000), AccessStep::Expired));
    match access_token(&account, 1000) {
        AccessStep::Renew { current, form } => {
            assert_eq!(current.username, "user");
            assert_eq!(form, renewal_form(CLIENT, "rt"));
            assert_eq!(form[0], ("grant_type".to_string(), "refresh_token".to_string()));
        }
        _ => panic!("not renewed"),
    }
    let credential = chat_credential(token(1, 1));
    assert_eq!(credential.access_token, "at");
    assert_eq!(credential.username, "user");
}

fn refused(error: &str, description: &str) -> TokenAnswer {
    TokenAnswer::Refused {
        status: "400 Bad Request".to_string(),
        error: error.to_string(),
        error_description: description.to_string(),
    }
}

#[test]
fn renewed_tokens_keep_name_and_scopes() {
    let mut account = Account::new(Some(token(1000, 2000)));
    let current = token(1000, 2000);
    let next = renew(&mut account, &current, TokenAnswer::Granted(response(" ")), 50).unwrap();
    assert_eq!(next.scope, SCOPES);
    assert_eq!(next.username, "user");
    assert_eq!(next.access_token, "at2");
    assert_eq!(next.expires_at, 150);
    assert_eq!(next.refresh_expires_at, 51);
    assert!(valid_token_shape(&next));
    let late = renew(&mut account, &current, TokenAnswer::Granted(response("")), u64::MAX).unwrap();
    assert_eq!(late.expires_at, u64::MAX);
    assert!(renew(&mut account, &current, refused("server_error", ""), 0).is_err());
    assert!(has_account(&account));
    let over = renew(&mut account, &current, refused("invalid_grant", "gone"), 0);
    assert_eq!(
        over.unwrap_err().message(),
        "itzon OAuth error (HTTP 400 Bad Request): invalid_grant: gone"
    );
    assert!(!has_account(&account));
}

#[test]
fn answers_of_the_token_endpoint_are_read() {
    let detail = |error: &str, description: &str| {
        parse_token_response(refused(error, description), None)
            .unwrap_err()
            .message()
    };
    assert_eq!(detail("e", ""), "itzon OAuth error (HTTP 400 Bad Request): e");
    assert_eq!(detail("", "d"), "itzon OAuth error (HTTP 400 Bad Request): d");
    assert_eq!(
        detail("", ""),
        "itzon OAuth error (HTTP 400 Bad Request): OAuth request rejected"
    );
    assert!(matches!(
        parse_token_response(TokenAnswer::Unreadable, None),
        Err(ItzonError::InvalidTokenResponse)
    ));
    assert!(matches!(
        parse_token_response(TokenAnswer::Granted(response("")), None),
        Err(ItzonError::IncompleteToken)
    ));
    assert!(matches!(
        parse_token_response(TokenAnswer::Granted(response("chat")), Some(SCOPES)),
        Err(ItzonError::IncompleteToken)
    ));
    let read = parse_token_response(TokenAnswer::Granted(response(SCOPES)), None).unwrap();
    assert_eq!(read.refresh_token, "rt2");
    assert_eq!(default_access_lifetime(), 60 * 60);
    assert_eq!(default_refresh_lifetime(), 30 * 24 * 60 * 60);
}

#[test]
fn a_sign_in_makes_a_complete_token() {
    let made = connected_token(response(SCOPES), CLIENT, " User-1 ", 10).unwrap();
    assert_eq!(made.username, "user-1");
    assert_eq!(made.client_id, CLIENT);
    assert_eq!(made.expires_at, 110);
    assert!(valid_token_shape(&made));
    assert_eq!(
        connected_token(response(SCOPES), CLIENT, "a b", 10).unwrap_err().message(),
        "itzon returned an invalid OAuth username"
    );
    let form = exchange_form(CLIENT, "code", "verifier", "uri");
    assert_eq!(form.len(), 5);
    assert_eq!(form[0].1, "authorization_code");
    assert_eq!(form[3], ("code_verifier".to_string(), "verifier".to_string()));
}
