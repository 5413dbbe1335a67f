use itzon::account::Account;
use itzon::account::ItzonSession;
use itzon::auth::account_name;
use itzon::auth::auth_method;
use itzon::auth::chat_auth;
use itzon::auth::chat_cookie_header;
use itzon::auth::check_cookies;
use itzon::auth::clear_memory_session_if_revision;
use itzon::auth::ensure_cookie_valid;
use itzon::auth::is_connected;
use itzon::auth::normalize_following;
use itzon::auth::oauth_configured;
use itzon::auth::revision;
use itzon::auth::validate_session;
use itzon::auth::CookieStep;
use itzon::auth::SessionAnswer;
use itzon::auth::SessionInfo;
use itzon::auth::ValidSession;
use itzon::auth::VALIDATION_TTL_MILLIS;
use itzon::cookies::apply_delta;
use itzon::cookies::cookie_header;
use itzon::cookies::keep_cookies;
use itzon::cookies::merge_response_cookies;
use itzon::error::ItzonError;
use itzon::follows::after_check;
use itzon::follows::after_cookie_answer;
use itzon::follows::after_restore;
use itzon::follows::after_token_answer;
use itzon::follows::followed_usernames;
use itzon::follows::FollowAnswer;
use itzon::follows::FollowStep;
use itzon::oauth::ChatCredential;
use itzon::signin::connect_cookie;
use itzon::signin::disconnect_cookie;
use itzon::signin::needs_restore;
use itzon::signin::restore_cookie;
use itzon::signin::SignIn;
use itzon::signin::SignInAction;
use itzon::signin::SignInEvent;
use itzon::signin::SignInPurpose;
use itzon::text_map::TextMap;

fn cookies(pairs: &[(&str, &str)]) -> TextMap<String> {
    let mut map = TextMap::new();
    for (name, value) in pairs {
        map.insert(name.to_string(), value.to_string());
    }
    map
}

fn test_session(username: &str) -> ItzonSession {
    ItzonSession {
        origin_cookies: cookies(&[("itzon_session", "test")]),
        chat_cookies: cookies(&[("itzon_session", "test")]),
        username: username.to_string(),
        token: "test".to_string(),
        validated_at: 0,
    }
}

#[test]
fn cookie_header_is_stable_and_does_not_log_attributes() {
    let cookies = cookies(&[("z", "2"), ("a", "1")]);
    assert_eq!(cookie_header(&cookies), "a=1; z=2");
}

#[test]
fn cookie_headers_do_not_rest_on_the_order_of_cookies() {
    let one = cookies(&[("a", "1"), ("m", ""), ("z", "2")]);
    let other = cookies(&[("z", "0"), ("m", ""), ("a", "1"), ("z", "2")]);
    assert_eq!(cookie_header(&one), "a=1; m=; z=2");
    assert_eq!(cookie_header(&one), cookie_header(&other));
    assert_eq!(cookie_header(&cookies(&[])), "");
}

#[test]
fn renewed_domain_cookie_is_shared_with_chat_edge() {
    let headers = vec![
        "itzon_session=rotated; Domain=.itzon.tv; Path=/; Secure; HttpOnly".to_string(),
        "origin_only=value; Path=/; Secure".to_string(),
    ];
    let mut origin = TextMap::new();
    let chat = merge_response_cookies(&headers, &mut origin);
    assert_eq!(
        origin.get("itzon_session").map(String::as_str),
        Some("rotated")
    );
    assert_eq!(origin.get("origin_only").map(String::as_str), Some("value"));
    assert_eq!(
        chat.shared_upserts.get("itzon_session").map(String::as_str),
        Some("rotated")
    );
    assert!(!chat.shared_upserts.contains_key("origin_only"));
}

#[test]
fn deleted_domain_cookie_is_removed_from_origin_and_chat_edge() {
    let headers = vec![
        "itzon_session=; Domain=.itzon.tv; Path=/; Max-Age=0; Secure; HttpOnly".to_string(),
    ];
    let mut origin = cookies(&[("itzon_session", "old")]);
    let delta = merge_response_cookies(&headers, &mut origin);
    assert!(!origin.contains_key("itzon_session"));
    assert!(delta.shared_deletes.contains_key("itzon_session"));
    assert!(!delta.shared_upserts.contains_key("itzon_session"));
}

#[test]
fn changes_of_cookies_are_applied_deletions_first() {
    let headers = vec![
        "a=; domain=itzon.tv; max-age=0".to_string(),
        "a=2; DOMAIN=itzon.tv".to_string(),
        " b =3 ; domain=..itzon.tv".to_string(),
        "c=4; domain=evil.tv".to_string(),
        "broken".to_string(),
    ];
    let mut origin = cookies(&[("a", "1")]);
    let delta = merge_response_cookies(&headers, &mut origin);
    assert_eq!(cookie_header(&origin), "a=2; b=3 ; c=4");
    let mut chat = cookies(&[("a", "0"), ("d", "5")]);
    apply_delta(&mut chat, &delta);
    assert_eq!(cookie_header(&chat), "a=2; b=3 ; d=5");
}

#[test]
fn cookies_without_a_name_or_a_value_are_left() {
    let pair = |name: &str, value: &str| (name.to_string(), value.to_string());
    let kept = keep_cookies(&vec![pair("a", "1"), pair("", "2"), pair("b", ""), pair("a", "3")]);
    assert_eq!(cookie_header(&kept), "a=3");
}

#[test]
fn following_usernames_are_normalized_and_deduplicated() {
    assert_eq!(
        normalize_following(vec![
            " Arcade ".to_string(),
            "arcade".to_string(),
            "Grandpa-Chang".to_string(),
            "bad/name".to_string(),
            "".to_string(),
        ]),
        vec!["arcade".to_string(), "grandpa-chang".to_string()]
    );
}

#[test]
fn following_is_in_order_whatever_the_order_told() {
    let list = |names: &[&str]| normalize_following(names.iter().map(|n| n.to_string()).collect());
    assert_eq!(list(&["b", "a", "B", "a_1"]), vec!["a", "a_1", "b"]);
    assert_eq!(list(&["a_1", "b", "a"]), list(&["a", "b", "a_1", "b"]));
    assert!(list(&[&"x".repeat(65)]).is_empty());
    assert_eq!(list(&[&"x".repeat(64)]).len(), 1);
}

#[test]
fn following_taken_twice_stays_the_same() {
    let once = normalize_following(
        [" Zed", "\u{212a}arl", "a-B", "\u{130}x", "zed"].iter().map(|n| n.to_string()).collect(),
    );
    assert_eq!(once, vec!["a-b", "karl", "zed"]);
    assert_eq!(normalize_following(once.clone()), once);
}

#[test]
fn expiry_clears_only_the_session_revision_that_was_validated() {
    let mut account = Account::new(None);
    account.begin_session(test_session("first"));
    let expired_revision = revision(&account);
    assert!(clear_memory_session_if_revision(&mut account, expired_revision));
    assert!(!is_connected(&account));

    account.begin_session(test_session("replacement"));
    assert!(!clear_memory_session_if_revision(&mut account, expired_revision));
    assert_eq!(account_name(&account).as_deref(), Some("replacement"));

    let current_revision = revision(&account);
    assert!(clear_memory_session_if_revision(&mut account, current_revision));
    assert!(!is_connected(&account));
}

#[test]
fn every_exchange_changes_the_revision() {
    let mut account = Account::new(None);
    let first = revision(&account);
    account.begin_session(test_session("a"));
    let second = revision(&account);
    assert!(account.end_session().is_some());
    let third = revision(&account);
    assert!(account.end_session().is_none());
    assert_eq!(revision(&account), third);
    assert!(first != second && second != third);
}

#[test]
fn the_way_of_signing_in_is_named() {
    let id = Some(" 0123456789abcdef0123456789abcdef ");
    let mut account = Account::new(None);
    assert_eq!(auth_method(&account, None), "registration-pending");
    assert_eq!(auth_method(&account, id), "oauth-ready");
    assert!(oauth_configured(id));
    assert!(!oauth_configured(Some("short")));
    account.begin_session(test_session("a"));
    assert_eq!(auth_method(&account, id), "website-session");
    assert!(is_connected(&account));
}

#[test]
fn chat_signs_in_with_the_token_or_else_the_cookies() {
    let mut account = Account::new(None);
    account.begin_session(test_session("a"));
    let credential = ChatCredential {
        access_token: "at".to_string(),
        username: "user".to_string(),
    };
    let auth = chat_auth(&account, Some(credential), true);
    assert_eq!(auth.pass.as_deref(), Some("at"));
    assert_eq!(auth.nick.as_deref(), Some("user"));
    assert_eq!(auth.cookie_header, None);
    let auth = chat_auth(&account, None, true);
    assert_eq!(auth.pass, None);
    assert_eq!(auth.cookie_header.as_deref(), Some("itzon_session=test"));
    assert_eq!(chat_auth(&account, None, false).cookie_header, None);
    assert_eq!(
        chat_cookie_header(&account).as_deref(),
        Some("itzon_session=test")
    );
    account.begin_session(ItzonSession {
        chat_cookies: cookies(&[]),
        ..test_session("b")
    });
    assert_eq!(chat_cookie_header(&account), None);
}

fn told(kind: &str, username: &str, set_cookies: &[&str]) -> SessionAnswer {
    SessionAnswer::Told {
        set_cookies: set_cookies.iter().map(|raw| raw.to_string()).collect(),
        info: Some(SessionInfo {
            kind: kind.to_string(),
            username: username.to_string(),
            token: "tok".to_string(),
        }),
    }
}

fn message(result: Result<ValidSession, ItzonError>) -> String {
    result.unwrap_err().message()
}

#[test]
fn sessions_are_valid_for_users_only() {
    let valid = validate_session(
        cookies(&[("a", "1")]),
        told("admin", "Name", &["a=2; domain=itzon.tv"]),
    )
    .unwrap();
    assert_eq!(valid.info.username, "Name");
    assert_eq!(cookie_header(&valid.origin_cookies), "a=2");
    assert_eq!(
        valid.chat_delta.shared_upserts.get("a").map(String::as_str),
        Some("2")
    );
    assert!(validate_session(cookies(&[]), told("user", "n", &[])).is_ok());
    assert_eq!(
        message(validate_session(cookies(&[]), told("guest", "n", &[]))),
        "itzon did not confirm a user account"
    );
    assert_eq!(
        message(validate_session(cookies(&[]), told("user", "  ", &[]))),
        "itzon did not confirm a user account"
    );
    assert_eq!(
        message(validate_session(
            cookies(&[]),
            SessionAnswer::Rejected { status: "401 Unauthorized".to_string() }
        )),
        "itzon session returned HTTP 401 Unauthorized"
    );
    assert_eq!(
        message(validate_session(cookies(&[]), SessionAnswer::Failed)),
        "itzon session check failed"
    );
    assert_eq!(
        message(validate_session(
            cookies(&[]),
            SessionAnswer::Told { set_cookies: vec![], info: None }
        )),
        "invalid itzon session response"
    );
}

#[test]
fn a_session_is_asked_about_after_its_time() {
    let mut account = Account::new(None);
    assert!(matches!(check_cookies(&account, 0), CookieStep::Missing));
    account.begin_session(test_session("a"));
    assert!(matches!(
        check_cookies(&account, VALIDATION_TTL_MILLIS - 1),
        CookieStep::Valid
    ));
    let asked = match check_cookies(&account, VALIDATION_TTL_MILLIS) {
        CookieStep::Ask { cookies, revision } => {
            assert_eq!(cookie_header(&cookies), "itzon_session=test");
            revision
        }
        _ => panic!("nothing asked"),
    };
    let valid = validate_session(
        cookies(&[("itzon_session", "test")]),
        told("user", "renamed", &["itzon_session=new; domain=itzon.tv"]),
    );
    assert!(ensure_cookie_valid(&mut account, asked, valid, 1_000_000));
    assert_eq!(account_name(&account).as_deref(), Some("renamed"));
    assert_eq!(
        chat_cookie_header(&account).as_deref(),
        Some("itzon_session=new")
    );
    assert_eq!(revision(&account), asked);
    assert!(matches!(check_cookies(&account, 1_000_001), CookieStep::Valid));
}

#[test]
fn answers_about_other_sessions_change_nothing() {
    let mut account = Account::new(None);
    account.begin_session(test_session("first"));
    let asked = revision(&account);
    account.begin_session(test_session("second"));
    assert!(ensure_cookie_valid(
        &mut account,
        asked,
        Err(ItzonError::NoUserAccount),
        5
    ));
    assert_eq!(account_name(&account).as_deref(), Some("second"));
    let now = revision(&account);
    assert!(!ensure_cookie_valid(
        &mut account,
        now,
        Err(ItzonError::NoUserAccount),
        5
    ));
    assert!(!is_connected(&account));
}

#[test]
fn follows_are_asked_for_with_the_token_and_then_the_session() {
    let mut account = Account::new(None);
    let credential = ChatCredential {
        access_token: "at".to_string(),
        username: "user".to_string(),
    };
    assert!(matches!(
        followed_usernames(&account, Some(credential)),
        FollowStep::AskWithToken { access_token } if access_token == "at"
    ));
    assert!(matches!(
        followed_usernames(&account, None),
        FollowStep::RestoreSession
    ));
    assert!(matches!(
        after_token_answer(&account, FollowAnswer::Rejected { status: 401 }),
        FollowStep::Done(Err(ItzonError::OAuthFollowsRejected))
    ));
    assert!(matches!(
        after_token_answer(&account, FollowAnswer::Rejected { status: 500 }),
        FollowStep::Done(Err(ItzonError::OAuthFollowsRejected))
    ));
    assert!(matches!(
        after_token_answer(&account, FollowAnswer::Failed),
        FollowStep::Done(Err(ItzonError::OAuthFollowsFailed))
    ));
    assert!(matches!(
        after_token_answer(
            &account,
            FollowAnswer::Told { set_cookies: vec![], following: None }
        ),
        FollowStep::Done(Err(ItzonError::InvalidOAuthFollows))
    ));
    assert!(matches!(
        after_token_answer(
            &account,
            FollowAnswer::Told {
                set_cookies: vec![],
                following: Some(vec!["B".to_string(), "a".to_string()])
            }
        ),
        FollowStep::Done(Ok(list)) if list == vec!["a", "b"]
    ));
    assert!(matches!(after_restore(true), FollowStep::CheckSession { token_refused: false }));
    assert!(matches!(after_restore(false), FollowStep::Done(Ok(list)) if list.is_empty()));
    assert!(matches!(
        after_check(&account, false, true),
        FollowStep::Done(Err(ItzonError::SessionUnavailable))
    ));
    assert!(matches!(
        after_check(&account, true, true),
        FollowStep::Done(Err(ItzonError::OAuthFollowsRejected))
    ));
    account.begin_session(test_session("a"));
    assert!(matches!(
        after_token_answer(&account, FollowAnswer::Rejected { status: 403 }),
        FollowStep::CheckSession { token_refused: true }
    ));
    for status in [400, 404, 500] {
        assert!(matches!(
            after_token_answer(&account, FollowAnswer::Rejected { status }),
            FollowStep::Done(Err(ItzonError::OAuthFollowsRejected))
        ));
    }
    assert!(matches!(
        followed_usernames(&account, None),
        FollowStep::CheckSession { token_refused: false }
    ));
    assert!(matches!(
        after_check(&account, false, false),
        FollowStep::Done(Ok(list)) if list.is_empty()
    ));
    assert!(matches!(
        after_check(&account, true, false),
        FollowStep::Done(Err(ItzonError::OAuthFollowsRejected))
    ));
    for token_refused in [false, true] {
        assert!(matches!(
            after_check(&account, token_refused, true),
            FollowStep::AskWithCookies { header, .. } if header == "itzon_session=test"
        ));
    }
}

#[test]
fn follows_renew_or_end_the_session() {
    let mut account = Account::new(None);
    account.begin_session(test_session("a"));
    let asked = revision(&account);
    let list = after_cookie_answer(
        &mut account,
        cookies(&[("itzon_session", "test")]),
        asked,
        FollowAnswer::Told {
            set_cookies: vec!["itzon_session=n; domain=itzon.tv".to_string()],
            following: Some(vec!["X".to_string()]),
        },
    );
    assert_eq!(list.unwrap(), vec!["x"]);
    assert_eq!(
        chat_cookie_header(&account).as_deref(),
        Some("itzon_session=n")
    );
    let failed = after_cookie_answer(&mut account, cookies(&[]), asked, FollowAnswer::Failed);
    assert_eq!(failed.unwrap_err().message(), "itzon follows request failed");
    let refused = after_cookie_answer(
        &mut account,
        cookies(&[]),
        asked,
        FollowAnswer::Rejected { status: 500 },
    );
    assert_eq!(refused.unwrap_err().message(), "itzon follows returned an error");
    let unread = after_cookie_answer(
        &mut account,
        cookies(&[]),
        asked,
        FollowAnswer::Told { set_cookies: vec![], following: None },
    );
    assert_eq!(unread.unwrap_err().message(), "invalid itzon follows response");
    assert!(is_connected(&account));
    let over = after_cookie_answer(
        &mut account,
        cookies(&[]),
        asked,
        FollowAnswer::Rejected { status: 401 },
    );
    assert!(over.unwrap().is_empty());
    assert!(!is_connected(&account));
}

fn valid(username: &str, set: &[&str]) -> ValidSession {
    validate_session(cookies(&[("s", "1")]), told("user", username, set)).unwrap()
}

#[test]
fn a_sign_in_goes_round_until_there_is_a_session() {
    let mut sign_in = SignIn::start(SignInPurpose::Login);
    assert!(matches!(
        sign_in.advance(SignInEvent::Paused, 0),
        SignInAction::LookForWindow
    ));
    assert!(matches!(
        sign_in.advance(SignInEvent::Window { open: true }, 0),
        SignInAction::FetchOriginCookies
    ));
    assert!(matches!(
        sign_in.advance(SignInEvent::Cookies(None), 0),
        SignInAction::Pause { millis: 1500 }
    ));
    sign_in.advance(SignInEvent::Paused, 0);
    sign_in.advance(SignInEvent::Window { open: true }, 0);
    assert!(matches!(
        sign_in.advance(SignInEvent::Cookies(Some(cookies(&[("s", "1")]))), 0),
        SignInAction::Validate { cookies } if cookie_header(&cookies) == "s=1"
    ));
    assert!(matches!(
        sign_in.advance(SignInEvent::Validated(Ok(valid("me", &["s=2; domain=itzon.tv"]))), 0),
        SignInAction::FetchChatCookies
    ));
    let session = match sign_in.advance(SignInEvent::Cookies(None), 77) {
        SignInAction::Finish { session: Some(session) } => session,
        _ => panic!("no session"),
    };
    assert_eq!(session.username, "me");
    assert_eq!(cookie_header(&session.chat_cookies), "s=2");
    assert_eq!(cookie_header(&session.origin_cookies), "s=2");
    assert_eq!(session.validated_at, 77);
    let mut account = Account::new(None);
    assert!(needs_restore(&account));
    assert!(connect_cookie(&mut account, Some(session)).is_ok());
    assert!(!needs_restore(&account));
}

#[test]
fn a_sign_in_is_given_up() {
    let mut sign_in = SignIn::start(SignInPurpose::Login);
    sign_in.advance(SignInEvent::Paused, 0);
    assert!(matches!(
        sign_in.advance(SignInEvent::Window { open: false }, 0),
        SignInAction::Finish { session: None }
    ));
    let mut account = Account::new(None);
    assert_eq!(
        connect_cookie(&mut account, None).unwrap_err().message(),
        "itzon sign-in wasn't completed"
    );
    assert!(!restore_cookie(&mut account, None));
    let mut restore = SignIn::start(SignInPurpose::Restore);
    let mut rounds = 0;
    loop {
        match restore.advance(SignInEvent::Paused, 0) {
            SignInAction::FetchOriginCookies => rounds += 1,
            SignInAction::Finish { session: None } => break,
            _ => panic!("unexpected"),
        }
        let empty = SignInEvent::Cookies(Some(cookies(&[])));
        assert!(matches!(
            restore.advance(empty, 0),
            SignInAction::Pause { millis: 250 }
        ));
    }
    assert_eq!(rounds, 24);
}

#[test]
fn a_session_without_cookies_for_chat_does_not_count() {
    let mut restore = SignIn::start(SignInPurpose::Restore);
    restore.advance(SignInEvent::Paused, 0);
    restore.advance(SignInEvent::Cookies(Some(cookies(&[("s", "1")]))), 0);
    restore.advance(SignInEvent::Validated(Ok(valid("me", &[]))), 0);
    assert!(matches!(
        restore.advance(SignInEvent::Cookies(Some(cookies(&[]))), 0),
        SignInAction::Pause { .. }
    ));
    restore.advance(SignInEvent::Paused, 0);
    restore.advance(SignInEvent::Cookies(Some(cookies(&[("s", "1")]))), 0);
    assert!(matches!(
        restore.advance(SignInEvent::Validated(Err(ItzonError::NoUserAccount)), 0),
        SignInAction::Pause { .. }
    ));
}

#[test]
fn signing_out_tells_the_website() {
    let mut account = Account::new(None);
    assert!(disconnect_cookie(&mut account).is_none());
    assert!(restore_cookie(&mut account, Some(test_session("a"))));
    let before = revision(&account);
    let logout = disconnect_cookie(&mut account).unwrap();
    assert_eq!(logout.token, "test");
    assert_eq!(logout.cookie_header, "itzon_session=test");
    assert!(!is_connected(&account));
    assert_ne!(revision(&account), before);
    account.begin_session(ItzonSession { token: String::new(), ..test_session("a") });
    assert!(disconnect_cookie(&mut account).is_none());
    assert!(!is_connected(&account));
}
