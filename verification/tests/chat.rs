use itzon::auth::ChatAuth;
use itzon::emotes::EmoteCache;
use itzon::irc::unescape_tag;
use itzon::irc::IrcLine;
use itzon::members::itzon_badge;
use itzon::members::names_entry_verification;
use itzon::members::sanitize_badge_name;
use itzon::members::MemberState;
use itzon::messages::normalize_privmsg;
use itzon::messages::normalize_redaction;
use itzon::messages::privmsg_body;
use itzon::messages::ChatMessage;
use itzon::provider::ItzonProvider;
use itzon::recent::RecentMessage;
use itzon::recent::RecentMessages;
use itzon::recent::RECENT_MESSAGE_LIMIT;
use itzon::sending::admit_send;
use itzon::sending::conclude_send;
use itzon::sending::drop_message;
use itzon::sending::make_key;
use itzon::sending::next_backoff;
use itzon::sending::normalize_channel;
use itzon::sending::pending_echo_index;
use itzon::sending::prepare_send;
use itzon::sending::retry_after;
use itzon::sending::send_capability;
use itzon::sending::send_state_reason;
use itzon::sending::update_send_state;
use itzon::sending::valid_reply_id;
use itzon::sending::write_message;
use itzon::sending::Outgoing;
use itzon::sending::PendingSend;
use itzon::sending::SendCapability;
use itzon::sending::SendReply;
use itzon::sending::SEND_BANNED;
use itzon::sending::SEND_CONNECTING;
use itzon::sending::SEND_READY;
use itzon::sending::SEND_UNVERIFIED;
use itzon::session::guest_nick;
use itzon::session::guest_nick_from;
use itzon::session::ChatAction;
use itzon::session::ChatEvent;
use itzon::session::ChatSession;
use itzon::urls::chat_cookie_url;
use itzon::urls::trusted_chat_url;
use std::collections::VecDeque;

fn normalize(
    line: &IrcLine,
    channel_key: &str,
    recent: &mut RecentMessages,
    members: &MemberState,
) -> ChatMessage {
    let mut fallback = 0;
    normalize_privmsg(
        line,
        channel_key,
        recent,
        members,
        &EmoteCache::default(),
        &mut fallback,
    )
    .unwrap()
}

#[test]
fn builds_only_trusted_chat_urls() {
    assert_eq!(
        trusted_chat_url("wss://ca-media.itzon.tv:8442").unwrap().text.as_str(),
        "wss://ca-media.itzon.tv:8442/ws/irc"
    );
    assert!(trusted_chat_url("ws://ca-media.itzon.tv:8442").is_err());
    assert!(trusted_chat_url("wss://itzon.tv.evil.example").is_err());
}

#[test]
fn chat_urls_lose_their_query_and_say_why_they_are_refused() {
    let url = trusted_chat_url("https://itzon.tv/other?x=1#frag").unwrap();
    assert_eq!(url.text, "wss://itzon.tv/ws/irc");
    assert_eq!(url.scheme, "wss");
    assert_eq!(url.host.as_deref(), Some("itzon.tv"));
    assert_eq!(url.path, "/ws/irc");
    assert!(url.query.is_empty());
    assert_eq!(
        trusted_chat_url("not a URL").unwrap_err().message(),
        "invalid itzon chat URL"
    );
    assert_eq!(
        trusted_chat_url("ws://itzon.tv").unwrap_err().message(),
        "itzon chat URL must use TLS"
    );
    assert_eq!(
        trusted_chat_url("wss://example.org").unwrap_err().message(),
        "untrusted itzon chat host"
    );
}

#[test]
fn cookies_of_chat_are_asked_for_over_https() {
    assert_eq!(
        chat_cookie_url("wss://ca-media.itzon.tv:8442/x?y").unwrap().text,
        "https://ca-media.itzon.tv:8442/ws/irc"
    );
    assert_eq!(
        chat_cookie_url("mailto:someone@itzon.tv").unwrap_err().message(),
        "itzon chat URL has no host"
    );
    assert_eq!(
        chat_cookie_url("wss://example.org").unwrap_err().message(),
        "untrusted itzon chat host"
    );
    assert_eq!(
        chat_cookie_url("custom://itzon.tv/").unwrap_err().message(),
        "invalid itzon chat scheme"
    );
    assert_eq!(
        chat_cookie_url("/relative").unwrap_err().message(),
        "relative URL without a base"
    );
}

#[test]
fn parses_ircv3_tags_and_escapes() {
    let line = IrcLine::parse(
        "@msgid=abc;color=#ff282e;note=hello\\sworld\\:ok :hawolt!guest@itzon.tv PRIVMSG #steqian :was geht",
    )
    .unwrap();
    assert_eq!(line.command, "PRIVMSG");
    assert_eq!(line.tags.get("note").unwrap(), "hello world;ok");
    assert_eq!(line.trailing.as_deref(), Some("was geht"));
}

#[test]
fn lines_without_a_command_are_none() {
    assert!(IrcLine::parse("").is_none());
    assert!(IrcLine::parse("   ").is_none());
    assert!(IrcLine::parse("@tag=1").is_none());
    assert!(IrcLine::parse(":prefix").is_none());
    assert_eq!(IrcLine::parse(":prefix  :text").unwrap().command, ":TEXT");
    let line = IrcLine::parse("@a;b=;c=1=2;c=3 :who cmd x  y\u{3000}z\r\n").unwrap();
    assert_eq!(line.command, "CMD");
    assert_eq!(line.prefix.as_deref(), Some("who"));
    assert_eq!(line.params, vec!["x", "y", "z"]);
    assert_eq!(line.trailing, None);
    assert_eq!(line.tags.get("a").unwrap(), "");
    assert_eq!(line.tags.get("b").unwrap(), "");
    assert_eq!(line.tags.get("c").unwrap(), "3");
}

#[test]
fn commands_are_read_in_upper_case() {
    assert_eq!(IrcLine::parse("stra\u{df}e").unwrap().command, "STRASSE");
    assert_eq!(IrcLine::parse("ping").unwrap().command, "PING");
}

#[test]
fn tag_values_are_unescaped() {
    assert_eq!(unescape_tag("a\\:b\\sc\\rd\\ne\\\\f\\xg\\"), "a;b c\rd\ne\\fxg\\");
    assert_eq!(unescape_tag("plain"), "plain");
}

#[test]
fn normalizes_live_privmsg_metadata() {
    let line = IrcLine::parse("@time=2026-08-19T15:55:04.248Z;msgid=aa61;color=#ff282e;sub-badge=ambassador;partner=1;user-id=2;avatar=gif :Hawolt!guest@itzon.tv PRIVMSG #steqian :was geht").unwrap();
    let mut members = MemberState::default();
    members.apply_tags("Hawolt", &line);
    let msg = normalize(&line, "itzon:steqian", &mut RecentMessages::default(), &members);
    assert_eq!(msg.provider, "itzon");
    assert_eq!(msg.channel, "itzon:steqian");
    assert_eq!(msg.display_name, "Hawolt");
    assert_eq!(
        msg.tags.get("avatar").unwrap(),
        "https://itzon.tv/api/live/avatar/2.gif"
    );
    assert_eq!(msg.badges.len(), 2);
    assert_eq!(
        msg.badges[0].image_url_1x.as_deref(),
        Some("https://itzon.tv/static/img/badge-partner.svg")
    );
    assert_eq!(
        msg.badges[1].image_url_1x.as_deref(),
        Some("https://itzon.tv/static/img/badge-ambassador.svg")
    );
    assert_eq!(msg.content, "was geht");
}

#[test]
fn messages_carry_their_tags_time_and_color() {
    let line = IrcLine::parse("@time=T;msgid=aa61;color=#ff282e;user-id=2x;avatar=gif :Hawolt!g@h PRIVMSG #c :hi").unwrap();
    let msg = normalize(
        &line,
        "itzon:c",
        &mut RecentMessages::default(),
        &MemberState::default(),
    );
    assert_eq!(msg.id, "aa61");
    assert_eq!(msg.user_id, "2x");
    assert_eq!(msg.username, "hawolt");
    assert_eq!(msg.color.as_deref(), Some("#ff282e"));
    assert_eq!(msg.timestamp, "T");
    assert_eq!(msg.tags.get("avatar").unwrap(), "gif");
    assert_eq!(msg.tags.get("display-name").unwrap(), "Hawolt");
    assert_eq!(msg.tags.get("id").unwrap(), "aa61");
    assert!(!msg.layout.has_reply);
    assert!(!msg.layout.is_first_message);
    assert!(!msg.metadata.is_action);
    assert!(msg.metadata.reply_info.is_none());
    assert_eq!(msg.segments.len(), 1);
}

#[test]
fn actions_lose_their_marks() {
    let action = |text: &str| {
        let line = IrcLine::parse(&format!("@msgid=1 :a!b PRIVMSG #c :{text}")).unwrap();
        let msg = normalize(
            &line,
            "itzon:c",
            &mut RecentMessages::default(),
            &MemberState::default(),
        );
        (msg.metadata.is_action, msg.content)
    };
    assert_eq!(action("\u{1}ACTION waves\u{1}"), (true, "waves".to_string()));
    assert_eq!(action("\u{1}ACTION \u{1}"), (true, "".to_string()));
    assert_eq!(
        action("\u{1}ACTION waves"),
        (false, "\u{1}ACTION waves".to_string())
    );
    assert_eq!(action("waves"), (false, "waves".to_string()));
}

#[test]
fn messages_without_an_id_are_numbered() {
    let line = IrcLine::parse(":a!b PRIVMSG #c :hi").unwrap();
    let mut recent = RecentMessages::default();
    let members = MemberState::default();
    let cache = EmoteCache::default();
    let mut fallback = 41;
    let first =
        normalize_privmsg(&line, "itzon:c", &mut recent, &members, &cache, &mut fallback).unwrap();
    let second =
        normalize_privmsg(&line, "itzon:c", &mut recent, &members, &cache, &mut fallback).unwrap();
    assert_eq!(first.id, "itzon-41");
    assert_eq!(second.id, "itzon-42");
    assert_eq!(fallback, 43);
    fallback = u64::MAX;
    let last =
        normalize_privmsg(&line, "itzon:c", &mut recent, &members, &cache, &mut fallback).unwrap();
    assert_eq!(last.id, "itzon-18446744073709551615");
    assert_eq!(fallback, 0);
    let bare = IrcLine::parse("PRIVMSG #c :hi").unwrap();
    assert!(
        normalize_privmsg(&bare, "itzon:c", &mut recent, &members, &cache, &mut fallback).is_none()
    );
    assert_eq!(recent.len(), 3);
}

#[test]
fn normalizes_itzon_single_token_privmsg_without_trailing_marker() {
    let line = IrcLine::parse(
        "@msgid=one;user-id=1017 :GrandpaChang!guest@itzon.tv PRIVMSG #grandpachang boom",
    )
    .unwrap();
    assert!(line.trailing.is_none());
    assert_eq!(privmsg_body(&line), "boom");

    let msg = normalize(
        &line,
        "itzon:grandpachang",
        &mut RecentMessages::default(),
        &MemberState::default(),
    );
    assert_eq!(msg.content, "boom");
}

#[test]
fn maps_names_roles_and_avatarless_members_to_official_badges() {
    let mut members = MemberState::default();
    members.apply_names_entry("@Owner");
    members.apply_names_entry("+ModUser");
    members.apply_names_entry("=UnverifiedUser");

    let owner = members.badges_for("owner");
    assert_eq!(owner[0].name, "op");
    assert_eq!(
        owner[0].image_url_1x.as_deref(),
        Some("https://itzon.tv/static/img/badge-op.svg")
    );
    assert_eq!(members.badges_for("moduser")[0].name, "mod");
    assert_eq!(members.badges_for("unverifieduser")[0].name, "unverified");
}

#[test]
fn badges_follow_what_is_told() {
    let mut members = MemberState::default();
    members.apply_names_entry("%@Both");
    assert_eq!(members.badges_for("BOTH")[0].title.as_deref(), Some("Staff"));
    members.apply_names_entry("Both");
    assert!(members.badges_for("both").is_empty());
    members.apply_names_entry("@");
    members.set_partner("Both", true);
    members.set_sub_badge("both", " Bounty ");
    members.set_verified("both", false);
    let names: Vec<String> = members.badges_for("Both").into_iter().map(|b| b.name).collect();
    assert_eq!(names, vec!["partner", "bounty", "unverified"]);
    members.set_partner("Both", false);
    members.set_verified("both", true);
    let line = IrcLine::parse("@sub-badge= :x JOIN #c").unwrap();
    members.apply_tags("BOTH", &line);
    assert!(members.badges_for("both").is_empty());
}

#[test]
fn badge_names_are_tamed() {
    assert_eq!(sanitize_badge_name(" VIP_1 "), "vip_1");
    assert_eq!(sanitize_badge_name("bad-name"), "regular");
    assert_eq!(sanitize_badge_name(""), "regular");
    assert_eq!(sanitize_badge_name("aaaaaaaaaaaaaaaaaaaaaaaaa"), "regular");
    let once = sanitize_badge_name("So_Long");
    assert_eq!(sanitize_badge_name(&once), once);
    let badge = itzon_badge("a_b", "Title");
    assert_eq!(badge.name, "a_b");
    assert_eq!(
        badge.image_url_4x.as_deref(),
        Some("https://itzon.tv/static/img/badge-a-b.svg")
    );
    assert_eq!(badge.version, "1");
    assert_eq!(badge.title.as_deref(), Some("Title"));
    assert_eq!(badge.description, None);
}

#[test]
fn enriches_replies_from_join_backlog() {
    let mut recent = RecentMessages::default();
    let parent =
        IrcLine::parse("@msgid=one;user-id=2 :Alpha!a@itzon.tv PRIVMSG #room :first").unwrap();
    let members = MemberState::default();
    normalize(&parent, "itzon:room", &mut recent, &members);
    let reply =
        IrcLine::parse("@msgid=two;user-id=3;+reply=one :Beta!b@itzon.tv PRIVMSG #room :second")
            .unwrap();
    let msg = normalize(&reply, "itzon:room", &mut recent, &members);
    let info = msg.metadata.reply_info.unwrap();
    assert_eq!(info.parent_display_name, "Alpha");
    assert_eq!(info.parent_msg_body, "first");
    assert_eq!(info.parent_user_id, "2");
    assert_eq!(info.parent_user_login, "alpha");
    assert_eq!(info.parent_msg_id, "one");
    assert!(msg.layout.has_reply);
}

#[test]
fn replies_to_unknown_messages_name_them_only() {
    let reply = IrcLine::parse("@msgid=two;+reply=gone :Beta!b PRIVMSG #room :second").unwrap();
    let msg = normalize(
        &reply,
        "itzon:room",
        &mut RecentMessages::default(),
        &MemberState::default(),
    );
    let info = msg.metadata.reply_info.unwrap();
    assert_eq!(info.parent_msg_id, "gone");
    assert_eq!(info.parent_display_name, "");
    assert_eq!(info.parent_msg_body, "");
}

#[test]
fn the_oldest_messages_are_forgotten() {
    let mut recent = RecentMessages::default();
    let message = |n: usize| RecentMessage {
        display_name: n.to_string(),
        body: String::new(),
        user_id: String::new(),
        username: String::new(),
    };
    for n in 0..RECENT_MESSAGE_LIMIT {
        recent.insert(n.to_string(), message(n));
    }
    recent.insert("0".to_string(), message(7));
    assert_eq!(recent.len(), RECENT_MESSAGE_LIMIT);
    assert_eq!(recent.find("0").unwrap().display_name, "7");
    recent.insert("new".to_string(), message(1));
    assert_eq!(recent.len(), RECENT_MESSAGE_LIMIT);
    assert!(recent.find("0").is_none());
    assert!(recent.find("1").is_some());
    assert!(recent.find("new").is_some());
}

#[test]
fn maps_redactions_to_shared_clearmsg_frame() {
    let line = IrcLine::parse(":go-irc REDACT #steqian abc123").unwrap();
    let frame = normalize_redaction(&line, "#steqian", "itzon:steqian").unwrap();
    assert!(frame.contains("\"target_msg_id\":\"abc123\""));
    assert_eq!(
        frame,
        "{\"channel\":\"itzon:steqian\",\"provider\":\"itzon\",\"target_msg_id\":\"abc123\",\"type\":\"CLEARMSG\"}"
    );
}

#[test]
fn redactions_elsewhere_are_none() {
    let line = IrcLine::parse("REDACT #other abc").unwrap();
    assert!(normalize_redaction(&line, "#steqian", "itzon:steqian").is_none());
    let line = IrcLine::parse("REDACT #steqian").unwrap();
    assert!(normalize_redaction(&line, "#steqian", "itzon:steqian").is_none());
    let line = IrcLine::parse("REDACT #steqian :a \"b\"").unwrap();
    assert!(normalize_redaction(&line, "#steqian", "itzon:steqian")
        .unwrap()
        .contains("\"a \\\"b\\\"\""));
}

#[test]
fn reconnect_backoff_caps() {
    let mut delay = 1;
    for expected in [2, 4, 8, 15, 15] {
        delay = next_backoff(delay);
        assert_eq!(delay, expected);
    }
}

#[test]
fn a_clean_end_starts_the_delays_over() {
    assert_eq!(retry_after(8, true), (1, 1));
    assert_eq!(retry_after(8, false), (8, 15));
    assert_eq!(retry_after(1, false), (1, 2));
    assert_eq!(next_backoff(u64::MAX), 15);
    assert_eq!(next_backoff(0), 0);
}

#[test]
fn itzon_matches_send_confirmation_by_body_and_reply_target() {
    let pending = VecDeque::from([PendingSend {
        text: "hello".into(),
        reply_to: Some("parent-1".into()),
        ticket: 1,
        deadline: 1000,
    }]);
    assert_eq!(
        pending_echo_index(&pending, "hello", Some("parent-1")),
        Some(0)
    );
    assert_eq!(pending_echo_index(&pending, "hello", None), None);
    assert_eq!(
        pending_echo_index(&pending, "different", Some("parent-1")),
        None
    );
}

#[test]
fn itzon_rejects_reply_targets_that_can_break_irc_tags() {
    assert!(valid_reply_id("01KACB0J87CD7RRGXPEN475KQ8"));
    assert!(valid_reply_id("parent-1.2:3"));
    assert!(!valid_reply_id(""));
    assert!(!valid_reply_id("parent id"));
    assert!(!valid_reply_id("parent;admin=1"));
    assert!(!valid_reply_id("parent\\sadmin"));
    assert!(!valid_reply_id("parent\r\nPRIVMSG #other :oops"));
}

#[test]
fn reply_targets_are_measured_in_bytes() {
    assert!(valid_reply_id(&"a".repeat(256)));
    assert!(!valid_reply_id(&"a".repeat(257)));
    assert!(valid_reply_id(&"\u{fc}".repeat(128)));
    assert!(!valid_reply_id(&"\u{fc}".repeat(129)));
}

#[test]
fn itzon_channel_send_state_requires_account_join_auth_and_verification() {
    let mut state = SEND_CONNECTING;

    update_send_state(&mut state, true, "guest_deadbeef", true, Some(true), false);
    assert_eq!(state, SEND_CONNECTING);

    update_send_state(&mut state, true, "AccountName", false, Some(true), false);
    assert_eq!(state, SEND_CONNECTING);

    update_send_state(&mut state, true, "AccountName", true, None, false);
    assert_eq!(state, SEND_CONNECTING);

    update_send_state(&mut state, true, "AccountName", true, Some(false), false);
    assert_eq!(state, SEND_UNVERIFIED);
    assert_eq!(
        send_state_reason(state),
        "Verify your itzon email before sending"
    );

    update_send_state(&mut state, true, "AccountName", true, Some(true), false);
    assert_eq!(state, SEND_READY);

    update_send_state(&mut state, false, "AccountName", true, Some(true), true);
    assert_eq!(state, SEND_BANNED);
    assert_eq!(
        send_state_reason(state),
        "You are banned from this itzon channel"
    );
}

#[test]
fn itzon_names_snapshot_controls_email_verification() {
    assert_eq!(
        names_entry_verification("@~*AccountName", "accountname"),
        Some(true)
    );
    assert_eq!(
        names_entry_verification("@=*AccountName", "AccountName"),
        Some(false)
    );
    assert_eq!(
        names_entry_verification("?guest_deadbeef", "AccountName"),
        None
    );
}

#[test]
fn channels_are_normalized() {
    assert_eq!(normalize_channel(" ##SteQian ").unwrap(), "steqian");
    assert_eq!(normalize_channel("a_b-1").unwrap(), "a_b-1");
    assert_eq!(
        normalize_channel("#").unwrap_err().message(),
        "invalid itzon channel"
    );
    assert!(normalize_channel("bad/name").is_err());
    assert_eq!(make_key("steqian"), "itzon:steqian");
}

#[test]
fn messages_are_prepared_or_dropped_with_a_reason() {
    let (slug, message) = prepare_send("#Room", "  one\r\ntwo ", Some("p1")).unwrap().unwrap();
    assert_eq!(slug, "room");
    assert_eq!(message.text, "one  two");
    assert_eq!(message.reply_to.as_deref(), Some("p1"));
    let reason = |text: &str, reply: Option<&str>| {
        let outcome = prepare_send("room", text, reply).unwrap().unwrap_err();
        assert!(!outcome.is_sent);
        assert!(outcome.message_id.is_none());
        outcome.drop_reason.unwrap()
    };
    assert_eq!(reason(" \r\n ", None), "Message is empty");
    assert_eq!(
        reason(&"\u{fc}".repeat(401), None),
        "itzon messages are limited to 400 characters"
    );
    assert_eq!(reason("hi", Some("a b")), "Invalid itzon reply target");
    assert!(prepare_send("room", &"\u{fc}".repeat(400), None).unwrap().is_ok());
    assert!(prepare_send("a b", "hi", None).is_err());
}

#[test]
fn sends_are_held_back_with_a_reason() {
    let reason = |signed_in: bool, state: Option<u8>| {
        admit_send(signed_in, state).map(|outcome| outcome.drop_reason.unwrap())
    };
    assert_eq!(
        reason(false, Some(SEND_READY)).as_deref(),
        Some("Connect your itzon account to send")
    );
    assert_eq!(
        reason(true, None).as_deref(),
        Some("itzon chat is not connected")
    );
    assert_eq!(
        reason(true, Some(SEND_CONNECTING)).as_deref(),
        Some("itzon chat is reconnecting")
    );
    assert_eq!(reason(true, Some(SEND_READY)), None);
    assert_eq!(
        conclude_send(SendReply::Refused).drop_reason.as_deref(),
        Some("itzon chat is reconnecting")
    );
    assert_eq!(
        conclude_send(SendReply::Lost).drop_reason.as_deref(),
        Some("itzon connection reset before the send was confirmed")
    );
    assert_eq!(
        conclude_send(SendReply::Late).drop_reason.as_deref(),
        Some("itzon did not confirm the message in time")
    );
    assert_eq!(
        conclude_send(SendReply::Told(drop_message("why"))).drop_reason.as_deref(),
        Some("why")
    );
}

#[test]
fn capabilities_follow_login_and_state() {
    assert_eq!(
        send_capability(false, "room", Some(SEND_READY)),
        SendCapability::NeedsLogin
    );
    assert_eq!(
        send_capability(true, "room", Some(SEND_READY)),
        SendCapability::Sendable
    );
    assert_eq!(
        send_capability(true, "bad/name", Some(SEND_READY)),
        SendCapability::ReadOnly
    );
    assert_eq!(
        send_capability(true, "room", Some(SEND_UNVERIFIED)),
        SendCapability::ReadOnly
    );
    assert_eq!(send_capability(true, "room", None), SendCapability::ReadOnly);
}

#[test]
fn sent_lines_are_read_back() {
    let message = Outgoing {
        text: "hello :world".to_string(),
        reply_to: Some("p:1".to_string()),
    };
    let raw = write_message("#room", &message);
    assert_eq!(raw, "@+reply=p:1 PRIVMSG #room :hello :world\r\n");
    let line = IrcLine::parse(&raw).unwrap();
    assert_eq!(line.tags.get("+reply").unwrap(), "p:1");
    assert_eq!(line.tags.len(), 1);
    assert_eq!(line.command, "PRIVMSG");
    assert_eq!(line.params, vec!["#room"]);
    assert_eq!(line.trailing.as_deref(), Some("hello :world"));
    assert_eq!(line.prefix, None);
}

#[test]
fn connections_are_shared_by_windows() {
    let mut provider = ItzonProvider::new();
    assert_eq!(provider.id(), "itzon");
    assert_eq!(
        provider.connect("#Room", "main").unwrap().as_deref(),
        Some("room")
    );
    assert_eq!(provider.connect("room", "popout").unwrap(), None);
    assert!(provider.is_open("room"));
    assert_eq!(provider.disconnect("room", "main").unwrap(), None);
    assert_eq!(provider.disconnect("room", "main").unwrap(), None);
    assert_eq!(
        provider.disconnect("ROOM", "popout").unwrap().as_deref(),
        Some("room")
    );
    assert!(!provider.is_open("room"));
    assert_eq!(provider.disconnect("room", "popout").unwrap(), None);
    assert!(provider.connect("bad/name", "main").is_err());
    assert!(provider.disconnect("bad/name", "main").is_err());
}

fn open_session() -> (ChatSession, Vec<String>) {
    let auth = ChatAuth {
        cookie_header: None,
        pass: Some("secret".to_string()),
        nick: Some("AccountName".to_string()),
    };
    ChatSession::open("room", &auth, "guest_12345678", 5)
}

fn feed(session: &mut ChatSession, text: &str) -> Vec<ChatAction> {
    let mut fallback = 0;
    session.step(
        ChatEvent::Text(text.to_string()),
        &EmoteCache::default(),
        &mut fallback,
    )
}

fn make_ready(session: &mut ChatSession) {
    feed(session, ":srv 001 AccountName :hi\r\n");
    feed(session, ":accountname!x JOIN #room\r\n");
    feed(session, ":srv 353 AccountName = #room :@Owner ~AccountName\r\n");
}

fn texts(actions: &[ChatAction]) -> Vec<String> {
    actions
        .iter()
        .filter_map(|action| match action {
            ChatAction::SendText(line) => Some(line.clone()),
            _ => None,
        })
        .collect()
}

#[test]
fn registration_begins_with_the_password() {
    let (session, lines) = open_session();
    assert_eq!(
        lines,
        vec![
            "PASS secret\r\n",
            "CAP REQ :message-tags echo-message draft/message-redaction\r\n",
            "CAP REQ :server-time\r\n",
            "NICK AccountName\r\n",
            "USER AccountName 0 * :AccountName\r\n",
        ]
    );
    assert!(session.has_auth);
    let nobody = ChatAuth { cookie_header: None, pass: None, nick: None };
    let (guest, lines) = ChatSession::open("room", &nobody, "guest_12345678", 5);
    assert_eq!(lines.len(), 4);
    assert_eq!(lines[2], "NICK guest_12345678\r\n");
    assert!(!guest.has_auth);
    assert_eq!(guest.send_state, SEND_CONNECTING);
}

#[test]
fn guests_get_random_names() {
    assert_eq!(guest_nick_from("0123456789abcdef"), "guest_01234567");
    let nick = guest_nick();
    assert_eq!(nick.len(), 14);
    assert!(nick.starts_with("guest_"));
    assert!(nick[6..].chars().all(|c| c.is_ascii_hexdigit()));
    assert!((0..8).any(|_| guest_nick() != nick));
}

#[test]
fn a_session_negotiates_joins_and_becomes_ready() {
    let (mut session, _) = open_session();
    assert_eq!(texts(&feed(&mut session, "PING :abc")), vec!["PONG :abc\r\n"]);
    assert_eq!(texts(&feed(&mut session, "PING def")), vec!["PONG :def\r\n"]);
    assert!(texts(&feed(&mut session, ":srv CAP * LS :x\r\n")).is_empty());
    assert!(texts(&feed(&mut session, ":srv CAP * ACK :x\r\n")).is_empty());
    assert_eq!(
        texts(&feed(&mut session, ":srv CAP * NAK :x\r\n:srv CAP * ACK :y\r\n")),
        vec!["CAP END\r\n"]
    );
    assert_eq!(
        texts(&feed(&mut session, ":srv 001 AccountName :hi\r\n")),
        vec!["JOIN #room\r\n"]
    );
    assert!(texts(&feed(&mut session, ":srv 001 Other :hi\r\n")).is_empty());
    assert_eq!(session.confirmed_nick, "AccountName");
    feed(&mut session, ":Someone!x JOIN #room\r\n");
    assert!(!session.joined);
    feed(&mut session, ":accountname!x JOIN :#room\r\n");
    assert!(session.joined);
    assert_eq!(session.send_state, SEND_CONNECTING);
    feed(&mut session, ":srv 353 x = #other :=AccountName\r\n");
    assert_eq!(session.verified, None);
    feed(&mut session, ":srv 353 x = #room :@Owner =AccountName\r\n");
    assert_eq!(session.send_state, SEND_UNVERIFIED);
    feed(&mut session, ":srv VERIFIED #room accountname 1\r\n");
    assert_eq!(session.send_state, SEND_READY);
    feed(&mut session, ":srv VERIFIED #room someone 0\r\n");
    assert_eq!(session.send_state, SEND_READY);
    assert_eq!(session.members.badges_for("someone")[0].name, "unverified");
    feed(&mut session, ":srv 474 AccountName #room :banned\r\n");
    assert_eq!(session.send_state, SEND_BANNED);
    assert!(!session.joined);
}

#[test]
fn a_guest_name_in_the_welcome_keeps_the_channel_read_only() {
    let (mut session, _) = open_session();
    feed(&mut session, ":AccountName!x JOIN #room\r\n:srv VERIFIED #room AccountName 1\r\n");
    assert_eq!(session.send_state, SEND_READY);
    feed(&mut session, ":srv 001 guest_deadbeef :hi\r\n");
    assert_eq!(session.send_state, SEND_CONNECTING);
}

#[test]
fn a_name_told_by_the_welcome_has_to_join_itself() {
    let auth = ChatAuth {
        cookie_header: None,
        pass: Some("secret".to_string()),
        nick: None,
    };
    let (mut session, _) = ChatSession::open("room", &auth, "guest_12345678", 5);
    feed(&mut session, ":guest_12345678!x JOIN #room\r\n");
    feed(&mut session, ":srv VERIFIED #room guest_12345678 1\r\n");
    assert!(session.joined);
    assert_eq!(session.send_state, SEND_CONNECTING);
    feed(&mut session, ":srv 001 Ann :hi\r\n");
    assert!(!session.joined);
    assert_eq!(session.send_state, SEND_CONNECTING);
    feed(&mut session, ":srv VERIFIED #room Ann 1\r\n");
    assert_eq!(session.send_state, SEND_CONNECTING);
    feed(&mut session, ":ann!x JOIN #room\r\n");
    assert_eq!(session.send_state, SEND_READY);
}

#[test]
fn a_welcome_under_the_same_name_changes_no_state_of_sending() {
    let (mut session, _) = open_session();
    feed(&mut session, ":AccountName!x JOIN #room\r\n:srv VERIFIED #room AccountName 1\r\n");
    assert_eq!(session.send_state, SEND_READY);
    assert_eq!(texts(&feed(&mut session, ":srv 001 accountname :hi\r\n")), vec!["JOIN #room\r\n"]);
    assert_eq!(session.confirmed_nick, "accountname");
    assert!(session.joined);
    assert_eq!(session.send_state, SEND_READY);
}

#[test]
fn members_are_told_of_by_commands() {
    let (mut session, _) = open_session();
    feed(&mut session, "SUBBADGE #room Who lucky\r\nPARTNER #room who 1\r\nSUBBADGE #other Who bounty\r\n");
    let names: Vec<String> =
        session.members.badges_for("who").into_iter().map(|badge| badge.name).collect();
    assert_eq!(names, vec!["partner", "lucky"]);
    feed(&mut session, "SUBBADGE #room Who\r\nPARTNER #room who 0\r\n");
    let names: Vec<String> =
        session.members.badges_for("who").into_iter().map(|badge| badge.name).collect();
    assert_eq!(names, vec!["regular"]);
    feed(&mut session, "@sub-badge=;partner=1 META #room Who\r\n");
    let names: Vec<String> =
        session.members.badges_for("who").into_iter().map(|badge| badge.name).collect();
    assert_eq!(names, vec!["partner"]);
}

fn hand_in(session: &mut ChatSession, text: &str, reply: Option<&str>, ticket: u64, now: u64) -> Vec<ChatAction> {
    let mut fallback = 0;
    session.step(
        ChatEvent::Outgoing {
            message: Outgoing { text: text.to_string(), reply_to: reply.map(String::from) },
            ticket,
            connected: true,
            now,
        },
        &EmoteCache::default(),
        &mut fallback,
    )
}

fn resolved(actions: &[ChatAction]) -> Vec<(u64, bool, Option<String>, Option<String>)> {
    actions
        .iter()
        .filter_map(|action| match action {
            ChatAction::Resolve { ticket, outcome } => Some((
                *ticket,
                outcome.is_sent,
                outcome.message_id.clone(),
                outcome.drop_reason.clone(),
            )),
            _ => None,
        })
        .collect()
}

#[test]
fn a_message_is_confirmed_by_its_own_echo_only() {
    let (mut session, _) = open_session();
    let early = hand_in(&mut session, "hi", None, 1, 0);
    assert_eq!(
        resolved(&early),
        vec![(1, false, None, Some("itzon chat is reconnecting".to_string()))]
    );
    make_ready(&mut session);
    let sent = hand_in(&mut session, "hi", Some("p1"), 2, 0);
    assert_eq!(texts(&sent), vec!["@+reply=p1 PRIVMSG #room :hi\r\n"]);
    assert!(resolved(&sent).is_empty());
    let other = feed(&mut session, "@msgid=m0;+reply=p1 :Someone!x PRIVMSG #room :hi\r\n");
    assert!(resolved(&other).is_empty());
    assert!(matches!(&other[0], ChatAction::PublishMessage(message) if message.id == "m0"));
    let unlike = feed(&mut session, "@msgid=m1 :AccountName!x PRIVMSG #room :hi\r\n");
    assert!(resolved(&unlike).is_empty());
    let echo = feed(&mut session, "@msgid=m2;+reply=p1 :accountname!x PRIVMSG #room hi\r\n");
    assert_eq!(resolved(&echo), vec![(2, true, Some("m2".to_string()), None)]);
    assert_eq!(echo.len(), 2);
    let again = feed(&mut session, "@msgid=m3;+reply=p1 :accountname!x PRIVMSG #room hi\r\n");
    assert!(resolved(&again).is_empty());
}

#[test]
fn refusals_timeouts_and_sign_outs_are_told() {
    let (mut session, _) = open_session();
    make_ready(&mut session);
    hand_in(&mut session, "one", None, 1, 0);
    hand_in(&mut session, "two", None, 2, 5_000);
    hand_in(&mut session, "three", None, 3, 9_000);
    let refused = feed(&mut session, ":srv NOTICE #room :too fast\r\n");
    assert_eq!(
        resolved(&refused),
        vec![(1, false, None, Some("too fast".to_string()))]
    );
    let mut fallback = 0;
    let quiet = session.step(
        ChatEvent::Maintenance { revision: 5, now: 14_999 },
        &EmoteCache::default(),
        &mut fallback,
    );
    assert!(quiet.is_empty());
    let late = session.step(
        ChatEvent::Maintenance { revision: 5, now: 19_000 },
        &EmoteCache::default(),
        &mut fallback,
    );
    let reason = Some("itzon did not echo the message in time".to_string());
    assert_eq!(
        resolved(&late),
        vec![(2, false, None, reason.clone()), (3, false, None, reason)]
    );
    assert!(feed(&mut session, ":srv 404 x :nothing waits\r\n").is_empty());
    let refused = session.step(
        ChatEvent::Outgoing {
            message: Outgoing { text: "x".to_string(), reply_to: None },
            ticket: 9,
            connected: false,
            now: 0,
        },
        &EmoteCache::default(),
        &mut fallback,
    );
    assert_eq!(
        resolved(&refused),
        vec![(9, false, None, Some("Connect your itzon account to send".to_string()))]
    );
    let changed = session.step(
        ChatEvent::Maintenance { revision: 6, now: 0 },
        &EmoteCache::default(),
        &mut fallback,
    );
    assert!(matches!(&changed[0], ChatAction::Fail(error) if error.message() == "itzon account session changed"));
    assert_eq!(session.send_state, SEND_CONNECTING);
}

#[test]
fn a_whole_connection_accounts_for_every_message() {
    let (mut session, _) = open_session();
    let mut done = hand_in(&mut session, "early", None, 1, 0);
    make_ready(&mut session);
    done.extend(hand_in(&mut session, "one", None, 2, 0));
    done.extend(hand_in(&mut session, "two", None, 3, 0));
    done.extend(hand_in(&mut session, "three", None, 4, 0));
    done.extend(feed(&mut session, "@msgid=m2 :AccountName!x PRIVMSG #room :two\r\n"));
    done.extend(feed(&mut session, ":srv NOTICE #room :too fast\r\n"));
    let told: Vec<(u64, bool)> =
        resolved(&done).into_iter().map(|(ticket, sent, _, _)| (ticket, sent)).collect();
    assert_eq!(told, vec![(1, false), (3, true), (2, false)]);
    let waiting: Vec<u64> = session.pending.iter().map(|item| item.ticket).collect();
    assert_eq!(waiting, vec![4]);
    assert_eq!(session.send_state, SEND_READY);
}

#[test]
fn other_events_are_answered() {
    let (mut session, _) = open_session();
    let cache = EmoteCache::default();
    let mut fallback = 0;
    assert!(matches!(
        session.step(ChatEvent::Heartbeat, &cache, &mut fallback)[0],
        ChatAction::SendPing
    ));
    let pong = session.step(ChatEvent::Ping(vec![1, 2]), &cache, &mut fallback);
    assert!(matches!(&pong[0], ChatAction::SendPong(payload) if payload == &vec![1u8, 2]));
    assert!(matches!(
        session.step(ChatEvent::Closed, &cache, &mut fallback)[0],
        ChatAction::Disconnect
    ));
    assert!(matches!(
        session.step(ChatEvent::OutgoingClosed, &cache, &mut fallback)[0],
        ChatAction::Disconnect
    ));
    assert!(session.step(ChatEvent::Other, &cache, &mut fallback).is_empty());
    let frames = feed(&mut session, "REDACT #room id7\r\n\r\n:junk\r\nUNKNOWN x\r\n");
    assert_eq!(frames.len(), 1);
    assert!(matches!(&frames[0], ChatAction::PublishFrame(frame) if frame.contains("id7")));
}
