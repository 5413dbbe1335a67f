use itzon::emotes::channel_emote_set;
use itzon::emotes::collect_emotes;
use itzon::emotes::lookup;
use itzon::emotes::parse_segments;
use itzon::emotes::refresh;
use itzon::emotes::ChannelEmotes;
use itzon::emotes::EmoteCache;
use itzon::emotes::EmoteProvider;
use itzon::emotes::EmoteRefresh;
use itzon::emotes::ItzonEmote;
use itzon::emotes::MessageSegment;
use itzon::emotes::RefreshAction;
use itzon::emotes::RefreshEvent;
use itzon::emotes::EMOTE_TTL_MILLIS;
use itzon::json::Json;
use itzon::text_map::TextMap;

fn text(value: &str) -> Json {
    Json::Text(value.to_string())
}

fn object(fields: Vec<(&str, Json)>) -> Json {
    Json::Object(
        fields.into_iter().map(|(name, value)| (name.to_string(), value)).collect(),
    )
}

fn emote(id: &str) -> ItzonEmote {
    ItzonEmote {
        id: id.into(),
        url: format!("https://cdn.7tv.app/emote/{id}/2x.webp"),
        zero_width: false,
        width: Some(32),
        owner_name: None,
    }
}

fn cache_of(channels: Vec<(&str, Vec<(&str, &str)>)>) -> EmoteCache {
    let mut cache = EmoteCache::default();
    for (slug, emotes) in channels {
        let mut map = TextMap::new();
        for (name, id) in emotes {
            map.insert(name.to_string(), emote(id));
        }
        cache.channels.insert(slug.to_string(), ChannelEmotes { map, fetched_at: 0 });
    }
    cache
}

fn content(segment: &MessageSegment) -> String {
    match segment {
        MessageSegment::Text { content } => content.clone(),
        MessageSegment::Emote { content, .. } => content.clone(),
    }
}

#[test]
fn collects_current_active_emote_shape() {
    let payload = object(vec![(
        "emotes",
        Json::List(vec![object(vec![
            ("name", text("Paint")),
            (
                "data",
                object(vec![
                    ("id", text("01TEST")),
                    ("flags", Json::Unsigned(256)),
                    (
                        "host",
                        object(vec![(
                            "files",
                            Json::List(vec![object(vec![("width", Json::Unsigned(64))])]),
                        )]),
                    ),
                    ("owner", object(vec![("display_name", text("Artist"))])),
                ]),
            ),
        ])]),
    )]);
    let mut map = TextMap::new();
    collect_emotes(&payload, "/emotes", &mut map);
    let emote = map.get("Paint").unwrap();
    assert_eq!(emote.id, "01TEST");
    assert!(emote.zero_width);
    assert_eq!(emote.width, Some(64));
    assert_eq!(emote.owner_name.as_deref(), Some("Artist"));
    assert_eq!(emote.url, "https://cdn.7tv.app/emote/01TEST/2x.webp");
}

#[test]
fn collects_what_can_be_read() {
    let payload = object(vec![(
        "emotes",
        Json::List(vec![
            object(vec![("name", text("Bare")), ("id", text("b")), ("flags", Json::Negative(-1))]),
            object(vec![("name", text("NoId"))]),
            object(vec![("id", text("nameless"))]),
            object(vec![("name", Json::Unsigned(1)), ("id", text("x"))]),
            object(vec![
                ("name", text("WrongId")),
                ("data", object(vec![("id", Json::Null)])),
                ("id", text("unused")),
            ]),
            object(vec![
                ("name", text("Wide")),
                ("data", object(vec![
                    ("host", object(vec![(
                        "files",
                        Json::List(vec![object(vec![("width", Json::Unsigned(4_294_967_298))])]),
                    )])),
                ])),
                ("id", text("w")),
                ("flags", Json::Unsigned(u64::MAX)),
            ]),
            Json::Null,
        ]),
    )]);
    let mut map = TextMap::new();
    collect_emotes(&payload, "/emotes", &mut map);
    assert_eq!(map.len(), 2);
    assert!(map.get("Bare").unwrap().zero_width);
    assert_eq!(map.get("Bare").unwrap().width, None);
    assert_eq!(map.get("Wide").unwrap().id, "w");
    assert!(!map.get("Wide").unwrap().zero_width);
    assert_eq!(map.get("Wide").unwrap().width, Some(2));
    collect_emotes(&payload, "/missing", &mut map);
    collect_emotes(&Json::Bool(true), "/emotes", &mut map);
    assert_eq!(map.len(), 2);
}

#[test]
fn paths_lead_through_objects_and_lists() {
    let value = object(vec![(
        "a",
        Json::List(vec![Json::Unsigned(7), object(vec![("b", text("c"))])]),
    )]);
    assert_eq!(value.pointer("/a/0").unwrap().as_u64(), Some(7));
    assert_eq!(value.pointer("/a/1/b").unwrap().as_str(), Some("c"));
    assert!(value.pointer("/a/2").is_none());
    assert!(value.pointer("/a/01").is_none());
    assert!(value.pointer("/a/+1").is_none());
    assert!(value.pointer("/a/99999999999999999999999").is_none());
    assert!(value.pointer("a").is_none());
    assert!(value.pointer("/a/1/b/c").is_none());
    assert!(matches!(value.pointer(""), Some(Json::Object(_))));
    assert_eq!(value.get("a").unwrap().as_array().unwrap().len(), 2);
    assert_eq!(Json::Negative(-3).as_i64(), Some(-3));
    assert_eq!(Json::Unsigned(u64::MAX).as_i64(), None);
    assert_eq!(Json::Fraction.as_i64(), None);
}

#[test]
fn parser_preserves_text_when_cache_is_empty() {
    let segments = parse_segments(&EmoteCache::default(), "missing-channel", "hello  world");
    assert_eq!(segments.len(), 1);
    assert!(matches!(
        &segments[0],
        MessageSegment::Text { content } if content == "hello  world"
    ));
}

#[test]
fn parser_keeps_channel_caches_isolated() {
    let cache = cache_of(vec![
        ("room-one", vec![("OnlyOne", "one")]),
        ("room-two", vec![("OnlyTwo", "two")]),
    ]);
    let one = parse_segments(&cache, "room-one", "OnlyOne OnlyTwo");
    let two = parse_segments(&cache, "room-two", "OnlyOne OnlyTwo");
    assert!(matches!(&one[0], MessageSegment::Emote { content, .. } if content == "OnlyOne"));
    assert!(matches!(&two[1], MessageSegment::Emote { content, .. } if content == "OnlyTwo"));
}

#[test]
fn parts_stand_for_the_whole_message() {
    let cache = cache_of(vec![("room", vec![("Hi", "1"), ("Bye", "2")])]);
    for message in ["", " ", "Hi", "Hi Bye", "  Hi\u{3000}there Bye x", "HiBye", "Hi  "] {
        let segments = parse_segments(&cache, "ROOM", message);
        assert!(!segments.is_empty());
        let whole: String = segments.iter().map(content).collect();
        assert_eq!(whole, message);
    }
    let segments = parse_segments(&cache, "room", "a Hi Bye b");
    assert_eq!(segments.len(), 5);
    assert!(matches!(
        &segments[1],
        MessageSegment::Emote { emote_id: Some(id), emote_url, is_zero_width: Some(false), .. }
            if id == "1" && emote_url == "https://cdn.7tv.app/emote/1/2x.webp"
    ));
    assert!(matches!(&segments[2], MessageSegment::Text { content } if content == " "));
}

#[test]
fn emotes_are_looked_up_by_channel_and_word() {
    let cache = cache_of(vec![("room", vec![("Hi", "1")])]);
    assert_eq!(lookup(&cache, "Room", "Hi").unwrap().id, "1");
    assert!(lookup(&cache, "room", "hi").is_none());
    assert!(lookup(&cache, "other", "Hi").is_none());
}

fn set(name: &str, id: &str) -> Json {
    object(vec![(
        "emotes",
        Json::List(vec![object(vec![("name", text(name)), ("id", text(id))])]),
    )])
}

fn fetched(payload: Option<Json>) -> RefreshEvent {
    RefreshEvent::Fetched { payload, active_set: None }
}

fn url_of(action: &RefreshAction) -> String {
    match action {
        RefreshAction::Fetch { url } => url.clone(),
        _ => panic!("nothing to fetch"),
    }
}

fn start(cache: &EmoteCache, now: u64) -> EmoteRefresh {
    let (state, action) = refresh(cache, " Room ", now).unwrap();
    assert_eq!(state.slug, "room");
    assert_eq!(url_of(&action), "https://7tv.io/v3/emote-sets/global");
    state
}

#[test]
fn channel_emotes_win_over_global_ones() {
    let mut cache = EmoteCache::default();
    let mut state = start(&cache, 1);
    let globals = object(vec![(
        "emotes",
        Json::List(vec![
            object(vec![("name", text("Same")), ("id", text("global"))]),
            object(vec![("name", text("Shared")), ("id", text("shared"))]),
        ]),
    )]);
    let action = state.advance(fetched(Some(globals)));
    assert!(matches!(&action, RefreshAction::FindChannel { slug } if slug == "room"));
    let action = state.advance(RefreshEvent::Channel {
        emote_twitch_id: Some("77".to_string()),
    });
    assert_eq!(url_of(&action), "https://7tv.io/v3/users/twitch/77");
    let user = object(vec![("emote_set", set("Same", "own"))]);
    assert!(matches!(state.advance(fetched(Some(user))), RefreshAction::Finish));
    assert_eq!(state.finish(&mut cache, 10), 2);
    assert_eq!(lookup(&cache, "room", "Same").unwrap().id, "own");
    assert_eq!(lookup(&cache, "room", "Shared").unwrap().id, "shared");
    assert!(refresh(&cache, "room", 10 + EMOTE_TTL_MILLIS - 1).is_none());
    assert!(refresh(&cache, "room", 10 + EMOTE_TTL_MILLIS).is_some());
    assert!(refresh(&cache, "other", 10).is_some());
    assert!(refresh(&cache, "  ", 10).is_none());
}

#[test]
fn the_active_set_is_fetched_where_the_user_lists_none() {
    let mut cache = EmoteCache::default();
    let mut state = start(&cache, 1);
    state.advance(fetched(None));
    state.advance(RefreshEvent::Channel { emote_twitch_id: Some("77".to_string()) });
    let action = state.advance(RefreshEvent::Fetched {
        payload: Some(object(vec![])),
        active_set: Some("set9".to_string()),
    });
    assert_eq!(url_of(&action), "https://7tv.io/v3/emote-sets/set9");
    assert!(matches!(
        state.advance(fetched(Some(set("Nine", "9")))),
        RefreshAction::Finish
    ));
    assert_eq!(state.finish(&mut cache, 1), 1);
    assert_eq!(lookup(&cache, "room", "Nine").unwrap().id, "9");
}

#[test]
fn a_refresh_that_brings_nothing_keeps_what_was_there() {
    let mut cache = cache_of(vec![("room", vec![("Kept", "1")])]);
    let mut state = start(&cache, EMOTE_TTL_MILLIS);
    state.advance(fetched(None));
    assert!(matches!(
        state.advance(RefreshEvent::Channel { emote_twitch_id: None }),
        RefreshAction::Finish
    ));
    assert_eq!(state.finish(&mut cache, EMOTE_TTL_MILLIS), 0);
    assert_eq!(lookup(&cache, "room", "Kept").unwrap().id, "1");
    let mut state = start(&cache, EMOTE_TTL_MILLIS);
    state.advance(fetched(None));
    assert!(matches!(
        state.advance(RefreshEvent::Channel { emote_twitch_id: Some(String::new()) }),
        RefreshAction::Finish
    ));
}

fn good_cache() -> EmoteCache {
    cache_of(vec![("room", vec![("Own", "own"), ("Shared", "old"), ("Both", "mine")])])
}

fn globals() -> Json {
    object(vec![(
        "emotes",
        Json::List(vec![
            object(vec![("name", text("New")), ("id", text("new"))]),
            object(vec![("name", text("Both")), ("id", text("theirs"))]),
        ]),
    )])
}

fn shown(cache: &EmoteCache, word: &str) -> String {
    lookup(cache, "room", word).map(|emote| emote.id).unwrap_or_default()
}

#[test]
fn a_lost_channel_keeps_its_emotes_beside_the_new_globals() {
    let lost_lookup: Vec<RefreshEvent> = vec![RefreshEvent::ChannelFailed];
    let lost_user: Vec<RefreshEvent> = vec![
        RefreshEvent::Channel { emote_twitch_id: Some("77".to_string()) },
        fetched(None),
    ];
    let lost_set: Vec<RefreshEvent> = vec![
        RefreshEvent::Channel { emote_twitch_id: Some("77".to_string()) },
        RefreshEvent::Fetched {
            payload: Some(object(vec![])),
            active_set: Some("set9".to_string()),
        },
        fetched(None),
    ];
    for events in [lost_lookup, lost_user, lost_set] {
        let mut cache = good_cache();
        let mut state = start(&cache, EMOTE_TTL_MILLIS);
        let mut action = state.advance(fetched(Some(globals())));
        for event in events {
            assert!(!matches!(action, RefreshAction::Finish));
            action = state.advance(event);
        }
        assert!(matches!(action, RefreshAction::Finish));
        assert!(state.failed && state.own_failed);
        assert_eq!(state.finish(&mut cache, EMOTE_TTL_MILLIS), 2);
        assert_eq!(shown(&cache, "Own"), "own");
        assert_eq!(shown(&cache, "Shared"), "old");
        assert_eq!(shown(&cache, "Both"), "mine");
        assert_eq!(shown(&cache, "New"), "new");
    }
}

#[test]
fn lost_globals_stay_beside_the_new_set_of_the_channel() {
    let mut cache = good_cache();
    let mut state = start(&cache, EMOTE_TTL_MILLIS);
    state.advance(fetched(None));
    state.advance(RefreshEvent::Channel { emote_twitch_id: Some("77".to_string()) });
    let user = object(vec![("emote_set", set("Own", "newer"))]);
    assert!(matches!(state.advance(fetched(Some(user))), RefreshAction::Finish));
    assert!(state.failed && !state.own_failed);
    assert_eq!(state.finish(&mut cache, EMOTE_TTL_MILLIS), 1);
    assert_eq!(shown(&cache, "Own"), "newer");
    assert_eq!(shown(&cache, "Shared"), "old");
    assert_eq!(shown(&cache, "Both"), "mine");
}

#[test]
fn a_whole_refresh_replaces_what_was_there() {
    let mut cache = good_cache();
    let mut state = start(&cache, EMOTE_TTL_MILLIS);
    state.advance(fetched(Some(globals())));
    state.advance(RefreshEvent::Channel { emote_twitch_id: None });
    assert!(!state.failed);
    assert_eq!(state.finish(&mut cache, EMOTE_TTL_MILLIS), 2);
    assert_eq!(shown(&cache, "Own"), "");
    assert_eq!(shown(&cache, "Both"), "theirs");
}

#[test]
fn a_first_refresh_that_fails_in_part_keeps_what_came() {
    let mut cache = EmoteCache::default();
    let mut state = start(&cache, 1);
    state.advance(fetched(Some(globals())));
    state.advance(RefreshEvent::ChannelFailed);
    assert_eq!(state.finish(&mut cache, 1), 2);
    assert_eq!(shown(&cache, "New"), "new");
}

#[test]
fn steps_of_a_path_are_decoded() {
    let value = object(vec![
        ("a/b", Json::Unsigned(1)),
        ("m~n", Json::Unsigned(2)),
        ("~1", Json::Unsigned(3)),
        ("~", Json::Unsigned(4)),
        ("~2", Json::Unsigned(5)),
    ]);
    assert_eq!(value.pointer("/a~1b").unwrap().as_u64(), Some(1));
    assert_eq!(value.pointer("/m~0n").unwrap().as_u64(), Some(2));
    assert_eq!(value.pointer("/~01").unwrap().as_u64(), Some(3));
    assert_eq!(value.pointer("/~").unwrap().as_u64(), Some(4));
    assert_eq!(value.pointer("/~0").unwrap().as_u64(), Some(4));
    assert_eq!(value.pointer("/~2").unwrap().as_u64(), Some(5));
    assert!(value.pointer("/~1").is_none());
    let payload = object(vec![("a/b", Json::List(vec![object(vec![
        ("name", text("Deep")),
        ("id", text("d")),
    ])]))]);
    let mut map = TextMap::new();
    collect_emotes(&payload, "/a~1b", &mut map);
    assert_eq!(map.get("Deep").unwrap().id, "d");
}

#[test]
fn the_emotes_of_a_channel_are_listed() {
    let cache = cache_of(vec![("room", vec![("B", "2"), ("A", "1")])]);
    let list = channel_emote_set(&cache, "ROOM");
    assert_eq!(list.len(), 2);
    let mut names: Vec<&str> = list.iter().map(|emote| emote.name.as_str()).collect();
    names.sort();
    assert_eq!(names, vec!["A", "B"]);
    let first = list.iter().find(|emote| emote.name == "A").unwrap();
    assert_eq!(first.id, "1");
    assert_eq!(first.is_zero_width, Some(false));
    assert_eq!(first.width, Some(32));
    assert_eq!(first.provider, EmoteProvider::SevenTV);
    assert_eq!(first.owner_id, None);
    assert!(channel_emote_set(&cache, "none").is_empty());
}
