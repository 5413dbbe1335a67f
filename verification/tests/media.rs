use itzon::catalog::avatar_url;
use itzon::catalog::categories;
use itzon::catalog::count;
use itzon::catalog::directory;
use itzon::catalog::finish_search;
use itzon::catalog::live_check;
use itzon::catalog::row_from_channel;
use itzon::catalog::row_from_stream;
use itzon::catalog::search;
use itzon::catalog::search_needle;
use itzon::catalog::thumbnail_from;
use itzon::catalog::thumbnail_url;
use itzon::catalog::wanted_channels;
use itzon::catalog::ItzonSource;
use itzon::catalog::ProviderStream;
use itzon::media::channel_url;
use itzon::media::normalize_username;
use itzon::media::resolve_hls;
use itzon::media::resolve_hls_with;
use itzon::media::resolve_playback;
use itzon::media::start_heartbeat;
use itzon::media::stop_all_heartbeats_except;
use itzon::media::stop_heartbeat;
use itzon::media::take_resolved_playback;
use itzon::media::Heartbeats;
use itzon::media::ItzonCategory;
use itzon::media::ItzonChannel;
use itzon::media::ItzonExplore;
use itzon::media::ItzonPlayback;
use itzon::media::ItzonStream;
use itzon::media::PlaybackKind;
use itzon::media::ResolvedPlaybacks;
use itzon::urls::is_itzon_hls_url;
use itzon::urls::trusted_asset_url;
use itzon::urls::validate_itzon_base;

#[test]
fn itzon_media_normalizes_channel_names() {
    assert_eq!(normalize_username(" Zeenote ").unwrap(), "zeenote");
    assert!(normalize_username("bad/name").is_err());
}

#[test]
fn normalizes_channel_names() {
    assert_eq!(normalize_username(" Zeenote ").unwrap(), "zeenote");
    assert!(normalize_username("bad/name").is_err());
}

#[test]
fn itzon_media_accepts_only_itzon_hls_edges() {
    assert_eq!(
        validate_itzon_base("https://de-hls.itzon.tv/").unwrap(),
        "https://de-hls.itzon.tv"
    );
    assert!(validate_itzon_base("http://de-hls.itzon.tv").is_err());
    assert!(validate_itzon_base("https://itzon.tv.evil.example").is_err());
}

#[test]
fn accepts_only_itzon_hls_edges() {
    assert_eq!(
        validate_itzon_base("https://de-hls.itzon.tv/").unwrap(),
        "https://de-hls.itzon.tv"
    );
    assert!(validate_itzon_base("http://de-hls.itzon.tv").is_err());
    assert!(validate_itzon_base("https://itzon.tv.evil.example").is_err());
}

#[test]
fn itzon_media_recognizes_only_itzon_hls_hosts() {
    assert!(is_itzon_hls_url(
        "https://de-hls.itzon.tv/hls/channel/live.m3u8"
    ));
    assert!(is_itzon_hls_url("https://itzon.tv/hls/live.m3u8"));
    assert!(!is_itzon_hls_url(
        "https://itzon.tv.evil.example/hls/live.m3u8"
    ));
    assert!(!is_itzon_hls_url("not a URL"));
}

#[test]
fn recognizes_only_itzon_hls_hosts() {
    assert!(is_itzon_hls_url(
        "https://de-hls.itzon.tv/hls/channel/live.m3u8"
    ));
    assert!(is_itzon_hls_url("https://itzon.tv/hls/live.m3u8"));
    assert!(!is_itzon_hls_url(
        "https://itzon.tv.evil.example/hls/live.m3u8"
    ));
    assert!(!is_itzon_hls_url("not a URL"));
}

#[test]
fn edges_say_why_they_are_refused() {
    let error = |base: &str| validate_itzon_base(base).unwrap_err().message();
    assert_eq!(error("nothing"), "itzon returned an invalid HLS edge");
    assert_eq!(error("http://itzon.tv"), "itzon HLS edge must use HTTPS");
    assert_eq!(error("https://example.org"), "itzon returned an untrusted HLS edge");
    assert_eq!(
        validate_itzon_base("https://itzon.tv/a//").unwrap(),
        "https://itzon.tv/a"
    );
}

#[test]
fn names_are_normalized_once() {
    let name = normalize_username("\tA-b_C\u{3000}").unwrap();
    assert_eq!(name, "a-b_c");
    assert_eq!(normalize_username(&name).unwrap(), name);
    assert_eq!(
        normalize_username(&"a".repeat(65)).unwrap_err().message(),
        "invalid itzon channel name"
    );
    assert!(normalize_username(&"a".repeat(64)).is_ok());
    assert_eq!(
        channel_url("Zeenote").unwrap(),
        "https://itzon.tv/api/live/channel/zeenote"
    );
    assert!(channel_url("").is_err());
}

#[test]
fn pictures_come_from_trusted_hosts_only() {
    assert_eq!(
        trusted_asset_url("https://cdn.itzon.tv/a b.png").as_deref(),
        Some("https://cdn.itzon.tv/a%20b.png")
    );
    assert_eq!(trusted_asset_url("http://cdn.itzon.tv/a.png"), None);
    assert_eq!(trusted_asset_url("https://example.org/a.png"), None);
    assert_eq!(trusted_asset_url("data:,x"), None);
    assert_eq!(
        avatar_url("a b/\u{fc}~"),
        "https://itzon.tv/api/live/profile/a%20b%2F%C3%BC~/avatar"
    );
    assert_eq!(
        thumbnail_from("u", Some("own".to_string()), Some("base".to_string()), 0),
        "own"
    );
    assert_eq!(
        thumbnail_from("u", None, Some("https://m.itzon.tv//".to_string()), 125),
        "https://m.itzon.tv/thumb/u.jpg?t=2"
    );
    assert_eq!(
        thumbnail_from("u", None, Some("https://m.itzon.tv".to_string()), -125),
        "https://m.itzon.tv/thumb/u.jpg?t=-2"
    );
    assert_eq!(
        thumbnail_from("u", None, Some("https://m.itzon.tv".to_string()), -59),
        "https://m.itzon.tv/thumb/u.jpg?t=0"
    );
    assert_eq!(thumbnail_from("u", None, None, 0), avatar_url("u"));
    let url = thumbnail_url("u", Some("https://m.itzon.tv/x/"), Some("https://example.org/y"));
    let minute: u64 = url
        .strip_prefix("https://m.itzon.tv/x/thumb/u.jpg?t=")
        .unwrap()
        .parse()
        .unwrap();
    assert!(minute > 29_000_000);
    assert_eq!(
        thumbnail_url("u", None, Some("https://itzon.tv/y")),
        "https://itzon.tv/y"
    );
}

fn channel(username: &str) -> ItzonChannel {
    ItzonChannel {
        username: username.to_string(),
        live: true,
        locked: false,
        partner: false,
        title: None,
        category: None,
        category_id: None,
        language: None,
        points_name: None,
        emote_twitch_id: None,
        thumbnail: None,
        hls_base: Some("https://de-hls.itzon.tv/".to_string()),
        media_base: None,
        wss_base: None,
    }
}

#[test]
fn channels_are_played_from_their_edge() {
    let playback = resolve_hls("Asked", &channel(" Told ")).unwrap();
    assert_eq!(playback.channel, "told");
    assert_eq!(playback.hls_url, "https://de-hls.itzon.tv/hls/told/live.m3u8");
    assert_eq!(playback.viewer_id.len(), 16);
    assert_eq!(
        playback.heartbeat_url,
        format!("https://de-hls.itzon.tv/hls/told/beat?id={}", playback.viewer_id)
    );
    let again = resolve_hls("Asked", &channel("bad name")).unwrap();
    assert_eq!(again.channel, "asked");
    assert_ne!(again.viewer_id, playback.viewer_id);
    let numbered = resolve_hls_with("Asked", &channel("told"), None, 255);
    assert!(numbered.is_err());
}

#[test]
fn channels_that_cannot_be_played_say_why() {
    let error = |channel: &ItzonChannel| resolve_hls("Asked", channel).unwrap_err().message();
    assert_eq!(
        error(&ItzonChannel { locked: true, live: false, ..channel("x") }),
        "itzon channel 'asked' is private"
    );
    assert_eq!(
        error(&ItzonChannel { live: false, ..channel("x") }),
        "itzon channel 'asked' is offline"
    );
    assert_eq!(
        error(&ItzonChannel { hls_base: None, ..channel("x") }),
        "itzon did not return an HLS edge for 'asked'"
    );
    assert_eq!(
        error(&ItzonChannel {
            hls_base: Some("https://example.org".to_string()),
            ..channel("x")
        }),
        "itzon returned an untrusted HLS edge"
    );
    assert_eq!(
        resolve_hls("a/b", &channel("x")).unwrap_err().message(),
        "invalid itzon channel name"
    );
}

fn playback(name: &str) -> ItzonPlayback {
    ItzonPlayback {
        channel: name.to_string(),
        hls_url: format!("h/{name}"),
        heartbeat_url: format!("b/{name}"),
        viewer_id: "0".to_string(),
    }
}

#[test]
fn heartbeats_stop_with_their_streams() {
    let mut heartbeats = Heartbeats::default();
    assert!(!start_heartbeat(&mut heartbeats, "one", &playback("a")));
    assert!(start_heartbeat(&mut heartbeats, "one", &playback("b")));
    start_heartbeat(&mut heartbeats, "two", &playback("c"));
    start_heartbeat(&mut heartbeats, "three", &playback("d"));
    assert!(stop_heartbeat(&mut heartbeats, "three"));
    assert!(!stop_heartbeat(&mut heartbeats, "three"));
    start_heartbeat(&mut heartbeats, "four", &playback("e"));
    let mut stopped = stop_all_heartbeats_except(&mut heartbeats, "two");
    stopped.sort();
    assert_eq!(stopped, vec!["four", "one"]);
    assert!(stop_all_heartbeats_except(&mut heartbeats, "two").is_empty());
    assert_eq!(stop_all_heartbeats_except(&mut heartbeats, ""), vec!["two"]);
}

#[test]
fn a_resolved_playback_is_taken_once() {
    let mut kept = ResolvedPlaybacks::default();
    let shown = resolve_playback(&mut kept, playback("room"));
    assert_eq!(shown.url, "h/room");
    assert_eq!(shown.kind, PlaybackKind::Hls);
    assert_eq!(shown.quality, "best");
    assert_eq!(shown.qualities.len(), 1);
    assert_eq!(shown.qualities[0].url, "h/room");
    assert!(take_resolved_playback(&mut kept, "a/b").is_none());
    assert_eq!(
        take_resolved_playback(&mut kept, " Room ").unwrap().heartbeat_url,
        "b/room"
    );
    assert!(take_resolved_playback(&mut kept, "room").is_none());
}

fn stream(username: &str, title: Option<&str>, category: Option<&str>, id: Option<u64>) -> ItzonStream {
    ItzonStream {
        username: username.to_string(),
        viewers: 5_000_000_000,
        thumbnail: None,
        hls_base: None,
        media_base: None,
        wss_base: None,
        language: Some("de".to_string()),
        title: title.map(String::from),
        category: category.map(String::from),
        category_id: id,
    }
}

fn category(id: u64, name: &str, viewers: u64) -> ItzonCategory {
    ItzonCategory {
        id,
        name: name.to_string(),
        live_stream_count: 3,
        viewer_count: viewers,
        image_url: Some("https://itzon.tv/c.png".to_string()),
    }
}

fn explore(streams: Vec<ItzonStream>, categories: Vec<ItzonCategory>) -> ItzonExplore {
    ItzonExplore {
        streams,
        categories,
        hls_base: None,
        media_base: Some("https://m.itzon.tv".to_string()),
        wss_base: None,
    }
}

#[test]
fn rows_tell_of_streams() {
    let row = row_from_stream(&stream(" Zee ", Some(" "), None, Some(7)), None);
    assert_eq!(row.provider, "itzon");
    assert_eq!(row.key, "itzon:zee");
    assert_eq!(row.id, "itzon:zee");
    assert_eq!(row.user_id, "itzon:zee");
    assert_eq!(row.user_login, "zee");
    assert_eq!(row.user_name, "Zee");
    assert_eq!(row.title, "Zee live on itzon");
    assert_eq!(row.viewer_count, u32::MAX);
    assert_eq!(row.game_id, "7");
    assert_eq!(row.game_name, "Live on itzon");
    assert_eq!(row.category_thumbnail, None);
    assert_eq!(row.thumbnail_url, avatar_url("zee"));
    assert_eq!(row.started_at, "");
    assert_eq!(row.profile_image_url, Some(avatar_url("zee")));
    assert!(row.is_live);
    assert_eq!(row.watch_url, "https://itzon.tv/zee");
    assert_eq!(row.tags, Some(vec!["de".to_string()]));
    let row = row_from_channel(&ItzonChannel {
        title: Some("Hello".to_string()),
        category: Some("Games".to_string()),
        live: false,
        thumbnail: Some("https://itzon.tv/t.png".to_string()),
        ..channel("Zee")
    });
    assert_eq!(row.title, "Hello");
    assert_eq!(row.viewer_count, 0);
    assert_eq!(row.game_id, "");
    assert_eq!(row.game_name, "Games");
    assert_eq!(row.thumbnail_url, "https://itzon.tv/t.png");
    assert!(!row.is_live);
    assert_eq!(row.tags, None);
    assert_eq!(count(7), 7);
    assert_eq!(count(u64::MAX), u32::MAX);
}

fn logins(rows: Vec<ProviderStream>) -> Vec<String> {
    rows.into_iter().map(|row| row.user_login).collect()
}

#[test]
fn the_directory_is_filtered_and_limited() {
    let data = explore(
        vec![
            stream("a", None, Some("Games"), Some(7)),
            stream("b", None, Some("7"), None),
            stream("c", None, None, None),
            stream("d", None, Some("gAMES"), None),
        ],
        vec![],
    );
    assert_eq!(logins(directory(&data, None, 50).streams), vec!["a", "b", "c", "d"]);
    assert_eq!(logins(directory(&data, None, 0).streams), vec!["a"]);
    assert_eq!(logins(directory(&data, Some("7"), 50).streams), vec!["a", "b"]);
    assert_eq!(logins(directory(&data, Some("games"), 50).streams), vec!["a", "d"]);
    assert_eq!(logins(directory(&data, Some("games"), 1).streams), vec!["a"]);
    let many = explore((0..150).map(|n| stream(&format!("s{n}"), None, None, None)).collect(), vec![]);
    assert_eq!(directory(&many, None, 4000).streams.len(), 100);
    assert_eq!(directory(&many, None, 4000).cursor, None);
    let page = directory(&data, None, 1);
    let row = &page.streams[0];
    assert!(row.thumbnail_url.starts_with("https://m.itzon.tv/thumb/a.jpg?t="));
}

#[test]
fn streams_are_searched_by_name_title_and_category() {
    let data = explore(
        vec![
            stream("Zeenote", None, None, None),
            stream("b", Some("A zEe title"), None, None),
            stream("c", None, Some("ZEE"), None),
            stream("d", None, None, None),
        ],
        vec![],
    );
    assert_eq!(search_needle(" Zee "), Some("zee".to_string()));
    assert_eq!(search_needle("  "), None);
    assert_eq!(logins(search(&data, "zee").streams), vec!["zeenote", "b", "c"]);
    assert!(search(&data, "nothing").streams.is_empty());
    assert_eq!(search(&data, "nothing").cursor, None);
}

#[test]
fn a_search_without_a_match_falls_back_to_the_channel() {
    let data = explore(vec![stream("Zeenote", None, None, None)], vec![]);
    let other = channel("Other");
    let kept = finish_search(search(&data, "zee"), Some(&other));
    assert_eq!(kept.cursor, None);
    assert_eq!(logins(kept.streams), vec!["zeenote"]);
    let fallen = finish_search(search(&data, "nothing"), Some(&other));
    assert_eq!(fallen.cursor, None);
    assert_eq!(logins(fallen.streams), vec!["other"]);
    let none = finish_search(search(&data, "nothing"), None);
    assert!(none.streams.is_empty());
    assert_eq!(none.cursor, None);
}

#[test]
fn live_channels_are_picked_by_name() {
    let data = explore(
        vec![stream("A", None, None, None), stream("b", None, None, None)],
        vec![],
    );
    let names = |list: &[&str]| wanted_channels(&list.iter().map(|n| n.to_string()).collect());
    assert_eq!(logins(live_check(&data, &names(&[" a ", "x/y"]))), vec!["a"]);
    assert_eq!(names(&["x/y", ""]).len(), 0);
    assert_eq!(logins(live_check(&data, &names(&["B", "A"]))), vec!["a", "b"]);
}

#[test]
fn categories_come_with_the_most_viewers_first() {
    let data = explore(
        vec![],
        vec![
            category(1, "one", 5),
            category(2, "two", 9),
            category(3, "three", 5),
            category(4, "four", u64::MAX),
            ItzonCategory { image_url: Some("http://itzon.tv/x".to_string()), ..category(5, "five", 0) },
        ],
    );
    let page = categories(&data, 50);
    assert_eq!(page.cursor, None);
    let list = page.categories;
    let names: Vec<&str> = list.iter().map(|row| row.name.as_str()).collect();
    assert_eq!(names, vec!["four", "two", "one", "three", "five"]);
    assert_eq!(list[0].viewer_count, u32::MAX);
    assert_eq!(list[0].channel_count, 3);
    assert_eq!(list[0].id, "4");
    assert_eq!(list[0].provider, "itzon");
    assert_eq!(list[0].thumbnail, "https://itzon.tv/c.png");
    assert_eq!(list[4].thumbnail, "");
    assert_eq!(categories(&data, 2).categories.len(), 2);
    assert_eq!(categories(&data, 0).categories.len(), 1);
}

#[test]
fn the_source_names_what_it_can_do() {
    let source = ItzonSource::new();
    assert_eq!(source.id(), "itzon");
    let caps = source.caps();
    assert!(caps.playback && caps.directory && caps.search && caps.native_follows && caps.live_check);
}
