//! Live channels: how they are listed, found and played.
use crate::error::ItzonError;
use crate::letters;
use crate::oauth;
use crate::sending;
use crate::text;
use crate::text_map::TextMap;
use crate::urls;
use crate::urls::ParsedUrl;
use crate::urls::UrlView;
use vstd::prelude::*;
use vstd::string::*;

verus! {

/// The most rows of a page.
pub const MAX_PAGE: u32 = 100;

/// A live stream in the catalog.
#[derive(Debug)]
pub struct ItzonStream {
    pub username: String,
    pub viewers: u64,
    pub thumbnail: Option<String>,
    pub hls_base: Option<String>,
    pub media_base: Option<String>,
    pub wss_base: Option<String>,
    pub language: Option<String>,
    pub title: Option<String>,
    pub category: Option<String>,
    pub category_id: Option<u64>,
}

pub struct StreamView {
    pub username: Seq<char>,
    pub viewers: u64,
    pub thumbnail: Option<Seq<char>>,
    pub hls_base: Option<Seq<char>>,
    pub media_base: Option<Seq<char>>,
    pub wss_base: Option<Seq<char>>,
    pub language: Option<Seq<char>>,
    pub title: Option<Seq<char>>,
    pub category: Option<Seq<char>>,
    pub category_id: Option<u64>,
}

impl View for ItzonStream {
    type V = StreamView;

    open spec fn view(&self) -> StreamView {
        StreamView {
            username: self.username@,
            viewers: self.viewers,
            thumbnail: self.thumbnail.deep_view(),
            hls_base: self.hls_base.deep_view(),
            media_base: self.media_base.deep_view(),
            wss_base: self.wss_base.deep_view(),
            language: self.language.deep_view(),
            title: self.title.deep_view(),
            category: self.category.deep_view(),
            category_id: self.category_id,
        }
    }
}

impl DeepView for ItzonStream {
    type V = StreamView;

    open spec fn deep_view(&self) -> StreamView {
        self@
    }
}

/// A category of the catalog.
#[derive(Debug)]
pub struct ItzonCategory {
    pub id: u64,
    pub name: String,
    pub live_stream_count: u64,
    pub viewer_count: u64,
    pub image_url: Option<String>,
}

pub struct CategoryView {
    pub id: u64,
    pub name: Seq<char>,
    pub live_stream_count: u64,
    pub viewer_count: u64,
    pub image_url: Option<Seq<char>>,
}

impl View for ItzonCategory {
    type V = CategoryView;

    open spec fn view(&self) -> CategoryView {
        CategoryView {
            id: self.id,
            name: self.name@,
            live_stream_count: self.live_stream_count,
            viewer_count: self.viewer_count,
            image_url: self.image_url.deep_view(),
        }
    }
}

impl DeepView for ItzonCategory {
    type V = CategoryView;

    open spec fn deep_view(&self) -> CategoryView {
        self@
    }
}

/// The catalog.
#[derive(Debug)]
pub struct ItzonExplore {
    pub streams: Vec<ItzonStream>,
    pub categories: Vec<ItzonCategory>,
    pub hls_base: Option<String>,
    pub media_base: Option<String>,
    pub wss_base: Option<String>,
}

/// What is told of a channel.
#[derive(Debug)]
pub struct ItzonChannel {
    pub username: String,
    pub live: bool,
    pub locked: bool,
    pub partner: bool,
    pub title: Option<String>,
    pub category: Option<String>,
    pub category_id: Option<u64>,
    pub language: Option<String>,
    pub points_name: Option<String>,
    pub emote_twitch_id: Option<String>,
    pub thumbnail: Option<String>,
    pub hls_base: Option<String>,
    pub media_base: Option<String>,
    pub wss_base: Option<String>,
}

pub struct ChannelView {
    pub username: Seq<char>,
    pub live: bool,
    pub locked: bool,
    pub partner: bool,
    pub title: Option<Seq<char>>,
    pub category: Option<Seq<char>>,
    pub category_id: Option<u64>,
    pub language: Option<Seq<char>>,
    pub points_name: Option<Seq<char>>,
    pub emote_twitch_id: Option<Seq<char>>,
    pub thumbnail: Option<Seq<char>>,
    pub hls_base: Option<Seq<char>>,
    pub media_base: Option<Seq<char>>,
    pub wss_base: Option<Seq<char>>,
}

impl View for ItzonChannel {
    type V = ChannelView;

    open spec fn view(&self) -> ChannelView {
        ChannelView {
            username: self.username@,
            live: self.live,
            locked: self.locked,
            partner: self.partner,
            title: self.title.deep_view(),
            category: self.category.deep_view(),
            category_id: self.category_id,
            language: self.language.deep_view(),
            points_name: self.points_name.deep_view(),
            emote_twitch_id: self.emote_twitch_id.deep_view(),
            thumbnail: self.thumbnail.deep_view(),
            hls_base: self.hls_base.deep_view(),
            media_base: self.media_base.deep_view(),
            wss_base: self.wss_base.deep_view(),
        }
    }
}

/// How a channel is played.
#[derive(Debug)]
pub struct ItzonPlayback {
    pub channel: String,
    pub hls_url: String,
    pub heartbeat_url: String,
    pub viewer_id: String,
}

pub struct PlaybackView {
    pub channel: Seq<char>,
    pub hls_url: Seq<char>,
    pub heartbeat_url: Seq<char>,
    pub viewer_id: Seq<char>,
}

impl View for ItzonPlayback {
    type V = PlaybackView;

    open spec fn view(&self) -> PlaybackView {
        PlaybackView {
            channel: self.channel@,
            hls_url: self.hls_url@,
            heartbeat_url: self.heartbeat_url@,
            viewer_id: self.viewer_id@,
        }
    }
}

/// The name of a channel in its normal form.
pub open spec fn username_of(name: Seq<char>) -> Seq<char> {
    letters::lowercase(text::trimmed(name))
}

pub fn normalize_username(username: &str) -> (r: Result<String, ItzonError>)
    ensures
        match r {
            Ok(name) => {
                &&& name@ == username_of(username@)
                &&& oauth::is_username(name@)
                &&& username_of(name@) == name@
                &&& urls::percent_encoded(name@) == name@
            },
            Err(error) => !oauth::is_username(username_of(username@)) && error
                is InvalidChannelName,
        },
{
    let name = letters::to_lowercase(text::trim(username));
    if !oauth::valid_username(name.as_str()) {
        return Err(ItzonError::InvalidChannelName);
    }
    proof {
        sending::lemma_slug_fixed(name@);
        assert forall|i: int| 0 <= i < name@.len() implies letters::is_ascii_alphanumeric(
            #[trigger] name@[i],
        ) || name@[i] == '-' || name@[i] == '_' by {
            assert(sending::is_slug_char(name@[i]));
        }
        urls::lemma_percent_encoded_plain(name@);
    }
    Ok(name)
}

/// Where the site tells of a channel.
pub open spec fn channel_address(name: Seq<char>) -> Seq<char> {
    "https://itzon.tv/api/live/channel/"@ + urls::percent_encoded(name)
}

/// The address to ask about a channel.
pub fn channel_url(username: &str) -> (r: Result<String, ItzonError>)
    ensures
        match r {
            Ok(url) => oauth::is_username(username_of(username@)) && url@ == channel_address(
                username_of(username@),
            ),
            Err(error) => !oauth::is_username(username_of(username@)) && error
                is InvalidChannelName,
        },
{
    match normalize_username(username) {
        Ok(name) => {
            let mut url = "https://itzon.tv/api/live/channel/".to_string();
            url.append(urls::percent_encode(name.as_str()).as_str());
            Ok(url)
        },
        Err(error) => Err(error),
    }
}

/// How a channel is played from an edge, by the viewer with the number.
pub open spec fn playback(name: Seq<char>, edge: Seq<char>, viewer: u64) -> PlaybackView {
    let encoded = urls::percent_encoded(name);
    let viewer_id = letters::hex16(viewer);
    PlaybackView {
        channel: name,
        hls_url: edge + "/hls/"@ + encoded + "/live.m3u8"@,
        heartbeat_url: edge + "/hls/"@ + encoded + "/beat?id="@ + viewer_id,
        viewer_id,
    }
}

/// The name under which a channel is played: the one that is told of it, or else the one that was
/// asked for.
pub open spec fn played_name(asked: Seq<char>, told: Seq<char>) -> Seq<char> {
    if oauth::is_username(username_of(told)) {
        username_of(told)
    } else {
        username_of(asked)
    }
}

/// How a channel that was asked for is played, or why it is not.
pub open spec fn resolved(
    username: Seq<char>,
    channel: ChannelView,
    url: Option<Result<UrlView, Seq<char>>>,
    viewer: u64,
) -> Result<PlaybackView, Seq<char>> {
    let requested = username_of(username);
    if !oauth::is_username(requested) {
        Err(ItzonError::InvalidChannelName.text())
    } else if channel.locked {
        Err("itzon channel '"@ + requested + "' is private"@)
    } else if !channel.live {
        Err("itzon channel '"@ + requested + "' is offline"@)
    } else {
        match (channel.hls_base, url) {
            (Some(base), Some(url)) => match urls::edge(base, url) {
                Ok(edge) => Ok(playback(played_name(username, channel.username), edge, viewer)),
                Err(reason) => Err(reason),
            },
            _ => Err("itzon did not return an HLS edge for '"@ + requested + "'"@),
        }
    }
}

pub open spec fn playback_result(r: Result<ItzonPlayback, ItzonError>) -> Result<
    PlaybackView,
    Seq<char>,
> {
    match r {
        Ok(playback) => Ok(playback@),
        Err(error) => Err(error.text()),
    }
}

pub open spec fn url_results(url: Option<Result<ParsedUrl, String>>) -> Option<
    Result<UrlView, Seq<char>>,
> {
    match url {
        Some(url) => Some(urls::url_result(url)),
        None => None,
    }
}

/// How a channel is played, with the URL that its edge is and the number of the viewer.
pub fn resolve_hls_with(
    username: &str,
    channel: &ItzonChannel,
    url: Option<Result<ParsedUrl, String>>,
    viewer: u64,
) -> (r: Result<ItzonPlayback, ItzonError>)
    ensures
        playback_result(r) == resolved(username@, channel@, url_results(url), viewer),
{
    let requested = match normalize_username(username) {
        Ok(name) => name,
        Err(error) => {
            return Err(error);
        },
    };
    if channel.locked {
        return Err(ItzonError::PrivateChannel(requested));
    }
    if !channel.live {
        return Err(ItzonError::OfflineChannel(requested));
    }
    let edge: String = match (&channel.hls_base, &url) {
        (Some(base), Some(url)) => match urls::edge_from(base.as_str(), url) {
            Ok(edge) => edge,
            Err(error) => {
                return Err(error);
            },
        },
        _ => {
            return Err(ItzonError::MissingEdge(requested));
        },
    };
    let name: String = match normalize_username(channel.username.as_str()) {
        Ok(name) => name,
        Err(_) => requested,
    };
    let encoded = urls::percent_encode(name.as_str());
    let viewer_id = letters::to_hex16(viewer);
    let mut hls_url = edge.clone();
    hls_url.append("/hls/");
    hls_url.append(encoded.as_str());
    hls_url.append("/live.m3u8");
    let mut heartbeat_url = edge;
    heartbeat_url.append("/hls/");
    heartbeat_url.append(encoded.as_str());
    heartbeat_url.append("/beat?id=");
    heartbeat_url.append(viewer_id.as_str());
    Ok(ItzonPlayback { channel: name, hls_url, heartbeat_url, viewer_id })
}

/// `rand::Rng::random` of `rand::rng`: any number, left to chance. Where the machine gives no random
/// bytes, the call stops the program.
#[verifier::external_body]
fn random_number() -> u64 {
    rand::Rng::random::<u64>(&mut rand::rng())
}

/// The URL that the edge of a channel is.
pub open spec fn told_edge(channel: ChannelView) -> Option<Result<UrlView, Seq<char>>> {
    match channel.hls_base {
        Some(base) => Some(urls::url_of(base)),
        None => None,
    }
}

/// How a channel that was asked for is played, after the site told of it.
pub fn resolve_hls(username: &str, channel: &ItzonChannel) -> (r: Result<
    ItzonPlayback,
    ItzonError,
>)
    ensures
        exists|viewer: u64|
            playback_result(r) == #[trigger] resolved(
                username@,
                channel@,
                told_edge(channel@),
                viewer,
            ),
{
    let url: Option<Result<ParsedUrl, String>> = match &channel.hls_base {
        Some(base) => Some(urls::parse_url(base.as_str())),
        None => None,
    };
    let viewer = random_number();
    let ghost told = url_results(url);
    assert(told == told_edge(channel@));
    let r = resolve_hls_with(username, channel, url, viewer);
    assert(playback_result(r) == resolved(username@, channel@, told, viewer));
    r
}

/// What is played comes from an edge of the service over TLS, under a proper name.
pub proof fn playback_comes_from_trusted_edges(
    username: Seq<char>,
    channel: ChannelView,
    url: Option<Result<UrlView, Seq<char>>>,
    viewer: u64,
)
    ensures
        resolved(username, channel, url, viewer) matches Ok(found) ==> {
            &&& !channel.locked
            &&& channel.live
            &&& url matches Some(Ok(edge)) && edge.scheme == "https"@ && (edge.host matches Some(
                host,
            ) && urls::is_trusted_host(host))
            &&& oauth::is_username(found.channel)
            &&& found.viewer_id.len() == 16
        },
{
}

/// The heartbeats that run: where each is sent, by the stream that it is for.
pub struct Heartbeats {
    running: TextMap<String>,
}

impl View for Heartbeats {
    type V = Map<Seq<char>, Seq<char>>;

    closed spec fn view(&self) -> Map<Seq<char>, Seq<char>> {
        self.running@
    }
}

impl Default for Heartbeats {
    fn default() -> (r: Heartbeats)
        ensures
            r@ == Map::<Seq<char>, Seq<char>>::empty(),
    {
        Heartbeats { running: TextMap::new() }
    }
}

/// Notes the heartbeat of a stream. Says whether one that runs for it is to be stopped first.
pub fn start_heartbeat(heartbeats: &mut Heartbeats, stream_id: &str, playback: &ItzonPlayback) -> (r:
    bool)
    ensures
        r == old(heartbeats)@.contains_key(stream_id@),
        final(heartbeats)@ == old(heartbeats)@.insert(stream_id@, playback@.heartbeat_url),
{
    let running = stop_heartbeat(heartbeats, stream_id);
    heartbeats.running.insert(stream_id.to_string(), playback.heartbeat_url.clone());
    assert(heartbeats@ =~= old(heartbeats)@.insert(stream_id@, playback@.heartbeat_url));
    running
}

/// Forgets the heartbeat of a stream. Says whether there is one to be stopped.
pub fn stop_heartbeat(heartbeats: &mut Heartbeats, stream_id: &str) -> (r: bool)
    ensures
        r == old(heartbeats)@.contains_key(stream_id@),
        final(heartbeats)@ == old(heartbeats)@.remove(stream_id@),
{
    heartbeats.running.remove(stream_id).is_some()
}

/// Forgets all heartbeats but that of one stream. Says which are to be stopped.
pub fn stop_all_heartbeats_except(heartbeats: &mut Heartbeats, except: &str) -> (r: Vec<String>)
    ensures
        final(heartbeats)@ == old(heartbeats)@.restrict(set![except@]),
        r.deep_view().no_duplicates(),
        forall|id: Seq<char>| #[trigger]
            r.deep_view().contains(id) <==> old(heartbeats)@.contains_key(id) && id != except@,
{
    let count = heartbeats.running.len();
    let ghost all = heartbeats@;
    let ghost names = heartbeats.running.names();
    let mut stopped: Vec<String> = Vec::new();
    let mut kept: TextMap<String> = TextMap::new();
    let mut i: usize = 0;
    while i < count
        invariant
            all == heartbeats@,
            names == heartbeats.running.names(),
            crate::text_map::in_order(names),
            count == names.len(),
            i <= count,
            forall|k: int| 0 <= k < names.len() ==> all.contains_key(#[trigger] names[k]),
            forall|id: Seq<char>| #[trigger]
                stopped.deep_view().contains(id) <==> id != except@ && names.take(
                    i as int,
                ).contains(id),
            stopped.deep_view().no_duplicates(),
            kept@ == (if names.take(i as int).contains(except@) {
                Map::empty().insert(except@, all[except@])
            } else {
                Map::empty()
            }),
        decreases count - i,
    {
        let id = heartbeats.running.key_at(i);
        let ghost before = stopped.deep_view();
        let ghost seen = names.take(i as int);
        proof {
            assert(names.take(i + 1) =~= seen.push(names[i as int]));
            assert(names.take(i + 1).last() == names[i as int]);
            assert(!seen.contains(names[i as int])) by {
                if seen.contains(names[i as int]) {
                    let k = choose|k: int| 0 <= k < seen.len() && seen[k] == names[i as int];
                    crate::text_map::lemma_precedes_irreflexive(names[k]);
                    assert(crate::text_map::precedes(names[k], names[i as int]));
                }
            }
        }
        if text::same_text(id, except) {
            kept.insert(id.to_string(), heartbeats.running.value_at(i).clone());
            assert(kept@ =~= Map::empty().insert(except@, all[except@]));
        } else {
            stopped.push(id.to_string());
            assert(stopped.deep_view() =~= before.push(id@));
        }
        proof {
            let now = stopped.deep_view();
            let more = names.take(i + 1);
            assert forall|one: Seq<char>| #[trigger]
                names.take(i + 1).contains(one) <==> seen.contains(one) || one == names[i as int] by {
                if seen.contains(one) {
                    let k = choose|k: int| 0 <= k < seen.len() && seen[k] == one;
                    assert(names.take(i + 1)[k] == one);
                }
                if one == names[i as int] {
                    assert(names.take(i + 1)[i as int] == one);
                }
                if names.take(i + 1).contains(one) {
                    let k = choose|k: int| 0 <= k < more.len() && more[k] == one;
                    if k < i {
                        assert(seen[k] == one);
                    }
                }
            }
            assert forall|one: Seq<char>| #[trigger]
                now.contains(one) <==> one != except@ && names.take(i + 1).contains(one) by {
                assert(before.contains(one) <==> one != except@ && seen.contains(one));
                if before.contains(one) {
                    let k = choose|k: int| 0 <= k < before.len() && before[k] == one;
                    assert(now[k] == one);
                }
                if one == names[i as int] && one != except@ {
                    assert(now[before.len() as int] == one);
                }
                if now.contains(one) {
                    let k = choose|k: int| 0 <= k < now.len() && now[k] == one;
                    if k < before.len() {
                        assert(before[k] == one);
                        assert(before.contains(one));
                    }
                }
            }
            assert(!before.contains(names[i as int]));
            assert(now.no_duplicates());
        }
        i = i + 1;
    }
    proof {
        assert(names.take(i as int) =~= names);
        assert forall|one: Seq<char>| names.contains(one) <==> #[trigger] all.contains_key(one) by {
            assert(names.to_set().contains(one) <==> all.dom().contains(one));
        }
        assert(kept@ =~= all.restrict(set![except@]));
    }
    heartbeats.running = kept;
    stopped
}

/// How the channels that were asked for last are played.
pub struct ResolvedPlaybacks {
    playbacks: TextMap<ItzonPlayback>,
}

impl View for ResolvedPlaybacks {
    type V = Map<Seq<char>, PlaybackView>;

    closed spec fn view(&self) -> Map<Seq<char>, PlaybackView> {
        self.playbacks@
    }
}

impl Default for ResolvedPlaybacks {
    fn default() -> (r: ResolvedPlaybacks)
        ensures
            r@ == Map::<Seq<char>, PlaybackView>::empty(),
    {
        ResolvedPlaybacks { playbacks: TextMap::new() }
    }
}

/// How a stream comes.
#[derive(Clone, Copy, Debug, PartialEq, Eq, Structural)]
pub enum PlaybackKind {
    Hls,
}

/// How a player plays a channel: the best quality is the only one.
#[derive(Debug)]
pub struct ResolvedPlayback {
    pub kind: PlaybackKind,
    pub url: String,
    pub quality: String,
    pub qualities: Vec<PlaybackQuality>,
}

#[derive(Debug)]
pub struct PlaybackQuality {
    pub name: String,
    pub url: String,
    pub width: Option<u32>,
    pub height: Option<u32>,
    pub bandwidth: Option<u64>,
}

/// Keeps how a channel is played until that is asked for, and tells the player of it.
pub fn resolve_playback(kept: &mut ResolvedPlaybacks, playback: ItzonPlayback) -> (r:
    ResolvedPlayback)
    ensures
        final(kept)@ == old(kept)@.insert(playback@.channel, playback@),
        r.kind is Hls,
        r.url@ == playback@.hls_url,
        r.quality@ == "best"@,
        r.qualities@.len() == 1,
        r.qualities@[0].name@ == "best"@,
        r.qualities@[0].url@ == playback@.hls_url,
        r.qualities@[0].width is None,
        r.qualities@[0].height is None,
        r.qualities@[0].bandwidth is None,
{
    let url = playback.hls_url.clone();
    let best = PlaybackQuality {
        name: "best".to_string(),
        url: url.clone(),
        width: None,
        height: None,
        bandwidth: None,
    };
    kept.playbacks.insert(playback.channel.clone(), playback);
    ResolvedPlayback {
        kind: PlaybackKind::Hls,
        url,
        quality: "best".to_string(),
        qualities: vec![best],
    }
}

/// Takes out how a channel is played, if that was kept.
pub fn take_resolved_playback(kept: &mut ResolvedPlaybacks, channel: &str) -> (r: Option<
    ItzonPlayback,
>)
    ensures
        ({
            let name = username_of(channel@);
            if oauth::is_username(name) {
                &&& final(kept)@ == old(kept)@.remove(name)
                &&& match r {
                    Some(playback) => old(kept)@.contains_key(name) && playback@ == old(kept)@[name],
                    None => !old(kept)@.contains_key(name),
                }
            } else {
                r is None && final(kept)@ == old(kept)@
            }
        }),
{
    match normalize_username(channel) {
        Ok(name) => kept.playbacks.remove(name.as_str()),
        Err(_) => None,
    }
}

/// What is played comes from the edge that the site tells of the channel for that, whatever its
/// other addresses are: the playlist and the heartbeat lie behind the edge, under the name of the
/// channel, and the heartbeat names the viewer.
pub proof fn playback_lies_behind_the_edge(
    username: Seq<char>,
    channel: ChannelView,
    url: Option<Result<UrlView, Seq<char>>>,
    viewer: u64,
)
    ensures
        resolved(username, channel, url, viewer) matches Ok(found) ==> channel.hls_base matches Some(
            base,
        ) && exists|n: int| #[trigger]
            is_stem(base, n) && found.hls_url == base.take(n) + "/hls/"@ + found.channel
                + "/live.m3u8"@ && found.heartbeat_url == base.take(n) + "/hls/"@ + found.channel
                + "/beat?id="@ + found.viewer_id,
{
    match resolved(username, channel, url, viewer) {
        Ok(found) => {
            let base = channel.hls_base->0;
            text::trimming_an_end_takes_one_character(base, '/');
            let n = text::trimmed_end(base, text::CharClass::Only('/')).len() as int;
            assert(is_stem(base, n));
            assert forall|i: int| 0 <= i < found.channel.len() implies letters::is_ascii_alphanumeric(
                #[trigger] found.channel[i],
            ) || found.channel[i] == '-' || found.channel[i] == '_' by {
                assert(sending::is_slug_char(found.channel[i]));
            }
            urls::lemma_percent_encoded_plain(found.channel);
        },
        Err(_) => {},
    }
}

/// Whether the first `n` characters are the address without the slashes at its end.
pub open spec fn is_stem(base: Seq<char>, n: int) -> bool {
    &&& 0 <= n <= base.len()
    &&& n > 0 ==> base[n - 1] != '/'
    &&& forall|i: int| n <= i < base.len() ==> #[trigger] base[i] == '/'
}

/// A channel is played under the name that the site tells of it, or else under the one that was
/// asked for; either in lower case and without white space around it.
pub proof fn a_channel_is_played_under_its_name(
    username: Seq<char>,
    channel: ChannelView,
    url: Option<Result<UrlView, Seq<char>>>,
    viewer: u64,
)
    ensures
        resolved(username, channel, url, viewer) matches Ok(found) ==> {
            let told = letters::lowercase(text::trimmed(channel.username));
            let asked = letters::lowercase(text::trimmed(username));
            &&& is_name(told) ==> found.channel == told
            &&& !is_name(told) ==> found.channel == asked
            &&& is_name(found.channel)
        },
{
    lemma_is_name(letters::lowercase(text::trimmed(channel.username)));
    lemma_is_name(letters::lowercase(text::trimmed(username)));
}

/// Whether a text can be the name of a channel: up to sixty-four letters, digits, `_` and `-`.
pub open spec fn is_name(name: Seq<char>) -> bool {
    &&& 1 <= name.len() <= 64
    &&& forall|i: int|
        0 <= i < name.len() ==> ('0' <= #[trigger] name[i] <= '9' || 'a' <= name[i] <= 'z' || 'A'
            <= name[i] <= 'Z' || name[i] == '_' || name[i] == '-')
}

pub proof fn lemma_is_name(name: Seq<char>)
    ensures
        is_name(name) <==> oauth::is_username(name),
{
    if oauth::is_username(name) {
        assert forall|i: int| 0 <= i < name.len() implies ('0' <= #[trigger] name[i] <= '9' || 'a'
            <= name[i] <= 'z' || 'A' <= name[i] <= 'Z' || name[i] == '_' || name[i] == '-') by {
            assert(sending::is_slug_char(name[i]));
        }
    }
}

/// A channel that was asked for by a proper name is played just where it is live, not private, and
/// has a trusted edge; and else the reason is told, with the name.
pub proof fn a_live_public_channel_is_played(
    username: Seq<char>,
    channel: ChannelView,
    url: Option<Result<UrlView, Seq<char>>>,
    viewer: u64,
)
    ensures
        ({
            let asked = letters::lowercase(text::trimmed(username));
            let r = resolved(username, channel, url, viewer);
            &&& r is Ok <==> is_name(asked) && !channel.locked && channel.live
                && channel.hls_base is Some && (url matches Some(Ok(edge)) && edge.scheme
                == "https"@ && (edge.host matches Some(host) && urls::is_trusted_host(host)))
            &&& is_name(asked) && channel.locked ==> r == Err::<PlaybackView, Seq<char>>(
                "itzon channel '"@ + asked + "' is private"@,
            )
            &&& is_name(asked) && !channel.locked && !channel.live ==> r == Err::<
                PlaybackView,
                Seq<char>,
            >("itzon channel '"@ + asked + "' is offline"@)
            &&& is_name(asked) && !channel.locked && channel.live && channel.hls_base is None ==> r
                == Err::<PlaybackView, Seq<char>>(
                "itzon did not return an HLS edge for '"@ + asked + "'"@,
            )
        }),
{
    lemma_is_name(letters::lowercase(text::trimmed(username)));
}

/// The viewer is told by sixteen hexadecimal digits that stand for the number, so that viewers are
/// told apart.
pub proof fn viewers_are_told_apart(
    name: Seq<char>,
    edge: Seq<char>,
    viewer: u64,
    other: u64,
)
    ensures
        playback(name, edge, viewer).viewer_id.len() == 16,
        forall|i: int|
            0 <= i < 16 ==> ('0' <= #[trigger] playback(name, edge, viewer).viewer_id[i] <= '9'
                || 'a' <= playback(name, edge, viewer).viewer_id[i] <= 'f'),
        playback(name, edge, viewer).viewer_id == playback(name, edge, other).viewer_id ==> viewer
            == other,
{
    letters::hex_tells_numbers_apart(viewer, other);
}

/// The site is asked about a channel under its name in lower case.
pub proof fn a_channel_is_asked_for_by_its_name(username: Seq<char>)
    requires
        is_name(letters::lowercase(text::trimmed(username))),
    ensures
        channel_address(username_of(username)) == "https://itzon.tv/api/live/channel/"@
            + letters::lowercase(text::trimmed(username)),
{
    let name = letters::lowercase(text::trimmed(username));
    assert forall|i: int| 0 <= i < name.len() implies letters::is_ascii_alphanumeric(
        #[trigger] name[i],
    ) || name[i] == '-' || name[i] == '_' by {}
    urls::lemma_percent_encoded_plain(name);
}

} // verus!
