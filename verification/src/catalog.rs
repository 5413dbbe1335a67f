//! The catalog of live channels: its rows, and how it is filtered, searched and ordered.
use crate::letters;
use crate::media;
use crate::media::CategoryView;
use crate::media::ChannelView;
use crate::media::ItzonCategory;
use crate::media::ItzonChannel;
use crate::media::ItzonExplore;
use crate::media::ItzonStream;
use crate::media::StreamView;
use crate::media::MAX_PAGE;
use crate::oauth;
use crate::sending;
use crate::text;
use crate::text::CharClass;
use crate::text_map::TextMap;
use crate::urls;
use vstd::prelude::*;
use vstd::string::*;

verus! {

/// A row of a list of channels.
#[derive(Debug)]
pub struct ProviderStream {
    pub provider: String,
    pub key: String,
    pub id: String,
    pub user_id: String,
    pub user_login: String,
    pub user_name: String,
    pub title: String,
    pub viewer_count: u32,
    pub game_id: String,
    pub game_name: String,
    pub category_thumbnail: Option<String>,
    pub thumbnail_url: String,
    pub started_at: String,
    pub profile_image_url: Option<String>,
    pub is_live: bool,
    pub watch_url: String,
    pub tags: Option<Vec<String>>,
}

pub struct RowView {
    pub provider: Seq<char>,
    pub key: Seq<char>,
    pub id: Seq<char>,
    pub user_id: Seq<char>,
    pub user_login: Seq<char>,
    pub user_name: Seq<char>,
    pub title: Seq<char>,
    pub viewer_count: u32,
    pub game_id: Seq<char>,
    pub game_name: Seq<char>,
    pub category_thumbnail: Option<Seq<char>>,
    pub thumbnail_url: Seq<char>,
    pub started_at: Seq<char>,
    pub profile_image_url: Option<Seq<char>>,
    pub is_live: bool,
    pub watch_url: Seq<char>,
    pub tags: Option<Seq<Seq<char>>>,
}

impl View for ProviderStream {
    type V = RowView;

    open spec fn view(&self) -> RowView {
        RowView {
            provider: self.provider@,
            key: self.key@,
            id: self.id@,
            user_id: self.user_id@,
            user_login: self.user_login@,
            user_name: self.user_name@,
            title: self.title@,
            viewer_count: self.viewer_count,
            game_id: self.game_id@,
            game_name: self.game_name@,
            category_thumbnail: self.category_thumbnail.deep_view(),
            thumbnail_url: self.thumbnail_url@,
            started_at: self.started_at@,
            profile_image_url: self.profile_image_url.deep_view(),
            is_live: self.is_live,
            watch_url: self.watch_url@,
            tags: self.tags.deep_view(),
        }
    }
}

impl DeepView for ProviderStream {
    type V = RowView;

    open spec fn deep_view(&self) -> RowView {
        self@
    }
}

/// A page of rows. There is never another page behind it.
#[derive(Debug)]
pub struct StreamPage {
    pub streams: Vec<ProviderStream>,
    pub cursor: Option<String>,
}

/// A number of viewers, as far as it fits.
pub open spec fn counted(value: u64) -> u32 {
    if value > u32::MAX {
        u32::MAX
    } else {
        value as u32
    }
}

pub fn count(value: u64) -> (r: u32)
    ensures
        r == counted(value),
{
    if value > u32::MAX as u64 {
        u32::MAX
    } else {
        value as u32
    }
}

pub open spec fn avatar(username: Seq<char>) -> Seq<char> {
    "https://itzon.tv/api/live/profile/"@ + urls::percent_encoded(username) + "/avatar"@
}

pub fn avatar_url(username: &str) -> (r: String)
    ensures
        r@ == avatar(username@),
{
    let mut url = "https://itzon.tv/api/live/profile/".to_string();
    url.append(urls::percent_encode(username).as_str());
    url.append("/avatar");
    url
}

/// Whole minutes of a number of seconds, towards zero.
pub open spec fn minutes(seconds: int) -> int {
    if seconds >= 0 {
        seconds / 60
    } else {
        -((-seconds) / 60)
    }
}

/// A number in decimal digits.
pub open spec fn signed_decimal(n: int) -> Seq<char> {
    if n >= 0 {
        letters::decimal(n as nat)
    } else {
        "-"@ + letters::decimal((-n) as nat)
    }
}

fn write_minutes(seconds: i64) -> (r: String)
    ensures
        r@ == signed_decimal(minutes(seconds as int)),
{
    if seconds >= 0 {
        letters::to_decimal(seconds as u64 / 60)
    } else {
        let size: u64 = (-(seconds + 1)) as u64 + 1;
        let whole: u64 = size / 60;
        if whole == 0 {
            letters::to_decimal(0)
        } else {
            let mut out = "-".to_string();
            out.append(letters::to_decimal(whole).as_str());
            out
        }
    }
}

/// The picture of a channel: its own, where that can be trusted; or else the one that the media host
/// makes of the stream each minute, where that host can be trusted; or else the avatar.
pub open spec fn thumbnail(
    username: Seq<char>,
    custom: Option<Seq<char>>,
    base: Option<Seq<char>>,
    seconds: int,
) -> Seq<char> {
    match custom {
        Some(url) => url,
        None => match base {
            Some(base) => text::trimmed_end(base, CharClass::Only('/')) + "/thumb/"@
                + urls::percent_encoded(username) + ".jpg?t="@ + signed_decimal(minutes(seconds)),
            None => avatar(username),
        },
    }
}

/// The picture of a channel, from the addresses that can be trusted and the time.
pub fn thumbnail_from(
    username: &str,
    custom: Option<String>,
    base: Option<String>,
    seconds: i64,
) -> (r: String)
    ensures
        r@ == thumbnail(username@, custom.deep_view(), base.deep_view(), seconds as int),
{
    match custom {
        Some(url) => url,
        None => match base {
            Some(base) => {
                let mut url = text::trim_end(base.as_str(), &CharClass::Only('/')).to_string();
                url.append("/thumb/");
                url.append(urls::percent_encode(username).as_str());
                url.append(".jpg?t=");
                url.append(write_minutes(seconds).as_str());
                url
            },
            None => avatar_url(username),
        },
    }
}

/// An address of a picture, where it can be trusted.
pub open spec fn trusted(value: Option<Seq<char>>) -> Option<Seq<char>> {
    match value {
        Some(value) => urls::asset_url(urls::url_of(value)),
        None => None,
    }
}

fn trust(value: Option<&str>) -> (r: Option<String>)
    ensures
        r.deep_view() == trusted(value.deep_view()),
{
    match value {
        Some(value) => urls::trusted_asset_url(value),
        None => None,
    }
}

/// A text that may be missing, to be read.
fn read(value: &Option<String>) -> (r: Option<&str>)
    ensures
        r.deep_view() == value.deep_view(),
{
    match value {
        Some(text) => Some(text.as_str()),
        None => None,
    }
}

/// The picture of a channel at a time, from the addresses that are told.
pub fn thumbnail_url_at(
    username: &str,
    media_base: Option<&str>,
    custom: Option<&str>,
    seconds: i64,
) -> (r: String)
    ensures
        r@ == thumbnail(
            username@,
            trusted(custom.deep_view()),
            trusted(media_base.deep_view()),
            seconds as int,
        ),
{
    thumbnail_from(username, trust(custom), trust(media_base), seconds)
}

/// `chrono::Utc::now` and `timestamp`: seconds since the epoch. Which they are is left to the clock
/// of the machine. Where that clock stands before the epoch, the call stops the program.
#[verifier::external_body]
fn unix_seconds() -> i64 {
    chrono::Utc::now().timestamp()
}

pub fn thumbnail_url(username: &str, media_base: Option<&str>, custom: Option<&str>) -> (r: String)
    ensures
        exists|seconds: i64|
            r@ == #[trigger] thumbnail(
                username@,
                trusted(custom.deep_view()),
                trusted(media_base.deep_view()),
                seconds as int,
            ),
{
    let seconds = unix_seconds();
    thumbnail_url_at(username, media_base, custom, seconds)
}

/// The title of a row.
pub open spec fn row_title(title: Option<Seq<char>>, display_name: Seq<char>) -> Seq<char> {
    match title {
        Some(title) => if text::trimmed(title).len() > 0 {
            title
        } else {
            display_name + " live on itzon"@
        },
        None => display_name + " live on itzon"@,
    }
}

pub open spec fn row_game_id(category_id: Option<u64>) -> Seq<char> {
    match category_id {
        Some(id) => letters::decimal(id as nat),
        None => seq![],
    }
}

pub open spec fn row_game_name(category: Option<Seq<char>>) -> Seq<char> {
    match category {
        Some(name) => name,
        None => "Live on itzon"@,
    }
}

pub open spec fn row_tags(language: Option<Seq<char>>) -> Option<Seq<Seq<char>>> {
    match language {
        Some(language) => Some(seq![language]),
        None => None,
    }
}

/// A row, from what is told of the channel and the picture that is shown of it.
pub open spec fn row(
    told_name: Seq<char>,
    title: Option<Seq<char>>,
    viewers: u64,
    category_id: Option<u64>,
    category: Option<Seq<char>>,
    language: Option<Seq<char>>,
    is_live: bool,
    picture: Seq<char>,
) -> RowView {
    let username = media::username_of(told_name);
    let display_name = text::trimmed(told_name);
    RowView {
        provider: "itzon"@,
        key: sending::channel_key(username),
        id: sending::channel_key(username),
        user_id: sending::channel_key(username),
        user_login: username,
        user_name: display_name,
        title: row_title(title, display_name),
        viewer_count: counted(viewers),
        game_id: row_game_id(category_id),
        game_name: row_game_name(category),
        category_thumbnail: None,
        thumbnail_url: picture,
        started_at: seq![],
        profile_image_url: Some(avatar(username)),
        is_live,
        watch_url: "https://itzon.tv/"@ + urls::percent_encoded(username),
        tags: row_tags(language),
    }
}

fn build_row(
    told_name: &str,
    title: &Option<String>,
    viewers: u64,
    category_id: Option<u64>,
    category: &Option<String>,
    language: &Option<String>,
    is_live: bool,
    picture: String,
) -> (r: ProviderStream)
    ensures
        r@ == row(
            told_name@,
            title.deep_view(),
            viewers,
            category_id,
            category.deep_view(),
            language.deep_view(),
            is_live,
            picture@,
        ),
{
    let display_name = text::trim(told_name);
    let username = letters::to_lowercase(display_name);
    let key = sending::make_key(username.as_str());
    let mut unnamed = display_name.to_string();
    unnamed.append(" live on itzon");
    let title: String = match title {
        Some(title) => if text::trim(title.as_str()).is_empty() {
            unnamed
        } else {
            title.clone()
        },
        None => unnamed,
    };
    let game_id: String = match category_id {
        Some(id) => letters::to_decimal(id),
        None => String::new(),
    };
    let game_name: String = match category {
        Some(name) => name.clone(),
        None => "Live on itzon".to_string(),
    };
    let tags: Option<Vec<String>> = match language {
        Some(language) => Some(vec![language.clone()]),
        None => None,
    };
    let mut watch_url = "https://itzon.tv/".to_string();
    watch_url.append(urls::percent_encode(username.as_str()).as_str());
    let started_at = String::new();
    proof {
        assert(started_at@ =~= seq![]);
        assert(category_id is None ==> game_id@ =~= seq![]);
        if language is Some {
            assert(tags->0.deep_view() =~= seq![language.deep_view()->0]);
        }
    }
    ProviderStream {
        provider: "itzon".to_string(),
        id: key.clone(),
        user_id: key.clone(),
        key,
        user_name: display_name.to_string(),
        title,
        viewer_count: count(viewers),
        game_id,
        game_name,
        category_thumbnail: None,
        thumbnail_url: picture,
        started_at,
        profile_image_url: Some(avatar_url(username.as_str())),
        is_live,
        watch_url,
        tags,
        user_login: username,
    }
}

/// The row of a live stream with the picture.
pub open spec fn stream_row(stream: StreamView, picture: Seq<char>) -> RowView {
    row(
        stream.username,
        stream.title,
        stream.viewers,
        stream.category_id,
        stream.category,
        stream.language,
        true,
        picture,
    )
}

/// The row of a live stream with the picture that is shown of it.
pub fn row_from_stream_with(stream: &ItzonStream, picture: String) -> (r: ProviderStream)
    ensures
        r@ == stream_row(stream@, picture@),
{
    build_row(
        stream.username.as_str(),
        &stream.title,
        stream.viewers,
        stream.category_id,
        &stream.category,
        &stream.language,
        true,
        picture,
    )
}

/// The picture of a live stream at a time.
pub open spec fn stream_picture(
    stream: StreamView,
    explore_media_base: Option<Seq<char>>,
    seconds: int,
) -> Seq<char> {
    let base = match stream.media_base {
        Some(base) => Some(base),
        None => explore_media_base,
    };
    thumbnail(
        media::username_of(stream.username),
        trusted(stream.thumbnail),
        trusted(base),
        seconds,
    )
}

/// The row of a live stream at a time.
pub open spec fn stream_row_at(
    stream: StreamView,
    explore_media_base: Option<Seq<char>>,
    seconds: int,
) -> RowView {
    stream_row(stream, stream_picture(stream, explore_media_base, seconds))
}

fn row_from_stream_at(stream: &ItzonStream, explore_media_base: Option<&str>, seconds: i64) -> (r:
    ProviderStream)
    ensures
        r@ == stream_row_at(stream@, explore_media_base.deep_view(), seconds as int),
{
    let username = letters::to_lowercase(text::trim(stream.username.as_str()));
    let media_base: Option<&str> = match &stream.media_base {
        Some(base) => Some(base.as_str()),
        None => explore_media_base,
    };
    let picture = thumbnail_url_at(
        username.as_str(),
        media_base,
        read(&stream.thumbnail),
        seconds,
    );
    row_from_stream_with(stream, picture)
}

pub fn row_from_stream(stream: &ItzonStream, explore_media_base: Option<&str>) -> (r: ProviderStream)
    ensures
        exists|seconds: i64|
            r@ == #[trigger] stream_row_at(
                stream@,
                explore_media_base.deep_view(),
                seconds as int,
            ),
{
    let seconds = unix_seconds();
    row_from_stream_at(stream, explore_media_base, seconds)
}

/// The row of a channel with the picture.
pub open spec fn channel_row(channel: ChannelView, picture: Seq<char>) -> RowView {
    row(
        channel.username,
        channel.title,
        0,
        channel.category_id,
        channel.category,
        channel.language,
        channel.live,
        picture,
    )
}

/// The row of a channel with the picture that is shown of it.
pub fn row_from_channel_with(channel: &ItzonChannel, picture: String) -> (r: ProviderStream)
    ensures
        r@ == channel_row(channel@, picture@),
{
    build_row(
        channel.username.as_str(),
        &channel.title,
        0,
        channel.category_id,
        &channel.category,
        &channel.language,
        channel.live,
        picture,
    )
}

/// The row of a channel at a time.
pub open spec fn channel_row_at(channel: ChannelView, seconds: int) -> RowView {
    channel_row(
        channel,
        thumbnail(
            media::username_of(channel.username),
            trusted(channel.thumbnail),
            trusted(channel.media_base),
            seconds,
        ),
    )
}

pub fn row_from_channel(channel: &ItzonChannel) -> (r: ProviderStream)
    ensures
        exists|seconds: i64| r@ == #[trigger] channel_row_at(channel@, seconds as int),
{
    let seconds = unix_seconds();
    let username = letters::to_lowercase(text::trim(channel.username.as_str()));
    let picture = thumbnail_url_at(
        username.as_str(),
        read(&channel.media_base),
        read(&channel.thumbnail),
        seconds,
    );
    let made = row_from_channel_with(channel, picture);
    assert(made@ == channel_row_at(channel@, seconds as int));
    made
}

/// What streams are picked by.
pub enum Pick<'a> {
    /// All of them.
    All,
    /// Those of a category, by its number or by its name.
    Category(&'a str),
    /// Those with the text in their name, title or category.
    Text(&'a str),
    /// Those of the channels with these names.
    Names(&'a TextMap<()>),
}

/// Whether a text is found in another, whatever the case.
pub open spec fn mentions(value: Seq<char>, needle: Seq<char>) -> bool {
    text::position_of(letters::lowercase(value), needle) is Some
}

pub open spec fn told_or_empty(value: Option<Seq<char>>) -> Seq<char> {
    match value {
        Some(text) => text,
        None => seq![],
    }
}

impl<'a> Pick<'a> {
    pub open spec fn takes(self, stream: StreamView) -> bool {
        match self {
            Pick::All => true,
            Pick::Category(wanted) => {
                ||| stream.category_id matches Some(id) && letters::decimal(id as nat) == wanted@
                ||| stream.category matches Some(name) && letters::ascii_lowercase(name)
                    == letters::ascii_lowercase(wanted@)
            },
            Pick::Text(needle) => {
                ||| mentions(stream.username, needle@)
                ||| mentions(told_or_empty(stream.title), needle@)
                ||| mentions(told_or_empty(stream.category), needle@)
            },
            Pick::Names(names) => names@.contains_key(letters::lowercase(stream.username)),
        }
    }

    fn picks(&self, stream: &ItzonStream) -> (r: bool)
        ensures
            r == self.takes(stream@),
    {
        match self {
            Pick::All => true,
            Pick::Category(wanted) => {
                let numbered = match stream.category_id {
                    Some(id) => text::same_text(letters::to_decimal(id).as_str(), wanted),
                    None => false,
                };
                let named = match &stream.category {
                    Some(name) => letters::eq_ignore_ascii_case(name.as_str(), wanted),
                    None => false,
                };
                numbered || named
            },
            Pick::Text(needle) => mentions_text(Some(stream.username.as_str()), needle)
                || mentions_text(read(&stream.title), needle) || mentions_text(
                read(&stream.category),
                needle,
            ),
            Pick::Names(names) => names.contains_key(
                letters::to_lowercase(stream.username.as_str()).as_str(),
            ),
        }
    }
}

fn mentions_text(value: Option<&str>, needle: &str) -> (r: bool)
    ensures
        r == mentions(told_or_empty(value.deep_view()), needle@),
{
    let told: &str = match value {
        Some(text) => text,
        None => "",
    };
    proof {
        reveal_strlit("");
        assert(value is None ==> told@ =~= seq![]);
    }
    text::contains_text(letters::to_lowercase(told).as_str(), needle)
}

/// The streams that are picked, in their order.
pub open spec fn picked(streams: Seq<StreamView>, pick: Pick) -> Seq<StreamView>
    decreases streams.len(),
{
    if streams.len() == 0 {
        seq![]
    } else {
        let before = picked(streams.drop_last(), pick);
        if pick.takes(streams.last()) {
            before.push(streams.last())
        } else {
            before
        }
    }
}

/// The first streams that are picked, at most so many.
pub open spec fn picked_first(streams: Seq<StreamView>, pick: Pick, most: nat) -> Seq<StreamView> {
    let all = picked(streams, pick);
    if all.len() > most {
        all.take(most as int)
    } else {
        all
    }
}

proof fn lemma_picked_grows(streams: Seq<StreamView>, pick: Pick, n: int)
    requires
        0 <= n <= streams.len(),
    ensures
        picked(streams.take(n), pick).is_prefix_of(picked(streams, pick)),
    decreases streams.len() - n,
{
    if n == streams.len() {
        assert(streams.take(n) =~= streams);
    } else {
        lemma_picked_grows(streams, pick, n + 1);
        let more = streams.take(n + 1);
        assert(more.drop_last() =~= streams.take(n));
        let short = picked(streams.take(n), pick);
        let long = picked(more, pick);
        let all = picked(streams, pick);
        assert(short =~= long.take(short.len() as int));
        assert(long =~= all.take(long.len() as int));
        assert(short =~= all.take(short.len() as int));
    }
}

/// The rows of streams at a time.
pub open spec fn rows(
    streams: Seq<StreamView>,
    explore_media_base: Option<Seq<char>>,
    seconds: int,
) -> Seq<RowView> {
    streams.map_values(|stream: StreamView| stream_row_at(stream, explore_media_base, seconds))
}

/// The rows of the first streams that are picked, at most so many, at a time.
pub fn pick_rows(explore: &ItzonExplore, pick: &Pick, most: usize, seconds: i64) -> (r: Vec<
    ProviderStream,
>)
    ensures
        r.deep_view() == rows(
            picked_first(explore.streams.deep_view(), *pick, most as nat),
            explore.media_base.deep_view(),
            seconds as int,
        ),
{
    let ghost all = explore.streams.deep_view();
    let ghost base = explore.media_base.deep_view();
    let mut list: Vec<ProviderStream> = Vec::new();
    let mut i: usize = 0;
    assert(all.take(0) =~= seq![]);
    assert(list.deep_view() =~= rows(picked(all.take(0), *pick), base, seconds as int));
    while i < explore.streams.len() && list.len() < most
        invariant
            all == explore.streams.deep_view(),
            base == explore.media_base.deep_view(),
            i <= explore.streams.len(),
            list.len() <= most,
            list.deep_view() == rows(picked(all.take(i as int), *pick), base, seconds as int),
        decreases explore.streams.len() - i,
    {
        let stream = &explore.streams[i];
        let ghost seen = picked(all.take(i as int), *pick);
        let ghost before = list.deep_view();
        assert(all.take(i + 1).drop_last() =~= all.take(i as int));
        assert(all.take(i + 1).last() == stream@);
        if pick.picks(stream) {
            list.push(row_from_stream_at(stream, read(&explore.media_base), seconds));
            assert(list.deep_view() =~= before.push(stream_row_at(stream@, base, seconds as int)));
            assert(rows(seen.push(stream@), base, seconds as int) =~= rows(
                seen,
                base,
                seconds as int,
            ).push(stream_row_at(stream@, base, seconds as int)));
        }
        i = i + 1;
    }
    proof {
        let found = picked(all.take(i as int), *pick);
        assert(list.deep_view().len() == found.len());
        lemma_picked_grows(all, *pick, i as int);
        if i == all.len() {
            assert(all.take(i as int) =~= all);
        } else {
            assert(found =~= picked(all, *pick).take(most as int));
        }
        assert(found =~= picked_first(all, *pick, most as nat));
    }
    list
}

/// The size of a page, for the size that is asked for.
pub open spec fn page_size(limit: u32) -> nat {
    if limit < 1 {
        1
    } else if limit > MAX_PAGE {
        MAX_PAGE as nat
    } else {
        limit as nat
    }
}

fn clamp_page(limit: u32) -> (r: usize)
    ensures
        r == page_size(limit),
{
    if limit < 1 {
        1
    } else if limit > MAX_PAGE {
        100
    } else {
        limit as usize
    }
}

pub open spec fn category_pick<'a>(category: Option<&'a str>) -> Pick<'a> {
    match category {
        Some(wanted) => Pick::Category(wanted),
        None => Pick::All,
    }
}

/// A page of the catalog, of one category or of all.
pub fn directory(explore: &ItzonExplore, category: Option<&str>, limit: u32) -> (r: StreamPage)
    ensures
        exists|seconds: i64|
            r.streams.deep_view() == #[trigger] rows(
                picked_first(
                    explore.streams.deep_view(),
                    category_pick(category),
                    page_size(limit),
                ),
                explore.media_base.deep_view(),
                seconds as int,
            ),
        r.streams.len() <= MAX_PAGE,
        r.cursor is None,
{
    let seconds = unix_seconds();
    let pick = match category {
        Some(wanted) => Pick::Category(wanted),
        None => Pick::All,
    };
    let list = pick_rows(explore, &pick, clamp_page(limit), seconds);
    assert(list.deep_view().len() == list.len());
    StreamPage { streams: list, cursor: None }
}

/// What is searched for.
pub open spec fn needle_of(query: Seq<char>) -> Option<Seq<char>> {
    if text::trimmed(query).len() == 0 {
        None
    } else {
        Some(letters::lowercase(text::trimmed(query)))
    }
}

/// What is searched for; nothing where the query is blank.
pub fn search_needle(query: &str) -> (r: Option<String>)
    ensures
        r.deep_view() == (if text::trimmed(query@).len() == 0 {
            None
        } else {
            Some(letters::lowercase(text::trimmed(query@)))
        }),
        r.deep_view() == needle_of(query@),
{
    let trimmed = text::trim(query);
    if trimmed.is_empty() {
        None
    } else {
        Some(letters::to_lowercase(trimmed))
    }
}

/// The live streams with the text in their name, title or category. Where there are none, the
/// channel with that name is to be looked up.
pub fn search(explore: &ItzonExplore, needle: &str) -> (r: StreamPage)
    ensures
        exists|seconds: i64|
            r.streams.deep_view() == #[trigger] rows(
                picked(explore.streams.deep_view(), Pick::Text(needle)),
                explore.media_base.deep_view(),
                seconds as int,
            ),
        r.cursor is None,
{
    let seconds = unix_seconds();
    let pick = Pick::Text(needle);
    let all: usize = explore.streams.len();
    proof {
        lemma_picked_len(explore.streams.deep_view(), pick);
    }
    StreamPage { streams: pick_rows(explore, &pick, all, seconds), cursor: None }
}

/// A search in full: what was found among the live streams, or, where that is nothing, the channel
/// with the name. `found` is that channel; a lookup that failed brings none.
pub fn finish_search(page: StreamPage, found: Option<&ItzonChannel>) -> (r: StreamPage)
    ensures
        r.cursor is None,
        page.streams.len() > 0 ==> r.streams.deep_view() == page.streams.deep_view(),
        page.streams.len() == 0 && found is Some ==> exists|seconds: i64|
            r.streams.deep_view() == seq![#[trigger] channel_row_at(found->0@, seconds as int)],
        page.streams.len() == 0 && found is None ==> r.streams.len() == 0,
{
    let mut streams = page.streams;
    if streams.len() == 0 {
        match found {
            Some(channel) => {
                let row = row_from_channel(channel);
                let ghost seconds = choose|seconds: i64|
                    row@ == #[trigger] channel_row_at(channel@, seconds as int);
                streams.push(row);
                assert(streams.deep_view() =~= seq![channel_row_at(channel@, seconds as int)]);
            },
            None => {},
        }
    }
    StreamPage { streams, cursor: None }
}

proof fn lemma_picked_len(streams: Seq<StreamView>, pick: Pick)
    ensures
        picked(streams, pick).len() <= streams.len(),
    decreases streams.len(),
{
    if streams.len() > 0 {
        lemma_picked_len(streams.drop_last(), pick);
    }
}

/// The names among the texts, in their normal form.
pub open spec fn is_wanted(channels: Seq<Seq<char>>, name: Seq<char>) -> bool {
    exists|i: int|
        0 <= i < channels.len() && media::username_of(#[trigger] channels[i]) == name
            && oauth::is_username(name)
}

/// The names of channels to look for; nothing where none is proper.
pub fn wanted_channels(channels: &Vec<String>) -> (r: TextMap<()>)
    ensures
        forall|name: Seq<char>| #[trigger]
            r@.contains_key(name) <==> is_wanted(channels.deep_view(), name),
{
    let ghost all = channels.deep_view();
    let mut wanted: TextMap<()> = TextMap::new();
    let mut i: usize = 0;
    while i < channels.len()
        invariant
            all == channels.deep_view(),
            i <= channels.len(),
            forall|name: Seq<char>| #[trigger]
                wanted@.contains_key(name) <==> is_wanted(all.take(i as int), name),
        decreases channels.len() - i,
    {
        let ghost before = wanted@;
        let ghost seen = all.take(i as int);
        let ghost more = all.take(i + 1);
        assert(more[i as int] == channels@[i as int]@);
        match media::normalize_username(channels[i].as_str()) {
            Ok(name) => {
                wanted.insert(name, ());
            },
            Err(_) => {},
        }
        assert forall|name: Seq<char>| #[trigger]
            wanted@.contains_key(name) <==> is_wanted(more, name) by {
            assert(before.contains_key(name) <==> is_wanted(seen, name));
            if is_wanted(seen, name) {
                let k = choose|k: int|
                    0 <= k < seen.len() && media::username_of(#[trigger] seen[k]) == name
                        && oauth::is_username(name);
                assert(media::username_of(more[k]) == name);
            }
            if wanted@.contains_key(name) && !before.contains_key(name) {
                assert(media::username_of(more[i as int]) == name);
            }
            if is_wanted(more, name) {
                let k = choose|k: int|
                    0 <= k < more.len() && media::username_of(#[trigger] more[k]) == name
                        && oauth::is_username(name);
                if k < i {
                    assert(media::username_of(seen[k]) == name);
                    assert(is_wanted(seen, name));
                }
            }
        }
        i = i + 1;
    }
    assert(all.take(i as int) =~= all);
    wanted
}

/// The rows of the wanted channels that are live.
pub fn live_check(explore: &ItzonExplore, wanted: &TextMap<()>) -> (r: Vec<ProviderStream>)
    ensures
        exists|seconds: i64|
            r.deep_view() == #[trigger] rows(
                picked(explore.streams.deep_view(), Pick::Names(wanted)),
                explore.media_base.deep_view(),
                seconds as int,
            ),
{
    let seconds = unix_seconds();
    let pick = Pick::Names(wanted);
    let all: usize = explore.streams.len();
    proof {
        lemma_picked_len(explore.streams.deep_view(), pick);
    }
    pick_rows(explore, &pick, all, seconds)
}

/// A category as a list of categories shows it.
#[derive(Debug)]
pub struct ProviderCategory {
    pub provider: String,
    pub id: String,
    pub name: String,
    pub thumbnail: String,
    pub viewer_count: u32,
    pub channel_count: u32,
}

/// A page of categories. There is never another page behind it.
#[derive(Debug)]
pub struct CategoryPage {
    pub categories: Vec<ProviderCategory>,
    pub cursor: Option<String>,
}

pub struct CategoryRowView {
    pub provider: Seq<char>,
    pub id: Seq<char>,
    pub name: Seq<char>,
    pub thumbnail: Seq<char>,
    pub viewer_count: u32,
    pub channel_count: u32,
}

impl View for ProviderCategory {
    type V = CategoryRowView;

    open spec fn view(&self) -> CategoryRowView {
        CategoryRowView {
            provider: self.provider@,
            id: self.id@,
            name: self.name@,
            thumbnail: self.thumbnail@,
            viewer_count: self.viewer_count,
            channel_count: self.channel_count,
        }
    }
}

impl DeepView for ProviderCategory {
    type V = CategoryRowView;

    open spec fn deep_view(&self) -> CategoryRowView {
        self@
    }
}

/// The row of a category with the picture, if it has one.
pub open spec fn category_row(category: CategoryView, picture: Option<Seq<char>>) -> CategoryRowView {
    CategoryRowView {
        provider: "itzon"@,
        id: letters::decimal(category.id as nat),
        name: category.name,
        thumbnail: told_or_empty(picture),
        viewer_count: counted(category.viewer_count),
        channel_count: counted(category.live_stream_count),
    }
}

/// The row of a category with the picture that can be trusted.
pub fn category_row_with(category: &ItzonCategory, picture: Option<String>) -> (r: ProviderCategory)
    ensures
        r@ == category_row(category@, picture.deep_view()),
{
    let thumbnail: String = match picture {
        Some(url) => url,
        None => {
            let none = String::new();
            assert(none@ =~= seq![]);
            none
        },
    };
    ProviderCategory {
        provider: "itzon".to_string(),
        id: letters::to_decimal(category.id),
        name: category.name.clone(),
        thumbnail,
        viewer_count: count(category.viewer_count),
        channel_count: count(category.live_stream_count),
    }
}

/// The rows of categories, as they are told.
pub open spec fn category_rows(categories: Seq<CategoryView>) -> Seq<CategoryRowView> {
    categories.map_values(
        |category: CategoryView| category_row(category, trusted(category.image_url)),
    )
}

/// The place behind all rows with at least so many viewers, in rows with ever fewer of them.
pub open spec fn place_of(rows: Seq<CategoryRowView>, viewers: u32) -> int
    decreases rows.len(),
{
    if rows.len() == 0 || rows.last().viewer_count >= viewers {
        rows.len() as int
    } else {
        place_of(rows.drop_last(), viewers)
    }
}

/// The rows from the most viewers to the fewest; those with as many stay in their order.
pub open spec fn ordered(rows: Seq<CategoryRowView>) -> Seq<CategoryRowView>
    decreases rows.len(),
{
    if rows.len() == 0 {
        seq![]
    } else {
        let before = ordered(rows.drop_last());
        before.insert(place_of(before, rows.last().viewer_count), rows.last())
    }
}

pub open spec fn is_descending(rows: Seq<CategoryRowView>) -> bool {
    forall|i: int, j: int|
        0 <= i < j < rows.len() ==> rows[i].viewer_count >= rows[j].viewer_count
}

proof fn lemma_place(rows: Seq<CategoryRowView>, viewers: u32)
    requires
        is_descending(rows),
    ensures
        0 <= place_of(rows, viewers) <= rows.len(),
        forall|i: int| 0 <= i < place_of(rows, viewers) ==> rows[i].viewer_count >= viewers,
        forall|i: int|
            place_of(rows, viewers) <= i < rows.len() ==> rows[i].viewer_count < viewers,
    decreases rows.len(),
{
    if rows.len() > 0 && rows.last().viewer_count < viewers {
        let rest = rows.drop_last();
        assert(is_descending(rest));
        lemma_place(rest, viewers);
        let at = place_of(rest, viewers);
        assert forall|i: int| 0 <= i < at implies rows[i].viewer_count >= viewers by {
            assert(rest[i] == rows[i]);
        }
        assert forall|i: int| at <= i < rows.len() implies rows[i].viewer_count < viewers by {
            if i < rest.len() {
                assert(rest[i] == rows[i]);
            }
        }
    }
}

/// The rows with so many viewers, in their order.
pub open spec fn with_viewers(rows: Seq<CategoryRowView>, viewers: u32) -> Seq<CategoryRowView>
    decreases rows.len(),
{
    if rows.len() == 0 {
        seq![]
    } else {
        let before = with_viewers(rows.drop_last(), viewers);
        if rows.last().viewer_count == viewers {
            before.push(rows.last())
        } else {
            before
        }
    }
}

proof fn lemma_with_viewers_insert(
    rows: Seq<CategoryRowView>,
    at: int,
    new: CategoryRowView,
    viewers: u32,
)
    requires
        0 <= at <= rows.len(),
        forall|i: int| at <= i < rows.len() ==> rows[i].viewer_count < new.viewer_count,
    ensures
        with_viewers(rows.insert(at, new), viewers) == (if new.viewer_count == viewers {
            with_viewers(rows, viewers).push(new)
        } else {
            with_viewers(rows, viewers)
        }),
    decreases rows.len() - at,
{
    let all = rows.insert(at, new);
    if at == rows.len() {
        assert(all.drop_last() =~= rows);
    } else {
        let rest = rows.drop_last();
        assert(all.last() == rows.last());
        assert(all.drop_last() =~= rest.insert(at, new));
        lemma_with_viewers_insert(rest, at, new, viewers);
    }
}

/// Ordering rows puts those with more viewers first, keeps the order of those with as many, and
/// neither loses nor adds any.
pub proof fn categories_are_ordered(rows: Seq<CategoryRowView>, viewers: u32)
    ensures
        is_descending(ordered(rows)),
        ordered(rows).len() == rows.len(),
        ordered(rows).to_multiset() == rows.to_multiset(),
        with_viewers(ordered(rows), viewers) == with_viewers(rows, viewers),
    decreases rows.len(),
{
    broadcast use vstd::seq_lib::group_to_multiset_ensures;

    if rows.len() > 0 {
        let rest = rows.drop_last();
        let new = rows.last();
        categories_are_ordered(rest, viewers);
        let before = ordered(rest);
        lemma_place(before, new.viewer_count);
        let at = place_of(before, new.viewer_count);
        let all = before.insert(at, new);
        assert forall|i: int, j: int|
            0 <= i < j < all.len() implies all[i].viewer_count >= all[j].viewer_count by {
            let a = if i < at {
                i
            } else {
                i - 1
            };
            let b = if j < at {
                j
            } else {
                j - 1
            };
            if i != at && j != at {
                assert(all[i] == before[a] && all[j] == before[b]);
            } else if i == at {
                assert(all[j] == before[b]);
            } else {
                assert(all[i] == before[a]);
            }
        }
        lemma_with_viewers_insert(before, at, new, viewers);
        vstd::seq_lib::to_multiset_insert(before, at, new);
        assert(rows =~= rest.push(new));
    } else {
        assert(ordered(rows) =~= rows);
    }
}

/// The first rows, at most so many.
pub open spec fn first_rows(rows: Seq<CategoryRowView>, most: nat) -> Seq<CategoryRowView> {
    if rows.len() > most {
        rows.take(most as int)
    } else {
        rows
    }
}

/// The rows from the most viewers to the fewest, at most so many.
pub fn order_categories(rows: Vec<ProviderCategory>, limit: u32) -> (r: Vec<ProviderCategory>)
    ensures
        r.deep_view() == first_rows(ordered(rows.deep_view()), page_size(limit)),
{
    let ghost all = rows.deep_view();
    let mut left = rows;
    let mut list: Vec<ProviderCategory> = Vec::new();
    let count = left.len();
    let mut i: usize = 0;
    assert(all.take(0) =~= seq![]);
    assert(all.skip(0) =~= all);
    while i < count
        invariant
            count == all.len(),
            i <= count,
            left.deep_view() == all.skip(i as int),
            list.deep_view() == ordered(all.take(i as int)),
        decreases count - i,
    {
        let ghost before = list.deep_view();
        let ghost waiting = left.deep_view();
        assert(left.deep_view().len() == left.len());
        let row = left.remove(0);
        let ghost new = row@;
        proof {
            assert(new == waiting[0]);
            assert(waiting[0] == all[i as int]);
            assert(left.deep_view() =~= waiting.drop_first());
            assert(before.take(before.len() as int) =~= before);
            assert(waiting.drop_first() =~= all.skip(i + 1));
            assert(all.take(i + 1).last() == new);
            assert(all.take(i + 1).drop_last() =~= all.take(i as int));
            categories_are_ordered(all.take(i as int), 0);
        }
        let mut at: usize = list.len();
        while at > 0 && list[at - 1].viewer_count < row.viewer_count
            invariant
                before == list.deep_view(),
                at <= list.len(),
                place_of(before, row.viewer_count) == place_of(
                    before.take(at as int),
                    row.viewer_count,
                ),
            decreases at,
        {
            assert(before.take(at as int).last() == list@[at - 1]@);
            assert(before.take(at as int).drop_last() =~= before.take(at - 1));
            at = at - 1;
        }
        proof {
            if at > 0 {
                assert(before.take(at as int).last() == list@[at - 1]@);
            }
            assert(place_of(before, new.viewer_count) == at);
        }
        list.insert(at, row);
        assert(list.deep_view() =~= before.insert(at as int, new));
        i = i + 1;
    }
    assert(all.take(i as int) =~= all);
    let most = clamp_page(limit);
    let ghost full = list.deep_view();
    list.truncate(most);
    assert(list.deep_view() =~= first_rows(full, page_size(limit)));
    list
}

/// The categories of the catalog from the most viewers to the fewest.
pub fn categories(explore: &ItzonExplore, limit: u32) -> (r: CategoryPage)
    ensures
        r.categories.deep_view() == first_rows(
            ordered(category_rows(explore.categories.deep_view())),
            page_size(limit),
        ),
        r.categories.len() <= MAX_PAGE,
        r.cursor is None,
{
    let ghost all = explore.categories.deep_view();
    let mut list: Vec<ProviderCategory> = Vec::new();
    let mut i: usize = 0;
    assert(list.deep_view() =~= category_rows(all.take(0)));
    while i < explore.categories.len()
        invariant
            all == explore.categories.deep_view(),
            i <= explore.categories.len(),
            list.deep_view() == category_rows(all.take(i as int)),
        decreases explore.categories.len() - i,
    {
        let category = &explore.categories[i];
        let ghost before = list.deep_view();
        let picture = trust(read(&category.image_url));
        list.push(category_row_with(category, picture));
        proof {
            let new = category_row(category@, trusted(category@.image_url));
            assert(list.deep_view() =~= before.push(new));
            assert(all.take(i + 1) =~= all.take(i as int).push(category@));
            assert(category_rows(all.take(i + 1)) =~= category_rows(all.take(i as int)).push(new));
        }
        i = i + 1;
    }
    assert(all.take(i as int) =~= all);
    let page = order_categories(list, limit);
    assert(page.deep_view().len() == page.len());
    CategoryPage { categories: page, cursor: None }
}

/// What the service can be asked for.
#[derive(Clone, Copy, Debug, PartialEq, Eq, Structural)]
pub struct SourceCaps {
    pub playback: bool,
    pub directory: bool,
    pub search: bool,
    pub native_follows: bool,
    pub live_check: bool,
}

/// The service as a source of streams.
pub struct ItzonSource;

impl ItzonSource {
    pub fn new() -> (r: ItzonSource)
        ensures
            r == ItzonSource,
    {
        ItzonSource
    }

    pub fn id(&self) -> (r: &'static str)
        ensures
            r@ == "itzon"@,
    {
        "itzon"
    }

    pub fn caps(&self) -> (r: SourceCaps)
        ensures
            r == (SourceCaps {
                playback: true,
                directory: true,
                search: true,
                native_follows: true,
                live_check: true,
            }),
    {
        SourceCaps {
            playback: true,
            directory: true,
            search: true,
            native_follows: true,
            live_check: true,
        }
    }
}

/// Streams are picked by nothing but what is asked for, and stay in their order.
pub proof fn picking_only_leaves_out(streams: Seq<StreamView>, pick: Pick, stream: StreamView)
    ensures
        picked(streams, pick) == streams.filter(|one: StreamView| pick.takes(one)),
        picked(streams, pick).contains(stream) <==> streams.contains(stream) && pick.takes(stream),
        picked(streams, Pick::All) == streams,
    decreases streams.len(),
{
    reveal(Seq::filter);
    let test = |one: StreamView| pick.takes(one);
    if streams.len() > 0 {
        let front = streams.drop_last();
        picking_only_leaves_out(front, pick, stream);
        assert(streams =~= front.push(streams.last()));
        assert(streams.contains(stream) <==> front.contains(stream) || stream == streams.last()) by {
            if front.contains(stream) {
                let k = choose|k: int| 0 <= k < front.len() && front[k] == stream;
                assert(streams[k] == stream);
            }
            if stream == streams.last() {
                assert(streams[streams.len() - 1] == stream);
            }
        }
        let before = picked(front, pick);
        if pick.takes(streams.last()) {
            assert(before.push(streams.last()).contains(stream) <==> before.contains(stream)
                || stream == streams.last()) by {
                let all = before.push(streams.last());
                if before.contains(stream) {
                    let k = choose|k: int| 0 <= k < before.len() && before[k] == stream;
                    assert(all[k] == stream);
                }
                assert(all[before.len() as int] == streams.last());
            }
        }
    } else {
        assert(picked(streams, pick) =~= streams.filter(test));
        assert(streams =~= seq![]);
    }
}

/// A search finds the live streams that hold the text in their name, in their title or in their
/// category, each of them whatever the others are, in whichever case; and it finds no others.
pub proof fn a_search_finds_what_is_named(
    streams: Seq<StreamView>,
    needle: &str,
    stream: StreamView,
)
    ensures
        picked(streams, Pick::Text(needle)).contains(stream) <==> streams.contains(stream) && {
            ||| text::holds_text(letters::lowercase(stream.username), needle@)
            ||| stream.title is Some && text::holds_text(
                letters::lowercase(stream.title->0),
                needle@,
            )
            ||| stream.category is Some && text::holds_text(
                letters::lowercase(stream.category->0),
                needle@,
            )
        },
{
    picking_only_leaves_out(streams, Pick::Text(needle), stream);
    let none = Seq::<char>::empty();
    text::found_is_held(letters::lowercase(stream.username), needle@);
    text::found_is_held(letters::lowercase(told_or_empty(stream.title)), needle@);
    text::found_is_held(letters::lowercase(told_or_empty(stream.category)), needle@);
    assert(letters::lowercase(none) =~= none);
    if text::holds_text(none, needle@) {
        assert(needle@.len() == 0);
        let name = letters::lowercase(stream.username);
        assert(name.subrange(0, 0) =~= needle@);
    }
}

/// The streams of a category are those with its number, or with its name in whichever case.
pub proof fn a_category_holds_its_streams(
    streams: Seq<StreamView>,
    wanted: &str,
    stream: StreamView,
)
    ensures
        picked(streams, Pick::Category(wanted)).contains(stream) <==> streams.contains(stream) && {
            ||| stream.category_id is Some && letters::decimal(stream.category_id->0 as nat)
                == wanted@
            ||| stream.category is Some && letters::ascii_lowercase(stream.category->0)
                == letters::ascii_lowercase(wanted@)
        },
        category_pick(Some(wanted)) == Pick::Category(wanted),
        category_pick(None) is All,
{
    picking_only_leaves_out(streams, Pick::Category(wanted), stream);
}

/// A look for channels that are live finds those with one of the names, in whichever case.
pub proof fn a_live_check_finds_the_wanted(
    streams: Seq<StreamView>,
    names: &TextMap<()>,
    stream: StreamView,
    channels: Seq<Seq<char>>,
    name: Seq<char>,
)
    ensures
        picked(streams, Pick::Names(names)).contains(stream) <==> streams.contains(stream)
            && names@.contains_key(letters::lowercase(stream.username)),
        is_wanted(channels, name) <==> media::is_name(name) && exists|i: int|
            0 <= i < channels.len() && letters::lowercase(text::trimmed(#[trigger] channels[i]))
                == name,
{
    picking_only_leaves_out(streams, Pick::Names(names), stream);
    media::lemma_is_name(name);
    if is_wanted(channels, name) {
        let i = choose|i: int|
            0 <= i < channels.len() && media::username_of(#[trigger] channels[i]) == name
                && oauth::is_username(name);
        assert(letters::lowercase(text::trimmed(channels[i])) == name);
    }
    if media::is_name(name) && exists|i: int|
        0 <= i < channels.len() && letters::lowercase(text::trimmed(#[trigger] channels[i]))
            == name {
        let i = choose|i: int|
            0 <= i < channels.len() && letters::lowercase(text::trimmed(#[trigger] channels[i]))
                == name;
        assert(media::username_of(channels[i]) == name);
    }
}

/// A page holds as many rows as are asked for, but at least one and at most a hundred, and the first
/// ones that there are.
pub proof fn a_page_is_the_front(
    limit: u32,
    streams: Seq<StreamView>,
    pick: Pick,
    most: nat,
    categories: Seq<CategoryRowView>,
)
    ensures
        1 <= limit <= 100 ==> page_size(limit) == limit,
        limit == 0 ==> page_size(limit) == 1,
        limit > 100 ==> page_size(limit) == 100,
        picked_first(streams, pick, most).is_prefix_of(picked(streams, pick)),
        picked(streams, pick).len() <= most ==> picked_first(streams, pick, most) == picked(
            streams,
            pick,
        ),
        picked(streams, pick).len() > most ==> picked_first(streams, pick, most).len() == most,
        first_rows(categories, most).is_prefix_of(categories),
        categories.len() <= most ==> first_rows(categories, most) == categories,
        categories.len() > most ==> first_rows(categories, most).len() == most,
{
    let all = picked(streams, pick);
    let front = picked_first(streams, pick, most);
    assert(all.subrange(0, front.len() as int) =~= front);
    let rows = first_rows(categories, most);
    assert(categories.subrange(0, rows.len() as int) =~= rows);
}

/// Each stream has its row, in the same place.
pub proof fn rows_stand_for_their_streams(
    streams: Seq<StreamView>,
    base: Option<Seq<char>>,
    seconds: int,
    i: int,
)
    requires
        0 <= i < streams.len(),
    ensures
        rows(streams, base, seconds).len() == streams.len(),
        rows(streams, base, seconds)[i] == stream_row_at(streams[i], base, seconds),
{
}

/// A number of viewers is shown as it is, as far as it fits, and as the largest that does beyond.
pub proof fn viewers_are_counted(value: u64)
    ensures
        value <= u32::MAX ==> counted(value) == value,
        value > u32::MAX ==> counted(value) == u32::MAX,
{
}

/// The row of a stream tells what the site tells of it: its name, title, viewers, category and
/// language, each in its own place, and where it can be watched.
pub proof fn a_row_tells_its_stream(stream: StreamView, base: Option<Seq<char>>, seconds: int)
    ensures
        ({
            let row = stream_row_at(stream, base, seconds);
            let login = letters::lowercase(text::trimmed(stream.username));
            &&& row.provider == "itzon"@
            &&& row.user_login == login
            &&& row.user_name == text::trimmed(stream.username)
            &&& row.key == "itzon:"@ + login
            &&& row.id == row.key
            &&& row.user_id == row.key
            &&& row.is_live
            &&& stream.viewers <= u32::MAX ==> row.viewer_count == stream.viewers
            &&& stream.viewers > u32::MAX ==> row.viewer_count == u32::MAX
            &&& stream.title is Some && !is_blank(stream.title->0) ==> row.title == stream.title->0
            &&& stream.title is None || is_blank(stream.title->0) ==> row.title == text::trimmed(
                stream.username,
            ) + " live on itzon"@
            &&& stream.category is Some ==> row.game_name == stream.category->0
            &&& stream.category is None ==> row.game_name == "Live on itzon"@
            &&& stream.category_id is Some ==> row.game_id == letters::decimal(
                stream.category_id->0 as nat,
            )
            &&& stream.category_id is None ==> row.game_id.len() == 0
            &&& stream.language is Some ==> row.tags == Some(seq![stream.language->0])
            &&& stream.language is None ==> row.tags is None
            &&& row.category_thumbnail is None
            &&& row.started_at.len() == 0
            &&& media::is_name(login) ==> row.watch_url == "https://itzon.tv/"@ + login
            &&& media::is_name(login) ==> row.profile_image_url == Some(
                "https://itzon.tv/api/live/profile/"@ + login + "/avatar"@,
            )
        }),
{
    let login = letters::lowercase(text::trimmed(stream.username));
    if stream.title is Some {
        text::lemma_trimmed_blank(stream.title->0);
    }
    if media::is_name(login) {
        lemma_name_plain(login);
    }
}

/// Whether a text has nothing but white space in it.
pub open spec fn is_blank(s: Seq<char>) -> bool {
    forall|i: int| 0 <= i < s.len() ==> text::is_white_space(#[trigger] s[i])
}

proof fn lemma_name_plain(name: Seq<char>)
    requires
        media::is_name(name),
    ensures
        urls::percent_encoded(name) == name,
{
    assert forall|i: int| 0 <= i < name.len() implies letters::is_ascii_alphanumeric(
        #[trigger] name[i],
    ) || name[i] == '-' || name[i] == '_' by {}
    urls::lemma_percent_encoded_plain(name);
}

/// The row of a channel tells what the site tells of it, as that of a stream does; nothing is known
/// of its viewers, and it is live just where the channel is.
pub proof fn a_row_tells_its_channel(channel: ChannelView, seconds: int)
    ensures
        ({
            let row = channel_row_at(channel, seconds);
            let login = letters::lowercase(text::trimmed(channel.username));
            &&& row.provider == "itzon"@
            &&& row.user_login == login
            &&& row.user_name == text::trimmed(channel.username)
            &&& row.key == "itzon:"@ + login
            &&& row.id == row.key
            &&& row.user_id == row.key
            &&& row.is_live == channel.live
            &&& row.viewer_count == 0
            &&& channel.title is Some && !is_blank(channel.title->0) ==> row.title
                == channel.title->0
            &&& channel.title is None || is_blank(channel.title->0) ==> row.title == text::trimmed(
                channel.username,
            ) + " live on itzon"@
            &&& channel.category is Some ==> row.game_name == channel.category->0
            &&& channel.category is None ==> row.game_name == "Live on itzon"@
            &&& channel.category_id is Some ==> row.game_id == letters::decimal(
                channel.category_id->0 as nat,
            )
            &&& channel.category_id is None ==> row.game_id.len() == 0
            &&& channel.language is Some ==> row.tags == Some(seq![channel.language->0])
            &&& channel.language is None ==> row.tags is None
            &&& row.category_thumbnail is None
            &&& row.started_at.len() == 0
            &&& media::is_name(login) ==> row.watch_url == "https://itzon.tv/"@ + login
            &&& media::is_name(login) ==> row.profile_image_url == Some(
                "https://itzon.tv/api/live/profile/"@ + login + "/avatar"@,
            )
        }),
{
    let login = letters::lowercase(text::trimmed(channel.username));
    if channel.title is Some {
        text::lemma_trimmed_blank(channel.title->0);
    }
    if media::is_name(login) {
        lemma_name_plain(login);
    }
}

/// Whether an address is one of a trusted host over TLS.
pub open spec fn can_be_shown(address: Option<Seq<char>>) -> bool {
    address is Some && (urls::url_of(address->0) matches Ok(url) && url.scheme == "https"@ && (
    url.host matches Some(host) && urls::is_trusted_host(host)))
}

/// The picture of a channel with a proper name: the one that is told of it, where that can be shown;
/// else the one that its media host makes each minute; else its avatar. The host is that of the
/// stream where one is told, whatever that of the catalog is.
pub proof fn a_row_shows_the_best_picture(
    stream: StreamView,
    base: Option<Seq<char>>,
    channel: ChannelView,
    seconds: int,
)
    requires
        media::is_name(letters::lowercase(text::trimmed(stream.username))),
        media::is_name(letters::lowercase(text::trimmed(channel.username))),
        seconds >= 0,
    ensures
        ({
            let host = if stream.media_base is Some {
                stream.media_base
            } else {
                base
            };
            &&& is_best_picture(
                stream_row_at(stream, base, seconds).thumbnail_url,
                letters::lowercase(text::trimmed(stream.username)),
                stream.thumbnail,
                host,
                (seconds / 60) as nat,
            )
            &&& is_best_picture(
                channel_row_at(channel, seconds).thumbnail_url,
                letters::lowercase(text::trimmed(channel.username)),
                channel.thumbnail,
                channel.media_base,
                (seconds / 60) as nat,
            )
        }),
{
    let host = if stream.media_base is Some {
        stream.media_base
    } else {
        base
    };
    lemma_best_picture(
        letters::lowercase(text::trimmed(stream.username)),
        stream.thumbnail,
        host,
        seconds,
    );
    lemma_best_picture(
        letters::lowercase(text::trimmed(channel.username)),
        channel.thumbnail,
        channel.media_base,
        seconds,
    );
}

/// Whether the address is that of the best picture of a channel in the minute.
pub open spec fn is_best_picture(
    shown: Seq<char>,
    login: Seq<char>,
    own: Option<Seq<char>>,
    host: Option<Seq<char>>,
    minute: nat,
) -> bool {
    if can_be_shown(own) {
        urls::url_of(own->0) matches Ok(url) && shown == url.text
    } else if can_be_shown(host) {
        urls::url_of(host->0) matches Ok(url) && exists|n: int| #[trigger]
            media::is_stem(url.text, n) && shown == url.text.take(n) + "/thumb/"@ + login
                + ".jpg?t="@ + letters::decimal(minute)
    } else {
        shown == "https://itzon.tv/api/live/profile/"@ + login + "/avatar"@
    }
}

proof fn lemma_best_picture(
    login: Seq<char>,
    own: Option<Seq<char>>,
    host: Option<Seq<char>>,
    seconds: int,
)
    requires
        media::is_name(login),
        seconds >= 0,
    ensures
        is_best_picture(
            thumbnail(login, trusted(own), trusted(host), seconds),
            login,
            own,
            host,
            (seconds / 60) as nat,
        ),
{
    lemma_name_plain(login);
    if !can_be_shown(own) && can_be_shown(host) {
        let text = urls::url_of(host->0)->Ok_0.text;
        text::trimming_an_end_takes_one_character(text, '/');
        let n = text::trimmed_end(text, CharClass::Only('/')).len() as int;
        assert(media::is_stem(text, n));
    }
}

/// The row of a category tells what the site tells of it.
pub proof fn a_row_tells_its_category(category: CategoryView, categories: Seq<CategoryView>, i: int)
    ensures
        ({
            let row = category_row(category, trusted(category.image_url));
            &&& row.provider == "itzon"@
            &&& row.id == letters::decimal(category.id as nat)
            &&& row.name == category.name
            &&& category.viewer_count <= u32::MAX ==> row.viewer_count == category.viewer_count
            &&& category.viewer_count > u32::MAX ==> row.viewer_count == u32::MAX
            &&& category.live_stream_count <= u32::MAX ==> row.channel_count
                == category.live_stream_count
            &&& category.live_stream_count > u32::MAX ==> row.channel_count == u32::MAX
            &&& can_be_shown(category.image_url) ==> (urls::url_of(
                category.image_url->0,
            ) matches Ok(url) && row.thumbnail == url.text)
            &&& !can_be_shown(category.image_url) ==> row.thumbnail.len() == 0
        }),
        category_rows(categories).len() == categories.len(),
        0 <= i < categories.len() ==> category_rows(categories)[i] == category_row(
            categories[i],
            trusted(categories[i].image_url),
        ),
{
}

/// A blank query searches for nothing, and any other for itself in lower case, without the white
/// space around it; so white space around a query changes nothing.
pub proof fn a_query_is_searched_for(query: Seq<char>, before: Seq<char>, after: Seq<char>)
    requires
        is_blank(before),
        is_blank(after),
    ensures
        is_blank(query) <==> needle_of(query) is None,
        needle_of(query) matches Some(needle) ==> needle == letters::lowercase(text::trimmed(query)),
        needle_of(before + query + after) == needle_of(query),
{
    text::lemma_trimmed_blank(query);
    text::blanks_around_are_lost(before, query, after);
}

} // verus!
