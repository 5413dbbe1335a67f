//! The emotes of each channel: the global ones of 7TV and those of the channel.
use crate::json::Json;
use crate::letters;
use crate::text;
use crate::text::CharClass;
use crate::text_map;
use crate::text_map::TextMap;
use vstd::prelude::*;
use vstd::string::*;

verus! {

/// How long the emotes of a channel are good for, in milliseconds.
pub const EMOTE_TTL_MILLIS: u64 = 600_000;

/// An emote of a channel.
#[derive(Debug)]
pub struct ItzonEmote {
    pub id: String,
    pub url: String,
    pub zero_width: bool,
    pub width: Option<u32>,
    pub owner_name: Option<String>,
}

pub struct EmoteView {
    pub id: Seq<char>,
    pub url: Seq<char>,
    pub zero_width: bool,
    pub width: Option<u32>,
    pub owner_name: Option<Seq<char>>,
}

impl View for ItzonEmote {
    type V = EmoteView;

    open spec fn view(&self) -> EmoteView {
        EmoteView {
            id: self.id@,
            url: self.url@,
            zero_width: self.zero_width,
            width: self.width,
            owner_name: self.owner_name.deep_view(),
        }
    }
}

/// A copy of a text that may be missing.
pub fn copy_text(value: &Option<String>) -> (r: Option<String>)
    ensures
        r.deep_view() == value.deep_view(),
{
    match value {
        Some(text) => Some(text.clone()),
        None => None,
    }
}

impl Clone for ItzonEmote {
    fn clone(&self) -> (r: ItzonEmote)
        ensures
            r@ == self@,
    {
        ItzonEmote {
            id: self.id.clone(),
            url: self.url.clone(),
            zero_width: self.zero_width,
            width: self.width,
            owner_name: copy_text(&self.owner_name),
        }
    }
}

/// The emotes of one channel by their names, and when they were fetched.
#[derive(Debug)]
pub struct ChannelEmotes {
    pub map: TextMap<ItzonEmote>,
    /// Milliseconds of a clock that never goes back.
    pub fetched_at: u64,
}

pub struct ChannelEmotesView {
    pub map: Map<Seq<char>, EmoteView>,
    pub fetched_at: u64,
}

impl View for ChannelEmotes {
    type V = ChannelEmotesView;

    open spec fn view(&self) -> ChannelEmotesView {
        ChannelEmotesView { map: self.map@, fetched_at: self.fetched_at }
    }
}

/// The emotes of all channels, by the names of the channels in lower case.
#[derive(Debug)]
pub struct EmoteCache {
    pub channels: TextMap<ChannelEmotes>,
}

impl View for EmoteCache {
    type V = Map<Seq<char>, ChannelEmotesView>;

    open spec fn view(&self) -> Map<Seq<char>, ChannelEmotesView> {
        self.channels@
    }
}

impl Default for EmoteCache {
    fn default() -> (r: EmoteCache)
        ensures
            r@ == Map::<Seq<char>, ChannelEmotesView>::empty(),
    {
        EmoteCache { channels: TextMap::new() }
    }
}

/// The emote that a word stands for in a channel.
pub open spec fn emote_for(
    cache: Map<Seq<char>, ChannelEmotesView>,
    slug: Seq<char>,
    word: Seq<char>,
) -> Option<EmoteView> {
    let name = letters::lowercase(slug);
    if cache.contains_key(name) && cache[name].map.contains_key(word) {
        Some(cache[name].map[word])
    } else {
        None
    }
}

pub fn lookup(cache: &EmoteCache, slug: &str, word: &str) -> (r: Option<ItzonEmote>)
    ensures
        match r {
            Some(emote) => emote_for(cache@, slug@, word@) == Some(emote@),
            None => emote_for(cache@, slug@, word@) is None,
        },
{
    match cache.channels.get(letters::to_lowercase(slug).as_str()) {
        Some(channel) => match channel.map.get(word) {
            Some(emote) => Some(emote.clone()),
            None => None,
        },
        None => None,
    }
}

/// A part of a message.
#[derive(Debug)]
pub enum MessageSegment {
    Text { content: String },
    Emote {
        content: String,
        emote_id: Option<String>,
        emote_url: String,
        is_zero_width: Option<bool>,
        modifier_flags: Option<u32>,
        is_personal: Option<bool>,
    },
}

pub enum SegmentView {
    Text { content: Seq<char> },
    Emote {
        content: Seq<char>,
        emote_id: Option<Seq<char>>,
        emote_url: Seq<char>,
        is_zero_width: Option<bool>,
        modifier_flags: Option<u32>,
        is_personal: Option<bool>,
    },
}

impl View for MessageSegment {
    type V = SegmentView;

    open spec fn view(&self) -> SegmentView {
        match self {
            MessageSegment::Text { content } => SegmentView::Text { content: content@ },
            MessageSegment::Emote {
                content,
                emote_id,
                emote_url,
                is_zero_width,
                modifier_flags,
                is_personal,
            } => SegmentView::Emote {
                content: content@,
                emote_id: emote_id.deep_view(),
                emote_url: emote_url@,
                is_zero_width: *is_zero_width,
                modifier_flags: *modifier_flags,
                is_personal: *is_personal,
            },
        }
    }
}

impl DeepView for MessageSegment {
    type V = SegmentView;

    open spec fn deep_view(&self) -> SegmentView {
        self@
    }
}

impl SegmentView {
    /// The text that the part stands for.
    pub open spec fn content(self) -> Seq<char> {
        match self {
            SegmentView::Text { content } => content,
            SegmentView::Emote { content, .. } => content,
        }
    }
}

/// The part that shows an emote in place of its word.
pub open spec fn emote_segment(word: Seq<char>, emote: EmoteView) -> SegmentView {
    SegmentView::Emote {
        content: word,
        emote_id: Some(emote.id),
        emote_url: emote.url,
        is_zero_width: Some(emote.zero_width),
        modifier_flags: None,
        is_personal: None,
    }
}

/// Text as a part of a message, if there is any.
pub open spec fn text_segment(content: Seq<char>) -> Seq<SegmentView> {
    if content.len() == 0 {
        seq![]
    } else {
        seq![SegmentView::Text { content }]
    }
}

/// The parts of `rest`, with `before` as the text that stands in front of it. A word that stands
/// for an emote is a part of its own; all that lies between two such words is one part.
pub open spec fn segments_after(
    cache: Map<Seq<char>, ChannelEmotesView>,
    slug: Seq<char>,
    before: Seq<char>,
    rest: Seq<char>,
) -> Seq<SegmentView>
    decreases rest.len(),
    via segments_decreases
{
    let at = text::first_index(rest, CharClass::WhiteSpace);
    if rest.len() == 0 {
        text_segment(before)
    } else if at == 0 {
        segments_after(cache, slug, before.push(rest[0]), rest.drop_first())
    } else {
        match emote_for(cache, slug, rest.take(at)) {
            Some(emote) => text_segment(before) + seq![emote_segment(rest.take(at), emote)]
                + segments_after(cache, slug, seq![], rest.skip(at)),
            None => segments_after(cache, slug, before + rest.take(at), rest.skip(at)),
        }
    }
}

#[via_fn]
proof fn segments_decreases(
    cache: Map<Seq<char>, ChannelEmotesView>,
    slug: Seq<char>,
    before: Seq<char>,
    rest: Seq<char>,
) {
    text::lemma_first_index(rest, CharClass::WhiteSpace);
}

/// The parts of a message in a channel; an empty message is one empty text.
pub open spec fn segments(
    cache: Map<Seq<char>, ChannelEmotesView>,
    slug: Seq<char>,
    text: Seq<char>,
) -> Seq<SegmentView> {
    if text.len() == 0 {
        seq![SegmentView::Text { content: seq![] }]
    } else {
        segments_after(cache, slug, seq![], text)
    }
}

/// What the parts stand for, one after another.
pub open spec fn contents(parts: Seq<SegmentView>) -> Seq<char>
    decreases parts.len(),
{
    if parts.len() == 0 {
        seq![]
    } else {
        contents(parts.drop_last()) + parts.last().content()
    }
}

proof fn lemma_contents_concat(a: Seq<SegmentView>, b: Seq<SegmentView>)
    ensures
        contents(a + b) == contents(a) + contents(b),
    decreases b.len(),
{
    if b.len() == 0 {
        assert(a + b =~= a);
        assert(contents(a) + contents(b) =~= contents(a));
    } else {
        assert((a + b).drop_last() =~= a + b.drop_last());
        lemma_contents_concat(a, b.drop_last());
        assert(contents(a + b) =~= contents(a) + contents(b));
    }
}

proof fn lemma_contents_one(part: SegmentView)
    ensures
        contents(seq![part]) == part.content(),
{
    let one = seq![part];
    assert(one.drop_last() =~= seq![]);
    assert(contents(one.drop_last()) =~= seq![]);
    assert(one.last() == part);
    assert(contents(one) =~= part.content());
}

proof fn lemma_contents_after(
    cache: Map<Seq<char>, ChannelEmotesView>,
    slug: Seq<char>,
    before: Seq<char>,
    rest: Seq<char>,
)
    ensures
        contents(segments_after(cache, slug, before, rest)) == before + rest,
        before.len() + rest.len() > 0 ==> segments_after(cache, slug, before, rest).len() > 0,
    decreases rest.len(),
{
    let at = text::first_index(rest, CharClass::WhiteSpace);
    text::lemma_first_index(rest, CharClass::WhiteSpace);
    if before.len() > 0 {
        lemma_contents_one(SegmentView::Text { content: before });
    }
    assert(contents(text_segment(before)) =~= before);
    if rest.len() == 0 {
        assert(before + rest =~= before);
    } else if at == 0 {
        lemma_contents_after(cache, slug, before.push(rest[0]), rest.drop_first());
        assert(before.push(rest[0]) + rest.drop_first() =~= before + rest);
    } else {
        let word = rest.take(at);
        assert(rest =~= word + rest.skip(at));
        match emote_for(cache, slug, word) {
            Some(emote) => {
                let shown = seq![emote_segment(word, emote)];
                let tail = segments_after(cache, slug, seq![], rest.skip(at));
                lemma_contents_after(cache, slug, seq![], rest.skip(at));
                lemma_contents_one(emote_segment(word, emote));
                lemma_contents_concat(text_segment(before), shown);
                lemma_contents_concat(text_segment(before) + shown, tail);
                assert(before + word + (Seq::<char>::empty() + rest.skip(at)) =~= before + rest);
            },
            None => {
                lemma_contents_after(cache, slug, before + word, rest.skip(at));
                assert(before + word + rest.skip(at) =~= before + rest);
            },
        }
    }
}

/// No character of a message is lost or added: its parts stand for the message itself.
pub proof fn segments_preserve_text(
    cache: Map<Seq<char>, ChannelEmotesView>,
    slug: Seq<char>,
    text: Seq<char>,
)
    ensures
        contents(segments(cache, slug, text)) == text,
        segments(cache, slug, text).len() > 0,
{
    if text.len() == 0 {
        lemma_contents_one(SegmentView::Text { content: seq![] });
        assert(text =~= seq![]);
    } else {
        lemma_contents_after(cache, slug, seq![], text);
        assert(Seq::<char>::empty() + text =~= text);
    }
}

/// Whether the parts are as few as they can be: each emote is one of the channel, no text is empty,
/// and no two texts follow each other.
pub open spec fn are_tight(
    cache: Map<Seq<char>, ChannelEmotesView>,
    slug: Seq<char>,
    parts: Seq<SegmentView>,
) -> bool {
    &&& forall|i: int|
        0 <= i < parts.len() ==> (match #[trigger] parts[i] {
            SegmentView::Text { content } => content.len() > 0,
            SegmentView::Emote { content, .. } => emote_for(cache, slug, content) matches Some(emote)
                && parts[i] == emote_segment(content, emote),
        })
    &&& forall|i: int, j: int|
        0 <= i < parts.len() && j == i + 1 && j < parts.len() ==> !(#[trigger] parts[i] is Text
            && #[trigger] parts[j] is Text)
}

proof fn lemma_tight_after(
    cache: Map<Seq<char>, ChannelEmotesView>,
    slug: Seq<char>,
    before: Seq<char>,
    rest: Seq<char>,
)
    ensures
        are_tight(cache, slug, segments_after(cache, slug, before, rest)),
    decreases rest.len(),
{
    let at = text::first_index(rest, CharClass::WhiteSpace);
    text::lemma_first_index(rest, CharClass::WhiteSpace);
    let parts = segments_after(cache, slug, before, rest);
    if rest.len() > 0 {
        if at == 0 {
            lemma_tight_after(cache, slug, before.push(rest[0]), rest.drop_first());
        } else {
            let word = rest.take(at);
            match emote_for(cache, slug, word) {
                Some(emote) => {
                    let tail = segments_after(cache, slug, seq![], rest.skip(at));
                    lemma_tight_after(cache, slug, seq![], rest.skip(at));
                    let n = text_segment(before).len() as int;
                    assert(parts[n] == emote_segment(word, emote));
                    assert forall|i: int| n < i < parts.len() implies #[trigger] parts[i]
                        == tail[i - n - 1] by {}
                    assert forall|i: int, j: int|
                        0 <= i < parts.len() && j == i + 1 && j < parts.len() implies !(
                    #[trigger] parts[i] is Text && #[trigger] parts[j] is Text) by {
                        if i > n {
                            assert(parts[i] == tail[i - n - 1]);
                            assert(parts[j] == tail[j - n - 1]);
                        }
                    }
                },
                None => {
                    lemma_tight_after(cache, slug, before + word, rest.skip(at));
                },
            }
        }
    }
}

/// The parts of a message are as few as they can be.
pub proof fn segments_are_tight(
    cache: Map<Seq<char>, ChannelEmotesView>,
    slug: Seq<char>,
    text: Seq<char>,
)
    requires
        text.len() > 0,
    ensures
        are_tight(cache, slug, segments(cache, slug, text)),
{
    lemma_tight_after(cache, slug, seq![], text);
}

/// What a channel shows rests on its own emotes alone: two caches that agree on the channel show
/// the same.
pub proof fn channels_are_isolated(
    one: Map<Seq<char>, ChannelEmotesView>,
    other: Map<Seq<char>, ChannelEmotesView>,
    slug: Seq<char>,
    text: Seq<char>,
)
    requires
        one.contains_key(letters::lowercase(slug)) == other.contains_key(letters::lowercase(slug)),
        one.contains_key(letters::lowercase(slug)) ==> one[letters::lowercase(slug)].map
            == other[letters::lowercase(slug)].map,
    ensures
        segments(one, slug, text) == segments(other, slug, text),
{
    lemma_isolated_after(one, other, slug, seq![], text);
}

proof fn lemma_isolated_after(
    one: Map<Seq<char>, ChannelEmotesView>,
    other: Map<Seq<char>, ChannelEmotesView>,
    slug: Seq<char>,
    before: Seq<char>,
    rest: Seq<char>,
)
    requires
        one.contains_key(letters::lowercase(slug)) == other.contains_key(letters::lowercase(slug)),
        one.contains_key(letters::lowercase(slug)) ==> one[letters::lowercase(slug)].map
            == other[letters::lowercase(slug)].map,
    ensures
        segments_after(one, slug, before, rest) == segments_after(other, slug, before, rest),
    decreases rest.len(),
{
    let at = text::first_index(rest, CharClass::WhiteSpace);
    text::lemma_first_index(rest, CharClass::WhiteSpace);
    if rest.len() > 0 {
        if at == 0 {
            lemma_isolated_after(one, other, slug, before.push(rest[0]), rest.drop_first());
        } else {
            lemma_isolated_after(one, other, slug, seq![], rest.skip(at));
            lemma_isolated_after(one, other, slug, before + rest.take(at), rest.skip(at));
        }
    }
}

pub fn parse_segments(cache: &EmoteCache, slug: &str, text: &str) -> (r: Vec<MessageSegment>)
    ensures
        r.deep_view() == segments(cache@, slug@, text@),
        contents(r.deep_view()) == text@,
{
    let n = text.unicode_len();
    let mut parts: Vec<MessageSegment> = Vec::new();
    let mut before = String::new();
    let mut cursor: usize = 0;
    let ghost goal = segments_after(cache@, slug@, seq![], text@);
    proof {
        segments_preserve_text(cache@, slug@, text@);
        assert(text@.skip(0) =~= text@);
        assert(before@ =~= seq![]);
        assert(parts.deep_view() + goal =~= goal);
    }
    while cursor < n
        invariant
            n == text@.len(),
            cursor <= n,
            goal == segments_after(cache@, slug@, seq![], text@),
            parts.deep_view() + segments_after(cache@, slug@, before@, text@.skip(cursor as int))
                == goal,
        decreases n - cursor,
    {
        let rest = text.substring_char(cursor, n);
        assert(rest@ =~= text@.skip(cursor as int));
        let ghost was = before@;
        proof {
            text::lemma_first_index(rest@, CharClass::WhiteSpace);
        }
        let at = text::find_class(rest, &CharClass::WhiteSpace);
        if at == 0 {
            before.push(rest.get_char(0));
            assert(text@.skip(cursor + 1) =~= rest@.drop_first());
            cursor = cursor + 1;
        } else {
            let word = rest.substring_char(0, at);
            assert(word@ =~= rest@.take(at as int));
            assert(text@.skip(cursor + at) =~= rest@.skip(at as int));
            match lookup(cache, slug, word) {
                Some(emote) => {
                    let ghost done = parts.deep_view();
                    let ghost shown = emote_segment(word@, emote@);
                    if !before.as_str().is_empty() {
                        parts.push(MessageSegment::Text { content: before });
                        before = String::new();
                    }
                    assert(before@ =~= seq![]);
                    assert(parts.deep_view() =~= done + text_segment(was));
                    parts.push(
                        MessageSegment::Emote {
                            content: word.to_string(),
                            emote_id: Some(emote.id),
                            emote_url: emote.url,
                            is_zero_width: Some(emote.zero_width),
                            modifier_flags: None,
                            is_personal: None,
                        },
                    );
                    proof {
                        let tail = segments_after(cache@, slug@, seq![], rest@.skip(at as int));
                        assert(parts.deep_view() =~= done + text_segment(was) + seq![shown]);
                        assert(done + (text_segment(was) + seq![shown] + tail)
                            =~= parts.deep_view() + tail);
                    }
                },
                None => {
                    before.append(word);
                },
            }
            cursor = cursor + at;
        }
    }
    let ghost done = parts.deep_view();
    assert(text@.skip(cursor as int) =~= seq![]);
    if !before.as_str().is_empty() || parts.len() == 0 {
        let ghost last = before@;
        parts.push(MessageSegment::Text { content: before });
        proof {
            assert(parts.deep_view() =~= done.push(SegmentView::Text { content: last }));
            if n == 0 {
                assert(done =~= seq![]);
                assert(last =~= seq![]);
                assert(parts.deep_view() =~= segments(cache@, slug@, text@));
            } else {
                if last.len() == 0 {
                    assert(done + text_segment(last) =~= done);
                    assert(false);
                }
                assert(done + text_segment(last) =~= parts.deep_view());
            }
        }
    } else {
        assert(done + text_segment(before@) =~= done);
    }
    parts
}

/// What 7TV tells of one emote: its name and the emote. The facts stand under `data`, or in the item
/// itself where there is no `data`; the id and the flags may stand in either.
pub open spec fn told_emote(active: Json) -> Option<(Seq<char>, EmoteView)> {
    let data = match active.named("data"@) {
        Some(data) => data,
        None => active,
    };
    let id = match data.named("id"@) {
        Some(id) => Some(id),
        None => active.named("id"@),
    };
    let flags = match data.named("flags"@) {
        Some(flags) => Some(flags),
        None => active.named("flags"@),
    };
    match active.named("name"@) {
        Some(Json::Text(name)) => match id {
            Some(Json::Text(id)) => Some(
                (
                    name@,
                    EmoteView {
                        id: id@,
                        url: "https://cdn.7tv.app/emote/"@ + id@ + "/2x.webp"@,
                        zero_width: (signed_or_zero(flags) & 256) == 256,
                        width: told_width(data),
                        owner_name: told_owner(data),
                    },
                ),
            ),
            _ => None,
        },
        _ => None,
    }
}

pub open spec fn signed_or_zero(value: Option<Json>) -> i64 {
    match value {
        Some(value) => match value.signed() {
            Some(number) => number,
            None => 0,
        },
        None => 0,
    }
}

/// The width of the first file, in its lowest 32 bits.
pub open spec fn told_width(data: Json) -> Option<u32> {
    match data.at_path("/host/files/0/width"@) {
        Some(value) => match value.unsigned() {
            Some(width) => Some(width as u32),
            None => None,
        },
        None => None,
    }
}

pub open spec fn told_owner(data: Json) -> Option<Seq<char>> {
    match data.at_path("/owner/display_name"@) {
        Some(value) => value.text_of(),
        None => None,
    }
}

/// The emotes of the items on top of those in `map`; of two with one name the later counts.
pub open spec fn overlaid(
    map: Map<Seq<char>, EmoteView>,
    items: Seq<Json>,
) -> Map<Seq<char>, EmoteView>
    decreases items.len(),
{
    if items.len() == 0 {
        map
    } else {
        let earlier = overlaid(map, items.drop_last());
        match told_emote(items.last()) {
            Some((name, emote)) => earlier.insert(name, emote),
            None => earlier,
        }
    }
}

/// The emotes of the list at the path on top of those in `map`.
pub open spec fn collected(
    map: Map<Seq<char>, EmoteView>,
    payload: Json,
    path: Seq<char>,
) -> Map<Seq<char>, EmoteView> {
    match payload.at_path(path) {
        Some(Json::List(items)) => overlaid(map, items@),
        _ => map,
    }
}

fn read_emote(active: &Json) -> (r: Option<(String, ItzonEmote)>)
    ensures
        match r {
            Some(found) => told_emote(*active) == Some((found.0@, found.1@)),
            None => told_emote(*active) is None,
        },
{
    let data: &Json = match active.get("data") {
        Some(data) => data,
        None => active,
    };
    let name: &str = match active.get("name") {
        Some(name) => match name.as_str() {
            Some(name) => name,
            None => {
                return None;
            },
        },
        None => {
            return None;
        },
    };
    let held: Option<&Json> = match data.get("id") {
        Some(id) => Some(id),
        None => active.get("id"),
    };
    let id: &str = match held {
        Some(id) => match id.as_str() {
            Some(id) => id,
            None => {
                return None;
            },
        },
        None => {
            return None;
        },
    };
    let flagged: Option<&Json> = match data.get("flags") {
        Some(flags) => Some(flags),
        None => active.get("flags"),
    };
    let flags: i64 = match flagged {
        Some(value) => match value.as_i64() {
            Some(number) => number,
            None => 0,
        },
        None => 0,
    };
    let width: Option<u32> = match data.pointer("/host/files/0/width") {
        Some(value) => match value.as_u64() {
            Some(width) => Some(
                #[verifier::truncate]
                (width as u32),
            ),
            None => None,
        },
        None => None,
    };
    let owner_name: Option<String> = match data.pointer("/owner/display_name") {
        Some(value) => match value.as_str() {
            Some(name) => Some(name.to_string()),
            None => None,
        },
        None => None,
    };
    let mut url = "https://cdn.7tv.app/emote/".to_string();
    url.append(id);
    url.append("/2x.webp");
    Some(
        (
            name.to_string(),
            ItzonEmote {
                id: id.to_string(),
                url,
                zero_width: flags & 256 == 256,
                width,
                owner_name,
            },
        ),
    )
}

pub fn collect_emotes(payload: &Json, pointer: &str, map: &mut TextMap<ItzonEmote>)
    ensures
        final(map)@ == collected(old(map)@, *payload, pointer@),
{
    let items: &Vec<Json> = match payload.pointer(pointer) {
        Some(value) => match value.as_array() {
            Some(items) => items,
            None => {
                return;
            },
        },
        None => {
            return;
        },
    };
    let ghost start = map@;
    let mut i: usize = 0;
    assert(items@.take(0) =~= seq![]);
    while i < items.len()
        invariant
            i <= items.len(),
            map@ == overlaid(start, items@.take(i as int)),
        decreases items.len() - i,
    {
        assert(items@.take(i + 1).drop_last() =~= items@.take(i as int));
        assert(items@.take(i + 1).last() == items@[i as int]);
        match read_emote(&items[i]) {
            Some((name, emote)) => {
                map.insert(name, emote);
            },
            None => {},
        }
        i = i + 1;
    }
    assert(items@.take(i as int) =~= items@);
}

/// Whether one of the items is an emote with the name.
pub open spec fn tells_name(items: Seq<Json>, name: Seq<char>) -> bool {
    exists|i: int|
        0 <= i < items.len() && (#[trigger] told_emote(items[i]) matches Some((told, _)) && told
            == name)
}

/// The emotes of the items win over those in `map` with the same name, and leave the others.
pub proof fn later_emotes_win(map: Map<Seq<char>, EmoteView>, items: Seq<Json>, name: Seq<char>)
    ensures
        tells_name(items, name) ==> overlaid(map, items).contains_key(name) && overlaid(map, items)[name]
            == overlaid(Map::empty(), items)[name],
        !tells_name(items, name) ==> overlaid(map, items).contains_key(name) == map.contains_key(name)
            && overlaid(map, items)[name] == map[name],
        overlaid(Map::empty(), items).contains_key(name) <==> tells_name(items, name),
    decreases items.len(),
{
    if items.len() > 0 {
        let earlier = items.drop_last();
        later_emotes_win(map, earlier, name);
        if tells_name(earlier, name) {
            let i = choose|i: int|
                0 <= i < earlier.len() && (#[trigger] told_emote(earlier[i]) matches Some((told, _))
                    && told == name);
            assert(told_emote(items[i]) == told_emote(earlier[i]));
        }
        if tells_name(items, name) {
            let i = choose|i: int|
                0 <= i < items.len() && (#[trigger] told_emote(items[i]) matches Some((told, _))
                    && told == name);
            if i < earlier.len() {
                assert(told_emote(earlier[i]) == told_emote(items[i]));
            }
        }
        match told_emote(items.last()) {
            Some((told, _)) => {
                if told == name {
                    assert(told_emote(items[items.len() - 1]) == told_emote(items.last()));
                }
            },
            None => {},
        }
    }
}

/// How far the fetching of the emotes of a channel has come: what is asked for next.
#[derive(Clone, Copy, Debug, PartialEq, Eq, Structural)]
pub enum RefreshStage {
    /// The global emotes.
    Global,
    /// The channel, for the id of its 7TV user.
    Channel,
    /// The 7TV user of the channel.
    User,
    /// The active set of that user.
    ActiveSet,
    /// Nothing more.
    Done,
}

/// The fetching of the emotes of one channel.
#[derive(Debug)]
pub struct EmoteRefresh {
    pub slug: String,
    pub map: TextMap<ItzonEmote>,
    pub stage: RefreshStage,
    /// Whether something that was asked for did not come.
    pub failed: bool,
    /// Whether that was something of the channel's own.
    pub own_failed: bool,
}

#[verifier::ext_equal]
pub struct RefreshView {
    pub slug: Seq<char>,
    pub map: Map<Seq<char>, EmoteView>,
    pub stage: RefreshStage,
    pub failed: bool,
    pub own_failed: bool,
}

impl View for EmoteRefresh {
    type V = RefreshView;

    open spec fn view(&self) -> RefreshView {
        RefreshView {
            slug: self.slug@,
            map: self.map@,
            stage: self.stage,
            failed: self.failed,
            own_failed: self.own_failed,
        }
    }
}

/// What came back. A fetch that failed brings no payload.
#[derive(Debug)]
pub enum RefreshEvent {
    Fetched { payload: Option<Json>, active_set: Option<String> },
    /// The channel; it may have no 7TV user.
    Channel { emote_twitch_id: Option<String> },
    /// The channel could not be looked up.
    ChannelFailed,
}

/// What is to be done next.
#[derive(Debug)]
pub enum RefreshAction {
    Fetch { url: String },
    FindChannel { slug: String },
    Finish,
}

pub enum RefreshActionView {
    Fetch { url: Seq<char> },
    FindChannel { slug: Seq<char> },
    Finish,
}

impl View for RefreshAction {
    type V = RefreshActionView;

    open spec fn view(&self) -> RefreshActionView {
        match self {
            RefreshAction::Fetch { url } => RefreshActionView::Fetch { url: url@ },
            RefreshAction::FindChannel { slug } => RefreshActionView::FindChannel { slug: slug@ },
            RefreshAction::Finish => RefreshActionView::Finish,
        }
    }
}

pub open spec fn global_set_url() -> Seq<char> {
    "https://7tv.io/v3/emote-sets/global"@
}

pub open spec fn user_url(twitch_id: Seq<char>) -> Seq<char> {
    "https://7tv.io/v3/users/twitch/"@ + twitch_id
}

pub open spec fn set_url(set_id: Seq<char>) -> Seq<char> {
    "https://7tv.io/v3/emote-sets/"@ + set_id
}

/// Whether the channel has emotes that are still good.
pub open spec fn is_fresh(
    cache: Map<Seq<char>, ChannelEmotesView>,
    slug: Seq<char>,
    now: u64,
) -> bool {
    cache.contains_key(slug) && now - cache[slug].fetched_at < EMOTE_TTL_MILLIS
}

/// The channel whose emotes are to be fetched: none where the name is blank or its emotes are good.
pub open spec fn due_slug(
    cache: Map<Seq<char>, ChannelEmotesView>,
    slug: Seq<char>,
    now: u64,
) -> Option<Seq<char>> {
    let name = letters::lowercase(text::trimmed(slug));
    if name.len() == 0 || is_fresh(cache, name, now) {
        None
    } else {
        Some(name)
    }
}

impl RefreshView {
    pub open spec fn start(slug: Seq<char>) -> RefreshView {
        RefreshView {
            slug,
            map: Map::empty(),
            stage: RefreshStage::Global,
            failed: false,
            own_failed: false,
        }
    }

    /// Whether the event is that what was asked for did not come.
    pub open spec fn is_lost(self, event: RefreshEvent) -> bool {
        match (self.stage, event) {
            (RefreshStage::Channel, RefreshEvent::Channel { .. }) => false,
            (RefreshStage::Channel, _) => true,
            (RefreshStage::Done, _) => false,
            (_, RefreshEvent::Fetched { payload, .. }) => payload is None,
            _ => true,
        }
    }

    /// With the event marked where it is a failure.
    pub open spec fn noting(self, event: RefreshEvent) -> RefreshView {
        let lost = self.is_lost(event);
        RefreshView {
            failed: self.failed || lost,
            own_failed: self.own_failed || (lost && self.stage != RefreshStage::Global),
            ..self
        }
    }

    /// The emotes after a fetched list.
    pub open spec fn with_set(self, payload: Option<Json>) -> Map<Seq<char>, EmoteView> {
        match payload {
            Some(payload) => collected(self.map, payload, "/emotes"@),
            None => self.map,
        }
    }

    /// What an event does: the state after it, and what is to be done then. The global emotes come
    /// first, so that those of the channel are laid over them.
    pub open spec fn after(self, event: RefreshEvent) -> (RefreshView, RefreshActionView) {
        let noted = self.noting(event);
        let done = RefreshView { stage: RefreshStage::Done, ..noted };
        match (self.stage, event) {
            (RefreshStage::Global, RefreshEvent::Fetched { payload, .. }) => (
                RefreshView {
                    map: self.with_set(payload),
                    stage: RefreshStage::Channel,
                    ..noted
                },
                RefreshActionView::FindChannel { slug: self.slug },
            ),
            (RefreshStage::Channel, RefreshEvent::Channel { emote_twitch_id: Some(id) }) => {
                if id@.len() == 0 {
                    (done, RefreshActionView::Finish)
                } else {
                    (
                        RefreshView { stage: RefreshStage::User, ..noted },
                        RefreshActionView::Fetch { url: user_url(id@) },
                    )
                }
            },
            (RefreshStage::User, RefreshEvent::Fetched { payload: Some(user), active_set }) => {
                match user.at_path("/emote_set/emotes"@) {
                    Some(Json::List(_)) => (
                        RefreshView { map: collected(self.map, user, "/emote_set/emotes"@), ..done },
                        RefreshActionView::Finish,
                    ),
                    _ => match active_set {
                        Some(set_id) => (
                            RefreshView { stage: RefreshStage::ActiveSet, ..noted },
                            RefreshActionView::Fetch { url: set_url(set_id@) },
                        ),
                        None => (done, RefreshActionView::Finish),
                    },
                }
            },
            (RefreshStage::ActiveSet, RefreshEvent::Fetched { payload, .. }) => (
                RefreshView { map: self.with_set(payload), ..done },
                RefreshActionView::Finish,
            ),
            _ => (done, RefreshActionView::Finish),
        }
    }
}

/// Starts to fetch the emotes of a channel where that is due. The first thing to fetch is the
/// global set.
pub fn refresh(cache: &EmoteCache, slug: &str, now: u64) -> (r: Option<(EmoteRefresh, RefreshAction)>)
    ensures
        match r {
            Some((state, action)) => {
                &&& due_slug(cache@, slug@, now) == Some(state@.slug)
                &&& state@ == RefreshView::start(state@.slug)
                &&& action@ == (RefreshActionView::Fetch { url: global_set_url() })
            },
            None => due_slug(cache@, slug@, now) is None,
        },
{
    let name = letters::to_lowercase(text::trim(slug));
    if name.as_str().is_empty() {
        return None;
    }
    match cache.channels.get(name.as_str()) {
        Some(channel) => {
            if now < channel.fetched_at || now - channel.fetched_at < EMOTE_TTL_MILLIS {
                return None;
            }
        },
        None => {},
    }
    Some(
        (
            EmoteRefresh {
                slug: name,
                map: TextMap::new(),
                stage: RefreshStage::Global,
                failed: false,
                own_failed: false,
            },
            RefreshAction::Fetch { url: "https://7tv.io/v3/emote-sets/global".to_string() },
        ),
    )
}

impl EmoteRefresh {
    fn collect_set(&mut self, payload: &Option<Json>)
        ensures
            final(self)@ == (RefreshView { map: old(self)@.with_set(*payload), ..old(self)@ }),
    {
        match payload {
            Some(payload) => collect_emotes(payload, "/emotes", &mut self.map),
            None => {},
        }
    }

    fn note(&mut self, event: &RefreshEvent)
        ensures
            final(self)@ == old(self)@.noting(*event),
    {
        let lost = match (self.stage, event) {
            (RefreshStage::Channel, RefreshEvent::Channel { .. }) => false,
            (RefreshStage::Channel, _) => true,
            (RefreshStage::Done, _) => false,
            (_, RefreshEvent::Fetched { payload, .. }) => payload.is_none(),
            _ => true,
        };
        if lost {
            self.failed = true;
            if self.stage != RefreshStage::Global {
                self.own_failed = true;
            }
        }
    }

    /// Takes what came back, and says what is to be done next.
    pub fn advance(&mut self, event: RefreshEvent) -> (r: RefreshAction)
        ensures
            (final(self)@, r@) == old(self)@.after(event),
    {
        self.note(&event);
        let stage = self.stage;
        self.stage = RefreshStage::Done;
        match (stage, event) {
            (RefreshStage::Global, RefreshEvent::Fetched { payload, .. }) => {
                self.collect_set(&payload);
                self.stage = RefreshStage::Channel;
                RefreshAction::FindChannel { slug: self.slug.clone() }
            },
            (RefreshStage::Channel, RefreshEvent::Channel { emote_twitch_id: Some(id) }) => {
                if id.as_str().is_empty() {
                    RefreshAction::Finish
                } else {
                    self.stage = RefreshStage::User;
                    let mut url = "https://7tv.io/v3/users/twitch/".to_string();
                    url.append(id.as_str());
                    RefreshAction::Fetch { url }
                }
            },
            (RefreshStage::User, RefreshEvent::Fetched { payload: Some(user), active_set }) => {
                let listed = match user.pointer("/emote_set/emotes") {
                    Some(value) => value.as_array().is_some(),
                    None => false,
                };
                if listed {
                    collect_emotes(&user, "/emote_set/emotes", &mut self.map);
                    RefreshAction::Finish
                } else {
                    match active_set {
                        Some(set_id) => {
                            self.stage = RefreshStage::ActiveSet;
                            let mut url = "https://7tv.io/v3/emote-sets/".to_string();
                            url.append(set_id.as_str());
                            RefreshAction::Fetch { url }
                        },
                        None => RefreshAction::Finish,
                    }
                }
            },
            (RefreshStage::ActiveSet, RefreshEvent::Fetched { payload, .. }) => {
                self.collect_set(&payload);
                RefreshAction::Finish
            },
            _ => RefreshAction::Finish,
        }
    }

    /// Keeps what was fetched; where something could not be, what the channel had stays with it.
    pub fn finish(self, cache: &mut EmoteCache, now: u64) -> (r: usize)
        ensures
            final(cache)@ == stored(old(cache)@, self@, now),
            r == self.map.names().len(),
            r > 0 <==> self@.map.dom() != Set::<Seq<char>>::empty(),
    {
        let ghost refresh = self@;
        let count = self.map.len();
        proof {
            let names = self.map.names();
            if count > 0 {
                assert(names.to_set().contains(names[0]));
                assert(self@.map.dom().contains(names[0]));
            } else {
                assert(names.to_set() =~= Set::empty());
            }
        }
        if count > 0 {
            let EmoteRefresh { slug, mut map, stage: _, failed, own_failed } = self;
            if failed {
                match cache.channels.get(slug.as_str()) {
                    Some(channel) => {
                        add_known(&mut map, &channel.map, own_failed);
                        assert(map@ == refresh.laid_over(channel.map@));
                    },
                    None => {},
                }
            }
            assert(map@ == (if cache@.contains_key(refresh.slug) {
                refresh.laid_over(cache@[refresh.slug].map)
            } else {
                refresh.map
            }));
            cache.channels.insert(slug, ChannelEmotes { map, fetched_at: now });
        }
        count
    }
}

/// Adds the emotes of `known` to `map`: all of them where they win, or else those whose names the
/// map does not hold.
fn add_known(map: &mut TextMap<ItzonEmote>, known: &TextMap<ItzonEmote>, known_wins: bool)
    ensures
        final(map)@ == (if known_wins {
            old(map)@.union_prefer_right(known@)
        } else {
            known@.union_prefer_right(old(map)@)
        }),
{
    let ghost start = map@;
    let count = known.len();
    let ghost names = known.names();
    let mut i: usize = 0;
    while i < count
        invariant
            names == known.names(),
            count == names.len(),
            text_map::in_order(names),
            names.to_set() == known@.dom(),
            i <= count,
            forall|k: Seq<char>| #[trigger]
                map@.contains_key(k) <==> start.contains_key(k) || names.take(i as int).contains(k),
            forall|k: Seq<char>| #[trigger]
                map@.contains_key(k) ==> map@[k] == (if names.take(i as int).contains(k) && (known_wins
                    || !start.contains_key(k)) {
                    known@[k]
                } else {
                    start[k]
                }),
        decreases count - i,
    {
        let ghost before = map@;
        let ghost seen = names.take(i as int);
        let ghost more = names.take(i + 1);
        let ghost name = names[i as int];
        let key = known.key_at(i);
        let held = map.contains_key(key);
        proof {
            assert(more =~= seen.push(name));
            assert forall|k: Seq<char>| more.contains(k) <==> seen.contains(k) || k == name by {
                if k == name {
                    assert(more[i as int] == k);
                }
                if seen.contains(k) {
                    let p = choose|p: int| 0 <= p < seen.len() && seen[p] == k;
                    assert(more[p] == k);
                }
                if more.contains(k) {
                    let p = choose|p: int| 0 <= p < more.len() && more[p] == k;
                    if p < i {
                        assert(seen[p] == k);
                    }
                }
            }
            if seen.contains(name) {
                let p = choose|p: int| 0 <= p < seen.len() && seen[p] == name;
                text_map::lemma_precedes_irreflexive(name);
                assert(text_map::precedes(names[p], names[i as int]));
            }
        }
        if known_wins || !held {
            map.insert(key.to_string(), known.value_at(i).clone());
        }
        i = i + 1;
    }
    proof {
        assert(names.take(i as int) =~= names);
        assert forall|k: Seq<char>| names.contains(k) <==> known@.contains_key(k) by {
            assert(names.to_set().contains(k) <==> known@.dom().contains(k));
        }
        if known_wins {
            assert(map@ =~= start.union_prefer_right(known@));
        } else {
            assert(map@ =~= known@.union_prefer_right(start));
        }
    }
}

impl RefreshView {
    /// The emotes that are kept of a channel that had `known`. Where all came, they are those that
    /// were fetched. Where something did not, the known ones stay: they win over the global ones
    /// that came where the channel's own are missing, and give way to the channel's own where those
    /// came.
    pub open spec fn laid_over(self, known: Map<Seq<char>, EmoteView>) -> Map<Seq<char>, EmoteView> {
        if !self.failed {
            self.map
        } else if self.own_failed {
            self.map.union_prefer_right(known)
        } else {
            known.union_prefer_right(self.map)
        }
    }
}

/// The cache after a fetching: what it brought laid over what the channel had, or what was there if
/// it brought nothing.
pub open spec fn stored(
    cache: Map<Seq<char>, ChannelEmotesView>,
    refresh: RefreshView,
    now: u64,
) -> Map<Seq<char>, ChannelEmotesView> {
    if refresh.map.dom() == Set::<Seq<char>>::empty() {
        cache
    } else {
        let map = if cache.contains_key(refresh.slug) {
            refresh.laid_over(cache[refresh.slug].map)
        } else {
            refresh.map
        };
        cache.insert(refresh.slug, ChannelEmotesView { map, fetched_at: now })
    }
}

/// A fetching that failed, in part or as a whole, erases no emote: each name that the channel had is
/// still there, with the emote that it had unless the fetching brought another one for it. What it
/// brought for such a name counts only where the channel's own emotes came. A fetching that brings
/// nothing changes nothing, and none changes another channel.
pub proof fn a_failed_refresh_keeps_the_cache(
    cache: Map<Seq<char>, ChannelEmotesView>,
    refresh: RefreshView,
    now: u64,
    word: Seq<char>,
    other: Seq<char>,
)
    ensures
        refresh.failed && cache.contains_key(refresh.slug) && cache[refresh.slug].map.contains_key(
            word,
        ) ==> {
            let known = cache[refresh.slug].map;
            let kept = stored(cache, refresh, now)[refresh.slug].map;
            &&& stored(cache, refresh, now).contains_key(refresh.slug)
            &&& kept.contains_key(word)
            &&& kept[word] == (if refresh.map.contains_key(word) && !refresh.own_failed {
                refresh.map[word]
            } else {
                known[word]
            })
        },
        refresh.map.dom() == Set::<Seq<char>>::empty() ==> stored(cache, refresh, now) == cache,
        other != refresh.slug ==> stored(cache, refresh, now).contains_key(other)
            == cache.contains_key(other) && stored(cache, refresh, now)[other] == cache[other],
{
    if refresh.map.contains_key(word) {
        assert(refresh.map.dom().contains(word));
    }
}

/// A fetching of the emotes of a channel, after all that came back.
pub open spec fn fetching(slug: Seq<char>, events: Seq<RefreshEvent>) -> RefreshView
    decreases events.len(),
{
    if events.len() == 0 {
        RefreshView::start(slug)
    } else {
        fetching(slug, events.drop_last()).after(events.last()).0
    }
}

proof fn lemma_failure_stays(slug: Seq<char>, events: Seq<RefreshEvent>, i: int)
    requires
        0 <= i < events.len(),
        fetching(slug, events.take(i)).is_lost(events[i]),
    ensures
        fetching(slug, events).failed,
    decreases events.len(),
{
    let earlier = events.drop_last();
    if i == events.len() - 1 {
        assert(events.take(i) =~= earlier);
    } else {
        assert(earlier.take(i) =~= events.take(i));
        lemma_failure_stays(slug, earlier, i);
    }
}

proof fn lemma_fetching_slug(slug: Seq<char>, events: Seq<RefreshEvent>)
    ensures
        fetching(slug, events).slug == slug,
    decreases events.len(),
{
    if events.len() > 0 {
        lemma_fetching_slug(slug, events.drop_last());
    }
}

/// Over a whole fetching: once anything that was asked for did not come, be it the global set, the
/// channel, its 7TV user or the set of that user, each word that showed an emote still shows one.
pub proof fn no_failure_erases_an_emote(
    cache: Map<Seq<char>, ChannelEmotesView>,
    name: Seq<char>,
    events: Seq<RefreshEvent>,
    i: int,
    now: u64,
    word: Seq<char>,
)
    requires
        0 <= i < events.len(),
        fetching(letters::lowercase(name), events.take(i)).is_lost(events[i]),
    ensures
        ({
            let end = fetching(letters::lowercase(name), events);
            let shown = emote_for(stored(cache, end, now), name, word);
            emote_for(cache, name, word) matches Some(emote) ==> {
                &&& shown is Some
                &&& end.own_failed || !end.map.contains_key(word) ==> shown == Some(emote)
            }
        }),
{
    let slug = letters::lowercase(name);
    lemma_failure_stays(slug, events, i);
    lemma_fetching_slug(slug, events);
    a_failed_refresh_keeps_the_cache(cache, fetching(slug, events), now, word, word);
}

/// Emotes that were kept are not fetched again within the time that they are good for, and then
/// they are.
pub proof fn emotes_are_kept_for_their_time(
    cache: Map<Seq<char>, ChannelEmotesView>,
    refresh: RefreshView,
    at: u64,
    slug: Seq<char>,
    now: u64,
)
    requires
        refresh.map.dom() != Set::<Seq<char>>::empty(),
        refresh.slug == letters::lowercase(text::trimmed(slug)),
        refresh.slug.len() > 0,
        at <= now,
    ensures
        due_slug(stored(cache, refresh, at), slug, now) is Some <==> now - at >= EMOTE_TTL_MILLIS,
{
}

/// The emotes of the channel's own list win over the global ones: whatever the global fetch
/// brought, a name that the list tells shows the emote of the list, and every other name what the
/// global fetch brought.
pub proof fn channel_emotes_override_globals(
    slug: Seq<char>,
    globals: Option<Json>,
    id: String,
    user: Json,
    active_set: Option<String>,
    items: Vec<Json>,
    name: Seq<char>,
)
    requires
        id@.len() > 0,
        user.at_path("/emote_set/emotes"@) == Some(Json::List(items)),
    ensures
        ({
            let start = RefreshView::start(slug);
            let shared = start.with_set(globals);
            let first = start.after(RefreshEvent::Fetched { payload: globals, active_set: None }).0;
            let second = first.after(RefreshEvent::Channel { emote_twitch_id: Some(id) }).0;
            let end = second.after(RefreshEvent::Fetched { payload: Some(user), active_set }).0;
            let own = overlaid(Map::empty(), items@);
            &&& end.stage == RefreshStage::Done
            &&& end.map.contains_key(name) == (own.contains_key(name) || shared.contains_key(name))
            &&& own.contains_key(name) ==> end.map[name] == own[name]
            &&& !own.contains_key(name) ==> end.map[name] == shared[name]
        }),
{
    let shared = RefreshView::start(slug).with_set(globals);
    later_emotes_win(shared, items@, name);
}

/// Where an emote comes from.
#[derive(Clone, Copy, Debug, PartialEq, Eq, Structural)]
pub enum EmoteProvider {
    SevenTV,
}

/// An emote in a list of emotes.
#[derive(Debug)]
pub struct Emote {
    pub id: String,
    pub name: String,
    pub url: String,
    pub provider: EmoteProvider,
    pub is_zero_width: Option<bool>,
    pub local_url: Option<String>,
    pub emote_type: Option<String>,
    pub owner_id: Option<String>,
    pub owner_name: Option<String>,
    pub modifier_flags: Option<u32>,
    pub ffz_sub_only: Option<bool>,
    pub width: Option<u32>,
}

pub struct ListedEmoteView {
    pub id: Seq<char>,
    pub name: Seq<char>,
    pub url: Seq<char>,
    pub provider: EmoteProvider,
    pub is_zero_width: Option<bool>,
    pub local_url: Option<Seq<char>>,
    pub emote_type: Option<Seq<char>>,
    pub owner_id: Option<Seq<char>>,
    pub owner_name: Option<Seq<char>>,
    pub modifier_flags: Option<u32>,
    pub ffz_sub_only: Option<bool>,
    pub width: Option<u32>,
}

impl View for Emote {
    type V = ListedEmoteView;

    open spec fn view(&self) -> ListedEmoteView {
        ListedEmoteView {
            id: self.id@,
            name: self.name@,
            url: self.url@,
            provider: self.provider,
            is_zero_width: self.is_zero_width,
            local_url: self.local_url.deep_view(),
            emote_type: self.emote_type.deep_view(),
            owner_id: self.owner_id.deep_view(),
            owner_name: self.owner_name.deep_view(),
            modifier_flags: self.modifier_flags,
            ffz_sub_only: self.ffz_sub_only,
            width: self.width,
        }
    }
}

impl DeepView for Emote {
    type V = ListedEmoteView;

    open spec fn deep_view(&self) -> ListedEmoteView {
        self@
    }
}

pub open spec fn listed(name: Seq<char>, emote: EmoteView) -> ListedEmoteView {
    ListedEmoteView {
        id: emote.id,
        name,
        url: emote.url,
        provider: EmoteProvider::SevenTV,
        is_zero_width: Some(emote.zero_width),
        local_url: None,
        emote_type: None,
        owner_id: None,
        owner_name: emote.owner_name,
        modifier_flags: None,
        ffz_sub_only: None,
        width: emote.width,
    }
}

/// Whether the list holds each emote of the map once, under its name.
pub open spec fn lists_all(list: Seq<ListedEmoteView>, map: Map<Seq<char>, EmoteView>) -> bool {
    &&& forall|i: int|
        0 <= i < list.len() ==> map.contains_key((#[trigger] list[i]).name) && list[i] == listed(
            list[i].name,
            map[list[i].name],
        )
    &&& forall|i: int, j: int|
        0 <= i < j < list.len() ==> (#[trigger] list[i]).name != (#[trigger] list[j]).name
    &&& forall|name: Seq<char>| #[trigger]
        map.contains_key(name) ==> exists|i: int|
            0 <= i < list.len() && (#[trigger] list[i]).name == name
}

/// All emotes of a channel.
pub fn channel_emote_set(cache: &EmoteCache, slug: &str) -> (r: Vec<Emote>)
    ensures
        ({
            let name = letters::lowercase(slug@);
            if cache@.contains_key(name) {
                lists_all(r.deep_view(), cache@[name].map)
            } else {
                r.len() == 0
            }
        }),
{
    let mut list: Vec<Emote> = Vec::new();
    let channel = match cache.channels.get(letters::to_lowercase(slug).as_str()) {
        Some(channel) => channel,
        None => {
            return list;
        },
    };
    let map = &channel.map;
    let count = map.len();
    let ghost names = map.names();
    let mut i: usize = 0;
    while i < count
        invariant
            names == map.names(),
            count == names.len(),
            i <= count,
            list.len() == i,
            forall|k: int|
                0 <= k < i ==> map@.contains_key(names[k]) && (#[trigger] list.deep_view()[k])
                    == listed(names[k], map@[names[k]]),
        decreases count - i,
    {
        let ghost before = list.deep_view();
        let emote = map.value_at(i);
        list.push(
            Emote {
                id: emote.id.clone(),
                name: map.key_at(i).to_string(),
                url: emote.url.clone(),
                provider: EmoteProvider::SevenTV,
                is_zero_width: Some(emote.zero_width),
                local_url: None,
                emote_type: None,
                owner_id: None,
                owner_name: copy_text(&emote.owner_name),
                modifier_flags: None,
                ffz_sub_only: None,
                width: emote.width,
            },
        );
        assert(list.deep_view() =~= before.push(listed(names[i as int], map@[names[i as int]])));
        i = i + 1;
    }
    proof {
        let all = list.deep_view();
        assert forall|a: int, b: int| 0 <= a < b < all.len() implies (#[trigger] all[a]).name != (
        #[trigger] all[b]).name by {
            text_map::lemma_precedes_irreflexive(names[a]);
            assert(text_map::precedes(names[a], names[b]));
        }
        assert forall|name: Seq<char>| #[trigger] map@.contains_key(name) implies exists|k: int|
            0 <= k < all.len() && (#[trigger] all[k]).name == name by {
            assert(names.to_set().contains(name));
            let k = choose|k: int| 0 <= k < names.len() && names[k] == name;
            assert(all[k].name == name);
        }
    }
    list
}

/// Whether the part that stands for the text from `a` on is the emote, under the word.
pub open spec fn shows_at(
    parts: Seq<SegmentView>,
    k: int,
    before: Seq<char>,
    word: Seq<char>,
    emote: EmoteView,
) -> bool {
    &&& 0 <= k < parts.len()
    &&& contents(parts.take(k)) == before
    &&& parts[k] matches SegmentView::Emote {
        content,
        emote_id,
        emote_url,
        is_zero_width,
        modifier_flags,
        is_personal,
    } && content == word && emote_id == Some(emote.id) && emote_url == emote.url && is_zero_width
        == Some(emote.zero_width) && modifier_flags is None && is_personal is None
}

proof fn lemma_word_shown(
    cache: Map<Seq<char>, ChannelEmotesView>,
    slug: Seq<char>,
    before: Seq<char>,
    rest: Seq<char>,
    a: int,
    b: int,
) -> (k: int)
    requires
        text::is_word_at(rest, a, b),
        cache.contains_key(letters::lowercase(slug)),
        cache[letters::lowercase(slug)].map.contains_key(rest.subrange(a, b)),
    ensures
        shows_at(
            segments_after(cache, slug, before, rest),
            k,
            before + rest.take(a),
            rest.subrange(a, b),
            cache[letters::lowercase(slug)].map[rest.subrange(a, b)],
        ),
    decreases rest.len(),
{
    let space = CharClass::WhiteSpace;
    let at = text::first_index(rest, space);
    let parts = segments_after(cache, slug, before, rest);
    let wanted = rest.subrange(a, b);
    text::lemma_first_index(rest, space);
    if before.len() > 0 {
        lemma_contents_one(SegmentView::Text { content: before });
    }
    assert(contents(text_segment(before)) =~= before);
    if at == 0 {
        assert(space.has(rest[0]));
        assert(a > 0);
        let next = rest.drop_first();
        assert forall|i: int| a - 1 <= i < b - 1 implies !text::is_white_space(#[trigger] next[i]) by {
            assert(next[i] == rest[i + 1]);
        }
        assert(text::is_word_at(next, a - 1, b - 1));
        assert(next.subrange(a - 1, b - 1) =~= wanted);
        let k = lemma_word_shown(cache, slug, before.push(rest[0]), next, a - 1, b - 1);
        assert(before.push(rest[0]) + next.take(a - 1) =~= before + rest.take(a));
        k
    } else {
        let word = rest.take(at);
        let next = rest.skip(at);
        if a == 0 {
            if at < b {
                assert(text::is_white_space(rest[at]));
            }
            if b < at {
                assert(!space.has(rest[b]));
            }
            assert(word =~= wanted);
            let k = text_segment(before).len() as int;
            let emote = cache[letters::lowercase(slug)].map[wanted];
            assert(parts.take(k) =~= text_segment(before));
            assert(parts[k] == emote_segment(word, emote));
            assert(before + rest.take(0) =~= before);
            k
        } else {
            assert(text::is_white_space(rest[a - 1]));
            assert(at <= a - 1) by {
                if a - 1 < at {
                    assert(!space.has(rest[a - 1]));
                }
            }
            assert forall|i: int| a - at <= i < b - at implies !text::is_white_space(
                #[trigger] next[i],
            ) by {
                assert(next[i] == rest[i + at]);
            }
            assert(text::is_word_at(next, a - at, b - at));
            assert(next.subrange(a - at, b - at) =~= wanted);
            match emote_for(cache, slug, word) {
                Some(emote) => {
                    let shown = seq![emote_segment(word, emote)];
                    let tail = segments_after(cache, slug, seq![], next);
                    let k = lemma_word_shown(cache, slug, seq![], next, a - at, b - at);
                    let front = text_segment(before) + shown;
                    let n = front.len() as int;
                    assert(parts =~= front + tail);
                    assert(parts.take(n + k) =~= front + tail.take(k));
                    lemma_contents_concat(front, tail.take(k));
                    lemma_contents_concat(text_segment(before), shown);
                    lemma_contents_one(emote_segment(word, emote));
                    assert(before + word + (Seq::<char>::empty() + next.take(a - at)) =~= before
                        + rest.take(a));
                    assert(parts[n + k] == tail[k]);
                    n + k
                },
                None => {
                    let k = lemma_word_shown(cache, slug, before + word, next, a - at, b - at);
                    assert(before + word + next.take(a - at) =~= before + rest.take(a));
                    k
                },
            }
        }
    }
}

/// Each word of a text that is the name of an emote of the channel is shown as that emote, in its
/// place in the text.
pub proof fn each_named_word_is_shown(
    cache: Map<Seq<char>, ChannelEmotesView>,
    slug: Seq<char>,
    text: Seq<char>,
    a: int,
    b: int,
)
    requires
        text::is_word_at(text, a, b),
        cache.contains_key(letters::lowercase(slug)),
        cache[letters::lowercase(slug)].map.contains_key(text.subrange(a, b)),
    ensures
        exists|k: int|
            #[trigger] shows_at(
                segments(cache, slug, text),
                k,
                text.take(a),
                text.subrange(a, b),
                cache[letters::lowercase(slug)].map[text.subrange(a, b)],
            ),
{
    let k = lemma_word_shown(cache, slug, seq![], text, a, b);
    assert(Seq::<char>::empty() + text.take(a) =~= text.take(a));
    assert(shows_at(
        segments(cache, slug, text),
        k,
        text.take(a),
        text.subrange(a, b),
        cache[letters::lowercase(slug)].map[text.subrange(a, b)],
    ));
}

proof fn lemma_shown_is_word(
    cache: Map<Seq<char>, ChannelEmotesView>,
    slug: Seq<char>,
    before: Seq<char>,
    rest: Seq<char>,
    k: int,
)
    requires
        0 <= k < segments_after(cache, slug, before, rest).len(),
        segments_after(cache, slug, before, rest)[k] is Emote,
    ensures
        ({
            let parts = segments_after(cache, slug, before, rest);
            let a = contents(parts.take(k)).len() - before.len();
            let b = a + parts[k].content().len();
            text::is_word_at(rest, a, b) && rest.subrange(a, b) == parts[k].content()
        }),
    decreases rest.len(),
{
    let space = CharClass::WhiteSpace;
    let at = text::first_index(rest, space);
    let parts = segments_after(cache, slug, before, rest);
    text::lemma_first_index(rest, space);
    if before.len() > 0 {
        lemma_contents_one(SegmentView::Text { content: before });
    }
    assert(contents(text_segment(before)) =~= before);
    let a = contents(parts.take(k)).len() - before.len();
    let b = a + parts[k].content().len();
    if rest.len() == 0 {
    } else if at == 0 {
        let next = rest.drop_first();
        lemma_shown_is_word(cache, slug, before.push(rest[0]), next, k);
        assert(next.subrange(a - 1, b - 1) =~= rest.subrange(a, b));
        assert forall|i: int| a <= i < b implies !text::is_white_space(#[trigger] rest[i]) by {
            assert(rest[i] == next[i - 1]);
        }
        if a - 1 > 0 {
            assert(rest[a - 1] == next[a - 2]);
        } else {
            assert(space.has(rest[0]));
        }
        if b < rest.len() {
            assert(rest[b] == next[b - 1]);
        }
    } else {
        let word = rest.take(at);
        let next = rest.skip(at);
        match emote_for(cache, slug, word) {
            Some(emote) => {
                let shown = seq![emote_segment(word, emote)];
                let tail = segments_after(cache, slug, seq![], next);
                let front = text_segment(before) + shown;
                let n = front.len() as int;
                assert(parts =~= front + tail);
                if k == n - 1 {
                    assert(parts.take(k) =~= text_segment(before));
                    assert(rest.subrange(0, at) =~= word);
                    assert forall|i: int| 0 <= i < at implies !text::is_white_space(
                        #[trigger] rest[i],
                    ) by {
                        assert(!space.has(rest[i]));
                    }
                    if at < rest.len() {
                        assert(space.has(rest[at]));
                    }
                } else {
                    assert(k >= n);
                    let j = k - n;
                    assert(parts[k] == tail[j]);
                    lemma_shown_is_word(cache, slug, seq![], next, j);
                    assert(parts.take(k) =~= front + tail.take(j));
                    lemma_contents_concat(front, tail.take(j));
                    lemma_contents_concat(text_segment(before), shown);
                    lemma_contents_one(emote_segment(word, emote));
                    lemma_word_moves(rest, at, a - at, b - at);
                }
            },
            None => {
                lemma_shown_is_word(cache, slug, before + word, next, k);
                lemma_word_moves(rest, at, a - at, b - at);
            },
        }
    }
}

/// A word behind the first one is a word of the whole.
proof fn lemma_word_moves(rest: Seq<char>, at: int, a: int, b: int)
    requires
        0 < at <= rest.len(),
        at == text::first_index(rest, CharClass::WhiteSpace),
        text::is_word_at(rest.skip(at), a, b),
    ensures
        text::is_word_at(rest, at + a, at + b),
        rest.subrange(at + a, at + b) == rest.skip(at).subrange(a, b),
{
    let next = rest.skip(at);
    text::lemma_first_index(rest, CharClass::WhiteSpace);
    assert(next.len() > 0);
    assert(CharClass::WhiteSpace.has(rest[at]));
    assert(next[0] == rest[at]);
    assert(a > 0);
    assert(rest[at + a - 1] == next[a - 1]);
    assert forall|i: int| at + a <= i < at + b implies !text::is_white_space(#[trigger] rest[i]) by {
        assert(rest[i] == next[i - at]);
    }
    if at + b < rest.len() {
        assert(rest[at + b] == next[b]);
    }
    assert(rest.subrange(at + a, at + b) =~= next.subrange(a, b));
}

/// Nothing else is shown as an emote: each emote stands for a word of the text that is its name
/// among those of the channel.
pub proof fn only_named_words_are_shown(
    cache: Map<Seq<char>, ChannelEmotesView>,
    slug: Seq<char>,
    text: Seq<char>,
    k: int,
)
    requires
        0 <= k < segments(cache, slug, text).len(),
        segments(cache, slug, text)[k] is Emote,
    ensures
        ({
            let parts = segments(cache, slug, text);
            let a = contents(parts.take(k)).len() as int;
            let b = a + parts[k].content().len();
            let word = text.subrange(a, b);
            let name = letters::lowercase(slug);
            &&& text::is_word_at(text, a, b)
            &&& cache.contains_key(name)
            &&& cache[name].map.contains_key(word)
            &&& shows_at(parts, k, text.take(a), word, cache[name].map[word])
        }),
{
    let parts = segments(cache, slug, text);
    assert(text.len() > 0);
    lemma_shown_is_word(cache, slug, seq![], text, k);
    segments_are_tight(cache, slug, text);
    segments_preserve_text(cache, slug, text);
    assert(parts[k] is Emote);
    assert(parts =~= parts.take(k) + parts.skip(k));
    lemma_contents_concat(parts.take(k), parts.skip(k));
    let a = contents(parts.take(k)).len() as int;
    assert(contents(parts.take(k)) =~= text.take(a));
}

/// What 7TV tells of an emote is taken as it is: the name, the id, and what the flags say of its
/// width in the line. Without a name and an id there is no emote.
pub proof fn an_emote_is_taken_as_told(active: Json, data: Json)
    requires
        data == (match active.named("data"@) {
            Some(data) => data,
            None => active,
        }),
    ensures
        told_emote(active) is Some <==> (active.named("name"@) matches Some(Json::Text(_))) && (
        told_id(active, data) matches Some(Json::Text(_))),
        told_emote(active) matches Some((name, emote)) ==> {
            &&& active.named("name"@) matches Some(Json::Text(told)) && told@ == name
            &&& told_id(active, data) matches Some(Json::Text(id)) && id@ == emote.id && emote.url
                == "https://cdn.7tv.app/emote/"@ + id@ + "/2x.webp"@
            &&& match data.named("flags"@) {
                Some(Json::Unsigned(flags)) => flags <= i64::MAX ==> (emote.zero_width <==> (flags
                    / 256) % 2 == 1),
                Some(_) => true,
                None => active.named("flags"@) is None ==> !emote.zero_width,
            }
            &&& match data.at_path("/owner/display_name"@) {
                Some(Json::Text(owner)) => emote.owner_name == Some(owner@),
                _ => emote.owner_name is None,
            }
            &&& match data.at_path("/host/files/0/width"@) {
                Some(Json::Unsigned(width)) => width <= u32::MAX ==> emote.width == Some(
                    width as u32,
                ),
                _ => emote.width is None,
            }
        },
{
    match data.named("flags"@) {
        Some(Json::Unsigned(flags)) => {
            if flags <= i64::MAX {
                let signed = flags as i64;
                assert(((signed & 256) == 256) == ((flags / 256) % 2 == 1)) by (bit_vector)
                    requires
                        signed == flags as i64,
                        flags <= 0x7fff_ffff_ffff_ffffu64,
                ;
            }
        },
        _ => {},
    }
    assert(0i64 & 256 == 0) by (bit_vector);
}

/// The id that is told of an emote: beside its other facts, or else in the item itself.
pub open spec fn told_id(active: Json, data: Json) -> Option<Json> {
    match data.named("id"@) {
        Some(id) => Some(id),
        None => active.named("id"@),
    }
}

/// The emotes of a channel are fetched in turn: the global set, the channel for the id of its 7TV
/// user, that user, and where it lists no emotes its active set; each at the address that is its
/// own.
pub proof fn a_refresh_asks_in_turn(
    slug: Seq<char>,
    globals: Option<Json>,
    id: String,
    user: Json,
    active_set: Option<String>,
    set_id: String,
    payload: Option<Json>,
)
    requires
        id@.len() > 0,
        !(user.at_path("/emote_set/emotes"@) matches Some(Json::List(_))),
        active_set == Some(set_id),
    ensures
        ({
            let start = RefreshView::start(slug);
            let first = start.after(RefreshEvent::Fetched { payload: globals, active_set: None });
            let second = first.0.after(RefreshEvent::Channel { emote_twitch_id: Some(id) });
            let third = second.0.after(RefreshEvent::Fetched { payload: Some(user), active_set });
            let fourth = third.0.after(RefreshEvent::Fetched { payload, active_set: None });
            &&& start.slug == slug
            &&& start.stage is Global
            &&& global_set_url() == "https://7tv.io/v3/emote-sets/global"@
            &&& first.1 == (RefreshActionView::FindChannel { slug })
            &&& second.1 == (RefreshActionView::Fetch {
                url: "https://7tv.io/v3/users/twitch/"@ + id@,
            })
            &&& third.1 == (RefreshActionView::Fetch {
                url: "https://7tv.io/v3/emote-sets/"@ + set_id@,
            })
            &&& fourth.1 is Finish
            &&& fourth.0.slug == slug
            &&& globals matches Some(list) ==> first.0.map == collected(
                Map::empty(),
                list,
                "/emotes"@,
            )
            &&& second.0.map == first.0.map
            &&& third.0.map == first.0.map
            &&& payload matches Some(list) ==> fourth.0.map == collected(
                first.0.map,
                list,
                "/emotes"@,
            )
            &&& payload is None ==> fourth.0.map == first.0.map
        }),
{
}

/// Emotes are fetched again after ten minutes, for a channel with a name, by that name in lower case
/// and without white space around it.
pub proof fn emotes_are_due_after_ten_minutes(
    cache: Map<Seq<char>, ChannelEmotesView>,
    slug: Seq<char>,
    now: u64,
)
    ensures
        ({
            let name = letters::lowercase(text::trimmed(slug));
            &&& due_slug(cache, slug, now) is Some <==> name.len() > 0 && (!cache.contains_key(name)
                || now - cache[name].fetched_at >= 600_000)
            &&& due_slug(cache, slug, now) matches Some(due) ==> due == name
        }),
{
}

/// An emote is listed with all that is known of it.
pub proof fn an_emote_is_listed_as_it_is(name: Seq<char>, emote: EmoteView)
    ensures
        ({
            let shown = listed(name, emote);
            &&& shown.name == name
            &&& shown.id == emote.id
            &&& shown.url == emote.url
            &&& shown.provider is SevenTV
            &&& shown.is_zero_width == Some(emote.zero_width)
            &&& shown.owner_name == emote.owner_name
            &&& shown.width == emote.width
            &&& shown.local_url is None && shown.emote_type is None && shown.owner_id is None
                && shown.modifier_flags is None && shown.ffz_sub_only is None
        }),
{
}

} // verus!
