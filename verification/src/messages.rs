//! Chat messages and redactions, made from lines of IRC.
use crate::emotes;
use crate::emotes::ChannelEmotesView;
use crate::emotes::EmoteCache;
use crate::emotes::MessageSegment;
use crate::emotes::SegmentView;
use crate::irc::IrcLine;
use crate::irc::IrcLineView;
use crate::letters;
use crate::members::Badge;
use crate::members::BadgeView;
use crate::members::MemberState;
use crate::members::MemberView;
use crate::recent::RecentMessage;
use crate::recent::RecentMessageView;
use crate::recent::RecentMessages;
use crate::recent::RecentView;
use crate::text;
use crate::text::CharClass;
use crate::text_map::TextMap;
use crate::urls;
use vstd::prelude::*;
use vstd::string::*;

verus! {

/// What a reply answers.
#[derive(Debug)]
pub struct ReplyInfo {
    pub parent_msg_id: String,
    pub parent_display_name: String,
    pub parent_msg_body: String,
    pub parent_user_id: String,
    pub parent_user_login: String,
}

pub struct ReplyInfoView {
    pub parent_msg_id: Seq<char>,
    pub parent_display_name: Seq<char>,
    pub parent_msg_body: Seq<char>,
    pub parent_user_id: Seq<char>,
    pub parent_user_login: Seq<char>,
}

impl View for ReplyInfo {
    type V = ReplyInfoView;

    open spec fn view(&self) -> ReplyInfoView {
        ReplyInfoView {
            parent_msg_id: self.parent_msg_id@,
            parent_display_name: self.parent_display_name@,
            parent_msg_body: self.parent_msg_body@,
            parent_user_id: self.parent_user_id@,
            parent_user_login: self.parent_user_login@,
        }
    }
}

impl DeepView for ReplyInfo {
    type V = ReplyInfoView;

    open spec fn deep_view(&self) -> ReplyInfoView {
        self@
    }
}

/// How a message is laid out, before it is measured.
#[derive(Debug)]
pub struct LayoutResult {
    pub has_reply: bool,
    pub is_first_message: bool,
}

#[derive(Debug)]
pub struct MessageMetadata {
    pub is_action: bool,
    pub reply_info: Option<ReplyInfo>,
}

/// A message of a chat.
#[derive(Debug)]
pub struct ChatMessage {
    pub id: String,
    pub user_id: String,
    pub username: String,
    pub display_name: String,
    pub color: Option<String>,
    pub badges: Vec<Badge>,
    pub timestamp: String,
    pub content: String,
    pub provider: String,
    pub channel: String,
    pub tags: TextMap<String>,
    pub layout: LayoutResult,
    pub segments: Vec<MessageSegment>,
    pub metadata: MessageMetadata,
}

pub struct ChatMessageView {
    pub id: Seq<char>,
    pub user_id: Seq<char>,
    pub username: Seq<char>,
    pub display_name: Seq<char>,
    pub color: Option<Seq<char>>,
    pub badges: Seq<BadgeView>,
    pub timestamp: Seq<char>,
    pub content: Seq<char>,
    pub provider: Seq<char>,
    pub channel: Seq<char>,
    pub tags: Map<Seq<char>, Seq<char>>,
    pub has_reply: bool,
    pub is_first_message: bool,
    pub segments: Seq<SegmentView>,
    pub is_action: bool,
    pub reply_info: Option<ReplyInfoView>,
}

impl View for ChatMessage {
    type V = ChatMessageView;

    open spec fn view(&self) -> ChatMessageView {
        ChatMessageView {
            id: self.id@,
            user_id: self.user_id@,
            username: self.username@,
            display_name: self.display_name@,
            color: self.color.deep_view(),
            badges: self.badges.deep_view(),
            timestamp: self.timestamp@,
            content: self.content@,
            provider: self.provider@,
            channel: self.channel@,
            tags: self.tags@,
            has_reply: self.layout.has_reply,
            is_first_message: self.layout.is_first_message,
            segments: self.segments.deep_view(),
            is_action: self.metadata.is_action,
            reply_info: self.metadata.reply_info.deep_view(),
        }
    }
}

/// The name in front of the first `!` of a prefix.
pub open spec fn nick_of(prefix: Seq<char>) -> Seq<char> {
    prefix.take(text::first_index(prefix, CharClass::Only('!')))
}

pub fn nick_in(prefix: &str) -> (r: &str)
    ensures
        r@ == nick_of(prefix@),
{
    let at = text::find_class(prefix, &CharClass::Only('!'));
    assert(prefix@.subrange(0, at as int) =~= prefix@.take(at as int));
    prefix.substring_char(0, at)
}

/// The sender of a line; an empty name where it has no prefix.
pub open spec fn sender_of(line: IrcLineView) -> Seq<char> {
    match line.prefix {
        Some(prefix) => nick_of(prefix),
        None => seq![],
    }
}

pub fn sender_in(line: &IrcLine) -> (r: String)
    ensures
        r@ == sender_of(line@),
{
    match &line.prefix {
        Some(prefix) => nick_in(prefix.as_str()).to_string(),
        None => {
            let none = String::new();
            assert(none@ =~= seq![]);
            none
        },
    }
}

/// A parameter of a line, if it has so many.
pub open spec fn param(line: IrcLineView, i: int) -> Option<Seq<char>> {
    if 0 <= i < line.params.len() {
        Some(line.params[i])
    } else {
        None
    }
}

pub fn param_at(line: &IrcLine, i: usize) -> (r: Option<&str>)
    ensures
        r.deep_view() == param(line@, i as int),
{
    if i < line.params.len() {
        Some(line.params[i].as_str())
    } else {
        None
    }
}

/// The body of a message: the trailing text, or else the parameter behind the channel. Some
/// messages of one word come without the colon that marks a trailing text.
pub open spec fn body_of(line: IrcLineView) -> Seq<char> {
    match line.trailing {
        Some(text) => text,
        None => match param(line, 1) {
            Some(word) => word,
            None => seq![],
        },
    }
}

pub fn privmsg_body(line: &IrcLine) -> (r: String)
    ensures
        r@ == body_of(line@),
{
    match &line.trailing {
        Some(text) => text.clone(),
        None => match param_at(line, 1) {
            Some(word) => word.to_string(),
            None => {
                let none = String::new();
                assert(none@ =~= seq![]);
                none
            },
        },
    }
}

/// What an action tells, where the body is one: it stands between `\u{1}ACTION ` and `\u{1}`.
pub open spec fn action_in(body: Seq<char>) -> Option<Seq<char>> {
    let start = "\u{1}ACTION "@;
    if start.is_prefix_of(body) && body.last() == '\u{1}' {
        Some(body.subrange(start.len() as int, body.len() - 1))
    } else {
        None
    }
}

fn read_action(body: &str) -> (r: Option<&str>)
    ensures
        r.deep_view() == action_in(body@),
{
    proof {
        reveal_strlit("\u{1}ACTION ");
    }
    if !text::starts_with(body, "\u{1}ACTION ") {
        return None;
    }
    let n = body.unicode_len();
    assert(body@[7] == "\u{1}ACTION "@[7]);
    if body.get_char(n - 1) != '\u{1}' {
        return None;
    }
    Some(body.substring_char(8, n - 1))
}

/// The value of a tag; empty where the tag is missing.
pub open spec fn tag_or_empty(tags: Map<Seq<char>, Seq<char>>, name: Seq<char>) -> Seq<char> {
    if tags.contains_key(name) {
        tags[name]
    } else {
        seq![]
    }
}

fn tag_text(tags: &TextMap<String>, name: &str) -> (r: String)
    ensures
        r@ == tag_or_empty(tags@, name@),
{
    match tags.get(name) {
        Some(value) => value.clone(),
        None => {
            let none = String::new();
            assert(none@ =~= seq![]);
            none
        },
    }
}

/// Whether the line brings an id of its own for the message.
pub open spec fn has_id(line: IrcLineView) -> bool {
    tag_or_empty(line.tags, "msgid"@).len() > 0
}

/// The id of a message: its own, or one made from a number.
pub open spec fn id_of(line: IrcLineView, fallback: u64) -> Seq<char> {
    if has_id(line) {
        line.tags["msgid"@]
    } else {
        "itzon-"@ + letters::decimal(fallback as nat)
    }
}

/// The number for the next message without an id of its own.
pub open spec fn next_fallback(line: IrcLineView, fallback: u64) -> u64 {
    if has_id(line) {
        fallback
    } else if fallback == u64::MAX {
        0
    } else {
        (fallback + 1) as u64
    }
}

/// The texts that are numbers of users.
pub open spec fn is_user_number(id: Seq<char>) -> bool {
    &&& id.len() > 0
    &&& forall|i: int| 0 <= i < id.len() ==> letters::is_ascii_digit(#[trigger] id[i])
}

fn user_number(id: &str) -> (r: bool)
    ensures
        r == is_user_number(id@),
{
    let chars = text::chars_of(id);
    let mut i: usize = 0;
    while i < chars.len()
        invariant
            chars@ == id@,
            i <= chars.len(),
            forall|k: int| 0 <= k < i ==> letters::is_ascii_digit(#[trigger] id@[k]),
        decreases chars.len() - i,
    {
        if !letters::ascii_digit(chars[i]) {
            assert(!letters::is_ascii_digit(id@[i as int]));
            return false;
        }
        i = i + 1;
    }
    chars.len() > 0
}

/// The kinds of pictures that avatars are.
pub open spec fn is_avatar_kind(ext: Seq<char>) -> bool {
    ext == "jpg"@ || ext == "png"@ || ext == "gif"@
}

pub open spec fn chat_avatar_url(user_id: Seq<char>, ext: Seq<char>) -> Seq<char> {
    "https://itzon.tv/api/live/avatar/"@ + user_id + "."@ + ext
}

/// The tags of a message: those of the line, with its name and id, and the address of the avatar
/// where the line tells a user by number and a kind of picture.
pub open spec fn message_tags(
    tags: Map<Seq<char>, Seq<char>>,
    display_name: Seq<char>,
    id: Seq<char>,
) -> Map<Seq<char>, Seq<char>> {
    let named = tags.insert("display-name"@, display_name).insert("id"@, id);
    let user_id = tag_or_empty(tags, "user-id"@);
    if is_user_number(user_id) && tags.contains_key("avatar"@) && is_avatar_kind(tags["avatar"@]) {
        named.insert("avatar"@, chat_avatar_url(user_id, tags["avatar"@]))
    } else {
        named
    }
}

fn build_tags(tags: &TextMap<String>, display_name: &str, id: &str) -> (r: TextMap<String>)
    ensures
        r@ == message_tags(tags@, display_name@, id@),
{
    let mut named = tags.copy();
    named.insert("display-name".to_string(), display_name.to_string());
    named.insert("id".to_string(), id.to_string());
    let user_id = tag_text(tags, "user-id");
    if user_number(user_id.as_str()) {
        match tags.get("avatar") {
            Some(ext) => {
                let kind = ext.as_str();
                if text::same_text(kind, "jpg") || text::same_text(kind, "png") || text::same_text(
                    kind,
                    "gif",
                ) {
                    let mut url = "https://itzon.tv/api/live/avatar/".to_string();
                    url.append(user_id.as_str());
                    url.append(".");
                    url.append(kind);
                    named.insert("avatar".to_string(), url);
                }
            },
            None => {},
        }
    }
    named
}

/// What a reply to `parent` answers, as far as the message is remembered.
pub open spec fn reply_to(parent: Seq<char>, recent: RecentView) -> ReplyInfoView {
    if recent.by_id.contains_key(parent) {
        let found = recent.by_id[parent];
        ReplyInfoView {
            parent_msg_id: parent,
            parent_display_name: found.display_name,
            parent_msg_body: found.body,
            parent_user_id: found.user_id,
            parent_user_login: found.username,
        }
    } else {
        ReplyInfoView {
            parent_msg_id: parent,
            parent_display_name: seq![],
            parent_msg_body: seq![],
            parent_user_id: seq![],
            parent_user_login: seq![],
        }
    }
}

/// What a line answers, where it is a reply.
pub open spec fn reply_of(
    tags: Map<Seq<char>, Seq<char>>,
    recent: RecentView,
) -> Option<ReplyInfoView> {
    if tag_or_empty(tags, "+reply"@).len() > 0 {
        Some(reply_to(tags["+reply"@], recent))
    } else {
        None
    }
}

fn read_reply(tags: &TextMap<String>, recent: &RecentMessages) -> (r: Option<ReplyInfo>)
    ensures
        r.deep_view() == reply_of(tags@, recent@),
{
    let parent = tag_text(tags, "+reply");
    if parent.as_str().is_empty() {
        return None;
    }
    match recent.find(parent.as_str()) {
        Some(found) => Some(
            ReplyInfo {
                parent_display_name: found.display_name.clone(),
                parent_msg_body: found.body.clone(),
                parent_user_id: found.user_id.clone(),
                parent_user_login: found.username.clone(),
                parent_msg_id: parent,
            },
        ),
        None => {
            let none = String::new();
            assert(none@ =~= seq![]);
            Some(
                ReplyInfo {
                    parent_msg_id: parent,
                    parent_display_name: none.clone(),
                    parent_msg_body: none.clone(),
                    parent_user_id: none.clone(),
                    parent_user_login: none,
                },
            )
        },
    }
}

/// The channel that a key names.
pub open spec fn slug_of(channel_key: Seq<char>) -> Seq<char> {
    match text::stripped(channel_key, "itzon:"@) {
        Some(slug) => slug,
        None => channel_key,
    }
}

/// The message that a line brings to a channel; `None` where the line has no prefix.
pub open spec fn normalized(
    line: IrcLineView,
    channel_key: Seq<char>,
    recent: RecentView,
    members: MemberView,
    cache: Map<Seq<char>, ChannelEmotesView>,
    fallback: u64,
) -> Option<ChatMessageView> {
    match line.prefix {
        None => None,
        Some(prefix) => {
            let display_name = nick_of(prefix);
            let username = letters::lowercase(display_name);
            let body = body_of(line);
            let content = match action_in(body) {
                Some(told) => told,
                None => body,
            };
            let id = id_of(line, fallback);
            let reply_info = reply_of(line.tags, recent);
            Some(
                ChatMessageView {
                    id,
                    user_id: tag_or_empty(line.tags, "user-id"@),
                    username,
                    display_name,
                    color: if tag_or_empty(line.tags, "color"@).len() > 0 {
                        Some(line.tags["color"@])
                    } else {
                        None
                    },
                    badges: members.badges(username),
                    timestamp: tag_or_empty(line.tags, "time"@),
                    content,
                    provider: "itzon"@,
                    channel: channel_key,
                    tags: message_tags(line.tags, display_name, id),
                    has_reply: reply_info is Some,
                    is_first_message: false,
                    segments: emotes::segments(cache, slug_of(channel_key), content),
                    is_action: action_in(body) is Some,
                    reply_info,
                },
            )
        },
    }
}

/// What is remembered of a message.
pub open spec fn memory_of(message: ChatMessageView) -> RecentMessageView {
    RecentMessageView {
        display_name: message.display_name,
        body: message.content,
        user_id: message.user_id,
        username: message.username,
    }
}

pub fn normalize_privmsg(
    line: &IrcLine,
    channel_key: &str,
    recent: &mut RecentMessages,
    members: &MemberState,
    cache: &EmoteCache,
    fallback: &mut u64,
) -> (r: Option<ChatMessage>)
    ensures
        match r {
            Some(message) => {
                &&& normalized(line@, channel_key@, old(recent)@, members@, cache@, *old(fallback))
                    == Some(message@)
                &&& final(recent)@ == old(recent)@.with(message@.id, memory_of(message@))
                &&& *final(fallback) == next_fallback(line@, *old(fallback))
            },
            None => {
                &&& line@.prefix is None
                &&& final(recent)@ == old(recent)@
                &&& *final(fallback) == *old(fallback)
            },
        },
{
    let prefix: &str = match &line.prefix {
        Some(prefix) => prefix.as_str(),
        None => {
            return None;
        },
    };
    let display_name = nick_in(prefix).to_string();
    let username = letters::to_lowercase(display_name.as_str());
    let body = privmsg_body(line);
    let told: Option<&str> = read_action(body.as_str());
    let is_action = told.is_some();
    let content: String = match told {
        Some(text) => text.to_string(),
        None => body.clone(),
    };
    let own_id = tag_text(&line.tags, "msgid");
    let id: String = if own_id.as_str().is_empty() {
        let mut made = "itzon-".to_string();
        made.append(letters::to_decimal(*fallback).as_str());
        *fallback = fallback.wrapping_add(1);
        made
    } else {
        own_id
    };
    let user_id = tag_text(&line.tags, "user-id");
    let timestamp = tag_text(&line.tags, "time");
    let told_color = tag_text(&line.tags, "color");
    let color: Option<String> = if told_color.as_str().is_empty() {
        None
    } else {
        Some(told_color)
    };
    let tags = build_tags(&line.tags, display_name.as_str(), id.as_str());
    let badges = members.badges_for(username.as_str());
    let reply_info = read_reply(&line.tags, recent);
    let has_reply = reply_info.is_some();
    let slug: &str = match text::strip_prefix(channel_key, "itzon:") {
        Some(slug) => slug,
        None => channel_key,
    };
    let segments = emotes::parse_segments(cache, slug, content.as_str());
    let message = ChatMessage {
        id: id.clone(),
        user_id: user_id.clone(),
        username: username.clone(),
        display_name: display_name.clone(),
        color,
        badges,
        timestamp,
        content: content.clone(),
        provider: "itzon".to_string(),
        channel: channel_key.to_string(),
        tags,
        layout: LayoutResult { has_reply, is_first_message: false },
        segments,
        metadata: MessageMetadata { is_action, reply_info },
    };
    recent.insert(id, RecentMessage { display_name, body: content, user_id, username });
    Some(message)
}

/// The text of the JSON object whose members are texts.
pub uninterp spec fn json_object_text(members: Seq<(Seq<char>, Seq<char>)>) -> Seq<char>;

/// `serde_json::Value::to_string` on an object made of the members, each value a string. The text
/// is named: it is fixed by the names and the values. How `serde_json` escapes and orders them is
/// not stated.
#[verifier::external_body]
fn write_json_object(members: &Vec<(String, String)>) -> (r: String)
    ensures
        r@ == json_object_text(urls::pairs_view(members@)),
{
    let object: serde_json::Map<String, serde_json::Value> = members
        .iter()
        .map(|pair| (pair.0.clone(), serde_json::Value::String(pair.1.clone())))
        .collect();
    serde_json::Value::Object(object).to_string()
}

/// The message that a line takes back, where it does so in the channel.
pub open spec fn redacted_id(line: IrcLineView, wanted_channel: Seq<char>) -> Option<Seq<char>> {
    if param(line, 0) != Some(wanted_channel) {
        None
    } else {
        match param(line, 1) {
            Some(id) => Some(id),
            None => line.trailing,
        }
    }
}

/// The members of the frame that tells of a message taken back.
pub open spec fn redaction_members(
    channel_key: Seq<char>,
    id: Seq<char>,
) -> Seq<(Seq<char>, Seq<char>)> {
    seq![
        ("type"@, "CLEARMSG"@),
        ("provider"@, "itzon"@),
        ("channel"@, channel_key),
        ("target_msg_id"@, id),
    ]
}

/// The members of the frame that tells of a message taken back, where a line takes one back.
pub fn redaction(line: &IrcLine, wanted_channel: &str, channel_key: &str) -> (r: Option<
    Vec<(String, String)>,
>)
    ensures
        match r {
            Some(members) => redacted_id(line@, wanted_channel@) matches Some(id)
                && urls::pairs_view(members@) == redaction_members(channel_key@, id),
            None => redacted_id(line@, wanted_channel@) is None,
        },
{
    let here = match param_at(line, 0) {
        Some(channel) => text::same_text(channel, wanted_channel),
        None => false,
    };
    if !here {
        return None;
    }
    let id: String = match param_at(line, 1) {
        Some(id) => id.to_string(),
        None => match &line.trailing {
            Some(id) => id.clone(),
            None => {
                return None;
            },
        },
    };
    let ghost target = id@;
    let members: Vec<(String, String)> = vec![
        ("type".to_string(), "CLEARMSG".to_string()),
        ("provider".to_string(), "itzon".to_string()),
        ("channel".to_string(), channel_key.to_string()),
        ("target_msg_id".to_string(), id),
    ];
    assert(urls::pairs_view(members@) =~= redaction_members(channel_key@, target));
    Some(members)
}

pub fn normalize_redaction(line: &IrcLine, wanted_channel: &str, channel_key: &str) -> (r: Option<
    String,
>)
    ensures
        match r {
            Some(frame) => redacted_id(line@, wanted_channel@) matches Some(id) && frame@
                == json_object_text(redaction_members(channel_key@, id)),
            None => redacted_id(line@, wanted_channel@) is None,
        },
{
    match redaction(line, wanted_channel, channel_key) {
        Some(members) => Some(write_json_object(&members)),
        None => None,
    }
}

/// A reply to a message that was brought by a line just before tells who wrote that and what.
pub proof fn a_reply_finds_its_parent(
    parent: IrcLineView,
    reply: IrcLineView,
    channel_key: Seq<char>,
    recent: RecentView,
    members: MemberView,
    cache: Map<Seq<char>, ChannelEmotesView>,
    fallback: u64,
)
    requires
        recent.valid(),
        parent.prefix is Some,
        reply.prefix is Some,
        reply.tags.contains_key("+reply"@),
        reply.tags["+reply"@] == id_of(parent, fallback),
        id_of(parent, fallback).len() > 0,
    ensures
        ({
            let first = normalized(parent, channel_key, recent, members, cache, fallback)->0;
            let kept = recent.with(first.id, memory_of(first));
            let second = normalized(
                reply,
                channel_key,
                kept,
                members,
                cache,
                next_fallback(parent, fallback),
            )->0;
            &&& second.has_reply
            &&& second.reply_info == Some(
                ReplyInfoView {
                    parent_msg_id: first.id,
                    parent_display_name: first.display_name,
                    parent_msg_body: first.content,
                    parent_user_id: first.user_id,
                    parent_user_login: first.username,
                },
            )
        }),
{
    let first = normalized(parent, channel_key, recent, members, cache, fallback)->0;
    crate::recent::a_message_is_remembered(recent, first.id, memory_of(first));
}

/// Messages without an id of their own get different ids, as long as their numbers differ.
pub proof fn made_ids_differ(a: IrcLineView, b: IrcLineView, one: u64, other: u64)
    requires
        !has_id(a),
        !has_id(b),
        one != other,
    ensures
        id_of(a, one) != id_of(b, other),
{
    if id_of(a, one) == id_of(b, other) {
        let start = "itzon-"@.len() as int;
        assert(id_of(a, one).skip(start) =~= letters::decimal(one as nat));
        assert(id_of(b, other).skip(start) =~= letters::decimal(other as nat));
        letters::lemma_decimal_injective(one as nat, other as nat);
    }
}

/// A message shows the emotes of the channel that it came in for: each word of it that is the name
/// of one, in its place, and nothing else.
pub proof fn a_message_shows_the_emotes_of_its_channel(
    line: IrcLineView,
    slug: Seq<char>,
    recent: RecentView,
    members: MemberView,
    cache: Map<Seq<char>, ChannelEmotesView>,
    fallback: u64,
    a: int,
    b: int,
)
    requires
        line.prefix is Some,
    ensures
        normalized(line, "itzon:"@ + slug, recent, members, cache, fallback) matches Some(message)
            && {
            let name = letters::lowercase(slug);
            let word = message.content.subrange(a, b);
            &&& emotes::contents(message.segments) == message.content
            &&& text::is_word_at(message.content, a, b) && cache.contains_key(name)
                && cache[name].map.contains_key(word) ==> exists|k: int|
                #[trigger] emotes::shows_at(
                    message.segments,
                    k,
                    message.content.take(a),
                    word,
                    cache[name].map[word],
                )
            &&& forall|k: int|
                0 <= k < message.segments.len() && (#[trigger] message.segments[k]) is Emote
                    ==> cache.contains_key(name) && cache[name].map.contains_key(
                    message.segments[k].content(),
                ) && emotes::shows_at(
                    message.segments,
                    k,
                    emotes::contents(message.segments.take(k)),
                    message.segments[k].content(),
                    cache[name].map[message.segments[k].content()],
                )
        },
{
    let key = "itzon:"@ + slug;
    let message = normalized(line, key, recent, members, cache, fallback)->0;
    let name = letters::lowercase(slug);
    assert("itzon:"@.is_prefix_of(key));
    assert(key.skip("itzon:"@.len() as int) =~= slug);
    emotes::segments_preserve_text(cache, slug, message.content);
    if text::is_word_at(message.content, a, b) && cache.contains_key(name)
        && cache[name].map.contains_key(message.content.subrange(a, b)) {
        emotes::each_named_word_is_shown(cache, slug, message.content, a, b);
    }
    assert forall|k: int|
        0 <= k < message.segments.len() && (#[trigger] message.segments[k]) is Emote implies cache.contains_key(
        name,
    ) && cache[name].map.contains_key(message.segments[k].content()) && emotes::shows_at(
        message.segments,
        k,
        emotes::contents(message.segments.take(k)),
        message.segments[k].content(),
        cache[name].map[message.segments[k].content()],
    ) by {
        emotes::only_named_words_are_shown(cache, slug, message.content, k);
    }
}

/// A message tells who wrote it, when and in which channel: the name in front of the first `!` of
/// the prefix, and what the tags of the line say.
pub proof fn a_message_tells_its_writer(
    line: IrcLineView,
    nick: Seq<char>,
    host: Seq<char>,
    channel_key: Seq<char>,
    recent: RecentView,
    members: MemberView,
    cache: Map<Seq<char>, ChannelEmotesView>,
    fallback: u64,
)
    requires
        !nick.contains('!'),
        line.prefix == Some(nick) || line.prefix == Some(nick + seq!['!'] + host),
    ensures
        normalized(line, channel_key, recent, members, cache, fallback) matches Some(message) && {
            let tags = line.tags;
            &&& message.display_name == nick
            &&& message.username == letters::lowercase(nick)
            &&& message.channel == channel_key
            &&& message.provider == "itzon"@
            &&& message.badges == members.badges(letters::lowercase(nick))
            &&& !message.is_first_message
            &&& tags.contains_key("user-id"@) ==> message.user_id == tags["user-id"@]
            &&& !tags.contains_key("user-id"@) ==> message.user_id.len() == 0
            &&& tags.contains_key("time"@) ==> message.timestamp == tags["time"@]
            &&& !tags.contains_key("time"@) ==> message.timestamp.len() == 0
            &&& tags.contains_key("color"@) && tags["color"@].len() > 0 ==> message.color == Some(
                tags["color"@],
            )
            &&& !(tags.contains_key("color"@) && tags["color"@].len() > 0) ==> message.color is None
        },
{
    let prefix = line.prefix->0;
    assert forall|i: int| 0 <= i < nick.len() implies !CharClass::Only('!').has(
        #[trigger] prefix[i],
    ) by {
        assert(nick.contains(nick[i]));
    }
    text::lemma_first_index_unique(prefix, CharClass::Only('!'), nick.len() as int);
    assert(prefix.take(nick.len() as int) =~= nick);
}

/// The text of a message is what stands behind the colon of the line, or else the word behind the
/// channel. What is marked as an action loses its marks, and all other text stays as it is.
pub proof fn a_message_keeps_its_text(
    line: IrcLineView,
    told: Seq<char>,
    deed: Seq<char>,
    channel_key: Seq<char>,
    recent: RecentView,
    members: MemberView,
    cache: Map<Seq<char>, ChannelEmotesView>,
    fallback: u64,
)
    requires
        line.prefix is Some,
        line.trailing == Some(told) || (line.trailing is None && line.params.len() > 1
            && line.params[1] == told) || (line.trailing is None && line.params.len() <= 1
            && told.len() == 0),
    ensures
        normalized(line, channel_key, recent, members, cache, fallback) matches Some(message) && {
            &&& told == seq!['\u{1}', 'A', 'C', 'T', 'I', 'O', 'N', ' '] + deed + seq!['\u{1}']
                ==> message.is_action && message.content == deed
            &&& message.is_action ==> told == seq!['\u{1}', 'A', 'C', 'T', 'I', 'O', 'N', ' ']
                + message.content + seq!['\u{1}']
            &&& !message.is_action ==> message.content == told
            &&& memory_of(message).body == message.content
            &&& memory_of(message).display_name == message.display_name
            &&& memory_of(message).username == message.username
            &&& memory_of(message).user_id == message.user_id
        },
{
    let start = "\u{1}ACTION "@;
    reveal_strlit("\u{1}ACTION ");
    assert(start =~= seq!['\u{1}', 'A', 'C', 'T', 'I', 'O', 'N', ' ']);
    let marked = start + deed + seq!['\u{1}'];
    assert(body_of(line) =~= told);
    assert(start.is_prefix_of(marked));
    assert(marked.subrange(8, marked.len() - 1) =~= deed);
    match action_in(told) {
        Some(inner) => {
            assert(told.subrange(0, 8) =~= start);
            assert(told[7] == ' ');
            assert(told.len() > 8);
            assert(told =~= start + inner + seq!['\u{1}']);
        },
        None => {},
    }
}

/// A message has the id that the line brings, and else one of its own with the number that is next.
pub proof fn a_message_has_an_id(line: IrcLineView, fallback: u64)
    ensures
        line.tags.contains_key("msgid"@) && line.tags["msgid"@].len() > 0 ==> id_of(line, fallback)
            == line.tags["msgid"@] && next_fallback(line, fallback) == fallback,
        !(line.tags.contains_key("msgid"@) && line.tags["msgid"@].len() > 0) ==> {
            &&& id_of(line, fallback) == "itzon-"@ + letters::decimal(fallback as nat)
            &&& next_fallback(line, fallback) != fallback
            &&& fallback < u64::MAX ==> next_fallback(line, fallback) == fallback + 1
        },
{
}

/// The tags of a message are those of the line, but for the name, the id and the avatar. The avatar
/// is the address of the picture of the user, where the line tells a user by number and one of
/// three kinds of pictures.
pub proof fn a_message_keeps_its_tags(
    tags: Map<Seq<char>, Seq<char>>,
    display_name: Seq<char>,
    id: Seq<char>,
    name: Seq<char>,
)
    ensures
        ({
            let kept = message_tags(tags, display_name, id);
            let user = tags["user-id"@];
            let picture = tags["avatar"@];
            let shown = tags.contains_key("user-id"@) && user.len() > 0 && (forall|i: int|
                0 <= i < user.len() ==> '0' <= #[trigger] user[i] <= '9') && tags.contains_key(
                "avatar"@,
            ) && (picture == "jpg"@ || picture == "png"@ || picture == "gif"@);
            &&& kept.contains_key("display-name"@) && kept["display-name"@] == display_name
            &&& kept.contains_key("id"@) && kept["id"@] == id
            &&& name != "display-name"@ && name != "id"@ && name != "avatar"@ ==> (
            kept.contains_key(name) == tags.contains_key(name) && kept[name] == tags[name])
            &&& kept.contains_key("avatar"@) == tags.contains_key("avatar"@)
            &&& shown ==> kept["avatar"@] == "https://itzon.tv/api/live/avatar/"@ + user + "."@
                + picture
            &&& !shown ==> kept["avatar"@] == picture
        }),
{
    reveal_strlit("display-name");
    reveal_strlit("id");
    reveal_strlit("avatar");
    assert("display-name"@.len() == 12 && "id"@.len() == 2 && "avatar"@.len() == 6);
    let user = tags["user-id"@];
    if tags.contains_key("user-id"@) && user.len() > 0 {
        if is_user_number(user) {
            assert forall|i: int| 0 <= i < user.len() implies '0' <= #[trigger] user[i] <= '9' by {
                assert(letters::is_ascii_digit(user[i]));
            }
        }
    }
}

/// A reply names the message that it answers, also where that is not remembered; and a message that
/// names none is no reply.
pub proof fn a_reply_names_its_parent(
    line: IrcLineView,
    channel_key: Seq<char>,
    recent: RecentView,
    members: MemberView,
    cache: Map<Seq<char>, ChannelEmotesView>,
    fallback: u64,
)
    requires
        line.prefix is Some,
    ensures
        normalized(line, channel_key, recent, members, cache, fallback) matches Some(message) && {
            let answers = line.tags.contains_key("+reply"@) && line.tags["+reply"@].len() > 0;
            &&& message.has_reply == answers
            &&& message.reply_info is Some == answers
            &&& answers ==> (message.reply_info matches Some(info) && {
                let parent = line.tags["+reply"@];
                &&& info.parent_msg_id == parent
                &&& recent.by_id.contains_key(parent) ==> info.parent_msg_body
                    == recent.by_id[parent].body && info.parent_display_name
                    == recent.by_id[parent].display_name && info.parent_user_id
                    == recent.by_id[parent].user_id && info.parent_user_login
                    == recent.by_id[parent].username
                &&& !recent.by_id.contains_key(parent) ==> info.parent_msg_body.len() == 0
                    && info.parent_display_name.len() == 0 && info.parent_user_id.len() == 0
                    && info.parent_user_login.len() == 0
            })
        },
{
}

/// A line takes back the message that it names, in the channel that it names and in no other, and
/// the frame tells just that.
pub proof fn a_redaction_names_its_message(
    line: IrcLineView,
    wanted_channel: Seq<char>,
    channel_key: Seq<char>,
    id: Seq<char>,
)
    ensures
        line.params.len() > 1 && line.params[0] == wanted_channel ==> redacted_id(
            line,
            wanted_channel,
        ) == Some(line.params[1]),
        line.params.len() == 1 && line.params[0] == wanted_channel ==> redacted_id(
            line,
            wanted_channel,
        ) == line.trailing,
        line.params.len() == 0 || line.params[0] != wanted_channel ==> redacted_id(
            line,
            wanted_channel,
        ) is None,
        ({
            let members = redaction_members(channel_key, id);
            &&& members.len() == 4
            &&& members.contains(("type"@, "CLEARMSG"@))
            &&& members.contains(("provider"@, "itzon"@))
            &&& members.contains(("channel"@, channel_key))
            &&& members.contains(("target_msg_id"@, id))
        }),
{
    let members = redaction_members(channel_key, id);
    assert(members[0] == ("type"@, "CLEARMSG"@));
    assert(members[1] == ("provider"@, "itzon"@));
    assert(members[2] == ("channel"@, channel_key));
    assert(members[3] == ("target_msg_id"@, id));
}

} // verus!
