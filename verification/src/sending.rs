//! Sending: whether a message may go out, how it is written, and what becomes of it.
use crate::error::ItzonError;
use crate::irc;
use crate::irc::IrcLineView;
use crate::letters;
use crate::text;
use crate::text::CharClass;
use std::collections::VecDeque;
use vstd::prelude::*;
use vstd::string::*;
use vstd::utf8::*;

verus! {

/// The channel is not joined yet.
pub const SEND_CONNECTING: u8 = 0;

/// Messages may be sent.
pub const SEND_READY: u8 = 1;

/// The mail address of the account is not verified.
pub const SEND_UNVERIFIED: u8 = 2;

/// The account is banned from the channel.
pub const SEND_BANNED: u8 = 3;

/// The longest delay between two attempts to connect, in seconds.
pub const MAX_BACKOFF_SECS: u64 = 15;

/// The most characters that a message may have.
pub const MAX_MESSAGE_CHARS: usize = 400;

/// How long the echo of a message is waited for, in milliseconds.
pub const ECHO_MILLIS: u64 = 10_000;

/// What became of a message.
#[derive(Debug)]
pub struct SendOutcome {
    pub message_id: Option<String>,
    pub is_sent: bool,
    pub drop_reason: Option<String>,
}

pub struct OutcomeView {
    pub message_id: Option<Seq<char>>,
    pub is_sent: bool,
    pub drop_reason: Option<Seq<char>>,
}

impl View for SendOutcome {
    type V = OutcomeView;

    open spec fn view(&self) -> OutcomeView {
        OutcomeView {
            message_id: self.message_id.deep_view(),
            is_sent: self.is_sent,
            drop_reason: self.drop_reason.deep_view(),
        }
    }
}

/// A message that was not sent, for the reason.
pub open spec fn dropped(reason: Seq<char>) -> OutcomeView {
    OutcomeView { message_id: None, is_sent: false, drop_reason: Some(reason) }
}

/// A message that was sent, with the id that it was given.
pub open spec fn confirmed(message_id: Option<Seq<char>>) -> OutcomeView {
    OutcomeView { message_id, is_sent: true, drop_reason: None }
}

pub fn drop_message(reason: &str) -> (r: SendOutcome)
    ensures
        r@ == dropped(reason@),
{
    SendOutcome { message_id: None, is_sent: false, drop_reason: Some(reason.to_string()) }
}

pub open spec fn state_reason(state: u8) -> Seq<char> {
    if state == SEND_UNVERIFIED {
        "Verify your itzon email before sending"@
    } else if state == SEND_BANNED {
        "You are banned from this itzon channel"@
    } else {
        "itzon chat is reconnecting"@
    }
}

pub fn send_state_reason(state: u8) -> (r: &'static str)
    ensures
        r@ == state_reason(state),
{
    if state == SEND_UNVERIFIED {
        "Verify your itzon email before sending"
    } else if state == SEND_BANNED {
        "You are banned from this itzon channel"
    } else {
        "itzon chat is reconnecting"
    }
}

/// The names that the service gives to those without an account.
pub open spec fn is_guest(nick: Seq<char>) -> bool {
    "guest_"@.is_prefix_of(letters::ascii_lowercase(nick))
}

/// Whether messages may be sent: the channel is joined under the name of an account whose mail
/// address is verified, and which is not banned.
pub open spec fn send_state_of(
    joined: bool,
    nick: Seq<char>,
    has_auth: bool,
    verified: Option<bool>,
    banned: bool,
) -> u8 {
    if banned {
        SEND_BANNED
    } else if joined && verified == Some(false) {
        SEND_UNVERIFIED
    } else if joined && has_auth && verified == Some(true) && !is_guest(nick) {
        SEND_READY
    } else {
        SEND_CONNECTING
    }
}

pub fn update_send_state(
    send_state: &mut u8,
    joined: bool,
    confirmed_nick: &str,
    has_auth: bool,
    verified: Option<bool>,
    banned: bool,
)
    ensures
        *final(send_state) == send_state_of(joined, confirmed_nick@, has_auth, verified, banned),
{
    let refused = match verified {
        Some(known) => !known,
        None => false,
    };
    let accepted = match verified {
        Some(known) => known,
        None => false,
    };
    *send_state = if banned {
        SEND_BANNED
    } else if joined && refused {
        SEND_UNVERIFIED
    } else if joined && has_auth && accepted && !text::starts_with(
        letters::to_ascii_lowercase(confirmed_nick).as_str(),
        "guest_",
    ) {
        SEND_READY
    } else {
        SEND_CONNECTING
    };
}

/// The characters that the id of a message may not hold, since they would end or split a tag.
pub open spec fn breaks_tag(c: char) -> bool {
    letters::is_control(c) || c == ' ' || c == ';' || c == '=' || c == '\\'
}

/// The ids that a reply may name.
pub open spec fn is_reply_id(id: Seq<char>) -> bool {
    &&& 0 < id.len()
    &&& encode_utf8(id).len() <= 256
    &&& forall|i: int| 0 <= i < id.len() ==> !breaks_tag(#[trigger] id[i])
}

pub fn valid_reply_id(reply_to: &str) -> (r: bool)
    ensures
        r == is_reply_id(reply_to@),
{
    let bytes = reply_to.as_bytes();
    if reply_to.is_empty() || bytes.len() > 256 {
        return false;
    }
    let chars = text::chars_of(reply_to);
    let mut i: usize = 0;
    while i < chars.len()
        invariant
            chars@ == reply_to@,
            i <= chars.len(),
            forall|k: int| 0 <= k < i ==> !breaks_tag(#[trigger] reply_to@[k]),
        decreases chars.len() - i,
    {
        let c = chars[i];
        if letters::control(c) || c == ' ' || c == ';' || c == '=' || c == '\\' {
            assert(breaks_tag(reply_to@[i as int]));
            return false;
        }
        i = i + 1;
    }
    true
}

pub open spec fn is_slug_char(c: char) -> bool {
    letters::is_ascii_alphanumeric(c) || c == '_' || c == '-'
}

/// The names that channels have.
pub open spec fn is_slug(slug: Seq<char>) -> bool {
    &&& slug.len() > 0
    &&& forall|i: int| 0 <= i < slug.len() ==> is_slug_char(#[trigger] slug[i])
}

pub fn all_slug_chars(slug: &str) -> (r: bool)
    ensures
        r == (forall|i: int| 0 <= i < slug@.len() ==> is_slug_char(#[trigger] slug@[i])),
{
    let chars = text::chars_of(slug);
    let mut i: usize = 0;
    while i < chars.len()
        invariant
            chars@ == slug@,
            i <= chars.len(),
            forall|k: int| 0 <= k < i ==> is_slug_char(#[trigger] slug@[k]),
        decreases chars.len() - i,
    {
        let c = chars[i];
        if !(letters::ascii_alphanumeric(c) || c == '_' || c == '-') {
            assert(!is_slug_char(slug@[i as int]));
            return false;
        }
        i = i + 1;
    }
    true
}

/// The name of a channel without the number signs in front of it, in lower case.
pub open spec fn channel_slug(channel: Seq<char>) -> Seq<char> {
    letters::lowercase(text::trimmed_start(text::trimmed(channel), CharClass::Only('#')))
}

pub fn normalize_channel(channel: &str) -> (r: Result<String, ItzonError>)
    ensures
        match r {
            Ok(slug) => {
                &&& slug@ == channel_slug(channel@)
                &&& is_slug(slug@)
                &&& forall|i: int| 0 <= i < slug@.len() ==> !letters::is_ascii_upper(
                    #[trigger] slug@[i],
                )
                &&& channel_slug(slug@) == slug@
            },
            Err(error) => !is_slug(channel_slug(channel@)) && error is InvalidChannel,
        },
{
    let slug = letters::to_lowercase(text::trim_start(text::trim(channel), &CharClass::Only('#')));
    if slug.as_str().is_empty() || !all_slug_chars(slug.as_str()) {
        return Err(ItzonError::InvalidChannel);
    }
    proof {
        lemma_slug_fixed(slug@);
    }
    Ok(slug)
}

/// A name of a channel in lower case is its own normal form.
pub proof fn lemma_slug_fixed(slug: Seq<char>)
    requires
        is_slug(slug),
        forall|i: int| 0 <= i < slug.len() ==> !letters::is_ascii_upper(#[trigger] slug[i]),
    ensures
        channel_slug(slug) == slug,
        letters::lowercase(slug) == slug,
        text::trimmed(slug) == slug,
{
    assert(is_slug_char(slug[0]) && is_slug_char(slug.last()));
    text::lemma_trimmed_fixed(slug);
    assert(is_ascii_chars(slug)) by {
        assert forall|i: int| 0 <= i < slug.len() implies '\0' <= #[trigger] slug[i] <= '\u{7f}' by {
            assert(is_slug_char(slug[i]));
        }
    }
    letters::lemma_lowercase_fixed(slug);
}

/// The key of a channel among those of all services.
pub open spec fn channel_key(slug: Seq<char>) -> Seq<char> {
    "itzon:"@ + slug
}

pub fn make_key(slug: &str) -> (r: String)
    ensures
        r@ == channel_key(slug@),
{
    let mut key = "itzon:".to_string();
    key.append(slug);
    key
}

/// The key of a channel leads back to it: channels with different names have different keys.
pub proof fn keys_tell_channels_apart(slug: Seq<char>)
    ensures
        crate::messages::slug_of(channel_key(slug)) == slug,
{
    assert("itzon:"@.is_prefix_of(channel_key(slug)));
    assert(channel_key(slug).skip("itzon:"@.len() as int) =~= slug);
}

pub open spec fn doubled(current: u64) -> u64 {
    if 2 * current < MAX_BACKOFF_SECS {
        (2 * current) as u64
    } else {
        MAX_BACKOFF_SECS
    }
}

pub fn next_backoff(current: u64) -> (r: u64)
    ensures
        r == doubled(current),
{
    if current < 8 {
        current * 2
    } else {
        MAX_BACKOFF_SECS
    }
}

/// The delay after some failures in a row, the first of them after a delay of `current`.
pub open spec fn delay_after(current: u64, failures: nat) -> u64
    decreases failures,
{
    if failures == 0 {
        current
    } else {
        doubled(delay_after(current, (failures - 1) as nat))
    }
}

/// However often connecting fails, the delay does not shrink, is never above the longest one, and
/// reaches it after four failures.
pub proof fn backoff_is_bounded(failures: nat)
    ensures
        1 <= delay_after(1, failures) <= MAX_BACKOFF_SECS,
        delay_after(1, failures) <= delay_after(1, failures + 1),
        failures >= 4 ==> delay_after(1, failures) == MAX_BACKOFF_SECS,
    decreases failures,
{
    reveal_with_fuel(delay_after, 6);
    if failures > 0 {
        backoff_is_bounded((failures - 1) as nat);
    }
}

/// How long to wait after an attempt, and the delay to start from next time.
pub open spec fn waits(backoff: u64, clean_disconnect: bool) -> (u64, u64) {
    if clean_disconnect {
        (1, 1)
    } else {
        (backoff, doubled(backoff))
    }
}

/// After an attempt that waited or would wait `backoff` seconds: how long to wait now, and the
/// delay to start from next time. A connection that ended cleanly starts over.
pub fn retry_after(backoff: u64, clean_disconnect: bool) -> (r: (u64, u64))
    ensures
        clean_disconnect ==> r == (1u64, 1u64),
        !clean_disconnect ==> r == (backoff, doubled(backoff)),
        r == waits(backoff, clean_disconnect),
{
    if clean_disconnect {
        (1, 1)
    } else {
        (backoff, next_backoff(backoff))
    }
}

/// A message on its way out.
#[derive(Debug)]
pub struct Outgoing {
    pub text: String,
    pub reply_to: Option<String>,
}

pub struct OutgoingView {
    pub text: Seq<char>,
    pub reply_to: Option<Seq<char>>,
}

impl View for Outgoing {
    type V = OutgoingView;

    open spec fn view(&self) -> OutgoingView {
        OutgoingView { text: self.text@, reply_to: self.reply_to.deep_view() }
    }
}

/// The text of a message as it goes out: on one line, without white space around it.
pub open spec fn outgoing_text(text: Seq<char>) -> Seq<char> {
    text::trimmed(text::replaced(text, CharClass::LineBreak, ' '))
}

/// Why a message cannot go out, where it cannot.
pub open spec fn refusal(text: Seq<char>, reply_to: Option<Seq<char>>) -> Option<Seq<char>> {
    if outgoing_text(text).len() == 0 {
        Some("Message is empty"@)
    } else if outgoing_text(text).len() > MAX_MESSAGE_CHARS {
        Some("itzon messages are limited to 400 characters"@)
    } else {
        match reply_to {
            Some(id) => if is_reply_id(id) {
                None
            } else {
                Some("Invalid itzon reply target"@)
            },
            None => None,
        }
    }
}

/// The messages that go out: one line of at most so many characters, without white space around
/// it, and no id in the reply that could break the tag.
pub open spec fn is_sendable(message: OutgoingView) -> bool {
    &&& 0 < message.text.len() <= MAX_MESSAGE_CHARS
    &&& forall|i: int| 0 <= i < message.text.len() ==> !CharClass::LineBreak.has(message.text[i])
    &&& !text::is_white_space(message.text[0])
    &&& !text::is_white_space(message.text.last())
    &&& message.reply_to matches Some(id) ==> is_reply_id(id)
}

proof fn lemma_trimmed_part(s: Seq<char>)
    ensures
        forall|i: int|
            0 <= i < text::trimmed(s).len() ==> s.contains(#[trigger] text::trimmed(s)[i]),
{
    let start = text::trimmed_start(s, CharClass::WhiteSpace);
    text::lemma_trimmed_start_first(s, CharClass::WhiteSpace);
    text::lemma_trimmed_end_last(start, CharClass::WhiteSpace);
    assert forall|i: int| 0 <= i < text::trimmed(s).len() implies s.contains(
        #[trigger] text::trimmed(s)[i],
    ) by {
        assert(start[i] == text::trimmed(s)[i]);
        assert(s[s.len() - start.len() + i] == start[i]);
    }
}

proof fn lemma_outgoing_text(text: Seq<char>)
    ensures
        forall|i: int|
            0 <= i < outgoing_text(text).len() ==> !CharClass::LineBreak.has(
                #[trigger] outgoing_text(text)[i],
            ),
        outgoing_text(text).len() > 0 ==> !text::is_white_space(outgoing_text(text)[0])
            && !text::is_white_space(outgoing_text(text).last()),
{
    let flat = text::replaced(text, CharClass::LineBreak, ' ');
    lemma_trimmed_part(flat);
    text::lemma_trimmed_idempotent(flat);
    assert forall|i: int| 0 <= i < outgoing_text(text).len() implies !CharClass::LineBreak.has(
        #[trigger] outgoing_text(text)[i],
    ) by {
        let c = outgoing_text(text)[i];
        assert(flat.contains(c));
        let k = choose|k: int| 0 <= k < flat.len() && flat[k] == c;
        assert(flat[k] == c);
    }
}

/// The channel and the message to be sent to it; or what becomes of a message that cannot go out.
pub fn prepare_send(channel: &str, text: &str, reply_to: Option<&str>) -> (r: Result<
    Result<(String, Outgoing), SendOutcome>,
    ItzonError,
>)
    ensures
        match r {
            Ok(Ok((slug, message))) => {
                &&& slug@ == channel_slug(channel@)
                &&& is_slug(slug@)
                &&& message@.text == outgoing_text(text@)
                &&& message@.reply_to == reply_to.deep_view()
                &&& refusal(text@, reply_to.deep_view()) is None
                &&& is_sendable(message@)
            },
            Ok(Err(outcome)) => {
                &&& is_slug(channel_slug(channel@))
                &&& refusal(text@, reply_to.deep_view()) matches Some(reason) && outcome@
                    == dropped(reason)
            },
            Err(error) => !is_slug(channel_slug(channel@)) && error is InvalidChannel,
        },
{
    let slug = match normalize_channel(channel) {
        Ok(slug) => slug,
        Err(error) => {
            return Err(error);
        },
    };
    let flat = text::replace(text, &CharClass::LineBreak, ' ');
    let line = text::trim(flat.as_str());
    proof {
        lemma_outgoing_text(text@);
    }
    if line.is_empty() {
        return Ok(Err(drop_message("Message is empty")));
    }
    if line.unicode_len() > MAX_MESSAGE_CHARS {
        return Ok(Err(drop_message("itzon messages are limited to 400 characters")));
    }
    let reply: Option<String> = match reply_to {
        Some(id) => {
            if !valid_reply_id(id) {
                return Ok(Err(drop_message("Invalid itzon reply target")));
            }
            Some(id.to_string())
        },
        None => None,
    };
    Ok(Ok((slug, Outgoing { text: line.to_string(), reply_to: reply })))
}

/// Why a message that is ready to go out is held back, where it is: no account is signed in, or the
/// channel is not connected, or not ready.
pub open spec fn hindrance(signed_in: bool, state: Option<u8>) -> Option<Seq<char>> {
    if !signed_in {
        Some("Connect your itzon account to send"@)
    } else {
        match state {
            None => Some("itzon chat is not connected"@),
            Some(state) => if state == SEND_READY {
                None
            } else {
                Some(state_reason(state))
            },
        }
    }
}

/// Lets a message through, or says what becomes of it. The state is that of the connection to the
/// channel, if there is one.
pub fn admit_send(signed_in: bool, state: Option<u8>) -> (r: Option<SendOutcome>)
    ensures
        match r {
            Some(outcome) => hindrance(signed_in, state) matches Some(reason) && outcome@
                == dropped(reason),
            None => hindrance(signed_in, state) is None,
        },
{
    if !signed_in {
        return Some(drop_message("Connect your itzon account to send"));
    }
    match state {
        None => Some(drop_message("itzon chat is not connected")),
        Some(state) => if state == SEND_READY {
            None
        } else {
            Some(drop_message(send_state_reason(state)))
        },
    }
}

/// What came of handing a message to the connection.
#[derive(Debug)]
pub enum SendReply {
    /// The connection said what became of it.
    Told(SendOutcome),
    /// The connection takes no more messages.
    Refused,
    /// The connection ended first.
    Lost,
    /// Nothing was said in time.
    Late,
}

pub open spec fn outcome_of(reply: SendReply) -> OutcomeView {
    match reply {
        SendReply::Told(outcome) => outcome@,
        SendReply::Refused => dropped("itzon chat is reconnecting"@),
        SendReply::Lost => dropped("itzon connection reset before the send was confirmed"@),
        SendReply::Late => dropped("itzon did not confirm the message in time"@),
    }
}

/// What becomes of a message that was handed to the connection.
pub fn conclude_send(reply: SendReply) -> (r: SendOutcome)
    ensures
        r@ == outcome_of(reply),
{
    match reply {
        SendReply::Told(outcome) => outcome,
        SendReply::Refused => drop_message("itzon chat is reconnecting"),
        SendReply::Lost => drop_message("itzon connection reset before the send was confirmed"),
        SendReply::Late => drop_message("itzon did not confirm the message in time"),
    }
}

/// Whether a composer can send to a channel.
#[derive(Clone, Copy, Debug, PartialEq, Eq, Structural)]
pub enum SendCapability {
    NeedsLogin,
    ReadOnly,
    Sendable,
}

/// What a composer can do in a channel.
pub open spec fn capability_of(
    signed_in: bool,
    channel: Seq<char>,
    state: Option<u8>,
) -> SendCapability {
    if !signed_in {
        SendCapability::NeedsLogin
    } else if is_slug(channel_slug(channel)) && state == Some(SEND_READY) {
        SendCapability::Sendable
    } else {
        SendCapability::ReadOnly
    }
}

/// What a composer can do in the channel. The state is that of the connection to the channel, if
/// there is one.
pub fn send_capability(signed_in: bool, channel: &str, state: Option<u8>) -> (r: SendCapability)
    ensures
        r == (if !signed_in {
            SendCapability::NeedsLogin
        } else if is_slug(channel_slug(channel@)) && state == Some(SEND_READY) {
            SendCapability::Sendable
        } else {
            SendCapability::ReadOnly
        }),
        r == capability_of(signed_in, channel@, state),
{
    if !signed_in {
        return SendCapability::NeedsLogin;
    }
    match normalize_channel(channel) {
        Ok(_) => match state {
            Some(state) => if state == SEND_READY {
                SendCapability::Sendable
            } else {
                SendCapability::ReadOnly
            },
            None => SendCapability::ReadOnly,
        },
        Err(_) => SendCapability::ReadOnly,
    }
}

/// A message that was sent and whose echo is waited for. The ticket tells it apart from others.
#[derive(Debug)]
pub struct PendingSend {
    pub text: String,
    pub reply_to: Option<String>,
    pub ticket: u64,
    /// Milliseconds of a clock that never goes back.
    pub deadline: u64,
}

pub struct PendingView {
    pub text: Seq<char>,
    pub reply_to: Option<Seq<char>>,
    pub ticket: u64,
    pub deadline: u64,
}

impl View for PendingSend {
    type V = PendingView;

    open spec fn view(&self) -> PendingView {
        PendingView {
            text: self.text@,
            reply_to: self.reply_to.deep_view(),
            ticket: self.ticket,
            deadline: self.deadline,
        }
    }
}

pub open spec fn pending_view(pending: Seq<PendingSend>) -> Seq<PendingView> {
    Seq::new(pending.len(), |i: int| pending[i]@)
}

/// Whether the text and the reply of an echo are those of the message.
pub open spec fn echoes(
    item: PendingView,
    body: Seq<char>,
    reply_to: Option<Seq<char>>,
) -> bool {
    item.text == body && item.reply_to == reply_to
}

/// The place of the oldest message with the text and the reply of an echo.
pub open spec fn echo_index(
    pending: Seq<PendingView>,
    body: Seq<char>,
    reply_to: Option<Seq<char>>,
) -> Option<int>
    decreases pending.len(),
{
    if pending.len() == 0 {
        None
    } else if echoes(pending[0], body, reply_to) {
        Some(0)
    } else {
        match echo_index(pending.drop_first(), body, reply_to) {
            Some(i) => Some(i + 1),
            None => None,
        }
    }
}

pub proof fn lemma_echo_index(
    pending: Seq<PendingView>,
    body: Seq<char>,
    reply_to: Option<Seq<char>>,
)
    ensures
        match echo_index(pending, body, reply_to) {
            Some(i) => 0 <= i < pending.len() && echoes(pending[i], body, reply_to) && forall|k: int|
                0 <= k < i ==> !echoes(#[trigger] pending[k], body, reply_to),
            None => forall|k: int|
                0 <= k < pending.len() ==> !echoes(#[trigger] pending[k], body, reply_to),
        },
    decreases pending.len(),
{
    if pending.len() > 0 && !echoes(pending[0], body, reply_to) {
        let rest = pending.drop_first();
        lemma_echo_index(rest, body, reply_to);
        assert forall|k: int|
            0 < k < pending.len() && (match echo_index(rest, body, reply_to) {
                Some(i) => k - 1 < i,
                None => true,
            }) implies !echoes(#[trigger] pending[k], body, reply_to) by {
            assert(rest[k - 1] == pending[k]);
        }
    }
}

/// Whether two texts that may be missing are the same.
pub fn same_option(a: &Option<String>, b: Option<&str>) -> (r: bool)
    ensures
        r == (a.deep_view() == b.deep_view()),
{
    match (a, b) {
        (Some(one), Some(other)) => text::same_text(one.as_str(), other),
        (None, None) => true,
        _ => false,
    }
}

pub fn pending_echo_index(
    pending: &VecDeque<PendingSend>,
    body: &str,
    reply_to: Option<&str>,
) -> (r: Option<usize>)
    ensures
        match r {
            Some(i) => echo_index(pending_view(pending@), body@, reply_to.deep_view()) == Some(
                i as int,
            ) && i < pending@.len(),
            None => echo_index(pending_view(pending@), body@, reply_to.deep_view()) is None,
        },
{
    let ghost all = pending_view(pending@);
    let mut i: usize = 0;
    assert(all.skip(0) =~= all);
    while i < pending.len()
        invariant
            all == pending_view(pending@),
            i <= pending@.len(),
            echo_index(all, body@, reply_to.deep_view()) == (match echo_index(
                all.skip(i as int),
                body@,
                reply_to.deep_view(),
            ) {
                Some(k) => Some(k + i),
                None => None,
            }),
        decreases pending@.len() - i,
    {
        let item = &pending[i];
        assert(all.skip(i as int)[0] == item@);
        assert(all.skip(i as int).drop_first() =~= all.skip(i + 1));
        if text::same_text(item.text.as_str(), body) && same_option(&item.reply_to, reply_to) {
            return Some(i);
        }
        i = i + 1;
    }
    None
}

/// A message as a line: the reply in a tag, then the command with the channel and the text.
pub open spec fn message_line(wanted_channel: Seq<char>, message: OutgoingView) -> Seq<char> {
    let tag = match message.reply_to {
        Some(id) => "@+reply="@ + id + " "@,
        None => seq![],
    };
    tag + "PRIVMSG "@ + wanted_channel + " :"@ + message.text + "\r\n"@
}

pub fn write_message(wanted_channel: &str, message: &Outgoing) -> (r: String)
    ensures
        r@ == message_line(wanted_channel@, message@),
{
    let mut line = String::new();
    assert(line@ =~= seq![]);
    match &message.reply_to {
        Some(id) => {
            line.append("@+reply=");
            line.append(id.as_str());
            line.append(" ");
            assert(line@ =~= "@+reply="@ + id@ + " "@);
        },
        None => {},
    }
    line.append("PRIVMSG ");
    line.append(wanted_channel);
    line.append(" :");
    line.append(message.text.as_str());
    line.append("\r\n");
    line
}

/// A message as a line without the tag and the line break.
spec fn bare_line(wanted_channel: Seq<char>, text: Seq<char>) -> Seq<char> {
    "PRIVMSG "@ + wanted_channel + " :"@ + text
}

/// The tags of a line that names the message it answers.
pub open spec fn reply_tags(reply_to: Option<Seq<char>>) -> Map<Seq<char>, Seq<char>> {
    match reply_to {
        Some(id) => Map::empty().insert("+reply"@, id),
        None => Map::empty(),
    }
}

proof fn lemma_slug_plain(slug: Seq<char>, i: int)
    requires
        is_slug(slug),
        0 <= i < slug.len(),
    ensures
        !text::is_white_space(slug[i]),
        slug[i] != ':',
{
    assert(is_slug_char(slug[i]));
}

proof fn lemma_command_words(slug: Seq<char>)
    requires
        is_slug(slug),
    ensures
        text::words("PRIVMSG "@ + ("#"@ + slug)) == seq!["PRIVMSG"@, "#"@ + slug],
        letters::uppercase("PRIVMSG"@) == "PRIVMSG"@,
{
    reveal_strlit("PRIVMSG ");
    reveal_strlit("PRIVMSG");
    reveal_strlit("#");
    let wanted = "#"@ + slug;
    let head = "PRIVMSG "@ + wanted;
    let space = CharClass::WhiteSpace;
    assert forall|i: int| 0 <= i < wanted.len() implies !space.has(#[trigger] wanted[i]) by {
        if i > 0 {
            lemma_slug_plain(slug, i - 1);
        }
    }
    text::lemma_trimmed_start(head, space, 0);
    assert(head.skip(0) =~= head);
    text::lemma_first_index_unique(head, space, 7);
    assert(head.take(7) =~= "PRIVMSG"@);
    let rest = head.skip(7);
    assert(rest.skip(1) =~= wanted);
    text::lemma_trimmed_start(rest, space, 1);
    text::lemma_first_index_unique(wanted, space, wanted.len() as int);
    assert(wanted.take(wanted.len() as int) =~= wanted);
    let end = wanted.skip(wanted.len() as int);
    assert(end =~= seq![]);
    assert(text::words(end) =~= seq![]);
    assert(text::words(rest) =~= seq![wanted]);
    assert(text::words(head) =~= seq!["PRIVMSG"@, wanted]);
    assert(is_ascii_chars("PRIVMSG"@));
    assert(letters::ascii_uppercase("PRIVMSG"@) =~= "PRIVMSG"@);
}

proof fn lemma_bare_line_reads_back(slug: Seq<char>, message: Seq<char>)
    requires
        is_slug(slug),
    ensures
        irc::read_body(bare_line("#"@ + slug, message)) == Some(
            ("PRIVMSG"@, seq!["#"@ + slug], Some(message)),
        ),
{
    reveal_strlit("PRIVMSG ");
    reveal_strlit("#");
    reveal_strlit(" :");
    let wanted = "#"@ + slug;
    let line = bare_line(wanted, message);
    let mark = " :"@;
    let at = 8 + wanted.len() as int;
    assert(mark.is_prefix_of(line.skip(at))) by {
        assert(line.skip(at).subrange(0, 2) =~= mark);
    }
    assert forall|k: int| 0 <= k < at implies !mark.is_prefix_of(#[trigger] line.skip(k)) by {
        if mark.is_prefix_of(line.skip(k)) {
            assert(line.skip(k)[0] == mark[0]);
            assert(line.skip(k)[1] == mark[1]);
            assert(line[k] == ' ' && line[k + 1] == ':');
            if k > 8 {
                lemma_slug_plain(slug, k - 9);
            }
        }
    }
    text::lemma_position_of(line, mark);
    match text::position_of(line, mark) {
        Some(i) => {
            assert(!(i < at));
            assert(!(at < i));
        },
        None => {},
    }
    assert(line.take(at) =~= "PRIVMSG "@ + wanted);
    assert(line.skip(at + 2) =~= message);
    lemma_command_words(slug);
    assert(seq!["PRIVMSG"@, wanted].drop_first() =~= seq![wanted]);
}

proof fn lemma_reply_tag_reads_back(id: Seq<char>, rest: Seq<char>)
    requires
        is_reply_id(id),
        rest.len() > 0,
        !text::is_white_space(rest[0]),
    ensures
        irc::read_tags("@+reply="@ + id + " "@ + rest) == Some(
            (Map::<Seq<char>, Seq<char>>::empty().insert("+reply"@, id), rest),
        ),
{
    reveal_strlit("@+reply=");
    reveal_strlit("+reply");
    reveal_strlit(" ");
    let line = "@+reply="@ + id + " "@ + rest;
    let inner = line.drop_first();
    let at = 7 + id.len() as int;
    assert forall|i: int| 0 <= i < at implies !CharClass::Only(' ').has(#[trigger] inner[i]) by {
        if i >= 7 {
            assert(inner[i] == id[i - 7]);
            assert(!breaks_tag(id[i - 7]));
        }
    }
    text::lemma_first_index_unique(inner, CharClass::Only(' '), at);
    let raw = inner.take(at);
    assert(inner.skip(at + 1) =~= rest);
    text::lemma_trimmed_start(rest, CharClass::WhiteSpace, 0);
    assert(rest.skip(0) =~= rest);
    assert forall|i: int| 0 <= i < raw.len() implies !CharClass::Only(';').has(#[trigger] raw[i]) by {
        if i >= 7 {
            assert(raw[i] == id[i - 7]);
            assert(!breaks_tag(id[i - 7]));
        }
    }
    text::lemma_first_index_unique(raw, CharClass::Only(';'), raw.len() as int);
    assert(text::pieces(raw, CharClass::Only(';')) =~= seq![raw]);
    assert(seq![raw].drop_last() =~= seq![]);
    text::lemma_first_index_unique(raw, CharClass::Only('='), 6);
    assert(raw.take(6) =~= "+reply"@);
    assert(raw.skip(7) =~= id);
    assert(!id.contains('\\')) by {
        if id.contains('\\') {
            let i = choose|i: int| 0 <= i < id.len() && id[i] == '\\';
            assert(!breaks_tag(id[i]));
        }
    }
    irc::lemma_unescaped_plain(id);
    reveal_with_fuel(irc::tag_map, 2);
}

/// A message that goes out is read back as it was meant: one line, with the channel, the text and
/// the reply, and nothing else.
pub proof fn sent_messages_read_back(slug: Seq<char>, message: OutgoingView)
    requires
        is_slug(slug),
        is_sendable(message),
    ensures
        irc::parsed(message_line("#"@ + slug, message)) == Some(
            IrcLineView {
                tags: reply_tags(message.reply_to),
                prefix: None,
                command: "PRIVMSG"@,
                params: seq!["#"@ + slug],
                trailing: Some(message.text),
            },
        ),
{
    reveal_strlit("\r\n");
    reveal_strlit("PRIVMSG ");
    let wanted = "#"@ + slug;
    let bare = bare_line(wanted, message.text);
    let line = message_line(wanted, message);
    let n = line.len() as int;
    assert(line[n - 3] == message.text.last());
    text::lemma_trimmed_end(line, CharClass::WhiteSpace, n - 2);
    lemma_bare_line_reads_back(slug, message.text);
    assert(bare[0] == 'P');
    match message.reply_to {
        Some(id) => {
            assert(line.take(n - 2) =~= "@+reply="@ + id + " "@ + bare);
            lemma_reply_tag_reads_back(id, bare);
        },
        None => {
            assert(line.take(n - 2) =~= bare);
        },
    }
}

/// A message that goes out is one line: it has no line break but the one at its end.
pub proof fn sent_messages_are_one_line(slug: Seq<char>, message: OutgoingView)
    requires
        is_slug(slug),
        is_sendable(message),
    ensures
        ({
            let line = message_line("#"@ + slug, message);
            &&& line.len() >= 2
            &&& line.skip(line.len() - 2) == "\r\n"@
            &&& forall|i: int|
                0 <= i < line.len() - 2 ==> !CharClass::LineBreak.has(#[trigger] line[i])
        }),
{
    reveal_strlit("\r\n");
    reveal_strlit("PRIVMSG ");
    reveal_strlit("#");
    reveal_strlit(" :");
    reveal_strlit(" ");
    reveal_strlit("@+reply=");
    let line = message_line("#"@ + slug, message);
    assert(line.skip(line.len() - 2) =~= "\r\n"@);
    let tag = match message.reply_to {
        Some(id) => "@+reply="@ + id + " "@,
        None => seq![],
    };
    let bare = bare_line("#"@ + slug, message.text);
    assert(line =~= tag + bare + "\r\n"@);
    assert forall|i: int| 0 <= i < line.len() - 2 implies !CharClass::LineBreak.has(
        #[trigger] line[i],
    ) by {
        if i < tag.len() {
            assert(line[i] == tag[i]);
            let id = message.reply_to->0;
            if 8 <= i < 8 + id.len() {
                assert(tag[i] == id[i - 8]);
                assert(!breaks_tag(id[i - 8]));
            }
        } else {
            let k = i - tag.len();
            assert(line[i] == bare[k]);
            let head = 9 + slug.len();
            if 9 <= k < head {
                assert(bare[k] == slug[k - 9]);
                lemma_slug_plain(slug, k - 9);
            } else if k >= head + 2 {
                assert(bare[k] == message.text[k - head - 2]);
            }
        }
    }
}

/// Messages may be sent in a channel just where it is joined, under the name of an account that is
/// signed in and verified, and which is not banned; and else the state says what is missing.
pub proof fn sending_is_open_to_members(
    joined: bool,
    nick: Seq<char>,
    has_auth: bool,
    verified: Option<bool>,
    banned: bool,
)
    ensures
        ({
            let state = send_state_of(joined, nick, has_auth, verified, banned);
            let guest = seq!['g', 'u', 'e', 's', 't', '_'].is_prefix_of(
                letters::ascii_lowercase(nick),
            );
            &&& state == SEND_READY <==> joined && has_auth && verified == Some(true) && !banned
                && !guest
            &&& state == SEND_BANNED <==> banned
            &&& state == SEND_UNVERIFIED <==> !banned && joined && verified == Some(false)
            &&& SEND_READY != SEND_BANNED && SEND_READY != SEND_UNVERIFIED && SEND_READY
                != SEND_CONNECTING && SEND_BANNED != SEND_UNVERIFIED
        }),
{
    reveal_strlit("guest_");
    assert("guest_"@ =~= seq!['g', 'u', 'e', 's', 't', '_']);
}

/// The id that a reply names has up to 256 bytes, none of them one that could end or split a tag.
pub proof fn a_reply_id_fits_a_tag(id: Seq<char>)
    ensures
        is_reply_id(id) <==> {
            &&& id.len() > 0
            &&& encode_utf8(id).len() <= 256
            &&& forall|i: int| 0 <= i < id.len() ==> fits_a_tag(#[trigger] id[i])
        },
{
    if is_reply_id(id) {
        assert forall|i: int| 0 <= i < id.len() implies fits_a_tag(#[trigger] id[i]) by {
            lemma_fits_a_tag(id[i]);
        }
    }
    if forall|i: int| 0 <= i < id.len() ==> fits_a_tag(#[trigger] id[i]) {
        assert forall|i: int| 0 <= i < id.len() implies !breaks_tag(#[trigger] id[i]) by {
            lemma_fits_a_tag(id[i]);
        }
    }
}

/// Whether a character can stand in a tag: it is no control character, no blank, and none of those
/// that end, split or escape a tag.
pub open spec fn fits_a_tag(c: char) -> bool {
    c > ' ' && !('\u{7f}' <= c <= '\u{9f}') && c != ';' && c != '=' && c != '\\'
}

proof fn lemma_fits_a_tag(c: char)
    ensures
        fits_a_tag(c) <==> !breaks_tag(c),
{
}

/// A message goes out just where it has something to say on one line of up to 400 characters, and
/// answers a message that can be named, if any; and else the reason is told.
pub proof fn a_message_goes_out_or_is_refused(text: Seq<char>, reply_to: Option<Seq<char>>)
    ensures
        ({
            let line = text::trimmed(
                text.map_values(
                    |c: char|
                        if c == '\r' || c == '\n' {
                            ' '
                        } else {
                            c
                        },
                ),
            );
            &&& outgoing_text(text) == line
            &&& refusal(text, reply_to) is None <==> 1 <= line.len() <= 400 && (reply_to is Some
                ==> is_reply_id(reply_to->0))
            &&& line.len() == 0 ==> refusal(text, reply_to) == Some("Message is empty"@)
            &&& line.len() > 400 ==> refusal(text, reply_to) == Some(
                "itzon messages are limited to 400 characters"@,
            )
            &&& 1 <= line.len() <= 400 && reply_to is Some && !is_reply_id(reply_to->0) ==> refusal(
                text,
                reply_to,
            ) == Some("Invalid itzon reply target"@)
        }),
{
    assert(text::replaced(text, CharClass::LineBreak, ' ') =~= text.map_values(
        |c: char|
            if c == '\r' || c == '\n' {
                ' '
            } else {
                c
            },
    ));
}

/// A message is let through just where the account is signed in and the channel is ready, and else
/// the reason is told.
pub proof fn a_message_is_let_through_or_held(signed_in: bool, state: Option<u8>)
    ensures
        hindrance(signed_in, state) is None <==> signed_in && state == Some(SEND_READY),
        !signed_in ==> hindrance(signed_in, state) == Some("Connect your itzon account to send"@),
        signed_in && state is None ==> hindrance(signed_in, state) == Some(
            "itzon chat is not connected"@,
        ),
        signed_in && state == Some(SEND_UNVERIFIED) ==> hindrance(signed_in, state) == Some(
            "Verify your itzon email before sending"@,
        ),
        signed_in && state == Some(SEND_BANNED) ==> hindrance(signed_in, state) == Some(
            "You are banned from this itzon channel"@,
        ),
        signed_in && state == Some(SEND_CONNECTING) ==> hindrance(signed_in, state) == Some(
            "itzon chat is reconnecting"@,
        ),
{
}

/// What became of a message is told as sent only where the connection said so.
pub proof fn only_the_connection_confirms(reply: SendReply)
    ensures
        outcome_of(reply).is_sent ==> reply is Told,
        reply matches SendReply::Told(outcome) ==> outcome_of(reply) == outcome@,
        !(reply is Told) ==> outcome_of(reply).drop_reason is Some && outcome_of(
            reply,
        ).message_id is None,
        dropped(seq![]).is_sent == false,
        confirmed(None).is_sent == true,
        forall|id: Seq<char>|
            (#[trigger] confirmed(Some(id))).message_id == Some(id) && confirmed(
                Some(id),
            ).drop_reason is None,
        forall|reason: Seq<char>|
            (#[trigger] dropped(reason)).drop_reason == Some(reason) && dropped(
                reason,
            ).message_id is None,
{
}

/// An echo is that of the oldest message with just its text and its reply.
pub proof fn an_echo_finds_its_message(
    pending: Seq<PendingView>,
    body: Seq<char>,
    reply_to: Option<Seq<char>>,
)
    ensures
        match echo_index(pending, body, reply_to) {
            Some(i) => 0 <= i < pending.len() && pending[i].text == body && pending[i].reply_to
                == reply_to && forall|k: int|
                0 <= k < i ==> (#[trigger] pending[k]).text != body || pending[k].reply_to
                    != reply_to,
            None => forall|k: int|
                0 <= k < pending.len() ==> (#[trigger] pending[k]).text != body
                    || pending[k].reply_to != reply_to,
        },
{
    lemma_echo_index(pending, body, reply_to);
    match echo_index(pending, body, reply_to) {
        Some(i) => {
            assert forall|k: int| 0 <= k < i implies (#[trigger] pending[k]).text != body
                || pending[k].reply_to != reply_to by {
                assert(!echoes(pending[k], body, reply_to));
            }
        },
        None => {
            assert forall|k: int| 0 <= k < pending.len() implies (#[trigger] pending[k]).text != body
                || pending[k].reply_to != reply_to by {
                assert(!echoes(pending[k], body, reply_to));
            }
        },
    }
}

/// The delay doubles with each failure up to a quarter of a minute.
pub proof fn delays_double(current: u64)
    ensures
        2 * current <= 15 ==> doubled(current) == 2 * current,
        2 * current > 15 ==> doubled(current) == 15,
        delay_after(current, 0) == current,
        delay_after(1, 1) == 2,
        delay_after(1, 2) == 4,
        delay_after(1, 3) == 8,
        delay_after(1, 4) == 15,
{
    reveal_with_fuel(delay_after, 6);
}

/// A channel is told by its name in whichever case, with or without number signs in front of it and
/// white space around it.
pub proof fn a_channel_is_told_by_its_name(
    before: Seq<char>,
    signs: Seq<char>,
    name: Seq<char>,
    after: Seq<char>,
)
    requires
        forall|i: int| 0 <= i < before.len() ==> text::is_white_space(#[trigger] before[i]),
        forall|i: int| 0 <= i < after.len() ==> text::is_white_space(#[trigger] after[i]),
        forall|i: int| 0 <= i < signs.len() ==> #[trigger] signs[i] == '#',
        name.len() > 0,
        forall|i: int|
            0 <= i < name.len() ==> ('a' <= #[trigger] name[i] <= 'z' || 'A' <= name[i] <= 'Z'
                || '0' <= name[i] <= '9' || name[i] == '_' || name[i] == '-'),
    ensures
        channel_slug(before + signs + name + after) == letters::ascii_lowercase(name),
        is_slug(name),
        is_slug(letters::ascii_lowercase(name)),
{
    let space = CharClass::WhiteSpace;
    let inner = signs + name;
    let whole = before + signs + name + after;
    let rest = inner + after;
    assert forall|i: int| 0 <= i < before.len() implies space.has(#[trigger] whole[i]) by {
        assert(whole[i] == before[i]);
    }
    assert(whole.skip(before.len() as int) =~= rest);
    assert(!space.has(whole[before.len() as int])) by {
        if signs.len() > 0 {
            assert(whole[before.len() as int] == signs[0]);
        } else {
            assert(whole[before.len() as int] == name[0]);
        }
    }
    text::lemma_trimmed_start(whole, space, before.len() as int);
    let n = inner.len() as int;
    assert forall|i: int| n <= i < rest.len() implies space.has(#[trigger] rest[i]) by {
        assert(rest[i] == after[i - n]);
    }
    assert(rest[n - 1] == name.last());
    assert(name.last() == name[name.len() - 1]);
    text::lemma_trimmed_end(rest, space, n);
    assert(rest.take(n) =~= inner);
    assert(text::trimmed(whole) == inner);
    let sign = CharClass::Only('#');
    assert forall|i: int| 0 <= i < signs.len() implies sign.has(#[trigger] inner[i]) by {
        assert(inner[i] == signs[i]);
    }
    assert(inner[signs.len() as int] == name[0]);
    text::lemma_trimmed_start(inner, sign, signs.len() as int);
    assert(inner.skip(signs.len() as int) =~= name);
    assert(is_ascii_chars(name)) by {
        assert forall|i: int| 0 <= i < name.len() implies '\0' <= #[trigger] name[i] <= '\u{7f}' by {
            assert('a' <= name[i] <= 'z' || 'A' <= name[i] <= 'Z' || '0' <= name[i] <= '9' || name[i]
                == '_' || name[i] == '-');
        }
    }
    let low = letters::ascii_lowercase(name);
    assert forall|i: int| 0 <= i < low.len() implies is_slug_char(#[trigger] low[i]) by {
        assert(low[i] == letters::lower_char(name[i]));
    }
}

/// No other character stands in the name of a channel.
pub proof fn names_of_channels_are_plain(slug: Seq<char>, i: int)
    requires
        is_slug(slug),
        0 <= i < slug.len(),
    ensures
        'a' <= slug[i] <= 'z' || 'A' <= slug[i] <= 'Z' || '0' <= slug[i] <= '9' || slug[i] == '_'
            || slug[i] == '-',
{
    assert(is_slug_char(slug[i]));
}

/// A composer can send just where the account is signed in and the channel has a proper name and is
/// ready; it asks for a sign-in just where there is none; and it agrees with what is let through.
pub proof fn composers_send_where_it_is_ready(
    signed_in: bool,
    channel: Seq<char>,
    state: Option<u8>,
)
    ensures
        capability_of(signed_in, channel, state) is NeedsLogin <==> !signed_in,
        capability_of(signed_in, channel, state) is Sendable <==> is_slug(channel_slug(channel))
            && hindrance(signed_in, state) is None,
{
}

/// A connection that ended cleanly is made again after a second; after a failure the wait is the one
/// that was due, and the next one is twice as long, up to the longest.
pub proof fn failures_wait_longer(backoff: u64)
    ensures
        waits(backoff, true) == (1u64, 1u64),
        waits(backoff, false).0 == backoff,
        2 * backoff <= 15 ==> waits(backoff, false).1 == 2 * backoff,
        2 * backoff > 15 ==> waits(backoff, false).1 == 15,
{
}

} // verus!
