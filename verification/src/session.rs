//! One connection to the chat of a channel: what is answered, sent and published.
use crate::auth::ChatAuth;
use crate::emotes::ChannelEmotesView;
use crate::emotes::EmoteCache;
use crate::error::ItzonError;
use crate::irc;
use crate::irc::IrcLine;
use crate::irc::IrcLineView;
use crate::letters;
use crate::members;
use crate::members::MemberState;
use crate::members::MemberView;
use crate::messages;
use crate::messages::ChatMessage;
use crate::messages::ChatMessageView;
use crate::recent::RecentMessages;
use crate::recent::RecentView;
use crate::sending;
use crate::sending::Outgoing;
use crate::sending::OutgoingView;
use crate::sending::OutcomeView;
use crate::sending::PendingSend;
use crate::sending::PendingView;
use crate::sending::SendOutcome;
use crate::sending::ECHO_MILLIS;
use crate::sending::SEND_CONNECTING;
use crate::sending::SEND_READY;
use crate::text;
use crate::text::CharClass;
use std::collections::VecDeque;
use vstd::multiset::Multiset;
use vstd::prelude::*;
use vstd::string::*;

verus! {

/// What is known of a connection.
pub struct ChatSession {
    pub channel_key: String,
    pub wanted_channel: String,
    pub has_auth: bool,
    /// The revision of the account that the connection was made for.
    pub auth_revision: u64,
    pub confirmed_nick: String,
    pub cap_replies: u8,
    pub cap_ended: bool,
    pub join_requested: bool,
    pub joined: bool,
    pub verified: Option<bool>,
    pub banned: bool,
    pub recent: RecentMessages,
    pub members: MemberState,
    pub pending: VecDeque<PendingSend>,
    pub send_state: u8,
}

#[verifier::ext_equal]
pub struct SessionView {
    pub channel_key: Seq<char>,
    pub wanted_channel: Seq<char>,
    pub has_auth: bool,
    pub auth_revision: u64,
    pub confirmed_nick: Seq<char>,
    pub cap_replies: u8,
    pub cap_ended: bool,
    pub join_requested: bool,
    pub joined: bool,
    pub verified: Option<bool>,
    pub banned: bool,
    pub recent: RecentView,
    pub members: MemberView,
    pub pending: Seq<PendingView>,
    pub send_state: u8,
}

impl View for ChatSession {
    type V = SessionView;

    open spec fn view(&self) -> SessionView {
        SessionView {
            channel_key: self.channel_key@,
            wanted_channel: self.wanted_channel@,
            has_auth: self.has_auth,
            auth_revision: self.auth_revision,
            confirmed_nick: self.confirmed_nick@,
            cap_replies: self.cap_replies,
            cap_ended: self.cap_ended,
            join_requested: self.join_requested,
            joined: self.joined,
            verified: self.verified,
            banned: self.banned,
            recent: self.recent@,
            members: self.members@,
            pending: sending::pending_view(self.pending@),
            send_state: self.send_state,
        }
    }
}

/// What happens to a connection.
#[derive(Debug)]
pub enum ChatEvent {
    /// Nothing was heard for a while.
    Heartbeat,
    /// The regular look at the clock and at the account.
    Maintenance { revision: u64, now: u64 },
    /// A message is to be sent. Whether the account is still there is told with it.
    Outgoing { message: Outgoing, ticket: u64, connected: bool, now: u64 },
    /// No more messages will be sent.
    OutgoingClosed,
    /// Text came in.
    Text(String),
    /// The other side asks whether this one is there.
    Ping(Vec<u8>),
    /// The other side ends the connection.
    Closed,
    /// Anything else came in.
    Other,
}

/// What is to be done.
#[derive(Debug)]
pub enum ChatAction {
    SendText(String),
    SendPing,
    SendPong(Vec<u8>),
    /// Tells the one who handed in the message with the ticket what became of it.
    Resolve { ticket: u64, outcome: SendOutcome },
    PublishMessage(ChatMessage),
    PublishFrame(String),
    /// The connection is over.
    Disconnect,
    /// The connection is over, for a reason.
    Fail(ItzonError),
}

pub enum ActionView {
    SendText(Seq<char>),
    SendPing,
    SendPong(Seq<u8>),
    Resolve { ticket: u64, outcome: OutcomeView },
    PublishMessage(ChatMessageView),
    PublishFrame(Seq<char>),
    Disconnect,
    Fail(Seq<char>),
}

impl View for ChatAction {
    type V = ActionView;

    open spec fn view(&self) -> ActionView {
        match self {
            ChatAction::SendText(line) => ActionView::SendText(line@),
            ChatAction::SendPing => ActionView::SendPing,
            ChatAction::SendPong(payload) => ActionView::SendPong(payload@),
            ChatAction::Resolve { ticket, outcome } => ActionView::Resolve {
                ticket: *ticket,
                outcome: outcome@,
            },
            ChatAction::PublishMessage(message) => ActionView::PublishMessage(message@),
            ChatAction::PublishFrame(frame) => ActionView::PublishFrame(frame@),
            ChatAction::Disconnect => ActionView::Disconnect,
            ChatAction::Fail(error) => ActionView::Fail(error.text()),
        }
    }
}

impl DeepView for ChatAction {
    type V = ActionView;

    open spec fn deep_view(&self) -> ActionView {
        self@
    }
}

impl SessionView {
    /// A connection that was just made.
    pub open spec fn opened(
        slug: Seq<char>,
        has_auth: bool,
        nick: Seq<char>,
        auth_revision: u64,
    ) -> SessionView {
        SessionView {
            channel_key: sending::channel_key(slug),
            wanted_channel: "#"@ + slug,
            has_auth,
            auth_revision,
            confirmed_nick: nick,
            cap_replies: 0,
            cap_ended: false,
            join_requested: false,
            joined: false,
            verified: None,
            banned: false,
            recent: RecentView::empty(),
            members: MemberView::empty(),
            pending: seq![],
            send_state: SEND_CONNECTING,
        }
    }

    /// With the state of sending that follows from the rest.
    pub open spec fn judged(self) -> SessionView {
        SessionView {
            send_state: sending::send_state_of(
                self.joined,
                self.confirmed_nick,
                self.has_auth,
                self.verified,
                self.banned,
            ),
            ..self
        }
    }

    /// Whether a name is that of the account.
    pub open spec fn is_self(self, nick: Seq<char>) -> bool {
        letters::ascii_lowercase(nick) == letters::ascii_lowercase(self.confirmed_nick)
    }

    /// After an entry of the list of names.
    pub open spec fn with_entry(self, entry: Seq<char>) -> SessionView {
        let told = SessionView { members: self.members.with_names_entry(entry), ..self };
        match members::entry_verification(entry, self.confirmed_nick) {
            Some(verified) => (SessionView { verified: Some(verified), ..told }).judged(),
            None => told,
        }
    }

    /// After several entries of the list of names.
    pub open spec fn with_entries(self, entries: Seq<Seq<char>>) -> SessionView
        decreases entries.len(),
    {
        if entries.len() == 0 {
            self
        } else {
            self.with_entries(entries.drop_last()).with_entry(entries.last())
        }
    }
}

/// A connection in the midst of an event: what is known of it, the number for the next message
/// without an id, and what is to be done so far.
#[verifier::ext_equal]
pub struct Turn {
    pub session: SessionView,
    pub fallback: u64,
    pub actions: Seq<ActionView>,
}

/// The token of a `PING`.
pub open spec fn ping_token(line: IrcLineView) -> Seq<char> {
    match line.trailing {
        Some(token) => token,
        None => match messages::param(line, 0) {
            Some(token) => token,
            None => seq![],
        },
    }
}

/// The channel of a `JOIN`.
pub open spec fn joined_channel(line: IrcLineView) -> Option<Seq<char>> {
    match messages::param(line, 0) {
        Some(channel) => Some(channel),
        None => line.trailing,
    }
}

/// Why the service did not take a message.
pub open spec fn rejection(line: IrcLineView) -> Seq<char> {
    match line.trailing {
        Some(reason) => reason,
        None => if line.params.len() > 0 {
            line.params.last()
        } else {
            "itzon rejected the message"@
        },
    }
}

/// Whether a parameter says yes.
pub open spec fn says_yes(line: IrcLineView, i: int) -> bool {
    messages::param(line, i) == Some("1"@)
}

pub open spec fn text_or_empty(value: Option<Seq<char>>) -> Seq<char> {
    match value {
        Some(text) => text,
        None => seq![],
    }
}

/// The value of a tag, if it is there.
pub open spec fn tag(tags: Map<Seq<char>, Seq<char>>, name: Seq<char>) -> Option<Seq<char>> {
    if tags.contains_key(name) {
        Some(tags[name])
    } else {
        None
    }
}

impl Turn {
    pub open spec fn start(session: SessionView, fallback: u64) -> Turn {
        Turn { session, fallback, actions: seq![] }
    }

    pub open spec fn also(self, action: ActionView) -> Turn {
        Turn { actions: self.actions.push(action), ..self }
    }

    pub open spec fn with(self, session: SessionView) -> Turn {
        Turn { session, ..self }
    }

    pub open spec fn on_ping(self, line: IrcLineView) -> Turn {
        self.also(ActionView::SendText("PONG :"@ + ping_token(line) + "\r\n"@))
    }

    /// The negotiation of capabilities ends with the second answer.
    pub open spec fn on_cap(self, line: IrcLineView) -> Turn {
        let s = self.session;
        let answered = line.params.contains("ACK"@) || line.params.contains("NAK"@);
        let replies: u8 = if answered && s.cap_replies < u8::MAX {
            (s.cap_replies + 1) as u8
        } else {
            s.cap_replies
        };
        if replies >= 2 && !s.cap_ended {
            self.with(SessionView { cap_replies: replies, cap_ended: true, ..s }).also(
                ActionView::SendText("CAP END\r\n"@),
            )
        } else {
            self.with(SessionView { cap_replies: replies, ..s })
        }
    }

    /// The welcome tells the name that the service knows the account by. Under a name other than
    /// the one before, the account has not joined the channel yet, and nothing is known of its
    /// verification; under the same name, the welcome leaves the state of sending as it is.
    pub open spec fn on_welcome(self, line: IrcLineView) -> Turn {
        let s = self.session;
        let join = ActionView::SendText("JOIN "@ + s.wanted_channel + "\r\n"@);
        match messages::param(line, 0) {
            Some(nick) => if s.is_self(nick) {
                self.with(SessionView { confirmed_nick: nick, join_requested: true, ..s }).also(join)
            } else {
                self.with(
                    (SessionView {
                        confirmed_nick: nick,
                        join_requested: true,
                        joined: false,
                        verified: None,
                        ..s
                    }).judged(),
                ).also(join)
            },
            None => self.with(SessionView { join_requested: true, ..s }).also(join),
        }
    }

    pub open spec fn on_join(self, line: IrcLineView) -> Turn {
        let joiner = messages::sender_of(line);
        let s = SessionView {
            members: self.session.members.with_tags(joiner, line.tags),
            ..self.session
        };
        if joined_channel(line) == Some(s.wanted_channel) && s.is_self(joiner) {
            self.with((SessionView { joined: true, ..s }).judged())
        } else {
            self.with(s)
        }
    }

    pub open spec fn on_names(self, line: IrcLineView) -> Turn {
        self.with(self.session.with_entries(text::words(text_or_empty(line.trailing))))
    }

    pub open spec fn on_verified(self, line: IrcLineView) -> Turn {
        let who = text_or_empty(messages::param(line, 1));
        let s = SessionView {
            members: self.session.members.with_verified(who, says_yes(line, 2)),
            ..self.session
        };
        if s.is_self(who) {
            self.with((SessionView { verified: Some(says_yes(line, 2)), ..s }).judged())
        } else {
            self.with(s)
        }
    }

    /// What is told of a member by tags, a badge or a partnership.
    pub open spec fn on_member(self, line: IrcLineView) -> Turn {
        let s = self.session;
        match messages::param(line, 1) {
            None => self,
            Some(who) => {
                let members = if line.command == "META"@ {
                    s.members.with_tags(who, line.tags)
                } else if line.command == "SUBBADGE"@ {
                    s.members.with_sub_badge(
                        who,
                        match messages::param(line, 2) {
                            Some(name) => name,
                            None => "regular"@,
                        },
                    )
                } else {
                    s.members.with_partner(who, says_yes(line, 2))
                };
                self.with(SessionView { members, ..s })
            },
        }
    }

    pub open spec fn on_ban(self) -> Turn {
        self.with((SessionView { banned: true, joined: false, ..self.session }).judged())
    }

    /// A message of the account itself confirms the oldest one that it echoes.
    pub open spec fn on_echo(self, line: IrcLineView) -> Turn {
        let s = self.session;
        let reply = tag(line.tags, "+reply"@);
        if s.is_self(messages::sender_of(line)) {
            match sending::echo_index(s.pending, messages::body_of(line), reply) {
                Some(i) => self.with(SessionView { pending: s.pending.remove(i), ..s }).also(
                    ActionView::Resolve {
                        ticket: s.pending[i].ticket,
                        outcome: sending::confirmed(tag(line.tags, "msgid"@)),
                    },
                ),
                None => self,
            }
        } else {
            self
        }
    }

    pub open spec fn on_publish(
        self,
        line: IrcLineView,
        cache: Map<Seq<char>, ChannelEmotesView>,
    ) -> Turn {
        let s = self.session;
        match messages::normalized(
            line,
            s.channel_key,
            s.recent,
            s.members,
            cache,
            self.fallback,
        ) {
            Some(message) => Turn {
                session: SessionView {
                    recent: s.recent.with(message.id, messages::memory_of(message)),
                    ..s
                },
                fallback: messages::next_fallback(line, self.fallback),
                actions: self.actions.push(ActionView::PublishMessage(message)),
            },
            None => self,
        }
    }

    pub open spec fn on_message(
        self,
        line: IrcLineView,
        cache: Map<Seq<char>, ChannelEmotesView>,
    ) -> Turn {
        let s = SessionView {
            members: self.session.members.with_tags(messages::sender_of(line), line.tags),
            ..self.session
        };
        self.with(s).on_echo(line).on_publish(line, cache)
    }

    /// A refusal is for the oldest message that waits for its echo.
    pub open spec fn on_refusal(self, line: IrcLineView) -> Turn {
        let s = self.session;
        if s.pending.len() == 0 {
            self
        } else {
            self.with(SessionView { pending: s.pending.drop_first(), ..s }).also(
                ActionView::Resolve {
                    ticket: s.pending[0].ticket,
                    outcome: sending::dropped(rejection(line)),
                },
            )
        }
    }

    pub open spec fn on_redact(self, line: IrcLineView) -> Turn {
        let s = self.session;
        match messages::redacted_id(line, s.wanted_channel) {
            Some(id) => self.also(
                ActionView::PublishFrame(
                    messages::json_object_text(messages::redaction_members(s.channel_key, id)),
                ),
            ),
            None => self,
        }
    }

    /// What a line does.
    pub open spec fn on_line(
        self,
        line: IrcLineView,
        cache: Map<Seq<char>, ChannelEmotesView>,
    ) -> Turn {
        let s = self.session;
        let command = line.command;
        let here = messages::param(line, 0) == Some(s.wanted_channel);
        if command == "PING"@ {
            self.on_ping(line)
        } else if command == "CAP"@ {
            self.on_cap(line)
        } else if command == "001"@ && !s.join_requested {
            self.on_welcome(line)
        } else if command == "JOIN"@ {
            self.on_join(line)
        } else if command == "353"@ && messages::param(line, 2) == Some(s.wanted_channel) {
            self.on_names(line)
        } else if command == "VERIFIED"@ && here {
            self.on_verified(line)
        } else if (command == "META"@ || command == "SUBBADGE"@ || command == "PARTNER"@) && here {
            self.on_member(line)
        } else if command == "474"@ {
            self.on_ban()
        } else if command == "PRIVMSG"@ && here {
            self.on_message(line, cache)
        } else if command == "NOTICE"@ || command == "404"@ {
            self.on_refusal(line)
        } else if command == "REDACT"@ {
            self.on_redact(line)
        } else {
            self
        }
    }

    /// What a raw line does: nothing, where it is none.
    pub open spec fn on_raw(
        self,
        raw: Seq<char>,
        cache: Map<Seq<char>, ChannelEmotesView>,
    ) -> Turn {
        if raw.len() == 0 {
            self
        } else {
            match irc::parsed(raw) {
                Some(line) => self.on_line(line, cache),
                None => self,
            }
        }
    }

    /// What several raw lines do, one after another.
    pub open spec fn on_lines(
        self,
        lines: Seq<Seq<char>>,
        cache: Map<Seq<char>, ChannelEmotesView>,
    ) -> Turn
        decreases lines.len(),
    {
        if lines.len() == 0 {
            self
        } else {
            self.on_lines(lines.drop_last(), cache).on_raw(lines.last(), cache)
        }
    }

    /// Gives up the messages whose time is over, from the oldest on.
    pub open spec fn expired(self, now: u64) -> Turn
        decreases self.session.pending.len(),
    {
        let s = self.session;
        if s.pending.len() > 0 && s.pending[0].deadline <= now {
            self.with(SessionView { pending: s.pending.drop_first(), ..s }).also(
                ActionView::Resolve {
                    ticket: s.pending[0].ticket,
                    outcome: sending::dropped("itzon did not echo the message in time"@),
                },
            ).expired(now)
        } else {
            self
        }
    }

    pub open spec fn on_maintenance(self, revision: u64, now: u64) -> Turn {
        let s = self.session;
        if revision != s.auth_revision {
            self.with(SessionView { send_state: SEND_CONNECTING, ..s }).also(
                ActionView::Fail(ItzonError::SessionChanged.text()),
            )
        } else {
            self.expired(now)
        }
    }

    pub open spec fn on_outgoing(
        self,
        message: OutgoingView,
        ticket: u64,
        connected: bool,
        now: u64,
    ) -> Turn {
        let s = self.session;
        match sending::hindrance(s.has_auth && connected, Some(s.send_state)) {
            Some(reason) => self.also(
                ActionView::Resolve { ticket, outcome: sending::dropped(reason) },
            ),
            None => {
                let waiting = PendingView {
                    text: message.text,
                    reply_to: message.reply_to,
                    ticket,
                    deadline: echo_deadline(now),
                };
                self.with(SessionView { pending: s.pending.push(waiting), ..s }).also(
                    ActionView::SendText(sending::message_line(s.wanted_channel, message)),
                )
            },
        }
    }

    /// What an event does.
    pub open spec fn on_event(
        self,
        event: ChatEvent,
        cache: Map<Seq<char>, ChannelEmotesView>,
    ) -> Turn {
        match event {
            ChatEvent::Heartbeat => self.also(ActionView::SendPing),
            ChatEvent::Maintenance { revision, now } => self.on_maintenance(revision, now),
            ChatEvent::Outgoing { message, ticket, connected, now } => self.on_outgoing(
                message@,
                ticket,
                connected,
                now,
            ),
            ChatEvent::OutgoingClosed => self.also(ActionView::Disconnect),
            ChatEvent::Text(text) => self.on_lines(
                text::pieces(text@, CharClass::LineBreak),
                cache,
            ),
            ChatEvent::Ping(payload) => self.also(ActionView::SendPong(payload@)),
            ChatEvent::Closed => self.also(ActionView::Disconnect),
            ChatEvent::Other => self,
        }
    }
}

/// When the echo of a message that is sent now is no longer waited for.
pub open spec fn echo_deadline(now: u64) -> u64 {
    if now + ECHO_MILLIS > u64::MAX {
        u64::MAX
    } else {
        (now + ECHO_MILLIS) as u64
    }
}

/// A connection in the midst of an event, from what is held.
pub open spec fn turn_of(session: ChatSession, fallback: u64, actions: Vec<ChatAction>) -> Turn {
    Turn { session: session@, fallback, actions: actions.deep_view() }
}

fn emit(actions: &mut Vec<ChatAction>, action: ChatAction)
    ensures
        final(actions).deep_view() == old(actions).deep_view().push(action@),
{
    let ghost before = actions.deep_view();
    let ghost told = action@;
    actions.push(action);
    assert(actions.deep_view() =~= before.push(told));
}

/// Whether a parameter is the text.
fn param_is(line: &IrcLine, i: usize, text: &str) -> (r: bool)
    ensures
        r == (messages::param(line@, i as int) == Some(text@)),
{
    match messages::param_at(line, i) {
        Some(found) => text::same_text(found, text),
        None => false,
    }
}

fn has_param(line: &IrcLine, text: &str) -> (r: bool)
    ensures
        r == line@.params.contains(text@),
{
    let mut i: usize = 0;
    while i < line.params.len()
        invariant
            i <= line.params.len(),
            forall|k: int| 0 <= k < i ==> line@.params[k] != text@,
        decreases line.params.len() - i,
    {
        assert(line@.params[i as int] == line.params@[i as int]@);
        if text::same_text(line.params[i].as_str(), text) {
            return true;
        }
        i = i + 1;
    }
    false
}

impl ChatSession {
    fn judge(&mut self)
        ensures
            final(self)@ == old(self)@.judged(),
    {
        sending::update_send_state(
            &mut self.send_state,
            self.joined,
            self.confirmed_nick.as_str(),
            self.has_auth,
            self.verified,
            self.banned,
        );
    }

    fn is_own(&self, nick: &str) -> (r: bool)
        ensures
            r == self@.is_self(nick@),
    {
        letters::eq_ignore_ascii_case(nick, self.confirmed_nick.as_str())
    }

    fn take_ping(&self, line: &IrcLine, actions: &mut Vec<ChatAction>)
        ensures
            forall|fallback: u64|
                turn_of(*self, fallback, *final(actions)) == #[trigger] turn_of(
                    *self,
                    fallback,
                    *old(actions),
                ).on_ping(line@),
    {
        let mut reply = "PONG :".to_string();
        match &line.trailing {
            Some(token) => {
                reply.append(token.as_str());
            },
            None => match messages::param_at(line, 0) {
                Some(token) => {
                    reply.append(token);
                },
                None => {
                    assert(reply@ =~= "PONG :"@ + Seq::<char>::empty());
                },
            },
        }
        reply.append("\r\n");
        emit(actions, ChatAction::SendText(reply));
    }

    fn take_cap(&mut self, line: &IrcLine, actions: &mut Vec<ChatAction>)
        ensures
            forall|fallback: u64|
                turn_of(*final(self), fallback, *final(actions)) == #[trigger] turn_of(
                    *old(self),
                    fallback,
                    *old(actions),
                ).on_cap(line@),
    {
        if has_param(line, "ACK") || has_param(line, "NAK") {
            self.cap_replies = self.cap_replies.saturating_add(1);
        }
        if self.cap_replies >= 2 && !self.cap_ended {
            emit(actions, ChatAction::SendText("CAP END\r\n".to_string()));
            self.cap_ended = true;
        }
    }

    fn take_welcome(&mut self, line: &IrcLine, actions: &mut Vec<ChatAction>)
        ensures
            forall|fallback: u64|
                turn_of(*final(self), fallback, *final(actions)) == #[trigger] turn_of(
                    *old(self),
                    fallback,
                    *old(actions),
                ).on_welcome(line@),
    {
        match messages::param_at(line, 0) {
            Some(nick) => {
                let known = self.is_own(nick);
                self.confirmed_nick = nick.to_string();
                if !known {
                    self.joined = false;
                    self.verified = None;
                    self.judge();
                }
            },
            None => {},
        }
        let mut join = "JOIN ".to_string();
        join.append(self.wanted_channel.as_str());
        join.append("\r\n");
        emit(actions, ChatAction::SendText(join));
        self.join_requested = true;
    }

    fn take_join(&mut self, line: &IrcLine)
        ensures
            forall|fallback: u64, actions: Vec<ChatAction>|
                turn_of(*final(self), fallback, actions) == #[trigger] turn_of(
                    *old(self),
                    fallback,
                    actions,
                ).on_join(line@),
    {
        let joiner = messages::sender_in(line);
        self.members.apply_tags(joiner.as_str(), line);
        let here = match messages::param_at(line, 0) {
            Some(channel) => text::same_text(channel, self.wanted_channel.as_str()),
            None => match &line.trailing {
                Some(channel) => text::same_text(channel.as_str(), self.wanted_channel.as_str()),
                None => false,
            },
        };
        if here && self.is_own(joiner.as_str()) {
            self.joined = true;
            self.judge();
        }
    }

    fn take_entry(&mut self, entry: &str)
        ensures
            final(self)@ == old(self)@.with_entry(entry@),
    {
        self.members.apply_names_entry(entry);
        match members::names_entry_verification(entry, self.confirmed_nick.as_str()) {
            Some(verified) => {
                self.verified = Some(verified);
                self.judge();
            },
            None => {},
        }
    }

    fn take_names(&mut self, line: &IrcLine)
        ensures
            forall|fallback: u64, actions: Vec<ChatAction>|
                turn_of(*final(self), fallback, actions) == #[trigger] turn_of(
                    *old(self),
                    fallback,
                    actions,
                ).on_names(line@),
    {
        let ghost start = self@;
        let listed: &str = match &line.trailing {
            Some(text) => text.as_str(),
            None => "",
        };
        proof {
            reveal_strlit("");
            assert(line@.trailing is None ==> listed@ =~= seq![]);
        }
        let entries = text::split_whitespace(listed);
        let ghost all = entries.deep_view();
        let mut i: usize = 0;
        assert(all.take(0) =~= seq![]);
        while i < entries.len()
            invariant
                all == entries.deep_view(),
                i <= entries.len(),
                self@ == start.with_entries(all.take(i as int)),
            decreases entries.len() - i,
        {
            assert(all.take(i + 1).drop_last() =~= all.take(i as int));
            assert(all.take(i + 1).last() == entries@[i as int]@);
            self.take_entry(entries[i]);
            i = i + 1;
        }
        assert(all.take(i as int) =~= all);
    }

    fn take_verified(&mut self, line: &IrcLine)
        ensures
            forall|fallback: u64, actions: Vec<ChatAction>|
                turn_of(*final(self), fallback, actions) == #[trigger] turn_of(
                    *old(self),
                    fallback,
                    actions,
                ).on_verified(line@),
    {
        let who: &str = match messages::param_at(line, 1) {
            Some(who) => who,
            None => "",
        };
        proof {
            reveal_strlit("");
            assert(messages::param(line@, 1) is None ==> who@ =~= seq![]);
        }
        let verified = param_is(line, 2, "1");
        self.members.set_verified(who, verified);
        if self.is_own(who) {
            self.verified = Some(verified);
            self.judge();
        }
    }

    fn take_member(&mut self, line: &IrcLine)
        ensures
            forall|fallback: u64, actions: Vec<ChatAction>|
                turn_of(*final(self), fallback, actions) == #[trigger] turn_of(
                    *old(self),
                    fallback,
                    actions,
                ).on_member(line@),
    {
        let who: &str = match messages::param_at(line, 1) {
            Some(who) => who,
            None => {
                return;
            },
        };
        let command = line.command.as_str();
        if text::same_text(command, "META") {
            self.members.apply_tags(who, line);
        } else if text::same_text(command, "SUBBADGE") {
            let name: &str = match messages::param_at(line, 2) {
                Some(name) => name,
                None => "regular",
            };
            self.members.set_sub_badge(who, name);
        } else {
            self.members.set_partner(who, param_is(line, 2, "1"));
        }
    }

    fn take_echo(&mut self, line: &IrcLine, actions: &mut Vec<ChatAction>)
        ensures
            forall|fallback: u64|
                turn_of(*final(self), fallback, *final(actions)) == #[trigger] turn_of(
                    *old(self),
                    fallback,
                    *old(actions),
                ).on_echo(line@),
    {
        let sender = messages::sender_in(line);
        if !self.is_own(sender.as_str()) {
            return;
        }
        let body = messages::privmsg_body(line);
        let reply: Option<&str> = match line.tags.get("+reply") {
            Some(id) => Some(id.as_str()),
            None => None,
        };
        assert(reply.deep_view() == tag(line@.tags, "+reply"@));
        match sending::pending_echo_index(&self.pending, body.as_str(), reply) {
            Some(index) => {
                let ghost before = sending::pending_view(self.pending@);
                match self.pending.remove(index) {
                    Some(sent) => {
                        assert(sending::pending_view(self.pending@) =~= before.remove(
                            index as int,
                        ));
                        let message_id: Option<String> = match line.tags.get("msgid") {
                            Some(id) => Some(id.clone()),
                            None => None,
                        };
                        emit(
                            actions,
                            ChatAction::Resolve {
                                ticket: sent.ticket,
                                outcome: SendOutcome { message_id, is_sent: true, drop_reason: None },
                            },
                        );
                    },
                    None => {},
                }
            },
            None => {},
        }
    }

    fn take_message(
        &mut self,
        line: &IrcLine,
        cache: &EmoteCache,
        fallback: &mut u64,
        actions: &mut Vec<ChatAction>,
    )
        ensures
            turn_of(*final(self), *final(fallback), *final(actions)) == turn_of(
                *old(self),
                *old(fallback),
                *old(actions),
            ).on_message(line@, cache@),
    {
        let ghost start = turn_of(*self, *fallback, *actions);
        let sender = messages::sender_in(line);
        self.members.apply_tags(sender.as_str(), line);
        let ghost told = turn_of(*self, *fallback, *actions);
        self.take_echo(line, actions);
        let ghost echoed = turn_of(*self, *fallback, *actions);
        assert(echoed == told.on_echo(line@));
        match messages::normalize_privmsg(
            line,
            self.channel_key.as_str(),
            &mut self.recent,
            &self.members,
            cache,
            fallback,
        ) {
            Some(message) => {
                emit(actions, ChatAction::PublishMessage(message));
            },
            None => {},
        }
    }

    fn take_refusal(&mut self, line: &IrcLine, actions: &mut Vec<ChatAction>)
        ensures
            forall|fallback: u64|
                turn_of(*final(self), fallback, *final(actions)) == #[trigger] turn_of(
                    *old(self),
                    fallback,
                    *old(actions),
                ).on_refusal(line@),
    {
        let ghost before = sending::pending_view(self.pending@);
        match self.pending.pop_front() {
            Some(failed) => {
                assert(sending::pending_view(self.pending@) =~= before.drop_first());
                let count = line.params.len();
                let reason: &str = match &line.trailing {
                    Some(reason) => reason.as_str(),
                    None => if count > 0 {
                        line.params[count - 1].as_str()
                    } else {
                        "itzon rejected the message"
                    },
                };
                emit(
                    actions,
                    ChatAction::Resolve {
                        ticket: failed.ticket,
                        outcome: sending::drop_message(reason),
                    },
                );
            },
            None => {},
        }
    }

    fn take_line(
        &mut self,
        line: &IrcLine,
        cache: &EmoteCache,
        fallback: &mut u64,
        actions: &mut Vec<ChatAction>,
    )
        ensures
            turn_of(*final(self), *final(fallback), *final(actions)) == turn_of(
                *old(self),
                *old(fallback),
                *old(actions),
            ).on_line(line@, cache@),
    {
        let ghost start = turn_of(*self, *fallback, *actions);
        let command = line.command.as_str();
        let here = param_is(line, 0, self.wanted_channel.as_str());
        if text::same_text(command, "PING") {
            self.take_ping(line, actions);
        } else if text::same_text(command, "CAP") {
            self.take_cap(line, actions);
        } else if text::same_text(command, "001") && !self.join_requested {
            self.take_welcome(line, actions);
        } else if text::same_text(command, "JOIN") {
            self.take_join(line);
        } else if text::same_text(command, "353") && param_is(
            line,
            2,
            self.wanted_channel.as_str(),
        ) {
            self.take_names(line);
        } else if text::same_text(command, "VERIFIED") && here {
            self.take_verified(line);
        } else if (text::same_text(command, "META") || text::same_text(command, "SUBBADGE")
            || text::same_text(command, "PARTNER")) && here {
            self.take_member(line);
        } else if text::same_text(command, "474") {
            self.banned = true;
            self.joined = false;
            self.judge();
        } else if text::same_text(command, "PRIVMSG") && here {
            self.take_message(line, cache, fallback, actions);
        } else if text::same_text(command, "NOTICE") || text::same_text(command, "404") {
            self.take_refusal(line, actions);
        } else if text::same_text(command, "REDACT") {
            match messages::normalize_redaction(
                line,
                self.wanted_channel.as_str(),
                self.channel_key.as_str(),
            ) {
                Some(frame) => emit(actions, ChatAction::PublishFrame(frame)),
                None => {},
            }
        }
        assert(turn_of(*self, *fallback, *actions) =~= start.on_line(line@, cache@));
    }

    fn take_text(
        &mut self,
        frame: &str,
        cache: &EmoteCache,
        fallback: &mut u64,
        actions: &mut Vec<ChatAction>,
    )
        ensures
            turn_of(*final(self), *final(fallback), *final(actions)) == turn_of(
                *old(self),
                *old(fallback),
                *old(actions),
            ).on_lines(text::pieces(frame@, CharClass::LineBreak), cache@),
    {
        let ghost start = turn_of(*self, *fallback, *actions);
        let lines = text::split(frame, &CharClass::LineBreak);
        let ghost all = lines.deep_view();
        let mut i: usize = 0;
        assert(all.take(0) =~= seq![]);
        while i < lines.len()
            invariant
                all == lines.deep_view(),
                i <= lines.len(),
                turn_of(*self, *fallback, *actions) == start.on_lines(all.take(i as int), cache@),
            decreases lines.len() - i,
        {
            let raw = lines[i];
            assert(all.take(i + 1).drop_last() =~= all.take(i as int));
            assert(all.take(i + 1).last() == raw@);
            if !raw.is_empty() {
                match IrcLine::parse(raw) {
                    Some(line) => self.take_line(&line, cache, fallback, actions),
                    None => {},
                }
            }
            i = i + 1;
        }
        assert(all.take(i as int) =~= all);
    }

    fn take_maintenance(&mut self, revision: u64, now: u64, actions: &mut Vec<ChatAction>)
        ensures
            forall|fallback: u64|
                turn_of(*final(self), fallback, *final(actions)) == #[trigger] turn_of(
                    *old(self),
                    fallback,
                    *old(actions),
                ).on_maintenance(revision, now),
    {
        if revision != self.auth_revision {
            self.send_state = SEND_CONNECTING;
            emit(actions, ChatAction::Fail(ItzonError::SessionChanged));
            return;
        }
        let ghost first = *self;
        let ghost done = *actions;
        while self.pending.len() > 0 && self.pending[0].deadline <= now
            invariant
                forall|fallback: u64|
                    turn_of(*self, fallback, *actions).expired(now) == #[trigger] turn_of(
                        first,
                        fallback,
                        done,
                    ).expired(now),
            decreases self.pending@.len(),
        {
            let ghost before = sending::pending_view(self.pending@);
            let ghost held = *self;
            let ghost told = *actions;
            match self.pending.pop_front() {
                Some(late) => {
                    assert(sending::pending_view(self.pending@) =~= before.drop_first());
                    emit(
                        actions,
                        ChatAction::Resolve {
                            ticket: late.ticket,
                            outcome: sending::drop_message("itzon did not echo the message in time"),
                        },
                    );
                    assert forall|fallback: u64|
                        turn_of(*self, fallback, *actions).expired(now) == #[trigger] turn_of(
                            first,
                            fallback,
                            done,
                        ).expired(now) by {
                        let turn = turn_of(held, fallback, told);
                        let s = turn.session;
                        let next = turn.with(
                            SessionView { pending: s.pending.drop_first(), ..s },
                        ).also(
                            ActionView::Resolve {
                                ticket: s.pending[0].ticket,
                                outcome: sending::dropped("itzon did not echo the message in time"@),
                            },
                        );
                        assert(turn_of(*self, fallback, *actions) =~= next);
                        assert(turn.expired(now) == next.expired(now));
                    }
                },
                None => {},
            }
        }
    }

    fn take_outgoing(
        &mut self,
        message: Outgoing,
        ticket: u64,
        connected: bool,
        now: u64,
        actions: &mut Vec<ChatAction>,
    )
        ensures
            forall|fallback: u64|
                turn_of(*final(self), fallback, *final(actions)) == #[trigger] turn_of(
                    *old(self),
                    fallback,
                    *old(actions),
                ).on_outgoing(message@, ticket, connected, now),
    {
        match sending::admit_send(self.has_auth && connected, Some(self.send_state)) {
            Some(outcome) => emit(actions, ChatAction::Resolve { ticket, outcome }),
            None => {
                let line = sending::write_message(self.wanted_channel.as_str(), &message);
                emit(actions, ChatAction::SendText(line));
                let ghost before = sending::pending_view(self.pending@);
                let waiting = PendingSend {
                    text: message.text,
                    reply_to: message.reply_to,
                    ticket,
                    deadline: now.saturating_add(ECHO_MILLIS),
                };
                let ghost kept = waiting@;
                self.pending.push_back(waiting);
                assert(sending::pending_view(self.pending@) =~= before.push(kept));
            },
        }
    }

    /// Takes what happened, and says what is to be done about it. `fallback` is the number for the
    /// next message without an id of its own, over all channels.
    pub fn step(&mut self, event: ChatEvent, cache: &EmoteCache, fallback: &mut u64) -> (r: Vec<
        ChatAction,
    >)
        ensures
            turn_of(*final(self), *final(fallback), r) == Turn::start(
                old(self)@,
                *old(fallback),
            ).on_event(event, cache@),
    {
        let mut actions: Vec<ChatAction> = Vec::new();
        let ghost start = turn_of(*self, *fallback, actions);
        assert(start =~= Turn::start(self@, *fallback));
        match event {
            ChatEvent::Heartbeat => emit(&mut actions, ChatAction::SendPing),
            ChatEvent::Maintenance { revision, now } => self.take_maintenance(
                revision,
                now,
                &mut actions,
            ),
            ChatEvent::Outgoing { message, ticket, connected, now } => self.take_outgoing(
                message,
                ticket,
                connected,
                now,
                &mut actions,
            ),
            ChatEvent::OutgoingClosed => emit(&mut actions, ChatAction::Disconnect),
            ChatEvent::Text(text) => self.take_text(text.as_str(), cache, fallback, &mut actions),
            ChatEvent::Ping(payload) => emit(&mut actions, ChatAction::SendPong(payload)),
            ChatEvent::Closed => emit(&mut actions, ChatAction::Disconnect),
            ChatEvent::Other => {},
        }
        assert(turn_of(*self, *fallback, actions) =~= start.on_event(event, cache@));
        actions
    }
}

/// `uuid::Uuid::new_v4`, written by `simple`: thirty-two lower-case hexadecimal digits. Which digits
/// is left to chance. Where the machine gives no random bytes, the call stops the program.
#[verifier::external_body]
fn random_uuid() -> (r: String)
    ensures
        r@.len() == 32,
        forall|i: int|
            0 <= i < r@.len() ==> letters::is_ascii_hexdigit(#[trigger] r@[i])
                && !letters::is_ascii_upper(r@[i]),
{
    uuid::Uuid::new_v4().simple().to_string()
}

/// The name of one without an account, from random digits.
pub open spec fn guest_name(random: Seq<char>) -> Seq<char> {
    "guest_"@ + random.take(8)
}

pub fn guest_nick_from(random: &str) -> (r: String)
    requires
        random@.len() >= 8,
    ensures
        r@ == guest_name(random@),
{
    assert(random@.subrange(0, 8) =~= random@.take(8));
    let mut nick = "guest_".to_string();
    nick.append(random.substring_char(0, 8));
    nick
}

/// A name for one without an account: `guest_` and eight random digits.
pub fn guest_nick() -> (r: String)
    ensures
        r@.len() == "guest_"@.len() + 8,
        "guest_"@.is_prefix_of(r@),
        sending::is_guest(r@),
        forall|i: int|
            "guest_"@.len() <= i < r@.len() ==> letters::is_ascii_hexdigit(#[trigger] r@[i]),
{
    let random = random_uuid();
    let nick = guest_nick_from(random.as_str());
    proof {
        reveal_strlit("guest_");
        let lower = letters::ascii_lowercase(nick@);
        assert(lower.subrange(0, 6) =~= "guest_"@);
        assert(nick@.subrange(0, 6) =~= "guest_"@);
        assert forall|i: int| 6 <= i < nick@.len() implies letters::is_ascii_hexdigit(
            #[trigger] nick@[i],
        ) by {
            assert(nick@[i] == random@[i - 6]);
        }
    }
    nick
}

/// The lines that a connection begins with; a password goes before all others.
pub open spec fn registration_lines(pass: Option<Seq<char>>, nick: Seq<char>) -> Seq<Seq<char>> {
    let first = match pass {
        Some(pass) => seq!["PASS "@ + pass + "\r\n"@],
        None => seq![],
    };
    first + seq![
        "CAP REQ :message-tags echo-message draft/message-redaction\r\n"@,
        "CAP REQ :server-time\r\n"@,
        "NICK "@ + nick + "\r\n"@,
        "USER "@ + nick + " 0 * :"@ + nick + "\r\n"@,
    ]
}

pub fn registration(pass: Option<&str>, nick: &str) -> (r: Vec<String>)
    ensures
        r.deep_view() == registration_lines(pass.deep_view(), nick@),
{
    let mut lines: Vec<String> = Vec::new();
    match pass {
        Some(pass) => {
            let mut line = "PASS ".to_string();
            line.append(pass);
            line.append("\r\n");
            lines.push(line);
        },
        None => {},
    }
    lines.push("CAP REQ :message-tags echo-message draft/message-redaction\r\n".to_string());
    lines.push("CAP REQ :server-time\r\n".to_string());
    let mut named = "NICK ".to_string();
    named.append(nick);
    named.append("\r\n");
    lines.push(named);
    let mut user = "USER ".to_string();
    user.append(nick);
    user.append(" 0 * :");
    user.append(nick);
    user.append("\r\n");
    lines.push(user);
    assert(lines.deep_view() =~= registration_lines(pass.deep_view(), nick@));
    lines
}

/// The name that a connection asks for: that of the account, or the name of a guest.
pub open spec fn asked_nick(auth: ChatAuth, guest: Seq<char>) -> Seq<char> {
    match auth.nick {
        Some(nick) => nick@,
        None => guest,
    }
}

impl ChatSession {
    /// A connection to the channel that was just made, and the lines to begin it with.
    pub fn open(slug: &str, auth: &ChatAuth, guest: &str, auth_revision: u64) -> (r: (
        ChatSession,
        Vec<String>,
    ))
        ensures
            r.0@ == SessionView::opened(
                slug@,
                auth.pass is Some || auth.cookie_header is Some,
                asked_nick(*auth, guest@),
                auth_revision,
            ),
            r.1.deep_view() == registration_lines(
                auth.pass.deep_view(),
                asked_nick(*auth, guest@),
            ),
    {
        let nick: String = match &auth.nick {
            Some(nick) => nick.clone(),
            None => guest.to_string(),
        };
        let pass: Option<&str> = match &auth.pass {
            Some(pass) => Some(pass.as_str()),
            None => None,
        };
        let lines = registration(pass, nick.as_str());
        let mut wanted_channel = "#".to_string();
        wanted_channel.append(slug);
        let session = ChatSession {
            channel_key: sending::make_key(slug),
            wanted_channel,
            has_auth: auth.pass.is_some() || auth.cookie_header.is_some(),
            auth_revision,
            confirmed_nick: nick,
            cap_replies: 0,
            cap_ended: false,
            join_requested: false,
            joined: false,
            verified: None,
            banned: false,
            recent: RecentMessages::default(),
            members: MemberState::default(),
            pending: VecDeque::new(),
            send_state: SEND_CONNECTING,
        };
        assert(session@.pending =~= seq![]);
        (session, lines)
    }
}

/// Whether the state of sending is no better than it may be: messages may be sent only where the
/// channel is joined under the name of an account that is signed in, verified and not banned.
pub open spec fn readiness_is_earned(s: SessionView) -> bool {
    s.send_state == SEND_READY ==> {
        &&& s.joined
        &&& s.has_auth
        &&& s.verified == Some(true)
        &&& !s.banned
        &&& !sending::is_guest(s.confirmed_nick)
    }
}

/// What never changes during a connection.
pub open spec fn same_connection(a: SessionView, b: SessionView) -> bool {
    &&& a.channel_key == b.channel_key
    &&& a.wanted_channel == b.wanted_channel
    &&& a.has_auth == b.has_auth
    &&& a.auth_revision == b.auth_revision
}

proof fn lemma_entries_earned(s: SessionView, entries: Seq<Seq<char>>)
    ensures
        readiness_is_earned(s) ==> readiness_is_earned(s.with_entries(entries)),
        same_connection(s, s.with_entries(entries)),
        s.with_entries(entries).pending == s.pending,
        s.with_entries(entries).joined == s.joined,
        s.with_entries(entries).confirmed_nick == s.confirmed_nick,
    decreases entries.len(),
{
    if entries.len() > 0 {
        lemma_entries_earned(s, entries.drop_last());
    }
}

proof fn lemma_line_earned(
    turn: Turn,
    line: IrcLineView,
    cache: Map<Seq<char>, ChannelEmotesView>,
)
    requires
        readiness_is_earned(turn.session),
    ensures
        readiness_is_earned(turn.on_line(line, cache).session),
        same_connection(turn.session, turn.on_line(line, cache).session),
{
    lemma_entries_earned(turn.session, text::words(text_or_empty(line.trailing)));
}

proof fn lemma_lines_earned(
    turn: Turn,
    lines: Seq<Seq<char>>,
    cache: Map<Seq<char>, ChannelEmotesView>,
)
    requires
        readiness_is_earned(turn.session),
    ensures
        readiness_is_earned(turn.on_lines(lines, cache).session),
        same_connection(turn.session, turn.on_lines(lines, cache).session),
    decreases lines.len(),
{
    if lines.len() > 0 {
        lemma_lines_earned(turn, lines.drop_last(), cache);
        let before = turn.on_lines(lines.drop_last(), cache);
        match irc::parsed(lines.last()) {
            Some(line) => lemma_line_earned(before, line, cache),
            None => {},
        }
    }
}

proof fn lemma_expired_earned(turn: Turn, now: u64)
    requires
        readiness_is_earned(turn.session),
    ensures
        readiness_is_earned(turn.expired(now).session),
        same_connection(turn.session, turn.expired(now).session),
    decreases turn.session.pending.len(),
{
    let s = turn.session;
    if s.pending.len() > 0 && s.pending[0].deadline <= now {
        let next = turn.with(SessionView { pending: s.pending.drop_first(), ..s }).also(
            ActionView::Resolve {
                ticket: s.pending[0].ticket,
                outcome: sending::dropped("itzon did not echo the message in time"@),
            },
        );
        lemma_expired_earned(next, now);
    }
}

/// Whatever happens to a connection, messages may be sent only where the account has earned it, and
/// the channel, the sign-in and the revision stay what they were. A connection that was just made
/// is not ready.
pub proof fn sending_needs_a_joined_verified_account(
    session: SessionView,
    fallback: u64,
    event: ChatEvent,
    cache: Map<Seq<char>, ChannelEmotesView>,
    slug: Seq<char>,
    has_auth: bool,
    nick: Seq<char>,
    revision: u64,
)
    requires
        readiness_is_earned(session),
    ensures
        readiness_is_earned(Turn::start(session, fallback).on_event(event, cache).session),
        same_connection(
            session,
            Turn::start(session, fallback).on_event(event, cache).session,
        ),
        readiness_is_earned(SessionView::opened(slug, has_auth, nick, revision)),
{
    let turn = Turn::start(session, fallback);
    match event {
        ChatEvent::Text(text) => lemma_lines_earned(
            turn,
            text::pieces(text@, CharClass::LineBreak),
            cache,
        ),
        ChatEvent::Maintenance { revision, now } => lemma_expired_earned(turn, now),
        _ => {},
    }
}

/// The account is in the channel only by its own JOIN: after any line it is there under the name
/// under which it was, or the line is its JOIN of the channel.
pub proof fn only_its_own_join_admits(
    turn: Turn,
    line: IrcLineView,
    cache: Map<Seq<char>, ChannelEmotesView>,
)
    ensures
        ({
            let before = turn.session;
            let after = turn.on_line(line, cache).session;
            let own_join = line.command == "JOIN"@ && joined_channel(line) == Some(
                before.wanted_channel,
            ) && before.is_self(messages::sender_of(line));
            after.joined ==> after.is_self(before.confirmed_nick) && (before.joined || own_join)
        }),
{
    lemma_entries_earned(turn.session, text::words(text_or_empty(line.trailing)));
}

/// The welcome never opens a channel for messages: where they may be sent after it, they could
/// before, under the same name.
pub proof fn a_welcome_opens_nothing(turn: Turn, line: IrcLineView)
    ensures
        ({
            let before = turn.session;
            let after = turn.on_welcome(line).session;
            after.send_state == SEND_READY ==> before.send_state == SEND_READY && after.is_self(
                before.confirmed_nick,
            )
        }),
{
}

/// Whether an action tells that a message was sent.
pub open spec fn is_confirmation(action: ActionView) -> bool {
    action matches ActionView::Resolve { outcome, .. } && outcome.is_sent
}

/// A line that tells that a message was sent is the echo of that message: it comes from the account
/// itself, in the channel, with the text and the reply of a message that waits for its echo.
pub proof fn only_an_echo_confirms(
    turn: Turn,
    line: IrcLineView,
    cache: Map<Seq<char>, ChannelEmotesView>,
    k: int,
)
    requires
        turn.actions.len() <= k < turn.on_line(line, cache).actions.len(),
        is_confirmation(turn.on_line(line, cache).actions[k]),
    ensures
        line.command == "PRIVMSG"@,
        messages::param(line, 0) == Some(turn.session.wanted_channel),
        turn.session.is_self(messages::sender_of(line)),
        exists|i: int|
            0 <= i < turn.session.pending.len() && sending::echoes(
                #[trigger] turn.session.pending[i],
                messages::body_of(line),
                tag(line.tags, "+reply"@),
            ) && turn.on_line(line, cache).actions[k] == (ActionView::Resolve {
                ticket: turn.session.pending[i].ticket,
                outcome: sending::confirmed(tag(line.tags, "msgid"@)),
            }) && turn.on_line(line, cache).session.pending == turn.session.pending.remove(i),
{
    let s = turn.session;
    let reply = tag(line.tags, "+reply"@);
    sending::lemma_echo_index(s.pending, messages::body_of(line), reply);
    match sending::echo_index(s.pending, messages::body_of(line), reply) {
        Some(i) => {
            assert(sending::echoes(s.pending[i], messages::body_of(line), reply));
        },
        None => {},
    }
}

proof fn lemma_expired_confirms_nothing(turn: Turn, now: u64)
    ensures
        turn.actions.len() <= turn.expired(now).actions.len(),
        forall|k: int|
            turn.actions.len() <= k < turn.expired(now).actions.len() ==> !is_confirmation(
                #[trigger] turn.expired(now).actions[k],
            ),
        forall|k: int|
            0 <= k < turn.actions.len() ==> #[trigger] turn.expired(now).actions[k]
                == turn.actions[k],
    decreases turn.session.pending.len(),
{
    let s = turn.session;
    if s.pending.len() > 0 && s.pending[0].deadline <= now {
        let next = turn.with(SessionView { pending: s.pending.drop_first(), ..s }).also(
            ActionView::Resolve {
                ticket: s.pending[0].ticket,
                outcome: sending::dropped("itzon did not echo the message in time"@),
            },
        );
        lemma_expired_confirms_nothing(next, now);
        assert forall|k: int|
            turn.actions.len() <= k < turn.expired(now).actions.len() implies !is_confirmation(
            #[trigger] turn.expired(now).actions[k],
        ) by {
            if k == turn.actions.len() {
                assert(turn.expired(now).actions[k] == next.actions[k]);
            }
        }
        assert forall|k: int| 0 <= k < turn.actions.len() implies #[trigger] turn.expired(
            now,
        ).actions[k] == turn.actions[k] by {
            assert(next.actions[k] == turn.actions[k]);
        }
    }
}

/// Nothing but text that comes in tells that a message was sent: neither handing it in, nor the
/// clock, nor the end of the connection does.
pub proof fn only_text_confirms(
    session: SessionView,
    fallback: u64,
    event: ChatEvent,
    cache: Map<Seq<char>, ChannelEmotesView>,
    k: int,
)
    requires
        !(event is Text),
        0 <= k < Turn::start(session, fallback).on_event(event, cache).actions.len(),
    ensures
        !is_confirmation(Turn::start(session, fallback).on_event(event, cache).actions[k]),
{
    match event {
        ChatEvent::Maintenance { revision, now } => lemma_expired_confirms_nothing(
            Turn::start(session, fallback),
            now,
        ),
        _ => {},
    }
}

/// The messages that wait for their echo, by their tickets.
pub open spec fn waiting(pending: Seq<PendingView>) -> Multiset<u64> {
    pending.map_values(|item: PendingView| item.ticket).to_multiset()
}

/// The messages of which it was told what became of them, by their tickets.
pub open spec fn answered(actions: Seq<ActionView>) -> Multiset<u64>
    decreases actions.len(),
{
    if actions.len() == 0 {
        Multiset::empty()
    } else {
        match actions.last() {
            ActionView::Resolve { ticket, .. } => answered(actions.drop_last()).insert(ticket),
            _ => answered(actions.drop_last()),
        }
    }
}

/// All messages of a connection in the midst of an event.
pub open spec fn accounted(turn: Turn) -> Multiset<u64> {
    waiting(turn.session.pending).add(answered(turn.actions))
}

proof fn lemma_answered_push(actions: Seq<ActionView>, action: ActionView)
    ensures
        answered(actions.push(action)) == (match action {
            ActionView::Resolve { ticket, .. } => answered(actions).insert(ticket),
            _ => answered(actions),
        }),
{
    assert(actions.push(action).drop_last() =~= actions);
}

proof fn lemma_waiting_remove(pending: Seq<PendingView>, i: int)
    requires
        0 <= i < pending.len(),
    ensures
        waiting(pending) == waiting(pending.remove(i)).insert(pending[i].ticket),
{
    broadcast use vstd::seq_lib::group_to_multiset_ensures;
    broadcast use vstd::multiset::group_multiset_axioms;

    let tickets = pending.map_values(|item: PendingView| item.ticket);
    assert(pending.remove(i).map_values(|item: PendingView| item.ticket) =~= tickets.remove(i));
    assert(tickets[i] == pending[i].ticket);
    assert(tickets.contains(tickets[i]));
    assert(waiting(pending) =~= waiting(pending.remove(i)).insert(pending[i].ticket));
}

proof fn lemma_waiting_push(pending: Seq<PendingView>, item: PendingView)
    ensures
        waiting(pending.push(item)) == waiting(pending).insert(item.ticket),
{
    broadcast use vstd::seq_lib::group_to_multiset_ensures;

    assert(pending.push(item).map_values(|item: PendingView| item.ticket)
        =~= pending.map_values(|item: PendingView| item.ticket).push(item.ticket));
}

/// Taking the waiting message at `i` and telling what became of it keeps the account.
proof fn lemma_resolve_accounted(turn: Turn, i: int, outcome: OutcomeView)
    requires
        0 <= i < turn.session.pending.len(),
    ensures
        accounted(
            turn.with(
                SessionView { pending: turn.session.pending.remove(i), ..turn.session },
            ).also(ActionView::Resolve { ticket: turn.session.pending[i].ticket, outcome }),
        ) == accounted(turn),
{
    broadcast use vstd::multiset::group_multiset_axioms;

    let pending = turn.session.pending;
    let ticket = pending[i].ticket;
    lemma_waiting_remove(pending, i);
    lemma_answered_push(turn.actions, ActionView::Resolve { ticket, outcome });
    assert(waiting(pending.remove(i)).add(answered(turn.actions).insert(ticket)) =~= waiting(
        pending,
    ).add(answered(turn.actions)));
}

#[verifier::spinoff_prover]
#[verifier::rlimit(40)]
proof fn lemma_line_accounted(
    turn: Turn,
    line: IrcLineView,
    cache: Map<Seq<char>, ChannelEmotesView>,
)
    ensures
        accounted(turn.on_line(line, cache)) == accounted(turn),
{
    let s = turn.session;
    lemma_entries_earned(s, text::words(text_or_empty(line.trailing)));
    lemma_answered_push(
        turn.actions,
        ActionView::SendText("PONG :"@ + ping_token(line) + "\r\n"@),
    );
    lemma_answered_push(turn.actions, ActionView::SendText("CAP END\r\n"@));
    lemma_answered_push(
        turn.actions,
        ActionView::SendText("JOIN "@ + s.wanted_channel + "\r\n"@),
    );
    match messages::redacted_id(line, s.wanted_channel) {
        Some(id) => lemma_answered_push(
            turn.actions,
            ActionView::PublishFrame(
                messages::json_object_text(messages::redaction_members(s.channel_key, id)),
            ),
        ),
        None => {},
    }
    if s.pending.len() > 0 {
        lemma_resolve_accounted(turn, 0, sending::dropped(rejection(line)));
        assert(s.pending.remove(0) =~= s.pending.drop_first());
    }
    let told = turn.with(
        SessionView {
            members: s.members.with_tags(messages::sender_of(line), line.tags),
            ..s
        },
    );
    let reply = tag(line.tags, "+reply"@);
    sending::lemma_echo_index(s.pending, messages::body_of(line), reply);
    match sending::echo_index(s.pending, messages::body_of(line), reply) {
        Some(i) => lemma_resolve_accounted(
            told,
            i,
            sending::confirmed(tag(line.tags, "msgid"@)),
        ),
        None => {},
    }
    let echoed = told.on_echo(line);
    assert(accounted(echoed) == accounted(turn));
    match messages::normalized(
        line,
        echoed.session.channel_key,
        echoed.session.recent,
        echoed.session.members,
        cache,
        echoed.fallback,
    ) {
        Some(message) => lemma_answered_push(
            echoed.actions,
            ActionView::PublishMessage(message),
        ),
        None => {},
    }
}

proof fn lemma_lines_accounted(
    turn: Turn,
    lines: Seq<Seq<char>>,
    cache: Map<Seq<char>, ChannelEmotesView>,
)
    ensures
        accounted(turn.on_lines(lines, cache)) == accounted(turn),
    decreases lines.len(),
{
    if lines.len() > 0 {
        lemma_lines_accounted(turn, lines.drop_last(), cache);
        match irc::parsed(lines.last()) {
            Some(line) => lemma_line_accounted(
                turn.on_lines(lines.drop_last(), cache),
                line,
                cache,
            ),
            None => {},
        }
    }
}

proof fn lemma_expired_accounted(turn: Turn, now: u64)
    ensures
        accounted(turn.expired(now)) == accounted(turn),
    decreases turn.session.pending.len(),
{
    let s = turn.session;
    if s.pending.len() > 0 && s.pending[0].deadline <= now {
        let outcome = sending::dropped("itzon did not echo the message in time"@);
        let next = turn.with(SessionView { pending: s.pending.drop_first(), ..s }).also(
            ActionView::Resolve { ticket: s.pending[0].ticket, outcome },
        );
        lemma_resolve_accounted(turn, 0, outcome);
        assert(s.pending.remove(0) =~= s.pending.drop_first());
        lemma_expired_accounted(next, now);
    }
}

/// No message is lost, and none is answered twice: after an event, those that wait for their echo
/// and those that were answered are those that waited before it, and the one that was handed in.
pub proof fn every_message_is_answered_once(
    session: SessionView,
    fallback: u64,
    event: ChatEvent,
    cache: Map<Seq<char>, ChannelEmotesView>,
)
    ensures
        accounted(Turn::start(session, fallback).on_event(event, cache)) == (match event {
            ChatEvent::Outgoing { ticket, .. } => waiting(session.pending).insert(ticket),
            _ => waiting(session.pending),
        }),
{
    broadcast use vstd::multiset::group_multiset_axioms;

    let turn = Turn::start(session, fallback);
    assert(accounted(turn) =~= waiting(session.pending));
    match event {
        ChatEvent::Heartbeat => lemma_answered_push(turn.actions, ActionView::SendPing),
        ChatEvent::Maintenance { revision, now } => {
            lemma_expired_accounted(turn, now);
            lemma_answered_push(turn.actions, ActionView::Fail(ItzonError::SessionChanged.text()));
        },
        ChatEvent::Outgoing { message, ticket, connected, now } => {
            match sending::hindrance(session.has_auth && connected, Some(session.send_state)) {
                Some(reason) => lemma_answered_push(
                    turn.actions,
                    ActionView::Resolve { ticket, outcome: sending::dropped(reason) },
                ),
                None => {
                    let item = PendingView {
                        text: message@.text,
                        reply_to: message@.reply_to,
                        ticket,
                        deadline: echo_deadline(now),
                    };
                    lemma_waiting_push(session.pending, item);
                    lemma_answered_push(
                        turn.actions,
                        ActionView::SendText(
                            sending::message_line(session.wanted_channel, message@),
                        ),
                    );
                },
            }
            assert(accounted(turn.on_event(event, cache)) =~= waiting(session.pending).insert(
                ticket,
            ));
        },
        ChatEvent::OutgoingClosed => lemma_answered_push(turn.actions, ActionView::Disconnect),
        ChatEvent::Text(text) => lemma_lines_accounted(
            turn,
            text::pieces(text@, CharClass::LineBreak),
            cache,
        ),
        ChatEvent::Ping(payload) => lemma_answered_push(
            turn.actions,
            ActionView::SendPong(payload@),
        ),
        ChatEvent::Closed => lemma_answered_push(turn.actions, ActionView::Disconnect),
        ChatEvent::Other => {},
    }
}

/// The negotiation of capabilities ends once, and the channel is asked for once: what is done of the
/// two stays done, and is not done again.
pub proof fn a_handshake_happens_once(
    turn: Turn,
    line: IrcLineView,
    cache: Map<Seq<char>, ChannelEmotesView>,
)
    ensures
        turn.session.cap_ended ==> turn.on_line(line, cache).session.cap_ended,
        turn.session.join_requested ==> turn.on_line(line, cache).session.join_requested,
        turn.session.cap_ended && line.command == "CAP"@ ==> turn.on_line(line, cache).actions
            == turn.actions,
        turn.session.join_requested && line.command == "001"@ ==> turn.on_line(line, cache)
            == turn,
{
    lemma_entries_handshake(turn.session, text::words(text_or_empty(line.trailing)));
    reveal_strlit("001");
    reveal_strlit("PING");
    reveal_strlit("CAP");
    reveal_strlit("JOIN");
    reveal_strlit("353");
    reveal_strlit("VERIFIED");
    reveal_strlit("META");
    reveal_strlit("SUBBADGE");
    reveal_strlit("PARTNER");
    reveal_strlit("474");
    reveal_strlit("PRIVMSG");
    reveal_strlit("NOTICE");
    reveal_strlit("404");
    reveal_strlit("REDACT");
    if line.command == "001"@ {
        assert(line.command[0] == '0' && line.command[2] == '1' && line.command.len() == 3);
        assert("353"@[0] == '3' && "474"@[0] == '4' && "404"@[0] == '4' && "CAP"@[0] == 'C');
    }
    if line.command == "CAP"@ {
        assert("PING"@.len() == 4);
    }
}

proof fn lemma_entries_handshake(s: SessionView, entries: Seq<Seq<char>>)
    ensures
        s.with_entries(entries).cap_ended == s.cap_ended,
        s.with_entries(entries).join_requested == s.join_requested,
    decreases entries.len(),
{
    if entries.len() > 0 {
        lemma_entries_handshake(s, entries.drop_last());
    }
}

/// Where there is a password, it is the first thing that is sent.
pub proof fn a_password_goes_first(pass: Option<Seq<char>>, nick: Seq<char>)
    ensures
        pass matches Some(pass) ==> registration_lines(Some(pass), nick)[0] == "PASS "@ + pass
            + "\r\n"@ && registration_lines(Some(pass), nick).skip(1) == registration_lines(
            None,
            nick,
        ),
{
    match pass {
        Some(pass) => {
            assert(registration_lines(Some(pass), nick).skip(1) =~= registration_lines(None, nick));
        },
        None => {},
    }
}

/// A whole connection: what is known after all events, and what was to be done about them. With each
/// event come the emotes that are known then.
pub open spec fn run(
    session: SessionView,
    fallback: u64,
    events: Seq<(ChatEvent, Map<Seq<char>, ChannelEmotesView>)>,
) -> Turn
    decreases events.len(),
{
    if events.len() == 0 {
        Turn::start(session, fallback)
    } else {
        let before = run(session, fallback, events.drop_last());
        let (event, cache) = events.last();
        let now = Turn::start(before.session, before.fallback).on_event(event, cache);
        Turn { actions: before.actions + now.actions, ..now }
    }
}

/// The messages that were handed in, by their tickets.
pub open spec fn handed_in(
    events: Seq<(ChatEvent, Map<Seq<char>, ChannelEmotesView>)>,
) -> Multiset<u64>
    decreases events.len(),
{
    if events.len() == 0 {
        Multiset::empty()
    } else {
        match events.last().0 {
            ChatEvent::Outgoing { ticket, .. } => handed_in(events.drop_last()).insert(ticket),
            _ => handed_in(events.drop_last()),
        }
    }
}

proof fn lemma_answered_concat(a: Seq<ActionView>, b: Seq<ActionView>)
    ensures
        answered(a + b) == answered(a).add(answered(b)),
    decreases b.len(),
{
    broadcast use vstd::multiset::group_multiset_axioms;

    if b.len() == 0 {
        assert(a + b =~= a);
        assert(answered(a).add(answered(b)) =~= answered(a));
    } else {
        assert((a + b).drop_last() =~= a + b.drop_last());
        lemma_answered_concat(a, b.drop_last());
        assert(answered(a + b) =~= answered(a).add(answered(b)));
    }
}

/// Over a whole connection: messages may be sent only where the account has earned it, and each
/// message that was handed in either waits for its echo or was answered, once.
pub proof fn a_connection_keeps_its_word(
    slug: Seq<char>,
    has_auth: bool,
    nick: Seq<char>,
    revision: u64,
    fallback: u64,
    events: Seq<(ChatEvent, Map<Seq<char>, ChannelEmotesView>)>,
)
    ensures
        ({
            let opened = SessionView::opened(slug, has_auth, nick, revision);
            let end = run(opened, fallback, events);
            &&& readiness_is_earned(end.session)
            &&& same_connection(opened, end.session)
            &&& accounted(end) == handed_in(events)
        }),
    decreases events.len(),
{
    broadcast use vstd::multiset::group_multiset_axioms;

    let opened = SessionView::opened(slug, has_auth, nick, revision);
    if events.len() == 0 {
        broadcast use vstd::seq_lib::group_to_multiset_ensures;

        let none = opened.pending.map_values(|item: PendingView| item.ticket);
        assert(none =~= seq![]);
        assert(none.to_multiset() =~= Multiset::empty());
        assert(accounted(run(opened, fallback, events)) =~= handed_in(events));
    } else {
        a_connection_keeps_its_word(slug, has_auth, nick, revision, fallback, events.drop_last());
        let before = run(opened, fallback, events.drop_last());
        let (event, cache) = events.last();
        sending_needs_a_joined_verified_account(
            before.session,
            before.fallback,
            event,
            cache,
            slug,
            has_auth,
            nick,
            revision,
        );
        every_message_is_answered_once(before.session, before.fallback, event, cache);
        let now = Turn::start(before.session, before.fallback).on_event(event, cache);
        let end = run(opened, fallback, events);
        lemma_answered_concat(before.actions, now.actions);
        assert(end.actions == before.actions + now.actions);
        assert(end.session == now.session);
        assert(accounted(end) =~= accounted(now).add(answered(before.actions)));
        match event {
            ChatEvent::Outgoing { ticket, .. } => {
                assert(accounted(end) =~= accounted(before).insert(ticket));
            },
            _ => {
                assert(accounted(end) =~= accounted(before));
            },
        }
    }
}

/// The commands that are known are told apart.
proof fn lemma_commands()
    ensures
        seq![
            "PING"@,
            "CAP"@,
            "001"@,
            "JOIN"@,
            "353"@,
            "VERIFIED"@,
            "META"@,
            "SUBBADGE"@,
            "PARTNER"@,
            "474"@,
            "PRIVMSG"@,
            "NOTICE"@,
            "404"@,
            "REDACT"@,
        ].no_duplicates(),
{
    reveal_strlit("001");
    reveal_strlit("PING");
    reveal_strlit("CAP");
    reveal_strlit("JOIN");
    reveal_strlit("353");
    reveal_strlit("VERIFIED");
    reveal_strlit("META");
    reveal_strlit("SUBBADGE");
    reveal_strlit("PARTNER");
    reveal_strlit("474");
    reveal_strlit("PRIVMSG");
    reveal_strlit("NOTICE");
    reveal_strlit("404");
    reveal_strlit("REDACT");
    assert("PING"@.len() == 4 && "PING"@[0] == 'P');
    assert("CAP"@.len() == 3 && "CAP"@[0] == 'C');
    assert("001"@.len() == 3 && "001"@[0] == '0');
    assert("JOIN"@.len() == 4 && "JOIN"@[0] == 'J');
    assert("353"@.len() == 3 && "353"@[0] == '3');
    assert("VERIFIED"@.len() == 8 && "VERIFIED"@[0] == 'V');
    assert("META"@.len() == 4 && "META"@[0] == 'M');
    assert("SUBBADGE"@.len() == 8 && "SUBBADGE"@[0] == 'S');
    assert("PARTNER"@.len() == 7 && "PARTNER"@[1] == 'A');
    assert("474"@.len() == 3 && "474"@[0] == '4' && "474"@[1] == '7');
    assert("PRIVMSG"@.len() == 7 && "PRIVMSG"@[1] == 'R');
    assert("NOTICE"@.len() == 6 && "NOTICE"@[0] == 'N');
    assert("404"@.len() == 3 && "404"@[0] == '4' && "404"@[1] == '0');
    assert("REDACT"@.len() == 6 && "REDACT"@[0] == 'R');
}

/// Opens the commands for a proof: each of them is not any other.
proof fn lemma_command(command: Seq<char>, i: int)
    requires
        0 <= i < 14,
        command == command_at(i),
    ensures
        forall|j: int| 0 <= j < 14 && j != i ==> command != #[trigger] command_at(j),
{
    lemma_commands();
    let all = seq![
        "PING"@,
        "CAP"@,
        "001"@,
        "JOIN"@,
        "353"@,
        "VERIFIED"@,
        "META"@,
        "SUBBADGE"@,
        "PARTNER"@,
        "474"@,
        "PRIVMSG"@,
        "NOTICE"@,
        "404"@,
        "REDACT"@,
    ];
    assert(all[0] == command_at(0) && all[1] == command_at(1) && all[2] == command_at(2) && all[3]
        == command_at(3) && all[4] == command_at(4) && all[5] == command_at(5) && all[6]
        == command_at(6) && all[7] == command_at(7) && all[8] == command_at(8) && all[9]
        == command_at(9) && all[10] == command_at(10) && all[11] == command_at(11) && all[12]
        == command_at(12) && all[13] == command_at(13));
    assert forall|j: int| 0 <= j < 14 && j != i implies command != #[trigger] command_at(j) by {
        assert(all[i] == command_at(i));
        assert(all[j] == command_at(j));
    }
}

spec fn command_at(i: int) -> Seq<char> {
    if i == 0 {
        "PING"@
    } else if i == 1 {
        "CAP"@
    } else if i == 2 {
        "001"@
    } else if i == 3 {
        "JOIN"@
    } else if i == 4 {
        "353"@
    } else if i == 5 {
        "VERIFIED"@
    } else if i == 6 {
        "META"@
    } else if i == 7 {
        "SUBBADGE"@
    } else if i == 8 {
        "PARTNER"@
    } else if i == 9 {
        "474"@
    } else if i == 10 {
        "PRIVMSG"@
    } else if i == 11 {
        "NOTICE"@
    } else if i == 12 {
        "404"@
    } else {
        "REDACT"@
    }
}

proof fn lemma_is_command(line: IrcLineView, i: int)
    requires
        0 <= i < 14,
        line.command == command_at(i),
    ensures
        i != 0 ==> line.command != "PING"@,
        i != 1 ==> line.command != "CAP"@,
        i != 2 ==> line.command != "001"@,
        i != 3 ==> line.command != "JOIN"@,
        i != 4 ==> line.command != "353"@,
        i != 5 ==> line.command != "VERIFIED"@,
        i != 6 ==> line.command != "META"@,
        i != 7 ==> line.command != "SUBBADGE"@,
        i != 8 ==> line.command != "PARTNER"@,
        i != 9 ==> line.command != "474"@,
        i != 10 ==> line.command != "PRIVMSG"@,
        i != 11 ==> line.command != "NOTICE"@,
        i != 12 ==> line.command != "404"@,
        i != 13 ==> line.command != "REDACT"@,
{
    lemma_command(line.command, i);
    assert(command_at(0) == "PING"@);
    assert(command_at(1) == "CAP"@);
    assert(command_at(2) == "001"@);
    assert(command_at(3) == "JOIN"@);
    assert(command_at(4) == "353"@);
    assert(command_at(5) == "VERIFIED"@);
    assert(command_at(6) == "META"@);
    assert(command_at(7) == "SUBBADGE"@);
    assert(command_at(8) == "PARTNER"@);
    assert(command_at(9) == "474"@);
    assert(command_at(10) == "PRIVMSG"@);
    assert(command_at(11) == "NOTICE"@);
    assert(command_at(12) == "404"@);
    assert(command_at(13) == "REDACT"@);
}

/// A ping is answered with its own token, and nothing else comes of it.
pub proof fn a_ping_is_answered(
    turn: Turn,
    line: IrcLineView,
    token: Seq<char>,
    cache: Map<Seq<char>, ChannelEmotesView>,
)
    requires
        line.command == "PING"@,
        line.trailing == Some(token) || (line.trailing is None && line.params.len() > 0
            && line.params[0] == token) || (line.trailing is None && line.params.len() == 0
            && token.len() == 0),
    ensures
        turn.on_line(line, cache).session == turn.session,
        turn.on_line(line, cache).fallback == turn.fallback,
        turn.on_line(line, cache).actions == turn.actions.push(
            ActionView::SendText("PONG :"@ + token + "\r\n"@),
        ),
{
    assert(token.len() == 0 ==> token =~= seq![]);
    assert(ping_token(line) =~= token);
}

/// The negotiation of capabilities is ended with the second answer, be it yes or no, and not before.
pub proof fn two_answers_end_the_negotiation(
    turn: Turn,
    line: IrcLineView,
    cache: Map<Seq<char>, ChannelEmotesView>,
)
    requires
        line.command == "CAP"@,
        !turn.session.cap_ended,
        turn.session.cap_replies <= 1,
    ensures
        ({
            let after = turn.on_line(line, cache);
            let answered = line.params.contains("ACK"@) || line.params.contains("NAK"@);
            &&& answered ==> after.session.cap_replies == turn.session.cap_replies + 1
            &&& !answered ==> after.session == turn.session && after.actions == turn.actions
            &&& answered && turn.session.cap_replies == 1 ==> after.session.cap_ended
                && after.actions == turn.actions.push(ActionView::SendText("CAP END\r\n"@))
            &&& answered && turn.session.cap_replies == 0 ==> !after.session.cap_ended
                && after.actions == turn.actions
        }),
{
    lemma_is_command(line, 1);
}

/// The welcome asks for the channel that is wanted, once, and takes the name that it tells.
pub proof fn a_welcome_asks_for_the_channel(
    turn: Turn,
    line: IrcLineView,
    cache: Map<Seq<char>, ChannelEmotesView>,
)
    requires
        line.command == "001"@,
        !turn.session.join_requested,
    ensures
        ({
            let after = turn.on_line(line, cache);
            &&& after.actions == turn.actions.push(
                ActionView::SendText("JOIN "@ + turn.session.wanted_channel + "\r\n"@),
            )
            &&& after.session.join_requested
            &&& line.params.len() > 0 ==> after.session.confirmed_nick == line.params[0]
            &&& line.params.len() == 0 ==> after.session.confirmed_nick
                == turn.session.confirmed_nick
            &&& after.session.pending == turn.session.pending
            &&& after.session.members == turn.session.members
            &&& after.session.recent == turn.session.recent
        }),
{
    lemma_is_command(line, 2);
}

/// The JOIN of the account itself, in the channel that is wanted, is what lets it in, and then the
/// state of sending follows; that of another does not.
pub proof fn the_account_joins_by_its_own_line(
    turn: Turn,
    line: IrcLineView,
    cache: Map<Seq<char>, ChannelEmotesView>,
)
    requires
        line.command == "JOIN"@,
    ensures
        ({
            let s = turn.session;
            let after = turn.on_line(line, cache).session;
            let here = if line.params.len() > 0 {
                line.params[0] == s.wanted_channel
            } else {
                line.trailing == Some(s.wanted_channel)
            };
            let own = letters::ascii_lowercase(messages::sender_of(line))
                == letters::ascii_lowercase(s.confirmed_nick);
            &&& here && own ==> after.joined && after.send_state == sending::send_state_of(
                true,
                s.confirmed_nick,
                s.has_auth,
                s.verified,
                s.banned,
            )
            &&& !(here && own) ==> after.joined == s.joined && after.send_state == s.send_state
            &&& after.members == s.members.with_tags(messages::sender_of(line), line.tags)
            &&& turn.on_line(line, cache).actions == turn.actions
        }),
{
    lemma_is_command(line, 3);
}

/// What the service says of the verification of the account counts, and the state of sending
/// follows; what it says of another changes that member alone.
pub proof fn verification_is_told(
    turn: Turn,
    line: IrcLineView,
    cache: Map<Seq<char>, ChannelEmotesView>,
)
    requires
        line.command == "VERIFIED"@,
        line.params.len() >= 3,
        line.params[0] == turn.session.wanted_channel,
    ensures
        ({
            let s = turn.session;
            let after = turn.on_line(line, cache).session;
            let yes = line.params[2] == seq!['1'];
            let own = letters::ascii_lowercase(line.params[1]) == letters::ascii_lowercase(
                s.confirmed_nick,
            );
            &&& own ==> after.verified == Some(yes) && after.send_state == sending::send_state_of(
                s.joined,
                s.confirmed_nick,
                s.has_auth,
                Some(yes),
                s.banned,
            )
            &&& !own ==> after.verified == s.verified && after.send_state == s.send_state
            &&& after.members == s.members.with_verified(line.params[1], yes)
            &&& turn.on_line(line, cache).actions == turn.actions
        }),
{
    lemma_is_command(line, 5);
    reveal_strlit("1");
    assert("1"@ =~= seq!['1']);
}

/// What is told of a member is noted of that member, in the channel that is wanted.
pub proof fn members_are_noted(
    turn: Turn,
    line: IrcLineView,
    cache: Map<Seq<char>, ChannelEmotesView>,
)
    requires
        line.params.len() >= 2,
        line.params[0] == turn.session.wanted_channel,
    ensures
        ({
            let s = turn.session;
            let after = turn.on_line(line, cache).session;
            &&& line.command == "META"@ ==> after.members == s.members.with_tags(
                line.params[1],
                line.tags,
            )
            &&& line.command == "SUBBADGE"@ && line.params.len() >= 3 ==> after.members
                == s.members.with_sub_badge(line.params[1], line.params[2])
            &&& line.command == "SUBBADGE"@ && line.params.len() == 2 ==> after.members
                == s.members.with_sub_badge(line.params[1], "regular"@)
            &&& line.command == "PARTNER"@ && line.params.len() >= 3 ==> after.members
                == s.members.with_partner(line.params[1], line.params[2] == seq!['1'])
            &&& line.command == "META"@ || line.command == "SUBBADGE"@ || line.command
                == "PARTNER"@ ==> after.send_state == s.send_state && turn.on_line(
                line,
                cache,
            ).actions == turn.actions
        }),
{
    reveal_strlit("1");
    assert("1"@ =~= seq!['1']);
    if line.command == "META"@ {
        lemma_is_command(line, 6);
    } else if line.command == "SUBBADGE"@ {
        lemma_is_command(line, 7);
    } else if line.command == "PARTNER"@ {
        lemma_is_command(line, 8);
    }
}

/// A ban closes the channel.
pub proof fn a_ban_closes_the_channel(
    turn: Turn,
    line: IrcLineView,
    cache: Map<Seq<char>, ChannelEmotesView>,
)
    requires
        line.command == "474"@,
    ensures
        ({
            let after = turn.on_line(line, cache).session;
            &&& after.banned
            &&& !after.joined
            &&& after.send_state == sending::SEND_BANNED
            &&& turn.on_line(line, cache).actions == turn.actions
        }),
{
    lemma_is_command(line, 9);
}

/// A message in the channel is published as the channel shows it, and remembered; one elsewhere, or
/// without a sender, is not.
pub proof fn a_message_is_published(
    turn: Turn,
    line: IrcLineView,
    cache: Map<Seq<char>, ChannelEmotesView>,
)
    requires
        line.command == "PRIVMSG"@,
    ensures
        ({
            let s = turn.session;
            let after = turn.on_line(line, cache);
            let here = line.params.len() > 0 && line.params[0] == s.wanted_channel;
            let known = s.members.with_tags(messages::sender_of(line), line.tags);
            &&& !here ==> after == turn
            &&& here ==> after.session.members == known
            &&& here && line.prefix is Some ==> {
                let message = messages::normalized(
                    line,
                    s.channel_key,
                    s.recent,
                    known,
                    cache,
                    turn.fallback,
                )->0;
                &&& after.actions.len() > 0
                &&& after.actions.last() == ActionView::PublishMessage(message)
                &&& after.session.recent == s.recent.with(message.id, messages::memory_of(message))
                &&& after.fallback == messages::next_fallback(line, turn.fallback)
            }
        }),
{
    lemma_is_command(line, 10);
}

/// The echo of a message that waits, from the account itself, tells the one who sent it that it was
/// sent, with its id; and it waits no longer, while all others do.
pub proof fn an_echo_confirms_its_message(
    turn: Turn,
    line: IrcLineView,
    cache: Map<Seq<char>, ChannelEmotesView>,
    i: int,
)
    requires
        line.command == "PRIVMSG"@,
        line.params.len() > 0,
        line.params[0] == turn.session.wanted_channel,
        letters::ascii_lowercase(messages::sender_of(line)) == letters::ascii_lowercase(
            turn.session.confirmed_nick,
        ),
        0 <= i < turn.session.pending.len(),
        turn.session.pending[i].text == messages::body_of(line),
        turn.session.pending[i].reply_to == tag(line.tags, "+reply"@),
        forall|k: int|
            0 <= k < i ==> (#[trigger] turn.session.pending[k]).text != messages::body_of(line)
                || turn.session.pending[k].reply_to != tag(line.tags, "+reply"@),
    ensures
        ({
            let after = turn.on_line(line, cache);
            &&& after.session.pending == turn.session.pending.remove(i)
            &&& after.actions.len() > turn.actions.len()
            &&& after.actions[turn.actions.len() as int] matches ActionView::Resolve {
                ticket,
                outcome,
            } && ticket == turn.session.pending[i].ticket && outcome.is_sent
                && outcome.drop_reason is None && outcome.message_id == tag(line.tags, "msgid"@)
        }),
{
    lemma_is_command(line, 10);
    let s = turn.session;
    let reply = tag(line.tags, "+reply"@);
    sending::an_echo_finds_its_message(s.pending, messages::body_of(line), reply);
    let found = sending::echo_index(s.pending, messages::body_of(line), reply);
    assert(found == Some(i)) by {
        match found {
            Some(k) => {
                if k < i {
                    assert(s.pending[k].text != messages::body_of(line) || s.pending[k].reply_to
                        != reply);
                } else if i < k {
                    assert(s.pending[i].text == messages::body_of(line));
                }
            },
            None => {
                assert(s.pending[i].text == messages::body_of(line));
            },
        }
    }
}

/// A refusal is told to the one who sent the oldest message that waits, with its reason.
pub proof fn a_refusal_is_for_the_oldest(
    turn: Turn,
    line: IrcLineView,
    cache: Map<Seq<char>, ChannelEmotesView>,
)
    requires
        line.command == "NOTICE"@ || line.command == "404"@,
    ensures
        ({
            let s = turn.session;
            let after = turn.on_line(line, cache);
            &&& s.pending.len() == 0 ==> after == turn
            &&& s.pending.len() > 0 ==> after.session.pending == s.pending.drop_first()
                && after.actions.len() == turn.actions.len() + 1
            &&& s.pending.len() > 0 ==> (after.actions.last() matches ActionView::Resolve {
                ticket,
                outcome,
            } && ticket == s.pending[0].ticket && !outcome.is_sent && outcome.message_id is None && (
            line.trailing is Some ==> outcome.drop_reason == line.trailing) && (line.trailing is None
                && line.params.len() > 0 ==> outcome.drop_reason == Some(line.params.last())))
        }),
{
    if line.command == "NOTICE"@ {
        lemma_is_command(line, 11);
    } else {
        lemma_is_command(line, 12);
    }
}

/// A message that is to be sent goes out as a line to the channel, where sending is open, and waits
/// for its echo for ten seconds; and else it is dropped with a reason at once.
pub proof fn a_message_is_sent_or_dropped(
    turn: Turn,
    message: OutgoingView,
    ticket: u64,
    connected: bool,
    now: u64,
)
    ensures
        ({
            let s = turn.session;
            let after = turn.on_outgoing(message, ticket, connected, now);
            let open = s.has_auth && connected && s.send_state == SEND_READY;
            &&& open ==> after.actions == turn.actions.push(
                ActionView::SendText(sending::message_line(s.wanted_channel, message)),
            ) && after.session.pending.len() == s.pending.len() + 1 && after.session.pending.drop_last()
                == s.pending
            &&& open ==> after.session.pending.last().text == message.text
                && after.session.pending.last().reply_to == message.reply_to
                && after.session.pending.last().ticket == ticket && (now + 10_000 <= u64::MAX
                ==> after.session.pending.last().deadline == now + 10_000)
            &&& !open ==> after.session == s && after.actions.len() == turn.actions.len() + 1 && (
            after.actions.last() matches ActionView::Resolve { ticket: told, outcome } && told
                == ticket && !outcome.is_sent && outcome.drop_reason is Some)
        }),
{
    let s = turn.session;
    let after = turn.on_outgoing(message, ticket, connected, now);
    if s.has_auth && connected && s.send_state == SEND_READY {
        assert(after.session.pending.drop_last() =~= s.pending);
    }
}

/// Messages are given up from the oldest on while their time is over, and those whose time is not
/// stay; a change of the account ends the connection instead.
pub proof fn old_messages_are_given_up(turn: Turn, revision: u64, now: u64)
    ensures
        ({
            let s = turn.session;
            let after = turn.on_maintenance(revision, now);
            &&& revision != s.auth_revision ==> after.session.send_state == SEND_CONNECTING
                && after.session.pending == s.pending && after.actions.len() == turn.actions.len()
                + 1 && after.actions.last() is Fail
            &&& revision == s.auth_revision && (s.pending.len() == 0 || s.pending[0].deadline > now)
                ==> after == turn
            &&& revision == s.auth_revision && after.session.pending.len() > 0
                ==> after.session.pending[0].deadline > now
            &&& revision == s.auth_revision ==> after.actions.len() - turn.actions.len()
                == s.pending.len() - after.session.pending.len() && after.session.pending
                == s.pending.skip(s.pending.len() - after.session.pending.len())
            &&& revision == s.auth_revision ==> forall|k: int|
                0 <= k < s.pending.len() - after.session.pending.len() ==> (
                #[trigger] after.actions[turn.actions.len() + k] matches ActionView::Resolve {
                    ticket,
                    outcome,
                } && ticket == s.pending[k].ticket && !outcome.is_sent)
        }),
{
    if revision == turn.session.auth_revision {
        lemma_given_up(turn, now);
    }
}

proof fn lemma_given_up(turn: Turn, now: u64)
    ensures
        ({
            let s = turn.session;
            let after = turn.expired(now);
            &&& after.session.pending.len() <= s.pending.len()
            &&& after.session.pending.len() > 0 ==> after.session.pending[0].deadline > now
            &&& after.actions.len() - turn.actions.len() == s.pending.len()
                - after.session.pending.len()
            &&& after.session.pending == s.pending.skip(
                s.pending.len() - after.session.pending.len(),
            )
            &&& forall|k: int|
                0 <= k < turn.actions.len() ==> #[trigger] after.actions[k] == turn.actions[k]
            &&& forall|k: int|
                0 <= k < s.pending.len() - after.session.pending.len() ==> (
                #[trigger] after.actions[turn.actions.len() + k] matches ActionView::Resolve {
                    ticket,
                    outcome,
                } && ticket == s.pending[k].ticket && !outcome.is_sent)
        }),
    decreases turn.session.pending.len(),
{
    let s = turn.session;
    let after = turn.expired(now);
    if s.pending.len() > 0 && s.pending[0].deadline <= now {
        let next = turn.with(SessionView { pending: s.pending.drop_first(), ..s }).also(
            ActionView::Resolve {
                ticket: s.pending[0].ticket,
                outcome: sending::dropped("itzon did not echo the message in time"@),
            },
        );
        lemma_given_up(next, now);
        let gone = s.pending.len() - after.session.pending.len();
        assert(s.pending.drop_first().skip(gone - 1) =~= s.pending.skip(gone));
        assert forall|k: int| 0 <= k < turn.actions.len() implies #[trigger] after.actions[k]
            == turn.actions[k] by {
            assert(after.actions[k] == next.actions[k]);
        }
        assert forall|k: int| 0 <= k < gone implies (
        #[trigger] after.actions[turn.actions.len() + k] matches ActionView::Resolve {
            ticket,
            outcome,
        } && ticket == s.pending[k].ticket && !outcome.is_sent) by {
            if k == 0 {
                assert(after.actions[turn.actions.len() as int]
                    == next.actions[turn.actions.len() as int]);
            } else {
                assert(after.actions[next.actions.len() + (k - 1)] == after.actions[turn.actions.len()
                    + k]);
                assert(s.pending.drop_first()[k - 1] == s.pending[k]);
            }
        }
    } else {
        assert(s.pending.skip(0) =~= s.pending);
    }
}

/// Text that comes in is taken line by line: a line that ends is done, and then what follows it.
pub proof fn text_is_taken_line_by_line(
    turn: Turn,
    line: String,
    both: String,
    rest: Seq<char>,
    cache: Map<Seq<char>, ChannelEmotesView>,
)
    requires
        !line@.contains('\r'),
        !line@.contains('\n'),
        both@ == line@ + seq!['\r', '\n'],
    ensures
        turn.on_event(ChatEvent::Text(line), cache) == turn.on_raw(line@, cache),
        turn.on_event(ChatEvent::Text(both), cache) == turn.on_raw(line@, cache),
        turn.on_raw(seq![], cache) == turn,
        line@.len() > 0 && irc::parsed(line@) is Some ==> turn.on_raw(line@, cache) == turn.on_line(
            irc::parsed(line@)->0,
            cache,
        ),
        irc::parsed(line@) is None ==> turn.on_raw(line@, cache) == turn,
{
    let breaks = CharClass::LineBreak;
    let none = Seq::<char>::empty();
    assert forall|i: int| 0 <= i < line@.len() implies !breaks.has(#[trigger] line@[i]) by {
        assert(line@.contains(line@[i]));
    }
    text::lemma_first_index_unique(line@, breaks, line@.len() as int);
    assert(text::pieces(line@, breaks) =~= seq![line@]);
    let n = line@.len() as int;
    assert forall|i: int| 0 <= i < n implies !breaks.has(#[trigger] both@[i]) by {
        assert(both@[i] == line@[i]);
    }
    text::lemma_first_index_unique(both@, breaks, n);
    assert(both@.take(n) =~= line@);
    let second = both@.skip(n + 1);
    assert(second =~= seq!['\n']);
    text::lemma_first_index_unique(second, breaks, 0);
    assert(second.take(0) =~= none);
    assert(second.skip(1) =~= none);
    text::lemma_first_index_unique(none, breaks, 0);
    assert(text::pieces(none, breaks) =~= seq![none]);
    assert(text::pieces(second, breaks) =~= seq![none, none]);
    assert(text::pieces(both@, breaks) =~= seq![line@, none, none]);
    let one = seq![line@];
    assert(one.drop_last() =~= seq![]);
    assert(turn.on_lines(seq![], cache) == turn);
    assert(turn.on_lines(one, cache) == turn.on_raw(line@, cache));
    let two = seq![line@, none];
    assert(two.drop_last() =~= one);
    assert(two.last() == none);
    assert(turn.on_lines(two, cache) == turn.on_raw(line@, cache));
    let three = seq![line@, none, none];
    assert(three.drop_last() =~= two);
    assert(three.last() == none);
    assert(turn.on_lines(three, cache) == turn.on_raw(line@, cache));
}

/// A connection registers with what it can do and with its name, for the channel that is wanted.
pub proof fn a_connection_registers_with_its_name(
    pass: Option<Seq<char>>,
    nick: Seq<char>,
    slug: Seq<char>,
    has_auth: bool,
    revision: u64,
)
    ensures
        ({
            let lines = registration_lines(pass, nick);
            &&& lines.contains("NICK "@ + nick + "\r\n"@)
            &&& lines.contains("USER "@ + nick + " 0 * :"@ + nick + "\r\n"@)
            &&& lines.contains("CAP REQ :message-tags echo-message draft/message-redaction\r\n"@)
            &&& lines.contains("CAP REQ :server-time\r\n"@)
            &&& lines.len() == 4 + (if pass is Some {
                1int
            } else {
                0
            })
        }),
        ({
            let opened = SessionView::opened(slug, has_auth, nick, revision);
            &&& opened.channel_key == "itzon:"@ + slug
            &&& opened.wanted_channel == "#"@ + slug
            &&& opened.has_auth == has_auth
            &&& opened.confirmed_nick == nick
            &&& opened.auth_revision == revision
            &&& !opened.joined && !opened.banned && opened.verified is None
                && opened.pending.len() == 0 && opened.send_state == SEND_CONNECTING
        }),
{
    let lines = registration_lines(pass, nick);
    let n: int = if pass is Some {
        1
    } else {
        0
    };
    assert(lines[n] == "CAP REQ :message-tags echo-message draft/message-redaction\r\n"@);
    assert(lines[n + 1] == "CAP REQ :server-time\r\n"@);
    assert(lines[n + 2] == "NICK "@ + nick + "\r\n"@);
    assert(lines[n + 3] == "USER "@ + nick + " 0 * :"@ + nick + "\r\n"@);
}

/// An account that is signed in goes by its own name, and anyone else by that of a guest.
pub proof fn accounts_go_by_their_names(auth: ChatAuth, guest: Seq<char>)
    ensures
        auth.nick matches Some(nick) ==> asked_nick(auth, guest) == nick@,
        auth.nick is None ==> asked_nick(auth, guest) == guest,
{
}

} // verus!
