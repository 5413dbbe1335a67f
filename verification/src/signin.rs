//! Signing in on the website: looking into a browser window until it holds a session, or until it is
//! given up.
use crate::account;
use crate::account::Account;
use crate::account::ItzonSession;
use crate::account::WebSessionView;
use crate::auth;
use crate::auth::ValidSession;
use crate::auth::ValidSessionView;
use crate::cookies;
use crate::error::ItzonError;
use crate::text_map::TextMap;
use vstd::prelude::*;
use vstd::string::*;

verus! {

/// Why a window is looked into.
#[derive(Clone, Copy, Debug, PartialEq, Eq, Structural)]
pub enum SignInPurpose {
    /// The user signs in, in a window that can be closed.
    Login,
    /// A session from before is brought back, in a hidden window.
    Restore,
}

impl SignInPurpose {
    /// How often the window is looked into.
    pub open spec fn rounds(self) -> u32 {
        match self {
            SignInPurpose::Login => 200,
            SignInPurpose::Restore => 24,
        }
    }

    /// How long it is waited between two looks, in milliseconds.
    pub open spec fn pause(self) -> u64 {
        match self {
            SignInPurpose::Login => 1500,
            SignInPurpose::Restore => 250,
        }
    }
}

/// What is waited for.
#[derive(Clone, Copy, Debug, PartialEq, Eq, Structural)]
pub enum SignInStage {
    /// Whether the window is still there.
    Window,
    /// The cookies of the website.
    OriginCookies,
    /// Whether the website calls them a session.
    Validation,
    /// The cookies of chat.
    ChatCookies,
    /// The end of a pause.
    Pause,
    /// Nothing more.
    Done,
}

/// A sign-in under way.
#[derive(Debug)]
pub struct SignIn {
    pub purpose: SignInPurpose,
    pub rounds_left: u32,
    pub stage: SignInStage,
    pub valid: Option<ValidSession>,
}

pub struct SignInView {
    pub purpose: SignInPurpose,
    pub rounds_left: u32,
    pub stage: SignInStage,
    pub valid: Option<ValidSessionView>,
}

pub open spec fn valid_view(valid: Option<ValidSession>) -> Option<ValidSessionView> {
    match valid {
        Some(valid) => Some(valid@),
        None => None,
    }
}

impl View for SignIn {
    type V = SignInView;

    open spec fn view(&self) -> SignInView {
        SignInView {
            purpose: self.purpose,
            rounds_left: self.rounds_left,
            stage: self.stage,
            valid: valid_view(self.valid),
        }
    }
}

/// What came back.
#[derive(Debug)]
pub enum SignInEvent {
    Window { open: bool },
    /// None where the window could not be asked.
    Cookies(Option<TextMap<String>>),
    Validated(Result<ValidSession, ItzonError>),
    Paused,
}

/// What is to be done.
#[derive(Debug)]
pub enum SignInAction {
    LookForWindow,
    FetchOriginCookies,
    Validate { cookies: TextMap<String> },
    FetchChatCookies,
    Pause { millis: u64 },
    /// The sign-in is over, with or without a session.
    Finish { session: Option<ItzonSession> },
}

pub enum SignInActionView {
    LookForWindow,
    FetchOriginCookies,
    Validate { cookies: Map<Seq<char>, Seq<char>> },
    FetchChatCookies,
    Pause { millis: u64 },
    Finish { session: Option<WebSessionView> },
}

impl View for SignInAction {
    type V = SignInActionView;

    open spec fn view(&self) -> SignInActionView {
        match self {
            SignInAction::LookForWindow => SignInActionView::LookForWindow,
            SignInAction::FetchOriginCookies => SignInActionView::FetchOriginCookies,
            SignInAction::Validate { cookies } => SignInActionView::Validate { cookies: cookies@ },
            SignInAction::FetchChatCookies => SignInActionView::FetchChatCookies,
            SignInAction::Pause { millis } => SignInActionView::Pause { millis: *millis },
            SignInAction::Finish { session } => SignInActionView::Finish {
                session: account::session_view(*session),
            },
        }
    }
}

/// The session that a valid one and the cookies of chat make.
pub open spec fn assembled(
    valid: ValidSessionView,
    chat: Map<Seq<char>, Seq<char>>,
    now: u64,
) -> WebSessionView {
    WebSessionView {
        origin_cookies: valid.origin_cookies,
        chat_cookies: valid.chat_delta.applied(chat),
        username: valid.info.username,
        token: valid.info.token,
        validated_at: now,
    }
}

pub open spec fn is_empty_map(cookies: Map<Seq<char>, Seq<char>>) -> bool {
    cookies.dom() == Set::<Seq<char>>::empty()
}

impl SignInView {
    /// A sign-in before its first round.
    pub open spec fn start(purpose: SignInPurpose) -> SignInView {
        SignInView {
            purpose,
            rounds_left: purpose.rounds(),
            stage: SignInStage::Pause,
            valid: None,
        }
    }

    pub open spec fn over(self, session: Option<WebSessionView>) -> (SignInView, SignInActionView) {
        (
            SignInView { stage: SignInStage::Done, valid: None, ..self },
            SignInActionView::Finish { session },
        )
    }

    /// The next round, if there is one.
    pub open spec fn next_round(self) -> (SignInView, SignInActionView) {
        if self.rounds_left == 0 {
            self.over(None)
        } else {
            let left = (self.rounds_left - 1) as u32;
            match self.purpose {
                SignInPurpose::Login => (
                    SignInView {
                        rounds_left: left,
                        stage: SignInStage::Window,
                        valid: None,
                        ..self
                    },
                    SignInActionView::LookForWindow,
                ),
                SignInPurpose::Restore => (
                    SignInView {
                        rounds_left: left,
                        stage: SignInStage::OriginCookies,
                        valid: None,
                        ..self
                    },
                    SignInActionView::FetchOriginCookies,
                ),
            }
        }
    }

    /// The end of a round that found no session.
    pub open spec fn rest(self) -> (SignInView, SignInActionView) {
        (
            SignInView { stage: SignInStage::Pause, valid: None, ..self },
            SignInActionView::Pause { millis: self.purpose.pause() },
        )
    }

    /// What an event does: the state after it, and what is to be done then.
    pub open spec fn after(self, event: SignInEvent, now: u64) -> (SignInView, SignInActionView) {
        match (self.stage, event) {
            (SignInStage::Window, SignInEvent::Window { open }) => if open {
                (
                    SignInView { stage: SignInStage::OriginCookies, ..self },
                    SignInActionView::FetchOriginCookies,
                )
            } else {
                self.over(None)
            },
            (SignInStage::OriginCookies, SignInEvent::Cookies(found)) => match found {
                Some(cookies) => if is_empty_map(cookies@) {
                    self.rest()
                } else {
                    (
                        SignInView { stage: SignInStage::Validation, ..self },
                        SignInActionView::Validate { cookies: cookies@ },
                    )
                },
                None => self.rest(),
            },
            (SignInStage::Validation, SignInEvent::Validated(answer)) => match answer {
                Ok(valid) => (
                    SignInView {
                        stage: SignInStage::ChatCookies,
                        valid: Some(valid@),
                        ..self
                    },
                    SignInActionView::FetchChatCookies,
                ),
                Err(_) => self.rest(),
            },
            (SignInStage::ChatCookies, SignInEvent::Cookies(found)) => match self.valid {
                Some(valid) => {
                    let chat = match found {
                        Some(cookies) => cookies@,
                        None => Map::empty(),
                    };
                    let session = assembled(valid, chat, now);
                    if is_empty_map(session.chat_cookies) {
                        self.rest()
                    } else {
                        self.over(Some(session))
                    }
                },
                None => self.rest(),
            },
            (SignInStage::Pause, SignInEvent::Paused) => self.next_round(),
            _ => self.over(None),
        }
    }
}

fn has_none(cookies: &TextMap<String>) -> (r: bool)
    ensures
        r == is_empty_map(cookies@),
{
    let count = cookies.len();
    proof {
        let names = cookies.names();
        if count == 0 {
            assert(names.to_set() =~= Set::empty());
        } else {
            assert(names.to_set().contains(names[0]));
        }
    }
    count == 0
}

impl SignIn {
    /// A sign-in before its first round.
    pub fn start(purpose: SignInPurpose) -> (r: SignIn)
        ensures
            r@ == SignInView::start(purpose),
    {
        let rounds_left: u32 = match purpose {
            SignInPurpose::Login => 200,
            SignInPurpose::Restore => 24,
        };
        SignIn { purpose, rounds_left, stage: SignInStage::Pause, valid: None }
    }

    fn give_up(&mut self) -> (r: SignInAction)
        ensures
            (final(self)@, r@) == old(self)@.over(None),
    {
        self.stage = SignInStage::Done;
        self.valid = None;
        SignInAction::Finish { session: None }
    }

    fn take_rest(&mut self) -> (r: SignInAction)
        ensures
            (final(self)@, r@) == old(self)@.rest(),
    {
        self.stage = SignInStage::Pause;
        self.valid = None;
        let millis: u64 = match self.purpose {
            SignInPurpose::Login => 1500,
            SignInPurpose::Restore => 250,
        };
        SignInAction::Pause { millis }
    }

    fn begin_round(&mut self) -> (r: SignInAction)
        ensures
            (final(self)@, r@) == old(self)@.next_round(),
    {
        if self.rounds_left == 0 {
            return self.give_up();
        }
        self.rounds_left = self.rounds_left - 1;
        self.valid = None;
        match self.purpose {
            SignInPurpose::Login => {
                self.stage = SignInStage::Window;
                SignInAction::LookForWindow
            },
            SignInPurpose::Restore => {
                self.stage = SignInStage::OriginCookies;
                SignInAction::FetchOriginCookies
            },
        }
    }

    fn take_chat_cookies(&mut self, found: Option<TextMap<String>>, now: u64) -> (r: SignInAction)
        requires
            old(self)@.stage is ChatCookies,
        ensures
            (final(self)@, r@) == old(self)@.after(SignInEvent::Cookies(found), now),
    {
        let mut held: Option<ValidSession> = None;
        std::mem::swap(&mut self.valid, &mut held);
        match held {
            Some(valid) => {
                let mut chat_cookies: TextMap<String> = match found {
                    Some(cookies) => cookies,
                    None => TextMap::new(),
                };
                cookies::apply_delta(&mut chat_cookies, &valid.chat_delta);
                if has_none(&chat_cookies) {
                    self.take_rest()
                } else {
                    let session = ItzonSession {
                        origin_cookies: valid.origin_cookies,
                        chat_cookies,
                        username: valid.info.username,
                        token: valid.info.token,
                        validated_at: now,
                    };
                    self.stage = SignInStage::Done;
                    SignInAction::Finish { session: Some(session) }
                }
            },
            None => self.take_rest(),
        }
    }

    /// Takes what came back, and says what is to be done next. The end of a pause begins the first
    /// round too.
    pub fn advance(&mut self, event: SignInEvent, now: u64) -> (r: SignInAction)
        ensures
            (final(self)@, r@) == old(self)@.after(event, now),
    {
        match (self.stage, event) {
            (SignInStage::Window, SignInEvent::Window { open }) => {
                if open {
                    self.stage = SignInStage::OriginCookies;
                    SignInAction::FetchOriginCookies
                } else {
                    self.give_up()
                }
            },
            (SignInStage::OriginCookies, SignInEvent::Cookies(found)) => match found {
                Some(cookies) => {
                    if has_none(&cookies) {
                        self.take_rest()
                    } else {
                        self.stage = SignInStage::Validation;
                        SignInAction::Validate { cookies }
                    }
                },
                None => self.take_rest(),
            },
            (SignInStage::Validation, SignInEvent::Validated(answer)) => match answer {
                Ok(valid) => {
                    self.stage = SignInStage::ChatCookies;
                    self.valid = Some(valid);
                    SignInAction::FetchChatCookies
                },
                Err(_) => self.take_rest(),
            },
            (SignInStage::ChatCookies, SignInEvent::Cookies(found)) => self.take_chat_cookies(
                found,
                now,
            ),
            (SignInStage::Pause, SignInEvent::Paused) => self.begin_round(),
            _ => self.give_up(),
        }
    }
}

/// How many steps a stage is from the next pause.
pub open spec fn steps_to_pause(stage: SignInStage) -> int {
    match stage {
        SignInStage::Window => 4,
        SignInStage::OriginCookies => 3,
        SignInStage::Validation => 2,
        SignInStage::ChatCookies => 1,
        SignInStage::Pause => 0,
        SignInStage::Done => 0,
    }
}

/// How many steps a sign-in takes at most.
pub open spec fn steps_left(state: SignInView) -> int {
    if state.stage is Done {
        0
    } else {
        state.rounds_left * 5 + steps_to_pause(state.stage) + 1
    }
}

/// A sign-in comes to an end: with every step fewer are left.
pub proof fn a_sign_in_ends(state: SignInView, event: SignInEvent, now: u64)
    requires
        !(state.stage is Done),
    ensures
        0 <= steps_left(state.after(event, now).0) < steps_left(state),
{
}

/// A sign-in ends with a session only where the website called it valid and chat has cookies for it;
/// the session is that of the account that the website told.
pub proof fn a_sign_in_needs_a_valid_session(state: SignInView, event: SignInEvent, now: u64)
    ensures
        state.after(event, now).1 matches SignInActionView::Finish { session: Some(session) } ==> {
            &&& state.stage is ChatCookies
            &&& state.valid matches Some(valid) && session.username == valid.info.username
                && session.token == valid.info.token && session.origin_cookies
                == valid.origin_cookies
            &&& !is_empty_map(session.chat_cookies)
            &&& session.validated_at == now
        },
{
}

/// Takes the end of a sign-in of the user.
pub fn connect_cookie(account: &mut Account, session: Option<ItzonSession>) -> (r: Result<
    (),
    ItzonError,
>)
    ensures
        match account::session_view(session) {
            Some(session) => r is Ok && final(account)@ == old(account)@.with_session(
                Some(session),
            ),
            None => r == Err::<(), ItzonError>(ItzonError::SignInIncomplete) && final(account)@
                == old(account)@,
        },
{
    match session {
        Some(session) => {
            account.begin_session(session);
            Ok(())
        },
        None => Err(ItzonError::SignInIncomplete),
    }
}

/// Whether a session is to be brought back at all: not where the account is signed in.
pub fn needs_restore(account: &Account) -> (r: bool)
    ensures
        r == !auth::connected(account@),
{
    !auth::is_connected(account)
}

/// Takes the end of bringing a session back. Says whether there is one then.
pub fn restore_cookie(account: &mut Account, session: Option<ItzonSession>) -> (r: bool)
    ensures
        match account::session_view(session) {
            Some(session) => r && final(account)@ == old(account)@.with_session(Some(session)),
            None => !r && final(account)@ == old(account)@,
        },
{
    match session {
        Some(session) => {
            account.begin_session(session);
            true
        },
        None => false,
    }
}

/// How the website is told that a session is over.
#[derive(Debug)]
pub struct Logout {
    pub token: String,
    pub cookie_header: String,
}

/// Ends the session of the website. Where it has a token, the website is to be told.
pub fn disconnect_cookie(account: &mut Account) -> (r: Option<Logout>)
    ensures
        match old(account)@.session {
            Some(session) => {
                &&& final(account)@ == old(account)@.with_session(None)
                &&& session.token.len() > 0 ==> (r matches Some(logout) && logout.token@
                    == session.token && logout.cookie_header@ == cookies::header_of(
                    session.origin_cookies,
                ))
                &&& session.token.len() == 0 ==> r is None
            },
            None => r is None && final(account)@ == old(account)@,
        },
{
    match account.end_session() {
        Some(session) => {
            if session.token.as_str().is_empty() {
                None
            } else {
                let cookie_header = cookies::cookie_header(&session.origin_cookies);
                Some(Logout { token: session.token, cookie_header })
            }
        },
        None => None,
    }
}

/// A sign-in of the user looks for the window before each look into it; both kinds of sign-in take
/// the cookies of the website, have them checked, and then take those of chat. What fails is tried
/// again after a pause, so often and so long as its kind says; a window that is closed ends it.
pub proof fn a_sign_in_goes_step_by_step(
    state: SignInView,
    cookies: TextMap<String>,
    valid: ValidSession,
    error: ItzonError,
    now: u64,
)
    ensures
        SignInView::start(SignInPurpose::Login).rounds_left == 200,
        SignInView::start(SignInPurpose::Restore).rounds_left == 24,
        SignInView::start(state.purpose).stage is Pause,
        state.stage is Pause && state.rounds_left > 0 ==> {
            let (next, action) = state.after(SignInEvent::Paused, now);
            &&& next.rounds_left == state.rounds_left - 1
            &&& state.purpose is Login ==> action is LookForWindow && next.stage is Window
            &&& state.purpose is Restore ==> action is FetchOriginCookies
                && next.stage is OriginCookies
        },
        state.stage is Pause && state.rounds_left == 0 ==> state.after(SignInEvent::Paused, now).1
            == (SignInActionView::Finish { session: None }),
        state.stage is Window ==> state.after(
            SignInEvent::Window { open: true },
            now,
        ).1 is FetchOriginCookies && state.after(SignInEvent::Window { open: false }, now).1 == (
        SignInActionView::Finish { session: None }),
        state.stage is OriginCookies ==> {
            let (next, action) = state.after(SignInEvent::Cookies(Some(cookies)), now);
            &&& has_any(cookies@) ==> action == (
            SignInActionView::Validate { cookies: cookies@ }) && next.stage is Validation
            &&& !has_any(cookies@) ==> rests(
                state,
                next,
                action,
            )
        },
        state.stage is OriginCookies ==> {
            let (next, action) = state.after(SignInEvent::Cookies(None), now);
            rests(state, next, action)
        },
        state.stage is Validation ==> {
            let (next, action) = state.after(SignInEvent::Validated(Ok(valid)), now);
            action is FetchChatCookies && next.stage is ChatCookies && next.valid == Some(valid@)
                && next.rounds_left == state.rounds_left
        },
        state.stage is Validation ==> {
            let (next, action) = state.after(SignInEvent::Validated(Err(error)), now);
            rests(state, next, action)
        },
{
    if has_any(cookies@) {
        let name = choose|name: Seq<char>| #[trigger] cookies@.contains_key(name);
        assert(cookies@.dom().contains(name));
    } else {
        assert(cookies@.dom() =~= Set::empty());
    }
}

/// Whether a round ended without a session: the sign-in pauses, a quarter of a second where a
/// session is brought back, and a second and a half where the user signs in.
pub open spec fn rests(state: SignInView, next: SignInView, action: SignInActionView) -> bool {
    &&& next.stage is Pause
    &&& next.valid is None
    &&& next.rounds_left == state.rounds_left
    &&& next.purpose == state.purpose
    &&& action == (SignInActionView::Pause {
        millis: if state.purpose is Restore {
            250
        } else {
            1500
        },
    })
}

/// A sign-in that has come to the cookies of chat ends with the session: that of the website, with
/// the cookies of chat as the answer of the website changed them. Without any it goes on.
pub proof fn a_sign_in_ends_with_the_cookies_of_chat(
    state: SignInView,
    valid: ValidSessionView,
    chat: Option<TextMap<String>>,
    now: u64,
)
    requires
        state.stage is ChatCookies,
        state.valid == Some(valid),
    ensures
        ({
            let kept = valid.chat_delta.applied(found_cookies(chat));
            let (next, action) = state.after(SignInEvent::Cookies(chat), now);
            &&& has_any(kept) ==> next.stage is Done && action == (SignInActionView::Finish {
                session: Some(
                    WebSessionView {
                        origin_cookies: valid.origin_cookies,
                        chat_cookies: kept,
                        username: valid.info.username,
                        token: valid.info.token,
                        validated_at: now,
                    },
                ),
            })
            &&& !has_any(kept) ==> rests(state, next, action)
        }),
{
    let kept = valid.chat_delta.applied(found_cookies(chat));
    if has_any(kept) {
        let name = choose|name: Seq<char>| #[trigger] kept.contains_key(name);
        assert(kept.dom().contains(name));
    } else {
        assert(kept.dom() =~= Set::empty());
    }
}

/// The cookies that were found; none where none could be asked for.
pub open spec fn found_cookies(chat: Option<TextMap<String>>) -> Map<Seq<char>, Seq<char>> {
    match chat {
        Some(cookies) => cookies@,
        None => Map::empty(),
    }
}

/// Whether there is a cookie.
pub open spec fn has_any(cookies: Map<Seq<char>, Seq<char>>) -> bool {
    exists|name: Seq<char>| #[trigger] cookies.contains_key(name)
}

} // verus!
