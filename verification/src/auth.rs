//! The account of the service: whether it is there, how chat signs in with it, the session of the
//! website, and the channels that the account follows.
use crate::account::Account;
use crate::account::AccountView;
use crate::account::ItzonSession;
use crate::account::WebSessionView;
use crate::cookies;
use crate::cookies::CookieDelta;
use crate::cookies::DeltaView;
use crate::error::ItzonError;
use crate::letters;
use crate::oauth;
use crate::oauth::ChatCredential;
use crate::oauth::CredentialView;
use crate::sending;
use crate::text;
use crate::text_map;
use crate::text_map::TextMap;
use vstd::prelude::*;
use vstd::string::*;

verus! {

/// How long a session counts as valid after it was asked for, in milliseconds.
pub const VALIDATION_TTL_MILLIS: u64 = 240_000;

/// What a connection to chat signs in with.
#[derive(Debug)]
pub struct ChatAuth {
    pub cookie_header: Option<String>,
    pub pass: Option<String>,
    pub nick: Option<String>,
}

pub struct ChatAuthView {
    pub cookie_header: Option<Seq<char>>,
    pub pass: Option<Seq<char>>,
    pub nick: Option<Seq<char>>,
}

impl View for ChatAuth {
    type V = ChatAuthView;

    open spec fn view(&self) -> ChatAuthView {
        ChatAuthView {
            cookie_header: self.cookie_header.deep_view(),
            pass: self.pass.deep_view(),
            nick: self.nick.deep_view(),
        }
    }
}

/// A number that changes whenever the account does.
pub fn revision(account: &Account) -> (r: u64)
    ensures
        r == account@.revision,
{
    account.revision()
}

pub fn oauth_configured(built_with: Option<&str>) -> (r: bool)
    ensures
        r == (oauth::client_id_of(built_with.deep_view()) is Some),
{
    oauth::is_configured(built_with)
}

/// How the account is signed in, or could be.
pub open spec fn method_of(account: AccountView, configured: bool) -> Seq<char> {
    if account.token is Some {
        "oauth"@
    } else if account.session is Some {
        "website-session"@
    } else if configured {
        "oauth-ready"@
    } else {
        "registration-pending"@
    }
}

pub fn auth_method(account: &Account, built_with: Option<&str>) -> (r: &'static str)
    ensures
        r@ == method_of(account@, oauth::client_id_of(built_with.deep_view()) is Some),
{
    if oauth::has_account(account) {
        "oauth"
    } else if account.session().is_some() {
        "website-session"
    } else if oauth_configured(built_with) {
        "oauth-ready"
    } else {
        "registration-pending"
    }
}

pub open spec fn connected(account: AccountView) -> bool {
    account.token is Some || account.session is Some
}

pub fn is_connected(account: &Account) -> (r: bool)
    ensures
        r == connected(account@),
{
    oauth::has_account(account) || account.session().is_some()
}

/// The name of the account: that of the token, or else that of the session.
pub open spec fn name_of(account: AccountView) -> Option<Seq<char>> {
    match account.token {
        Some(token) => Some(token.username),
        None => match account.session {
            Some(session) => Some(session.username),
            None => None,
        },
    }
}

pub fn account_name(account: &Account) -> (r: Option<String>)
    ensures
        r.deep_view() == name_of(account@),
{
    match oauth::account_name(account) {
        Some(name) => Some(name),
        None => match account.session() {
            Some(session) => Some(session.username.clone()),
            None => None,
        },
    }
}

/// The cookies that are sent to chat; none where there are none to send.
pub open spec fn chat_header(account: AccountView) -> Option<Seq<char>> {
    match account.session {
        Some(session) => if cookies::header_of(session.chat_cookies).len() > 0 {
            Some(cookies::header_of(session.chat_cookies))
        } else {
            None
        },
        None => None,
    }
}

pub fn chat_cookie_header(account: &Account) -> (r: Option<String>)
    ensures
        r.deep_view() == chat_header(account@),
{
    match account.session() {
        Some(session) => {
            let header = cookies::cookie_header(&session.chat_cookies);
            if header.as_str().is_empty() {
                None
            } else {
                Some(header)
            }
        },
        None => None,
    }
}

/// What chat signs in with.
pub open spec fn signs_in_with(
    account: AccountView,
    credential: Option<CredentialView>,
    cookie_valid: bool,
) -> ChatAuthView {
    match credential {
        Some(credential) => ChatAuthView {
            cookie_header: None,
            pass: Some(credential.access_token),
            nick: Some(credential.username),
        },
        None => ChatAuthView {
            cookie_header: if cookie_valid {
                chat_header(account)
            } else {
                None
            },
            pass: None,
            nick: None,
        },
    }
}

pub open spec fn credential_view(credential: Option<ChatCredential>) -> Option<CredentialView> {
    match credential {
        Some(credential) => Some(credential@),
        None => None,
    }
}

/// What chat signs in with: the token if there is one, or else the cookies of a valid session.
pub fn chat_auth(account: &Account, credential: Option<ChatCredential>, cookie_valid: bool) -> (r:
    ChatAuth)
    ensures
        r@ == (match credential {
            Some(credential) => ChatAuthView {
                cookie_header: None,
                pass: Some(credential@.access_token),
                nick: Some(credential@.username),
            },
            None => ChatAuthView {
                cookie_header: if cookie_valid {
                    chat_header(account@)
                } else {
                    None
                },
                pass: None,
                nick: None,
            },
        }),
        r@ == signs_in_with(account@, credential_view(credential), cookie_valid),
{
    match credential {
        Some(credential) => ChatAuth {
            cookie_header: None,
            pass: Some(credential.access_token),
            nick: Some(credential.username),
        },
        None => {
            let cookie_header: Option<String> = if cookie_valid {
                chat_cookie_header(account)
            } else {
                None
            };
            ChatAuth { cookie_header, pass: None, nick: None }
        },
    }
}

/// What the website tells of a session.
#[derive(Debug)]
pub struct SessionInfo {
    pub kind: String,
    pub username: String,
    pub token: String,
}

pub struct SessionInfoView {
    pub kind: Seq<char>,
    pub username: Seq<char>,
    pub token: Seq<char>,
}

impl View for SessionInfo {
    type V = SessionInfoView;

    open spec fn view(&self) -> SessionInfoView {
        SessionInfoView { kind: self.kind@, username: self.username@, token: self.token@ }
    }
}

/// The answer of the website to the question whether a session is valid.
#[derive(Debug)]
pub enum SessionAnswer {
    /// There was none.
    Failed,
    /// It says no, with this status.
    Rejected { status: String },
    /// It says something, and sets cookies; nothing where it cannot be read.
    Told { set_cookies: Vec<String>, info: Option<SessionInfo> },
}

/// A session that the website calls valid.
#[derive(Debug)]
pub struct ValidSession {
    pub info: SessionInfo,
    pub origin_cookies: TextMap<String>,
    pub chat_delta: CookieDelta,
}

pub struct ValidSessionView {
    pub info: SessionInfoView,
    pub origin_cookies: Map<Seq<char>, Seq<char>>,
    pub chat_delta: DeltaView,
}

impl View for ValidSession {
    type V = ValidSessionView;

    open spec fn view(&self) -> ValidSessionView {
        ValidSessionView {
            info: self.info@,
            origin_cookies: self.origin_cookies@,
            chat_delta: self.chat_delta@,
        }
    }
}

/// Whether the website tells of the account of a user.
pub open spec fn is_user(info: SessionInfoView) -> bool {
    (info.kind == "user"@ || info.kind == "admin"@) && text::trimmed(info.username).len() > 0
}

/// The session that the website calls valid, or why it does not.
pub open spec fn validated(
    cookies: Map<Seq<char>, Seq<char>>,
    answer: SessionAnswer,
) -> Result<ValidSessionView, Seq<char>> {
    match answer {
        SessionAnswer::Failed => Err(ItzonError::SessionCheckFailed.text()),
        SessionAnswer::Rejected { status } => Err("itzon session returned HTTP "@ + status@),
        SessionAnswer::Told { set_cookies, info } => match info {
            None => Err(ItzonError::InvalidSessionResponse.text()),
            Some(info) => if is_user(info@) {
                let merged = cookies::merged(cookies, set_cookies.deep_view());
                Ok(
                    ValidSessionView {
                        info: info@,
                        origin_cookies: merged.origin,
                        chat_delta: merged.delta,
                    },
                )
            } else {
                Err(ItzonError::NoUserAccount.text())
            },
        },
    }
}

pub fn validate_session(cookies: TextMap<String>, answer: SessionAnswer) -> (r: Result<
    ValidSession,
    ItzonError,
>)
    ensures
        match r {
            Ok(session) => validated(cookies@, answer) == Ok::<ValidSessionView, Seq<char>>(
                session@,
            ),
            Err(error) => validated(cookies@, answer) == Err::<ValidSessionView, Seq<char>>(
                error.text(),
            ),
        },
{
    match answer {
        SessionAnswer::Failed => Err(ItzonError::SessionCheckFailed),
        SessionAnswer::Rejected { status } => Err(ItzonError::SessionRejected(status)),
        SessionAnswer::Told { set_cookies, info } => {
            let mut origin_cookies = cookies;
            let ghost before = origin_cookies@;
            let chat_delta = cookies::merge_response_cookies(&set_cookies, &mut origin_cookies);
            proof {
                let merged = cookies::merged(before, set_cookies.deep_view());
                assert(merged.origin == origin_cookies@);
                assert(merged.delta == chat_delta@);
            }
            match info {
                None => Err(ItzonError::InvalidSessionResponse),
                Some(info) => {
                    let kind = info.kind.as_str();
                    if !(text::same_text(kind, "user") || text::same_text(kind, "admin"))
                        || text::trim(info.username.as_str()).is_empty() {
                        return Err(ItzonError::NoUserAccount);
                    }
                    Ok(ValidSession { info, origin_cookies, chat_delta })
                },
            }
        },
    }
}

/// What is to be done to know whether the session of the website is valid.
#[derive(Debug)]
pub enum CookieStep {
    /// There is none.
    Missing,
    /// It was found valid not long ago.
    Valid,
    /// The website is to be asked, with the cookies; the account had the revision then.
    Ask { cookies: TextMap<String>, revision: u64 },
}

pub open spec fn is_cookie_step(step: CookieStep, account: AccountView, now: u64) -> bool {
    match account.session {
        None => step is Missing,
        Some(session) => if now - session.validated_at < VALIDATION_TTL_MILLIS {
            step is Valid
        } else {
            step matches CookieStep::Ask { cookies, revision } && cookies@
                == session.origin_cookies && revision == account.revision
        },
    }
}

/// What is to be done to know whether the session of the website is valid now.
pub fn check_cookies(account: &Account, now: u64) -> (r: CookieStep)
    ensures
        is_cookie_step(r, account@, now),
{
    match account.session() {
        None => CookieStep::Missing,
        Some(session) => {
            if now < session.validated_at || now - session.validated_at < VALIDATION_TTL_MILLIS {
                CookieStep::Valid
            } else {
                CookieStep::Ask {
                    cookies: session.origin_cookies.copy(),
                    revision: account.revision(),
                }
            }
        },
    }
}

/// Forgets the session if the account is still the one with the revision. Says whether it did.
pub fn clear_memory_session_if_revision(account: &mut Account, expected_revision: u64) -> (r: bool)
    ensures
        r == (old(account)@.revision == expected_revision && old(account)@.session is Some),
        final(account)@ == (if r {
            old(account)@.with_session(None)
        } else {
            old(account)@
        }),
{
    if account.revision() != expected_revision {
        return false;
    }
    account.end_session().is_some()
}

/// The session after the website called it valid again.
pub open spec fn revalidated(
    session: WebSessionView,
    valid: ValidSessionView,
    now: u64,
) -> WebSessionView {
    WebSessionView {
        username: valid.info.username,
        token: valid.info.token,
        origin_cookies: valid.origin_cookies,
        chat_cookies: valid.chat_delta.applied(session.chat_cookies),
        validated_at: now,
    }
}

/// The account after the answer of the website, and whether a session is valid then. Where the
/// account changed meanwhile, the answer is about another session and changes nothing.
pub open spec fn after_answer(
    account: AccountView,
    asked_revision: u64,
    answer: Result<ValidSessionView, Seq<char>>,
    now: u64,
) -> (AccountView, bool) {
    match answer {
        Ok(valid) => if account.revision != asked_revision {
            (account, account.session is Some)
        } else {
            match account.session {
                Some(session) => (
                    AccountView {
                        session: Some(revalidated(session, valid, now)),
                        ..account
                    },
                    true,
                ),
                None => (account, false),
            }
        },
        Err(_) => if account.revision == asked_revision && account.session is Some {
            (account.with_session(None), false)
        } else {
            (account, connected(account))
        },
    }
}

pub open spec fn answer_view(answer: Result<ValidSession, ItzonError>) -> Result<
    ValidSessionView,
    Seq<char>,
> {
    match answer {
        Ok(valid) => Ok(valid@),
        Err(error) => Err(error.text()),
    }
}

/// Takes the answer of the website. Says whether a session is valid then.
pub fn ensure_cookie_valid(
    account: &mut Account,
    asked_revision: u64,
    answer: Result<ValidSession, ItzonError>,
    now: u64,
) -> (r: bool)
    ensures
        (final(account)@, r) == after_answer(
            old(account)@,
            asked_revision,
            answer_view(answer),
            now,
        ),
{
    match answer {
        Ok(valid) => {
            if account.revision() != asked_revision {
                return account.session().is_some();
            }
            match account.swap_session(None) {
                Some(session) => {
                    let mut chat_cookies = session.chat_cookies;
                    cookies::apply_delta(&mut chat_cookies, &valid.chat_delta);
                    let renewed = ItzonSession {
                        origin_cookies: valid.origin_cookies,
                        chat_cookies,
                        username: valid.info.username,
                        token: valid.info.token,
                        validated_at: now,
                    };
                    let _ = account.swap_session(Some(renewed));
                    true
                },
                None => false,
            }
        },
        Err(_) => {
            if clear_memory_session_if_revision(account, asked_revision) {
                false
            } else {
                is_connected(account)
            }
        },
    }
}

/// An answer about a session that was exchanged meanwhile neither ends nor changes the one in its
/// place.
pub proof fn a_stale_answer_changes_nothing(
    account: AccountView,
    asked_revision: u64,
    answer: Result<ValidSessionView, Seq<char>>,
    now: u64,
    session: WebSessionView,
)
    requires
        account.revision == asked_revision,
    ensures
        ({
            let replaced = account.with_session(Some(session));
            &&& after_answer(replaced, asked_revision, answer, now) == (replaced, true)
        }),
{
}

/// A session that the website does not call valid ends, and with it what was signed in by it.
pub proof fn an_expired_session_ends(
    account: AccountView,
    reason: Seq<char>,
    now: u64,
)
    requires
        account.session is Some,
    ensures
        ({
            let (after, valid) = after_answer(
                account,
                account.revision,
                Err::<ValidSessionView, Seq<char>>(reason),
                now,
            );
            &&& !valid
            &&& after.session is None
            &&& after.token == account.token
            &&& after.revision != account.revision
        }),
{
}

/// Whether a name can be that of a channel that is followed.
pub open spec fn followable(name: Seq<char>) -> Option<Seq<char>> {
    let normal = letters::lowercase(text::trimmed(name));
    if oauth::is_username(normal) {
        Some(normal)
    } else {
        None
    }
}

/// The names of channels in order, each once: those of the list that can be such names.
pub open spec fn is_following(list: Seq<Seq<char>>, names: Seq<Seq<char>>) -> bool {
    &&& text_map::in_order(list)
    &&& forall|name: Seq<char>| #[trigger]
        list.contains(name) <==> exists|i: int|
            0 <= i < names.len() && followable(#[trigger] names[i]) == Some(name)
}

pub fn normalize_following(usernames: Vec<String>) -> (r: Vec<String>)
    ensures
        is_following(r.deep_view(), usernames.deep_view()),
        // Taken once more, the names stay what they are.
        is_following(r.deep_view(), r.deep_view()),
{
    let ghost all = usernames.deep_view();
    let mut found: TextMap<()> = TextMap::new();
    let mut i: usize = 0;
    while i < usernames.len()
        invariant
            all == usernames.deep_view(),
            i <= usernames.len(),
            forall|name: Seq<char>| #[trigger]
                found@.contains_key(name) <==> exists|k: int|
                    0 <= k < i && followable(#[trigger] all[k]) == Some(name),
            forall|name: Seq<char>| #[trigger]
                found@.contains_key(name) ==> followable(name) == Some(name),
        decreases usernames.len() - i,
    {
        let ghost before = found@;
        assert(all[i as int] == usernames@[i as int]@);
        let name = letters::to_lowercase(text::trim(usernames[i].as_str()));
        let ghost added = name@;
        let valid = oauth::valid_username(name.as_str());
        if valid {
            proof {
                sending::lemma_slug_fixed(added);
            }
            found.insert(name, ());
        }
        proof {
            assert forall|name: Seq<char>| #[trigger]
                found@.contains_key(name) <==> exists|k: int|
                    0 <= k < i + 1 && followable(#[trigger] all[k]) == Some(name) by {
                if before.contains_key(name) {
                    let k = choose|k: int| 0 <= k < i && followable(#[trigger] all[k]) == Some(name);
                    assert(followable(all[k]) == Some(name));
                }
                if found@.contains_key(name) && !before.contains_key(name) {
                    assert(followable(all[i as int]) == Some(name));
                }
                if exists|k: int| 0 <= k < i + 1 && followable(#[trigger] all[k]) == Some(name) {
                    let k = choose|k: int|
                        0 <= k < i + 1 && followable(#[trigger] all[k]) == Some(name);
                    if k < i {
                        assert(before.contains_key(name));
                    }
                }
            }
        }
        i = i + 1;
    }
    let count = found.len();
    let ghost names = found.names();
    let mut list: Vec<String> = Vec::new();
    let mut j: usize = 0;
    while j < count
        invariant
            names == found.names(),
            count == names.len(),
            j <= count,
            list.deep_view() == names.take(j as int),
        decreases count - j,
    {
        let ghost before = list.deep_view();
        list.push(found.key_at(j).to_string());
        assert(list.deep_view() =~= before.push(names[j as int]));
        assert(names.take(j + 1) =~= names.take(j as int).push(names[j as int]));
        j = j + 1;
    }
    proof {
        assert(names.take(j as int) =~= names);
        assert forall|name: Seq<char>| #[trigger]
            names.contains(name) <==> exists|k: int|
                0 <= k < all.len() && followable(#[trigger] all[k]) == Some(name) by {
            assert(names.to_set().contains(name) <==> found@.dom().contains(name));
            assert(found@.contains_key(name) <==> found@.dom().contains(name));
        }
        assert forall|i: int| 0 <= i < names.len() implies followable(#[trigger] names[i]) == Some(
            names[i],
        ) by {
            assert(names.to_set().contains(names[i]));
            assert(found@.contains_key(names[i]));
        }
        lemma_normal_names(names);
    }
    list
}

/// A list in order of names in their normal form is the list of those names.
proof fn lemma_normal_names(list: Seq<Seq<char>>)
    requires
        text_map::in_order(list),
        forall|i: int| 0 <= i < list.len() ==> followable(#[trigger] list[i]) == Some(list[i]),
    ensures
        is_following(list, list),
{
    assert forall|name: Seq<char>| #[trigger]
        list.contains(name) <==> exists|i: int|
            0 <= i < list.len() && followable(#[trigger] list[i]) == Some(name) by {
        if list.contains(name) {
            let i = choose|i: int| 0 <= i < list.len() && list[i] == name;
            assert(followable(list[i]) == Some(name));
        }
    }
}

/// To take the names of a list once more changes nothing, where the names were told in ASCII. (The
/// list that `normalize_following` gives is such a list for names of any kind.)
pub proof fn following_is_normalized_once(
    list: Seq<Seq<char>>,
    again: Seq<Seq<char>>,
    names: Seq<Seq<char>>,
)
    requires
        is_following(list, names),
        is_following(again, list),
        forall|i: int| 0 <= i < names.len() ==> vstd::utf8::is_ascii_chars(#[trigger] names[i]),
    ensures
        again == list,
{
    assert forall|i: int| 0 <= i < list.len() implies followable(#[trigger] list[i]) == Some(
        list[i],
    ) by {
        assert(list.contains(list[i]));
        let k = choose|k: int| 0 <= k < names.len() && followable(#[trigger] names[k]) == Some(list[i]);
        let inner = text::trimmed(names[k]);
        text::lemma_trimmed_within(names[k]);
        assert forall|j: int| 0 <= j < inner.len() implies '\0' <= #[trigger] inner[j] <= '\u{7f}' by {
            assert(names[k].contains(inner[j]));
            let m = choose|m: int| 0 <= m < names[k].len() && names[k][m] == inner[j];
            assert(names[k][m] <= '\u{7f}');
        }
        assert(list[i] == letters::ascii_lowercase(inner));
        sending::lemma_slug_fixed(list[i]);
    }
    lemma_normal_names(list);
    following_is_determined(again, list, list, list);
}

/// The list of channels is the same for every order of the names and however often each is told.
pub proof fn following_is_determined(
    list: Seq<Seq<char>>,
    other: Seq<Seq<char>>,
    names: Seq<Seq<char>>,
    same: Seq<Seq<char>>,
)
    requires
        is_following(list, names),
        is_following(other, same),
        names.to_set() == same.to_set(),
    ensures
        list == other,
{
    assert forall|name: Seq<char>| list.to_set().contains(name) <==> other.to_set().contains(
        name,
    ) by {
        if list.contains(name) {
            let i = choose|i: int| 0 <= i < names.len() && followable(#[trigger] names[i]) == Some(name);
            assert(names.to_set().contains(names[i]));
            assert(same.to_set().contains(names[i]));
            let k = choose|k: int| 0 <= k < same.len() && same[k] == names[i];
            assert(followable(same[k]) == Some(name));
        }
        if other.contains(name) {
            let i = choose|i: int| 0 <= i < same.len() && followable(#[trigger] same[i]) == Some(name);
            assert(same.to_set().contains(same[i]));
            assert(names.to_set().contains(same[i]));
            let k = choose|k: int| 0 <= k < names.len() && names[k] == same[i];
            assert(followable(names[k]) == Some(name));
        }
    }
    assert(list.to_set() =~= other.to_set());
    text_map::lemma_order_unique(list, other);
}

/// The account is signed in by its token where it has one, and else by its session; its name is that
/// of what it is signed in by.
pub proof fn a_token_comes_before_a_session(account: AccountView, configured: bool)
    ensures
        account.token is Some ==> method_of(account, configured) == "oauth"@ && name_of(account)
            == Some(account.token->0.username) && connected(account),
        account.token is None && account.session is Some ==> method_of(account, configured)
            == "website-session"@ && name_of(account) == Some(account.session->0.username)
            && connected(account),
        account.token is None && account.session is None ==> name_of(account) is None && !connected(
            account,
        ) && method_of(account, configured) == (if configured {
            "oauth-ready"@
        } else {
            "registration-pending"@
        }),
{
}

/// Chat gets the cookies that are for chat, and never those of the website.
pub proof fn chat_gets_its_own_cookies(account: AccountView)
    ensures
        account.session is None ==> chat_header(account) is None,
        chat_header(account) matches Some(header) ==> account.session is Some && header.len() > 0
            && header == cookies::header_of(account.session->0.chat_cookies),
        account.session is Some && cookies::header_of(account.session->0.chat_cookies).len() > 0
            ==> chat_header(account) is Some,
{
}

/// A session is valid just where the website tells of a user or an admin with a name; then its
/// cookies are those after the answer.
pub proof fn only_users_have_sessions(
    cookies: Map<Seq<char>, Seq<char>>,
    set_cookies: Vec<String>,
    info: Option<SessionInfo>,
    status: String,
)
    ensures
        validated(cookies, SessionAnswer::Failed) is Err,
        validated(cookies, SessionAnswer::Rejected { status }) is Err,
        validated(cookies, SessionAnswer::Told { set_cookies, info }) is Ok <==> info is Some && (
        info->0@.kind == "user"@ || info->0@.kind == "admin"@) && !(forall|i: int|
            0 <= i < info->0@.username.len() ==> text::is_white_space(
                #[trigger] info->0@.username[i],
            )),
        validated(cookies, SessionAnswer::Told { set_cookies, info }) matches Ok(valid) ==> {
            let end = cookies::merged(cookies, set_cookies.deep_view());
            &&& valid.info == info->0@
            &&& valid.origin_cookies == end.origin
            &&& valid.chat_delta == end.delta
        },
{
    if info is Some {
        text::lemma_trimmed_blank(info->0@.username);
    }
}

/// A session counts as valid for four minutes after it was found so, and then the website is asked
/// with its cookies.
pub proof fn a_session_is_asked_for_again(step: CookieStep, account: AccountView, now: u64)
    requires
        is_cookie_step(step, account, now),
    ensures
        account.session is None <==> step is Missing,
        account.session is Some && now - account.session->0.validated_at < 240_000 ==> step is Valid,
        account.session is Some && now - account.session->0.validated_at >= 240_000 ==> (
        step matches CookieStep::Ask { cookies, revision } && cookies@
            == account.session->0.origin_cookies && revision == account.revision),
{
}

/// A session that the website calls valid again is that of the name and the token that it tells,
/// with the cookies after the answer, and found valid now; and all else stays.
pub proof fn a_valid_session_is_renewed(
    account: AccountView,
    session: WebSessionView,
    valid: ValidSessionView,
    now: u64,
)
    requires
        account.session == Some(session),
    ensures
        ({
            let (after, good) = after_answer(
                account,
                account.revision,
                Ok::<ValidSessionView, Seq<char>>(valid),
                now,
            );
            &&& good
            &&& after.token == account.token
            &&& after.revision == account.revision
            &&& after.session matches Some(renewed) && renewed.username == valid.info.username
                && renewed.token == valid.info.token && renewed.origin_cookies
                == valid.origin_cookies && renewed.validated_at == now && renewed.chat_cookies
                == valid.chat_delta.applied(session.chat_cookies)
        }),
{
}

/// A name can be followed just where it is, in lower case and without white space around it, one of
/// letters, digits, `_` and `-`, of sixty-four at most.
pub proof fn proper_names_are_followed(name: Seq<char>)
    ensures
        ({
            let normal = letters::lowercase(text::trimmed(name));
            &&& followable(name) is Some <==> crate::media::is_name(normal)
            &&& followable(name) matches Some(followed) ==> followed == normal
        }),
{
    crate::media::lemma_is_name(letters::lowercase(text::trimmed(name)));
}

/// A token signs in to chat alone, as the password, under the name of its account; the cookies do
/// only without one, and only where the session is valid.
pub proof fn a_token_signs_in_alone(
    account: AccountView,
    credential: Option<CredentialView>,
    cookie_valid: bool,
)
    ensures
        ({
            let auth = signs_in_with(account, credential, cookie_valid);
            &&& credential matches Some(held) ==> auth.pass == Some(held.access_token) && auth.nick
                == Some(held.username) && auth.cookie_header is None
            &&& credential is None ==> auth.pass is None && auth.nick is None
            &&& credential is None && !cookie_valid ==> auth.cookie_header is None
            &&& credential is None && cookie_valid ==> auth.cookie_header == chat_header(account)
        }),
{
}

} // verus!
