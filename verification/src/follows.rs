//! The channels that the account follows: asked for with the token, or else with the session of the
//! website.
use crate::account::Account;
use crate::account::AccountView;
use crate::account::ItzonSession;
use crate::account::WebSessionView;
use crate::auth;
use crate::cookies;
use crate::error::ItzonError;
use crate::oauth::ChatCredential;
use crate::text_map::TextMap;
use vstd::prelude::*;
use vstd::string::*;

verus! {

/// What is to be done next to know the channels that the account follows.
#[derive(Debug)]
pub enum FollowStep {
    /// The website is to be asked with the token.
    AskWithToken { access_token: String },
    /// A session of the website is to be brought back from before.
    RestoreSession,
    /// The session is to be checked, in place of a token that the website refused or without one.
    CheckSession { token_refused: bool },
    /// The website is to be asked with the cookies; the account had the revision then.
    AskWithCookies { cookies: TextMap<String>, header: String, revision: u64 },
    /// This is how it ends.
    Done(Result<Vec<String>, ItzonError>),
}

/// The answer of the website.
#[derive(Debug)]
pub enum FollowAnswer {
    /// There was none.
    Failed,
    /// It says no, with this status.
    Rejected { status: u16 },
    /// It tells the channels, and sets cookies; nothing where it cannot be read.
    Told { set_cookies: Vec<String>, following: Option<Vec<String>> },
}

/// Whether the step is the end, with no channels.
pub open spec fn ends_empty(step: FollowStep) -> bool {
    step matches FollowStep::Done(Ok(list)) && list@.len() == 0
}

/// Whether the step is the end, with the error.
pub open spec fn ends_with(step: FollowStep, error: ItzonError) -> bool {
    step matches FollowStep::Done(Err(found)) && found == error
}

/// Whether the step is the first one with the session of the website.
pub open spec fn turns_to_session(step: FollowStep, account: AccountView) -> bool {
    if account.session is Some {
        step matches FollowStep::CheckSession { token_refused } && !token_refused
    } else {
        step is RestoreSession
    }
}

fn ask_session(account: &Account) -> (r: FollowStep)
    ensures
        turns_to_session(r, account@),
{
    if account.session().is_some() {
        FollowStep::CheckSession { token_refused: false }
    } else {
        FollowStep::RestoreSession
    }
}

/// Begins to ask for the channels that the account follows.
pub fn followed_usernames(account: &Account, credential: Option<ChatCredential>) -> (r: FollowStep)
    ensures
        match credential {
            Some(credential) => r matches FollowStep::AskWithToken { access_token }
                && access_token@ == credential@.access_token,
            None => turns_to_session(r, account@),
        },
{
    match credential {
        Some(credential) => FollowStep::AskWithToken { access_token: credential.access_token },
        None => ask_session(account),
    }
}

/// The statuses by which a website refuses a bearer token.
pub open spec fn refuses_token(status: u16) -> bool {
    status == 401 || status == 403
}

/// What is to be done after the answer to the token. Where the website does not take the token, the
/// session that is held is asked instead, if there is one.
pub open spec fn is_after_token(
    step: FollowStep,
    account: AccountView,
    answer: FollowAnswer,
) -> bool {
    match answer {
        FollowAnswer::Failed => ends_with(step, ItzonError::OAuthFollowsFailed),
        FollowAnswer::Rejected { status } => if refuses_token(status) && account.session is Some {
            step matches FollowStep::CheckSession { token_refused } && token_refused
        } else {
            ends_with(step, ItzonError::OAuthFollowsRejected)
        },
        FollowAnswer::Told { following: Some(names), .. } => step matches FollowStep::Done(Ok(list))
            && auth::is_following(list.deep_view(), names.deep_view()),
        FollowAnswer::Told { following: None, .. } => ends_with(
            step,
            ItzonError::InvalidOAuthFollows,
        ),
    }
}

pub fn after_token_answer(account: &Account, answer: FollowAnswer) -> (r: FollowStep)
    ensures
        is_after_token(r, account@, answer),
{
    match answer {
        FollowAnswer::Failed => FollowStep::Done(Err(ItzonError::OAuthFollowsFailed)),
        FollowAnswer::Rejected { status } => {
            if (status == 401 || status == 403) && account.session().is_some() {
                FollowStep::CheckSession { token_refused: true }
            } else {
                FollowStep::Done(Err(ItzonError::OAuthFollowsRejected))
            }
        },
        FollowAnswer::Told { following, .. } => match following {
            Some(names) => FollowStep::Done(Ok(auth::normalize_following(names))),
            None => FollowStep::Done(Err(ItzonError::InvalidOAuthFollows)),
        },
    }
}

/// What is to be done after a session was or was not brought back.
pub fn after_restore(restored: bool) -> (r: FollowStep)
    ensures
        if restored {
            r matches FollowStep::CheckSession { token_refused } && !token_refused
        } else {
            ends_empty(r)
        },
{
    if restored {
        FollowStep::CheckSession { token_refused: false }
    } else {
        FollowStep::Done(Ok(Vec::new()))
    }
}

/// What is to be done after the session was checked. Where it was to stand in for a token that the
/// website refused and cannot, it ends with the refusal.
pub open spec fn is_after_check(
    step: FollowStep,
    account: AccountView,
    token_refused: bool,
    valid: bool,
) -> bool {
    if token_refused && !(valid && account.session is Some) {
        ends_with(step, ItzonError::OAuthFollowsRejected)
    } else if !valid {
        ends_empty(step)
    } else {
        match account.session {
            None => ends_with(step, ItzonError::SessionUnavailable),
            Some(session) => step matches FollowStep::AskWithCookies { cookies, header, revision }
                && cookies@ == session.origin_cookies && header@ == cookies::header_of(
                session.origin_cookies,
            ) && revision == account.revision,
        }
    }
}

pub fn after_check(account: &Account, token_refused: bool, valid: bool) -> (r: FollowStep)
    ensures
        is_after_check(r, account@, token_refused, valid),
{
    if !valid {
        return if token_refused {
            FollowStep::Done(Err(ItzonError::OAuthFollowsRejected))
        } else {
            FollowStep::Done(Ok(Vec::new()))
        };
    }
    match account.session() {
        None => if token_refused {
            FollowStep::Done(Err(ItzonError::OAuthFollowsRejected))
        } else {
            FollowStep::Done(Err(ItzonError::SessionUnavailable))
        },
        Some(session) => {
            let cookies = session.origin_cookies.copy();
            let header = cookies::cookie_header(&cookies);
            FollowStep::AskWithCookies { cookies, header, revision: account.revision() }
        },
    }
}

/// A refusal of the token is never taken for an account that follows no one: it ends with the
/// error of the refusal, unless a session that was found valid is asked instead.
pub proof fn a_refusal_is_told(
    account: AccountView,
    status: u16,
    first: FollowStep,
    later: AccountView,
    valid: bool,
    second: FollowStep,
)
    requires
        is_after_token(first, account, FollowAnswer::Rejected { status }),
        is_after_check(second, later, true, valid),
    ensures
        ends_with(first, ItzonError::OAuthFollowsRejected) || (account.session is Some
            && refuses_token(status) && (first matches FollowStep::CheckSession { token_refused }
            && token_refused)),
        ends_with(second, ItzonError::OAuthFollowsRejected) || (valid && later.session is Some
            && second is AskWithCookies),
{
}

/// The account after an answer that set cookies, where it is still the one that asked.
pub open spec fn with_set_cookies(
    account: AccountView,
    sent: Map<Seq<char>, Seq<char>>,
    asked_revision: u64,
    set_cookies: Seq<Seq<char>>,
) -> AccountView {
    let merged = cookies::merged(sent, set_cookies);
    match account.session {
        Some(session) => if account.revision == asked_revision {
            AccountView {
                session: Some(
                    WebSessionView {
                        origin_cookies: merged.origin,
                        chat_cookies: merged.delta.applied(session.chat_cookies),
                        ..session
                    },
                ),
                ..account
            }
        } else {
            account
        },
        None => account,
    }
}

/// Takes the answer to the cookies. Where the website does not know the session any more, it ends.
pub fn after_cookie_answer(
    account: &mut Account,
    sent: TextMap<String>,
    asked_revision: u64,
    answer: FollowAnswer,
) -> (r: Result<Vec<String>, ItzonError>)
    ensures
        match answer {
            FollowAnswer::Failed => {
                &&& r == Err::<Vec<String>, ItzonError>(ItzonError::FollowsFailed)
                &&& final(account)@ == old(account)@
            },
            FollowAnswer::Rejected { status } => if status == 401 {
                &&& r matches Ok(list) && list@.len() == 0
                &&& final(account)@ == (if old(account)@.revision == asked_revision && old(
                    account,
                )@.session is Some {
                    old(account)@.with_session(None)
                } else {
                    old(account)@
                })
            } else {
                &&& r == Err::<Vec<String>, ItzonError>(ItzonError::FollowsRejected)
                &&& final(account)@ == old(account)@
            },
            FollowAnswer::Told { following: None, .. } => {
                &&& r == Err::<Vec<String>, ItzonError>(ItzonError::InvalidFollows)
                &&& final(account)@ == old(account)@
            },
            FollowAnswer::Told { set_cookies, following: Some(names) } => {
                &&& r matches Ok(list) && auth::is_following(list.deep_view(), names.deep_view())
                &&& final(account)@ == with_set_cookies(
                    old(account)@,
                    sent@,
                    asked_revision,
                    set_cookies.deep_view(),
                )
            },
        },
{
    match answer {
        FollowAnswer::Failed => Err(ItzonError::FollowsFailed),
        FollowAnswer::Rejected { status } => {
            if status == 401 {
                let _ = auth::clear_memory_session_if_revision(account, asked_revision);
                Ok(Vec::new())
            } else {
                Err(ItzonError::FollowsRejected)
            }
        },
        FollowAnswer::Told { set_cookies, following } => {
            let names = match following {
                Some(names) => names,
                None => {
                    return Err(ItzonError::InvalidFollows);
                },
            };
            let ghost before = sent@;
            let mut origin_cookies = sent;
            let delta = cookies::merge_response_cookies(&set_cookies, &mut origin_cookies);
            proof {
                let merged = cookies::merged(before, set_cookies.deep_view());
                assert(merged.origin == origin_cookies@);
                assert(merged.delta == delta@);
            }
            if account.revision() == asked_revision {
                match account.swap_session(None) {
                    Some(session) => {
                        let mut chat_cookies = session.chat_cookies;
                        cookies::apply_delta(&mut chat_cookies, &delta);
                        let renewed = ItzonSession {
                            origin_cookies,
                            chat_cookies,
                            username: session.username,
                            token: session.token,
                            validated_at: session.validated_at,
                        };
                        let _ = account.swap_session(Some(renewed));
                    },
                    None => {},
                }
            }
            Ok(auth::normalize_following(names))
        },
    }
}

/// The website is asked with the cookies that are for the website, of the session that was found
/// valid, and the account is noted with them.
pub proof fn the_website_gets_its_own_cookies(
    step: FollowStep,
    account: AccountView,
    session: WebSessionView,
    token_refused: bool,
)
    requires
        account.session == Some(session),
        is_after_check(step, account, token_refused, true),
    ensures
        step matches FollowStep::AskWithCookies { cookies, header, revision } && cookies@
            == session.origin_cookies && header@ == cookies::header_of(session.origin_cookies)
            && revision == account.revision,
{
}

/// What an answer sets of the cookies is kept with the session that asked, and with no other; all
/// else of the account stays.
pub proof fn an_answer_renews_its_session(
    account: AccountView,
    sent: Map<Seq<char>, Seq<char>>,
    asked_revision: u64,
    set_cookies: Seq<Seq<char>>,
)
    ensures
        ({
            let after = with_set_cookies(account, sent, asked_revision, set_cookies);
            let end = cookies::merged(sent, set_cookies);
            &&& after.token == account.token
            &&& after.revision == account.revision
            &&& account.session is None || account.revision != asked_revision ==> after == account
            &&& account.session is Some && account.revision == asked_revision ==> (
            after.session matches Some(renewed) && renewed.origin_cookies == end.origin
                && renewed.chat_cookies == end.delta.applied(account.session->0.chat_cookies)
                && renewed.username == account.session->0.username && renewed.token
                == account.session->0.token && renewed.validated_at
                == account.session->0.validated_at)
        }),
{
}

/// The answer to the token is the list that it tells; what fails is told for what it is.
pub proof fn the_token_brings_the_list(
    account: AccountView,
    step: FollowStep,
    answer: FollowAnswer,
)
    requires
        is_after_token(step, account, answer),
    ensures
        match answer {
            FollowAnswer::Failed => ends_with(step, ItzonError::OAuthFollowsFailed),
            FollowAnswer::Rejected { .. } => !(step matches FollowStep::Done(Ok(_))),
            FollowAnswer::Told { following, .. } => match following {
                Some(names) => step matches FollowStep::Done(Ok(list)) && auth::is_following(
                    list.deep_view(),
                    names.deep_view(),
                ),
                None => ends_with(step, ItzonError::InvalidOAuthFollows),
            },
        },
{
}

} // verus!
