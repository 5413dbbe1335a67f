//! What is held of the account: the session of the website, the token, and a number that tells when
//! either of them was exchanged.
use crate::oauth;
use crate::oauth::OAuthToken;
use crate::oauth::TokenView;
use crate::text_map::TextMap;
use vstd::prelude::*;
use vstd::string::*;

verus! {

/// A session of the website.
#[derive(Debug)]
pub struct ItzonSession {
    pub origin_cookies: TextMap<String>,
    pub chat_cookies: TextMap<String>,
    pub username: String,
    pub token: String,
    /// Milliseconds of a clock that never goes back.
    pub validated_at: u64,
}

#[verifier::ext_equal]
pub struct WebSessionView {
    pub origin_cookies: Map<Seq<char>, Seq<char>>,
    pub chat_cookies: Map<Seq<char>, Seq<char>>,
    pub username: Seq<char>,
    pub token: Seq<char>,
    pub validated_at: u64,
}

impl View for ItzonSession {
    type V = WebSessionView;

    open spec fn view(&self) -> WebSessionView {
        WebSessionView {
            origin_cookies: self.origin_cookies@,
            chat_cookies: self.chat_cookies@,
            username: self.username@,
            token: self.token@,
            validated_at: self.validated_at,
        }
    }
}

/// The account. A token that is held is complete.
pub struct Account {
    session: Option<ItzonSession>,
    token: Option<OAuthToken>,
    revision: u64,
}

#[verifier::ext_equal]
pub struct AccountView {
    pub session: Option<WebSessionView>,
    pub token: Option<TokenView>,
    pub revision: u64,
}

pub open spec fn session_view(session: Option<ItzonSession>) -> Option<WebSessionView> {
    match session {
        Some(session) => Some(session@),
        None => None,
    }
}

pub open spec fn token_view(token: Option<OAuthToken>) -> Option<TokenView> {
    match token {
        Some(token) => Some(token@),
        None => None,
    }
}

impl View for Account {
    type V = AccountView;

    closed spec fn view(&self) -> AccountView {
        AccountView {
            session: session_view(self.session),
            token: token_view(self.token),
            revision: self.revision,
        }
    }
}

/// The number after an exchange.
pub open spec fn next_revision(revision: u64) -> u64 {
    if revision == u64::MAX {
        0
    } else {
        (revision + 1) as u64
    }
}

impl AccountView {
    /// A token that is held is complete.
    pub open spec fn valid(self) -> bool {
        self.token matches Some(token) ==> oauth::is_complete(token)
    }

    pub open spec fn with_session(self, session: Option<WebSessionView>) -> AccountView {
        AccountView { session, revision: next_revision(self.revision), ..self }
    }

    pub open spec fn with_token(self, token: Option<TokenView>) -> AccountView {
        AccountView { token, revision: next_revision(self.revision), ..self }
    }
}

impl Account {
    #[verifier::type_invariant]
    spec fn complete(self) -> bool {
        token_view(self.token) matches Some(token) ==> oauth::is_complete(token)
    }

    /// The account at the start, with the token that was kept from before, if it is complete.
    pub fn new(persisted: Option<OAuthToken>) -> (r: Account)
        ensures
            r@ == (AccountView {
                session: None,
                token: match persisted {
                    Some(token) => if oauth::is_complete(token@) {
                        Some(token@)
                    } else {
                        None
                    },
                    None => None,
                },
                revision: 0,
            }),
            r@.valid(),
    {
        let token: Option<OAuthToken> = match persisted {
            Some(token) => if oauth::valid_token_shape(&token) {
                Some(token)
            } else {
                None
            },
            None => None,
        };
        Account { session: None, token, revision: 0 }
    }

    pub fn revision(&self) -> (r: u64)
        ensures
            r == self@.revision,
    {
        self.revision
    }

    pub fn session(&self) -> (r: Option<&ItzonSession>)
        ensures
            match r {
                Some(session) => self@.session == Some(session@),
                None => self@.session is None,
            },
    {
        match &self.session {
            Some(session) => Some(session),
            None => None,
        }
    }

    pub fn token(&self) -> (r: Option<&OAuthToken>)
        ensures
            match r {
                Some(token) => self@.token == Some(token@),
                None => self@.token is None,
            },
            self@.valid(),
    {
        proof {
            use_type_invariant(self);
        }
        match &self.token {
            Some(token) => Some(token),
            None => None,
        }
    }

    /// Puts a session in place of the one that is held, without counting it as an exchange.
    pub(crate) fn swap_session(&mut self, session: Option<ItzonSession>) -> (r: Option<ItzonSession>)
        ensures
            final(self)@ == (AccountView { session: session_view(session), ..old(self)@ }),
            session_view(r) == old(self)@.session,
    {
        proof {
            use_type_invariant(&*self);
        }
        let mut held = session;
        std::mem::swap(&mut self.session, &mut held);
        held
    }

    /// Puts a token in place of the one that is held, where it is complete.
    pub(crate) fn swap_token(&mut self, token: Option<OAuthToken>) -> (r: Option<OAuthToken>)
        requires
            token_view(token) matches Some(token) ==> oauth::is_complete(token),
        ensures
            final(self)@ == (AccountView { token: token_view(token), ..old(self)@ }),
            token_view(r) == old(self)@.token,
    {
        proof {
            use_type_invariant(&*self);
        }
        let mut taken = Account { session: None, token: None, revision: 0 };
        std::mem::swap(&mut taken, self);
        let Account { session, token: held, revision } = taken;
        *self = Account { session, token, revision };
        held
    }

    pub(crate) fn bump_revision(&mut self)
        ensures
            final(self)@ == (AccountView {
                revision: next_revision(old(self)@.revision),
                ..old(self)@
            }),
    {
        proof {
            use_type_invariant(&*self);
        }
        let next = self.revision.wrapping_add(1);
        self.revision = next;
    }

    /// Begins a session of the website, in place of one that is held.
    pub fn begin_session(&mut self, session: ItzonSession)
        ensures
            final(self)@ == old(self)@.with_session(Some(session@)),
    {
        let _ = self.swap_session(Some(session));
        self.bump_revision();
    }

    /// Ends the session of the website.
    pub fn end_session(&mut self) -> (r: Option<ItzonSession>)
        ensures
            session_view(r) == old(self)@.session,
            final(self)@ == (if old(self)@.session is Some {
                old(self)@.with_session(None)
            } else {
                old(self)@
            }),
    {
        let held = self.swap_session(None);
        if held.is_some() {
            self.bump_revision();
        }
        held
    }
}

/// Whatever is exchanged of the account, the number changes with it.
pub proof fn an_exchange_changes_the_revision(
    account: AccountView,
    session: Option<WebSessionView>,
    token: Option<TokenView>,
)
    ensures
        account.with_session(session).revision != account.revision,
        account.with_token(token).revision != account.revision,
{
}

/// An exchange leaves the rest of the account as it is, and counts by one.
pub proof fn an_exchange_touches_nothing_else(
    account: AccountView,
    session: Option<WebSessionView>,
    token: Option<TokenView>,
)
    ensures
        account.with_session(session).session == session,
        account.with_session(session).token == account.token,
        account.with_token(token).token == token,
        account.with_token(token).session == account.session,
        account.revision < u64::MAX ==> account.with_session(session).revision == account.revision
            + 1 && account.with_token(token).revision == account.revision + 1,
{
}

} // verus!
