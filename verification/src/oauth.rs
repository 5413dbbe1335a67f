//! Signing in with OAuth: an authorization code with a proof key, for a program without a secret.
use crate::account::Account;
use crate::error::ItzonError;
use crate::letters;
use crate::sending;
use crate::text;
use crate::text::CharClass;
use crate::urls;
use crate::urls::ParsedUrl;
use crate::urls::UrlView;
use vstd::prelude::*;
use vstd::string::*;
use vstd::utf8::*;

verus! {

/// A token stays in use until so many seconds before it ends.
pub const RENEWAL_MARGIN_SECS: u64 = 60;

/// A token of an account.
#[derive(Debug)]
pub struct OAuthToken {
    pub access_token: String,
    pub refresh_token: String,
    pub client_id: String,
    pub scope: String,
    pub username: String,
    /// Seconds since the epoch.
    pub expires_at: u64,
    pub refresh_expires_at: u64,
}

pub struct TokenView {
    pub access_token: Seq<char>,
    pub refresh_token: Seq<char>,
    pub client_id: Seq<char>,
    pub scope: Seq<char>,
    pub username: Seq<char>,
    pub expires_at: u64,
    pub refresh_expires_at: u64,
}

impl View for OAuthToken {
    type V = TokenView;

    open spec fn view(&self) -> TokenView {
        TokenView {
            access_token: self.access_token@,
            refresh_token: self.refresh_token@,
            client_id: self.client_id@,
            scope: self.scope@,
            username: self.username@,
            expires_at: self.expires_at,
            refresh_expires_at: self.refresh_expires_at,
        }
    }
}

impl Clone for OAuthToken {
    fn clone(&self) -> (r: OAuthToken)
        ensures
            r@ == self@,
    {
        OAuthToken {
            access_token: self.access_token.clone(),
            refresh_token: self.refresh_token.clone(),
            client_id: self.client_id.clone(),
            scope: self.scope.clone(),
            username: self.username.clone(),
            expires_at: self.expires_at,
            refresh_expires_at: self.refresh_expires_at,
        }
    }
}

/// The ids that programs have: thirty-two hexadecimal digits.
pub open spec fn is_client_id(value: Seq<char>) -> bool {
    &&& value.len() == 32
    &&& forall|i: int| 0 <= i < value.len() ==> letters::is_ascii_hexdigit(#[trigger] value[i])
}

pub fn valid_client_id(value: &str) -> (r: bool)
    ensures
        r == is_client_id(value@),
{
    let chars = text::chars_of(value);
    if chars.len() != 32 {
        return false;
    }
    let mut i: usize = 0;
    while i < chars.len()
        invariant
            chars@ == value@,
            i <= chars.len(),
            forall|k: int| 0 <= k < i ==> letters::is_ascii_hexdigit(#[trigger] value@[k]),
        decreases chars.len() - i,
    {
        if !letters::ascii_hexdigit(chars[i]) {
            assert(!letters::is_ascii_hexdigit(value@[i as int]));
            return false;
        }
        i = i + 1;
    }
    true
}

/// The id of the program from what it was built with.
pub open spec fn client_id_of(built_with: Option<Seq<char>>) -> Option<Seq<char>> {
    match built_with {
        Some(value) => if is_client_id(text::trimmed(value)) {
            Some(text::trimmed(value))
        } else {
            None
        },
        None => None,
    }
}

pub fn configured_client_id(built_with: Option<&str>) -> (r: Option<&str>)
    ensures
        r.deep_view() == client_id_of(built_with.deep_view()),
{
    match built_with {
        Some(value) => {
            let id = text::trim(value);
            if valid_client_id(id) {
                Some(id)
            } else {
                None
            }
        },
        None => None,
    }
}

pub fn is_configured(built_with: Option<&str>) -> (r: bool)
    ensures
        r == (client_id_of(built_with.deep_view()) is Some),
{
    configured_client_id(built_with).is_some()
}

/// The id of the program, without which no account can be authorized.
pub fn required_client_id(built_with: Option<&str>) -> (r: Result<&str, ItzonError>)
    ensures
        match r {
            Ok(id) => client_id_of(built_with.deep_view()) == Some(id@),
            Err(error) => client_id_of(built_with.deep_view()) is None && error is NotConfigured,
        },
{
    match configured_client_id(built_with) {
        Some(id) => Ok(id),
        None => Err(ItzonError::NotConfigured),
    }
}

/// The names of accounts.
pub open spec fn is_username(name: Seq<char>) -> bool {
    sending::is_slug(name) && name.len() <= 64
}

pub fn valid_username(username: &str) -> (r: bool)
    ensures
        r == is_username(username@),
{
    !username.is_empty() && username.unicode_len() <= 64 && sending::all_slug_chars(username)
}

/// Whether the scopes hold what is needed, in whichever order.
pub open spec fn has_scopes(scope: Seq<char>) -> bool {
    let scopes = text::words(scope);
    &&& scopes.contains("identity"@)
    &&& scopes.contains("chat"@)
    &&& scopes.contains("api:read"@)
}

fn has_word(words: &Vec<&str>, word: &str) -> (r: bool)
    ensures
        r == words.deep_view().contains(word@),
{
    let mut i: usize = 0;
    while i < words.len()
        invariant
            i <= words.len(),
            forall|k: int| 0 <= k < i ==> words.deep_view()[k] != word@,
        decreases words.len() - i,
    {
        assert(words.deep_view()[i as int] == words@[i as int]@);
        if text::same_text(words[i], word) {
            return true;
        }
        i = i + 1;
    }
    false
}

pub fn has_required_scopes(scope: &str) -> (r: bool)
    ensures
        r == has_scopes(scope@),
{
    let scopes = text::split_whitespace(scope);
    has_word(&scopes, "identity") && has_word(&scopes, "chat") && has_word(&scopes, "api:read")
}

/// Whether a token has all that is needed of one.
pub open spec fn is_complete(token: TokenView) -> bool {
    &&& token.access_token.len() > 0
    &&& token.refresh_token.len() > 0
    &&& is_client_id(token.client_id)
    &&& is_username(token.username)
    &&& has_scopes(token.scope)
}

pub fn valid_token_shape(token: &OAuthToken) -> (r: bool)
    ensures
        r == is_complete(token@),
{
    !token.access_token.as_str().is_empty() && !token.refresh_token.as_str().is_empty()
        && valid_client_id(token.client_id.as_str()) && valid_username(token.username.as_str())
        && has_required_scopes(token.scope.as_str())
}

pub fn has_account(account: &Account) -> (r: bool)
    ensures
        r == (account@.token is Some),
{
    account.token().is_some()
}

pub fn account_name(account: &Account) -> (r: Option<String>)
    ensures
        r.deep_view() == (match account@.token {
            Some(token) => Some(token.username),
            None => None,
        }),
        r matches Some(name) ==> is_username(name@),
{
    match account.token() {
        Some(token) => Some(token.username.clone()),
        None => None,
    }
}

/// Forgets the token. Says whether there was one.
pub fn disconnect(account: &mut Account) -> (r: bool)
    ensures
        r == (old(account)@.token is Some),
        final(account)@ == (if old(account)@.token is Some {
            old(account)@.with_token(None)
        } else {
            old(account)@
        }),
{
    let held = account.swap_token(None);
    let changed = held.is_some();
    if changed {
        account.bump_revision();
    }
    changed
}

/// Holds a token in place of the one that is held, where it is complete and was kept safe. Where it
/// could not be kept safe, for the reason, the one that is held stays.
pub fn store(account: &mut Account, token: OAuthToken, kept: Result<(), String>) -> (r: Result<
    (),
    ItzonError,
>)
    ensures
        match r {
            Ok(_) => is_complete(token@) && kept is Ok && final(account)@ == old(
                account,
            )@.with_token(Some(token@)),
            Err(error) => {
                &&& final(account)@ == old(account)@
                &&& !is_complete(token@) ==> error is IncompleteToken
                &&& is_complete(token@) ==> (kept matches Err(reason) && error.text() == reason@)
            },
        },
{
    if !valid_token_shape(&token) {
        return Err(ItzonError::IncompleteToken);
    }
    match kept {
        Ok(_) => {
            let _ = account.swap_token(Some(token));
            account.bump_revision();
            Ok(())
        },
        Err(reason) => Err(ItzonError::TokenNotKept(reason)),
    }
}

/// The most bytes that are written as text at once.
pub const MAX_ENCODED_BYTES: usize = 0x1fff_ffff;

/// Bytes in base 64, in the alphabet for URLs and without padding.
pub uninterp spec fn base64_url_text(bytes: Seq<u8>) -> Seq<char>;

/// The length of bytes in base 64 without padding.
pub open spec fn base64_len(bytes: nat) -> nat {
    bytes / 3 * 4 + (if bytes % 3 == 0 {
        0nat
    } else {
        bytes % 3 + 1
    })
}

/// `base64::Engine::encode` of the engine `URL_SAFE_NO_PAD`. The text is named: it is fixed by the
/// bytes. Of it this is claimed: four characters stand for each three bytes, and two or three for
/// the one or two bytes that are left; each is an ASCII letter or digit, `-` or `_`. The call stops
/// the program where the length of the text is above the largest `usize`.
#[verifier::external_body]
fn encode_base64_url(bytes: &[u8]) -> (r: String)
    requires
        bytes@.len() <= MAX_ENCODED_BYTES,
    ensures
        r@ == base64_url_text(bytes@),
        r@.len() == base64_len(bytes@.len()),
        forall|i: int| 0 <= i < r@.len() ==> sending::is_slug_char(#[trigger] r@[i]),
{
    base64::Engine::encode(&base64::engine::general_purpose::URL_SAFE_NO_PAD, bytes)
}

/// Bytes as text that can stand in a URL.
pub fn base64_url(bytes: &[u8]) -> (r: String)
    requires
        bytes@.len() <= MAX_ENCODED_BYTES,
    ensures
        r@ == base64_url_text(bytes@),
        r@.len() == base64_len(bytes@.len()),
        forall|i: int| 0 <= i < r@.len() ==> sending::is_slug_char(#[trigger] r@[i]),
{
    encode_base64_url(bytes)
}

/// `rand::RngCore::fill_bytes` of `rand::rng`: as many bytes as asked for, left to chance. Where the
/// machine gives no random bytes, the call stops the program.
#[verifier::external_body]
fn random_bytes(count: usize) -> (r: Vec<u8>)
    ensures
        r@.len() == count,
{
    let mut value = vec![0_u8; count];
    rand::RngCore::fill_bytes(&mut rand::rng(), &mut value);
    value
}

/// The SHA-256 digest of bytes.
pub uninterp spec fn sha256_of(bytes: Seq<u8>) -> Seq<u8>;

/// `sha2::Sha256::digest`. The digest is named: it is fixed by the bytes. It has thirty-two bytes.
#[verifier::external_body]
fn sha256(bytes: &[u8]) -> (r: Vec<u8>)
    ensures
        r@ == sha256_of(bytes@),
        r@.len() == 32,
{
    <sha2::Sha256 as sha2::Digest>::digest(bytes).to_vec()
}

/// Random bytes as text.
pub fn random_base64_url(bytes: usize) -> (r: String)
    requires
        bytes <= MAX_ENCODED_BYTES,
    ensures
        r@.len() == base64_len(bytes as nat),
        forall|i: int| 0 <= i < r@.len() ==> sending::is_slug_char(#[trigger] r@[i]),
{
    base64_url(random_bytes(bytes).as_slice())
}

/// The secrets of one sign-in.
#[derive(Debug)]
pub struct OAuthSession {
    pub verifier: String,
    pub challenge: String,
    pub state: String,
}

pub struct OAuthSessionView {
    pub verifier: Seq<char>,
    pub challenge: Seq<char>,
    pub state: Seq<char>,
}

impl View for OAuthSession {
    type V = OAuthSessionView;

    open spec fn view(&self) -> OAuthSessionView {
        OAuthSessionView {
            verifier: self.verifier@,
            challenge: self.challenge@,
            state: self.state@,
        }
    }
}

/// What is shown of a verifier before it is told: the digest of it.
pub open spec fn challenge_of(verifier: Seq<char>) -> Seq<char> {
    base64_url_text(sha256_of(encode_utf8(verifier)))
}

/// The secrets of a sign-in with the verifier and the state.
pub fn session_from(verifier: String, state: String) -> (r: OAuthSession)
    ensures
        r@ == (OAuthSessionView {
            verifier: verifier@,
            challenge: challenge_of(verifier@),
            state: state@,
        }),
        r@.challenge.len() == 43,
{
    let digest = sha256(verifier.as_str().as_bytes());
    OAuthSession { challenge: base64_url(digest.as_slice()), verifier, state }
}

/// The secrets of a new sign-in, left to chance.
pub fn create_session() -> (r: OAuthSession)
    ensures
        r@.verifier.len() == 43,
        r@.challenge.len() == 43,
        r@.state.len() == 43,
        r@.challenge == challenge_of(r@.verifier),
        forall|i: int|
            0 <= i < r@.verifier.len() ==> sending::is_slug_char(#[trigger] r@.verifier[i]),
        forall|i: int| 0 <= i < r@.state.len() ==> sending::is_slug_char(#[trigger] r@.state[i]),
{
    let verifier = random_base64_url(32);
    let state = random_base64_url(32);
    session_from(verifier, state)
}

/// What is asked for when an account is to be authorized.
pub open spec fn authorization_pairs(
    client_id: Seq<char>,
    redirect_uri: Seq<char>,
    session: OAuthSessionView,
) -> Seq<(Seq<char>, Seq<char>)> {
    seq![
        ("client_id"@, client_id),
        ("redirect_uri"@, redirect_uri),
        ("response_type"@, "code"@),
        ("scope"@, "identity chat api:read"@),
        ("state"@, session.state),
        ("code_challenge"@, session.challenge),
        ("code_challenge_method"@, "S256"@),
    ]
}

/// The names and values that an authorization is asked for with.
pub fn authorization_query(client_id: &str, redirect_uri: &str, session: &OAuthSession) -> (r: Vec<
    (String, String),
>)
    ensures
        urls::pairs_view(r@) == authorization_pairs(client_id@, redirect_uri@, session@),
{
    let pairs: Vec<(String, String)> = vec![
        ("client_id".to_string(), client_id.to_string()),
        ("redirect_uri".to_string(), redirect_uri.to_string()),
        ("response_type".to_string(), "code".to_string()),
        ("scope".to_string(), "identity chat api:read".to_string()),
        ("state".to_string(), session.state.clone()),
        ("code_challenge".to_string(), session.challenge.clone()),
        ("code_challenge_method".to_string(), "S256".to_string()),
    ];
    assert(urls::pairs_view(pairs@) =~= authorization_pairs(
        client_id@,
        redirect_uri@,
        session@,
    ));
    pairs
}

pub open spec fn authorize_url() -> Seq<char> {
    "https://itzon.tv/oauth/authorize"@
}

/// The page on which the account is authorized: its query holds what is asked for, and nothing
/// else.
pub fn authorization_url(client_id: &str, redirect_uri: &str, session: &OAuthSession) -> (r: Result<
    String,
    ItzonError,
>)
    ensures
        ({
            let pairs = authorization_pairs(client_id@, redirect_uri@, session@);
            match r {
                Ok(text) => {
                    &&& urls::url_with_query(authorize_url(), pairs) matches Ok(url)
                    &&& text@ == url.text
                    &&& url.query == pairs
                    &&& urls::url_of(authorize_url()) matches Ok(base)
                    &&& url.scheme == base.scheme
                    &&& url.host == base.host
                    &&& url.path == base.path
                },
                Err(error) => urls::url_of(authorize_url()) == Err::<UrlView, Seq<char>>(
                    error.text(),
                ),
            }
        }),
{
    let pairs = authorization_query(client_id, redirect_uri, session);
    let ghost asked = urls::pairs_view(pairs@);
    proof {
        reveal_strlit("https://itzon.tv/oauth/authorize");
        let base = authorize_url();
        assert(!base.contains('?') && !base.contains('#'));
    }
    let base = urls::parse_url("https://itzon.tv/oauth/authorize");
    match urls::append_query("https://itzon.tv/oauth/authorize", &pairs) {
        Ok(url) => {
            proof {
                let held = base->Ok_0@;
                assert(held.query =~= seq![]);
                assert(held.query + asked =~= asked);
            }
            Ok(url.text)
        },
        Err(reason) => Err(ItzonError::Url(reason)),
    }
}

/// An authorization is asked for with a challenge by SHA-256 and with no secret of the program.
pub proof fn authorization_asks_without_a_secret(
    client_id: Seq<char>,
    redirect_uri: Seq<char>,
    session: OAuthSessionView,
)
    ensures
        ({
            let pairs = authorization_pairs(client_id, redirect_uri, session);
            &&& forall|i: int| 0 <= i < pairs.len() ==> (#[trigger] pairs[i]).0 != "client_secret"@
            &&& pairs.contains(("scope"@, "identity chat api:read"@))
            &&& pairs.contains(("code_challenge_method"@, "S256"@))
            &&& pairs.contains(("code_challenge"@, session.challenge))
        }),
{
    reveal_strlit("client_secret");
    reveal_strlit("client_id");
    reveal_strlit("redirect_uri");
    reveal_strlit("response_type");
    reveal_strlit("scope");
    reveal_strlit("state");
    reveal_strlit("code_challenge");
    reveal_strlit("code_challenge_method");
    let pairs = authorization_pairs(client_id, redirect_uri, session);
    let secret = "client_secret"@;
    assert(secret.len() == 13);
    assert(pairs[2].0[0] == 'r' && secret[0] == 'c');
    assert(pairs[3] == ("scope"@, "identity chat api:read"@));
    assert(pairs[5] == ("code_challenge"@, session.challenge));
    assert(pairs[6] == ("code_challenge_method"@, "S256"@));
}

/// Where the browser comes back to.
pub open spec fn callback_uri(port: u16) -> Seq<char> {
    "http://127.0.0.1:"@ + letters::decimal(port as nat) + "/oauth/itzon/callback"@
}

pub fn redirect_uri(port: u16) -> (r: String)
    ensures
        r@ == callback_uri(port),
{
    let mut uri = "http://127.0.0.1:".to_string();
    uri.append(letters::to_decimal(port as u64).as_str());
    uri.append("/oauth/itzon/callback");
    uri
}

/// The last value with the name.
pub open spec fn last_value(query: Seq<(Seq<char>, Seq<char>)>, name: Seq<char>) -> Option<Seq<char>>
    decreases query.len(),
{
    if query.len() == 0 {
        None
    } else if query.last().0 == name {
        Some(query.last().1)
    } else {
        last_value(query.drop_last(), name)
    }
}

fn find_value<'a>(query: &'a Vec<(String, String)>, name: &str) -> (r: Option<&'a str>)
    ensures
        r.deep_view() == last_value(urls::pairs_view(query@), name@),
{
    let ghost all = urls::pairs_view(query@);
    let mut i: usize = query.len();
    assert(all.take(all.len() as int) =~= all);
    while i > 0
        invariant
            all == urls::pairs_view(query@),
            i <= query.len(),
            last_value(all.take(i as int), name@) == last_value(all, name@),
        decreases i,
    {
        let ghost here = all.take(i as int);
        assert(here.last() == (query@[i - 1].0@, query@[i - 1].1@));
        assert(here.drop_last() =~= all.take(i - 1));
        i = i - 1;
        if text::same_text(query[i].0.as_str(), name) {
            return Some(query[i].1.as_str());
        }
    }
    None
}

/// What the browser brings back: the code; nothing, where it asked for another page.
pub open spec fn brought_back(
    url: Result<UrlView, Seq<char>>,
    expected_state: Seq<char>,
) -> Result<Option<Seq<char>>, Seq<char>> {
    match url {
        Err(reason) => Err(reason),
        Ok(found) => if found.path != "/oauth/itzon/callback"@ {
            Ok(None)
        } else if last_value(found.query, "state"@) != Some(expected_state) {
            Err(ItzonError::StateMismatch.text())
        } else {
            match last_value(found.query, "error"@) {
                Some(error) => Err("itzon authorization was not completed: "@ + error),
                None => match last_value(found.query, "code"@) {
                    Some(code) => if code.len() > 0 {
                        Ok(Some(code))
                    } else {
                        Err(ItzonError::NoCode.text())
                    },
                    None => Err(ItzonError::NoCode.text()),
                },
            }
        },
    }
}

/// What the browser brings back, from the address that it asked for.
pub fn callback_code_from(url: Result<ParsedUrl, String>, expected_state: &str) -> (r: Result<
    Option<String>,
    ItzonError,
>)
    ensures
        match r {
            Ok(code) => brought_back(urls::url_result(url), expected_state@) == Ok::<
                Option<Seq<char>>,
                Seq<char>,
            >(code.deep_view()),
            Err(error) => brought_back(urls::url_result(url), expected_state@) == Err::<
                Option<Seq<char>>,
                Seq<char>,
            >(error.text()),
        },
{
    let found = match url {
        Ok(found) => found,
        Err(reason) => {
            return Err(ItzonError::Url(reason));
        },
    };
    if !text::same_text(found.path.as_str(), "/oauth/itzon/callback") {
        return Ok(None);
    }
    let matching = match find_value(&found.query, "state") {
        Some(state) => text::same_text(state, expected_state),
        None => false,
    };
    if !matching {
        return Err(ItzonError::StateMismatch);
    }
    match find_value(&found.query, "error") {
        Some(error) => {
            return Err(ItzonError::AuthorizationFailed(error.to_string()));
        },
        None => {},
    }
    match find_value(&found.query, "code") {
        Some(code) => if code.is_empty() {
            Err(ItzonError::NoCode)
        } else {
            Ok(Some(code.to_string()))
        },
        None => Err(ItzonError::NoCode),
    }
}

pub fn callback_code(target: &str, expected_state: &str) -> (r: Result<Option<String>, ItzonError>)
    ensures
        match r {
            Ok(code) => brought_back(
                urls::url_of("http://127.0.0.1"@ + target@),
                expected_state@,
            ) == Ok::<Option<Seq<char>>, Seq<char>>(code.deep_view()),
            Err(error) => brought_back(
                urls::url_of("http://127.0.0.1"@ + target@),
                expected_state@,
            ) == Err::<Option<Seq<char>>, Seq<char>>(error.text()),
        },
{
    let mut address = "http://127.0.0.1".to_string();
    address.append(target);
    callback_code_from(urls::parse_url(address.as_str()), expected_state)
}

/// A code is taken only from the page of the callback, and only with the state of this sign-in.
pub proof fn a_code_needs_its_state(url: Result<UrlView, Seq<char>>, expected_state: Seq<char>)
    ensures
        brought_back(url, expected_state) matches Ok(Some(code)) ==> url matches Ok(found)
            && found.path == "/oauth/itzon/callback"@ && last_value(found.query, "state"@) == Some(
            expected_state,
        ) && last_value(found.query, "error"@) is None && last_value(found.query, "code"@) == Some(
            code,
        ) && code.len() > 0,
{
}

/// The text that bytes are taken for.
pub uninterp spec fn lossy_text(bytes: Seq<u8>) -> Seq<char>;

/// `String::from_utf8_lossy`. The text is named: it is fixed by the bytes. Of it this is claimed:
/// bytes that are the UTF-8 form of a text are taken for that text.
#[verifier::external_body]
fn text_from_bytes(bytes: &[u8]) -> (r: String)
    ensures
        r@ == lossy_text(bytes@),
        forall|text: Seq<char>| #[trigger] encode_utf8(text) == bytes@ ==> r@ == text,
{
    String::from_utf8_lossy(bytes).into_owned()
}

/// What a request asks for: the word behind `GET ` on its first line.
pub open spec fn requested(request: Seq<char>) -> Seq<char> {
    let line = request.take(text::first_index(request, CharClass::Only('\n')));
    match text::stripped(line, "GET "@) {
        Some(rest) => if text::words(rest).len() > 0 {
            text::words(rest)[0]
        } else {
            seq![]
        },
        None => seq![],
    }
}

/// What the text of a request asks for.
pub fn request_target(request: &str) -> (r: String)
    ensures
        r@ == requested(request@),
{
    let end = text::find_class(request, &CharClass::Only('\n'));
    assert(request@.subrange(0, end as int) =~= request@.take(end as int));
    let line = request.substring_char(0, end);
    let none = String::new();
    assert(none@ =~= seq![]);
    match text::strip_prefix(line, "GET ") {
        Some(rest) => {
            let words = text::split_whitespace(rest);
            if words.len() > 0 {
                assert(words.deep_view()[0] == words@[0]@);
                words[0].to_string()
            } else {
                none
            }
        },
        None => none,
    }
}

pub open spec fn page(message: Seq<char>) -> Seq<char> {
    "<!doctype html><html><body style=\"font-family:system-ui;background:#111;color:#eee;text-align:center;padding-top:80px\"><h2>"@
        + message + "</h2><p>You can close this tab.</p></body></html>"@
}

/// An answer to the browser, with its length in bytes.
pub open spec fn answer(status: u16, message: Seq<char>) -> Seq<char> {
    let reason = if status == 200 {
        "OK"@
    } else {
        "Error"@
    };
    "HTTP/1.1 "@ + letters::decimal(status as nat) + " "@ + reason
        + "\r\nContent-Type: text/html; charset=utf-8\r\nContent-Length: "@ + letters::decimal(
        encode_utf8(page(message)).len(),
    ) + "\r\nConnection: close\r\n\r\n"@ + page(message)
}

pub fn callback_response(status: u16, message: &str) -> (r: String)
    ensures
        r@ == answer(status, message@),
{
    let mut html =
        "<!doctype html><html><body style=\"font-family:system-ui;background:#111;color:#eee;text-align:center;padding-top:80px\"><h2>".to_string();
    html.append(message);
    html.append("</h2><p>You can close this tab.</p></body></html>");
    let length: u64 = html.as_str().as_bytes().len() as u64;
    let reason = if status == 200 {
        "OK"
    } else {
        "Error"
    };
    let mut response = "HTTP/1.1 ".to_string();
    response.append(letters::to_decimal(status as u64).as_str());
    response.append(" ");
    response.append(reason);
    response.append("\r\nContent-Type: text/html; charset=utf-8\r\nContent-Length: ");
    response.append(letters::to_decimal(length).as_str());
    response.append("\r\nConnection: close\r\n\r\n");
    response.append(html.as_str());
    response
}

/// What the browser is told about what it brought back.
pub open spec fn told_browser(brought: Result<Option<Seq<char>>, Seq<char>>) -> Seq<char> {
    match brought {
        Ok(Some(_)) => answer(
            200,
            "Authorization received. Return to StreamNook to finish signing in."@,
        ),
        Ok(None) => answer(404, "Not found"@),
        Err(_) => answer(400, "Authorization was not completed."@),
    }
}

/// What the browser is told, and how the waiting for it ends; it goes on where another page was
/// asked for.
pub fn answer_callback(brought: Result<Option<String>, ItzonError>) -> (r: (
    String,
    Option<Result<String, ItzonError>>,
))
    ensures
        r.0@ == told_browser(
            match brought {
                Ok(code) => Ok(code.deep_view()),
                Err(error) => Err(error.text()),
            },
        ),
        match brought {
            Ok(Some(code)) => r.1 == Some(Ok::<String, ItzonError>(code)),
            Ok(None) => r.1 is None,
            Err(error) => r.1 == Some(Err::<String, ItzonError>(error)),
        },
{
    match brought {
        Ok(Some(code)) => (
            callback_response(
                200,
                "Authorization received. Return to StreamNook to finish signing in.",
            ),
            Some(Ok(code)),
        ),
        Ok(None) => (callback_response(404, "Not found"), None),
        Err(error) => (
            callback_response(400, "Authorization was not completed."),
            Some(Err(error)),
        ),
    }
}

/// Takes a request to the callback: what the browser is told, and how the waiting for it ends.
pub fn accept_redirect(request: &[u8], expected_state: &str) -> (r: (
    String,
    Option<Result<String, ItzonError>>,
))
    ensures
        ({
            let target = requested(lossy_text(request@));
            let brought = brought_back(
                urls::url_of("http://127.0.0.1"@ + target),
                expected_state@,
            );
            &&& r.0@ == told_browser(brought)
            &&& match brought {
                Ok(Some(code)) => r.1 matches Some(Ok(found)) && found@ == code,
                Ok(None) => r.1 is None,
                Err(reason) => r.1 matches Some(Err(error)) && error.text() == reason,
            }
        }),
{
    let text = text_from_bytes(request);
    let target = request_target(text.as_str());
    answer_callback(callback_code(target.as_str(), expected_state))
}

/// What the token endpoint hands out.
#[derive(Debug)]
pub struct TokenResponse {
    pub access_token: String,
    pub refresh_token: String,
    /// Seconds.
    pub expires_in: u64,
    pub refresh_expires_in: u64,
    pub scope: String,
}

pub struct TokenResponseView {
    pub access_token: Seq<char>,
    pub refresh_token: Seq<char>,
    pub expires_in: u64,
    pub refresh_expires_in: u64,
    pub scope: Seq<char>,
}

impl View for TokenResponse {
    type V = TokenResponseView;

    open spec fn view(&self) -> TokenResponseView {
        TokenResponseView {
            access_token: self.access_token@,
            refresh_token: self.refresh_token@,
            expires_in: self.expires_in,
            refresh_expires_in: self.refresh_expires_in,
            scope: self.scope@,
        }
    }
}

/// How long an access token lasts where nothing is said: an hour.
pub fn default_access_lifetime() -> (r: u64)
    ensures
        r == 3600,
{
    3600
}

/// How long a refresh token lasts where nothing is said: thirty days.
pub fn default_refresh_lifetime() -> (r: u64)
    ensures
        r == 2_592_000,
{
    2_592_000
}

/// The answer of the token endpoint.
#[derive(Debug)]
pub enum TokenAnswer {
    /// The request was refused. The two texts are empty where nothing was said.
    Refused { status: String, error: String, error_description: String },
    /// Something was handed out that cannot be read.
    Unreadable,
    Granted(TokenResponse),
}

/// What is told of a refusal.
pub open spec fn refusal_detail(error: Seq<char>, description: Seq<char>) -> Seq<char> {
    if error.len() > 0 && description.len() > 0 {
        error + ": "@ + description
    } else if error.len() > 0 {
        error
    } else if description.len() > 0 {
        description
    } else {
        "OAuth request rejected"@
    }
}

fn describe_refusal(error: &str, description: &str) -> (r: String)
    ensures
        r@ == refusal_detail(error@, description@),
{
    if !error.is_empty() && !description.is_empty() {
        let mut detail = error.to_string();
        detail.append(": ");
        detail.append(description);
        detail
    } else if !error.is_empty() {
        error.to_string()
    } else if !description.is_empty() {
        description.to_string()
    } else {
        "OAuth request rejected".to_string()
    }
}

/// The token that an answer hands out. Where it says nothing of the scopes, they are those of
/// before.
pub open spec fn granted(
    answer: TokenAnswer,
    previous_scope: Option<Seq<char>>,
) -> Result<TokenResponseView, Seq<char>> {
    match answer {
        TokenAnswer::Refused { status, error, error_description } => Err(
            "itzon OAuth error (HTTP "@ + status@ + "): "@ + refusal_detail(
                error@,
                error_description@,
            ),
        ),
        TokenAnswer::Unreadable => Err(ItzonError::InvalidTokenResponse.text()),
        TokenAnswer::Granted(token) => {
            let scope = if text::trimmed(token@.scope).len() > 0 {
                token@.scope
            } else {
                match previous_scope {
                    Some(scope) => scope,
                    None => seq![],
                }
            };
            if token@.access_token.len() == 0 || token@.refresh_token.len() == 0 || !has_scopes(
                scope,
            ) {
                Err(ItzonError::IncompleteToken.text())
            } else {
                Ok(TokenResponseView { scope, ..token@ })
            }
        },
    }
}

pub fn parse_token_response(answer: TokenAnswer, previous_scope: Option<&str>) -> (r: Result<
    TokenResponse,
    ItzonError,
>)
    ensures
        match r {
            Ok(token) => granted(answer, previous_scope.deep_view()) == Ok::<
                TokenResponseView,
                Seq<char>,
            >(token@),
            Err(error) => granted(answer, previous_scope.deep_view()) == Err::<
                TokenResponseView,
                Seq<char>,
            >(error.text()),
        },
{
    match answer {
        TokenAnswer::Refused { status, error, error_description } => {
            let detail = describe_refusal(error.as_str(), error_description.as_str());
            Err(ItzonError::TokenRejected(status, detail))
        },
        TokenAnswer::Unreadable => Err(ItzonError::InvalidTokenResponse),
        TokenAnswer::Granted(token) => {
            let TokenResponse {
                access_token,
                refresh_token,
                expires_in,
                refresh_expires_in,
                mut scope,
            } = token;
            if text::trim(scope.as_str()).is_empty() {
                scope = match previous_scope {
                    Some(scope) => scope.to_string(),
                    None => String::new(),
                };
                assert(previous_scope is None ==> scope@ =~= seq![]);
            }
            if access_token.as_str().is_empty() || refresh_token.as_str().is_empty()
                || !has_required_scopes(scope.as_str()) {
                return Err(ItzonError::IncompleteToken);
            }
            Ok(TokenResponse { access_token, refresh_token, expires_in, refresh_expires_in, scope })
        },
    }
}

/// When something that lasts for a while from now ends; it lasts for a second at least.
pub open spec fn end_after(now: u64, lifetime: u64) -> u64 {
    let lasting = if lifetime == 0 {
        1
    } else {
        lifetime as int
    };
    if now + lasting > u64::MAX {
        u64::MAX
    } else {
        (now + lasting) as u64
    }
}

fn expiry(now: u64, lifetime: u64) -> (r: u64)
    ensures
        r == end_after(now, lifetime),
{
    if lifetime == 0 {
        now.saturating_add(1)
    } else {
        now.saturating_add(lifetime)
    }
}

/// The token of an account, from what was handed out now.
pub open spec fn token_of(
    response: TokenResponseView,
    client_id: Seq<char>,
    username: Seq<char>,
    now: u64,
) -> TokenView {
    TokenView {
        access_token: response.access_token,
        refresh_token: response.refresh_token,
        client_id,
        scope: response.scope,
        username,
        expires_at: end_after(now, response.expires_in),
        refresh_expires_at: end_after(now, response.refresh_expires_in),
    }
}

fn build_token(response: TokenResponse, client_id: &str, username: String, now: u64) -> (r:
    OAuthToken)
    ensures
        r@ == token_of(response@, client_id@, username@, now),
{
    OAuthToken {
        expires_at: expiry(now, response.expires_in),
        refresh_expires_at: expiry(now, response.refresh_expires_in),
        access_token: response.access_token,
        refresh_token: response.refresh_token,
        client_id: client_id.to_string(),
        scope: response.scope,
        username,
    }
}

/// The token of the account that just signed in, under the name that the service tells.
pub open spec fn signed_in(
    response: TokenResponseView,
    client_id: Seq<char>,
    told_name: Seq<char>,
    now: u64,
) -> Result<TokenView, Seq<char>> {
    let username = letters::lowercase(text::trimmed(told_name));
    if is_username(username) {
        Ok(token_of(response, client_id, username, now))
    } else {
        Err(ItzonError::InvalidOAuthUsername.text())
    }
}

pub fn connected_token(
    response: TokenResponse,
    client_id: &str,
    told_name: &str,
    now: u64,
) -> (r: Result<OAuthToken, ItzonError>)
    ensures
        match r {
            Ok(token) => signed_in(response@, client_id@, told_name@, now) == Ok::<
                TokenView,
                Seq<char>,
            >(token@),
            Err(error) => signed_in(response@, client_id@, told_name@, now) == Err::<
                TokenView,
                Seq<char>,
            >(error.text()),
        },
{
    let username = letters::to_lowercase(text::trim(told_name));
    if !valid_username(username.as_str()) {
        return Err(ItzonError::InvalidOAuthUsername);
    }
    Ok(build_token(response, client_id, username, now))
}

/// A token that was handed out to a program with a proper id, for an account with a proper name, is
/// complete: it can be held.
pub proof fn a_granted_token_is_complete(
    answer: TokenAnswer,
    previous_scope: Option<Seq<char>>,
    client_id: Seq<char>,
    told_name: Seq<char>,
    now: u64,
)
    requires
        is_client_id(client_id),
    ensures
        granted(answer, previous_scope) matches Ok(response) ==> (signed_in(
            response,
            client_id,
            told_name,
            now,
        ) matches Ok(token) ==> is_complete(token)),
{
}

/// The form that exchanges a code for a token.
pub open spec fn exchange_pairs(
    client_id: Seq<char>,
    code: Seq<char>,
    verifier: Seq<char>,
    redirect_uri: Seq<char>,
) -> Seq<(Seq<char>, Seq<char>)> {
    seq![
        ("grant_type"@, "authorization_code"@),
        ("client_id"@, client_id),
        ("code"@, code),
        ("code_verifier"@, verifier),
        ("redirect_uri"@, redirect_uri),
    ]
}

pub fn exchange_form(client_id: &str, code: &str, verifier: &str, redirect_uri: &str) -> (r: Vec<
    (String, String),
>)
    ensures
        urls::pairs_view(r@) == exchange_pairs(client_id@, code@, verifier@, redirect_uri@),
{
    let pairs: Vec<(String, String)> = vec![
        ("grant_type".to_string(), "authorization_code".to_string()),
        ("client_id".to_string(), client_id.to_string()),
        ("code".to_string(), code.to_string()),
        ("code_verifier".to_string(), verifier.to_string()),
        ("redirect_uri".to_string(), redirect_uri.to_string()),
    ];
    assert(urls::pairs_view(pairs@) =~= exchange_pairs(
        client_id@,
        code@,
        verifier@,
        redirect_uri@,
    ));
    pairs
}

/// The form that exchanges a refresh token for a new one.
pub open spec fn renewal_pairs(
    client_id: Seq<char>,
    refresh_token: Seq<char>,
) -> Seq<(Seq<char>, Seq<char>)> {
    seq![
        ("grant_type"@, "refresh_token"@),
        ("client_id"@, client_id),
        ("refresh_token"@, refresh_token),
    ]
}

pub fn renewal_form(client_id: &str, refresh_token: &str) -> (r: Vec<(String, String)>)
    ensures
        urls::pairs_view(r@) == renewal_pairs(client_id@, refresh_token@),
{
    let pairs: Vec<(String, String)> = vec![
        ("grant_type".to_string(), "refresh_token".to_string()),
        ("client_id".to_string(), client_id.to_string()),
        ("refresh_token".to_string(), refresh_token.to_string()),
    ];
    assert(urls::pairs_view(pairs@) =~= renewal_pairs(client_id@, refresh_token@));
    pairs
}

/// What is to be done to have a token that can be used.
#[derive(Debug)]
pub enum AccessStep {
    /// There is none.
    Missing,
    /// This one can be used.
    Use(OAuthToken),
    /// This one has to be exchanged for a new one, with the form.
    Renew { current: OAuthToken, form: Vec<(String, String)> },
    /// The one that there is cannot be exchanged any more.
    Expired,
}

/// Whether a token can be used for a while yet.
pub open spec fn is_current(token: TokenView, now: u64) -> bool {
    token.expires_at > (if now + RENEWAL_MARGIN_SECS > u64::MAX {
        u64::MAX as int
    } else {
        now + RENEWAL_MARGIN_SECS
    })
}

pub open spec fn is_access_step(step: AccessStep, held: Option<TokenView>, now: u64) -> bool {
    match held {
        None => step is Missing,
        Some(token) => if is_current(token, now) {
            step matches AccessStep::Use(found) && found@ == token
        } else if token.refresh_expires_at <= now {
            step is Expired
        } else {
            step matches AccessStep::Renew { current, form } && current@ == token
                && urls::pairs_view(form@) == renewal_pairs(token.client_id, token.refresh_token)
        },
    }
}

/// What is to be done to have a token that can be used now.
pub fn access_token(account: &Account, now: u64) -> (r: AccessStep)
    ensures
        is_access_step(r, account@.token, now),
{
    let held = match account.token() {
        Some(held) => held,
        None => {
            return AccessStep::Missing;
        },
    };
    if held.expires_at > now.saturating_add(RENEWAL_MARGIN_SECS) {
        AccessStep::Use(held.clone())
    } else if held.refresh_expires_at <= now {
        AccessStep::Expired
    } else {
        AccessStep::Renew {
            current: held.clone(),
            form: renewal_form(held.client_id.as_str(), held.refresh_token.as_str()),
        }
    }
}

/// Whether an error says that a token can never be exchanged again.
pub open spec fn ends_the_grant(error: Seq<char>) -> bool {
    text::position_of(error, "invalid_grant"@) is Some
}

/// Takes the answer to an exchange of a token. The new token is to be kept safe and then held. Where
/// the answer says that the token is over, it is forgotten.
pub fn renew(account: &mut Account, current: &OAuthToken, answer: TokenAnswer, now: u64) -> (r:
    Result<OAuthToken, ItzonError>)
    ensures
        match granted(answer, Some(current@.scope)) {
            Ok(response) => {
                &&& r matches Ok(token) && token@ == token_of(
                    response,
                    current@.client_id,
                    current@.username,
                    now,
                )
                &&& final(account)@ == old(account)@
            },
            Err(reason) => {
                &&& r matches Err(error) && error.text() == reason
                &&& final(account)@ == (if ends_the_grant(reason) && old(account)@.token is Some {
                    old(account)@.with_token(None)
                } else {
                    old(account)@
                })
            },
        },
{
    match parse_token_response(answer, Some(current.scope.as_str())) {
        Ok(response) => Ok(
            build_token(response, current.client_id.as_str(), current.username.clone(), now),
        ),
        Err(error) => {
            let message = error.message();
            if text::contains_text(message.as_str(), "invalid_grant") {
                let _ = disconnect(account);
            }
            Err(error)
        },
    }
}

/// What signs in to chat.
#[derive(Debug)]
pub struct ChatCredential {
    pub access_token: String,
    pub username: String,
}

pub struct CredentialView {
    pub access_token: Seq<char>,
    pub username: Seq<char>,
}

impl View for ChatCredential {
    type V = CredentialView;

    open spec fn view(&self) -> CredentialView {
        CredentialView { access_token: self.access_token@, username: self.username@ }
    }
}

/// What signs in to chat with a token that can be used.
pub fn chat_credential(token: OAuthToken) -> (r: ChatCredential)
    ensures
        r@ == (CredentialView {
            access_token: token@.access_token,
            username: token@.username,
        }),
{
    ChatCredential { access_token: token.access_token, username: token.username }
}

/// A token that was renewed stays that of the same program and account, and is complete where the
/// one before it was.
pub proof fn a_renewed_token_is_complete(
    current: TokenView,
    answer: TokenAnswer,
    now: u64,
)
    requires
        is_complete(current),
    ensures
        granted(answer, Some(current.scope)) matches Ok(response) ==> ({
            let next = token_of(response, current.client_id, current.username, now);
            &&& is_complete(next)
            &&& next.username == current.username
            &&& next.client_id == current.client_id
        }),
{
}

/// Whether the value is told under the name, and nothing else is.
pub open spec fn tells_once(
    pairs: Seq<(Seq<char>, Seq<char>)>,
    name: Seq<char>,
    value: Seq<char>,
) -> bool {
    exists|i: int|
        0 <= i < pairs.len() && #[trigger] pairs[i] == (name, value) && forall|j: int|
            0 <= j < pairs.len() && j != i ==> (#[trigger] pairs[j]).0 != name
}

/// An authorization is asked for with the state and the challenge of the sign-in, for the program
/// that asks, with a code for an answer at the address that is told; each of these once.
pub proof fn an_authorization_asks_for_itself(
    client_id: Seq<char>,
    redirect_uri: Seq<char>,
    session: OAuthSessionView,
)
    ensures
        ({
            let pairs = authorization_pairs(client_id, redirect_uri, session);
            &&& pairs.len() == 7
            &&& tells_once(pairs, "state"@, session.state)
            &&& tells_once(pairs, "code_challenge"@, session.challenge)
            &&& tells_once(pairs, "code_challenge_method"@, "S256"@)
            &&& tells_once(pairs, "client_id"@, client_id)
            &&& tells_once(pairs, "redirect_uri"@, redirect_uri)
            &&& tells_once(pairs, "response_type"@, "code"@)
            &&& tells_once(pairs, "scope"@, "identity chat api:read"@)
        }),
{
    reveal_strlit("client_id");
    reveal_strlit("redirect_uri");
    reveal_strlit("response_type");
    reveal_strlit("scope");
    reveal_strlit("state");
    reveal_strlit("code_challenge");
    reveal_strlit("code_challenge_method");
    let pairs = authorization_pairs(client_id, redirect_uri, session);
    assert("scope"@[1] == 'c' && "state"@[1] == 't');
    assert("client_id"@.len() == 9 && "redirect_uri"@.len() == 12 && "response_type"@.len() == 13
        && "scope"@.len() == 5 && "state"@.len() == 5 && "code_challenge"@.len() == 14
        && "code_challenge_method"@.len() == 21);
    assert(pairs[0] == ("client_id"@, client_id));
    assert(pairs[1] == ("redirect_uri"@, redirect_uri));
    assert(pairs[2] == ("response_type"@, "code"@));
    assert(pairs[3] == ("scope"@, "identity chat api:read"@));
    assert(pairs[4] == ("state"@, session.state));
    assert(pairs[5] == ("code_challenge"@, session.challenge));
    assert(pairs[6] == ("code_challenge_method"@, "S256"@));
}

proof fn lemma_last_value(query: Seq<(Seq<char>, Seq<char>)>, name: Seq<char>)
    ensures
        match last_value(query, name) {
            Some(value) => exists|i: int|
                0 <= i < query.len() && #[trigger] query[i] == (name, value) && forall|j: int|
                    i < j < query.len() ==> (#[trigger] query[j]).0 != name,
            None => forall|j: int| 0 <= j < query.len() ==> (#[trigger] query[j]).0 != name,
        },
    decreases query.len(),
{
    if query.len() > 0 {
        let n = query.len() - 1;
        assert(query[n] == query.last());
        if query.last().0 != name {
            let front = query.drop_last();
            lemma_last_value(front, name);
            match last_value(query, name) {
                Some(value) => {
                    let i = choose|i: int|
                        0 <= i < front.len() && #[trigger] front[i] == (name, value) && forall|j: int|
                            i < j < front.len() ==> (#[trigger] front[j]).0 != name;
                    assert(query[i] == (name, value));
                    assert forall|j: int| i < j < query.len() implies (#[trigger] query[j]).0
                        != name by {
                        if j < n {
                            assert(query[j] == front[j]);
                        }
                    }
                },
                None => {
                    assert forall|j: int| 0 <= j < query.len() implies (#[trigger] query[j]).0
                        != name by {
                        if j < n {
                            assert(query[j] == front[j]);
                        }
                    }
                },
            }
        } else {
            assert(query[n] == (name, query.last().1));
        }
    }
}

/// Where a value is told once, it is the one that is read.
proof fn lemma_told_once_is_read(
    query: Seq<(Seq<char>, Seq<char>)>,
    name: Seq<char>,
    value: Seq<char>,
)
    requires
        tells_once(query, name, value),
    ensures
        last_value(query, name) == Some(value),
{
    lemma_last_value(query, name);
    let i = choose|i: int|
        0 <= i < query.len() && #[trigger] query[i] == (name, value) && forall|j: int|
            0 <= j < query.len() && j != i ==> (#[trigger] query[j]).0 != name;
    assert(query[i].0 == name);
    match last_value(query, name) {
        Some(found) => {
            let k = choose|k: int|
                0 <= k < query.len() && #[trigger] query[k] == (name, found) && forall|j: int|
                    k < j < query.len() ==> (#[trigger] query[j]).0 != name;
            assert(query[k].0 == name);
        },
        None => {},
    }
}

/// A browser that comes back with a code and with the state that was asked for ends the sign-in
/// with that code; with any other state it does not, nor with an error.
pub proof fn what_was_asked_for_is_accepted(
    client_id: Seq<char>,
    redirect_uri: Seq<char>,
    session: OAuthSessionView,
    asked: Seq<char>,
    back: UrlView,
    brought: Seq<char>,
    code: Seq<char>,
)
    requires
        tells_once(authorization_pairs(client_id, redirect_uri, session), "state"@, asked),
        back.path == "/oauth/itzon/callback"@,
        tells_once(back.query, "state"@, brought),
        tells_once(back.query, "code"@, code),
        code.len() > 0,
    ensures
        brought == asked && (forall|i: int|
            0 <= i < back.query.len() ==> (#[trigger] back.query[i]).0 != "error"@)
            ==> brought_back(Ok(back), session.state) == Ok::<Option<Seq<char>>, Seq<char>>(
            Some(code),
        ),
        brought != asked ==> brought_back(Ok(back), session.state) == Err::<
            Option<Seq<char>>,
            Seq<char>,
        >(ItzonError::StateMismatch.text()),
        brought == asked && (exists|i: int|
            0 <= i < back.query.len() && (#[trigger] back.query[i]).0 == "error"@)
            ==> brought_back(Ok(back), session.state) is Err,
{
    an_authorization_asks_for_itself(client_id, redirect_uri, session);
    let pairs = authorization_pairs(client_id, redirect_uri, session);
    lemma_told_once_is_read(pairs, "state"@, asked);
    lemma_told_once_is_read(pairs, "state"@, session.state);
    lemma_told_once_is_read(back.query, "state"@, brought);
    lemma_told_once_is_read(back.query, "code"@, code);
    lemma_last_value(back.query, "error"@);
    match last_value(back.query, "error"@) {
        Some(value) => {
            let i = choose|i: int|
                0 <= i < back.query.len() && #[trigger] back.query[i] == ("error"@, value)
                    && forall|j: int|
                    i < j < back.query.len() ==> (#[trigger] back.query[j]).0 != "error"@;
            assert(back.query[i].0 == "error"@);
        },
        None => {},
    }
}

/// The browser is sent back to the page at which it is waited for: the address that is told ends
/// with the only path on which anything is taken, and ports are told apart.
pub proof fn the_browser_comes_back_to_the_callback(
    port: u16,
    other: u16,
    back: UrlView,
    expected_state: Seq<char>,
)
    ensures
        callback_uri(port) == "http://127.0.0.1:"@ + letters::decimal(port as nat)
            + "/oauth/itzon/callback"@,
        callback_uri(port) == callback_uri(other) ==> port == other,
        back.path != "/oauth/itzon/callback"@ ==> brought_back(Ok(back), expected_state) == Ok::<
            Option<Seq<char>>,
            Seq<char>,
        >(None),
        back.path == "/oauth/itzon/callback"@ ==> brought_back(Ok(back), expected_state) != Ok::<
            Option<Seq<char>>,
            Seq<char>,
        >(None),
{
    let path = "/oauth/itzon/callback"@;
    if callback_uri(port) == callback_uri(other) {
        let start = "http://127.0.0.1:"@.len() as int;
        let one = callback_uri(port);
        let end = one.len() - path.len();
        assert(one.subrange(start, end) =~= letters::decimal(port as nat));
        assert(callback_uri(other).subrange(start, end) =~= letters::decimal(other as nat));
        letters::lemma_decimal_injective(port as nat, other as nat);
    }
}

/// The verifier that is told in exchange for a token is the one whose digest was shown when the
/// authorization was asked for, by the same program and with the same address.
pub proof fn the_verifier_answers_the_challenge(
    client_id: Seq<char>,
    redirect_uri: Seq<char>,
    code: Seq<char>,
    session: OAuthSessionView,
    told: Seq<char>,
    shown: Seq<char>,
)
    requires
        session.challenge == challenge_of(session.verifier),
        tells_once(
            exchange_pairs(client_id, code, session.verifier, redirect_uri),
            "code_verifier"@,
            told,
        ),
        tells_once(
            authorization_pairs(client_id, redirect_uri, session),
            "code_challenge"@,
            shown,
        ),
    ensures
        told == session.verifier,
        shown == base64_url_text(sha256_of(encode_utf8(told))),
{
    an_exchange_tells_its_code(client_id, code, session.verifier, redirect_uri);
    an_authorization_asks_for_itself(client_id, redirect_uri, session);
    let form = exchange_pairs(client_id, code, session.verifier, redirect_uri);
    let pairs = authorization_pairs(client_id, redirect_uri, session);
    lemma_told_once_is_read(form, "code_verifier"@, told);
    lemma_told_once_is_read(form, "code_verifier"@, session.verifier);
    lemma_told_once_is_read(pairs, "code_challenge"@, shown);
    lemma_told_once_is_read(pairs, "code_challenge"@, session.challenge);
}

/// A code is exchanged with the verifier, for the program and the address that it was given for;
/// each is told once, and no secret of the program.
pub proof fn an_exchange_tells_its_code(
    client_id: Seq<char>,
    code: Seq<char>,
    verifier: Seq<char>,
    redirect_uri: Seq<char>,
)
    ensures
        ({
            let form = exchange_pairs(client_id, code, verifier, redirect_uri);
            &&& form.len() == 5
            &&& tells_once(form, "grant_type"@, "authorization_code"@)
            &&& tells_once(form, "client_id"@, client_id)
            &&& tells_once(form, "code"@, code)
            &&& tells_once(form, "code_verifier"@, verifier)
            &&& tells_once(form, "redirect_uri"@, redirect_uri)
        }),
{
    reveal_strlit("grant_type");
    reveal_strlit("client_id");
    reveal_strlit("code");
    reveal_strlit("code_verifier");
    reveal_strlit("redirect_uri");
    let form = exchange_pairs(client_id, code, verifier, redirect_uri);
    assert("grant_type"@.len() == 10 && "client_id"@.len() == 9 && "code"@.len() == 4
        && "code_verifier"@.len() == 13 && "redirect_uri"@.len() == 12);
    assert(form[0] == ("grant_type"@, "authorization_code"@));
    assert(form[1] == ("client_id"@, client_id));
    assert(form[2] == ("code"@, code));
    assert(form[3] == ("code_verifier"@, verifier));
    assert(form[4] == ("redirect_uri"@, redirect_uri));
}

/// A token is exchanged for a new one with its own refresh token, by the program that it is for.
pub proof fn a_renewal_tells_its_token(client_id: Seq<char>, refresh_token: Seq<char>)
    ensures
        ({
            let form = renewal_pairs(client_id, refresh_token);
            &&& form.len() == 3
            &&& tells_once(form, "grant_type"@, "refresh_token"@)
            &&& tells_once(form, "client_id"@, client_id)
            &&& tells_once(form, "refresh_token"@, refresh_token)
        }),
{
    reveal_strlit("grant_type");
    reveal_strlit("client_id");
    reveal_strlit("refresh_token");
    let form = renewal_pairs(client_id, refresh_token);
    assert("grant_type"@.len() == 10 && "client_id"@.len() == 9 && "refresh_token"@.len() == 13);
    assert(form[0] == ("grant_type"@, "refresh_token"@));
    assert(form[1] == ("client_id"@, client_id));
    assert(form[2] == ("refresh_token"@, refresh_token));
}

/// What a request asks for is read from its first line: all between `GET ` and the next white space.
pub proof fn a_request_names_its_target(target: Seq<char>, rest: Seq<char>, request: Seq<char>)
    requires
        target.len() > 0,
        forall|i: int| 0 <= i < target.len() ==> !text::is_white_space(#[trigger] target[i]),
        rest.len() == 0 || text::is_white_space(rest[0]),
    ensures
        requested(seq!['G', 'E', 'T', ' '] + target + rest) == target,
        !seq!['G', 'E', 'T', ' '].is_prefix_of(request) ==> requested(request).len() == 0,
        forall|i: int|
            0 <= i < requested(request).len() ==> !text::is_white_space(
                #[trigger] requested(request)[i],
            ),
{
    let get = "GET "@;
    let stop = CharClass::Only('\n');
    let space = CharClass::WhiteSpace;
    reveal_strlit("GET ");
    assert(get =~= seq!['G', 'E', 'T', ' ']);
    let whole = get + target + rest;
    let end = text::first_index(whole, stop);
    text::lemma_first_index(whole, stop);
    assert(end >= 4 + target.len()) by {
        if end < 4 {
            assert(whole[end] == get[end]);
        } else if end < 4 + target.len() {
            assert(whole[end] == target[end - 4]);
        }
    }
    let line = whole.take(end);
    assert(get.is_prefix_of(line)) by {
        assert(line.subrange(0, 4) =~= get);
    }
    let left = line.skip(4);
    assert(left =~= target + rest.take(end - 4 - target.len()));
    assert(left[0] == target[0]);
    text::lemma_trimmed_start(left, space, 0);
    assert(left.skip(0) =~= left);
    if target.len() < left.len() {
        assert(left[target.len() as int] == rest[0]);
    }
    assert forall|i: int| 0 <= i < target.len() implies !space.has(#[trigger] left[i]) by {
        assert(left[i] == target[i]);
    }
    text::lemma_first_index_unique(left, space, target.len() as int);
    assert(left.take(target.len() as int) =~= target);
    assert(text::words(left)[0] == target);
    // Any other request.
    let first = request.take(text::first_index(request, stop));
    text::lemma_first_index(request, stop);
    if get.is_prefix_of(first) {
        assert(request.subrange(0, 4) =~= first.subrange(0, 4));
        let behind = first.skip(4);
        if text::words(behind).len() > 0 {
            let start = text::trimmed_start(behind, space);
            text::lemma_first_index(start, space);
            assert(text::words(behind)[0] == start.take(text::first_index(start, space)));
            assert forall|i: int| 0 <= i < requested(request).len() implies !text::is_white_space(
                #[trigger] requested(request)[i],
            ) by {
                assert(requested(request)[i] == start[i]);
                assert(!space.has(start[i]));
            }
        }
    }
}

/// An answer to the browser begins with its status, tells the length of its page in bytes, and ends
/// with that page, in which the message stands.
pub proof fn an_answer_tells_its_length(status: u16, message: Seq<char>)
    ensures
        ("HTTP/1.1 "@ + letters::decimal(status as nat) + " "@).is_prefix_of(answer(status, message)),
        exists|head: Seq<char>|
            answer(status, message) == #[trigger] (head + "\r\nContent-Length: "@
                + letters::decimal(encode_utf8(page(message)).len()) + "\r\nConnection: close"@
                + "\r\n\r\n"@ + page(message)),
        exists|open: Seq<char>, close: Seq<char>|
            page(message) == #[trigger] (open + "<h2>"@ + message + "</h2>"@ + close),
{
    reveal_strlit("\r\nContent-Type: text/html; charset=utf-8\r\nContent-Length: ");
    reveal_strlit("\r\nContent-Type: text/html; charset=utf-8");
    reveal_strlit("\r\nContent-Length: ");
    reveal_strlit("\r\nConnection: close\r\n\r\n");
    reveal_strlit("\r\nConnection: close");
    reveal_strlit("\r\n\r\n");
    let reason = if status == 200 {
        "OK"@
    } else {
        "Error"@
    };
    let front = "HTTP/1.1 "@ + letters::decimal(status as nat) + " "@;
    let whole = answer(status, message);
    assert(whole.subrange(0, front.len() as int) =~= front);
    let head = front + reason + "\r\nContent-Type: text/html; charset=utf-8"@;
    assert("\r\nContent-Type: text/html; charset=utf-8\r\nContent-Length: "@
        =~= "\r\nContent-Type: text/html; charset=utf-8"@ + "\r\nContent-Length: "@);
    assert("\r\nConnection: close\r\n\r\n"@ =~= "\r\nConnection: close"@ + "\r\n\r\n"@);
    assert(whole =~= head + "\r\nContent-Length: "@ + letters::decimal(
        encode_utf8(page(message)).len(),
    ) + "\r\nConnection: close"@ + "\r\n\r\n"@ + page(message));
    lemma_page(message);
}

proof fn lemma_page(message: Seq<char>)
    ensures
        exists|open: Seq<char>, close: Seq<char>|
            page(message) == #[trigger] (open + "<h2>"@ + message + "</h2>"@ + close),
{
    reveal_strlit(
        "<!doctype html><html><body style=\"font-family:system-ui;background:#111;color:#eee;text-align:center;padding-top:80px\"><h2>",
    );
    reveal_strlit("</h2><p>You can close this tab.</p></body></html>");
    reveal_strlit("<h2>");
    reveal_strlit("</h2>");
    let top =
        "<!doctype html><html><body style=\"font-family:system-ui;background:#111;color:#eee;text-align:center;padding-top:80px\"><h2>"@;
    let bottom = "</h2><p>You can close this tab.</p></body></html>"@;
    let open = top.take(top.len() - 4);
    let close = bottom.skip(5);
    assert(top =~= open + "<h2>"@);
    assert(bottom =~= "</h2>"@ + close);
    assert(page(message) =~= open + "<h2>"@ + message + "</h2>"@ + close);
}

/// The browser is told of success just where it brought a code.
pub proof fn the_browser_is_told_the_truth(brought: Result<Option<Seq<char>>, Seq<char>>)
    ensures
        "HTTP/1.1 200 "@.is_prefix_of(told_browser(brought)) <==> brought matches Ok(Some(_)),
        "HTTP/1.1 404 "@.is_prefix_of(told_browser(brought)) <==> brought matches Ok(None),
        "HTTP/1.1 400 "@.is_prefix_of(told_browser(brought)) <==> brought is Err,
{
    reveal_strlit("HTTP/1.1 200 ");
    reveal_strlit("HTTP/1.1 404 ");
    reveal_strlit("HTTP/1.1 400 ");
    reveal_strlit("HTTP/1.1 ");
    reveal_strlit(" ");
    reveal_with_fuel(letters::decimal, 4);
    assert(letters::decimal(200) =~= seq!['2', '0', '0']);
    assert(letters::decimal(404) =~= seq!['4', '0', '4']);
    assert(letters::decimal(400) =~= seq!['4', '0', '0']);
    let told = told_browser(brought);
    let status: u16 = match brought {
        Ok(Some(_)) => 200,
        Ok(None) => 404,
        Err(_) => 400,
    };
    let front = "HTTP/1.1 "@ + letters::decimal(status as nat) + " "@;
    assert(told.subrange(0, 13) =~= front);
    assert(told[9] == front[9] && told[11] == front[11]);
    match brought {
        Ok(Some(_)) => {
            assert(front =~= "HTTP/1.1 200 "@);
        },
        Ok(None) => {
            assert(front =~= "HTTP/1.1 404 "@);
        },
        Err(_) => {
            assert(front =~= "HTTP/1.1 400 "@);
        },
    }
    if "HTTP/1.1 200 "@.is_prefix_of(told) {
        assert(told[9] == "HTTP/1.1 200 "@[9]);
    }
    if "HTTP/1.1 404 "@.is_prefix_of(told) {
        assert(told[11] == "HTTP/1.1 404 "@[11]);
        assert(told[9] == "HTTP/1.1 404 "@[9]);
    }
    if "HTTP/1.1 400 "@.is_prefix_of(told) {
        assert(told[11] == "HTTP/1.1 400 "@[11]);
        assert(told[9] == "HTTP/1.1 400 "@[9]);
    }
}

/// A complete token has an access token and a refresh token, is for a program with an id of
/// thirty-two hexadecimal digits and an account with a name of up to sixty-four letters, digits,
/// `_` and `-`, and has the three scopes; and any such token is complete.
pub proof fn a_complete_token_has_all(token: TokenView)
    ensures
        is_complete(token) <==> {
            let scopes = text::words(token.scope);
            &&& token.access_token.len() > 0
            &&& token.refresh_token.len() > 0
            &&& token.client_id.len() == 32
            &&& forall|i: int|
                0 <= i < token.client_id.len() ==> ('0' <= #[trigger] token.client_id[i] <= '9'
                    || 'a' <= token.client_id[i] <= 'f' || 'A' <= token.client_id[i] <= 'F')
            &&& 1 <= token.username.len() <= 64
            &&& forall|i: int|
                0 <= i < token.username.len() ==> ('0' <= #[trigger] token.username[i] <= '9'
                    || 'a' <= token.username[i] <= 'z' || 'A' <= token.username[i] <= 'Z'
                    || token.username[i] == '_' || token.username[i] == '-')
            &&& scopes.contains("identity"@) && scopes.contains("chat"@) && scopes.contains(
                "api:read"@,
            )
        },
{
    if is_complete(token) {
        assert forall|i: int| 0 <= i < token.client_id.len() implies ('0'
            <= #[trigger] token.client_id[i] <= '9' || 'a' <= token.client_id[i] <= 'f' || 'A'
            <= token.client_id[i] <= 'F') by {
            assert(letters::is_ascii_hexdigit(token.client_id[i]));
        }
        assert forall|i: int| 0 <= i < token.username.len() implies ('0'
            <= #[trigger] token.username[i] <= '9' || 'a' <= token.username[i] <= 'z' || 'A'
            <= token.username[i] <= 'Z' || token.username[i] == '_' || token.username[i] == '-') by {
            assert(sending::is_slug_char(token.username[i]));
        }
    }
}

/// A token that is handed out is taken as it is, but that scopes which are not told are those of
/// before; and it is taken where both its parts and all the scopes are there.
pub proof fn what_is_granted_is_taken(token: TokenResponse, previous_scope: Option<Seq<char>>)
    ensures
        ({
            let blank = forall|i: int|
                0 <= i < token@.scope.len() ==> text::is_white_space(#[trigger] token@.scope[i]);
            let scope = if !blank {
                token@.scope
            } else if previous_scope is Some {
                previous_scope->0
            } else {
                seq![]
            };
            let scopes = text::words(scope);
            match granted(TokenAnswer::Granted(token), previous_scope) {
                Ok(taken) => {
                    &&& taken.access_token == token@.access_token
                    &&& taken.refresh_token == token@.refresh_token
                    &&& taken.expires_in == token@.expires_in
                    &&& taken.refresh_expires_in == token@.refresh_expires_in
                    &&& taken.scope == scope
                    &&& token@.access_token.len() > 0 && token@.refresh_token.len() > 0
                    &&& scopes.contains("identity"@) && scopes.contains("chat"@)
                        && scopes.contains("api:read"@)
                },
                Err(reason) => {
                    &&& reason == ItzonError::IncompleteToken.text()
                    &&& token@.access_token.len() == 0 || token@.refresh_token.len() == 0
                        || !scopes.contains("identity"@) || !scopes.contains("chat"@)
                        || !scopes.contains("api:read"@)
                },
            }
        }),
{
    text::lemma_trimmed_blank(token@.scope);
}

/// A refusal is told with its status and with all that the answer says.
pub proof fn a_refusal_tells_its_reasons(
    status: String,
    error: String,
    error_description: String,
    previous_scope: Option<Seq<char>>,
)
    ensures
        granted(
            TokenAnswer::Refused { status, error, error_description },
            previous_scope,
        ) matches Err(reason) && {
            &&& ("itzon OAuth error (HTTP "@ + status@ + "): "@).is_prefix_of(reason)
            &&& error_description@.len() > 0 ==> error_description@.is_suffix_of(reason)
            &&& error_description@.len() == 0 && error@.len() > 0 ==> error@.is_suffix_of(reason)
            &&& error@.len() > 0 ==> ("itzon OAuth error (HTTP "@ + status@ + "): "@
                + error@).is_prefix_of(reason)
        },
{
    let front = "itzon OAuth error (HTTP "@ + status@ + "): "@;
    let detail = refusal_detail(error@, error_description@);
    let reason = front + detail;
    assert(reason.subrange(0, front.len() as int) =~= front);
    if error@.len() > 0 {
        assert(reason.subrange(0, (front + error@).len() as int) =~= front + error@);
    }
    if error_description@.len() > 0 {
        let n = error_description@.len();
        assert(reason.subrange(reason.len() - n, reason.len() as int) =~= error_description@);
    } else if error@.len() > 0 {
        assert(reason.subrange(reason.len() - error@.len(), reason.len() as int) =~= error@);
    }
}

/// A token ends when its time from now is over, and a second from now at the earliest; it is that of
/// the program and the account, with the parts that were handed out.
pub proof fn a_token_lasts_as_told(
    response: TokenResponseView,
    client_id: Seq<char>,
    username: Seq<char>,
    now: u64,
)
    ensures
        ({
            let token = token_of(response, client_id, username, now);
            &&& token.access_token == response.access_token
            &&& token.refresh_token == response.refresh_token
            &&& token.scope == response.scope
            &&& token.client_id == client_id
            &&& token.username == username
            &&& response.expires_in > 0 && now + response.expires_in <= u64::MAX
                ==> token.expires_at - now == response.expires_in
            &&& response.refresh_expires_in > 0 && now + response.refresh_expires_in <= u64::MAX
                ==> token.refresh_expires_at - now == response.refresh_expires_in
            &&& response.expires_in == 0 && now < u64::MAX ==> token.expires_at - now == 1
            &&& response.refresh_expires_in == 0 && now < u64::MAX ==> token.refresh_expires_at
                - now == 1
            &&& now + response.expires_in > u64::MAX ==> token.expires_at == u64::MAX
            &&& now + response.refresh_expires_in > u64::MAX ==> token.refresh_expires_at
                == u64::MAX
        }),
{
}

/// The account that signs in has the name that the service tells, in its normal form, or there is no
/// sign-in.
pub proof fn a_sign_in_has_its_name(
    response: TokenResponseView,
    client_id: Seq<char>,
    told_name: Seq<char>,
    now: u64,
)
    ensures
        signed_in(response, client_id, told_name, now) matches Ok(token) ==> {
            &&& token.username == letters::lowercase(text::trimmed(told_name))
            &&& token.client_id == client_id
            &&& token.access_token == response.access_token
            &&& token.refresh_token == response.refresh_token
        },
        signed_in(response, client_id, told_name, now) is Ok <==> ({
            let name = letters::lowercase(text::trimmed(told_name));
            1 <= name.len() <= 64 && forall|i: int|
                0 <= i < name.len() ==> ('0' <= #[trigger] name[i] <= '9' || 'a' <= name[i] <= 'z'
                    || 'A' <= name[i] <= 'Z' || name[i] == '_' || name[i] == '-')
        }),
{
    let name = letters::lowercase(text::trimmed(told_name));
    if is_username(name) {
        assert forall|i: int| 0 <= i < name.len() implies ('0' <= #[trigger] name[i] <= '9' || 'a'
            <= name[i] <= 'z' || 'A' <= name[i] <= 'Z' || name[i] == '_' || name[i] == '-') by {
            assert(sending::is_slug_char(name[i]));
        }
    }
}

/// A token that is held is used while more than a minute is left of it, renewed with its own refresh
/// token while that is good, and given up after that.
pub proof fn a_token_is_used_while_it_is_good(step: AccessStep, token: TokenView, now: u64)
    requires
        is_access_step(step, Some(token), now),
    ensures
        token.expires_at - now > 60 && now + 60 <= u64::MAX ==> (step matches AccessStep::Use(found)
            && found@ == token),
        step is Use ==> token.expires_at - now > 60,
        token.expires_at - now <= 60 && token.refresh_expires_at > now ==> (
        step matches AccessStep::Renew { current, form } && current@ == token && tells_once(
            urls::pairs_view(form@),
            "refresh_token"@,
            token.refresh_token,
        ) && tells_once(urls::pairs_view(form@), "client_id"@, token.client_id)),
        token.expires_at - now <= 60 && token.refresh_expires_at <= now ==> step is Expired,
        !(step is Missing),
{
    a_renewal_tells_its_token(token.client_id, token.refresh_token);
}

/// Without a token there is nothing to use.
pub proof fn no_token_is_none(step: AccessStep, now: u64)
    requires
        is_access_step(step, None, now),
    ensures
        step is Missing,
{
}

/// The program has the id that it was built with, without the white space around it, where that is
/// one.
pub proof fn a_program_has_its_id(built_with: Seq<char>)
    ensures
        client_id_of(None) is None,
        client_id_of(Some(built_with)) is Some <==> ({
            let id = text::trimmed(built_with);
            id.len() == 32 && forall|i: int|
                0 <= i < id.len() ==> ('0' <= #[trigger] id[i] <= '9' || 'a' <= id[i] <= 'f' || 'A'
                    <= id[i] <= 'F')
        }),
        client_id_of(Some(built_with)) matches Some(id) ==> id == text::trimmed(built_with),
{
    let id = text::trimmed(built_with);
    if is_client_id(id) {
        assert forall|i: int| 0 <= i < id.len() implies ('0' <= #[trigger] id[i] <= '9' || 'a'
            <= id[i] <= 'f' || 'A' <= id[i] <= 'F') by {
            assert(letters::is_ascii_hexdigit(id[i]));
        }
    }
}

/// A grant is over just where the error says so, wherever in it.
pub proof fn an_ended_grant_is_noticed(error: Seq<char>)
    ensures
        ends_the_grant(error) <==> text::holds_text(error, "invalid_grant"@),
{
    text::found_is_held(error, "invalid_grant"@);
}

} // verus!
