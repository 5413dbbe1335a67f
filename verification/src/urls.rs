//! Addresses: which of them are trusted, and how they are written.
use crate::error::ItzonError;
use crate::letters;
use crate::text;
use crate::text::CharClass;
use vstd::prelude::*;
use vstd::string::*;
use vstd::utf8::*;

verus! {

/// The longest address, in characters, whose parts are exchanged. The crate `url` counts the
/// places in an address in 32 bits.
pub const MAX_URL_CHARS: usize = 0xff_ffff;

/// A URL taken apart.
#[derive(Clone, Debug)]
pub struct ParsedUrl {
    /// The URL as it is written.
    pub text: String,
    pub scheme: String,
    pub host: Option<String>,
    pub path: String,
    /// The query as names and values.
    pub query: Vec<(String, String)>,
}

pub struct UrlView {
    pub text: Seq<char>,
    pub scheme: Seq<char>,
    pub host: Option<Seq<char>>,
    pub path: Seq<char>,
    pub query: Seq<(Seq<char>, Seq<char>)>,
}

pub open spec fn pairs_view(pairs: Seq<(String, String)>) -> Seq<(Seq<char>, Seq<char>)> {
    Seq::new(pairs.len(), |i: int| (pairs[i].0@, pairs[i].1@))
}

impl View for ParsedUrl {
    type V = UrlView;

    open spec fn view(&self) -> UrlView {
        UrlView {
            text: self.text@,
            scheme: self.scheme@,
            host: self.host.deep_view(),
            path: self.path@,
            query: pairs_view(self.query@),
        }
    }
}

/// What `url::Url::parse` reads from a text: the URL, or the reason why there is none.
pub uninterp spec fn url_of(text: Seq<char>) -> Result<UrlView, Seq<char>>;

/// `url::Url::parse`, and the parts of the URL as `as_str`, `scheme`, `host_str`, `path` and
/// `query_pairs` give them; for a text that is no URL, what `ParseError` says. The whole result is
/// named: it is fixed by the text. Of it this is claimed: a text without a question mark has no
/// query.
#[verifier::external_body]
pub(crate) fn parse_url(value: &str) -> (r: Result<ParsedUrl, String>)
    ensures
        match r {
            Ok(url) => url_of(value@) == Ok::<UrlView, Seq<char>>(url@),
            Err(reason) => url_of(value@) == Err::<UrlView, Seq<char>>(reason@),
        },
        r matches Ok(url) ==> (!value@.contains('?') ==> url@.query.len() == 0),
{
    let url = url::Url::parse(value).map_err(|error| error.to_string())?;
    Ok(ParsedUrl {
        text: url.as_str().to_string(),
        scheme: url.scheme().to_string(),
        host: url.host_str().map(str::to_string),
        path: url.path().to_string(),
        query: url.query_pairs().map(|(k, v)| (k.into_owned(), v.into_owned())).collect(),
    })
}

/// The schemes of the web.
pub open spec fn is_web_scheme(scheme: Seq<char>) -> bool {
    scheme == "http"@ || scheme == "https"@ || scheme == "ws"@ || scheme == "wss"@
}

/// The schemes that the URL standard calls special.
pub open spec fn is_special_scheme(scheme: Seq<char>) -> bool {
    is_web_scheme(scheme) || scheme == "ftp"@ || scheme == "file"@
}

/// Paths of lower-case letters and slashes.
pub open spec fn is_plain_path(path: Seq<char>) -> bool {
    &&& path.len() > 0
    &&& path[0] == '/'
    &&& forall|i: int|
        0 <= i < path.len() ==> path[i] == '/' || letters::is_ascii_lower(#[trigger] path[i])
}

/// What becomes of a URL under `set_scheme`, `set_path`, `set_query(None)` and
/// `set_fragment(None)` of the crate `url`.
pub uninterp spec fn url_retargeted(
    base: Seq<char>,
    scheme: Seq<char>,
    path: Seq<char>,
) -> Option<UrlView>;

/// `url::Url::parse`, then `set_scheme`, `set_path`, `set_query(None)` and `set_fragment(None)`,
/// and the parts of the URL after that; `None` where the text is no URL or the scheme cannot be
/// set. The whole result is named. Of it this is claimed: between a special scheme and one of the
/// web the scheme of a URL with a host can be set, and from a scheme that is not special to one of
/// the web it cannot; the host stays, the query goes, and a path of letters and slashes is set as
/// it is. The methods stop the program on a URL of over 4 GiB.
#[verifier::external_body]
pub(crate) fn retarget_url(base: &str, scheme: &str, path: &str) -> (r: Option<ParsedUrl>)
    requires
        base@.len() <= MAX_URL_CHARS,
        is_web_scheme(scheme@),
        is_plain_path(path@),
        path@.len() <= 0xff,
    ensures
        match r {
            Some(url) => url_retargeted(base@, scheme@, path@) == Some(url@),
            None => url_retargeted(base@, scheme@, path@) is None,
        },
        match url_of(base@) {
            Ok(from) => from.host is Some ==> (r is Some <==> is_special_scheme(from.scheme)),
            Err(_) => r is None,
        },
        r matches Some(url) ==> url_of(base@) matches Ok(from) && url@.scheme == scheme@
            && url@.host == from.host && url@.path == path@ && url@.query.len() == 0,
{
    let mut url = url::Url::parse(base).ok()?;
    url.set_scheme(scheme).ok()?;
    url.set_path(path);
    url.set_query(None);
    url.set_fragment(None);
    Some(ParsedUrl {
        text: url.as_str().to_string(),
        scheme: url.scheme().to_string(),
        host: url.host_str().map(str::to_string),
        path: url.path().to_string(),
        query: url.query_pairs().map(|(k, v)| (k.into_owned(), v.into_owned())).collect(),
    })
}

/// What becomes of a URL when names and values are appended to its query by the crate `url`.
pub uninterp spec fn url_with_query(
    base: Seq<char>,
    pairs: Seq<(Seq<char>, Seq<char>)>,
) -> Result<UrlView, Seq<char>>;

/// `url::Url::parse`, then `query_pairs_mut` and `append_pair` for each pair, and the parts of the
/// URL after that; for a text that is no URL, what `ParseError` says. The whole result is named. Of
/// it this is claimed: the scheme, the host and the path stay, and `query_pairs` reads the old
/// pairs and behind them the new ones.
#[verifier::external_body]
pub(crate) fn append_query(base: &str, pairs: &Vec<(String, String)>) -> (r: Result<
    ParsedUrl,
    String,
>)
    requires
        base@.len() <= MAX_URL_CHARS,
        !base@.contains('#'),
    ensures
        match r {
            Ok(url) => url_with_query(base@, pairs_view(pairs@)) == Ok::<UrlView, Seq<char>>(url@),
            Err(reason) => url_with_query(base@, pairs_view(pairs@)) == Err::<UrlView, Seq<char>>(
                reason@,
            ),
        },
        match r {
            Ok(url) => url_of(base@) matches Ok(from) && url@.scheme == from.scheme && url@.host
                == from.host && url@.path == from.path && url@.query == from.query + pairs_view(
                pairs@,
            ),
            Err(reason) => url_of(base@) == Err::<UrlView, Seq<char>>(reason@),
        },
{
    let mut url = url::Url::parse(base).map_err(|error| error.to_string())?;
    url.query_pairs_mut().extend_pairs(pairs.iter().map(|pair| (&pair.0, &pair.1)));
    Ok(ParsedUrl {
        text: url.as_str().to_string(),
        scheme: url.scheme().to_string(),
        host: url.host_str().map(str::to_string),
        path: url.path().to_string(),
        query: url.query_pairs().map(|(k, v)| (k.into_owned(), v.into_owned())).collect(),
    })
}

/// The bytes that stand for themselves in a part of a URL.
pub open spec fn is_unreserved(b: u8) -> bool {
    ||| 48 <= b <= 57
    ||| 65 <= b <= 90
    ||| 97 <= b <= 122
    ||| b == 45
    ||| b == 46
    ||| b == 95
    ||| b == 126
}

pub open spec fn upper_hex(d: int) -> char {
    if d < 10 {
        (48 + d) as char
    } else {
        (55 + d) as char
    }
}

/// A byte in a part of a URL.
pub open spec fn encoded_byte(b: u8) -> Seq<char> {
    if is_unreserved(b) {
        seq![b as char]
    } else {
        seq!['%', upper_hex(b as int / 16), upper_hex(b as int % 16)]
    }
}

/// The bytes in a part of a URL.
pub open spec fn encoded_bytes(bytes: Seq<u8>) -> Seq<char>
    decreases bytes.len(),
{
    if bytes.len() == 0 {
        seq![]
    } else {
        encoded_bytes(bytes.drop_last()) + encoded_byte(bytes.last())
    }
}

/// A text as a part of a URL: percent-encoded but for letters, digits, `-`, `.`, `_` and `~`.
pub open spec fn percent_encoded(s: Seq<char>) -> Seq<char> {
    encoded_bytes(encode_utf8(s))
}

/// `urlencoding::encode`: each byte of the text that is not an ASCII letter or digit, `-`, `.`, `_`
/// or `~` is written as `%` and two upper-case hexadecimal digits.
#[verifier::external_body]
pub(crate) fn percent_encode(data: &str) -> (r: String)
    ensures
        r@ == percent_encoded(data@),
{
    urlencoding::encode(data).into_owned()
}

proof fn lemma_encoded_plain(bytes: Seq<u8>, s: Seq<char>)
    requires
        bytes.len() == s.len(),
        forall|i: int|
            0 <= i < s.len() ==> is_unreserved(#[trigger] bytes[i]) && bytes[i] as char == s[i],
    ensures
        encoded_bytes(bytes) == s,
    decreases s.len(),
{
    if s.len() > 0 {
        assert(is_unreserved(bytes[bytes.len() - 1]));
        assert forall|i: int| 0 <= i < s.drop_last().len() implies is_unreserved(
            #[trigger] bytes.drop_last()[i],
        ) && bytes.drop_last()[i] as char == s.drop_last()[i] by {
            assert(bytes.drop_last()[i] == bytes[i]);
        }
        lemma_encoded_plain(bytes.drop_last(), s.drop_last());
        assert(s =~= s.drop_last() + seq![s.last()]);
    } else {
        assert(encoded_bytes(bytes) =~= s);
    }
}

/// A text of ASCII letters, digits, `-` and `_` stands for itself in a URL.
pub proof fn lemma_percent_encoded_plain(s: Seq<char>)
    requires
        forall|i: int|
            0 <= i < s.len() ==> letters::is_ascii_alphanumeric(#[trigger] s[i]) || s[i] == '-'
                || s[i] == '_',
    ensures
        percent_encoded(s) == s,
{
    assert(is_ascii_chars(s));
    is_ascii_chars_encode_utf8(s);
    let bytes = encode_utf8(s);
    assert forall|i: int| 0 <= i < s.len() implies is_unreserved(#[trigger] bytes[i])
        && bytes[i] as char == s[i] by {
        assert(s[i] as u8 == bytes[i]);
        assert(letters::is_ascii_alphanumeric(s[i]) || s[i] == '-' || s[i] == '_');
    }
    lemma_encoded_plain(bytes, s);
}

/// The hosts of the service: its domain and the domains under it.
pub open spec fn is_trusted_host(host: Seq<char>) -> bool {
    host == "itzon.tv"@ || ".itzon.tv"@.is_suffix_of(host)
}

pub fn trusted_host(host: &str) -> (r: bool)
    ensures
        r == is_trusted_host(host@),
{
    text::same_text(host, "itzon.tv") || text::ends_with(host, ".itzon.tv")
}

/// Whether an address names a host of the service.
pub open spec fn names_trusted_host(url: Result<UrlView, Seq<char>>) -> bool {
    match url {
        Ok(found) => match found.host {
            Some(host) => is_trusted_host(host),
            None => false,
        },
        Err(_) => false,
    }
}

pub fn is_itzon_hls_url(value: &str) -> (r: bool)
    ensures
        r == names_trusted_host(url_of(value@)),
{
    hls_url_trusted(&parse_url(value))
}

/// Whether a parsed address names a host of the service.
pub fn hls_url_trusted(url: &Result<ParsedUrl, String>) -> (r: bool)
    ensures
        r == names_trusted_host(url_result(*url)),
{
    match url {
        Ok(found) => match &found.host {
            Some(host) => trusted_host(host.as_str()),
            None => false,
        },
        Err(_) => false,
    }
}

/// A result of reading a URL, as the contracts speak of it.
pub open spec fn url_result(url: Result<ParsedUrl, String>) -> Result<UrlView, Seq<char>> {
    match url {
        Ok(found) => Ok(found@),
        Err(reason) => Err(reason@),
    }
}

/// The address of a picture, where it is one of the service over TLS.
pub open spec fn asset_url(url: Result<UrlView, Seq<char>>) -> Option<Seq<char>> {
    match url {
        Ok(found) => if found.scheme == "https"@ && names_trusted_host(url) {
            Some(found.text)
        } else {
            None
        },
        Err(_) => None,
    }
}

pub fn trusted_asset_url(value: &str) -> (r: Option<String>)
    ensures
        r.deep_view() == asset_url(url_of(value@)),
{
    asset_url_from(parse_url(value))
}

/// The address of a picture from its parsed address.
pub fn asset_url_from(url: Result<ParsedUrl, String>) -> (r: Option<String>)
    ensures
        r.deep_view() == asset_url(url_result(url)),
{
    let trusted = hls_url_trusted(&url);
    match url {
        Ok(found) => if text::same_text(found.scheme.as_str(), "https") && trusted {
            Some(found.text)
        } else {
            None
        },
        Err(_) => None,
    }
}

/// The address of a media edge without its last slashes, where it is one of the service over TLS.
pub open spec fn edge(base: Seq<char>, url: Result<UrlView, Seq<char>>) -> Result<
    Seq<char>,
    Seq<char>,
> {
    match url {
        Err(_) => Err(ItzonError::InvalidEdge.text()),
        Ok(found) => if found.scheme != "https"@ {
            Err(ItzonError::EdgeNotHttps.text())
        } else {
            match found.host {
                None => Err(ItzonError::EdgeWithoutHost.text()),
                Some(host) => if is_trusted_host(host) {
                    Ok(text::trimmed_end(base, CharClass::Only('/')))
                } else {
                    Err(ItzonError::UntrustedEdge.text())
                },
            }
        },
    }
}

pub fn validate_itzon_base(base: &str) -> (r: Result<String, ItzonError>)
    ensures
        match r {
            Ok(text) => edge(base@, url_of(base@)) == Ok::<Seq<char>, Seq<char>>(text@),
            Err(error) => edge(base@, url_of(base@)) == Err::<Seq<char>, Seq<char>>(error.text()),
        },
{
    edge_from(base, &parse_url(base))
}

/// The address of a media edge from its text and the URL that it is.
pub fn edge_from(base: &str, url: &Result<ParsedUrl, String>) -> (r: Result<String, ItzonError>)
    ensures
        match r {
            Ok(text) => edge(base@, url_result(*url)) == Ok::<Seq<char>, Seq<char>>(text@),
            Err(error) => edge(base@, url_result(*url)) == Err::<Seq<char>, Seq<char>>(
                error.text(),
            ),
        },
{
    let found = match url {
        Ok(found) => found,
        Err(_) => {
            return Err(ItzonError::InvalidEdge);
        },
    };
    if !text::same_text(found.scheme.as_str(), "https") {
        return Err(ItzonError::EdgeNotHttps);
    }
    match &found.host {
        None => Err(ItzonError::EdgeWithoutHost),
        Some(host) => if trusted_host(host.as_str()) {
            Ok(text::trim_end(base, &CharClass::Only('/')).to_string())
        } else {
            Err(ItzonError::UntrustedEdge)
        },
    }
}

/// Where the chat of the service is, for an address that names it. The scheme says how it is asked
/// for.
pub open spec fn chat_address(
    url: Result<UrlView, Seq<char>>,
    moved: Option<UrlView>,
) -> Result<UrlView, Seq<char>> {
    match url {
        Err(_) => Err(ItzonError::InvalidChatUrl.text()),
        Ok(found) => if found.scheme != "wss"@ && found.scheme != "https"@ {
            Err(ItzonError::ChatUrlNotTls.text())
        } else {
            match found.host {
                None => Err(ItzonError::ChatUrlWithoutHost.text()),
                Some(host) => if !is_trusted_host(host) {
                    Err(ItzonError::UntrustedChatHost.text())
                } else {
                    match moved {
                        Some(moved) => Ok(moved),
                        None => Err(ItzonError::InvalidChatUrlScheme.text()),
                    }
                },
            }
        },
    }
}

/// The address of chat from the URL that was named and the same URL moved to chat.
pub fn chat_address_from(
    url: &Result<ParsedUrl, String>,
    moved: Option<ParsedUrl>,
) -> (r: Result<ParsedUrl, ItzonError>)
    ensures
        match r {
            Ok(found) => chat_address(url_result(*url), url_option(moved)) == Ok::<
                UrlView,
                Seq<char>,
            >(found@),
            Err(error) => chat_address(url_result(*url), url_option(moved)) == Err::<
                UrlView,
                Seq<char>,
            >(error.text()),
        },
{
    let found = match url {
        Ok(found) => found,
        Err(_) => {
            return Err(ItzonError::InvalidChatUrl);
        },
    };
    if !text::same_text(found.scheme.as_str(), "wss") && !text::same_text(
        found.scheme.as_str(),
        "https",
    ) {
        return Err(ItzonError::ChatUrlNotTls);
    }
    match &found.host {
        None => Err(ItzonError::ChatUrlWithoutHost),
        Some(host) => if !trusted_host(host.as_str()) {
            Err(ItzonError::UntrustedChatHost)
        } else {
            match moved {
                Some(moved) => Ok(moved),
                None => Err(ItzonError::InvalidChatUrlScheme),
            }
        },
    }
}

pub open spec fn url_option(url: Option<ParsedUrl>) -> Option<UrlView> {
    match url {
        Some(found) => Some(found@),
        None => None,
    }
}

/// Whether an address is one of chat, at a host of the service.
pub open spec fn is_chat_url(url: UrlView, scheme: Seq<char>) -> bool {
    &&& url.scheme == scheme
    &&& url.path == "/ws/irc"@
    &&& url.query.len() == 0
    &&& url.host matches Some(host) && is_trusted_host(host)
}

pub fn trusted_chat_url(base: &str) -> (r: Result<ParsedUrl, ItzonError>)
    requires
        base@.len() <= MAX_URL_CHARS,
    ensures
        match r {
            Ok(url) => {
                &&& chat_address(url_of(base@), url_retargeted(base@, "wss"@, "/ws/irc"@))
                    == Ok::<UrlView, Seq<char>>(url@)
                &&& is_chat_url(url@, "wss"@)
                &&& url_of(base@) matches Ok(from) && url@.host == from.host
            },
            Err(error) => {
                &&& chat_address(url_of(base@), url_retargeted(base@, "wss"@, "/ws/irc"@))
                    == Err::<UrlView, Seq<char>>(error.text())
                &&& !(url_of(base@) matches Ok(from) && (from.scheme == "wss"@ || from.scheme
                    == "https"@) && names_trusted_host(url_of(base@)))
            },
        },
{
    proof {
        reveal_strlit("/ws/irc");
    }
    let found = parse_url(base);
    let moved = retarget_url(base, "wss", "/ws/irc");
    chat_address_from(&found, moved)
}

/// Where the cookies of chat are asked for, for an address that names chat.
pub open spec fn cookie_address(
    url: Result<UrlView, Seq<char>>,
    moved: Option<UrlView>,
) -> Result<UrlView, Seq<char>> {
    match url {
        Err(reason) => Err(reason),
        Ok(found) => match found.host {
            None => Err(ItzonError::ChatUrlWithoutHost.text()),
            Some(host) => if !is_trusted_host(host) {
                Err(ItzonError::UntrustedChatHost.text())
            } else {
                match moved {
                    Some(moved) => Ok(moved),
                    None => Err(ItzonError::InvalidChatScheme.text()),
                }
            },
        },
    }
}

/// The address for the cookies of chat from the URL that was named and the same URL moved to chat.
pub fn cookie_address_from(url: Result<ParsedUrl, String>, moved: Option<ParsedUrl>) -> (r: Result<
    ParsedUrl,
    ItzonError,
>)
    ensures
        match r {
            Ok(found) => cookie_address(url_result(url), url_option(moved)) == Ok::<
                UrlView,
                Seq<char>,
            >(found@),
            Err(error) => cookie_address(url_result(url), url_option(moved)) == Err::<
                UrlView,
                Seq<char>,
            >(error.text()),
        },
{
    let found = match url {
        Ok(found) => found,
        Err(reason) => {
            return Err(ItzonError::Url(reason));
        },
    };
    match &found.host {
        None => Err(ItzonError::ChatUrlWithoutHost),
        Some(host) => if !trusted_host(host.as_str()) {
            Err(ItzonError::UntrustedChatHost)
        } else {
            match moved {
                Some(moved) => Ok(moved),
                None => Err(ItzonError::InvalidChatScheme),
            }
        },
    }
}

/// The address for which a browser is asked for the cookies of chat.
pub fn chat_cookie_url(chat_wss: &str) -> (r: Result<ParsedUrl, ItzonError>)
    requires
        chat_wss@.len() <= MAX_URL_CHARS,
    ensures
        match r {
            Ok(url) => {
                &&& cookie_address(
                    url_of(chat_wss@),
                    url_retargeted(chat_wss@, "https"@, "/ws/irc"@),
                ) == Ok::<UrlView, Seq<char>>(url@)
                &&& is_chat_url(url@, "https"@)
            },
            Err(error) => {
                &&& cookie_address(
                    url_of(chat_wss@),
                    url_retargeted(chat_wss@, "https"@, "/ws/irc"@),
                ) == Err::<UrlView, Seq<char>>(error.text())
                &&& !(url_of(chat_wss@) matches Ok(from) && is_special_scheme(from.scheme)
                    && names_trusted_host(url_of(chat_wss@)))
            },
        },
{
    proof {
        reveal_strlit("/ws/irc");
    }
    let found = parse_url(chat_wss);
    let moved = retarget_url(chat_wss, "https", "/ws/irc");
    cookie_address_from(found, moved)
}

/// A host is trusted where it is the domain of the service or a name under that domain; a name that
/// only ends alike is not.
pub proof fn trust_ends_at_the_domain(host: Seq<char>, front: Seq<char>)
    ensures
        is_trusted_host("itzon.tv"@),
        is_trusted_host(front + ".itzon.tv"@),
        is_trusted_host(host) && host != "itzon.tv"@ ==> exists|sub: Seq<char>|
            host == #[trigger] (sub + ".itzon.tv"@),
        front.len() > 0 && front.last() != '.' ==> !is_trusted_host(front + "itzon.tv"@),
{
    let end = ".itzon.tv"@;
    let name = "itzon.tv"@;
    reveal_strlit(".itzon.tv");
    reveal_strlit("itzon.tv");
    let under = front + end;
    assert(under.subrange(under.len() - end.len(), under.len() as int) =~= end);
    if end.is_suffix_of(host) {
        let sub = host.take(host.len() - end.len());
        assert(host =~= sub + end);
    }
    let alike = front + name;
    if front.len() > 0 && front.last() != '.' {
        assert(alike.len() > name.len());
        if end.is_suffix_of(alike) {
            assert(alike.subrange(alike.len() - 9, alike.len() as int)[0] == end[0]);
            assert(alike[alike.len() - 9] == front.last());
        }
    }
}

/// The address of a picture is shown as it is written, and only where it is one of a trusted host
/// over TLS.
pub proof fn only_trusted_pictures_are_shown(url: Result<UrlView, Seq<char>>)
    ensures
        asset_url(url) is Some <==> (url matches Ok(found) && found.scheme == "https"@ && (
        found.host matches Some(host) && is_trusted_host(host))),
        asset_url(url) matches Some(text) ==> (url matches Ok(found) && text == found.text),
{
}

/// An edge is taken as it is told, without the slashes at its end, and only where it is one of a
/// trusted host over TLS.
pub proof fn only_trusted_edges_are_used(base: Seq<char>, url: Result<UrlView, Seq<char>>)
    ensures
        edge(base, url) is Ok <==> (url matches Ok(found) && found.scheme == "https"@ && (
        found.host matches Some(host) && is_trusted_host(host))),
        edge(base, url) matches Ok(taken) ==> {
            &&& taken.len() <= base.len()
            &&& taken == base.take(taken.len() as int)
            &&& taken.len() > 0 ==> taken.last() != '/'
            &&& forall|i: int| taken.len() <= i < base.len() ==> #[trigger] base[i] == '/'
        },
{
    text::trimming_an_end_takes_one_character(base, '/');
}

/// Chat is joined at the address that was moved there, and only where the one that was named is of
/// a trusted host over TLS.
pub proof fn only_trusted_chat_is_joined(url: Result<UrlView, Seq<char>>, moved: Option<UrlView>)
    ensures
        chat_address(url, moved) is Ok <==> moved is Some && (url matches Ok(found) && (found.scheme
            == "wss"@ || found.scheme == "https"@) && (found.host matches Some(host)
            && is_trusted_host(host))),
        chat_address(url, moved) matches Ok(taken) ==> moved == Some(taken),
        cookie_address(url, moved) is Ok <==> moved is Some && (url matches Ok(found) && (
        found.host matches Some(host) && is_trusted_host(host))),
        cookie_address(url, moved) matches Ok(taken) ==> moved == Some(taken),
{
}

/// An address of chat has the path of chat and no query, at a trusted host.
pub proof fn chat_has_its_own_path(url: UrlView, scheme: Seq<char>)
    ensures
        is_chat_url(url, scheme) <==> url.scheme == scheme && url.path == "/ws/irc"@
            && url.query.len() == 0 && url.host is Some && is_trusted_host(url.host->0),
{
}

} // verus!
