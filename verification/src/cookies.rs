//! Cookies: how they are sent, and what an answer changes of them.
use crate::letters;
use crate::text;
use crate::text::CharClass;
use crate::text_map;
use crate::text_map::TextMap;
use vstd::prelude::*;
use vstd::string::*;

verus! {

/// The names in their order.
pub open spec fn sorted_names(names: Set<Seq<char>>) -> Seq<Seq<char>> {
    choose|order: Seq<Seq<char>>| #[trigger]
        text_map::in_order(order) && order.to_set() == names
}

/// The cookies as they are sent, each as a name and a value, in the order of their names.
pub open spec fn header_of(cookies: Map<Seq<char>, Seq<char>>) -> Seq<char> {
    let names = sorted_names(cookies.dom());
    text::joined(names.map_values(|name: Seq<char>| name + "="@ + cookies[name]), "; "@)
}

/// The header says the same for the same cookies, in whichever order they came.
pub fn cookie_header(cookies: &TextMap<String>) -> (r: String)
    ensures
        r@ == header_of(cookies@),
{
    let count = cookies.len();
    let ghost names = cookies.names();
    let ghost map = cookies@;
    let ghost items = names.map_values(|name: Seq<char>| name + "="@ + map[name]);
    proof {
        let chosen = sorted_names(map.dom());
        assert(text_map::in_order(names) && names.to_set() == map.dom());
        text_map::lemma_order_unique(chosen, names);
    }
    let mut header = String::new();
    assert(header@ =~= text::joined(items.take(0), "; "@));
    let mut i: usize = 0;
    while i < count
        invariant
            names == cookies.names(),
            map == cookies@,
            count == names.len(),
            items == names.map_values(|name: Seq<char>| name + "="@ + map[name]),
            i <= count,
            header@ == text::joined(items.take(i as int), "; "@),
        decreases count - i,
    {
        let ghost before = header@;
        if i > 0 {
            header.append("; ");
        }
        header.append(cookies.key_at(i));
        header.append("=");
        header.append(cookies.value_at(i).as_str());
        proof {
            let next = items.take(i + 1);
            let item = names[i as int] + "="@ + map[names[i as int]];
            assert(next.drop_last() =~= items.take(i as int));
            assert(next.last() == item);
            if i == 0 {
                assert(next[0] == item);
                assert(header@ =~= item);
            } else {
                assert(header@ =~= before + "; "@ + item);
            }
        }
        i = i + 1;
    }
    assert(items.take(i as int) =~= items);
    header
}

/// What an answer changes of the cookies that the chat edge shares with the website.
#[derive(Debug)]
pub struct CookieDelta {
    pub shared_upserts: TextMap<String>,
    pub shared_deletes: TextMap<()>,
}

#[verifier::ext_equal]
pub struct DeltaView {
    pub shared_upserts: Map<Seq<char>, Seq<char>>,
    pub shared_deletes: Map<Seq<char>, ()>,
}

impl View for CookieDelta {
    type V = DeltaView;

    open spec fn view(&self) -> DeltaView {
        DeltaView { shared_upserts: self.shared_upserts@, shared_deletes: self.shared_deletes@ }
    }
}

impl DeltaView {
    pub open spec fn empty() -> DeltaView {
        DeltaView { shared_upserts: Map::empty(), shared_deletes: Map::empty() }
    }

    /// The cookies after the change: first some are deleted, then others are set.
    pub open spec fn applied(
        self,
        cookies: Map<Seq<char>, Seq<char>>,
    ) -> Map<Seq<char>, Seq<char>> {
        cookies.remove_keys(self.shared_deletes.dom()).union_prefer_right(self.shared_upserts)
    }
}

/// A cookie that an answer sets or deletes.
#[derive(Debug)]
pub struct SetCookie {
    pub name: String,
    pub value: String,
    /// Whether it is for all hosts of the service.
    pub shared: bool,
    pub deleted: bool,
}

pub struct SetCookieView {
    pub name: Seq<char>,
    pub value: Seq<char>,
    pub shared: bool,
    pub deleted: bool,
}

impl View for SetCookie {
    type V = SetCookieView;

    open spec fn view(&self) -> SetCookieView {
        SetCookieView {
            name: self.name@,
            value: self.value@,
            shared: self.shared,
            deleted: self.deleted,
        }
    }
}

/// An attribute of a cookie, to be compared.
pub open spec fn attribute(part: Seq<char>) -> Seq<char> {
    letters::lowercase(text::trimmed(part))
}

/// Whether the attribute is the domain of the service.
pub open spec fn is_service_domain(attribute: Seq<char>) -> bool {
    match text::stripped(attribute, "domain="@) {
        Some(domain) => text::trimmed_start(domain, CharClass::Only('.')) == "itzon.tv"@,
        None => false,
    }
}

/// Whether one of the parts behind the first is the domain of the service.
pub open spec fn is_shared(parts: Seq<Seq<char>>) -> bool {
    exists|i: int| 1 <= i < parts.len() && is_service_domain(attribute(#[trigger] parts[i]))
}

/// Whether one of the parts behind the first says that the cookie is over.
pub open spec fn is_deleted(parts: Seq<Seq<char>>) -> bool {
    exists|i: int| 1 <= i < parts.len() && attribute(#[trigger] parts[i]) == "max-age=0"@
}

/// A cookie from its header; none where there is no name and value.
pub open spec fn told_cookie(raw: Seq<char>) -> Option<SetCookieView> {
    let parts = text::pieces(raw, CharClass::Only(';'));
    match text::cut_once(parts[0], CharClass::Only('=')) {
        Some((name, value)) => Some(
            SetCookieView {
                name: text::trimmed(name),
                value,
                shared: is_shared(parts),
                deleted: is_deleted(parts),
            },
        ),
        None => None,
    }
}

pub fn read_set_cookie(raw: &str) -> (r: Option<SetCookie>)
    ensures
        match r {
            Some(cookie) => told_cookie(raw@) == Some(cookie@),
            None => told_cookie(raw@) is None,
        },
{
    let parts = text::split(raw, &CharClass::Only(';'));
    let ghost all = parts.deep_view();
    assert(all[0] == parts@[0]@);
    let (name, value) = match text::split_once(parts[0], &CharClass::Only('=')) {
        Some(pair) => pair,
        None => {
            return None;
        },
    };
    let mut shared = false;
    let mut deleted = false;
    let mut i: usize = 1;
    while i < parts.len()
        invariant
            all == parts.deep_view(),
            1 <= i <= parts.len(),
            shared == (exists|k: int|
                1 <= k < i && is_service_domain(attribute(#[trigger] all[k]))),
            deleted == (exists|k: int| 1 <= k < i && attribute(#[trigger] all[k]) == "max-age=0"@),
        decreases parts.len() - i,
    {
        assert(all[i as int] == parts@[i as int]@);
        let attr = letters::to_lowercase(text::trim(parts[i]));
        let ghost was_shared = shared;
        let ghost was_deleted = deleted;
        match text::strip_prefix(attr.as_str(), "domain=") {
            Some(domain) => {
                if text::same_text(text::trim_start(domain, &CharClass::Only('.')), "itzon.tv") {
                    shared = true;
                }
            },
            None => {},
        }
        if text::same_text(attr.as_str(), "max-age=0") {
            deleted = true;
        }
        proof {
            if is_service_domain(attribute(all[i as int])) {
                assert(shared);
            }
            if was_shared {
                let k = choose|k: int| 1 <= k < i && is_service_domain(attribute(#[trigger] all[k]));
                assert(1 <= k < i + 1 && is_service_domain(attribute(all[k])));
            }
            if was_deleted {
                let k = choose|k: int| 1 <= k < i && attribute(#[trigger] all[k]) == "max-age=0"@;
                assert(1 <= k < i + 1 && attribute(all[k]) == "max-age=0"@);
            }
        }
        i = i + 1;
    }
    Some(SetCookie { name: text::trim(name).to_string(), value: value.to_string(), shared, deleted })
}

/// The cookies of the website and the change for chat, in the midst of an answer.
#[verifier::ext_equal]
pub struct Merge {
    pub origin: Map<Seq<char>, Seq<char>>,
    pub delta: DeltaView,
}

impl Merge {
    pub open spec fn with_cookie(self, cookie: SetCookieView) -> Merge {
        if cookie.deleted {
            Merge {
                origin: self.origin.remove(cookie.name),
                delta: if cookie.shared {
                    DeltaView {
                        shared_deletes: self.delta.shared_deletes.insert(cookie.name, ()),
                        ..self.delta
                    }
                } else {
                    self.delta
                },
            }
        } else {
            Merge {
                origin: self.origin.insert(cookie.name, cookie.value),
                delta: if cookie.shared {
                    DeltaView {
                        shared_upserts: self.delta.shared_upserts.insert(
                            cookie.name,
                            cookie.value,
                        ),
                        ..self.delta
                    }
                } else {
                    self.delta
                },
            }
        }
    }

    /// After several headers, one after another.
    pub open spec fn with_headers(self, headers: Seq<Seq<char>>) -> Merge
        decreases headers.len(),
    {
        if headers.len() == 0 {
            self
        } else {
            let before = self.with_headers(headers.drop_last());
            match told_cookie(headers.last()) {
                Some(cookie) => before.with_cookie(cookie),
                None => before,
            }
        }
    }
}

/// What an answer makes of the cookies of the website, and what it changes for chat.
pub open spec fn merged(
    origin: Map<Seq<char>, Seq<char>>,
    headers: Seq<Seq<char>>,
) -> Merge {
    (Merge { origin, delta: DeltaView::empty() }).with_headers(headers)
}

/// Merges the cookies of an answer into those of the website, and returns what is for all hosts of
/// the service: that holds for the chat edge too.
pub fn merge_response_cookies(headers: &Vec<String>, origin: &mut TextMap<String>) -> (r:
    CookieDelta)
    ensures
        (Merge { origin: final(origin)@, delta: r@ }) == merged(
            old(origin)@,
            headers.deep_view(),
        ),
{
    let ghost start = Merge { origin: origin@, delta: DeltaView::empty() };
    let ghost all = headers.deep_view();
    let mut upserts: TextMap<String> = TextMap::new();
    let mut deletes: TextMap<()> = TextMap::new();
    let mut i: usize = 0;
    assert(all.take(0) =~= seq![]);
    while i < headers.len()
        invariant
            all == headers.deep_view(),
            i <= headers.len(),
            (Merge {
                origin: origin@,
                delta: DeltaView { shared_upserts: upserts@, shared_deletes: deletes@ },
            }) == start.with_headers(all.take(i as int)),
        decreases headers.len() - i,
    {
        assert(all.take(i + 1).drop_last() =~= all.take(i as int));
        assert(all.take(i + 1).last() == headers@[i as int]@);
        match read_set_cookie(headers[i].as_str()) {
            Some(cookie) => {
                if cookie.deleted {
                    let _ = origin.remove(cookie.name.as_str());
                    if cookie.shared {
                        deletes.insert(cookie.name, ());
                    }
                } else {
                    if cookie.shared {
                        upserts.insert(cookie.name.clone(), cookie.value.clone());
                    }
                    origin.insert(cookie.name, cookie.value);
                }
            },
            None => {},
        }
        i = i + 1;
    }
    assert(all.take(i as int) =~= all);
    CookieDelta { shared_upserts: upserts, shared_deletes: deletes }
}

/// Makes the change: first the deletions, then the rest.
pub fn apply_delta(cookies: &mut TextMap<String>, delta: &CookieDelta)
    ensures
        final(cookies)@ == delta@.applied(old(cookies)@),
{
    let ghost start = cookies@;
    let gone = delta.shared_deletes.len();
    let ghost names = delta.shared_deletes.names();
    let mut i: usize = 0;
    assert(start.remove_keys(names.take(0).to_set()) =~= start);
    while i < gone
        invariant
            names == delta.shared_deletes.names(),
            gone == names.len(),
            i <= gone,
            cookies@ == start.remove_keys(names.take(i as int).to_set()),
        decreases gone - i,
    {
        let _ = cookies.remove(delta.shared_deletes.key_at(i));
        proof {
            let next = names.take(i + 1);
            assert(next =~= names.take(i as int).push(names[i as int]));
            assert forall|k: Seq<char>|
                next.to_set().contains(k) <==> names.take(i as int).to_set().contains(k) || k
                    == names[i as int] by {
                if names.take(i as int).to_set().contains(k) {
                    let j = choose|j: int|
                        0 <= j < names.take(i as int).len() && names.take(i as int)[j] == k;
                    assert(next[j] == k);
                }
                if k == names[i as int] {
                    assert(next[i as int] == k);
                }
                if next.to_set().contains(k) {
                    let j = choose|j: int| 0 <= j < next.len() && next[j] == k;
                    if j < i {
                        assert(names.take(i as int)[j] == k);
                    }
                }
            }
            assert(cookies@ =~= start.remove_keys(next.to_set()));
        }
        i = i + 1;
    }
    assert(names.take(i as int) =~= names);
    let ghost kept = cookies@;
    assert(kept =~= start.remove_keys(delta@.shared_deletes.dom()));
    let set = delta.shared_upserts.len();
    let ghost named = delta.shared_upserts.names();
    let ghost values = delta.shared_upserts@;
    let mut j: usize = 0;
    while j < set
        invariant
            named == delta.shared_upserts.names(),
            values == delta.shared_upserts@,
            set == named.len(),
            j <= set,
            forall|k: int| 0 <= k < named.len() ==> values.contains_key(#[trigger] named[k]),
            forall|k: int|
                0 <= k < j ==> cookies@.contains_key(#[trigger] named[k]) && cookies@[named[k]]
                    == values[named[k]],
            forall|name: Seq<char>|
                #![trigger cookies@.contains_key(name)]
                !values.contains_key(name) ==> cookies@.contains_key(name) == kept.contains_key(
                    name,
                ) && cookies@[name] == kept[name],
        decreases set - j,
    {
        let name = delta.shared_upserts.key_at(j).to_string();
        let value = delta.shared_upserts.value_at(j).clone();
        cookies.insert(name, value);
        j = j + 1;
    }
    proof {
        assert forall|name: Seq<char>| values.contains_key(name) implies cookies@.contains_key(
            name,
        ) && cookies@[name] == values[name] by {
            assert(named.to_set().contains(name));
            let k = choose|k: int| 0 <= k < named.len() && named[k] == name;
            assert(cookies@.contains_key(named[k]));
        }
        assert(cookies@ =~= kept.union_prefer_right(values));
    }
}

/// Only cookies for all hosts of the service reach chat: where no header is for them, an answer
/// changes nothing there.
pub proof fn only_shared_cookies_reach_chat(
    origin: Map<Seq<char>, Seq<char>>,
    headers: Seq<Seq<char>>,
    name: Seq<char>,
)
    ensures
        ({
            let delta = merged(origin, headers).delta;
            delta.shared_upserts.contains_key(name) || delta.shared_deletes.contains_key(name)
                ==> exists|i: int|
                0 <= i < headers.len() && (told_cookie(#[trigger] headers[i]) matches Some(cookie)
                    && cookie.shared && cookie.name == name)
        }),
    decreases headers.len(),
{
    if headers.len() > 0 {
        let earlier = headers.drop_last();
        only_shared_cookies_reach_chat(origin, earlier, name);
        let before = merged(origin, earlier).delta;
        if before.shared_upserts.contains_key(name) || before.shared_deletes.contains_key(name) {
            let i = choose|i: int|
                0 <= i < earlier.len() && (told_cookie(#[trigger] earlier[i]) matches Some(cookie)
                    && cookie.shared && cookie.name == name);
            assert(headers[i] == earlier[i]);
        } else {
            assert(headers[headers.len() - 1] == headers.last());
        }
    }
}

/// A cookie that the last header of its name sets is kept for the website; where that header is for
/// all hosts of the service, it reaches chat as well.
pub proof fn a_renewed_cookie_is_kept(
    origin: Map<Seq<char>, Seq<char>>,
    chat: Map<Seq<char>, Seq<char>>,
    headers: Seq<Seq<char>>,
)
    requires
        headers.len() > 0,
        told_cookie(headers.last()) is Some,
    ensures
        ({
            let cookie = told_cookie(headers.last())->0;
            let end = merged(origin, headers);
            &&& !cookie.deleted ==> end.origin.contains_key(cookie.name) && end.origin[cookie.name]
                == cookie.value
            &&& cookie.deleted ==> !end.origin.contains_key(cookie.name)
            &&& !cookie.deleted && cookie.shared ==> end.delta.applied(chat).contains_key(
                cookie.name,
            ) && end.delta.applied(chat)[cookie.name] == cookie.value
            &&& cookie.deleted && cookie.shared && !merged(
                origin,
                headers.drop_last(),
            ).delta.shared_upserts.contains_key(cookie.name)
                ==> !end.delta.applied(chat).contains_key(cookie.name)
        }),
{
}

/// The cookies of a browser that have a name and a value; of two with one name the later counts.
pub open spec fn kept_cookies(pairs: Seq<(Seq<char>, Seq<char>)>) -> Map<Seq<char>, Seq<char>>
    decreases pairs.len(),
{
    if pairs.len() == 0 {
        Map::empty()
    } else {
        let (name, value) = pairs.last();
        let before = kept_cookies(pairs.drop_last());
        if name.len() > 0 && value.len() > 0 {
            before.insert(name, value)
        } else {
            before
        }
    }
}

pub fn keep_cookies(pairs: &Vec<(String, String)>) -> (r: TextMap<String>)
    ensures
        r@ == kept_cookies(crate::urls::pairs_view(pairs@)),
{
    let ghost all = crate::urls::pairs_view(pairs@);
    let mut cookies: TextMap<String> = TextMap::new();
    let mut i: usize = 0;
    assert(all.take(0) =~= seq![]);
    while i < pairs.len()
        invariant
            all == crate::urls::pairs_view(pairs@),
            i <= pairs.len(),
            cookies@ == kept_cookies(all.take(i as int)),
        decreases pairs.len() - i,
    {
        assert(all.take(i + 1).drop_last() =~= all.take(i as int));
        assert(all.take(i + 1).last() == (pairs@[i as int].0@, pairs@[i as int].1@));
        let pair = &pairs[i];
        if !pair.0.as_str().is_empty() && !pair.1.as_str().is_empty() {
            cookies.insert(pair.0.clone(), pair.1.clone());
        }
        i = i + 1;
    }
    assert(all.take(i as int) =~= all);
    cookies
}

/// Whether a text is nothing but dots.
pub open spec fn all_dots(s: Seq<char>) -> bool {
    forall|i: int| 0 <= i < s.len() ==> #[trigger] s[i] == '.'
}

/// Whether the attribute says that a cookie is for all hosts of the service, with or without dots in
/// front of the domain.
pub open spec fn says_shared(attribute: Seq<char>) -> bool {
    exists|dots: Seq<char>| #[trigger]
        all_dots(dots) && attribute == "domain="@ + dots + "itzon.tv"@
}

proof fn lemma_says_shared(told: Seq<char>)
    ensures
        is_service_domain(told) <==> says_shared(told),
{
    let start = "domain="@;
    let name = "itzon.tv"@;
    let dot = CharClass::Only('.');
    reveal_strlit("itzon.tv");
    if is_service_domain(told) {
        let domain = told.skip(start.len() as int);
        let n = domain.len() - name.len();
        text::lemma_trimmed_start_first(domain, dot);
        assert(text::trimmed_start(domain, dot) =~= domain.skip(n));
        lemma_start_dots(domain);
        let dots = domain.take(n);
        assert(domain =~= dots + name);
        text::a_front_is_taken_off(start, seq![], told);
        assert(told =~= start + dots + name);
        assert(all_dots(dots));
    }
    if says_shared(told) {
        let dots = choose|dots: Seq<char>| #[trigger]
            all_dots(dots) && told == start + dots + name;
        text::a_front_is_taken_off(start, dots + name, told);
        assert(told =~= start + (dots + name));
        let domain = dots + name;
        assert forall|i: int| 0 <= i < dots.len() implies dot.has(#[trigger] domain[i]) by {
            assert(domain[i] == dots[i]);
        }
        assert(domain[dots.len() as int] == 'i');
        text::lemma_trimmed_start(domain, dot, dots.len() as int);
        assert(domain.skip(dots.len() as int) =~= name);
    }
}

proof fn lemma_start_dots(s: Seq<char>)
    ensures
        text::trimmed_start(s, CharClass::Only('.')).len() <= s.len(),
        all_dots(s.take(s.len() - text::trimmed_start(s, CharClass::Only('.')).len())),
    decreases s.len(),
{
    let dot = CharClass::Only('.');
    text::lemma_trimmed_start_first(s, dot);
    if s.len() > 0 && dot.has(s[0]) {
        let rest = s.drop_first();
        lemma_start_dots(rest);
        let n = s.len() - text::trimmed_start(s, dot).len();
        let front = s.take(n);
        assert forall|i: int| 0 <= i < front.len() implies #[trigger] front[i] == '.' by {
            if i > 0 {
                assert(front[i] == rest.take(n - 1)[i - 1]);
            }
        }
    }
}

/// A cookie is read from its header: the name and the value from the first part, and from the
/// attributes behind it, in whichever case and order, whether it is for all hosts of the service and
/// whether it is over.
pub proof fn a_cookie_is_read_from_its_header(
    name: Seq<char>,
    value: Seq<char>,
    attributes: Seq<Seq<char>>,
)
    requires
        !name.contains('='),
        !name.contains(';'),
        !value.contains(';'),
        forall|i: int| 0 <= i < attributes.len() ==> !(#[trigger] attributes[i]).contains(';'),
    ensures
        told_cookie(
            text::joined(seq![name + seq!['='] + value] + attributes, seq![';']),
        ) matches Some(cookie) && {
            &&& cookie.name == text::trimmed(name)
            &&& cookie.value == value
            &&& cookie.shared <==> exists|i: int|
                0 <= i < attributes.len() && says_shared(
                    letters::lowercase(text::trimmed(#[trigger] attributes[i])),
                )
            &&& cookie.deleted <==> exists|i: int|
                0 <= i < attributes.len() && letters::lowercase(
                    text::trimmed(#[trigger] attributes[i]),
                ) == "max-age=0"@
        },
{
    let first = name + seq!['='] + value;
    let parts = seq![first] + attributes;
    assert(!first.contains(';')) by {
        if first.contains(';') {
            let i = choose|i: int| 0 <= i < first.len() && first[i] == ';';
            if i < name.len() {
                assert(name[i] == ';');
            } else if i > name.len() {
                assert(value[i - name.len() - 1] == ';');
            }
        }
    }
    assert forall|i: int| 0 <= i < parts.len() implies !(#[trigger] parts[i]).contains(';') by {
        if i > 0 {
            assert(parts[i] == attributes[i - 1]);
        }
    }
    text::joined_texts_come_apart(parts, ';');
    text::a_text_is_cut_at_its_first_mark(name, value, '=');
    assert(parts[0] == first);
    assert forall|i: int| 0 <= i < attributes.len() implies #[trigger] attributes[i] == parts[i
        + 1] by {}
    if is_shared(parts) {
        let i = choose|i: int|
            1 <= i < parts.len() && is_service_domain(attribute(#[trigger] parts[i]));
        lemma_says_shared(attribute(parts[i]));
        assert(attributes[i - 1] == parts[i]);
    }
    if exists|i: int|
        0 <= i < attributes.len() && says_shared(
            letters::lowercase(text::trimmed(#[trigger] attributes[i])),
        ) {
        let i = choose|i: int|
            0 <= i < attributes.len() && says_shared(
                letters::lowercase(text::trimmed(#[trigger] attributes[i])),
            );
        lemma_says_shared(attribute(attributes[i]));
        assert(is_service_domain(attribute(parts[i + 1])));
    }
    if is_deleted(parts) {
        let i = choose|i: int| 1 <= i < parts.len() && attribute(#[trigger] parts[i])
            == "max-age=0"@;
        assert(attributes[i - 1] == parts[i]);
    }
    if exists|i: int|
        0 <= i < attributes.len() && letters::lowercase(text::trimmed(#[trigger] attributes[i]))
            == "max-age=0"@ {
        let i = choose|i: int|
            0 <= i < attributes.len() && letters::lowercase(text::trimmed(#[trigger] attributes[i]))
                == "max-age=0"@;
        assert(attribute(parts[i + 1]) == "max-age=0"@);
    }
}

/// A header without `=` in its first part tells no cookie, and changes nothing.
pub proof fn what_is_no_cookie_is_ignored(
    origin: Map<Seq<char>, Seq<char>>,
    headers: Seq<Seq<char>>,
    raw: Seq<char>,
)
    requires
        !raw.contains('='),
    ensures
        told_cookie(raw) is None,
        merged(origin, headers.push(raw)) == merged(origin, headers),
{
    let parts = text::pieces(raw, CharClass::Only(';'));
    let at = text::first_index(raw, CharClass::Only(';'));
    text::lemma_first_index(raw, CharClass::Only(';'));
    let first = parts[0];
    assert(!first.contains('=')) by {
        if first.contains('=') {
            let i = choose|i: int| 0 <= i < first.len() && first[i] == '=';
            assert(raw[i] == '=');
        }
    }
    text::a_text_is_cut_at_its_first_mark(first, seq![], '=');
    assert(headers.push(raw).drop_last() =~= headers);
}

/// An answer that says nothing of a cookie leaves it as it was, for the website and for chat.
pub proof fn cookies_that_are_not_told_stay(
    origin: Map<Seq<char>, Seq<char>>,
    chat: Map<Seq<char>, Seq<char>>,
    headers: Seq<Seq<char>>,
    name: Seq<char>,
)
    requires
        forall|i: int|
            0 <= i < headers.len() ==> !(told_cookie(#[trigger] headers[i]) matches Some(cookie)
                && cookie.name == name),
    ensures
        ({
            let end = merged(origin, headers);
            &&& end.origin.contains_key(name) == origin.contains_key(name)
            &&& end.origin[name] == origin[name]
            &&& end.delta.applied(chat).contains_key(name) == chat.contains_key(name)
            &&& chat.contains_key(name) ==> end.delta.applied(chat)[name] == chat[name]
        }),
{
    lemma_untold(origin, headers, name);
}

proof fn lemma_untold(
    origin: Map<Seq<char>, Seq<char>>,
    headers: Seq<Seq<char>>,
    name: Seq<char>,
)
    requires
        forall|i: int|
            0 <= i < headers.len() ==> !(told_cookie(#[trigger] headers[i]) matches Some(cookie)
                && cookie.name == name),
    ensures
        ({
            let end = merged(origin, headers);
            &&& end.origin.contains_key(name) == origin.contains_key(name)
            &&& end.origin[name] == origin[name]
            &&& !end.delta.shared_upserts.contains_key(name)
            &&& !end.delta.shared_deletes.contains_key(name)
        }),
    decreases headers.len(),
{
    if headers.len() > 0 {
        let front = headers.drop_last();
        assert forall|i: int| 0 <= i < front.len() implies !(told_cookie(
            #[trigger] front[i],
        ) matches Some(cookie) && cookie.name == name) by {
            assert(front[i] == headers[i]);
        }
        lemma_untold(origin, front, name);
        assert(headers[headers.len() - 1] == headers.last());
    }
}

/// The cookies are sent in the order of their names, each as its name, `=` and its value, with `; `
/// between each two; without a cookie nothing is sent.
pub proof fn a_header_tells_each_cookie(
    cookies: Map<Seq<char>, Seq<char>>,
    names: Seq<Seq<char>>,
)
    requires
        text_map::in_order(names),
        names.to_set() == cookies.dom(),
    ensures
        header_of(cookies) == text::joined(
            names.map_values(|name: Seq<char>| name + seq!['='] + cookies[name]),
            seq![';', ' '],
        ),
        names.len() == 0 ==> header_of(cookies).len() == 0,
        names.len() == 1 ==> header_of(cookies) == names[0] + seq!['='] + cookies[names[0]],
{
    reveal_strlit("=");
    reveal_strlit("; ");
    assert("="@ =~= seq!['=']);
    assert("; "@ =~= seq![';', ' ']);
    assert(text_map::in_order(names) && names.to_set() == cookies.dom());
    let chosen = sorted_names(cookies.dom());
    text_map::lemma_order_unique(chosen, names);
    let items = names.map_values(|name: Seq<char>| name + "="@ + cookies[name]);
    assert(items =~= names.map_values(|name: Seq<char>| name + seq!['='] + cookies[name]));
    if names.len() == 1 {
        assert(items[0] == names[0] + seq!['='] + cookies[names[0]]);
    }
}

/// Of the cookies of a browser those with a name and a value are kept, and of two with one name the
/// later one.
pub proof fn a_browser_cookie_is_kept(
    pairs: Seq<(Seq<char>, Seq<char>)>,
    name: Seq<char>,
    value: Seq<char>,
)
    ensures
        kept_cookies(seq![]) == Map::<Seq<char>, Seq<char>>::empty(),
        name.len() > 0 && value.len() > 0 ==> kept_cookies(pairs.push((name, value)))
            == kept_cookies(pairs).insert(name, value),
        name.len() == 0 || value.len() == 0 ==> kept_cookies(pairs.push((name, value)))
            == kept_cookies(pairs),
{
    assert(pairs.push((name, value)).drop_last() =~= pairs);
}

/// What an answer deletes goes first, and then what it sets comes.
pub proof fn deletions_go_first(
    delta: DeltaView,
    cookies: Map<Seq<char>, Seq<char>>,
    name: Seq<char>,
)
    ensures
        ({
            let end = delta.applied(cookies);
            &&& delta.shared_upserts.contains_key(name) ==> end.contains_key(name) && end[name]
                == delta.shared_upserts[name]
            &&& !delta.shared_upserts.contains_key(name) && delta.shared_deletes.contains_key(name)
                ==> !end.contains_key(name)
            &&& !delta.shared_upserts.contains_key(name) && !delta.shared_deletes.contains_key(name)
                ==> end.contains_key(name) == cookies.contains_key(name) && (cookies.contains_key(
                name,
            ) ==> end[name] == cookies[name])
        }),
{
}

} // verus!
