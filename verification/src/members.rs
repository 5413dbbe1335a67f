//! What is known of the members of a channel, and the badges that show it.
use crate::irc::IrcLine;
use crate::letters;
use crate::text;
use crate::text::CharClass;
use crate::text_map::TextMap;
use vstd::prelude::*;
use vstd::string::*;
use vstd::utf8::*;

verus! {

/// A badge beside a name in chat.
#[derive(Clone, Debug)]
pub struct Badge {
    pub name: String,
    pub version: String,
    pub image_url_1x: Option<String>,
    pub image_url_2x: Option<String>,
    pub image_url_4x: Option<String>,
    pub title: Option<String>,
    pub description: Option<String>,
}

pub struct BadgeView {
    pub name: Seq<char>,
    pub version: Seq<char>,
    pub image_url_1x: Option<Seq<char>>,
    pub image_url_2x: Option<Seq<char>>,
    pub image_url_4x: Option<Seq<char>>,
    pub title: Option<Seq<char>>,
    pub description: Option<Seq<char>>,
}

impl View for Badge {
    type V = BadgeView;

    open spec fn view(&self) -> BadgeView {
        BadgeView {
            name: self.name@,
            version: self.version@,
            image_url_1x: self.image_url_1x.deep_view(),
            image_url_2x: self.image_url_2x.deep_view(),
            image_url_4x: self.image_url_4x.deep_view(),
            title: self.title.deep_view(),
            description: self.description.deep_view(),
        }
    }
}

impl DeepView for Badge {
    type V = BadgeView;

    open spec fn deep_view(&self) -> BadgeView {
        self@
    }
}

pub open spec fn is_badge_char(c: char) -> bool {
    letters::is_ascii_lower(c) || letters::is_ascii_digit(c) || c == '_'
}

/// The names that badges can have.
pub open spec fn is_badge_name(name: Seq<char>) -> bool {
    &&& 0 < name.len() <= 24
    &&& forall|i: int| 0 <= i < name.len() ==> is_badge_char(#[trigger] name[i])
}

/// The name in its normal form; `regular` stands for every name that a badge cannot have.
pub open spec fn sanitized(name: Seq<char>) -> Seq<char> {
    let normal = letters::lowercase(text::trimmed(name));
    if is_badge_name(normal) {
        normal
    } else {
        "regular"@
    }
}

pub fn sanitize_badge_name(name: &str) -> (r: String)
    ensures
        r@ == sanitized(name@),
        is_badge_name(r@),
{
    let normal = letters::to_lowercase(text::trim(name));
    proof {
        reveal_strlit("regular");
    }
    let chars = text::chars_of(normal.as_str());
    if chars.len() == 0 || chars.len() > 24 {
        return "regular".to_string();
    }
    let mut i: usize = 0;
    while i < chars.len()
        invariant
            chars@ == normal@,
            normal@ == letters::lowercase(text::trimmed(name@)),
            i <= chars.len(),
            forall|k: int| 0 <= k < i ==> is_badge_char(#[trigger] chars@[k]),
        decreases chars.len() - i,
    {
        let c = chars[i];
        if !(letters::ascii_lower(c) || letters::ascii_digit(c) || c == '_') {
            assert(!is_badge_char(normal@[i as int]));
            assert(is_badge_name("regular"@)) by {
                reveal_strlit("regular");
            }
            return "regular".to_string();
        }
        i = i + 1;
    }
    normal
}

/// A name that a badge can have is its own normal form.
pub proof fn lemma_badge_name_fixed(name: Seq<char>)
    requires
        is_badge_name(name),
    ensures
        sanitized(name) == name,
{
    assert(is_badge_char(name[0]) && is_badge_char(name.last()));
    text::lemma_trimmed_fixed(name);
    assert(is_ascii_chars(name)) by {
        assert forall|i: int| 0 <= i < name.len() implies '\0' <= #[trigger] name[i] <= '\u{7f}' by {
            assert(is_badge_char(name[i]));
        }
    }
    assert forall|i: int| 0 <= i < name.len() implies !letters::is_ascii_upper(
        #[trigger] name[i],
    ) by {
        assert(is_badge_char(name[i]));
    }
    letters::lemma_lowercase_fixed(name);
}

/// The normal form of a badge name is a name that a badge can have, and normalizing it again
/// changes nothing.
pub proof fn badge_names_normalize_once(name: Seq<char>)
    ensures
        is_badge_name(sanitized(name)),
        sanitized(sanitized(name)) == sanitized(name),
{
    reveal_strlit("regular");
    lemma_badge_name_fixed(sanitized(name));
}

pub open spec fn role_title(name: Seq<char>) -> Seq<char> {
    if name == "op"@ {
        "Owner"@
    } else if name == "staff"@ {
        "Staff"@
    } else if name == "bot"@ {
        "Bot"@
    } else if name == "mod"@ {
        "Moderator"@
    } else if name == "vip"@ {
        "VIP"@
    } else if name == "unverified"@ {
        "Unverified"@
    } else {
        "itzon badge"@
    }
}

pub fn role_badge_title(name: &str) -> (r: &'static str)
    ensures
        r@ == role_title(name@),
{
    if text::same_text(name, "op") {
        "Owner"
    } else if text::same_text(name, "staff") {
        "Staff"
    } else if text::same_text(name, "bot") {
        "Bot"
    } else if text::same_text(name, "mod") {
        "Moderator"
    } else if text::same_text(name, "vip") {
        "VIP"
    } else if text::same_text(name, "unverified") {
        "Unverified"
    } else {
        "itzon badge"
    }
}

pub open spec fn subscriber_title(name: Seq<char>) -> Seq<char> {
    if name == "regular"@ {
        "Regular"@
    } else if name == "ambassador"@ {
        "Ambassador - one of the first"@
    } else if name == "bounty"@ {
        "Bug bounty - found a critical bug"@
    } else if name == "invite"@ {
        "Recruiter - invited a friend"@
    } else if name == "lucky"@ {
        "Lucky - one in a million"@
    } else if name == "partner"@ {
        "Partner"@
    } else {
        name
    }
}

pub fn subscriber_badge_title(name: &str) -> (r: &str)
    ensures
        r@ == subscriber_title(name@),
{
    if text::same_text(name, "regular") {
        "Regular"
    } else if text::same_text(name, "ambassador") {
        "Ambassador - one of the first"
    } else if text::same_text(name, "bounty") {
        "Bug bounty - found a critical bug"
    } else if text::same_text(name, "invite") {
        "Recruiter - invited a friend"
    } else if text::same_text(name, "lucky") {
        "Lucky - one in a million"
    } else if text::same_text(name, "partner") {
        "Partner"
    } else {
        name
    }
}

/// The address of the picture of a badge.
pub open spec fn badge_url(name: Seq<char>) -> Seq<char> {
    "https://itzon.tv/static/img/badge-"@ + text::replaced(name, CharClass::Only('_'), '-')
        + ".svg"@
}

/// The badge of a name and a title.
pub open spec fn badge(name: Seq<char>, title: Seq<char>) -> BadgeView {
    let url = Some(badge_url(sanitized(name)));
    BadgeView {
        name: sanitized(name),
        version: "1"@,
        image_url_1x: url,
        image_url_2x: url,
        image_url_4x: url,
        title: Some(title),
        description: None,
    }
}

pub fn itzon_badge(name: &str, title: &str) -> (r: Badge)
    ensures
        r@ == badge(name@, title@),
{
    let name = sanitize_badge_name(name);
    let asset = text::replace(name.as_str(), &CharClass::Only('_'), '-');
    let mut url = "https://itzon.tv/static/img/badge-".to_string();
    url.append(asset.as_str());
    url.append(".svg");
    Badge {
        name,
        version: "1".to_string(),
        image_url_1x: Some(url.clone()),
        image_url_2x: Some(url.clone()),
        image_url_4x: Some(url),
        title: Some(title.to_string()),
        description: None,
    }
}

pub open spec fn is_names_prefix(c: char) -> bool {
    c == '@' || c == '%' || c == '&' || c == '+' || c == '~' || c == '*' || c == '=' || c == '?'
}

/// The number of prefix characters at the start of an entry of a list of names.
pub open spec fn prefix_len(entry: Seq<char>) -> int
    decreases entry.len(),
{
    if entry.len() > 0 && is_names_prefix(entry[0]) {
        1 + prefix_len(entry.drop_first())
    } else {
        0
    }
}

proof fn lemma_prefix_len(entry: Seq<char>, n: int)
    requires
        0 <= n <= entry.len(),
        forall|i: int| 0 <= i < n ==> is_names_prefix(#[trigger] entry[i]),
        n < entry.len() ==> !is_names_prefix(entry[n]),
    ensures
        prefix_len(entry) == n,
    decreases n,
{
    if n > 0 {
        assert(is_names_prefix(entry[0]));
        let rest = entry.drop_first();
        assert forall|i: int| 0 <= i < n - 1 implies is_names_prefix(#[trigger] rest[i]) by {
            assert(rest[i] == entry[i + 1]);
        }
        lemma_prefix_len(rest, n - 1);
    }
}

pub fn names_prefix_len(entry: &str) -> (r: usize)
    ensures
        r == prefix_len(entry@),
        r <= entry@.len(),
{
    let chars = text::chars_of(entry);
    let mut n: usize = 0;
    while n < chars.len() && (chars[n] == '@' || chars[n] == '%' || chars[n] == '&' || chars[n]
        == '+' || chars[n] == '~' || chars[n] == '*' || chars[n] == '=' || chars[n] == '?')
        invariant
            chars@ == entry@,
            n <= chars.len(),
            forall|i: int| 0 <= i < n ==> is_names_prefix(#[trigger] entry@[i]),
        decreases chars.len() - n,
    {
        assert(is_names_prefix(entry@[n as int]));
        n = n + 1;
    }
    proof {
        lemma_prefix_len(entry@, n as int);
    }
    n
}

/// What an entry of a list of names says of the account `nick`: whether its mail address is
/// verified; nothing, where the entry is another's.
pub open spec fn entry_verification(entry: Seq<char>, nick: Seq<char>) -> Option<bool> {
    let n = prefix_len(entry);
    if letters::ascii_lowercase(entry.skip(n)) == letters::ascii_lowercase(nick) {
        Some(!entry.take(n).contains('='))
    } else {
        None
    }
}

pub fn names_entry_verification(entry: &str, confirmed_nick: &str) -> (r: Option<bool>)
    ensures
        r == entry_verification(entry@, confirmed_nick@),
{
    let n = entry.unicode_len();
    let at = names_prefix_len(entry);
    assert(entry@.subrange(at as int, n as int) =~= entry@.skip(at as int));
    if letters::eq_ignore_ascii_case(entry.substring_char(at, n), confirmed_nick) {
        Some(!text::contains_char(entry.substring_char(0, at), '='))
    } else {
        None
    }
}

/// The highest role among the prefixes of a name.
pub open spec fn role_of(prefixes: Seq<char>) -> Option<Seq<char>> {
    if prefixes.contains('%') {
        Some("staff"@)
    } else if prefixes.contains('@') {
        Some("op"@)
    } else if prefixes.contains('&') {
        Some("bot"@)
    } else if prefixes.contains('+') {
        Some("mod"@)
    } else if prefixes.contains('~') {
        Some("vip"@)
    } else {
        None
    }
}

fn role_in(prefixes: &str) -> (r: Option<&'static str>)
    ensures
        r.deep_view() == role_of(prefixes@),
{
    if text::contains_char(prefixes, '%') {
        Some("staff")
    } else if text::contains_char(prefixes, '@') {
        Some("op")
    } else if text::contains_char(prefixes, '&') {
        Some("bot")
    } else if text::contains_char(prefixes, '+') {
        Some("mod")
    } else if text::contains_char(prefixes, '~') {
        Some("vip")
    } else {
        None
    }
}

/// Roles, badges and verification of the members of one channel, by their names in lower case.
pub struct MemberState {
    roles: TextMap<&'static str>,
    sub_badges: TextMap<String>,
    partners: TextMap<()>,
    unverified: TextMap<()>,
}

pub struct MemberView {
    pub roles: Map<Seq<char>, Seq<char>>,
    pub sub_badges: Map<Seq<char>, Seq<char>>,
    pub partners: Map<Seq<char>, ()>,
    pub unverified: Map<Seq<char>, ()>,
}

impl View for MemberState {
    type V = MemberView;

    closed spec fn view(&self) -> MemberView {
        MemberView {
            roles: self.roles@,
            sub_badges: self.sub_badges@,
            partners: self.partners@,
            unverified: self.unverified@,
        }
    }
}

impl MemberView {
    /// Nothing known of anyone.
    pub open spec fn empty() -> MemberView {
        MemberView {
            roles: Map::empty(),
            sub_badges: Map::empty(),
            partners: Map::empty(),
            unverified: Map::empty(),
        }
    }

    pub open spec fn with_sub_badge(self, nick: Seq<char>, name: Seq<char>) -> MemberView {
        MemberView {
            sub_badges: self.sub_badges.insert(letters::lowercase(nick), sanitized(name)),
            ..self
        }
    }

    pub open spec fn with_partner(self, nick: Seq<char>, enabled: bool) -> MemberView {
        let key = letters::lowercase(nick);
        MemberView {
            partners: if enabled {
                self.partners.insert(key, ())
            } else {
                self.partners.remove(key)
            },
            ..self
        }
    }

    pub open spec fn with_verified(self, nick: Seq<char>, verified: bool) -> MemberView {
        let key = letters::lowercase(nick);
        MemberView {
            unverified: if verified {
                self.unverified.remove(key)
            } else {
                self.unverified.insert(key, ())
            },
            ..self
        }
    }

    /// What an entry of a list of names changes: the role and the verification of its member.
    pub open spec fn with_names_entry(self, entry: Seq<char>) -> MemberView {
        let n = prefix_len(entry);
        let prefixes = entry.take(n);
        let nick = letters::lowercase(entry.skip(n));
        if nick.len() == 0 {
            self
        } else {
            let roles = match role_of(prefixes) {
                Some(role) => self.roles.insert(nick, role),
                None => self.roles.remove(nick),
            };
            (MemberView { roles, ..self }).with_verified(nick, !prefixes.contains('='))
        }
    }

    /// What the tags of a line change: the badges of its member.
    pub open spec fn with_tags(self, nick: Seq<char>, tags: Map<Seq<char>, Seq<char>>) -> MemberView {
        let badged = if !tags.contains_key("sub-badge"@) {
            self
        } else if tags["sub-badge"@].len() == 0 {
            MemberView { sub_badges: self.sub_badges.remove(letters::lowercase(nick)), ..self }
        } else {
            self.with_sub_badge(nick, tags["sub-badge"@])
        };
        if tags.contains_key("partner"@) {
            badged.with_partner(nick, tags["partner"@] == "1"@)
        } else {
            badged
        }
    }

    /// The badges of a member: role, partner, subscription, missing verification.
    pub open spec fn badges(self, nick: Seq<char>) -> Seq<BadgeView> {
        let key = letters::lowercase(nick);
        let role = if self.roles.contains_key(key) {
            seq![badge(self.roles[key], role_title(self.roles[key]))]
        } else {
            seq![]
        };
        let partner = if self.partners.contains_key(key) {
            seq![badge("partner"@, "Partner"@)]
        } else {
            seq![]
        };
        let subscriber = if self.sub_badges.contains_key(key) {
            seq![badge(self.sub_badges[key], subscriber_title(self.sub_badges[key]))]
        } else {
            seq![]
        };
        let unverified = if self.unverified.contains_key(key) {
            seq![badge("unverified"@, "Unverified"@)]
        } else {
            seq![]
        };
        role + partner + subscriber + unverified
    }
}

impl Default for MemberState {
    fn default() -> (r: MemberState)
        ensures
            r@ == MemberView::empty(),
    {
        MemberState {
            roles: TextMap::new(),
            sub_badges: TextMap::new(),
            partners: TextMap::new(),
            unverified: TextMap::new(),
        }
    }
}

impl MemberState {
    pub fn apply_names_entry(&mut self, entry: &str)
        ensures
            final(self)@ == old(self)@.with_names_entry(entry@),
    {
        let n = entry.unicode_len();
        let at = names_prefix_len(entry);
        assert(entry@.subrange(at as int, n as int) =~= entry@.skip(at as int));
        let prefixes = entry.substring_char(0, at);
        let nick = letters::to_lowercase(entry.substring_char(at, n));
        if nick.as_str().is_empty() {
            return;
        }
        match role_in(prefixes) {
            Some(role) => {
                self.roles.insert(nick.clone(), role);
            },
            None => {
                let _ = self.roles.remove(nick.as_str());
            },
        }
        let verified = !text::contains_char(prefixes, '=');
        self.set_verified(nick.as_str(), verified);
    }

    pub fn apply_tags(&mut self, nick: &str, line: &IrcLine)
        ensures
            final(self)@ == old(self)@.with_tags(nick@, line@.tags),
    {
        match line.tags.get("sub-badge") {
            Some(name) => {
                if name.as_str().is_empty() {
                    let _ = self.sub_badges.remove(letters::to_lowercase(nick).as_str());
                } else {
                    self.set_sub_badge(nick, name.as_str());
                }
            },
            None => {},
        }
        match line.tags.get("partner") {
            Some(value) => {
                self.set_partner(nick, text::same_text(value.as_str(), "1"));
            },
            None => {},
        }
    }

    pub fn set_sub_badge(&mut self, nick: &str, name: &str)
        ensures
            final(self)@ == old(self)@.with_sub_badge(nick@, name@),
    {
        self.sub_badges.insert(letters::to_lowercase(nick), sanitize_badge_name(name));
    }

    pub fn set_partner(&mut self, nick: &str, enabled: bool)
        ensures
            final(self)@ == old(self)@.with_partner(nick@, enabled),
    {
        let nick = letters::to_lowercase(nick);
        if enabled {
            self.partners.insert(nick, ());
        } else {
            let _ = self.partners.remove(nick.as_str());
        }
    }

    pub fn set_verified(&mut self, nick: &str, verified: bool)
        ensures
            final(self)@ == old(self)@.with_verified(nick@, verified),
    {
        let nick = letters::to_lowercase(nick);
        if verified {
            let _ = self.unverified.remove(nick.as_str());
        } else {
            self.unverified.insert(nick, ());
        }
    }

    pub fn badges_for(&self, nick: &str) -> (r: Vec<Badge>)
        ensures
            r.deep_view() == self@.badges(nick@),
    {
        let ghost asked = nick@;
        let nick = letters::to_lowercase(nick);
        let mut badges: Vec<Badge> = Vec::new();
        match self.roles.get(nick.as_str()) {
            Some(role) => {
                badges.push(itzon_badge(role, role_badge_title(role)));
            },
            None => {},
        }
        if self.partners.contains_key(nick.as_str()) {
            badges.push(itzon_badge("partner", "Partner"));
        }
        match self.sub_badges.get(nick.as_str()) {
            Some(name) => {
                badges.push(itzon_badge(name.as_str(), subscriber_badge_title(name.as_str())));
            },
            None => {},
        }
        if self.unverified.contains_key(nick.as_str()) {
            badges.push(itzon_badge("unverified", "Unverified"));
        }
        assert(badges.deep_view() =~= self@.badges(asked));
        badges
    }
}

/// Whether a character can stand in front of a name in a list of names.
pub open spec fn is_mark(c: char) -> bool {
    seq!['@', '%', '&', '+', '~', '*', '=', '?'].contains(c)
}

proof fn lemma_marks(c: char)
    ensures
        is_mark(c) <==> is_names_prefix(c),
{
    let marks = seq!['@', '%', '&', '+', '~', '*', '=', '?'];
    assert(marks[0] == '@' && marks[1] == '%' && marks[2] == '&' && marks[3] == '+' && marks[4]
        == '~' && marks[5] == '*' && marks[6] == '=' && marks[7] == '?');
}

proof fn lemma_entry_parts(marks: Seq<char>, nick: Seq<char>)
    requires
        forall|i: int| 0 <= i < marks.len() ==> is_mark(#[trigger] marks[i]),
        nick.len() == 0 || !is_mark(nick[0]),
    ensures
        prefix_len(marks + nick) == marks.len(),
        (marks + nick).take(marks.len() as int) == marks,
        (marks + nick).skip(marks.len() as int) == nick,
{
    let entry = marks + nick;
    assert forall|i: int| 0 <= i < marks.len() implies is_names_prefix(#[trigger] entry[i]) by {
        assert(entry[i] == marks[i]);
        lemma_marks(marks[i]);
    }
    if nick.len() > 0 {
        lemma_marks(nick[0]);
    }
    lemma_prefix_len(entry, marks.len() as int);
    assert(entry.take(marks.len() as int) =~= marks);
    assert(entry.skip(marks.len() as int) =~= nick);
}

/// An entry of a list of names gives its member the highest role that the marks in front of it tell,
/// and tells by `=` that the member is not verified; nothing else is changed by it.
pub proof fn an_entry_tells_its_member(
    state: MemberView,
    marks: Seq<char>,
    nick: Seq<char>,
    other: Seq<char>,
)
    requires
        forall|i: int| 0 <= i < marks.len() ==> is_mark(#[trigger] marks[i]),
        nick.len() > 0,
        !is_mark(nick[0]),
        forall|i: int| 0 <= i < nick.len() ==> '\0' <= #[trigger] nick[i] <= '\u{7f}',
        other != letters::lowercase(nick),
    ensures
        ({
            let next = state.with_names_entry(marks + nick);
            let key = letters::lowercase(nick);
            &&& marks.contains('%') ==> has_role(next, key, "staff"@)
            &&& !marks.contains('%') && marks.contains('@') ==> has_role(next, key, "op"@)
            &&& !marks.contains('%') && !marks.contains('@') && marks.contains('&') ==> has_role(
                next,
                key,
                "bot"@,
            )
            &&& !marks.contains('%') && !marks.contains('@') && !marks.contains('&')
                && marks.contains('+') ==> has_role(next, key, "mod"@)
            &&& !marks.contains('%') && !marks.contains('@') && !marks.contains('&')
                && !marks.contains('+') && marks.contains('~') ==> has_role(next, key, "vip"@)
            &&& !marks.contains('%') && !marks.contains('@') && !marks.contains('&')
                && !marks.contains('+') && !marks.contains('~') ==> !next.roles.contains_key(key)
            &&& next.unverified.contains_key(key) <==> marks.contains('=')
            &&& next.sub_badges == state.sub_badges
            &&& next.partners == state.partners
            &&& next.roles.contains_key(other) == state.roles.contains_key(other)
            &&& next.roles[other] == state.roles[other]
            &&& next.unverified.contains_key(other) == state.unverified.contains_key(other)
        }),
{
    lemma_entry_parts(marks, nick);
    assert(is_ascii_chars(nick));
    let key = letters::lowercase(nick);
    assert(key == letters::ascii_lowercase(nick));
    assert forall|i: int| 0 <= i < key.len() implies '\0' <= #[trigger] key[i] <= '\u{7f}'
        && !letters::is_ascii_upper(key[i]) by {
        assert(key[i] == letters::lower_char(nick[i]));
        assert('\0' <= nick[i] <= '\u{7f}');
    }
    assert(is_ascii_chars(key));
    letters::lemma_lowercase_fixed(key);
}

pub open spec fn has_role(state: MemberView, key: Seq<char>, role: Seq<char>) -> bool {
    state.roles.contains_key(key) && state.roles[key] == role
}

/// An entry of a list of names tells of an account whether it is verified just where it is that of
/// the account, in whichever case.
pub proof fn an_entry_tells_verification(marks: Seq<char>, nick: Seq<char>, account: Seq<char>)
    requires
        forall|i: int| 0 <= i < marks.len() ==> is_mark(#[trigger] marks[i]),
        nick.len() > 0,
        !is_mark(nick[0]),
    ensures
        letters::ascii_lowercase(nick) == letters::ascii_lowercase(account) ==> entry_verification(
            marks + nick,
            account,
        ) == Some(!marks.contains('=')),
        letters::ascii_lowercase(nick) != letters::ascii_lowercase(account) ==> entry_verification(
            marks + nick,
            account,
        ) is None,
{
    lemma_entry_parts(marks, nick);
}

/// The tags of a line change the badges of the member: a subscription that is told counts, an empty
/// one ends it, and `1` alone makes a partner. What is not told stays.
pub proof fn tags_change_badges(
    state: MemberView,
    nick: Seq<char>,
    tags: Map<Seq<char>, Seq<char>>,
    other: Seq<char>,
)
    requires
        other != letters::lowercase(nick),
    ensures
        ({
            let next = state.with_tags(nick, tags);
            let key = letters::lowercase(nick);
            &&& next.roles == state.roles
            &&& next.unverified == state.unverified
            &&& !tags.contains_key("sub-badge"@) ==> next.sub_badges == state.sub_badges
            &&& tags.contains_key("sub-badge"@) && tags["sub-badge"@].len() == 0
                ==> !next.sub_badges.contains_key(key)
            &&& tags.contains_key("sub-badge"@) && tags["sub-badge"@].len() > 0
                ==> next.sub_badges.contains_key(key) && next.sub_badges[key] == sanitized(
                tags["sub-badge"@],
            )
            &&& !tags.contains_key("partner"@) ==> next.partners == state.partners
            &&& tags.contains_key("partner"@) ==> (next.partners.contains_key(key)
                <==> tags["partner"@] == seq!['1'])
            &&& next.sub_badges.contains_key(other) == state.sub_badges.contains_key(other)
            &&& next.sub_badges[other] == state.sub_badges[other]
            &&& next.partners.contains_key(other) == state.partners.contains_key(other)
        }),
{
    reveal_strlit("1");
    assert("1"@ =~= seq!['1']);
}

/// What is set of a member is told of that member alone.
pub proof fn what_is_set_is_known(
    state: MemberView,
    nick: Seq<char>,
    name: Seq<char>,
    yes: bool,
)
    ensures
        ({
            let key = letters::lowercase(nick);
            &&& state.with_partner(nick, yes).partners.contains_key(key) == yes
            &&& state.with_verified(nick, yes).unverified.contains_key(key) == !yes
            &&& state.with_sub_badge(nick, name).sub_badges.contains_key(key)
            &&& state.with_sub_badge(nick, name).sub_badges[key] == sanitized(name)
            &&& state.with_partner(nick, yes).roles == state.roles
            &&& state.with_partner(nick, yes).sub_badges == state.sub_badges
            &&& state.with_partner(nick, yes).unverified == state.unverified
            &&& state.with_verified(nick, yes).roles == state.roles
            &&& state.with_verified(nick, yes).sub_badges == state.sub_badges
            &&& state.with_verified(nick, yes).partners == state.partners
            &&& state.with_sub_badge(nick, name).roles == state.roles
            &&& state.with_sub_badge(nick, name).partners == state.partners
            &&& state.with_sub_badge(nick, name).unverified == state.unverified
        }),
{
}

/// A badge keeps its name where that is one of up to twenty-four small letters, digits and `_`, with
/// white space around it or not; every other name is shown as `regular`.
pub proof fn badge_names_are_small(name: Seq<char>)
    ensures
        ({
            let normal = letters::lowercase(text::trimmed(name));
            let proper = 1 <= normal.len() <= 24 && forall|i: int|
                0 <= i < normal.len() ==> ('a' <= #[trigger] normal[i] <= 'z' || '0' <= normal[i]
                    <= '9' || normal[i] == '_');
            &&& proper ==> sanitized(name) == normal
            &&& !proper ==> sanitized(name) == "regular"@
        }),
{
    let normal = letters::lowercase(text::trimmed(name));
    if is_badge_name(normal) {
        assert forall|i: int| 0 <= i < normal.len() implies ('a' <= #[trigger] normal[i] <= 'z'
            || '0' <= normal[i] <= '9' || normal[i] == '_') by {
            assert(is_badge_char(normal[i]));
        }
    }
}

/// Whether a badge is the one of the name and the title, with its picture.
pub open spec fn is_badge_of(
    shown: BadgeView,
    name: Seq<char>,
    title: Seq<char>,
    picture: Seq<char>,
) -> bool {
    let url = "https://itzon.tv/static/img/badge-"@ + picture + ".svg"@;
    &&& shown.name == name
    &&& shown.title == Some(title)
    &&& shown.version == "1"@
    &&& shown.image_url_1x == Some(url)
    &&& shown.image_url_2x == Some(url)
    &&& shown.image_url_4x == Some(url)
    &&& shown.description is None
}

/// A badge shows the picture that has its name, with `-` for `_`.
proof fn lemma_badge(name: Seq<char>, title: Seq<char>)
    requires
        is_badge_name(name),
    ensures
        is_badge_of(
            badge(name, title),
            name,
            title,
            name.map_values(
                |c: char|
                    if c == '_' {
                        '-'
                    } else {
                        c
                    },
            ),
        ),
{
    lemma_badge_name_fixed(name);
    assert(text::replaced(name, CharClass::Only('_'), '-') =~= name.map_values(
        |c: char|
            if c == '_' {
                '-'
            } else {
                c
            },
    ));
}

proof fn lemma_plain_badge(name: Seq<char>, title: Seq<char>)
    requires
        is_badge_name(name),
        !name.contains('_'),
    ensures
        is_badge_of(badge(name, title), name, title, name),
{
    lemma_badge(name, title);
    assert forall|i: int| 0 <= i < name.len() implies name[i] != '_' by {
        assert(name.contains(name[i]));
    }
    assert(name.map_values(
        |c: char|
            if c == '_' {
                '-'
            } else {
                c
            },
    ) =~= name);
}

/// The badges of a member are one for each thing that is known: the role, the partnership, the
/// subscription and the missing verification, in this order.
pub proof fn badges_show_what_is_known(state: MemberView, nick: Seq<char>)
    ensures
        ({
            let key = letters::lowercase(nick);
            let shown = state.badges(nick);
            let r: int = if state.roles.contains_key(key) {
                1
            } else {
                0
            };
            let p: int = if state.partners.contains_key(key) {
                1
            } else {
                0
            };
            let s: int = if state.sub_badges.contains_key(key) {
                1
            } else {
                0
            };
            let u: int = if state.unverified.contains_key(key) {
                1
            } else {
                0
            };
            &&& shown.len() == r + p + s + u
            &&& has_role(state, key, "op"@) ==> is_badge_of(shown[0], "op"@, "Owner"@, "op"@)
            &&& has_role(state, key, "staff"@) ==> is_badge_of(
                shown[0],
                "staff"@,
                "Staff"@,
                "staff"@,
            )
            &&& has_role(state, key, "bot"@) ==> is_badge_of(shown[0], "bot"@, "Bot"@, "bot"@)
            &&& has_role(state, key, "mod"@) ==> is_badge_of(shown[0], "mod"@, "Moderator"@, "mod"@)
            &&& has_role(state, key, "vip"@) ==> is_badge_of(shown[0], "vip"@, "VIP"@, "vip"@)
            &&& p == 1 ==> is_badge_of(shown[r], "partner"@, "Partner"@, "partner"@)
            &&& s == 1 && is_badge_name(state.sub_badges[key]) ==> shown[r + p].name
                == state.sub_badges[key]
            &&& s == 1 && state.sub_badges[key] == "regular"@ ==> is_badge_of(
                shown[r + p],
                "regular"@,
                "Regular"@,
                "regular"@,
            )
            &&& u == 1 ==> is_badge_of(
                shown[r + p + s],
                "unverified"@,
                "Unverified"@,
                "unverified"@,
            )
        }),
{
    reveal_strlit("op");
    reveal_strlit("staff");
    reveal_strlit("bot");
    reveal_strlit("mod");
    reveal_strlit("vip");
    reveal_strlit("partner");
    reveal_strlit("regular");
    reveal_strlit("unverified");
    let key = letters::lowercase(nick);
    assert("op"@.len() == 2 && "staff"@.len() == 5 && "bot"@.len() == 3 && "mod"@.len() == 3
        && "vip"@.len() == 3);
    assert("bot"@[0] == 'b' && "mod"@[0] == 'm' && "vip"@[0] == 'v');
    lemma_plain_badge("op"@, "Owner"@);
    lemma_plain_badge("staff"@, "Staff"@);
    lemma_plain_badge("bot"@, "Bot"@);
    lemma_plain_badge("mod"@, "Moderator"@);
    lemma_plain_badge("vip"@, "VIP"@);
    lemma_plain_badge("partner"@, "Partner"@);
    lemma_plain_badge("regular"@, "Regular"@);
    lemma_plain_badge("unverified"@, "Unverified"@);
    if state.sub_badges.contains_key(key) && is_badge_name(state.sub_badges[key]) {
        lemma_badge(state.sub_badges[key], subscriber_title(state.sub_badges[key]));
    }
}

/// Each badge of a subscription has its own title; one that is not known is titled by its name.
pub proof fn subscriptions_are_titled(name: Seq<char>)
    ensures
        subscriber_title("regular"@) == "Regular"@,
        subscriber_title("ambassador"@) == "Ambassador - one of the first"@,
        subscriber_title("bounty"@) == "Bug bounty - found a critical bug"@,
        subscriber_title("invite"@) == "Recruiter - invited a friend"@,
        subscriber_title("lucky"@) == "Lucky - one in a million"@,
        subscriber_title("partner"@) == "Partner"@,
        name != "regular"@ && name != "ambassador"@ && name != "bounty"@ && name != "invite"@ && name
            != "lucky"@ && name != "partner"@ ==> subscriber_title(name) == name,
{
    reveal_strlit("regular");
    reveal_strlit("ambassador");
    reveal_strlit("bounty");
    reveal_strlit("invite");
    reveal_strlit("lucky");
    reveal_strlit("partner");
    assert("regular"@.len() == 7 && "ambassador"@.len() == 10 && "bounty"@.len() == 6
        && "invite"@.len() == 6 && "lucky"@.len() == 5 && "partner"@.len() == 7);
    assert("regular"@[0] == 'r' && "partner"@[0] == 'p' && "bounty"@[0] == 'b' && "invite"@[0]
        == 'i');
}

} // verus!
