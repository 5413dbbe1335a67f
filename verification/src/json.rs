//! JSON values, as far as they are read here.
use crate::letters;
use crate::text;
use crate::text::CharClass;
use vstd::prelude::*;
use vstd::string::*;

verus! {

/// A JSON value.
#[derive(Debug)]
pub enum Json {
    Null,
    Bool(bool),
    /// A number without a sign and a fraction.
    Unsigned(u64),
    /// A number below zero without a fraction.
    Negative(i64),
    /// Any other number.
    Fraction,
    Text(String),
    List(Vec<Json>),
    /// The members in the order in which they are kept, each name once.
    Object(Vec<(String, Json)>),
}

/// The number that a row of digits writes.
pub open spec fn number(s: Seq<char>) -> nat
    decreases s.len(),
{
    if s.len() == 0 {
        0
    } else {
        number(s.drop_last()) * 10 + (s.last() as nat - '0' as nat) as nat
    }
}

/// The texts that write a place in a list: digits, and no zero before others.
pub open spec fn is_place(s: Seq<char>) -> bool {
    &&& s.len() > 0
    &&& forall|i: int| 0 <= i < s.len() ==> letters::is_ascii_digit(#[trigger] s[i])
    &&& s[0] == '0' ==> s.len() == 1
}

proof fn lemma_number_grows(s: Seq<char>, i: int)
    requires
        0 <= i <= s.len(),
    ensures
        number(s.take(i)) <= number(s),
    decreases s.len() - i,
{
    if i == s.len() {
        assert(s.take(i) =~= s);
    } else {
        lemma_number_grows(s, i + 1);
        assert(s.take(i + 1).drop_last() =~= s.take(i));
    }
}

/// The place below `len` that a text writes.
fn read_place(token: &str, len: usize) -> (r: Option<usize>)
    ensures
        match r {
            Some(at) => is_place(token@) && number(token@) == at && at < len,
            None => !(is_place(token@) && number(token@) < len),
        },
{
    let chars = text::chars_of(token);
    if chars.len() == 0 || (chars[0] == '0' && chars.len() > 1) {
        return None;
    }
    let mut at: usize = 0;
    let mut i: usize = 0;
    assert(token@.take(0) =~= seq![]);
    while i < chars.len()
        invariant
            chars@ == token@,
            i <= chars.len(),
            at == number(token@.take(i as int)),
            i > 0 ==> at < len,
            forall|k: int| 0 <= k < i ==> letters::is_ascii_digit(#[trigger] token@[k]),
        decreases chars.len() - i,
    {
        let c = chars[i];
        if !letters::ascii_digit(c) {
            assert(!letters::is_ascii_digit(token@[i as int]));
            return None;
        }
        let d: usize = (c as u32 - '0' as u32) as usize;
        proof {
            assert(token@.take(i + 1).drop_last() =~= token@.take(i as int));
            lemma_number_grows(token@, i + 1);
        }
        let tens: usize = match at.checked_mul(10) {
            Some(tens) => tens,
            None => {
                return None;
            },
        };
        at = match tens.checked_add(d) {
            Some(sum) => sum,
            None => {
                return None;
            },
        };
        if at >= len {
            return None;
        }
        i = i + 1;
    }
    assert(token@.take(i as int) =~= token@);
    Some(at)
}

/// The value of the first member with the name.
pub open spec fn member(fields: Seq<(String, Json)>, name: Seq<char>) -> Option<Json>
    decreases fields.len(),
{
    if fields.len() == 0 {
        None
    } else if fields[0].0@ == name {
        Some(fields[0].1)
    } else {
        member(fields.drop_first(), name)
    }
}

fn find_member<'a>(fields: &'a Vec<(String, Json)>, name: &str) -> (r: Option<&'a Json>)
    ensures
        match r {
            Some(value) => member(fields@, name@) == Some(*value),
            None => member(fields@, name@) is None,
        },
{
    let mut i: usize = 0;
    assert(fields@.skip(0) =~= fields@);
    while i < fields.len()
        invariant
            i <= fields.len(),
            member(fields@.skip(i as int), name@) == member(fields@, name@),
        decreases fields.len() - i,
    {
        if text::same_text(fields[i].0.as_str(), name) {
            return Some(&fields[i].1);
        }
        assert(fields@.skip(i as int).drop_first() =~= fields@.skip(i + 1));
        i = i + 1;
    }
    None
}

/// A step of a path as it is meant: `~1` stands for a slash, `~0` for a tilde.
pub open spec fn decoded(token: Seq<char>) -> Seq<char>
    decreases token.len(),
{
    if token.len() == 0 {
        seq![]
    } else if token[0] == '~' && token.len() > 1 && token[1] == '1' {
        seq!['/'] + decoded(token.skip(2))
    } else if token[0] == '~' && token.len() > 1 && token[1] == '0' {
        seq!['~'] + decoded(token.skip(2))
    } else {
        seq![token[0]] + decoded(token.drop_first())
    }
}

fn decode(token: &str) -> (r: String)
    ensures
        r@ == decoded(token@),
{
    let chars = text::chars_of(token);
    let mut out = String::new();
    let mut i: usize = 0;
    assert(token@.skip(0) =~= token@);
    while i < chars.len()
        invariant
            chars@ == token@,
            i <= chars.len(),
            out@ + decoded(token@.skip(i as int)) == decoded(token@),
        decreases chars.len() - i,
    {
        let ghost rest = token@.skip(i as int);
        let ghost done = out@;
        let marked = chars[i] == '~' && chars.len() - i > 1;
        if marked && (chars[i + 1] == '1' || chars[i + 1] == '0') {
            let meant = if chars[i + 1] == '1' {
                '/'
            } else {
                '~'
            };
            out.push(meant);
            assert(token@.skip(i + 2) =~= rest.skip(2));
            assert(done + (seq![meant] + decoded(rest.skip(2))) =~= out@ + decoded(rest.skip(2)));
            i = i + 2;
        } else {
            let c = chars[i];
            out.push(c);
            assert(token@.skip(i + 1) =~= rest.drop_first());
            assert(done + (seq![c] + decoded(rest.drop_first())) =~= out@ + decoded(
                rest.drop_first(),
            ));
            i = i + 1;
        }
    }
    assert(token@.skip(i as int) =~= seq![]);
    assert(out@ + decoded(seq![]) =~= out@);
    out
}

impl Json {
    /// The member of an object with the name.
    pub open spec fn named(self, name: Seq<char>) -> Option<Json> {
        match self {
            Json::Object(fields) => member(fields@, name),
            _ => None,
        }
    }

    /// One step down: to the member with the name, or to the place in the list.
    pub open spec fn step(self, token: Seq<char>) -> Option<Json> {
        match self {
            Json::Object(fields) => member(fields@, token),
            Json::List(items) => if is_place(token) && number(token) < items@.len() {
                Some(items@[number(token) as int])
            } else {
                None
            },
            _ => None,
        }
    }

    /// Several steps down, each told as a path writes it.
    pub open spec fn walked(self, tokens: Seq<Seq<char>>) -> Option<Json>
        decreases tokens.len(),
    {
        if tokens.len() == 0 {
            Some(self)
        } else {
            match self.step(decoded(tokens[0])) {
                Some(next) => next.walked(tokens.drop_first()),
                None => None,
            }
        }
    }

    /// The value at the end of a path: steps, each behind a slash.
    pub open spec fn at_path(self, path: Seq<char>) -> Option<Json> {
        if path.len() == 0 {
            Some(self)
        } else if path[0] != '/' {
            None
        } else {
            self.walked(text::pieces(path.drop_first(), CharClass::Only('/')))
        }
    }

    pub open spec fn text_of(self) -> Option<Seq<char>> {
        match self {
            Json::Text(value) => Some(value@),
            _ => None,
        }
    }

    /// A number without a sign, up to the largest `u64`.
    pub open spec fn unsigned(self) -> Option<u64> {
        match self {
            Json::Unsigned(value) => Some(value),
            _ => None,
        }
    }

    /// A number without a fraction between the smallest and the largest `i64`.
    pub open spec fn signed(self) -> Option<i64> {
        match self {
            Json::Unsigned(value) => if value <= i64::MAX {
                Some(value as i64)
            } else {
                None
            },
            Json::Negative(value) => Some(value),
            _ => None,
        }
    }

    pub open spec fn list(self) -> Option<Seq<Json>> {
        match self {
            Json::List(items) => Some(items@),
            _ => None,
        }
    }

    pub fn get(&self, name: &str) -> (r: Option<&Json>)
        ensures
            match r {
                Some(value) => self.named(name@) == Some(*value),
                None => self.named(name@) is None,
            },
    {
        match self {
            Json::Object(fields) => find_member(fields, name),
            _ => None,
        }
    }

    fn child(&self, token: &str) -> (r: Option<&Json>)
        ensures
            match r {
                Some(value) => self.step(token@) == Some(*value),
                None => self.step(token@) is None,
            },
    {
        match self {
            Json::Object(fields) => find_member(fields, token),
            Json::List(items) => match read_place(token, items.len()) {
                Some(at) => Some(&items[at]),
                None => None,
            },
            _ => None,
        }
    }

    pub fn pointer(&self, path: &str) -> (r: Option<&Json>)
        ensures
            match r {
                Some(value) => self.at_path(path@) == Some(*value),
                None => self.at_path(path@) is None,
            },
    {
        let n = path.unicode_len();
        if n == 0 {
            return Some(self);
        }
        if path.get_char(0) != '/' {
            return None;
        }
        assert(path@.subrange(1, n as int) =~= path@.drop_first());
        let tokens = text::split(path.substring_char(1, n), &CharClass::Only('/'));
        let ghost all = tokens.deep_view();
        let mut here: &Json = self;
        let mut i: usize = 0;
        assert(all.skip(0) =~= all);
        while i < tokens.len()
            invariant
                all == tokens.deep_view(),
                i <= tokens.len(),
                self.at_path(path@) == self.walked(all),
                here.walked(all.skip(i as int)) == self.walked(all),
            decreases tokens.len() - i,
        {
            let ghost rest = all.skip(i as int);
            assert(rest[0] == tokens@[i as int]@);
            assert(rest.drop_first() =~= all.skip(i + 1));
            match here.child(decode(tokens[i]).as_str()) {
                Some(next) => {
                    here = next;
                },
                None => {
                    return None;
                },
            }
            i = i + 1;
        }
        assert(all.skip(i as int) =~= seq![]);
        Some(here)
    }

    pub fn as_str(&self) -> (r: Option<&str>)
        ensures
            r.deep_view() == self.text_of(),
    {
        match self {
            Json::Text(value) => Some(value.as_str()),
            _ => None,
        }
    }

    pub fn as_u64(&self) -> (r: Option<u64>)
        ensures
            r == self.unsigned(),
    {
        match self {
            Json::Unsigned(value) => Some(*value),
            _ => None,
        }
    }

    pub fn as_i64(&self) -> (r: Option<i64>)
        ensures
            r == self.signed(),
    {
        match self {
            Json::Unsigned(value) => if *value <= i64::MAX as u64 {
                Some(*value as i64)
            } else {
                None
            },
            Json::Negative(value) => Some(*value),
            _ => None,
        }
    }

    pub fn as_array(&self) -> (r: Option<&Vec<Json>>)
        ensures
            match r {
                Some(items) => self.list() == Some(items@),
                None => self.list() is None,
            },
    {
        match self {
            Json::List(items) => Some(items),
            _ => None,
        }
    }
}

/// A path is walked step by step: a step more leads from where the path before led, to the member
/// with the name or to the place in the list.
pub proof fn a_path_is_walked_in_steps(value: Json, path: Seq<char>, token: Seq<char>)
    requires
        path.len() == 0 || path[0] == '/',
        !token.contains('/'),
        !token.contains('~'),
    ensures
        value.at_path(seq![]) == Some(value),
        value.at_path(path + seq!['/'] + token) == (match value.at_path(path) {
            Some(found) => found.step(token),
            None => None,
        }),
{
    let only = CharClass::Only('/');
    let longer = path + seq!['/'] + token;
    lemma_decoded_plain(token);
    if path.len() == 0 {
        assert(longer.drop_first() =~= token);
        text::pieces_end_at_marks(token, seq![], '/');
        let one = seq![token];
        assert(one.drop_first() =~= seq![]);
        reveal_with_fuel(Json::walked, 2);
    } else {
        let inner = path.drop_first();
        assert(longer.drop_first() =~= inner + seq!['/'] + token);
        lemma_pieces_push(inner, token);
        lemma_walked_push(value, text::pieces(inner, only), token);
    }
}

proof fn lemma_decoded_plain(token: Seq<char>)
    requires
        !token.contains('~'),
    ensures
        decoded(token) == token,
    decreases token.len(),
{
    if token.len() > 0 {
        assert(token.contains(token[0]));
        let rest = token.drop_first();
        assert(!rest.contains('~')) by {
            if rest.contains('~') {
                let i = choose|i: int| 0 <= i < rest.len() && rest[i] == '~';
                assert(token[i + 1] == '~');
            }
        }
        lemma_decoded_plain(rest);
        assert(seq![token[0]] + rest =~= token);
    } else {
        assert(decoded(token) =~= token);
    }
}

proof fn lemma_pieces_push(s: Seq<char>, token: Seq<char>)
    requires
        !token.contains('/'),
    ensures
        text::pieces(s + seq!['/'] + token, CharClass::Only('/')) == text::pieces(
            s,
            CharClass::Only('/'),
        ).push(token),
    decreases s.len(),
{
    let only = CharClass::Only('/');
    let at = text::first_index(s, only);
    text::lemma_first_index(s, only);
    let first = s.take(at);
    assert(!first.contains('/')) by {
        if first.contains('/') {
            let i = choose|i: int| 0 <= i < first.len() && first[i] == '/';
            assert(!only.has(s[i]));
        }
    }
    let whole = s + seq!['/'] + token;
    if at < s.len() {
        let rest = s.skip(at + 1);
        assert(only.has(s[at]));
        lemma_pieces_push(rest, token);
        assert(whole =~= first + seq!['/'] + (rest + seq!['/'] + token));
        text::pieces_end_at_marks(first, rest + seq!['/'] + token, '/');
        assert(text::pieces(s, only).push(token) =~= seq![first] + text::pieces(rest, only).push(
            token,
        ));
    } else {
        assert(first =~= s);
        text::pieces_end_at_marks(s, token, '/');
        text::pieces_end_at_marks(token, seq![], '/');
        assert(text::pieces(s, only).push(token) =~= seq![s] + seq![token]);
    }
}

proof fn lemma_walked_push(value: Json, tokens: Seq<Seq<char>>, token: Seq<char>)
    requires
        !token.contains('~'),
    ensures
        value.walked(tokens.push(token)) == (match value.walked(tokens) {
            Some(found) => found.step(token),
            None => None,
        }),
    decreases tokens.len(),
{
    let all = tokens.push(token);
    lemma_decoded_plain(token);
    if tokens.len() == 0 {
        assert(all.drop_first() =~= seq![]);
        reveal_with_fuel(Json::walked, 2);
    } else {
        assert(all[0] == tokens[0]);
        assert(all.drop_first() =~= tokens.drop_first().push(token));
        match value.step(decoded(tokens[0])) {
            Some(next) => lemma_walked_push(next, tokens.drop_first(), token),
            None => {},
        }
    }
}

/// The member with a name is the first that has it, and a place in a list is told by its number.
pub proof fn a_step_finds_its_value(
    fields: Vec<(String, Json)>,
    items: Vec<Json>,
    name: Seq<char>,
    i: int,
)
    ensures
        0 <= i < fields@.len() && fields@[i].0@ == name && (forall|k: int|
            0 <= k < i ==> (#[trigger] fields@[k]).0@ != name) ==> Json::Object(fields).step(name)
            == Some(fields@[i].1) && Json::Object(fields).named(name) == Some(fields@[i].1),
        (forall|k: int| 0 <= k < fields@.len() ==> (#[trigger] fields@[k]).0@ != name)
            ==> Json::Object(fields).step(name) is None && Json::Object(fields).named(name) is None,
        0 <= i < items@.len() ==> Json::List(items).step(letters::decimal(i as nat)) == Some(
            items@[i],
        ),
        i >= items@.len() ==> Json::List(items).step(letters::decimal(i as nat)) is None,
{
    lemma_member(fields@, name);
    if i >= 0 {
        letters::lemma_decimal_digits(i as nat);
        letters::numbers_read_back(i as nat);
        lemma_number(letters::decimal(i as nat));
        if i == 0 {
            assert(letters::decimal(0).len() == 1);
        }
    }
}

proof fn lemma_number(digits: Seq<char>)
    ensures
        number(digits) == letters::value_of(digits),
    decreases digits.len(),
{
    if digits.len() > 0 {
        lemma_number(digits.drop_last());
    }
}

proof fn lemma_member(fields: Seq<(String, Json)>, name: Seq<char>)
    ensures
        match member(fields, name) {
            Some(value) => exists|i: int|
                0 <= i < fields.len() && (#[trigger] fields[i]).0@ == name && fields[i].1 == value
                    && forall|k: int| 0 <= k < i ==> (#[trigger] fields[k]).0@ != name,
            None => forall|k: int| 0 <= k < fields.len() ==> (#[trigger] fields[k]).0@ != name,
        },
    decreases fields.len(),
{
    if fields.len() > 0 && fields[0].0@ != name {
        let rest = fields.drop_first();
        lemma_member(rest, name);
        match member(rest, name) {
            Some(value) => {
                let i = choose|i: int|
                    0 <= i < rest.len() && (#[trigger] rest[i]).0@ == name && rest[i].1 == value
                        && forall|k: int| 0 <= k < i ==> (#[trigger] rest[k]).0@ != name;
                assert(fields[i + 1] == rest[i]);
                assert forall|k: int| 0 <= k < i + 1 implies (#[trigger] fields[k]).0@ != name by {
                    if k > 0 {
                        assert(fields[k] == rest[k - 1]);
                    }
                }
            },
            None => {
                assert forall|k: int| 0 <= k < fields.len() implies (#[trigger] fields[k]).0@
                    != name by {
                    if k > 0 {
                        assert(fields[k] == rest[k - 1]);
                    }
                }
            },
        }
    }
}

} // verus!
