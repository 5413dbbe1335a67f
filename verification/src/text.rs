//! Text: taken apart, trimmed, searched and put together, by characters.
use vstd::prelude::*;
use vstd::string::*;
use vstd::utf8::*;

verus! {

/// A set of characters that text is searched, trimmed or split by.
pub enum CharClass {
    /// The characters with the Unicode property White_Space.
    WhiteSpace,
    /// Carriage return and line feed.
    LineBreak,
    /// One character.
    Only(char),
}

/// The characters with the Unicode property White_Space.
pub open spec fn is_white_space(c: char) -> bool {
    let code = c as u32;
    ||| 0x9 <= code <= 0xd
    ||| code == 0x20
    ||| code == 0x85
    ||| code == 0xa0
    ||| code == 0x1680
    ||| 0x2000 <= code <= 0x200a
    ||| code == 0x2028
    ||| code == 0x2029
    ||| code == 0x202f
    ||| code == 0x205f
    ||| code == 0x3000
}

impl CharClass {
    pub open spec fn has(self, c: char) -> bool {
        match self {
            CharClass::WhiteSpace => is_white_space(c),
            CharClass::LineBreak => c == '\r' || c == '\n',
            CharClass::Only(one) => c == one,
        }
    }

    pub fn holds(&self, c: char) -> (r: bool)
        ensures
            r == self.has(c),
    {
        match self {
            CharClass::WhiteSpace => {
                let code = c as u32;
                (0x9 <= code && code <= 0xd) || code == 0x20 || code == 0x85 || code == 0xa0
                    || code == 0x1680 || (0x2000 <= code && code <= 0x200a) || code == 0x2028
                    || code == 0x2029 || code == 0x202f || code == 0x205f || code == 0x3000
            },
            CharClass::LineBreak => c == '\r' || c == '\n',
            CharClass::Only(one) => c == *one,
        }
    }
}

/// The position of the first character of `s` in the class; the length of `s` if there is none.
pub open spec fn first_index(s: Seq<char>, class: CharClass) -> int
    decreases s.len(),
{
    if s.len() == 0 || class.has(s[0]) {
        0
    } else {
        1 + first_index(s.drop_first(), class)
    }
}

pub proof fn lemma_first_index(s: Seq<char>, class: CharClass)
    ensures
        0 <= first_index(s, class) <= s.len(),
        first_index(s, class) < s.len() ==> class.has(s[first_index(s, class)]),
        forall|i: int| 0 <= i < first_index(s, class) ==> !class.has(s[i]),
    decreases s.len(),
{
    if s.len() == 0 || class.has(s[0]) {
    } else {
        lemma_first_index(s.drop_first(), class);
        assert forall|i: int| 0 <= i < first_index(s, class) implies !class.has(s[i]) by {
            if i > 0 {
                assert(s[i] == s.drop_first()[i - 1]);
            }
        }
    }
}

/// `first_index` is the only position with a member of the class before which there is none.
pub proof fn lemma_first_index_unique(s: Seq<char>, class: CharClass, at: int)
    requires
        0 <= at <= s.len(),
        at < s.len() ==> class.has(s[at]),
        forall|i: int| 0 <= i < at ==> !class.has(#[trigger] s[i]),
    ensures
        first_index(s, class) == at,
{
    lemma_first_index(s, class);
    let found = first_index(s, class);
    if found < at {
        assert(!class.has(s[found]));
    } else if at < found {
        assert(!class.has(s[at]));
    }
}

/// The position of the first character of `s` in the class.
pub fn find_class(s: &str, class: &CharClass) -> (r: usize)
    ensures
        r == first_index(s@, *class),
        r <= s@.len(),
{
    let n = s.unicode_len();
    let mut at: usize = 0;
    for c in it: s.chars()
        invariant
            n == s@.len(),
            at == it.index(),
            it.seq() == s@,
            forall|i: int| 0 <= i < at ==> !class.has(#[trigger] s@[i]),
    {
        if class.holds(c) {
            proof {
                lemma_first_index_unique(s@, *class, at as int);
            }
            return at;
        }
        at = at + 1;
    }
    proof {
        lemma_first_index_unique(s@, *class, at as int);
    }
    at
}

/// `s` without its leading characters of the class.
pub open spec fn trimmed_start(s: Seq<char>, class: CharClass) -> Seq<char>
    decreases s.len(),
{
    if s.len() > 0 && class.has(s[0]) {
        trimmed_start(s.drop_first(), class)
    } else {
        s
    }
}

/// `s` without its trailing characters of the class.
pub open spec fn trimmed_end(s: Seq<char>, class: CharClass) -> Seq<char>
    decreases s.len(),
{
    if s.len() > 0 && class.has(s.last()) {
        trimmed_end(s.drop_last(), class)
    } else {
        s
    }
}

/// `s` without leading and trailing white space.
pub open spec fn trimmed(s: Seq<char>) -> Seq<char> {
    trimmed_end(trimmed_start(s, CharClass::WhiteSpace), CharClass::WhiteSpace)
}

pub proof fn lemma_trimmed_start(s: Seq<char>, class: CharClass, from: int)
    requires
        0 <= from <= s.len(),
        forall|i: int| 0 <= i < from ==> class.has(#[trigger] s[i]),
        from < s.len() ==> !class.has(s[from]),
    ensures
        trimmed_start(s, class) == s.skip(from),
    decreases s.len(),
{
    if from > 0 {
        assert(class.has(s[0]));
        let rest = s.drop_first();
        assert forall|i: int| 0 <= i < from - 1 implies class.has(#[trigger] rest[i]) by {
            assert(rest[i] == s[i + 1]);
        }
        lemma_trimmed_start(rest, class, from - 1);
        assert(rest.skip(from - 1) =~= s.skip(from));
    } else {
        assert(s.skip(0) =~= s);
    }
}

pub proof fn lemma_trimmed_end(s: Seq<char>, class: CharClass, to: int)
    requires
        0 <= to <= s.len(),
        forall|i: int| to <= i < s.len() ==> class.has(#[trigger] s[i]),
        to > 0 ==> !class.has(s[to - 1]),
    ensures
        trimmed_end(s, class) == s.take(to),
    decreases s.len(),
{
    if to < s.len() {
        assert(class.has(s[s.len() - 1]));
        lemma_trimmed_end(s.drop_last(), class, to);
        assert(s.drop_last().take(to) =~= s.take(to));
    } else {
        assert(s.take(to) =~= s);
    }
}

/// What trimming keeps has no character of the class at its ends.
pub proof fn lemma_trimmed_start_first(s: Seq<char>, class: CharClass)
    ensures
        trimmed_start(s, class).len() <= s.len(),
        trimmed_start(s, class).len() > 0 ==> !class.has(trimmed_start(s, class)[0]),
        trimmed_start(s, class) == s.skip(s.len() - trimmed_start(s, class).len()),
    decreases s.len(),
{
    if s.len() > 0 && class.has(s[0]) {
        lemma_trimmed_start_first(s.drop_first(), class);
        let kept = trimmed_start(s, class);
        assert(s.drop_first().skip(s.len() - 1 - kept.len()) =~= s.skip(s.len() - kept.len()));
    } else {
        assert(s.skip(0) =~= s);
    }
}

pub proof fn lemma_trimmed_end_last(s: Seq<char>, class: CharClass)
    ensures
        trimmed_end(s, class).len() <= s.len(),
        trimmed_end(s, class).len() > 0 ==> !class.has(trimmed_end(s, class).last()),
        trimmed_end(s, class) == s.take(trimmed_end(s, class).len() as int),
    decreases s.len(),
{
    if s.len() > 0 && class.has(s.last()) {
        lemma_trimmed_end_last(s.drop_last(), class);
        let kept = trimmed_end(s, class);
        assert(s.drop_last().take(kept.len() as int) =~= s.take(kept.len() as int));
    } else {
        assert(s.take(s.len() as int) =~= s);
    }
}

/// What trimming leaves is a part of the text.
pub proof fn lemma_trimmed_within(s: Seq<char>)
    ensures
        forall|i: int| 0 <= i < trimmed(s).len() ==> s.contains(#[trigger] trimmed(s)[i]),
{
    let inner = trimmed_start(s, CharClass::WhiteSpace);
    lemma_trimmed_start_first(s, CharClass::WhiteSpace);
    lemma_trimmed_end_last(inner, CharClass::WhiteSpace);
    assert forall|i: int| 0 <= i < trimmed(s).len() implies s.contains(#[trigger] trimmed(s)[i]) by {
        assert(trimmed(s)[i] == s[s.len() - inner.len() + i]);
    }
}

/// Text whose first and last characters are not white space is left as it is by trimming.
pub proof fn lemma_trimmed_fixed(s: Seq<char>)
    requires
        s.len() > 0 ==> !is_white_space(s[0]) && !is_white_space(s.last()),
    ensures
        trimmed(s) == s,
{
}

/// Trimmed text starts and ends with no white space, and trimming it again changes nothing.
pub proof fn lemma_trimmed_idempotent(s: Seq<char>)
    ensures
        trimmed(trimmed(s)) == trimmed(s),
        trimmed(s).len() > 0 ==> !is_white_space(trimmed(s)[0]) && !is_white_space(
            trimmed(s).last(),
        ),
{
    lemma_trimmed_start_first(s, CharClass::WhiteSpace);
    lemma_trimmed_end_last(trimmed_start(s, CharClass::WhiteSpace), CharClass::WhiteSpace);
    lemma_trimmed_fixed(trimmed(s));
}

pub fn trim_start<'a>(s: &'a str, class: &CharClass) -> (r: &'a str)
    ensures
        r@ == trimmed_start(s@, *class),
{
    let n = s.unicode_len();
    let mut from: usize = 0;
    for c in it: s.chars()
        invariant
            n == s@.len(),
            from == it.index(),
            it.seq() == s@,
            forall|i: int| 0 <= i < from ==> class.has(#[trigger] s@[i]),
    {
        if !class.holds(c) {
            proof {
                lemma_trimmed_start(s@, *class, from as int);
            }
            return s.substring_char(from, n);
        }
        from = from + 1;
    }
    proof {
        lemma_trimmed_start(s@, *class, from as int);
    }
    s.substring_char(from, n)
}

pub fn trim_end<'a>(s: &'a str, class: &CharClass) -> (r: &'a str)
    ensures
        r@ == trimmed_end(s@, *class),
{
    let n = s.unicode_len();
    let mut at: usize = 0;
    let mut to: usize = 0;
    for c in it: s.chars()
        invariant
            n == s@.len(),
            at == it.index(),
            it.seq() == s@,
            to <= at,
            forall|i: int| to <= i < at ==> class.has(#[trigger] s@[i]),
            to > 0 ==> !class.has(s@[to - 1]),
    {
        at = at + 1;
        if !class.holds(c) {
            to = at;
        }
    }
    proof {
        lemma_trimmed_end(s@, *class, to as int);
    }
    s.substring_char(0, to)
}

pub fn trim<'a>(s: &'a str) -> (r: &'a str)
    ensures
        r@ == trimmed(s@),
{
    trim_end(trim_start(s, &CharClass::WhiteSpace), &CharClass::WhiteSpace)
}

/// `s` cut at its first character of the class, which is left out.
pub open spec fn cut_once(s: Seq<char>, class: CharClass) -> Option<(Seq<char>, Seq<char>)> {
    let at = first_index(s, class);
    if at < s.len() {
        Some((s.take(at), s.skip(at + 1)))
    } else {
        None
    }
}

pub fn split_once<'a>(s: &'a str, class: &CharClass) -> (r: Option<(&'a str, &'a str)>)
    ensures
        match r {
            Some(parts) => cut_once(s@, *class) == Some((parts.0@, parts.1@)),
            None => cut_once(s@, *class) is None,
        },
{
    let n = s.unicode_len();
    let at = find_class(s, class);
    if at < n {
        Some((s.substring_char(0, at), s.substring_char(at + 1, n)))
    } else {
        None
    }
}

/// The pieces of `s` between its characters of the class.
pub open spec fn pieces(s: Seq<char>, class: CharClass) -> Seq<Seq<char>>
    decreases s.len(),
    via pieces_decreases
{
    let at = first_index(s, class);
    if at < s.len() {
        seq![s.take(at)] + pieces(s.skip(at + 1), class)
    } else {
        seq![s]
    }
}

#[via_fn]
proof fn pieces_decreases(s: Seq<char>, class: CharClass) {
    lemma_first_index(s, class);
}

pub fn split<'a>(s: &'a str, class: &CharClass) -> (r: Vec<&'a str>)
    ensures
        r.deep_view() == pieces(s@, *class),
        r.len() > 0,
{
    let mut found: Vec<&'a str> = Vec::new();
    let mut rest: &'a str = s;
    loop
        invariant_except_break
            found.deep_view() + pieces(rest@, *class) == pieces(s@, *class),
        ensures
            found.deep_view() == pieces(s@, *class),
            found.len() > 0,
        decreases rest@.len(),
    {
        let ghost before = found.deep_view();
        let n = rest.unicode_len();
        let at = find_class(rest, class);
        if at < n {
            found.push(rest.substring_char(0, at));
            assert(found.deep_view() =~= before.push(rest@.take(at as int)));
            assert(rest@.subrange(at + 1, n as int) =~= rest@.skip(at + 1));
            assert(before + (seq![rest@.take(at as int)] + pieces(rest@.skip(at + 1), *class))
                =~= before.push(rest@.take(at as int)) + pieces(rest@.skip(at + 1), *class));
            rest = rest.substring_char(at + 1, n);
        } else {
            found.push(rest);
            assert(found.deep_view() =~= before + seq![rest@]);
            break;
        }
    }
    found
}

/// The maximal runs of characters of `s` that are not white space.
pub open spec fn words(s: Seq<char>) -> Seq<Seq<char>>
    decreases s.len(),
    via words_decreases
{
    let start = trimmed_start(s, CharClass::WhiteSpace);
    let at = first_index(start, CharClass::WhiteSpace);
    if start.len() == 0 {
        seq![]
    } else {
        seq![start.take(at)] + words(start.skip(at))
    }
}

#[via_fn]
proof fn words_decreases(s: Seq<char>) {
    lemma_trimmed_start_first(s, CharClass::WhiteSpace);
    lemma_first_index(trimmed_start(s, CharClass::WhiteSpace), CharClass::WhiteSpace);
}

pub fn split_whitespace<'a>(s: &'a str) -> (r: Vec<&'a str>)
    ensures
        r.deep_view() == words(s@),
{
    let mut found: Vec<&'a str> = Vec::new();
    let mut rest: &'a str = s;
    loop
        invariant_except_break
            found.deep_view() + words(rest@) == words(s@),
        ensures
            found.deep_view() == words(s@),
        decreases rest@.len(),
    {
        let ghost before = found.deep_view();
        proof {
            lemma_trimmed_start_first(rest@, CharClass::WhiteSpace);
        }
        let start = trim_start(rest, &CharClass::WhiteSpace);
        let n = start.unicode_len();
        if n == 0 {
            assert(before + words(rest@) =~= before);
            break;
        }
        let at = find_class(start, &CharClass::WhiteSpace);
        proof {
            lemma_first_index(start@, CharClass::WhiteSpace);
        }
        found.push(start.substring_char(0, at));
        assert(found.deep_view() =~= before.push(start@.take(at as int)));
        assert(start@.subrange(at as int, n as int) =~= start@.skip(at as int));
        assert(before + (seq![start@.take(at as int)] + words(start@.skip(at as int)))
            =~= before.push(start@.take(at as int)) + words(start@.skip(at as int)));
        rest = start.substring_char(at, n);
    }
    found
}

pub fn same_text(a: &str, b: &str) -> (r: bool)
    ensures
        r == (a@ == b@),
{
    broadcast use encode_utf8_decode_utf8;

    let left = a.as_bytes();
    let right = b.as_bytes();
    if left.len() != right.len() {
        return false;
    }
    let mut i: usize = 0;
    while i < left.len()
        invariant
            left@ == encode_utf8(a@),
            right@ == encode_utf8(b@),
            left.len() == right.len(),
            i <= left.len(),
            forall|k: int| 0 <= k < i ==> left@[k] == right@[k],
        decreases left.len() - i,
    {
        if left[i] != right[i] {
            return false;
        }
        i = i + 1;
    }
    proof {
        assert(left@ =~= right@);
        assert(decode_utf8(encode_utf8(a@)) == decode_utf8(encode_utf8(b@)));
    }
    true
}

pub fn starts_with(s: &str, start: &str) -> (r: bool)
    ensures
        r == start@.is_prefix_of(s@),
{
    let n = start.unicode_len();
    if s.unicode_len() < n {
        return false;
    }
    same_text(s.substring_char(0, n), start)
}

pub fn ends_with(s: &str, end: &str) -> (r: bool)
    ensures
        r == end@.is_suffix_of(s@),
{
    let n = s.unicode_len();
    let m = end.unicode_len();
    if n < m {
        return false;
    }
    let from: usize = n - m;
    same_text(s.substring_char(from, n), end)
}

/// The rest of `s` behind `start`, where `s` starts with it.
pub open spec fn stripped(s: Seq<char>, start: Seq<char>) -> Option<Seq<char>> {
    if start.is_prefix_of(s) {
        Some(s.skip(start.len() as int))
    } else {
        None
    }
}

pub fn strip_prefix<'a>(s: &'a str, start: &str) -> (r: Option<&'a str>)
    ensures
        r.deep_view() == stripped(s@, start@),
{
    if starts_with(s, start) {
        let n = s.unicode_len();
        let m = start.unicode_len();
        assert(s@.subrange(m as int, n as int) =~= s@.skip(m as int));
        Some(s.substring_char(m, n))
    } else {
        None
    }
}

/// The first position at which `what` stands in `s`.
pub open spec fn position_of(s: Seq<char>, what: Seq<char>) -> Option<int>
    decreases s.len(),
{
    if what.is_prefix_of(s) {
        Some(0)
    } else if s.len() == 0 {
        None
    } else {
        match position_of(s.drop_first(), what) {
            Some(i) => Some(i + 1),
            None => None,
        }
    }
}

pub proof fn lemma_position_of(s: Seq<char>, what: Seq<char>)
    ensures
        match position_of(s, what) {
            Some(i) => 0 <= i && i + what.len() <= s.len() && what.is_prefix_of(s.skip(i)) && forall|
                k: int,
            |
                0 <= k < i ==> !what.is_prefix_of(#[trigger] s.skip(k)),
            None => forall|k: int| 0 <= k <= s.len() ==> !what.is_prefix_of(#[trigger] s.skip(k)),
        },
    decreases s.len(),
{
    assert(s.skip(0) =~= s);
    if what.is_prefix_of(s) {
    } else if s.len() == 0 {
    } else {
        let rest = s.drop_first();
        lemma_position_of(rest, what);
        assert forall|k: int| 1 <= k <= s.len() implies #[trigger] s.skip(k) == rest.skip(k - 1) by {
            assert(s.skip(k) =~= rest.skip(k - 1));
        }
    }
}

/// The characters of `s`, one by one.
pub fn chars_of(s: &str) -> (r: Vec<char>)
    ensures
        r@ == s@,
{
    let mut out: Vec<char> = Vec::new();
    for c in it: s.chars()
        invariant
            it.seq() == s@,
            out@ == s@.take(it.index()),
    {
        proof {
            assert(s@.take(it.index() + 1) =~= s@.take(it.index()).push(c));
        }
        out.push(c);
    }
    assert(s@.take(s@.len() as int) =~= s@);
    out
}

pub fn find_text(s: &str, what: &str) -> (r: Option<usize>)
    ensures
        match r {
            Some(i) => position_of(s@, what@) == Some(i as int) && i + what@.len() <= s@.len(),
            None => position_of(s@, what@) is None,
        },
{
    let text = chars_of(s);
    let wanted = chars_of(what);
    let n = text.len();
    let m = wanted.len();
    proof {
        lemma_position_of(s@, what@);
    }
    let mut at: usize = 0;
    while at <= n && m <= n - at
        invariant
            text@ == s@,
            wanted@ == what@,
            n == text.len(),
            m == wanted.len(),
            at <= n + 1,
            forall|k: int| 0 <= k < at ==> !what@.is_prefix_of(#[trigger] s@.skip(k)),
            match position_of(s@, what@) {
                Some(i) => 0 <= i && i + what@.len() <= s@.len() && what@.is_prefix_of(s@.skip(i))
                    && forall|k: int| 0 <= k < i ==> !what@.is_prefix_of(#[trigger] s@.skip(k)),
                None => forall|k: int|
                    0 <= k <= s@.len() ==> !what@.is_prefix_of(#[trigger] s@.skip(k)),
            },
        decreases n + 1 - at,
    {
        let mut j: usize = 0;
        while j < m && text[at + j] == wanted[j]
            invariant
                text@ == s@,
                wanted@ == what@,
                n == text.len(),
                m == wanted.len(),
                at <= n,
                m <= n - at,
                j <= m,
                forall|k: int| 0 <= k < j ==> text@[at + k] == wanted@[k],
            decreases m - j,
        {
            j = j + 1;
        }
        if j == m {
            proof {
                assert(s@.skip(at as int).subrange(0, m as int) =~= what@);
                let found = position_of(s@, what@);
                assert(found is Some);
                if found->0 < at {
                    assert(!what@.is_prefix_of(s@.skip(found->0)));
                }
            }
            return Some(at);
        }
        proof {
            assert(s@.skip(at as int)[j as int] != what@[j as int]);
        }
        at = at + 1;
    }
    proof {
        if position_of(s@, what@) is Some {
            assert(!what@.is_prefix_of(s@.skip(position_of(s@, what@)->0)));
        }
    }
    None
}

pub fn contains_text(s: &str, what: &str) -> (r: bool)
    ensures
        r == (position_of(s@, what@) is Some),
{
    find_text(s, what).is_some()
}

pub fn contains_char(s: &str, c: char) -> (r: bool)
    ensures
        r == s@.contains(c),
{
    let n = s.unicode_len();
    let at = find_class(s, &CharClass::Only(c));
    proof {
        lemma_first_index(s@, CharClass::Only(c));
        if at < n {
            assert(s@[at as int] == c);
        } else if s@.contains(c) {
            let k = choose|k: int| 0 <= k < s@.len() && s@[k] == c;
            assert(CharClass::Only(c).has(s@[k]));
        }
    }
    at < n
}

/// `s` cut at the first place where `mark` stands, which is left out.
pub open spec fn cut_once_at(s: Seq<char>, mark: Seq<char>) -> Option<(Seq<char>, Seq<char>)> {
    match position_of(s, mark) {
        Some(at) => Some((s.take(at), s.skip(at + mark.len()))),
        None => None,
    }
}

pub fn split_once_at<'a>(s: &'a str, mark: &str) -> (r: Option<(&'a str, &'a str)>)
    ensures
        match r {
            Some(parts) => cut_once_at(s@, mark@) == Some((parts.0@, parts.1@)),
            None => cut_once_at(s@, mark@) is None,
        },
{
    match find_text(s, mark) {
        Some(at) => {
            let n = s.unicode_len();
            let m = mark.unicode_len();
            assert(s@.subrange(at + m, n as int) =~= s@.skip(at + m));
            Some((s.substring_char(0, at), s.substring_char(at + m, n)))
        },
        None => None,
    }
}

/// The document of `String::push`: the character is appended to the end of the text.
pub assume_specification[ String::push ](s: &mut String, c: char)
    ensures
        final(s)@ == old(s)@.push(c),
;

/// `s` with `by` in the place of each character of the class.
pub open spec fn replaced(s: Seq<char>, class: CharClass, by: char) -> Seq<char> {
    s.map_values(
        |c: char|
            if class.has(c) {
                by
            } else {
                c
            },
    )
}

pub fn replace(s: &str, class: &CharClass, by: char) -> (r: String)
    ensures
        r@ == replaced(s@, *class, by),
{
    let mut out = String::new();
    for c in it: s.chars()
        invariant
            it.seq() == s@,
            out@ == replaced(s@, *class, by).take(it.index()),
    {
        proof {
            assert(replaced(s@, *class, by).take(it.index() + 1) =~= replaced(
                s@,
                *class,
                by,
            ).take(it.index()).push(replaced(s@, *class, by)[it.index()]));
        }
        if class.holds(c) {
            out.push(by);
        } else {
            out.push(c);
        }
    }
    assert(replaced(s@, *class, by).take(s@.len() as int) =~= replaced(s@, *class, by));
    out
}

/// The texts one after another, with `mark` between each two of them.
pub open spec fn joined(parts: Seq<Seq<char>>, mark: Seq<char>) -> Seq<char>
    decreases parts.len(),
{
    if parts.len() == 0 {
        seq![]
    } else if parts.len() == 1 {
        parts[0]
    } else {
        joined(parts.drop_last(), mark) + mark + parts.last()
    }
}

/// Trimming leaves nothing just where there is nothing but white space.
pub proof fn lemma_trimmed_blank(s: Seq<char>)
    ensures
        trimmed(s).len() == 0 <==> forall|i: int|
            0 <= i < s.len() ==> is_white_space(#[trigger] s[i]),
{
    trimming_takes_white_space_alone(s);
    if trimmed(s).len() == 0 {
        let (a, b) = choose|a: int, b: int| #[trigger] is_inside(s, a, b, CharClass::WhiteSpace)
            && trimmed(s) == s.subrange(a, b);
        assert forall|i: int| 0 <= i < s.len() implies is_white_space(#[trigger] s[i]) by {
            assert(CharClass::WhiteSpace.has(s[i]));
        }
    } else {
        lemma_trimmed_within(s);
        lemma_trimmed_idempotent(s);
        let c = trimmed(s)[0];
        assert(s.contains(c));
        let k = choose|k: int| 0 <= k < s.len() && s[k] == c;
        assert(!is_white_space(s[k]));
    }
}

/// Whether outside of the part from `a` to `b` there is nothing but characters of the class.
pub open spec fn is_inside(s: Seq<char>, a: int, b: int, class: CharClass) -> bool {
    &&& 0 <= a <= b <= s.len()
    &&& forall|i: int| 0 <= i < a || b <= i < s.len() ==> class.has(#[trigger] s[i])
}

/// Trimming takes away white space at the ends and nothing else, and all of it.
pub proof fn trimming_takes_white_space_alone(s: Seq<char>)
    ensures
        exists|a: int, b: int| #[trigger] is_inside(s, a, b, CharClass::WhiteSpace) && trimmed(s)
            == s.subrange(a, b),
        trimmed(s).len() > 0 ==> !is_white_space(trimmed(s)[0]) && !is_white_space(
            trimmed(s).last(),
        ),
{
    let space = CharClass::WhiteSpace;
    let inner = trimmed_start(s, space);
    lemma_trimmed_idempotent(s);
    lemma_start_taken(s, space);
    lemma_end_taken(inner, space);
    let a = s.len() - inner.len();
    let b = a + trimmed(s).len();
    assert forall|i: int| 0 <= i < a || b <= i < s.len() implies space.has(#[trigger] s[i]) by {
        if i >= b {
            assert(inner[i - a] == s[i]);
        }
    }
    assert(is_inside(s, a, b, space));
    assert(trimmed(s) =~= s.subrange(a, b));
}

proof fn lemma_start_taken(s: Seq<char>, class: CharClass)
    ensures
        trimmed_start(s, class).len() <= s.len(),
        trimmed_start(s, class) == s.skip(s.len() - trimmed_start(s, class).len()),
        forall|i: int|
            0 <= i < s.len() - trimmed_start(s, class).len() ==> class.has(#[trigger] s[i]),
    decreases s.len(),
{
    lemma_trimmed_start_first(s, class);
    if s.len() > 0 && class.has(s[0]) {
        let rest = s.drop_first();
        lemma_start_taken(rest, class);
        assert forall|i: int| 0 <= i < s.len() - trimmed_start(s, class).len() implies class.has(
            #[trigger] s[i],
        ) by {
            if i > 0 {
                assert(s[i] == rest[i - 1]);
            }
        }
    }
}

proof fn lemma_end_taken(s: Seq<char>, class: CharClass)
    ensures
        trimmed_end(s, class).len() <= s.len(),
        trimmed_end(s, class) == s.take(trimmed_end(s, class).len() as int),
        forall|i: int| trimmed_end(s, class).len() <= i < s.len() ==> class.has(#[trigger] s[i]),
    decreases s.len(),
{
    lemma_trimmed_end_last(s, class);
    if s.len() > 0 && class.has(s.last()) {
        let rest = s.drop_last();
        lemma_end_taken(rest, class);
        assert forall|i: int| trimmed_end(s, class).len() <= i < s.len() implies class.has(
            #[trigger] s[i],
        ) by {
            if i < rest.len() {
                assert(s[i] == rest[i]);
            }
        }
    }
}

/// Trimming one character from the end leaves the part in front of all that are there.
pub proof fn trimming_an_end_takes_one_character(s: Seq<char>, c: char)
    ensures
        ({
            let left = trimmed_end(s, CharClass::Only(c));
            &&& left.len() <= s.len()
            &&& left == s.take(left.len() as int)
            &&& left.len() > 0 ==> left.last() != c
            &&& forall|i: int| left.len() <= i < s.len() ==> #[trigger] s[i] == c
        }),
{
    lemma_end_taken(s, CharClass::Only(c));
    lemma_trimmed_end_last(s, CharClass::Only(c));
    let left = trimmed_end(s, CharClass::Only(c));
    assert forall|i: int| left.len() <= i < s.len() implies #[trigger] s[i] == c by {
        assert(CharClass::Only(c).has(s[i]));
    }
}

/// White space is what separates words: the blank, the tabulators and the ends of lines among the
/// characters of ASCII, and no others there; beyond ASCII the spaces and separators.
pub proof fn blanks_are_white_space(c: char)
    ensures
        c <= '\u{7f}' ==> (is_white_space(c) <==> c == ' ' || c == '\t' || c == '\n' || c
            == '\u{b}' || c == '\u{c}' || c == '\r'),
        c > '\u{7f}' && is_white_space(c) ==> c == '\u{85}' || c == '\u{a0}' || c == '\u{1680}'
            || '\u{2000}' <= c <= '\u{200a}' || c == '\u{2028}' || c == '\u{2029}' || c
            == '\u{202f}' || c == '\u{205f}' || c == '\u{3000}',
        c == '\u{85}' || c == '\u{a0}' || c == '\u{1680}' || '\u{2000}' <= c <= '\u{200a}' || c
            == '\u{2028}' || c == '\u{2029}' || c == '\u{202f}' || c == '\u{205f}' || c
            == '\u{3000}' ==> is_white_space(c),
        CharClass::WhiteSpace.has(c) == is_white_space(c),
        CharClass::LineBreak.has(c) <==> c == '\r' || c == '\n',
{
}

/// Whether a text stands somewhere in another.
pub open spec fn holds_text(s: Seq<char>, what: Seq<char>) -> bool {
    exists|k: int|
        0 <= k && k + what.len() <= s.len() && #[trigger] s.subrange(k, k + what.len()) == what
}

/// A text is found in another just where it stands there, and where it does first.
pub proof fn found_is_held(s: Seq<char>, what: Seq<char>)
    ensures
        position_of(s, what) is Some <==> holds_text(s, what),
        position_of(s, what) matches Some(i) ==> 0 <= i && i + what.len() <= s.len() && s.subrange(
            i,
            i + what.len(),
        ) == what && forall|k: int|
            0 <= k < i && k + what.len() <= s.len() ==> #[trigger] s.subrange(k, k + what.len())
                != what,
{
    lemma_position_of(s, what);
    assert forall|k: int| 0 <= k && k + what.len() <= s.len() implies (#[trigger] s.subrange(
        k,
        k + what.len(),
    ) == what <==> what.is_prefix_of(s.skip(k))) by {
        assert(s.skip(k).subrange(0, what.len() as int) =~= s.subrange(k, k + what.len()));
    }
    match position_of(s, what) {
        Some(i) => {
            assert(s.subrange(i, i + what.len()) == what);
        },
        None => {
            if holds_text(s, what) {
                let k = choose|k: int|
                    0 <= k && k + what.len() <= s.len() && #[trigger] s.subrange(
                        k,
                        k + what.len(),
                    ) == what;
                assert(what.is_prefix_of(s.skip(k)));
            }
        },
    }
}

/// A text is taken from the front of another, and the rest is left.
pub proof fn a_front_is_taken_off(start: Seq<char>, rest: Seq<char>, s: Seq<char>)
    ensures
        stripped(start + rest, start) == Some(rest),
        stripped(s, start) matches Some(left) ==> s == start + left,
{
    let whole = start + rest;
    assert(whole.subrange(0, start.len() as int) =~= start);
    assert(whole.skip(start.len() as int) =~= rest);
    if start.is_prefix_of(s) {
        assert(s =~= start + s.skip(start.len() as int));
    }
}

/// A text is cut at the first mark in it, which is lost; without one it is not cut.
pub proof fn a_text_is_cut_at_its_first_mark(a: Seq<char>, b: Seq<char>, c: char)
    requires
        !a.contains(c),
    ensures
        cut_once(a + seq![c] + b, CharClass::Only(c)) == Some((a, b)),
        cut_once(a, CharClass::Only(c)) is None,
{
    let only = CharClass::Only(c);
    let whole = a + seq![c] + b;
    assert forall|i: int| 0 <= i < a.len() implies !only.has(#[trigger] a[i]) by {
        assert(a.contains(a[i]));
    }
    assert forall|i: int| 0 <= i < a.len() implies !only.has(#[trigger] whole[i]) by {
        assert(whole[i] == a[i]);
    }
    lemma_first_index_unique(whole, only, a.len() as int);
    lemma_first_index_unique(a, only, a.len() as int);
    assert(whole.take(a.len() as int) =~= a);
    assert(whole.skip(a.len() as int + 1) =~= b);
}

/// Replacing leaves each character in its place, but for those of the class.
pub proof fn replacing_keeps_places(s: Seq<char>, class: CharClass, by: char, i: int)
    requires
        0 <= i < s.len(),
    ensures
        replaced(s, class, by).len() == s.len(),
        replaced(s, class, by)[i] == (if class.has(s[i]) {
            by
        } else {
            s[i]
        }),
{
}

/// Whether the characters from `a` to `b` are a word of the text: a run that is not empty, has no
/// white space in it, and has white space or an end of the text on both sides.
pub open spec fn is_word_at(s: Seq<char>, a: int, b: int) -> bool {
    &&& 0 <= a < b <= s.len()
    &&& forall|i: int| a <= i < b ==> !is_white_space(#[trigger] s[i])
    &&& a == 0 || is_white_space(s[a - 1])
    &&& b == s.len() || is_white_space(s[b])
}


/// The words of a text are the runs without white space between white space or the ends.
pub proof fn words_are_what_blanks_leave(s: Seq<char>, word: Seq<char>)
    ensures
        words(s).contains(word) <==> exists|a: int, b: int| #[trigger]
            is_word_at(s, a, b) && s.subrange(a, b) == word,
    decreases s.len(),
{
    let space = CharClass::WhiteSpace;
    let start = trimmed_start(s, space);
    let at = first_index(start, space);
    lemma_start_taken(s, space);
    lemma_trimmed_start_first(s, space);
    lemma_first_index(start, space);
    let lead = s.len() - start.len();
    if start.len() == 0 {
        assert forall|a: int, b: int| !(#[trigger] is_word_at(s, a, b)) by {
            if is_word_at(s, a, b) {
                assert(space.has(s[a]));
            }
        }
        assert(words(s) =~= seq![]);
    } else {
        let first = start.take(at);
        let rest = start.skip(at);
        let all = words(s);
        let tail = words(rest);
        words_are_what_blanks_leave(rest, word);
        assert(all[0] == first);
        assert forall|i: int| lead <= i < lead + at implies !is_white_space(#[trigger] s[i]) by {
            assert(s[i] == start[i - lead]);
            assert(!space.has(start[i - lead]));
        }
        if at < start.len() {
            assert(s[lead + at] == start[at]);
            assert(space.has(start[at]));
        }
        if lead > 0 {
            assert(space.has(s[lead - 1]));
        }
        assert(is_word_at(s, lead, lead + at));
        assert(s.subrange(lead, lead + at) =~= first);
        if all.contains(word) {
            let i = choose|i: int| 0 <= i < all.len() && all[i] == word;
            if i > 0 {
                assert(tail[i - 1] == word);
                assert(tail.contains(word));
                assert(rest =~= s.skip(lead + at));
                let (x, y) = choose|x: int, y: int| #[trigger]
                    is_word_at(rest, x, y) && rest.subrange(x, y) == word;
                lemma_word_shifts(s, lead + at, x, y);
            } else {
                assert(word == s.subrange(lead, lead + at));
            }
        }
        if exists|a: int, b: int| #[trigger] is_word_at(s, a, b) && s.subrange(a, b) == word {
            let (a, b) = choose|a: int, b: int| #[trigger]
                is_word_at(s, a, b) && s.subrange(a, b) == word;
            assert(a >= lead) by {
                if a < lead {
                    assert(space.has(s[a]));
                }
            }
            if a == lead {
                if b < lead + at {
                    assert(!is_white_space(s[b]));
                }
                if lead + at < b {
                    assert(!is_white_space(s[lead + at]));
                }
                assert(word =~= first);
                assert(all[0] == word);
            } else {
                assert(is_white_space(s[a - 1]));
                assert(a - 1 >= lead + at) by {
                    if a - 1 < lead + at {
                        assert(!is_white_space(s[a - 1]));
                    }
                }
                let off = lead + at;
                assert forall|i: int| a - off <= i < b - off implies !is_white_space(
                    #[trigger] rest[i],
                ) by {
                    assert(rest[i] == s[i + off]);
                }
                assert(rest[a - off - 1] == s[a - 1]);
                if b < s.len() {
                    assert(rest[b - off] == s[b]);
                }
                assert(is_word_at(rest, a - off, b - off));
                assert(rest.subrange(a - off, b - off) =~= word);
                assert(tail.contains(word));
                let k = choose|k: int| 0 <= k < tail.len() && tail[k] == word;
                assert(all[k + 1] == word);
            }
        }
    }
}

proof fn lemma_word_shifts(s: Seq<char>, off: int, x: int, y: int)
    requires
        0 <= off < s.len(),
        is_white_space(s[off]),
        is_word_at(s.skip(off), x, y),
    ensures
        is_word_at(s, off + x, off + y),
        s.subrange(off + x, off + y) == s.skip(off).subrange(x, y),
{
    let rest = s.skip(off);
    assert(rest[0] == s[off]);
    assert(x > 0);
    assert(s[off + x - 1] == rest[x - 1]);
    assert forall|i: int| off + x <= i < off + y implies !is_white_space(#[trigger] s[i]) by {
        assert(s[i] == rest[i - off]);
    }
    if off + y < s.len() {
        assert(s[off + y] == rest[y]);
    }
    assert(s.subrange(off + x, off + y) =~= rest.subrange(x, y));
}

/// The pieces of a text are what stands between the marks.
pub proof fn pieces_end_at_marks(a: Seq<char>, b: Seq<char>, c: char)
    requires
        !a.contains(c),
    ensures
        pieces(a, CharClass::Only(c)) == seq![a],
        pieces(a + seq![c] + b, CharClass::Only(c)) == seq![a] + pieces(b, CharClass::Only(c)),
{
    a_text_is_cut_at_its_first_mark(a, b, c);
    let only = CharClass::Only(c);
    lemma_first_index(a, only);
    lemma_first_index(a + seq![c] + b, only);
}

proof fn lemma_joined_first(parts: Seq<Seq<char>>, mark: Seq<char>)
    requires
        parts.len() >= 2,
    ensures
        joined(parts, mark) == parts[0] + mark + joined(parts.drop_first(), mark),
    decreases parts.len(),
{
    let front = parts.drop_last();
    let rest = parts.drop_first();
    if parts.len() == 2 {
        assert(front[0] == parts[0]);
        assert(rest[0] == parts[1]);
        assert(joined(front, mark) == parts[0]);
        assert(joined(rest, mark) == parts[1]);
    } else {
        lemma_joined_first(front, mark);
        assert(front.drop_first() =~= rest.drop_last());
        assert(front[0] == parts[0]);
        assert(rest.last() == parts.last());
        assert(joined(parts, mark) =~= parts[0] + mark + joined(rest, mark));
    }
}

/// Texts without the mark that are put together with it come apart again.
pub proof fn joined_texts_come_apart(parts: Seq<Seq<char>>, c: char)
    requires
        parts.len() > 0,
        forall|i: int| 0 <= i < parts.len() ==> !(#[trigger] parts[i]).contains(c),
    ensures
        pieces(joined(parts, seq![c]), CharClass::Only(c)) == parts,
    decreases parts.len(),
{
    assert(!parts[0].contains(c));
    if parts.len() == 1 {
        pieces_end_at_marks(parts[0], seq![], c);
        assert(parts =~= seq![parts[0]]);
    } else {
        let rest = parts.drop_first();
        assert forall|i: int| 0 <= i < rest.len() implies !(#[trigger] rest[i]).contains(c) by {
            assert(rest[i] == parts[i + 1]);
        }
        joined_texts_come_apart(rest, c);
        lemma_joined_first(parts, seq![c]);
        pieces_end_at_marks(parts[0], joined(rest, seq![c]), c);
        assert(parts =~= seq![parts[0]] + rest);
    }
}

/// Texts are put together one after another, with the mark between each two.
pub proof fn texts_are_joined_in_order(parts: Seq<Seq<char>>, last: Seq<char>, mark: Seq<char>)
    ensures
        joined(seq![], mark).len() == 0,
        joined(seq![last], mark) == last,
        parts.len() > 0 ==> joined(parts.push(last), mark) == joined(parts, mark) + mark + last,
{
    assert(parts.push(last).drop_last() =~= parts);
}

/// A text is cut where a mark of several characters stands first in it.
pub proof fn a_text_is_cut_at_a_longer_mark(s: Seq<char>, mark: Seq<char>)
    ensures
        cut_once_at(s, mark) is Some <==> holds_text(s, mark),
        cut_once_at(s, mark) matches Some((a, b)) ==> s == a + mark + b && forall|k: int|
            0 <= k < a.len() && k + mark.len() <= s.len() ==> #[trigger] s.subrange(
                k,
                k + mark.len(),
            ) != mark,
{
    found_is_held(s, mark);
    match position_of(s, mark) {
        Some(i) => {
            assert(s =~= s.take(i) + mark + s.skip(i + mark.len())) by {
                assert(s.subrange(i, i + mark.len()) == mark);
                assert forall|j: int| 0 <= j < mark.len() implies mark[j] == s[i + j] by {
                    assert(s.subrange(i, i + mark.len())[j] == s[i + j]);
                }
            }
        },
        None => {},
    }
}

/// White space around a text changes nothing of what trimming leaves of it.
pub proof fn blanks_around_are_lost(before: Seq<char>, s: Seq<char>, after: Seq<char>)
    requires
        forall|i: int| 0 <= i < before.len() ==> is_white_space(#[trigger] before[i]),
        forall|i: int| 0 <= i < after.len() ==> is_white_space(#[trigger] after[i]),
    ensures
        trimmed(before + s + after) == trimmed(s),
{
    let space = CharClass::WhiteSpace;
    let whole = before + s + after;
    lemma_trimmed_blank(s);
    lemma_trimmed_blank(whole);
    if trimmed(s).len() == 0 {
        assert forall|i: int| 0 <= i < whole.len() implies is_white_space(#[trigger] whole[i]) by {
            if i < before.len() {
                assert(whole[i] == before[i]);
            } else if i < before.len() + s.len() {
                assert(whole[i] == s[i - before.len()]);
            } else {
                assert(whole[i] == after[i - before.len() - s.len()]);
            }
        }
        assert(trimmed(whole) =~= trimmed(s));
    } else {
        trimming_takes_white_space_alone(s);
        let (a, b) = choose|a: int, b: int| #[trigger] is_inside(s, a, b, space) && trimmed(s)
            == s.subrange(a, b);
        let n = before.len() as int;
        assert forall|i: int| 0 <= i < n + a implies space.has(#[trigger] whole[i]) by {
            if i < n {
                assert(whole[i] == before[i]);
            } else {
                assert(whole[i] == s[i - n]);
            }
        }
        assert(whole[n + a] == trimmed(s)[0]);
        lemma_trimmed_start(whole, space, n + a);
        let rest = whole.skip(n + a);
        let m = b - a;
        assert forall|i: int| m <= i < rest.len() implies space.has(#[trigger] rest[i]) by {
            if i < s.len() - a {
                assert(rest[i] == s[i + a]);
            } else {
                assert(rest[i] == after[i + a - s.len()]);
            }
        }
        assert(rest[m - 1] == trimmed(s).last());
        lemma_trimmed_end(rest, space, m);
        assert(rest.take(m) =~= s.subrange(a, b));
    }
}

} // verus!
