//! Lines of IRC with IRCv3 message tags.
use crate::letters;
use crate::text;
use crate::text::CharClass;
use crate::text_map::TextMap;
use vstd::prelude::*;
use vstd::string::*;

verus! {

/// One line of IRC, taken apart.
#[derive(Debug)]
pub struct IrcLine {
    pub tags: TextMap<String>,
    pub prefix: Option<String>,
    pub command: String,
    pub params: Vec<String>,
    pub trailing: Option<String>,
}

pub struct IrcLineView {
    pub tags: Map<Seq<char>, Seq<char>>,
    pub prefix: Option<Seq<char>>,
    pub command: Seq<char>,
    pub params: Seq<Seq<char>>,
    pub trailing: Option<Seq<char>>,
}

impl View for IrcLine {
    type V = IrcLineView;

    open spec fn view(&self) -> IrcLineView {
        IrcLineView {
            tags: self.tags@,
            prefix: self.prefix.deep_view(),
            command: self.command@,
            params: self.params.deep_view(),
            trailing: self.trailing.deep_view(),
        }
    }
}

/// The character that a backslash and `c` stand for in the value of a tag.
pub open spec fn escaped_char(c: char) -> char {
    if c == ':' {
        ';'
    } else if c == 's' {
        ' '
    } else if c == 'r' {
        '\r'
    } else if c == 'n' {
        '\n'
    } else {
        c
    }
}

/// The value of a tag, read from its escaped form.
pub open spec fn unescaped(s: Seq<char>) -> Seq<char>
    decreases s.len(),
{
    if s.len() == 0 {
        seq![]
    } else if s[0] != '\\' {
        seq![s[0]] + unescaped(s.drop_first())
    } else if s.len() == 1 {
        seq!['\\']
    } else {
        seq![escaped_char(s[1])] + unescaped(s.skip(2))
    }
}

/// A value without a backslash is its own escaped form.
pub proof fn lemma_unescaped_plain(s: Seq<char>)
    requires
        !s.contains('\\'),
    ensures
        unescaped(s) == s,
    decreases s.len(),
{
    if s.len() > 0 {
        assert(s[0] != '\\');
        let rest = s.drop_first();
        assert(!rest.contains('\\')) by {
            if rest.contains('\\') {
                let i = choose|i: int| 0 <= i < rest.len() && rest[i] == '\\';
                assert(s[i + 1] == '\\');
            }
        }
        lemma_unescaped_plain(rest);
        assert(seq![s[0]] + rest =~= s);
    } else {
        assert(unescaped(s) =~= s);
    }
}

pub fn unescape_tag(value: &str) -> (r: String)
    ensures
        r@ == unescaped(value@),
{
    let chars = text::chars_of(value);
    let mut out = String::new();
    let mut i: usize = 0;
    assert(value@.skip(0) =~= value@);
    while i < chars.len()
        invariant
            chars@ == value@,
            i <= chars.len(),
            out@ + unescaped(value@.skip(i as int)) == unescaped(value@),
        decreases chars.len() - i,
    {
        let ghost rest = value@.skip(i as int);
        let ghost done = out@;
        let c = chars[i];
        if c != '\\' {
            out.push(c);
            i = i + 1;
            assert(value@.skip(i as int) =~= rest.drop_first());
            assert(done + (seq![c] + unescaped(rest.drop_first())) =~= out@ + unescaped(
                rest.drop_first(),
            ));
        } else if i + 1 == chars.len() {
            out.push('\\');
            i = i + 1;
            assert(value@.skip(i as int) =~= seq![]);
            assert(done + seq!['\\'] =~= out@ + unescaped(seq![]));
        } else {
            let next = chars[i + 1];
            let meant = if next == ':' {
                ';'
            } else if next == 's' {
                ' '
            } else if next == 'r' {
                '\r'
            } else if next == 'n' {
                '\n'
            } else {
                next
            };
            out.push(meant);
            i = i + 2;
            assert(value@.skip(i as int) =~= rest.skip(2));
            assert(done + (seq![meant] + unescaped(rest.skip(2))) =~= out@ + unescaped(
                rest.skip(2),
            ));
        }
    }
    assert(value@.skip(i as int) =~= seq![]);
    assert(out@ + unescaped(seq![]) =~= out@);
    out
}

/// The name and the escaped value of one tag; a tag without `=` has an empty value.
pub open spec fn tag_item(raw: Seq<char>) -> (Seq<char>, Seq<char>) {
    match text::cut_once(raw, CharClass::Only('=')) {
        Some(parts) => parts,
        None => (raw, seq![]),
    }
}

/// The tags of the items; of two items with one name the later counts.
pub open spec fn tag_map(items: Seq<Seq<char>>) -> Map<Seq<char>, Seq<char>>
    decreases items.len(),
{
    if items.len() == 0 {
        Map::empty()
    } else {
        let (name, value) = tag_item(items.last());
        tag_map(items.drop_last()).insert(name, unescaped(value))
    }
}

/// The tags at the start of a line, and what follows them.
pub open spec fn read_tags(line: Seq<char>) -> Option<(Map<Seq<char>, Seq<char>>, Seq<char>)> {
    if line.len() > 0 && line[0] == '@' {
        match text::cut_once(line.drop_first(), CharClass::Only(' ')) {
            Some((raw, next)) => Some(
                (
                    tag_map(text::pieces(raw, CharClass::Only(';'))),
                    text::trimmed_start(next, CharClass::WhiteSpace),
                ),
            ),
            None => None,
        }
    } else {
        Some((Map::empty(), line))
    }
}

/// The prefix at the start of a line, and what follows it.
pub open spec fn read_prefix(line: Seq<char>) -> Option<(Option<Seq<char>>, Seq<char>)> {
    if line.len() > 0 && line[0] == ':' {
        match text::cut_once(line.drop_first(), CharClass::Only(' ')) {
            Some((raw, next)) => Some(
                (Some(raw), text::trimmed_start(next, CharClass::WhiteSpace)),
            ),
            None => None,
        }
    } else {
        Some((None, line))
    }
}

/// The command, the parameters and the trailing text of a line without tags and prefix.
pub open spec fn read_body(line: Seq<char>) -> Option<
    (Seq<char>, Seq<Seq<char>>, Option<Seq<char>>),
> {
    let (head, trailing) = match text::cut_once_at(line, " :"@) {
        Some((head, trailing)) => (head, Some(trailing)),
        None => (line, None),
    };
    let found = text::words(head);
    if found.len() == 0 {
        None
    } else {
        Some((letters::uppercase(found[0]), found.drop_first(), trailing))
    }
}

/// A line taken apart; `None` where tags or a prefix are not followed by a space, or no command
/// is there.
pub open spec fn parsed(input: Seq<char>) -> Option<IrcLineView> {
    match read_tags(text::trimmed_end(input, CharClass::WhiteSpace)) {
        None => None,
        Some((tags, after_tags)) => match read_prefix(after_tags) {
            None => None,
            Some((prefix, body)) => match read_body(body) {
                None => None,
                Some((command, params, trailing)) => Some(
                    IrcLineView { tags, prefix, command, params, trailing },
                ),
            },
        },
    }
}

fn parse_tags(raw: &str) -> (r: TextMap<String>)
    ensures
        r@ == tag_map(text::pieces(raw@, CharClass::Only(';'))),
{
    let items = text::split(raw, &CharClass::Only(';'));
    let ghost all = items.deep_view();
    let mut tags: TextMap<String> = TextMap::new();
    let mut i: usize = 0;
    while i < items.len()
        invariant
            all == items.deep_view(),
            i <= items.len(),
            tags@ == tag_map(all.take(i as int)),
        decreases items.len() - i,
    {
        let item = items[i];
        let (name, value) = match text::split_once(item, &CharClass::Only('=')) {
            Some(parts) => parts,
            None => (item, item.substring_char(0, 0)),
        };
        proof {
            assert(item@.subrange(0, 0) =~= seq![]);
            assert(all.take(i + 1).last() == item@);
            assert(all.take(i + 1).drop_last() =~= all.take(i as int));
        }
        tags.insert(name.to_string(), unescape_tag(value));
        i = i + 1;
    }
    assert(all.take(i as int) =~= all);
    tags
}

impl IrcLine {
    pub fn parse(input: &str) -> (r: Option<IrcLine>)
        ensures
            match r {
                Some(line) => parsed(input@) == Some(line@),
                None => parsed(input@) is None,
            },
    {
        let line = text::trim_end(input, &CharClass::WhiteSpace);
        let n = line.unicode_len();
        let mut rest: &str = line;
        let mut tags: TextMap<String> = TextMap::new();
        if n > 0 && line.get_char(0) == '@' {
            assert(line@.subrange(1, n as int) =~= line@.drop_first());
            match text::split_once(line.substring_char(1, n), &CharClass::Only(' ')) {
                Some((raw, next)) => {
                    tags = parse_tags(raw);
                    rest = text::trim_start(next, &CharClass::WhiteSpace);
                },
                None => {
                    return None;
                },
            }
        }
        let m = rest.unicode_len();
        let mut body: &str = rest;
        let mut prefix: Option<String> = None;
        if m > 0 && rest.get_char(0) == ':' {
            assert(rest@.subrange(1, m as int) =~= rest@.drop_first());
            match text::split_once(rest.substring_char(1, m), &CharClass::Only(' ')) {
                Some((raw, next)) => {
                    prefix = Some(raw.to_string());
                    body = text::trim_start(next, &CharClass::WhiteSpace);
                },
                None => {
                    return None;
                },
            }
        }
        let mut head: &str = body;
        let mut trailing: Option<String> = None;
        match text::split_once_at(body, " :") {
            Some((front, back)) => {
                head = front;
                trailing = Some(back.to_string());
            },
            None => {},
        }
        let found = text::split_whitespace(head);
        let ghost all = found.deep_view();
        if found.len() == 0 {
            return None;
        }
        let command = letters::to_uppercase(found[0]);
        let mut params: Vec<String> = Vec::new();
        let mut i: usize = 1;
        while i < found.len()
            invariant
                all == found.deep_view(),
                1 <= i <= found.len(),
                params.deep_view() == all.subrange(1, i as int),
            decreases found.len() - i,
        {
            let ghost before = params.deep_view();
            params.push(found[i].to_string());
            assert(params.deep_view() =~= before.push(all[i as int]));
            assert(all.subrange(1, i + 1) =~= all.subrange(1, i as int).push(all[i as int]));
            i = i + 1;
        }
        assert(all.subrange(1, i as int) =~= all.drop_first());
        Some(IrcLine { tags, prefix, command, params, trailing })
    }
}

/// The escaped form of a value of a tag.
pub open spec fn escaped(value: Seq<char>) -> Seq<char>
    decreases value.len(),
{
    if value.len() == 0 {
        seq![]
    } else {
        let c = value[0];
        let front = if c == ';' {
            seq!['\\', ':']
        } else if c == ' ' {
            seq!['\\', 's']
        } else if c == '\\' {
            seq!['\\', '\\']
        } else if c == '\r' {
            seq!['\\', 'r']
        } else if c == '\n' {
            seq!['\\', 'n']
        } else {
            seq![c]
        };
        front + escaped(value.drop_first())
    }
}

/// A value of a tag that was escaped reads back as it was.
pub proof fn escaped_values_read_back(value: Seq<char>)
    ensures
        unescaped(escaped(value)) == value,
    decreases value.len(),
{
    if value.len() > 0 {
        let rest = value.drop_first();
        escaped_values_read_back(rest);
        let whole = escaped(value);
        let tail = escaped(rest);
        if whole[0] == '\\' {
            assert(whole.skip(2) =~= tail);
        } else {
            assert(whole.drop_first() =~= tail);
        }
        assert(value =~= seq![value[0]] + rest);
        assert(unescaped(whole) =~= value);
    } else {
        assert(unescaped(escaped(value)) =~= value);
    }
}

/// A tag tells the value behind its first `=`, or an empty one, and of two tags with one name the
/// later counts.
pub proof fn a_tag_tells_its_value(items: Seq<Seq<char>>, name: Seq<char>, value: Seq<char>)
    requires
        !name.contains('='),
    ensures
        tag_map(seq![]) == Map::<Seq<char>, Seq<char>>::empty(),
        tag_map(items.push(name + seq!['='] + escaped(value))) == tag_map(items).insert(name, value),
        tag_map(items.push(name)) == tag_map(items).insert(name, seq![]),
{
    let told = name + seq!['='] + escaped(value);
    text::a_text_is_cut_at_its_first_mark(name, escaped(value), '=');
    escaped_values_read_back(value);
    assert(items.push(told).drop_last() =~= items);
    assert(items.push(name).drop_last() =~= items);
    assert(unescaped(seq![]) =~= seq![]);
}

/// A line is taken apart piece by piece: in front of it may stand tags, separated by semicolons, and
/// a prefix, each up to a space; and white space at its end is lost.
pub proof fn a_line_is_taken_apart(raw: Seq<char>, line: Seq<char>)
    requires
        !raw.contains(' '),
        line.len() > 0,
        line[0] != '@',
        !text::is_white_space(line[0]),
        !text::is_white_space(line.last()),
    ensures
        parsed(seq!['@'] + raw + seq![' '] + line) == (match parsed(line) {
            Some(read) => Some(
                IrcLineView { tags: tag_map(text::pieces(raw, CharClass::Only(';'))), ..read },
            ),
            None => None,
        }),
        line[0] != ':' ==> parsed(seq![':'] + raw + seq![' '] + line) == (match parsed(line) {
            Some(read) => Some(IrcLineView { prefix: Some(raw), ..read }),
            None => None,
        }),
        parsed(line) matches Some(read) ==> read.tags == Map::<Seq<char>, Seq<char>>::empty(),
        parsed(line + seq!['\r', '\n']) == parsed(line),
{
    let space = CharClass::WhiteSpace;
    let n = line.len() as int;
    text::lemma_trimmed_end(line, space, n);
    assert(line.take(n) =~= line);
    let ended = line + seq!['\r', '\n'];
    text::lemma_trimmed_end(ended, space, n);
    assert(ended.take(n) =~= line);
    text::lemma_trimmed_start(line, space, 0);
    assert(line.skip(0) =~= line);
    text::a_text_is_cut_at_its_first_mark(raw, line, ' ');
    let tagged = seq!['@'] + raw + seq![' '] + line;
    assert(tagged.last() == line.last());
    text::lemma_trimmed_end(tagged, space, tagged.len() as int);
    assert(tagged.take(tagged.len() as int) =~= tagged);
    assert(tagged.drop_first() =~= raw + seq![' '] + line);
    let named = seq![':'] + raw + seq![' '] + line;
    assert(named.last() == line.last());
    text::lemma_trimmed_end(named, space, named.len() as int);
    assert(named.take(named.len() as int) =~= named);
    assert(named.drop_first() =~= raw + seq![' '] + line);
}

/// What is left of a line is a command in upper case and its parameters, and behind the first ` :`
/// the trailing text as it stands.
pub proof fn a_command_is_read(head: Seq<char>, trailing: Seq<char>)
    requires
        text::words(head).len() > 0,
        !text::holds_text(head, seq![' ', ':']),
    ensures
        ({
            let words = text::words(head);
            &&& read_body(head) == Some((letters::uppercase(words[0]), words.drop_first(), None::<Seq<char>>))
            &&& read_body(head + seq![' ', ':'] + trailing) == Some(
                (letters::uppercase(words[0]), words.drop_first(), Some(trailing)),
            )
        }),
{
    reveal_strlit(" :");
    let mark = " :"@;
    assert(mark =~= seq![' ', ':']);
    let line = head + mark + trailing;
    let at = head.len() as int;
    text::found_is_held(head, mark);
    text::found_is_held(line, mark);
    assert(line.subrange(at, at + 2) =~= mark);
    assert(text::holds_text(line, mark));
    let i = text::position_of(line, mark)->0;
    assert(i <= at) by {
        if i > at {
            assert(line.subrange(at, at + mark.len()) == mark);
        }
    }
    if i < at {
        assert(line.subrange(i, i + 2)[0] == mark[0]);
        assert(line.subrange(i, i + 2)[1] == mark[1]);
        if i + 2 <= at {
            assert(head.subrange(i, i + 2) =~= mark);
            assert(head.subrange(i, i + mark.len()) == mark);
            assert(text::holds_text(head, mark));
        } else {
            assert(line[i + 1] == mark[0]);
        }
    }
    assert(line.take(at) =~= head);
    assert(line.skip(at + 2) =~= trailing);
}

} // verus!
