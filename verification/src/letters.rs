//! Letters and digits: their classes, their case, and how numbers are written with them.
use vstd::prelude::*;
use vstd::string::*;
use vstd::utf8::*;

verus! {

pub open spec fn is_ascii_upper(c: char) -> bool {
    'A' <= c <= 'Z'
}

pub open spec fn is_ascii_lower(c: char) -> bool {
    'a' <= c <= 'z'
}

pub open spec fn is_ascii_digit(c: char) -> bool {
    '0' <= c <= '9'
}

pub open spec fn is_ascii_alphanumeric(c: char) -> bool {
    is_ascii_upper(c) || is_ascii_lower(c) || is_ascii_digit(c)
}

pub open spec fn is_ascii_hexdigit(c: char) -> bool {
    is_ascii_digit(c) || 'a' <= c <= 'f' || 'A' <= c <= 'F'
}

/// The characters of the Unicode general category of control codes.
pub open spec fn is_control(c: char) -> bool {
    c as u32 <= 0x1f || 0x7f <= c as u32 <= 0x9f
}

pub fn ascii_upper(c: char) -> (r: bool)
    ensures
        r == is_ascii_upper(c),
{
    'A' <= c && c <= 'Z'
}

pub fn ascii_lower(c: char) -> (r: bool)
    ensures
        r == is_ascii_lower(c),
{
    'a' <= c && c <= 'z'
}

pub fn ascii_digit(c: char) -> (r: bool)
    ensures
        r == is_ascii_digit(c),
{
    '0' <= c && c <= '9'
}

pub fn ascii_alphanumeric(c: char) -> (r: bool)
    ensures
        r == is_ascii_alphanumeric(c),
{
    ascii_upper(c) || ascii_lower(c) || ascii_digit(c)
}

pub fn ascii_hexdigit(c: char) -> (r: bool)
    ensures
        r == is_ascii_hexdigit(c),
{
    ascii_digit(c) || ('a' <= c && c <= 'f') || ('A' <= c && c <= 'F')
}

pub fn control(c: char) -> (r: bool)
    ensures
        r == is_control(c),
{
    let code = c as u32;
    code <= 0x1f || (0x7f <= code && code <= 0x9f)
}

/// The ASCII letter in lower case; any other character as it is.
pub open spec fn lower_char(c: char) -> char {
    if is_ascii_upper(c) {
        (c as u8 + 32) as char
    } else {
        c
    }
}

/// The ASCII letter in upper case; any other character as it is.
pub open spec fn upper_char(c: char) -> char {
    if is_ascii_lower(c) {
        (c as u8 - 32) as char
    } else {
        c
    }
}

pub fn to_lower_char(c: char) -> (r: char)
    ensures
        r == lower_char(c),
{
    if ascii_upper(c) {
        (c as u8 + 32) as char
    } else {
        c
    }
}

pub fn to_upper_char(c: char) -> (r: char)
    ensures
        r == upper_char(c),
{
    if ascii_lower(c) {
        (c as u8 - 32) as char
    } else {
        c
    }
}

/// `s` with its ASCII letters in lower case.
pub open spec fn ascii_lowercase(s: Seq<char>) -> Seq<char> {
    s.map_values(|c: char| lower_char(c))
}

/// `s` with its ASCII letters in upper case.
pub open spec fn ascii_uppercase(s: Seq<char>) -> Seq<char> {
    s.map_values(|c: char| upper_char(c))
}

pub fn to_ascii_lowercase(s: &str) -> (r: String)
    ensures
        r@ == ascii_lowercase(s@),
{
    let mut out = String::new();
    for c in it: s.chars()
        invariant
            it.seq() == s@,
            out@ == ascii_lowercase(s@).take(it.index()),
    {
        proof {
            assert(ascii_lowercase(s@).take(it.index() + 1) =~= ascii_lowercase(s@).take(
                it.index(),
            ).push(lower_char(c)));
        }
        out.push(to_lower_char(c));
    }
    assert(ascii_lowercase(s@).take(s@.len() as int) =~= ascii_lowercase(s@));
    out
}

pub fn to_ascii_uppercase(s: &str) -> (r: String)
    ensures
        r@ == ascii_uppercase(s@),
{
    let mut out = String::new();
    for c in it: s.chars()
        invariant
            it.seq() == s@,
            out@ == ascii_uppercase(s@).take(it.index()),
    {
        proof {
            assert(ascii_uppercase(s@).take(it.index() + 1) =~= ascii_uppercase(s@).take(
                it.index(),
            ).push(upper_char(c)));
        }
        out.push(to_upper_char(c));
    }
    assert(ascii_uppercase(s@).take(s@.len() as int) =~= ascii_uppercase(s@));
    out
}

/// Whether the texts are the same but for the case of ASCII letters.
pub fn eq_ignore_ascii_case(a: &str, b: &str) -> (r: bool)
    ensures
        r == (ascii_lowercase(a@) == ascii_lowercase(b@)),
{
    let left = to_ascii_lowercase(a);
    let right = to_ascii_lowercase(b);
    left == right
}

/// What `str::to_lowercase` makes of a text that is not all ASCII.
pub uninterp spec fn unicode_lowercase(s: Seq<char>) -> Seq<char>;

/// What `str::to_uppercase` makes of a text that is not all ASCII.
pub uninterp spec fn unicode_uppercase(s: Seq<char>) -> Seq<char>;

/// `s` in lower case.
pub open spec fn lowercase(s: Seq<char>) -> Seq<char> {
    if is_ascii_chars(s) {
        ascii_lowercase(s)
    } else {
        unicode_lowercase(s)
    }
}

/// `s` in upper case.
pub open spec fn uppercase(s: Seq<char>) -> Seq<char> {
    if is_ascii_chars(s) {
        ascii_uppercase(s)
    } else {
        unicode_uppercase(s)
    }
}

/// `str::to_lowercase`. Its result is named: it is fixed by the text alone, through the tables of
/// Unicode. It is text in lower case, so no ASCII letter of it is in upper case.
#[verifier::external_body]
fn std_lowercase(s: &str) -> (r: String)
    ensures
        r@ == unicode_lowercase(s@),
        forall|i: int| 0 <= i < r@.len() ==> !is_ascii_upper(#[trigger] r@[i]),
{
    s.to_lowercase()
}

/// `str::to_uppercase`. Its result is named: it is fixed by the text alone, through the tables of
/// Unicode.
#[verifier::external_body]
fn std_uppercase(s: &str) -> (r: String)
    ensures
        r@ == unicode_uppercase(s@),
{
    s.to_uppercase()
}

pub fn to_lowercase(s: &str) -> (r: String)
    ensures
        r@ == lowercase(s@),
        forall|i: int| 0 <= i < r@.len() ==> !is_ascii_upper(#[trigger] r@[i]),
{
    if s.is_ascii() {
        to_ascii_lowercase(s)
    } else {
        std_lowercase(s)
    }
}

pub fn to_uppercase(s: &str) -> (r: String)
    ensures
        r@ == uppercase(s@),
{
    if s.is_ascii() {
        to_ascii_uppercase(s)
    } else {
        std_uppercase(s)
    }
}

/// ASCII text without an upper-case letter is its own lower case.
pub proof fn lemma_lowercase_fixed(s: Seq<char>)
    requires
        is_ascii_chars(s),
        forall|i: int| 0 <= i < s.len() ==> !is_ascii_upper(#[trigger] s[i]),
    ensures
        lowercase(s) == s,
        ascii_lowercase(s) == s,
{
    assert(ascii_lowercase(s) =~= s);
}

/// The digit of the value `d`, in base ten or sixteen.
pub open spec fn digit(d: int) -> char {
    if d < 10 {
        (48 + d) as char
    } else {
        (87 + d) as char
    }
}

pub fn digit_char(d: u8) -> (r: char)
    requires
        d < 16,
    ensures
        r == digit(d as int),
{
    if d < 10 {
        (48 + d) as char
    } else {
        (87 + d) as char
    }
}

/// `n` in base ten.
pub open spec fn decimal(n: nat) -> Seq<char>
    decreases n,
{
    if n < 10 {
        seq![digit(n as int)]
    } else {
        decimal(n / 10).push(digit((n % 10) as int))
    }
}

pub fn to_decimal(n: u64) -> (r: String)
    ensures
        r@ == decimal(n as nat),
    decreases n,
{
    let mut out = if n < 10 {
        String::new()
    } else {
        to_decimal(n / 10)
    };
    out.push(digit_char((n % 10) as u8));
    assert(n < 10 ==> out@ =~= decimal(n as nat));
    out
}

/// `n` in base sixteen, as sixteen digits.
pub open spec fn hex16(n: u64) -> Seq<char> {
    Seq::new(16, |i: int| digit(((n >> ((60 - 4 * i) as u64)) % 16) as int))
}

pub fn to_hex16(n: u64) -> (r: String)
    ensures
        r@ == hex16(n),
{
    let mut out = String::new();
    let mut i: u64 = 0;
    while i < 16
        invariant
            i <= 16,
            out@ == hex16(n).take(i as int),
        decreases 16 - i,
    {
        out.push(digit_char(((n >> (60 - 4 * i)) % 16) as u8));
        assert(hex16(n).take(i + 1) =~= hex16(n).take(i as int).push(hex16(n)[i as int]));
        i = i + 1;
    }
    assert(hex16(n).take(16) =~= hex16(n));
    out
}

/// Different numbers are written differently.
pub proof fn lemma_decimal_injective(a: nat, b: nat)
    requires
        decimal(a) == decimal(b),
    ensures
        a == b,
    decreases a,
{
    let s = decimal(a);
    assert(s.last() == digit((a % 10) as int));
    assert(s.last() == digit((b % 10) as int));
    assert(a % 10 == b % 10);
    if a >= 10 && b >= 10 {
        assert(s.drop_last() =~= decimal(a / 10));
        assert(s.drop_last() =~= decimal(b / 10));
        lemma_decimal_injective(a / 10, b / 10);
    } else if a >= 10 {
        lemma_decimal_nonempty(a / 10);
        assert(s.len() == decimal(a / 10).len() + 1);
        assert(decimal(b).len() == 1);
    } else if b >= 10 {
        lemma_decimal_nonempty(b / 10);
        assert(s.len() == decimal(b / 10).len() + 1);
        assert(decimal(a).len() == 1);
    }
}

proof fn lemma_decimal_nonempty(n: nat)
    ensures
        decimal(n).len() > 0,
    decreases n,
{
    if n >= 10 {
        lemma_decimal_nonempty(n / 10);
    }
}

/// A number is written with digits, without a zero in front of others.
pub proof fn lemma_decimal_digits(n: nat)
    ensures
        decimal(n).len() > 0,
        forall|i: int| 0 <= i < decimal(n).len() ==> is_ascii_digit(#[trigger] decimal(n)[i]),
        decimal(n)[0] == '0' ==> n == 0,
    decreases n,
{
    if n >= 10 {
        lemma_decimal_digits(n / 10);
        let before = decimal(n / 10);
        assert forall|i: int| 0 <= i < decimal(n).len() implies is_ascii_digit(
            #[trigger] decimal(n)[i],
        ) by {
            if i < before.len() {
                assert(decimal(n)[i] == before[i]);
            }
        }
        assert(decimal(n)[0] == before[0]);
    }
}

/// The number that decimal digits write.
pub open spec fn value_of(digits: Seq<char>) -> nat
    decreases digits.len(),
{
    if digits.len() == 0 {
        0
    } else {
        value_of(digits.drop_last()) * 10 + (digits.last() as nat - 48) as nat
    }
}

/// What is written of a number reads back as the number.
pub proof fn numbers_read_back(n: nat)
    ensures
        value_of(decimal(n)) == n,
    decreases n,
{
    let digits = decimal(n);
    if n < 10 {
        assert(digits.drop_last() =~= seq![]);
        assert(value_of(digits.drop_last()) == 0);
    } else {
        numbers_read_back(n / 10);
        assert(digits.drop_last() =~= decimal(n / 10));
    }
}

/// Sixteen hexadecimal digits stand for a number, each for four of its bits, and so tell numbers
/// apart.
pub proof fn hex_tells_numbers_apart(a: u64, b: u64)
    ensures
        hex16(a).len() == 16,
        forall|i: int|
            0 <= i < 16 ==> ('0' <= #[trigger] hex16(a)[i] <= '9' || 'a' <= hex16(a)[i] <= 'f'),
        forall|i: int|
            0 <= i < 16 ==> #[trigger] hex16(a)[i] == digit(
                ((a >> ((4 * (15 - i)) as u64)) & 0xf) as int,
            ),
        hex16(a) == hex16(b) ==> a == b,
{
    assert forall|i: int| 0 <= i < 16 implies #[trigger] hex16(a)[i] == digit(
        ((a >> ((4 * (15 - i)) as u64)) & 0xf) as int,
    ) && ((a >> ((60 - 4 * i) as u64)) % 16) < 16 by {
        let shift = (60 - 4 * i) as u64;
        assert((a >> shift) % 16 == (a >> shift) & 0xf) by (bit_vector);
        assert((4 * (15 - i)) as u64 == shift);
    }
    if hex16(a) == hex16(b) {
        assert forall|i: int| 0 <= i < 16 implies #[trigger] nibble(a, i) == nibble(b, i) by {
            assert(hex16(a)[i] == hex16(b)[i]);
            let x = (a >> ((60 - 4 * i) as u64)) % 16;
            let y = (b >> ((60 - 4 * i) as u64)) % 16;
            assert(digit(x as int) == digit(y as int));
        }
        lemma_nibbles(a, b);
    }
}

proof fn lemma_nibbles(a: u64, b: u64)
    requires
        forall|i: int|
            0 <= i < 16 ==> #[trigger] nibble(a, i) == nibble(b, i),
    ensures
        a == b,
{
    assert(nibble(a, 0) == nibble(b, 0));
    assert(nibble(a, 1) == nibble(b, 1));
    assert(nibble(a, 2) == nibble(b, 2));
    assert(nibble(a, 3) == nibble(b, 3));
    assert(nibble(a, 4) == nibble(b, 4));
    assert(nibble(a, 5) == nibble(b, 5));
    assert(nibble(a, 6) == nibble(b, 6));
    assert(nibble(a, 7) == nibble(b, 7));
    assert(nibble(a, 8) == nibble(b, 8));
    assert(nibble(a, 9) == nibble(b, 9));
    assert(nibble(a, 10) == nibble(b, 10));
    assert(nibble(a, 11) == nibble(b, 11));
    assert(nibble(a, 12) == nibble(b, 12));
    assert(nibble(a, 13) == nibble(b, 13));
    assert(nibble(a, 14) == nibble(b, 14));
    assert(nibble(a, 15) == nibble(b, 15));
    assert(a == b) by (bit_vector)
        requires
            (a >> 60) % 16 == (b >> 60) % 16,
            (a >> 56) % 16 == (b >> 56) % 16,
            (a >> 52) % 16 == (b >> 52) % 16,
            (a >> 48) % 16 == (b >> 48) % 16,
            (a >> 44) % 16 == (b >> 44) % 16,
            (a >> 40) % 16 == (b >> 40) % 16,
            (a >> 36) % 16 == (b >> 36) % 16,
            (a >> 32) % 16 == (b >> 32) % 16,
            (a >> 28) % 16 == (b >> 28) % 16,
            (a >> 24) % 16 == (b >> 24) % 16,
            (a >> 20) % 16 == (b >> 20) % 16,
            (a >> 16) % 16 == (b >> 16) % 16,
            (a >> 12) % 16 == (b >> 12) % 16,
            (a >> 8) % 16 == (b >> 8) % 16,
            (a >> 4) % 16 == (b >> 4) % 16,
            (a >> 0) % 16 == (b >> 0) % 16,
    ;
}

/// Four bits of a number, counted from the highest.
spec fn nibble(n: u64, i: int) -> u64 {
    (n >> ((60 - 4 * i) as u64)) % 16
}

/// Letters of ASCII change their case one for one, and no other character changes.
pub proof fn letters_change_case_in_pairs(c: char, s: Seq<char>, i: int)
    ensures
        'A' <= c <= 'Z' ==> lower_char(c) as u32 == c as u32 + 32,
        'a' <= c <= 'z' ==> upper_char(c) as u32 == c as u32 - 32,
        !('A' <= c <= 'Z') ==> lower_char(c) == c,
        !('a' <= c <= 'z') ==> upper_char(c) == c,
        ascii_lowercase(s).len() == s.len(),
        ascii_uppercase(s).len() == s.len(),
        0 <= i < s.len() ==> ascii_lowercase(s)[i] == lower_char(s[i]) && ascii_uppercase(s)[i]
            == upper_char(s[i]),
        (forall|k: int| 0 <= k < s.len() ==> '\0' <= #[trigger] s[k] <= '\u{7f}') ==> lowercase(s)
            == ascii_lowercase(s) && uppercase(s) == ascii_uppercase(s),
{
}

} // verus!
