//! Work on text: search, tokens and numbers.

use vstd::prelude::*;
use vstd::string::*;

use crate::text;

verus! {

/// Texts by their characters.
pub open spec fn texts(v: Seq<String>) -> Seq<Seq<char>> {
    Seq::new(v.len(), |i: int| v[i]@)
}

/// The first place of `c` from `i` on.
pub open spec fn place_of(s: Seq<char>, c: char, i: int) -> Option<int>
    decreases s.len() - i,
{
    if i >= s.len() {
        None
    } else if s[i] == c {
        Some(i)
    } else {
        place_of(s, c, i + 1)
    }
}

/// The first place of `c`.
pub fn find_char(s: &str, c: char) -> (o: Option<usize>)
    ensures
        match place_of(s@, c, 0) {
            Some(i) => o matches Some(x) && x == i,
            None => o is None,
        },
        o matches Some(x) ==> x < s@.len() && s@[x as int] == c,
{
    let n: usize = s.unicode_len();
    let mut i: usize = 0;
    while i < n
        invariant
            i <= n,
            n == s@.len(),
            place_of(s@, c, 0) == place_of(s@, c, i as int),
        decreases n - i,
    {
        if s.get_char(i) == c {
            return Some(i);
        }
        i = i + 1;
    }
    None
}

/// The text stands in `s` from place `i` on.
pub open spec fn stands_at(s: Seq<char>, text: Seq<char>, i: int) -> bool {
    0 <= i && i + text.len() <= s.len() && s.subrange(i, i + text.len()) == text
}

/// The text stands somewhere in `s`.
pub open spec fn occurs(s: Seq<char>, text: Seq<char>) -> bool {
    exists|i: int| stands_at(s, text, i)
}

fn is_at(s: &str, text: &str, i: usize, n: usize) -> (yes: bool)
    requires
        n == text@.len(),
        i + n <= s@.len() <= usize::MAX,
    ensures
        yes == stands_at(s@, text@, i as int),
{
    let ghost part = s@.subrange(i as int, i + n);
    let mut j: usize = 0;
    while j < n
        invariant
            j <= n,
            n == text@.len(),
            i + n <= s@.len() <= usize::MAX,
            part == s@.subrange(i as int, i + n),
            forall|k: int| 0 <= k < j ==> part[k] == text@[k],
        decreases n - j,
    {
        if s.get_char(i + j) != text.get_char(j) {
            assert(part[j as int] != text@[j as int]);
            return false;
        }
        j = j + 1;
    }
    assert(part =~= text@);
    true
}

/// Tells whether the text stands somewhere in `s`.
pub fn contains(s: &str, text: &str) -> (yes: bool)
    ensures
        yes == occurs(s@, text@),
{
    let len: usize = s.unicode_len();
    let n: usize = text.unicode_len();
    if n > len {
        return false;
    }
    let mut i: usize = 0;
    while i <= len - n
        invariant
            i <= len - n + 1,
            n <= len,
            len == s@.len(),
            n == text@.len(),
            forall|k: int| 0 <= k < i ==> !stands_at(s@, text@, k),
        decreases len - n + 1 - i,
    {
        if is_at(s, text, i, n) {
            return true;
        }
        if i == len - n {
            return false;
        }
        i = i + 1;
    }
    false
}

/// What `str::to_lowercase` returns.
pub uninterp spec fn lowered(s: Seq<char>) -> Seq<char>;

/// The character has the property White_Space of Unicode.
pub open spec fn white(c: char) -> bool {
    ||| '\u{9}' <= c <= '\u{d}'
    ||| c == '\u{20}'
    ||| c == '\u{85}'
    ||| c == '\u{a0}'
    ||| c == '\u{1680}'
    ||| '\u{2000}' <= c <= '\u{200a}'
    ||| c == '\u{2028}'
    ||| c == '\u{2029}'
    ||| c == '\u{202f}'
    ||| c == '\u{205f}'
    ||| c == '\u{3000}'
}

/// `str::to_lowercase`: the text in lower case, which depends on the text alone. What
/// lower case is, Unicode says, and it is not written out here.
#[verifier::external_body]
pub(crate) fn lower(s: &str) -> (r: String)
    ensures
        r@ == lowered(s@),
{
    s.to_lowercase()
}

/// `char::is_whitespace`: whether the character has the property White_Space of Unicode,
/// which the characters listed in `white` have and no others.
#[verifier::external_body]
pub(crate) fn is_white(c: char) -> (yes: bool)
    ensures
        yes == white(c),
{
    c.is_whitespace()
}

/// A text without the marked characters that it starts with.
pub open spec fn stripped_start(s: Seq<char>, marks: Seq<bool>) -> Seq<char>
    decreases s.len(),
{
    if s.len() > 0 && marks[0] {
        stripped_start(s.drop_first(), marks.drop_first())
    } else {
        s
    }
}

/// A text without the marked characters that it ends with.
pub open spec fn stripped_end(s: Seq<char>, marks: Seq<bool>) -> Seq<char>
    decreases s.len(),
{
    if s.len() > 0 && marks.last() {
        stripped_end(s.drop_last(), marks.drop_last())
    } else {
        s
    }
}

/// A text without the marked characters at its ends.
pub open spec fn stripped(s: Seq<char>, marks: Seq<bool>) -> Seq<char> {
    let rest = stripped_start(s, marks);
    stripped_end(rest, marks.skip(s.len() - rest.len()))
}

/// Which characters of a text are white space.
pub open spec fn white_marks(s: Seq<char>) -> Seq<bool> {
    Seq::new(s.len(), |i: int| white(s[i]))
}

/// A text without the white space at its ends.
pub open spec fn trimmed(s: Seq<char>) -> Seq<char> {
    stripped(s, white_marks(s))
}

/// A text without the marked characters at its ends.
pub fn strip(s: &str, marks: &Vec<bool>) -> (r: String)
    requires
        marks@.len() == s@.len(),
    ensures
        r@ == stripped(s@, marks@),
{
    let n: usize = marks.len();
    let mut from: usize = 0;
    assert(s@.skip(0) =~= s@);
    assert(marks@.skip(0) =~= marks@);
    while from < n && marks[from]
        invariant
            from <= n,
            n == s@.len(),
            n == marks@.len(),
            stripped_start(s@.skip(from as int), marks@.skip(from as int)) == stripped_start(
                s@,
                marks@,
            ),
        decreases n - from,
    {
        assert(s@.skip(from as int).drop_first() =~= s@.skip(from + 1));
        assert(marks@.skip(from as int).drop_first() =~= marks@.skip(from + 1));
        from = from + 1;
    }
    let ghost tail = s@.skip(from as int);
    let ghost kept = marks@.skip(from as int);
    assert(stripped_start(s@, marks@) == tail);
    let mut to: usize = n;
    assert(tail.take(tail.len() as int) =~= tail);
    assert(kept.take(kept.len() as int) =~= kept);
    while to > from && marks[to - 1]
        invariant
            from <= to <= n,
            n == s@.len(),
            n == marks@.len(),
            tail == s@.skip(from as int),
            kept == marks@.skip(from as int),
            stripped_end(tail.take(to - from), kept.take(to - from)) == stripped_end(tail, kept),
        decreases to,
    {
        assert(tail.take(to - from).drop_last() =~= tail.take(to - from - 1));
        assert(kept.take(to - from).drop_last() =~= kept.take(to - from - 1));
        to = to - 1;
    }
    let r = s.substring_char(from, to).to_owned();
    assert(r@ =~= tail.take(to - from));
    r
}

/// A text without the white space at its ends.
pub fn trim(s: &str) -> (r: String)
    ensures
        r@ == trimmed(s@),
{
    let n: usize = s.unicode_len();
    let mut marks: Vec<bool> = Vec::new();
    let mut i: usize = 0;
    while i < n
        invariant
            i <= n,
            n == s@.len(),
            marks@ == white_marks(s@).take(i as int),
        decreases n - i,
    {
        marks.push(is_white(s.get_char(i)));
        i = i + 1;
        assert(marks@ =~= white_marks(s@).take(i as int));
    }
    assert(marks@ =~= white_marks(s@));
    strip(s, &marks)
}

/// The parts of `s` from place `i` on that commas set apart; the first of them starts
/// at `from`.
pub open spec fn parts_from(s: Seq<char>, from: int, i: int) -> Seq<Seq<char>>
    decreases s.len() - i,
{
    if i >= s.len() {
        seq![s.subrange(from, s.len() as int)]
    } else if s[i] == ',' {
        seq![s.subrange(from, i)] + parts_from(s, i + 1, i + 1)
    } else {
        parts_from(s, from, i + 1)
    }
}

/// Parts without the white space round them, in lower case, and only those that are
/// not empty.
pub open spec fn cleaned(parts: Seq<Seq<char>>) -> Seq<Seq<char>>
    decreases parts.len(),
{
    if parts.len() == 0 {
        Seq::empty()
    } else {
        let token = lowered(trimmed(parts[0]));
        if token.len() == 0 {
            cleaned(parts.drop_first())
        } else {
            seq![token] + cleaned(parts.drop_first())
        }
    }
}

/// The tokens of a list that commas set apart.
pub open spec fn tokens(s: Seq<char>) -> Seq<Seq<char>> {
    cleaned(parts_from(s, 0, 0))
}

/// A token that has been trimmed and lowered goes to the end of the list, unless it is
/// empty.
pub fn keep_token(list: &mut Vec<String>, token: String)
    ensures
        texts(final(list)@) == if token@.len() == 0 {
            texts(old(list)@)
        } else {
            texts(old(list)@).push(token@)
        },
{
    if token.as_str().unicode_len() > 0 {
        list.push(token);
        assert(texts(list@) =~= texts(old(list)@).push(token@));
    }
}

/// The tokens of a list that commas set apart.
pub fn split_tokens(s: &str) -> (v: Vec<String>)
    ensures
        texts(v@) == tokens(s@),
{
    let n: usize = s.unicode_len();
    let mut v: Vec<String> = Vec::new();
    let mut from: usize = 0;
    let mut i: usize = 0;
    assert(texts(v@) + tokens(s@) =~= tokens(s@));
    while i < n
        invariant
            from <= i <= n,
            n == s@.len(),
            texts(v@) + cleaned(parts_from(s@, from as int, i as int)) == tokens(s@),
        decreases n - i,
    {
        if s.get_char(i) == ',' {
            let ghost before = texts(v@);
            let ghost rest = parts_from(s@, i + 1, i + 1);
            let ghost here = parts_from(s@, from as int, i as int);
            let part = s.substring_char(from, i);
            let token = lower(trim(part).as_str());
            assert(here.drop_first() =~= rest);
            assert(here[0] == part@);
            keep_token(&mut v, token);
            assert(texts(v@) + cleaned(rest) =~= before + cleaned(here));
            from = i + 1;
        }
        i = i + 1;
    }
    let ghost before = texts(v@);
    let ghost here = parts_from(s@, from as int, i as int);
    let part = s.substring_char(from, n);
    let token = lower(trim(part).as_str());
    assert(here.drop_first() =~= Seq::empty());
    assert(here[0] == part@);
    keep_token(&mut v, token);
    assert(cleaned(here.drop_first()) =~= Seq::empty());
    assert(texts(v@) =~= before + cleaned(here));
    v
}

// ---- numbers -------------------------------------------------------------------------

pub open spec fn is_digit(c: char) -> bool {
    '0' <= c && c <= '9'
}

/// Every character is a digit.
pub open spec fn all_digits(s: Seq<char>) -> bool {
    forall|i: int| 0 <= i < s.len() ==> is_digit(#[trigger] s[i])
}

/// The value of digits, most significant first.
pub open spec fn value_of(s: Seq<char>) -> nat
    decreases s.len(),
{
    if s.len() == 0 {
        0
    } else {
        value_of(s.drop_last()) * 10 + (s.last() as nat - 48) as nat
    }
}

/// A numeral without the plus sign that it may start with.
pub open spec fn unsigned_part(s: Seq<char>) -> Seq<char> {
    if s.len() > 0 && s[0] == '+' {
        s.skip(1)
    } else {
        s
    }
}

/// The number that the text is the numeral of: digits, with or without a plus sign; zero
/// where it is none, or too large.
pub open spec fn number_or_zero(s: Seq<char>) -> u64 {
    let digits = unsigned_part(s);
    if digits.len() > 0 && all_digits(digits) && value_of(digits) <= u64::MAX {
        value_of(digits) as u64
    } else {
        0
    }
}

proof fn lemma_value_grows(s: Seq<char>, i: int)
    requires
        0 <= i <= s.len(),
    ensures
        value_of(s.take(i)) <= value_of(s),
    decreases s.len() - i,
{
    if i < s.len() {
        lemma_value_grows(s, i + 1);
        assert(s.take(i + 1).drop_last() =~= s.take(i));
    } else {
        assert(s.take(i) =~= s);
    }
}

/// The number that the text is the numeral of, or zero.
pub fn parse_or_zero(s: &str) -> (v: u64)
    ensures
        v == number_or_zero(s@),
{
    let n: usize = s.unicode_len();
    let from: usize = if n > 0 && s.get_char(0) == '+' {
        1
    } else {
        0
    };
    let ghost digits = unsigned_part(s@);
    if from == n {
        return 0;
    }
    let mut v: u64 = 0;
    let mut i: usize = from;
    assert(digits.take(0) =~= Seq::empty());
    while i < n
        invariant
            from <= i <= n,
            n == s@.len(),
            from <= 1,
            digits == unsigned_part(s@),
            digits.len() == n - from,
            forall|k: int| 0 <= k < digits.len() ==> digits[k] == s@[k + from],
            all_digits(digits.take(i - from)),
            v == value_of(digits.take(i - from)),
        decreases n - i,
    {
        let c: char = s.get_char(i);
        let ghost k = i - from;
        assert(digits[k] == c);
        assert(digits.take(k + 1).drop_last() =~= digits.take(k));
        if c < '0' || c > '9' {
            assert(!is_digit(digits[k]));
            return 0;
        }
        let d: u64 = c as u64 - 48;
        proof {
            lemma_value_grows(digits, k + 1);
        }
        if v > (u64::MAX - d) / 10 {
            assert(value_of(digits.take(k + 1)) == v * 10 + d);
            return 0;
        }
        v = v * 10 + d;
        i = i + 1;
        assert forall|j: int| 0 <= j < digits.take(k + 1).len() implies is_digit(
            #[trigger] digits.take(k + 1)[j],
        ) by {
            if j < k {
                assert(digits.take(k)[j] == digits[j]);
            }
        }
    }
    assert(digits.take(i - from) =~= digits);
    v
}

// ---- laws ----------------------------------------------------------------------------

/// No token is empty.
pub proof fn tokens_are_not_empty(parts: Seq<Seq<char>>, i: int)
    requires
        0 <= i < cleaned(parts).len(),
    ensures
        cleaned(parts)[i].len() > 0,
    decreases parts.len(),
{
    let rest = parts.drop_first();
    let token = lowered(trimmed(parts[0]));
    if token.len() == 0 {
        tokens_are_not_empty(rest, i);
    } else if i > 0 {
        tokens_are_not_empty(rest, i - 1);
    }
}

proof fn lemma_decimal(n: nat)
    ensures
        all_digits(text::decimal(n)),
        text::decimal(n).len() > 0,
        value_of(text::decimal(n)) == n,
    decreases n,
{
    let s = text::decimal(n);
    reveal_with_fuel(value_of, 2);
    if n < 10 {
        assert(s =~= seq![text::digit_char(n)]);
        assert(s.drop_last() =~= Seq::empty());
    } else {
        lemma_decimal(n / 10);
        assert(s.drop_last() =~= text::decimal(n / 10));
        assert forall|i: int| 0 <= i < s.len() implies is_digit(#[trigger] s[i]) by {
            if i < s.len() - 1 {
                assert(s[i] == text::decimal(n / 10)[i]);
            }
        }
    }
}

/// A number that is printed reads back.
pub proof fn numerals_read_back(n: u64)
    ensures
        number_or_zero(text::decimal(n as nat)) == n,
{
    lemma_decimal(n as nat);
    let s = text::decimal(n as nat);
    assert(is_digit(s[0]));
    assert(unsigned_part(s) == s);
}

} // verus!
