//! Text as sequences of characters: searching, trimming, splitting, joining
//! and the decimal notation of integers.
//!
//! A `&str` or a `String` is specified by its view, a `Seq<char>`, and
//! positions are character positions.
use vstd::prelude::*;
use vstd::slice::slice_subrange;
use vstd::string::StringExecFns;

verus! {

/// `String::push` appends one character to the end of the string.
pub assume_specification[ String::push ](s: &mut String, ch: char)
    ensures
        final(s)@ == old(s)@.push(ch),
;

/// The lowercase form of a text, as `str::to_lowercase` computes it.
pub uninterp spec fn lowercase(text: Seq<char>) -> Seq<char>;

/// The uppercase form of a text, as `str::to_uppercase` computes it.
pub uninterp spec fn uppercase(text: Seq<char>) -> Seq<char>;

/// Whether every character of the text is an ASCII character.
pub open spec fn all_ascii(text: Seq<char>) -> bool {
    forall|i: int| 0 <= i < text.len() ==> (#[trigger] text[i] as u32) < 128
}

/// The lowercase form of an ASCII letter; every other character is its own.
pub open spec fn ascii_lower(ch: char) -> char {
    if 'A' <= ch && ch <= 'Z' {
        ((ch as u32) + 32) as char
    } else {
        ch
    }
}

/// The uppercase form of an ASCII letter; every other character is its own.
pub open spec fn ascii_upper(ch: char) -> char {
    if 'a' <= ch && ch <= 'z' {
        ((ch as u32) - 32) as char
    } else {
        ch
    }
}

/// A text with its ASCII letters in lowercase; every other character stays.
pub open spec fn folded(text: Seq<char>) -> Seq<char> {
    text.map_values(|ch: char| ascii_lower(ch))
}

/// A text with its ASCII letters in lowercase.
pub fn fold(text: &[char]) -> (r: Vec<char>)
    ensures
        r@ == folded(text@),
{
    let mut out: Vec<char> = Vec::new();
    let mut i: usize = 0;
    while i < text.len()
        invariant
            i <= text@.len(),
            out@ == folded(text@.take(i as int)),
        decreases text@.len() - i,
    {
        let ch = text[i];
        out.push(
            if 'A' <= ch && ch <= 'Z' {
                ((ch as u8) + 32) as char
            } else {
                ch
            },
        );
        assert(out@ =~= folded(text@.take(i + 1)));
        i = i + 1;
    }
    assert(text@.take(i as int) =~= text@);
    out
}

/// Calls `str::to_lowercase`. Its result is a function of the text. As far as a
/// text begins with ASCII characters, it replaces the letters `A` to `Z` of this
/// beginning and nothing else of it.
#[verifier::external_body]
pub(crate) fn to_lower(text: &str) -> (lower: String)
    ensures
        lower@ == lowercase(text@),
        all_ascii(text@) ==> lower@ == text@.map_values(|ch: char| ascii_lower(ch)),
        forall|n: int|
            0 <= n <= text@.len() && all_ascii(#[trigger] text@.take(n)) ==> n <= lower@.len()
                && lower@.take(n) == text@.take(n).map_values(|ch: char| ascii_lower(ch)),
{
    text.to_lowercase()
}

/// Calls `str::to_uppercase`. Its result is a function of the text. As far as a
/// text begins with ASCII characters, it replaces the letters `a` to `z` of this
/// beginning and nothing else of it.
#[verifier::external_body]
pub(crate) fn to_upper(text: &str) -> (upper: String)
    ensures
        upper@ == uppercase(text@),
        all_ascii(text@) ==> upper@ == text@.map_values(|ch: char| ascii_upper(ch)),
        forall|n: int|
            0 <= n <= text@.len() && all_ascii(#[trigger] text@.take(n)) ==> n <= upper@.len()
                && upper@.take(n) == text@.take(n).map_values(|ch: char| ascii_upper(ch)),
{
    text.to_uppercase()
}

// ── Characters ──────────────────────────────────────────────────────────

/// The decimal digits `0` to `9`.
pub open spec fn is_digit(ch: char) -> bool {
    '0' <= ch && ch <= '9'
}

/// ASCII letters and decimal digits.
pub open spec fn is_alnum(ch: char) -> bool {
    is_digit(ch) || ('a' <= ch && ch <= 'z') || ('A' <= ch && ch <= 'Z')
}

/// The characters with the Unicode property `White_Space`.
pub open spec fn is_space(ch: char) -> bool {
    let code = ch as u32;
    ||| 0x9 <= code <= 0xd
    ||| code == 0x20
    ||| code == 0x85
    ||| code == 0xa0
    ||| code == 0x1680
    ||| 0x2000 <= code <= 0x200a
    ||| code == 0x2028
    ||| code == 0x2029
    ||| code == 0x202f
    ||| code == 0x205f
    ||| code == 0x3000
}

pub fn digit(ch: char) -> (r: bool)
    ensures
        r == is_digit(ch),
{
    '0' <= ch && ch <= '9'
}

pub fn alnum(ch: char) -> (r: bool)
    ensures
        r == is_alnum(ch),
{
    digit(ch) || ('a' <= ch && ch <= 'z') || ('A' <= ch && ch <= 'Z')
}

pub fn space(ch: char) -> (r: bool)
    ensures
        r == is_space(ch),
{
    let code: u32 = ch as u32;
    (0x9 <= code && code <= 0xd) || code == 0x20 || code == 0x85 || code == 0xa0 || code == 0x1680
        || (0x2000 <= code && code <= 0x200a) || code == 0x2028 || code == 0x2029 || code == 0x202f
        || code == 0x205f || code == 0x3000
}

// ── Between `str` and characters ────────────────────────────────────────

/// The characters of a text.
pub fn chars_of(text: &str) -> (chars: Vec<char>)
    ensures
        chars@ == text@,
{
    let mut chars: Vec<char> = Vec::new();
    for ch in it: text.chars()
        invariant
            it.seq() == text@,
            chars@ == text@.take(it.index() as int),
    {
        chars.push(ch);
    }
    chars
}

/// The text that the characters spell.
pub fn string_of(chars: &[char]) -> (text: String)
    ensures
        text@ == chars@,
{
    let mut text = String::new();
    let mut i: usize = 0;
    while i < chars.len()
        invariant
            i <= chars@.len(),
            text@ == chars@.take(i as int),
        decreases chars@.len() - i,
    {
        text.push(chars[i]);
        i = i + 1;
    }
    assert(chars@.take(chars@.len() as int) == chars@);
    text
}

/// Whether two texts are the same.
pub fn same(a: &str, b: &str) -> (r: bool)
    ensures
        r == (a@ == b@),
{
    let left: String = a.to_owned();
    let right: String = b.to_owned();
    left == right
}

// ── Searching ───────────────────────────────────────────────────────────

/// Whether `pattern` stands in `text` at position `at`.
pub open spec fn occurs_at(text: Seq<char>, pattern: Seq<char>, at: int) -> bool {
    0 <= at && at + pattern.len() <= text.len() && text.subrange(at, at + pattern.len()) == pattern
}

/// Whether `pattern` stands somewhere in `text`.
pub open spec fn has(text: Seq<char>, pattern: Seq<char>) -> bool {
    exists|at: int| occurs_at(text, pattern, at)
}

/// Whether `text` begins with `pattern`.
pub open spec fn begins(text: Seq<char>, pattern: Seq<char>) -> bool {
    occurs_at(text, pattern, 0)
}

/// The first position from `from` on at which `pattern` stands in `text`.
pub open spec fn find_from(text: Seq<char>, pattern: Seq<char>, from: int) -> Option<int>
    decreases text.len() + 1 - from,
{
    if from + pattern.len() > text.len() {
        None
    } else if occurs_at(text, pattern, from) {
        Some(from)
    } else {
        find_from(text, pattern, from + 1)
    }
}

/// The first position at which `pattern` stands in `text`.
pub open spec fn find(text: Seq<char>, pattern: Seq<char>) -> Option<int> {
    find_from(text, pattern, 0)
}

/// The first position from `from` on at which `ch` stands in `text`.
pub open spec fn find_char_from(text: Seq<char>, ch: char, from: int) -> Option<int>
    decreases text.len() - from,
{
    if from >= text.len() {
        None
    } else if text[from] == ch {
        Some(from)
    } else {
        find_char_from(text, ch, from + 1)
    }
}

/// The first position at which `ch` stands in `text`.
pub open spec fn find_char(text: Seq<char>, ch: char) -> Option<int> {
    find_char_from(text, ch, 0)
}

/// The last position at which `ch` stands in `text`.
pub open spec fn rfind_char(text: Seq<char>, ch: char) -> Option<int>
    decreases text.len(),
{
    if text.len() == 0 {
        None
    } else if text.last() == ch {
        Some(text.len() - 1)
    } else {
        rfind_char(text.drop_last(), ch)
    }
}

/// The text with every place of `pattern` replaced by `other`, from left to
/// right, as `str::replace` has it for a pattern that is not empty.
pub open spec fn replaced(text: Seq<char>, pattern: Seq<char>, other: Seq<char>) -> Seq<char>
    decreases text.len(),
{
    if text.len() == 0 || pattern.len() == 0 {
        text
    } else if begins(text, pattern) {
        other + replaced(text.skip(pattern.len() as int), pattern, other)
    } else {
        seq![text[0]] + replaced(text.skip(1), pattern, other)
    }
}

/// A machine position as a number.
pub open spec fn position(at: Option<usize>) -> Option<int> {
    match at {
        Some(i) => Some(i as int),
        None => None,
    }
}

proof fn lemma_find_from(text: Seq<char>, pattern: Seq<char>, from: int)
    requires
        0 <= from,
    ensures
        find_from(text, pattern, from) matches Some(at) ==> {
            &&& from <= at
            &&& occurs_at(text, pattern, at)
            &&& forall|j: int| from <= j < at ==> !occurs_at(text, pattern, j)
        },
        find_from(text, pattern, from) is None ==> forall|j: int|
            from <= j ==> !occurs_at(text, pattern, j),
    decreases text.len() + 1 - from,
{
    if from + pattern.len() > text.len() {
    } else if occurs_at(text, pattern, from) {
    } else {
        lemma_find_from(text, pattern, from + 1);
        match find_from(text, pattern, from + 1) {
            Some(at) => {
                assert forall|j: int| from <= j < at implies !occurs_at(text, pattern, j) by {
                    if j > from {
                    }
                }
            },
            None => {
                assert forall|j: int| from <= j implies !occurs_at(text, pattern, j) by {
                    if j > from {
                    }
                }
            },
        }
    }
}

/// `find` gives the first position at which the pattern stands, and gives one
/// exactly when the pattern stands somewhere.
pub proof fn find_is_first(text: Seq<char>, pattern: Seq<char>)
    ensures
        find(text, pattern) is Some <==> has(text, pattern),
        find(text, pattern) matches Some(at) ==> {
            &&& occurs_at(text, pattern, at)
            &&& forall|j: int| 0 <= j < at ==> !occurs_at(text, pattern, j)
        },
{
    lemma_find_from(text, pattern, 0);
}

fn stands_at(text: &[char], pattern: &[char], at: usize) -> (r: bool)
    requires
        at + pattern@.len() <= text@.len(),
    ensures
        r == occurs_at(text@, pattern@, at as int),
{
    let mut i: usize = 0;
    while i < pattern.len()
        invariant
            at + pattern@.len() <= text@.len(),
            text@.len() == text.len(),
            i <= pattern@.len(),
            forall|j: int| 0 <= j < i ==> text@[at + j] == #[trigger] pattern@[j],
        decreases pattern@.len() - i,
    {
        if text[at + i] != pattern[i] {
            assert(text@.subrange(at as int, at + pattern@.len())[i as int] != pattern@[i as int]);
            return false;
        }
        i = i + 1;
    }
    assert(text@.subrange(at as int, at + pattern@.len()) =~= pattern@);
    true
}

/// The first position of `pattern` in `text`.
pub fn find_in(text: &[char], pattern: &str) -> (r: Option<usize>)
    ensures
        position(r) == find(text@, pattern@),
{
    let needle = chars_of(pattern);
    let mut i: usize = 0;
    while i <= text.len() && needle.len() <= text.len() - i
        invariant
            needle@ == pattern@,
            i <= text@.len(),
            find(text@, pattern@) == find_from(text@, pattern@, i as int),
        decreases text@.len() - i,
    {
        if stands_at(text, needle.as_slice(), i) {
            return Some(i);
        }
        if i == text.len() {
            assert(find_from(text@, pattern@, i + 1) is None);
            return None;
        }
        i = i + 1;
    }
    None
}

/// Whether `pattern` stands somewhere in `text`.
pub fn contains_in(text: &[char], pattern: &str) -> (r: bool)
    ensures
        r == has(text@, pattern@),
{
    proof {
        find_is_first(text@, pattern@);
    }
    find_in(text, pattern).is_some()
}

/// Whether `pattern` stands somewhere in `text`.
pub fn contains(text: &str, pattern: &str) -> (r: bool)
    ensures
        r == has(text@, pattern@),
{
    let chars = chars_of(text);
    contains_in(chars.as_slice(), pattern)
}

/// Whether `text` begins with `pattern`.
pub fn starts_with(text: &[char], pattern: &str) -> (r: bool)
    ensures
        r == begins(text@, pattern@),
{
    let needle = chars_of(pattern);
    if needle.len() <= text.len() {
        stands_at(text, needle.as_slice(), 0)
    } else {
        false
    }
}

/// The first position of `ch` in `text`.
pub fn find_char_in(text: &[char], ch: char) -> (r: Option<usize>)
    ensures
        position(r) == find_char(text@, ch),
{
    let mut i: usize = 0;
    while i < text.len()
        invariant
            i <= text@.len(),
            find_char(text@, ch) == find_char_from(text@, ch, i as int),
        decreases text@.len() - i,
    {
        if text[i] == ch {
            return Some(i);
        }
        i = i + 1;
    }
    None
}

/// The last position of `ch` in `text`.
pub fn rfind_char_in(text: &[char], ch: char) -> (r: Option<usize>)
    ensures
        position(r) == rfind_char(text@, ch),
{
    let mut n: usize = text.len();
    assert(text@.take(n as int) == text@);
    while n > 0
        invariant
            n <= text@.len(),
            rfind_char(text@, ch) == rfind_char(text@.take(n as int), ch),
        decreases n,
    {
        assert(text@.take(n as int).last() == text@[n - 1]);
        assert(text@.take(n as int).drop_last() =~= text@.take(n - 1));
        if text[n - 1] == ch {
            return Some(n - 1);
        }
        n = n - 1;
    }
    None
}

proof fn lemma_find_char_from(text: Seq<char>, ch: char, from: int)
    requires
        0 <= from,
    ensures
        find_char_from(text, ch, from) matches Some(at) ==> from <= at < text.len() && text[at]
            == ch,
    decreases text.len() - from,
{
    if from < text.len() && text[from] != ch {
        lemma_find_char_from(text, ch, from + 1);
    }
}

/// `find_char` gives a position of the character.
pub proof fn find_char_found(text: Seq<char>, ch: char)
    ensures
        find_char(text, ch) matches Some(at) ==> 0 <= at < text.len() && text[at] == ch,
{
    lemma_find_char_from(text, ch, 0);
}

/// `rfind_char` gives a position of the character.
pub proof fn rfind_char_found(text: Seq<char>, ch: char)
    ensures
        rfind_char(text, ch) matches Some(at) ==> 0 <= at < text.len() && text[at] == ch,
    decreases text.len(),
{
    if text.len() > 0 && text.last() != ch {
        rfind_char_found(text.drop_last(), ch);
    }
}

// ── Trimming and splitting ──────────────────────────────────────────────

/// The text without the white space at its start.
pub open spec fn trim_start(text: Seq<char>) -> Seq<char>
    decreases text.len(),
{
    if text.len() > 0 && is_space(text[0]) {
        trim_start(text.skip(1))
    } else {
        text
    }
}

/// The text without the white space at its end.
pub open spec fn trim_end(text: Seq<char>) -> Seq<char>
    decreases text.len(),
{
    if text.len() > 0 && is_space(text.last()) {
        trim_end(text.drop_last())
    } else {
        text
    }
}

/// The text without the white space at its two ends.
pub open spec fn trim(text: Seq<char>) -> Seq<char> {
    trim_end(trim_start(text))
}

pub fn trim_start_of(text: &[char]) -> (r: &[char])
    ensures
        r@ == trim_start(text@),
{
    let mut i: usize = 0;
    assert(text@.skip(0) == text@);
    while i < text.len() && space(text[i])
        invariant
            i <= text@.len(),
            trim_start(text@) == trim_start(text@.skip(i as int)),
        decreases text@.len() - i,
    {
        assert(text@.skip(i as int).skip(1) =~= text@.skip(i + 1));
        i = i + 1;
    }
    assert(text@.skip(i as int) =~= text@.subrange(i as int, text@.len() as int));
    slice_subrange(text, i, text.len())
}

pub fn trim_end_of(text: &[char]) -> (r: &[char])
    ensures
        r@ == trim_end(text@),
{
    let mut n: usize = text.len();
    assert(text@.take(n as int) == text@);
    while n > 0 && space(text[n - 1])
        invariant
            n <= text@.len(),
            trim_end(text@) == trim_end(text@.take(n as int)),
        decreases n,
    {
        assert(text@.take(n as int).drop_last() =~= text@.take(n - 1));
        n = n - 1;
    }
    assert(text@.take(n as int) =~= text@.subrange(0, n as int));
    slice_subrange(text, 0, n)
}

pub fn trim_of(text: &[char]) -> (r: &[char])
    ensures
        r@ == trim(text@),
{
    trim_end_of(trim_start_of(text))
}

/// The text without a carriage return at its end.
pub open spec fn without_return(line: Seq<char>) -> Seq<char> {
    if line.len() > 0 && line.last() == '\r' {
        line.drop_last()
    } else {
        line
    }
}

/// The lines of a text. A line ends with a line feed, or with a carriage
/// return and a line feed; neither belongs to the line. The last line may go
/// without an ending.
pub open spec fn lines(text: Seq<char>) -> Seq<Seq<char>>
    decreases text.len(),
    via lines_shrink
{
    if text.len() == 0 {
        Seq::empty()
    } else {
        match find_char(text, '\n') {
            None => seq![text],
            Some(at) => seq![without_return(text.take(at))] + lines(text.skip(at + 1)),
        }
    }
}

#[via_fn]
proof fn lines_shrink(text: Seq<char>) {
    find_char_found(text, '\n');
}

/// A list of texts as the sequence of their characters.
pub open spec fn texts(list: Seq<Vec<char>>) -> Seq<Seq<char>> {
    list.map_values(|item: Vec<char>| item@)
}

/// A list of strings as the sequence of their characters.
pub open spec fn strings(list: Seq<String>) -> Seq<Seq<char>> {
    list.map_values(|item: String| item@)
}

/// A list of string slices as the sequence of their characters.
pub open spec fn slices(list: Seq<&str>) -> Seq<Seq<char>> {
    list.map_values(|item: &str| item@)
}

/// The lines of a text.
pub fn lines_of(text: &[char]) -> (r: Vec<Vec<char>>)
    ensures
        texts(r@) == lines(text@),
{
    let mut out: Vec<Vec<char>> = Vec::new();
    let mut start: usize = 0;
    assert(text@.skip(0) =~= text@);
    assert(texts(out@) + lines(text@.skip(0)) =~= lines(text@));
    while start < text.len()
        invariant
            start <= text@.len(),
            texts(out@) + lines(text@.skip(start as int)) == lines(text@),
        decreases text@.len() - start,
    {
        let rest = slice_subrange(text, start, text.len());
        let ghost before = out@;
        proof {
            assert(rest@ =~= text@.skip(start as int));
            find_char_found(rest@, '\n');
        }
        match find_char_in(rest, '\n') {
            None => {
                let line = vstd::slice::slice_to_vec(rest);
                out.push(line);
                assert(texts(out@) =~= texts(before) + seq![rest@]);
                return out;
            },
            Some(at) => {
                let mut end: usize = at;
                if end > 0 && rest[end - 1] == '\r' {
                    end = end - 1;
                }
                let line = vstd::slice::slice_to_vec(slice_subrange(rest, 0, end));
                out.push(line);
                proof {
                    assert(line@ =~= without_return(rest@.take(at as int)));
                    assert(rest@.skip(at + 1) =~= text@.skip(start + at + 1));
                    assert(texts(out@) =~= texts(before) + seq![line@]);
                    assert(texts(before) + (seq![line@] + lines(rest@.skip(at + 1))) =~= (texts(
                        before,
                    ) + seq![line@]) + lines(rest@.skip(at + 1)));
                }
                start = start + at + 1;
            },
        }
    }
    assert(lines(text@.skip(start as int)) =~= Seq::<Seq<char>>::empty());
    assert(texts(out@) + Seq::<Seq<char>>::empty() =~= texts(out@));
    out
}

/// The items one after another, with the separator between each two.
pub open spec fn joined(items: Seq<Seq<char>>, separator: Seq<char>) -> Seq<char>
    decreases items.len(),
{
    if items.len() == 0 {
        Seq::empty()
    } else if items.len() == 1 {
        items[0]
    } else {
        joined(items.drop_last(), separator) + separator + items.last()
    }
}

/// Joins the items with a separating character.
pub fn join(items: &Vec<Vec<char>>, separator: char) -> (r: Vec<char>)
    ensures
        r@ == joined(texts(items@), seq![separator]),
{
    let mut out: Vec<char> = Vec::new();
    let mut i: usize = 0;
    while i < items.len()
        invariant
            i <= items@.len(),
            out@ == joined(texts(items@).take(i as int), seq![separator]),
        decreases items@.len() - i,
    {
        let ghost prefix = texts(items@).take(i + 1);
        assert(prefix.drop_last() =~= texts(items@).take(i as int));
        let ghost before = out@;
        if i > 0 {
            out.push(separator);
        }
        let ghost middle = out@;
        let mut j: usize = 0;
        while j < items[i].len()
            invariant
                i < items@.len(),
                j <= items@[i as int]@.len(),
                out@ == middle + items@[i as int]@.take(j as int),
            decreases items@[i as int]@.len() - j,
        {
            out.push(items[i][j]);
            assert(items@[i as int]@.take(j + 1) =~= items@[i as int]@.take(j as int).push(
                items@[i as int]@[j as int],
            ));
            j = j + 1;
        }
        proof {
            assert(items@[i as int]@.take(j as int) =~= items@[i as int]@);
            assert(prefix.last() == items@[i as int]@);
            if i == 0 {
                assert(out@ =~= prefix[0]);
            } else {
                assert(out@ =~= before + seq![separator] + prefix.last());
            }
        }
        i = i + 1;
    }
    assert(texts(items@).take(i as int) =~= texts(items@));
    out
}

// ── Lines and what they are joined to ───────────────────────────────────

pub(crate) proof fn lemma_joined_front(items: Seq<Seq<char>>, separator: Seq<char>)
    requires
        items.len() >= 2,
    ensures
        joined(items, separator) == items[0] + separator + joined(items.skip(1), separator),
    decreases items.len(),
{
    let rest = items.skip(1);
    if items.len() == 2 {
        assert(items.drop_last().len() == 1);
        assert(joined(items.drop_last(), separator) == items[0]);
        assert(joined(rest, separator) == items[1]);
    } else {
        lemma_joined_front(items.drop_last(), separator);
        assert(items.drop_last().skip(1) =~= rest.drop_last());
        assert(joined(items, separator) =~= items[0] + separator + joined(rest, separator));
    }
}

/// Whether a text has neither a line feed nor a carriage return.
pub(crate) open spec fn is_one_line(text: Seq<char>) -> bool {
    !text.contains('\n') && !text.contains('\r')
}

pub(crate) proof fn lemma_find_feed(text: Seq<char>)
    ensures
        find_char(text, '\n') is None ==> !text.contains('\n'),
        find_char(text, '\n') matches Some(at) ==> 0 <= at < text.len() && text[at] == '\n'
            && !text.take(at).contains('\n'),
{
    find_char_found(text, '\n');
    lemma_find_feed_from(text, 0);
}

proof fn lemma_find_feed_from(text: Seq<char>, from: int)
    requires
        0 <= from,
    ensures
        find_char_from(text, '\n', from) is None ==> forall|i: int|
            from <= i < text.len() ==> text[i] != '\n',
        find_char_from(text, '\n', from) matches Some(at) ==> forall|i: int|
            from <= i < at ==> text[i] != '\n',
    decreases text.len() - from,
{
    if from < text.len() && text[from] != '\n' {
        lemma_find_feed_from(text, from + 1);
    }
}

pub(crate) proof fn lemma_find_feed_after(front: Seq<char>, back: Seq<char>)
    requires
        !front.contains('\n'),
    ensures
        find_char(front + seq!['\n'] + back, '\n') == Some(front.len() as int),
{
    let full = front + seq!['\n'] + back;
    lemma_find_feed(full);
    assert(full[front.len() as int] == '\n');
    assert(full.contains('\n'));
    let at = find_char(full, '\n')->0;
    if at < front.len() {
        assert(front[at] == '\n');
    } else if at > front.len() {
        assert(full.take(at)[front.len() as int] == '\n');
    }
}

proof fn lemma_part_without_return(text: Seq<char>, at: int)
    requires
        !text.contains('\r'),
        0 <= at <= text.len(),
    ensures
        !text.take(at).contains('\r'),
        !text.skip(at).contains('\r'),
        without_return(text.take(at)) == text.take(at),
{
    if text.take(at).contains('\r') {
        let i = choose|i: int| 0 <= i < at && text.take(at)[i] == '\r';
        assert(text[i] == '\r');
    }
    if text.skip(at).contains('\r') {
        let i = choose|i: int| 0 <= i < text.skip(at).len() && text.skip(at)[i] == '\r';
        assert(text[at + i] == '\r');
    }
    if at > 0 && text.take(at).last() == '\r' {
        assert(text.take(at).contains('\r'));
    }
}

/// No line of a text has a line feed, and none has a carriage return where the
/// text has none.
pub(crate) proof fn lemma_lines_are_lines(text: Seq<char>)
    ensures
        forall|i: int| 0 <= i < lines(text).len() ==> !(#[trigger] lines(text)[i]).contains('\n'),
        !text.contains('\r') ==> forall|i: int|
            0 <= i < lines(text).len() ==> !(#[trigger] lines(text)[i]).contains('\r'),
    decreases text.len(),
{
    if text.len() > 0 {
        lemma_find_feed(text);
        match find_char(text, '\n') {
            None => {
                assert(lines(text) =~= seq![text]);
            },
            Some(at) => {
                let first = without_return(text.take(at));
                let rest = lines(text.skip(at + 1));
                lemma_lines_are_lines(text.skip(at + 1));
                assert(lines(text) =~= seq![first] + rest);
                assert(!first.contains('\n')) by {
                    if first.contains('\n') {
                        let i = choose|i: int| 0 <= i < first.len() && first[i] == '\n';
                        assert(text.take(at)[i] == '\n');
                    }
                }
                if !text.contains('\r') {
                    lemma_part_without_return(text, at);
                    lemma_part_without_return(text, at + 1);
                }
                assert forall|i: int| 0 <= i < lines(text).len() implies !(#[trigger] lines(
                    text,
                )[i]).contains('\n') && (!text.contains('\r') ==> !lines(text)[i].contains(
                    '\r',
                )) by {
                    if i > 0 {
                        assert(lines(text)[i] == rest[i - 1]);
                    }
                }
            },
        }
    } else {
        assert(lines(text) =~= Seq::<Seq<char>>::empty());
    }
}

/// The lines of texts that were joined are among them.
pub(crate) proof fn lemma_lines_of_joined(items: Seq<Seq<char>>)
    requires
        forall|i: int| 0 <= i < items.len() ==> is_one_line(#[trigger] items[i]),
    ensures
        forall|i: int|
            0 <= i < lines(joined(items, seq!['\n'])).len() ==> items.contains(
                #[trigger] lines(joined(items, seq!['\n']))[i],
            ),
    decreases items.len(),
{
    let full = joined(items, seq!['\n']);
    if items.len() == 0 {
        assert(lines(full) =~= Seq::<Seq<char>>::empty());
    } else if items.len() == 1 {
        lemma_find_feed(full);
        if full.len() > 0 {
            if let Some(at) = find_char(full, '\n') {
                assert(items[0][at] == '\n');
            }
            assert(lines(full) =~= seq![items[0]]);
        } else {
            assert(lines(full) =~= Seq::<Seq<char>>::empty());
        }
    } else {
        let rest = items.skip(1);
        assert forall|i: int| 0 <= i < rest.len() implies is_one_line(#[trigger] rest[i]) by {
            assert(rest[i] == items[i + 1]);
        }
        lemma_joined_front(items, seq!['\n']);
        lemma_lines_of_joined(rest);
        let tail = joined(rest, seq!['\n']);
        let first = items[0];
        assert(is_one_line(first));
        lemma_find_feed_after(first, tail);
        assert(full.take(first.len() as int) =~= first);
        assert(full.skip(first.len() as int + 1) =~= tail);
        if first.len() > 0 && first.last() == '\r' {
            assert(first.contains('\r'));
        }
        assert(lines(full) =~= seq![first] + lines(tail));
        assert forall|i: int| 0 <= i < lines(full).len() implies items.contains(
            #[trigger] lines(full)[i],
        ) by {
            if i > 0 {
                assert(rest.contains(lines(tail)[i - 1]));
                let k = choose|k: int| 0 <= k < rest.len() && rest[k] == lines(tail)[i - 1];
                assert(items[k + 1] == lines(full)[i]);
            } else {
                assert(items[0] == lines(full)[0]);
            }
        }
    }
}

/// The lines of a text, joined, are the text, where it does not end with a
/// line feed and has no carriage return.
pub(crate) proof fn lemma_joined_lines(text: Seq<char>)
    requires
        !text.contains('\r'),
        text.len() > 0 ==> text.last() != '\n',
    ensures
        joined(lines(text), seq!['\n']) == text,
        text.len() > 0 ==> lines(text).len() > 0,
    decreases text.len(),
{
    if text.len() > 0 {
        lemma_find_feed(text);
        match find_char(text, '\n') {
            None => {
                assert(lines(text) =~= seq![text]);
            },
            Some(at) => {
                let rest = text.skip(at + 1);
                lemma_part_without_return(text, at);
                lemma_part_without_return(text, at + 1);
                assert(rest.len() > 0);
                assert(rest.last() == text.last());
                lemma_joined_lines(rest);
                let all = lines(text);
                assert(all =~= seq![text.take(at)] + lines(rest));
                lemma_joined_front(all, seq!['\n']);
                assert(all.skip(1) =~= lines(rest));
                assert(text.take(at) + seq!['\n'] + rest =~= text);
            },
        }
    } else {
        assert(lines(text) =~= Seq::<Seq<char>>::empty());
        assert(joined(lines(text), seq!['\n']) =~= text);
    }
}

/// What stands behind a line feed is lines of its own.
pub(crate) proof fn lemma_lines_of_sum(front: Seq<char>, back: Seq<char>)
    requires
        front.len() > 0 ==> front.last() != '\n' && front.last() != '\r',
    ensures
        lines(front + seq!['\n'] + back) == (if front.len() == 0 {
            seq![front]
        } else {
            lines(front)
        }) + lines(back),
    decreases front.len(),
{
    let full = front + seq!['\n'] + back;
    lemma_find_feed(front);
    match find_char(front, '\n') {
        None => {
            lemma_find_feed_after(front, back);
            assert(full.take(front.len() as int) =~= front);
            assert(full.skip(front.len() as int + 1) =~= back);
            assert(lines(full) =~= seq![front] + lines(back));
        },
        Some(at) => {
            let rest = front.skip(at + 1);
            assert(rest.len() > 0);
            assert(rest.last() == front.last());
            lemma_lines_of_sum(rest, back);
            lemma_find_feed_after(front.take(at), rest + seq!['\n'] + back);
            assert(front.take(at) + seq!['\n'] + (rest + seq!['\n'] + back) =~= full);
            assert(full.take(at) =~= front.take(at));
            assert(full.skip(at + 1) =~= rest + seq!['\n'] + back);
            assert(lines(full) =~= lines(front) + lines(back));
        },
    }
}

// ── Numbers ─────────────────────────────────────────────────────────────

/// The character of a decimal digit.
pub open spec fn digit_char(d: nat) -> char {
    (d + 48) as char
}

/// The decimal notation of a natural number.
pub open spec fn decimal(n: nat) -> Seq<char>
    decreases n,
{
    if n < 10 {
        seq![digit_char(n)]
    } else {
        decimal(n / 10).push(digit_char(n % 10))
    }
}

/// The decimal notation of an integer.
pub open spec fn signed_decimal(n: int) -> Seq<char> {
    if n < 0 {
        seq!['-'] + decimal((-n) as nat)
    } else {
        decimal(n as nat)
    }
}

/// Appends the decimal notation of a number to a text.
pub fn push_decimal(text: &mut String, n: u64)
    ensures
        final(text)@ == old(text)@ + decimal(n as nat),
    decreases n,
{
    if n >= 10 {
        push_decimal(text, n / 10);
    }
    let d: u8 = (n % 10) as u8;
    let ch: char = (48 + d) as char;
    text.push(ch);
    assert(text@ =~= old(text)@ + decimal(n as nat));
}

/// The decimal notation of an integer.
pub fn signed_decimal_of(n: i64) -> (text: String)
    ensures
        text@ == signed_decimal(n as int),
{
    let mut text = String::new();
    if n < 0 {
        text.push('-');
        let size: u64 = (-(n + 1)) as u64 + 1;
        push_decimal(&mut text, size);
        assert(text@ =~= seq!['-'] + decimal((-n) as nat));
    } else {
        push_decimal(&mut text, n as u64);
        assert(text@ =~= decimal(n as nat));
    }
    text
}

/// The number that a sequence of decimal digits denotes.
pub open spec fn digits_value(digits: Seq<char>) -> nat
    decreases digits.len(),
{
    if digits.len() == 0 {
        0
    } else {
        (10 * digits_value(digits.drop_last()) + (digits.last() as u32 - 48)) as nat
    }
}

/// Whether every character is a decimal digit.
pub open spec fn all_digits(text: Seq<char>) -> bool {
    forall|i: int| 0 <= i < text.len() ==> is_digit(#[trigger] text[i])
}

/// The 32-bit integer that a text denotes: an optional sign and one or more
/// decimal digits.
pub open spec fn integer(text: Seq<char>) -> Option<int> {
    let signed = text.len() > 0 && (text[0] == '-' || text[0] == '+');
    let digits = if signed {
        text.skip(1)
    } else {
        text
    };
    let size = digits_value(digits) as int;
    let value = if signed && text[0] == '-' {
        -size
    } else {
        size
    };
    if digits.len() > 0 && all_digits(digits) && i32::MIN <= value <= i32::MAX {
        Some(value)
    } else {
        None
    }
}

/// A machine integer as a number.
pub open spec fn number(n: Option<i32>) -> Option<int> {
    match n {
        Some(i) => Some(i as int),
        None => None,
    }
}

/// Reads a 32-bit integer.
pub fn parse_integer(text: &[char]) -> (r: Option<i32>)
    ensures
        number(r) == integer(text@),
{
    let signed: bool = text.len() > 0 && (text[0] == '-' || text[0] == '+');
    let negative: bool = signed && text[0] == '-';
    let start: usize = if signed {
        1
    } else {
        0
    };
    let ghost digits = if signed {
        text@.skip(1)
    } else {
        text@
    };
    if start == text.len() {
        return None;
    }
    let mut value: i64 = 0;
    let mut i: usize = start;
    assert(digits.take(0) =~= Seq::<char>::empty());
    while i < text.len()
        invariant
            start <= i <= text@.len(),
            signed == (text@.len() > 0 && (text@[0] == '-' || text@[0] == '+')),
            start == (if signed { 1int } else { 0 }),
            digits == text@.skip(start as int),
            forall|j: int| 0 <= j < i - start ==> is_digit(#[trigger] digits[j]),
            0 <= value <= 0x1_0000_0000,
            value < 0x1_0000_0000 ==> value == digits_value(digits.take(i - start)),
            value == 0x1_0000_0000 ==> digits_value(digits.take(i - start)) >= 0x1_0000_0000,
        decreases text@.len() - i,
    {
        let ch = text[i];
        assert(digits[i - start] == ch);
        if !digit(ch) {
            assert(!is_digit(digits[i - start]));
            return None;
        }
        assert(digits.take(i - start + 1).drop_last() =~= digits.take(i - start));
        let next: i64 = value * 10 + (ch as u32 as i64 - 48);
        value = if next > 0x1_0000_0000 {
            0x1_0000_0000
        } else {
            next
        };
        i = i + 1;
    }
    assert(digits.take(i - start) =~= digits);
    assert(all_digits(digits));
    if negative {
        if value <= 0x8000_0000 {
            Some((-value) as i32)
        } else {
            None
        }
    } else if value <= 0x7fff_ffff {
        Some(value as i32)
    } else {
        None
    }
}

// ── Shortening ──────────────────────────────────────────────────────────

/// The text itself where it has at most `max_chars` characters, else its first
/// `max_chars` characters.
pub open spec fn truncated(text: Seq<char>, max_chars: nat) -> Seq<char> {
    if text.len() <= max_chars {
        text
    } else {
        text.take(max_chars as int)
    }
}

/// Truncates a text to at most `max_chars` characters (not bytes).
pub fn truncate_str(s: &str, max_chars: usize) -> (r: String)
    ensures
        r@ == truncated(s@, max_chars as nat),
{
    let chars = chars_of(s);
    if chars.len() <= max_chars {
        s.to_owned()
    } else {
        let head = slice_subrange(chars.as_slice(), 0, max_chars);
        assert(head@ =~= s@.take(max_chars as int));
        string_of(head)
    }
}

/// A truncated text has at most the given number of characters, and begins as
/// the text does.
pub proof fn truncation_is_bounded(text: Seq<char>, max_chars: nat)
    ensures
        truncated(text, max_chars).len() <= max_chars,
        text.len() <= max_chars ==> truncated(text, max_chars) == text,
        begins(text, truncated(text, max_chars)),
{
    assert(text.subrange(0, truncated(text, max_chars).len() as int) =~= truncated(
        text,
        max_chars,
    ));
}

// ── What holds of texts ─────────────────────────────────────────────────

/// `find_char` gives the first position of the character, and gives one
/// exactly where the character stands somewhere.
pub proof fn find_char_is_first(text: Seq<char>, ch: char)
    ensures
        find_char(text, ch) is Some <==> text.contains(ch),
        find_char(text, ch) matches Some(at) ==> 0 <= at < text.len() && text[at] == ch && forall|
            j: int,
        |
            0 <= j < at ==> text[j] != ch,
{
    lemma_find_char_is_first(text, ch, 0);
    if text.contains(ch) {
        let k = choose|k: int| 0 <= k < text.len() && text[k] == ch;
        assert(text[k] == ch);
    }
}

proof fn lemma_find_char_is_first(text: Seq<char>, ch: char, from: int)
    requires
        0 <= from,
    ensures
        find_char_from(text, ch, from) is None ==> forall|j: int|
            from <= j < text.len() ==> text[j] != ch,
        find_char_from(text, ch, from) matches Some(at) ==> from <= at < text.len() && text[at]
            == ch && forall|j: int| from <= j < at ==> text[j] != ch,
    decreases text.len() - from,
{
    if from < text.len() && text[from] != ch {
        lemma_find_char_is_first(text, ch, from + 1);
    }
}

/// `rfind_char` gives the last position of the character, and gives one
/// exactly where the character stands somewhere.
pub proof fn rfind_char_is_last(text: Seq<char>, ch: char)
    ensures
        rfind_char(text, ch) is Some <==> text.contains(ch),
        rfind_char(text, ch) matches Some(at) ==> 0 <= at < text.len() && text[at] == ch && forall|
            j: int,
        |
            at < j < text.len() ==> text[j] != ch,
    decreases text.len(),
{
    if text.len() > 0 {
        let rest = text.drop_last();
        rfind_char_is_last(rest, ch);
        if text.last() == ch {
            assert(text[text.len() - 1] == ch);
        } else {
            assert forall|j: int| 0 <= j < rest.len() implies rest[j] == text[j] by {}
            if text.contains(ch) {
                let k = choose|k: int| 0 <= k < text.len() && text[k] == ch;
                assert(rest[k] == ch);
            }
            if rest.contains(ch) {
                let k = choose|k: int| 0 <= k < rest.len() && rest[k] == ch;
                assert(text[k] == ch);
            }
            if let Some(at) = rfind_char(rest, ch) {
                assert(text[at] == rest[at]);
                assert forall|j: int| at < j < text.len() implies text[j] != ch by {
                    if j < rest.len() {
                        assert(rest[j] == text[j]);
                    }
                }
            }
        }
    }
}

/// The white space of Unicode: five controls from the tab to the carriage
/// return, the space, and the characters of these codes.
pub proof fn white_space_is_that_of_unicode(ch: char)
    ensures
        is_space(ch) <==> ('\t' <= ch && ch <= '\r') || ch == ' ' || seq![
            0x85u32,
            0xa0,
            0x1680,
            0x2000,
            0x2001,
            0x2002,
            0x2003,
            0x2004,
            0x2005,
            0x2006,
            0x2007,
            0x2008,
            0x2009,
            0x200a,
            0x2028,
            0x2029,
            0x202f,
            0x205f,
            0x3000,
        ].contains(ch as u32),
{
    let codes = seq![
        0x85u32,
        0xa0,
        0x1680,
        0x2000,
        0x2001,
        0x2002,
        0x2003,
        0x2004,
        0x2005,
        0x2006,
        0x2007,
        0x2008,
        0x2009,
        0x200a,
        0x2028,
        0x2029,
        0x202f,
        0x205f,
        0x3000,
    ];
    let code = ch as u32;
    assert(codes[0] == 0x85 && codes[1] == 0xa0 && codes[2] == 0x1680);
    assert(codes[14] == 0x2028 && codes[15] == 0x2029 && codes[16] == 0x202f && codes[17] == 0x205f
        && codes[18] == 0x3000);
    if 0x2000 <= code <= 0x200a {
        assert(codes[code - 0x2000 + 3] == code);
    }
}

/// Whether every character of a text is white space.
pub open spec fn is_blank(text: Seq<char>) -> bool {
    forall|i: int| 0 <= i < text.len() ==> is_space(#[trigger] text[i])
}

/// Trimming takes the white space at the two ends off, and nothing else: a
/// text that neither begins nor ends with white space is what remains of it
/// with white space around it.
pub proof fn trimming_takes_the_ends_off(front: Seq<char>, body: Seq<char>, back: Seq<char>)
    requires
        is_blank(front),
        is_blank(back),
        body.len() > 0 ==> !is_space(body[0]) && !is_space(body.last()),
    ensures
        trim(front + body + back) == body,
        body.len() > 0 ==> trim_start(front + body + back) == body + back,
{
    if body.len() > 0 {
        lemma_trim_start_blank(front, body + back);
        assert(front + body + back =~= front + (body + back));
        assert((body + back)[0] == body[0]);
        lemma_trim_end_blank(body, back);
    } else {
        let whole = front + body + back;
        assert forall|i: int| 0 <= i < whole.len() implies is_space(#[trigger] whole[i]) by {
            if i < front.len() {
                assert(whole[i] == front[i]);
            } else {
                assert(whole[i] == back[i - front.len()]);
            }
        }
        lemma_trim_start_blank(whole, Seq::empty());
        assert(whole + Seq::<char>::empty() =~= whole);
        assert(trim(whole) =~= body);
    }
}

proof fn lemma_trim_start_blank(front: Seq<char>, back: Seq<char>)
    requires
        is_blank(front),
    ensures
        trim_start(front + back) == trim_start(back),
    decreases front.len(),
{
    if front.len() == 0 {
        assert(front + back =~= back);
    } else {
        assert(is_space(front[0]));
        assert((front + back).skip(1) =~= front.skip(1) + back);
        assert forall|i: int| 0 <= i < front.skip(1).len() implies is_space(
            #[trigger] front.skip(1)[i],
        ) by {
            assert(front.skip(1)[i] == front[i + 1]);
        }
        lemma_trim_start_blank(front.skip(1), back);
    }
}

proof fn lemma_trim_end_blank(front: Seq<char>, back: Seq<char>)
    requires
        is_blank(back),
        front.len() > 0,
        !is_space(front.last()),
    ensures
        trim_end(front + back) == front,
    decreases back.len(),
{
    if back.len() == 0 {
        assert(front + back =~= front);
    } else {
        assert(is_space(back[back.len() - 1]));
        assert((front + back).drop_last() =~= front + back.drop_last());
        assert forall|i: int| 0 <= i < back.drop_last().len() implies is_space(
            #[trigger] back.drop_last()[i],
        ) by {
            assert(back.drop_last()[i] == back[i]);
        }
        lemma_trim_end_blank(front, back.drop_last());
    }
}

/// The lines of a text around a line feed are those of the two sides, and
/// neither the line feed nor a carriage return before it belongs to them.
pub proof fn line_feeds_separate_lines(line: Seq<char>, back: Seq<char>)
    requires
        !line.contains('\n'),
        line.len() > 0 ==> line.last() != '\r',
    ensures
        lines(line + seq!['\n'] + back) == seq![line] + lines(back),
        lines(line + seq!['\r', '\n'] + back) == seq![line] + lines(back),
        line.len() > 0 ==> lines(line) == seq![line],
        lines(Seq::empty()).len() == 0,
{
    lemma_lines_of_sum(line, back);
    find_char_is_first(line, '\n');
    let full = line + seq!['\r', '\n'] + back;
    let at = line.len() as int + 1;
    find_char_is_first(full, '\n');
    assert(full[at] == '\n');
    assert forall|j: int| 0 <= j < at implies full[j] != '\n' by {
        if j < line.len() {
            assert(full[j] == line[j]);
        }
    }
    assert(find_char(full, '\n') == Some(at));
    assert(full.take(at) =~= line.push('\r'));
    assert(line.push('\r').drop_last() =~= line);
    assert(full.skip(at + 1) =~= back);
}

/// A text that is longer than the bound is cut to exactly the bound.
pub proof fn truncation_cuts_to_the_bound(text: Seq<char>, max_chars: nat)
    requires
        text.len() > max_chars,
    ensures
        truncated(text, max_chars).len() == max_chars,
        forall|i: int| 0 <= i < max_chars ==> truncated(text, max_chars)[i] == text[i],
{
}

/// Replacing leaves a text without the pattern as it is, and otherwise puts
/// the other text in place of the first pattern and goes on behind it.
pub proof fn replacing_goes_from_left_to_right(
    front: Seq<char>,
    pattern: Seq<char>,
    back: Seq<char>,
    other: Seq<char>,
)
    requires
        pattern.len() > 0,
        forall|i: int|
            0 <= i < front.len() ==> !#[trigger] occurs_at(front + pattern + back, pattern, i),
    ensures
        replaced(front + pattern + back, pattern, other) == front + other + replaced(
            back,
            pattern,
            other,
        ),
        !self::has(front, pattern) ==> replaced(front, pattern, other) == front,
    decreases front.len(),
{
    let whole = front + pattern + back;
    if !self::has(front, pattern) {
        lemma_nothing_to_replace(front, pattern, other);
    }
    if front.len() == 0 {
        assert(whole.subrange(0, pattern.len() as int) =~= pattern);
        assert(whole.skip(pattern.len() as int) =~= back);
        assert(front + other + replaced(back, pattern, other) =~= other + replaced(
            back,
            pattern,
            other,
        ));
    } else {
        let rest = front.skip(1);
        assert(whole.skip(1) =~= rest + pattern + back);
        assert forall|i: int| 0 <= i < rest.len() implies !#[trigger] occurs_at(
            rest + pattern + back,
            pattern,
            i,
        ) by {
            let part = rest + pattern + back;
            if occurs_at(part, pattern, i) {
                assert(whole.subrange(i + 1, i + 1 + pattern.len()) =~= part.subrange(
                    i,
                    i + pattern.len(),
                ));
                assert(occurs_at(whole, pattern, i + 1));
            }
        }
        assert(!occurs_at(whole, pattern, 0));
        replacing_goes_from_left_to_right(rest, pattern, back, other);
        assert(seq![whole[0]] + (rest + other + replaced(back, pattern, other)) =~= front + other
            + replaced(back, pattern, other));
    }
}

proof fn lemma_nothing_to_replace(text: Seq<char>, pattern: Seq<char>, other: Seq<char>)
    requires
        !self::has(text, pattern),
    ensures
        replaced(text, pattern, other) == text,
    decreases text.len(),
{
    if text.len() > 0 && pattern.len() > 0 {
        assert(!occurs_at(text, pattern, 0));
        let rest = text.skip(1);
        assert forall|at: int| !occurs_at(rest, pattern, at) by {
            if occurs_at(rest, pattern, at) {
                assert(text.subrange(at + 1, at + 1 + pattern.len()) =~= rest.subrange(
                    at,
                    at + pattern.len(),
                ));
                assert(occurs_at(text, pattern, at + 1));
            }
        }
        lemma_nothing_to_replace(rest, pattern, other);
        assert(seq![text[0]] + rest =~= text);
    }
}

/// Folding a text changes its capital ASCII letters only, each to the letter
/// 32 codes further.
pub proof fn folding_changes_capitals(source: Seq<char>, i: int)
    requires
        0 <= i < source.len(),
    ensures
        folded(source).len() == source.len(),
        ('A' <= source[i] && source[i] <= 'Z') ==> folded(source)[i] as u32 == source[i] as u32
            + 32,
        !('A' <= source[i] && source[i] <= 'Z') ==> folded(source)[i] == source[i],
{
}

/// The decimal notation of a natural number is made of digits, without a zero
/// in front, and denotes the number.
pub proof fn decimals_denote_their_number(n: nat)
    ensures
        decimal(n).len() > 0,
        all_digits(decimal(n)),
        digits_value(decimal(n)) == n,
        n > 0 ==> decimal(n)[0] != '0',
    decreases n,
{
    let rest = decimal(n / 10);
    if n < 10 {
        assert(decimal(n) =~= seq![digit_char(n)]);
        assert(decimal(n).drop_last() =~= Seq::<char>::empty());
        assert(digits_value(Seq::<char>::empty()) == 0);
    } else {
        decimals_denote_their_number(n / 10);
        assert(decimal(n) == rest.push(digit_char(n % 10)));
        assert(rest.push(digit_char(n % 10)).drop_last() =~= rest);
        assert forall|i: int| 0 <= i < decimal(n).len() implies is_digit(
            #[trigger] decimal(n)[i],
        ) by {
            if i < rest.len() {
                assert(decimal(n)[i] == rest[i]);
            }
        }
    }
}

/// The decimal notation of a 32-bit integer is read as that integer, with a
/// plus sign in front as without.
pub proof fn integers_are_read_back(n: int)
    requires
        i32::MIN <= n <= i32::MAX,
    ensures
        integer(signed_decimal(n)) == Some(n),
        n >= 0 ==> integer(seq!['+'] + signed_decimal(n)) == Some(n),
{
    let size = if n < 0 {
        (-n) as nat
    } else {
        n as nat
    };
    decimals_denote_their_number(size);
    let digits = decimal(size);
    assert((seq!['-'] + digits).skip(1) =~= digits);
    assert((seq!['+'] + digits).skip(1) =~= digits);
    assert(is_digit(digits[0]));
}

/// A text that denotes no 32-bit integer is read as none: one with another
/// character than digits behind an optional sign, one without digits, and one
/// whose number is out of range.
pub proof fn other_texts_are_no_integer(text: Seq<char>, i: int, n: int)
    ensures
        1 <= i < text.len() && !is_digit(text[i]) ==> integer(text) is None,
        text.len() > 0 && !is_digit(text[0]) && text[0] != '-' && text[0] != '+' ==> integer(text)
            is None,
        integer(Seq::empty()) is None,
        integer(seq!['-']) is None,
        integer(seq!['+']) is None,
        n < i32::MIN || n > i32::MAX ==> integer(signed_decimal(n)) is None,
{
    let signed = text.len() > 0 && (text[0] == '-' || text[0] == '+');
    if 1 <= i < text.len() && !is_digit(text[i]) {
        if signed {
            assert(text.skip(1)[i - 1] == text[i]);
        }
    }
    if n < i32::MIN || n > i32::MAX {
        let size = if n < 0 {
            (-n) as nat
        } else {
            n as nat
        };
        decimals_denote_their_number(size);
        let digits = decimal(size);
        assert((seq!['-'] + digits).skip(1) =~= digits);
        assert(is_digit(digits[0]));
    }
}

/// Joining puts the separator between each two items, and nowhere else.
pub proof fn separators_stand_between_items(
    front: Seq<Seq<char>>,
    back: Seq<Seq<char>>,
    item: Seq<char>,
    separator: Seq<char>,
)
    requires
        front.len() > 0,
        back.len() > 0,
    ensures
        joined(front + back, separator) == joined(front, separator) + separator + joined(
            back,
            separator,
        ),
        joined(seq![item], separator) == item,
        joined(Seq::empty(), separator).len() == 0,
    decreases back.len(),
{
    assert((front + back).drop_last() =~= front + back.drop_last());
    assert((front + back).last() == back.last());
    if back.len() == 1 {
        assert(front + back.drop_last() =~= front);
    } else {
        separators_stand_between_items(front, back.drop_last(), item, separator);
        assert(joined(front + back, separator) =~= joined(front, separator) + separator + joined(
            back,
            separator,
        ));
    }
}

/// The digits are the ten characters from code 48 on, and they and the two
/// times 26 letters from codes 65 and 97 on make up words.
pub proof fn words_are_made_of_letters_and_digits(ch: char)
    ensures
        ({
            let code = ch as int;
            &&& is_digit(ch) <==> 48 <= code < 48 + 10
            &&& is_alnum(ch) <==> 48 <= code < 48 + 10 || 65 <= code < 65 + 26 || 97 <= code < 97
                + 26
        }),
{
}

} // verus!
