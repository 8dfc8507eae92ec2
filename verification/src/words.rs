//! Words of a text, and the numbers that they spell.
//!
//! A number is a 32-bit integer. Where the arithmetic of number words leaves
//! that range, a reading is `Overflow`; the functions that return an `Option`
//! ask for texts on which it does not.
use crate::text;
use vstd::prelude::*;
use vstd::slice::slice_subrange;

verus! {

/// The outcome of reading a number.
#[derive(Clone, Copy, Debug, PartialEq, Eq, Structural)]
pub enum Reading {
    /// The number.
    Value(i32),
    /// There is no number.
    Missing,
    /// The number, or a part of it, is no 32-bit integer.
    Overflow,
}

impl Reading {
    /// The number, where there is one.
    pub open spec fn value(self) -> Option<i32> {
        match self {
            Reading::Value(n) => Some(n),
            _ => None,
        }
    }

    /// This reading, or another one where there is no number.
    pub open spec fn or(self, other: Reading) -> Reading {
        match self {
            Reading::Missing => other,
            _ => self,
        }
    }

    /// The number, where there is one.
    pub fn into_option(self) -> (r: Option<i32>)
        ensures
            r == self.value(),
    {
        match self {
            Reading::Value(n) => Some(n),
            _ => None,
        }
    }
}

/// Whether a number is a 32-bit integer.
pub open spec fn fits(n: int) -> bool {
    i32::MIN <= n <= i32::MAX
}

/// A number as a reading.
pub open spec fn reading_of(n: int) -> Reading {
    if fits(n) {
        Reading::Value(n as i32)
    } else {
        Reading::Overflow
    }
}

// ── Splitting into words ────────────────────────────────────────────────

/// The number of ASCII letters and digits at the start of a text.
pub open spec fn word_run(source: Seq<char>) -> nat
    decreases source.len(),
{
    if source.len() > 0 && text::is_alnum(source[0]) {
        1 + word_run(source.skip(1))
    } else {
        0
    }
}

/// The words of a text: its longest runs of ASCII letters and digits.
pub open spec fn words(source: Seq<char>) -> Seq<Seq<char>>
    decreases source.len(),
    via words_shrink
{
    if source.len() == 0 {
        Seq::empty()
    } else if !text::is_alnum(source[0]) {
        words(source.skip(1))
    } else {
        seq![source.take(word_run(source) as int)] + words(source.skip(word_run(source) as int))
    }
}

#[via_fn]
proof fn words_shrink(source: Seq<char>) {
    lemma_word_run(source);
}

proof fn lemma_word_run(source: Seq<char>)
    ensures
        word_run(source) <= source.len(),
        forall|i: int| 0 <= i < word_run(source) ==> text::is_alnum(#[trigger] source[i]),
        word_run(source) < source.len() ==> !text::is_alnum(source[word_run(source) as int]),
    decreases source.len(),
{
    if source.len() > 0 && text::is_alnum(source[0]) {
        let rest = source.skip(1);
        lemma_word_run(rest);
        assert forall|i: int| 0 <= i < word_run(source) implies text::is_alnum(
            #[trigger] source[i],
        ) by {
            if i > 0 {
                assert(source[i] == rest[i - 1]);
            }
        }
    }
}

/// The number of ASCII letters and digits from a position on.
fn word_end(source: &[char], start: usize) -> (end: usize)
    requires
        start <= source@.len(),
    ensures
        start <= end <= source@.len(),
        end == start + word_run(source@.skip(start as int)),
{
    let mut end: usize = start;
    while end < source.len() && text::alnum(source[end])
        invariant
            start <= end <= source@.len(),
            start + word_run(source@.skip(start as int)) == end + word_run(
                source@.skip(end as int),
            ),
        decreases source@.len() - end,
    {
        assert(source@.skip(end as int).skip(1) =~= source@.skip(end + 1));
        end = end + 1;
    }
    end
}

/// Splits a text into its words. Everything but an ASCII letter or digit
/// separates words, so `ninety-four` is two of them.
pub fn challenge_tokens(source: &str) -> (tokens: Vec<String>)
    ensures
        text::strings(tokens@) == words(source@),
{
    let chars = text::chars_of(source);
    let all: &[char] = chars.as_slice();
    let mut out: Vec<String> = Vec::new();
    let mut i: usize = 0;
    assert(all@.skip(0) =~= source@);
    assert(text::strings(out@) + words(all@.skip(0)) =~= words(source@));
    while i < all.len()
        invariant
            i <= all@.len(),
            text::strings(out@) + words(all@.skip(i as int)) == words(source@),
        decreases all@.len() - i,
    {
        let ghost rest = all@.skip(i as int);
        if text::alnum(all[i]) {
            let end: usize = word_end(all, i);
            let ghost before = out@;
            let word = text::string_of(slice_subrange(all, i, end));
            proof {
                assert(word@ =~= rest.take(word_run(rest) as int));
                assert(rest.skip(word_run(rest) as int) =~= all@.skip(end as int));
            }
            out.push(word);
            assert(text::strings(out@) =~= text::strings(before) + seq![word@]);
            assert(text::strings(before) + (seq![word@] + words(all@.skip(end as int)))
                =~= text::strings(out@) + words(all@.skip(end as int)));
            i = end;
        } else {
            assert(rest.skip(1) =~= all@.skip(i + 1));
            i = i + 1;
        }
    }
    assert(words(all@.skip(i as int)) =~= Seq::<Seq<char>>::empty());
    assert(text::strings(out@) + Seq::<Seq<char>>::empty() =~= text::strings(out@));
    out
}

/// Every word is made of ASCII letters and digits, and is not empty.
pub proof fn words_are_alphanumeric(source: Seq<char>)
    ensures
        forall|i: int, j: int|
            0 <= i < words(source).len() && 0 <= j < words(source)[i].len() ==> text::is_alnum(
                #[trigger] words(source)[i][j],
            ),
        forall|i: int| 0 <= i < words(source).len() ==> (#[trigger] words(source)[i]).len() > 0,
    decreases source.len(),
{
    if source.len() == 0 {
        assert(words(source) == Seq::<Seq<char>>::empty());
    } else {
        lemma_word_run(source);
        if !text::is_alnum(source[0]) {
            words_are_alphanumeric(source.skip(1));
            assert(words(source) == words(source.skip(1)));
        } else {
            let n = word_run(source) as int;
            words_are_alphanumeric(source.skip(n));
            assert(words(source) == seq![source.take(n)] + words(source.skip(n)));
            assert forall|i: int, j: int|
                0 <= i < words(source).len() && 0 <= j < words(
                    source,
                )[i].len() implies text::is_alnum(#[trigger] words(source)[i][j]) by {
                if i > 0 {
                    assert(words(source)[i] == words(source.skip(n))[i - 1]);
                    assert(text::is_alnum(words(source.skip(n))[i - 1][j]));
                } else {
                    assert(words(source)[0] == source.take(n));
                }
            }
            assert forall|i: int| 0 <= i < words(source).len() implies (#[trigger] words(
                source,
            )[i]).len() > 0 by {
                if i > 0 {
                    assert(words(source)[i] == words(source.skip(n))[i - 1]);
                }
            }
        }
    }
}

// ── Number words ────────────────────────────────────────────────────────

/// The number that a word stands for.
pub open spec fn word_value(token: Seq<char>) -> Option<i32> {
    if token == "zero"@ {
        Some(0)
    } else if token == "one"@ {
        Some(1)
    } else if token == "two"@ {
        Some(2)
    } else if token == "three"@ {
        Some(3)
    } else if token == "four"@ {
        Some(4)
    } else if token == "five"@ {
        Some(5)
    } else if token == "six"@ {
        Some(6)
    } else if token == "seven"@ {
        Some(7)
    } else if token == "eight"@ {
        Some(8)
    } else if token == "nine"@ {
        Some(9)
    } else if token == "ten"@ {
        Some(10)
    } else if token == "eleven"@ {
        Some(11)
    } else if token == "twelve"@ {
        Some(12)
    } else if token == "thirteen"@ {
        Some(13)
    } else if token == "fourteen"@ {
        Some(14)
    } else if token == "fifteen"@ {
        Some(15)
    } else if token == "sixteen"@ {
        Some(16)
    } else if token == "seventeen"@ {
        Some(17)
    } else if token == "eighteen"@ {
        Some(18)
    } else if token == "nineteen"@ {
        Some(19)
    } else if token == "twenty"@ {
        Some(20)
    } else if token == "thirty"@ {
        Some(30)
    } else if token == "forty"@ {
        Some(40)
    } else if token == "fifty"@ {
        Some(50)
    } else if token == "sixty"@ {
        Some(60)
    } else if token == "seventy"@ {
        Some(70)
    } else if token == "eighty"@ {
        Some(80)
    } else if token == "ninety"@ {
        Some(90)
    } else if token == "hundred"@ {
        Some(100)
    } else if token == "thousand"@ {
        Some(1000)
    } else {
        None
    }
}

/// The number that a word stands for.
pub fn number_word_value(token: &str) -> (r: Option<i32>)
    ensures
        r == word_value(token@),
{
    if text::same(token, "zero") {
        Some(0)
    } else if text::same(token, "one") {
        Some(1)
    } else if text::same(token, "two") {
        Some(2)
    } else if text::same(token, "three") {
        Some(3)
    } else if text::same(token, "four") {
        Some(4)
    } else if text::same(token, "five") {
        Some(5)
    } else if text::same(token, "six") {
        Some(6)
    } else if text::same(token, "seven") {
        Some(7)
    } else if text::same(token, "eight") {
        Some(8)
    } else if text::same(token, "nine") {
        Some(9)
    } else if text::same(token, "ten") {
        Some(10)
    } else if text::same(token, "eleven") {
        Some(11)
    } else if text::same(token, "twelve") {
        Some(12)
    } else if text::same(token, "thirteen") {
        Some(13)
    } else if text::same(token, "fourteen") {
        Some(14)
    } else if text::same(token, "fifteen") {
        Some(15)
    } else if text::same(token, "sixteen") {
        Some(16)
    } else if text::same(token, "seventeen") {
        Some(17)
    } else if text::same(token, "eighteen") {
        Some(18)
    } else if text::same(token, "nineteen") {
        Some(19)
    } else if text::same(token, "twenty") {
        Some(20)
    } else if text::same(token, "thirty") {
        Some(30)
    } else if text::same(token, "forty") {
        Some(40)
    } else if text::same(token, "fifty") {
        Some(50)
    } else if text::same(token, "sixty") {
        Some(60)
    } else if text::same(token, "seventy") {
        Some(70)
    } else if text::same(token, "eighty") {
        Some(80)
    } else if text::same(token, "ninety") {
        Some(90)
    } else if text::same(token, "hundred") {
        Some(100)
    } else if text::same(token, "thousand") {
        Some(1000)
    } else {
        None
    }
}

/// No number word stands for a negative number, or for more than a thousand.
pub proof fn word_values_are_small(token: Seq<char>)
    ensures
        word_value(token) matches Some(v) ==> 0 <= v <= 1000,
{
}

/// Whether a word is a number: a decimal integer or a number word.
pub open spec fn is_number(token: Seq<char>) -> bool {
    text::integer(token) is Some || word_value(token) is Some
}

/// Whether a word is a number: a decimal integer or a number word.
pub fn is_number_token(tok: &str) -> (r: bool)
    ensures
        r == is_number(tok@),
{
    let chars = text::chars_of(tok);
    text::parse_integer(chars.as_slice()).is_some() || number_word_value(tok).is_some()
}

/// Whether a word belongs to a spelled number: a number or `and`.
pub open spec fn is_number_part(token: Seq<char>) -> bool {
    is_number(token) || token == "and"@
}

fn number_part(tok: &str) -> (r: bool)
    ensures
        r == is_number_part(tok@),
{
    is_number_token(tok) || text::same(tok, "and")
}

/// The sum of a spelled number so far.
pub enum Tally {
    /// Thousands, what comes after them, and whether a number word was seen.
    Running(int, int, bool),
    /// A word was no number word.
    Broken,
    /// A sum or a product was no 32-bit integer.
    Overflow,
}

/// The larger of a number and one.
pub open spec fn at_least_one(n: int) -> int {
    if n > 1 {
        n
    } else {
        1
    }
}

/// The tally after one more number word.
pub open spec fn tally_word(total: int, current: int, value: int) -> Tally {
    if value == 100 {
        if fits(at_least_one(current) * 100) {
            Tally::Running(total, at_least_one(current) * 100, true)
        } else {
            Tally::Overflow
        }
    } else if value == 1000 {
        if fits(at_least_one(current) * 1000) && fits(total + at_least_one(current) * 1000) {
            Tally::Running(total + at_least_one(current) * 1000, 0, true)
        } else {
            Tally::Overflow
        }
    } else if fits(current + value) {
        Tally::Running(total, current + value, true)
    } else {
        Tally::Overflow
    }
}

/// The tally of a spelled number: `hundred` multiplies what stands before it,
/// `thousand` moves it to the thousands, every other number word adds to it,
/// and `and` is passed over.
pub open spec fn tally(tokens: Seq<Seq<char>>) -> Tally
    decreases tokens.len(),
{
    if tokens.len() == 0 {
        Tally::Running(0, 0, false)
    } else {
        match tally(tokens.drop_last()) {
            Tally::Running(total, current, seen) => if tokens.last() == "and"@ {
                Tally::Running(total, current, seen)
            } else {
                match word_value(tokens.last()) {
                    Some(value) => tally_word(total, current, value as int),
                    None => Tally::Broken,
                }
            },
            other => other,
        }
    }
}

/// The number that a list of words spells: one decimal integer, or number
/// words.
pub open spec fn spelled(tokens: Seq<Seq<char>>) -> Reading {
    if tokens.len() == 0 {
        Reading::Missing
    } else if tokens.len() == 1 && text::integer(tokens[0]) is Some {
        Reading::Value(text::integer(tokens[0])->0 as i32)
    } else {
        match tally(tokens) {
            Tally::Running(total, current, seen) => if seen {
                reading_of(total + current)
            } else {
                Reading::Missing
            },
            Tally::Broken => Reading::Missing,
            Tally::Overflow => Reading::Overflow,
        }
    }
}

proof fn lemma_tally_stops(tokens: Seq<Seq<char>>, n: int)
    requires
        0 <= n <= tokens.len(),
        !(tally(tokens.take(n)) is Running),
    ensures
        tally(tokens) == tally(tokens.take(n)),
    decreases tokens.len(),
{
    if n == tokens.len() {
        assert(tokens.take(n) =~= tokens);
    } else {
        assert(tokens.drop_last().take(n) =~= tokens.take(n));
        lemma_tally_stops(tokens.drop_last(), n);
    }
}

/// Reads the number that a list of words spells.
pub fn read_number(tokens: &[String]) -> (r: Reading)
    ensures
        r == spelled(text::strings(tokens@)),
{
    let ghost list = text::strings(tokens@);
    if tokens.len() == 0 {
        return Reading::Missing;
    }
    if tokens.len() == 1 {
        let chars = text::chars_of(tokens[0].as_str());
        match text::parse_integer(chars.as_slice()) {
            Some(n) => {
                return Reading::Value(n);
            },
            None => {},
        }
    }
    let mut total: i32 = 0;
    let mut current: i32 = 0;
    let mut seen: bool = false;
    let mut i: usize = 0;
    while i < tokens.len()
        invariant
            i <= tokens@.len(),
            list == text::strings(tokens@),
            list.len() > 0,
            !(list.len() == 1 && text::integer(list[0]) is Some),
            0 <= total,
            0 <= current,
            tally(list.take(i as int)) == Tally::Running(total as int, current as int, seen),
        decreases tokens@.len() - i,
    {
        let ghost so_far = list.take(i + 1);
        proof {
            assert(so_far.drop_last() =~= list.take(i as int));
            assert(so_far.last() == tokens@[i as int]@);
            if !(tally(so_far) is Running) {
                lemma_tally_stops(list, i + 1);
            }
        }
        let token = tokens[i].as_str();
        i = i + 1;
        if !text::same(token, "and") {
            match number_word_value(token) {
                None => {
                    return Reading::Missing;
                },
                Some(value) => {
                    seen = true;
                    let base: i32 = if current > 1 {
                        current
                    } else {
                        1
                    };
                    if value == 100 {
                        match base.checked_mul(100) {
                            Some(product) => {
                                current = product;
                            },
                            None => {
                                return Reading::Overflow;
                            },
                        }
                    } else if value == 1000 {
                        match base.checked_mul(1000) {
                            Some(product) => match total.checked_add(product) {
                                Some(sum) => {
                                    total = sum;
                                    current = 0;
                                },
                                None => {
                                    return Reading::Overflow;
                                },
                            },
                            None => {
                                return Reading::Overflow;
                            },
                        }
                    } else {
                        match current.checked_add(value) {
                            Some(sum) => {
                                current = sum;
                            },
                            None => {
                                return Reading::Overflow;
                            },
                        }
                    }
                },
            }
        }
    }
    assert(list.take(i as int) =~= list);
    if seen {
        match total.checked_add(current) {
            Some(sum) => Reading::Value(sum),
            None => Reading::Overflow,
        }
    } else {
        Reading::Missing
    }
}

/// Reads the number that a list of words spells: one decimal integer, or
/// number words such as `five hundred and eleven`.
pub fn parse_number_token_or_words(tokens: &[String]) -> (r: Option<i32>)
    requires
        !(spelled(text::strings(tokens@)) is Overflow),
    ensures
        r == spelled(text::strings(tokens@)).value(),
{
    read_number(tokens).into_option()
}

// ── Numbers beside other words ──────────────────────────────────────────

/// Whether a list of words stands at a position of another one.
pub open spec fn sequence_at(tokens: Seq<Seq<char>>, seq: Seq<Seq<char>>, at: int) -> bool {
    0 <= at && at + seq.len() <= tokens.len() && tokens.subrange(at, at + seq.len()) == seq
}

/// The first position from `from` on at which a list of words stands.
pub open spec fn sequence_from(
    tokens: Seq<Seq<char>>,
    seq: Seq<Seq<char>>,
    from: int,
) -> Option<int>
    decreases tokens.len() + 1 - from,
{
    if from + seq.len() > tokens.len() {
        None
    } else if sequence_at(tokens, seq, from) {
        Some(from)
    } else {
        sequence_from(tokens, seq, from + 1)
    }
}

/// The number of words before the first number.
pub open spec fn before_number(tokens: Seq<Seq<char>>) -> nat
    decreases tokens.len(),
{
    if tokens.len() == 0 || is_number(tokens[0]) {
        0
    } else {
        1 + before_number(tokens.skip(1))
    }
}

/// The number of words at the start that belong to a spelled number.
pub open spec fn leading_parts(tokens: Seq<Seq<char>>) -> nat
    decreases tokens.len(),
{
    if tokens.len() > 0 && is_number_part(tokens[0]) {
        1 + leading_parts(tokens.skip(1))
    } else {
        0
    }
}

/// The first number in a list of words, with all the words that spell it.
pub open spec fn first_number(tokens: Seq<Seq<char>>) -> Reading {
    let rest = tokens.skip(before_number(tokens) as int);
    if rest.len() == 0 {
        Reading::Missing
    } else {
        spelled(rest.take(leading_parts(rest) as int))
    }
}

/// The first number after the first place where a list of words stands.
pub open spec fn number_after(tokens: Seq<Seq<char>>, seq: Seq<Seq<char>>) -> Reading {
    if seq.len() == 0 {
        Reading::Missing
    } else {
        match sequence_from(tokens, seq, 0) {
            Some(at) => first_number(tokens.skip(at + seq.len())),
            None => Reading::Missing,
        }
    }
}

fn stands_at(tokens: &[String], seq: &[&str], at: usize) -> (r: bool)
    requires
        at + seq@.len() <= tokens@.len(),
    ensures
        r == sequence_at(text::strings(tokens@), text::slices(seq@), at as int),
{
    let ghost list = text::strings(tokens@);
    let ghost wanted = text::slices(seq@);
    let mut j: usize = 0;
    while j < seq.len()
        invariant
            j <= seq@.len(),
            at + seq@.len() <= tokens@.len(),
            tokens@.len() == tokens.len(),
            list == text::strings(tokens@),
            wanted == text::slices(seq@),
            forall|k: int| 0 <= k < j ==> list[at + k] == #[trigger] wanted[k],
        decreases seq@.len() - j,
    {
        if !text::same(tokens[at + j].as_str(), seq[j]) {
            assert(list.subrange(at as int, at + wanted.len())[j as int] != wanted[j as int]);
            return false;
        }
        j = j + 1;
    }
    assert(list.subrange(at as int, at + wanted.len()) =~= wanted);
    true
}

fn read_first_number(tokens: &[String]) -> (r: Reading)
    ensures
        r == first_number(text::strings(tokens@)),
{
    let ghost list = text::strings(tokens@);
    let mut start: usize = 0;
    assert(list.skip(0) =~= list);
    while start < tokens.len() && !is_number_token(tokens[start].as_str())
        invariant
            start <= tokens@.len(),
            list == text::strings(tokens@),
            before_number(list) == start + before_number(list.skip(start as int)),
        decreases tokens@.len() - start,
    {
        assert(list.skip(start as int)[0] == tokens@[start as int]@);
        assert(list.skip(start as int).skip(1) =~= list.skip(start + 1));
        start = start + 1;
    }
    let ghost rest = list.skip(start as int);
    proof {
        if start < tokens@.len() {
            assert(rest[0] == tokens@[start as int]@);
        }
        assert(before_number(list) == start);
    }
    if start == tokens.len() {
        return Reading::Missing;
    }
    let mut end: usize = start;
    while end < tokens.len() && number_part(tokens[end].as_str())
        invariant
            start <= end <= tokens@.len(),
            list == text::strings(tokens@),
            rest == list.skip(start as int),
            leading_parts(rest) == (end - start) + leading_parts(list.skip(end as int)),
        decreases tokens@.len() - end,
    {
        assert(list.skip(end as int)[0] == tokens@[end as int]@);
        assert(list.skip(end as int).skip(1) =~= list.skip(end + 1));
        end = end + 1;
    }
    proof {
        if end < tokens@.len() {
            assert(list.skip(end as int)[0] == tokens@[end as int]@);
        }
        assert(leading_parts(rest) == end - start);
    }
    let part = slice_subrange(tokens, start, end);
    assert(text::strings(part@) =~= rest.take(end - start));
    read_number(part)
}

/// Reads the first number after the first place where a list of words stands.
pub fn read_number_after(tokens: &[String], seq: &[&str]) -> (r: Reading)
    ensures
        r == number_after(text::strings(tokens@), text::slices(seq@)),
{
    let ghost list = text::strings(tokens@);
    let ghost wanted = text::slices(seq@);
    if seq.len() == 0 || tokens.len() < seq.len() {
        return Reading::Missing;
    }
    let mut i: usize = 0;
    while i <= tokens.len() - seq.len()
        invariant
            0 < seq@.len() <= tokens@.len(),
            i + seq@.len() <= tokens@.len() + 1,
            tokens@.len() == tokens.len(),
            list == text::strings(tokens@),
            wanted == text::slices(seq@),
            sequence_from(list, wanted, 0) == sequence_from(list, wanted, i as int),
        decreases tokens@.len() + 1 - i,
    {
        if stands_at(tokens, seq, i) {
            let rest = slice_subrange(tokens, i + seq.len(), tokens.len());
            assert(text::strings(rest@) =~= list.skip(i + seq@.len()));
            return read_first_number(rest);
        }
        i = i + 1;
    }
    Reading::Missing
}

/// The first number after the first place where a list of words stands, with
/// all the words that spell it: after `began at`, the words
/// `five hundred eleven` are read as one number.
pub fn first_number_after_sequence(tokens: &[String], seq: &[&str]) -> (r: Option<i32>)
    requires
        !(number_after(text::strings(tokens@), text::slices(seq@)) is Overflow),
    ensures
        r == number_after(text::strings(tokens@), text::slices(seq@)).value(),
{
    read_number_after(tokens, seq).into_option()
}

/// The words up to the last number, with the number.
pub open spec fn up_to_number(tokens: Seq<Seq<char>>) -> Seq<Seq<char>>
    decreases tokens.len(),
{
    if tokens.len() == 0 || is_number(tokens.last()) {
        tokens
    } else {
        up_to_number(tokens.drop_last())
    }
}

/// The number of words at the end that belong to a spelled number.
pub open spec fn trailing_parts(tokens: Seq<Seq<char>>) -> nat
    decreases tokens.len(),
{
    if tokens.len() > 0 && is_number_part(tokens.last()) {
        1 + trailing_parts(tokens.drop_last())
    } else {
        0
    }
}

/// The last number in a list of words, with all the words that spell it.
pub open spec fn last_number(tokens: Seq<Seq<char>>) -> Reading {
    let head = up_to_number(tokens);
    if head.len() == 0 {
        Reading::Missing
    } else {
        spelled(head.skip(head.len() - trailing_parts(head)))
    }
}

/// The position of the first word that is the keyword, from `from` on.
pub open spec fn keyword_from(
    tokens: Seq<Seq<char>>,
    keyword: Seq<char>,
    from: int,
) -> Option<int>
    decreases tokens.len() - from,
{
    if from >= tokens.len() {
        None
    } else if tokens[from] == keyword {
        Some(from)
    } else {
        keyword_from(tokens, keyword, from + 1)
    }
}

/// The last number before the first place where a keyword stands.
pub open spec fn number_before(tokens: Seq<Seq<char>>, keyword: Seq<char>) -> Reading {
    match keyword_from(tokens, keyword, 0) {
        Some(at) => last_number(tokens.take(at)),
        None => Reading::Missing,
    }
}

fn read_last_number(tokens: &[String]) -> (r: Reading)
    ensures
        r == last_number(text::strings(tokens@)),
{
    let ghost list = text::strings(tokens@);
    let mut end: usize = tokens.len();
    assert(list.take(end as int) =~= list);
    while end > 0 && !is_number_token(tokens[end - 1].as_str())
        invariant
            end <= tokens@.len(),
            list == text::strings(tokens@),
            up_to_number(list) == up_to_number(list.take(end as int)),
        decreases end,
    {
        assert(list.take(end as int).last() == tokens@[end - 1]@);
        assert(list.take(end as int).drop_last() =~= list.take(end - 1));
        end = end - 1;
    }
    let ghost head = list.take(end as int);
    proof {
        if end > 0 {
            assert(head.last() == tokens@[end - 1]@);
        }
        assert(up_to_number(list) == head);
    }
    if end == 0 {
        return Reading::Missing;
    }
    let mut start: usize = end;
    assert(list.take(start as int) =~= head);
    while start > 0 && number_part(tokens[start - 1].as_str())
        invariant
            start <= end <= tokens@.len(),
            list == text::strings(tokens@),
            head == list.take(end as int),
            trailing_parts(head) == (end - start) + trailing_parts(list.take(start as int)),
        decreases start,
    {
        assert(list.take(start as int).last() == tokens@[start - 1]@);
        assert(list.take(start as int).drop_last() =~= list.take(start - 1));
        start = start - 1;
    }
    proof {
        if start > 0 {
            assert(list.take(start as int).last() == tokens@[start - 1]@);
        }
        assert(trailing_parts(head) == end - start);
    }
    let part = slice_subrange(tokens, start, end);
    assert(text::strings(part@) =~= head.skip(head.len() - trailing_parts(head)));
    read_number(part)
}

/// Reads the last number before the first place where a keyword stands.
pub fn read_number_before(tokens: &[String], keyword: &str) -> (r: Reading)
    ensures
        r == number_before(text::strings(tokens@), keyword@),
{
    let ghost list = text::strings(tokens@);
    let mut i: usize = 0;
    while i < tokens.len()
        invariant
            i <= tokens@.len(),
            list == text::strings(tokens@),
            keyword_from(list, keyword@, 0) == keyword_from(list, keyword@, i as int),
        decreases tokens@.len() - i,
    {
        if text::same(tokens[i].as_str(), keyword) {
            let before = slice_subrange(tokens, 0, i);
            assert(text::strings(before@) =~= list.take(i as int));
            return read_last_number(before);
        }
        i = i + 1;
    }
    Reading::Missing
}

/// The last number before the first place where a keyword stands, with all the
/// words that spell it: before `sold`, the words `ninety four` are read as one
/// number.
pub fn last_number_before_token(tokens: &[String], keyword: &str) -> (r: Option<i32>)
    requires
        !(number_before(text::strings(tokens@), keyword@) is Overflow),
    ensures
        r == number_before(text::strings(tokens@), keyword@).value(),
{
    read_number_before(tokens, keyword).into_option()
}

// ── Numbers written out ─────────────────────────────────────────────────

/// The English words for the numbers from zero to nineteen.
pub open spec fn small_names() -> Seq<Seq<char>> {
    seq![
        "zero"@,
        "one"@,
        "two"@,
        "three"@,
        "four"@,
        "five"@,
        "six"@,
        "seven"@,
        "eight"@,
        "nine"@,
        "ten"@,
        "eleven"@,
        "twelve"@,
        "thirteen"@,
        "fourteen"@,
        "fifteen"@,
        "sixteen"@,
        "seventeen"@,
        "eighteen"@,
        "nineteen"@,
    ]
}

/// The English words for twenty, thirty and so on up to ninety.
pub open spec fn tens_names() -> Seq<Seq<char>> {
    seq![
        "twenty"@,
        "thirty"@,
        "forty"@,
        "fifty"@,
        "sixty"@,
        "seventy"@,
        "eighty"@,
        "ninety"@,
    ]
}

/// A number below one hundred in English words.
pub open spec fn english_tens(n: nat) -> Seq<Seq<char>> {
    if n < 20 {
        seq![small_names()[n as int]]
    } else if n % 10 == 0 {
        seq![tens_names()[n / 10 - 2]]
    } else {
        seq![tens_names()[n / 10 - 2], small_names()[(n % 10) as int]]
    }
}

/// A number below one thousand in English words.
pub open spec fn english_hundreds(n: nat) -> Seq<Seq<char>> {
    if n < 100 {
        english_tens(n)
    } else if n % 100 == 0 {
        seq![small_names()[(n / 100) as int], "hundred"@]
    } else {
        seq![small_names()[(n / 100) as int], "hundred"@] + english_tens(n % 100)
    }
}

/// A number below one million in English words.
pub open spec fn english(n: nat) -> Seq<Seq<char>> {
    if n < 1000 {
        english_hundreds(n)
    } else if n % 1000 == 0 {
        english_hundreds(n / 1000).push("thousand"@)
    } else {
        english_hundreds(n / 1000).push("thousand"@) + english_hundreds(n % 1000)
    }
}

proof fn lemma_literals()
    ensures
        "zero"@.len() == 4 && "zero"@[0] == 'z',
        "one"@.len() == 3 && "one"@[0] == 'o',
        "two"@.len() == 3 && "two"@[0] == 't',
        "three"@.len() == 5 && "three"@[0] == 't',
        "four"@.len() == 4 && "four"@[0] == 'f',
        "five"@.len() == 4 && "five"@[0] == 'f',
        "six"@.len() == 3 && "six"@[0] == 's',
        "seven"@.len() == 5 && "seven"@[0] == 's',
        "eight"@.len() == 5 && "eight"@[0] == 'e',
        "nine"@.len() == 4 && "nine"@[0] == 'n',
        "ten"@.len() == 3 && "ten"@[0] == 't',
        "eleven"@.len() == 6 && "eleven"@[0] == 'e',
        "twelve"@.len() == 6 && "twelve"@[0] == 't',
        "thirteen"@.len() == 8 && "thirteen"@[0] == 't',
        "fourteen"@.len() == 8 && "fourteen"@[0] == 'f',
        "fifteen"@.len() == 7 && "fifteen"@[0] == 'f',
        "sixteen"@.len() == 7 && "sixteen"@[0] == 's',
        "seventeen"@.len() == 9 && "seventeen"@[0] == 's',
        "eighteen"@.len() == 8 && "eighteen"@[0] == 'e',
        "nineteen"@.len() == 8 && "nineteen"@[0] == 'n',
        "twenty"@.len() == 6 && "twenty"@[0] == 't',
        "thirty"@.len() == 6 && "thirty"@[0] == 't',
        "forty"@.len() == 5 && "forty"@[0] == 'f',
        "fifty"@.len() == 5 && "fifty"@[0] == 'f',
        "sixty"@.len() == 5 && "sixty"@[0] == 's',
        "seventy"@.len() == 7 && "seventy"@[0] == 's',
        "eighty"@.len() == 6 && "eighty"@[0] == 'e',
        "ninety"@.len() == 6 && "ninety"@[0] == 'n',
        "hundred"@.len() == 7 && "hundred"@[0] == 'h',
        "thousand"@.len() == 8 && "thousand"@[0] == 't',
        "and"@.len() == 3 && "and"@[0] == 'a',
        "two"@ != "one"@,
        "four"@ != "zero"@,
        "five"@ != "zero"@,
        "five"@ != "four"@,
        "six"@ != "one"@,
        "six"@ != "two"@,
        "seven"@ != "three"@,
        "eight"@ != "three"@,
        "eight"@ != "seven"@,
        "nine"@ != "zero"@,
        "nine"@ != "four"@,
        "nine"@ != "five"@,
        "ten"@ != "one"@,
        "ten"@ != "two"@,
        "ten"@ != "six"@,
        "twelve"@ != "eleven"@,
        "fourteen"@ != "thirteen"@,
        "sixteen"@ != "fifteen"@,
        "eighteen"@ != "thirteen"@,
        "eighteen"@ != "fourteen"@,
        "nineteen"@ != "thirteen"@,
        "nineteen"@ != "fourteen"@,
        "nineteen"@ != "eighteen"@,
        "twenty"@ != "eleven"@,
        "twenty"@ != "twelve"@,
        "thirty"@ != "eleven"@,
        "thirty"@ != "twelve"@,
        "thirty"@ != "twenty"@,
        "forty"@ != "three"@,
        "forty"@ != "seven"@,
        "forty"@ != "eight"@,
        "fifty"@ != "three"@,
        "fifty"@ != "seven"@,
        "fifty"@ != "eight"@,
        "fifty"@ != "forty"@,
        "sixty"@ != "three"@,
        "sixty"@ != "seven"@,
        "sixty"@ != "eight"@,
        "sixty"@ != "forty"@,
        "sixty"@ != "fifty"@,
        "seventy"@ != "fifteen"@,
        "seventy"@ != "sixteen"@,
        "eighty"@ != "eleven"@,
        "eighty"@ != "twelve"@,
        "eighty"@ != "twenty"@,
        "eighty"@ != "thirty"@,
        "ninety"@ != "eleven"@,
        "ninety"@ != "twelve"@,
        "ninety"@ != "twenty"@,
        "ninety"@ != "thirty"@,
        "ninety"@ != "eighty"@,
        "hundred"@ != "fifteen"@,
        "hundred"@ != "sixteen"@,
        "hundred"@ != "seventy"@,
        "thousand"@ != "thirteen"@,
        "thousand"@ != "fourteen"@,
        "thousand"@ != "eighteen"@,
        "thousand"@ != "nineteen"@,
        "and"@ != "one"@,
        "and"@ != "two"@,
        "and"@ != "six"@,
        "and"@ != "ten"@,
{
    reveal_strlit("zero");
    reveal_strlit("one");
    reveal_strlit("two");
    reveal_strlit("three");
    reveal_strlit("four");
    reveal_strlit("five");
    reveal_strlit("six");
    reveal_strlit("seven");
    reveal_strlit("eight");
    reveal_strlit("nine");
    reveal_strlit("ten");
    reveal_strlit("eleven");
    reveal_strlit("twelve");
    reveal_strlit("thirteen");
    reveal_strlit("fourteen");
    reveal_strlit("fifteen");
    reveal_strlit("sixteen");
    reveal_strlit("seventeen");
    reveal_strlit("eighteen");
    reveal_strlit("nineteen");
    reveal_strlit("twenty");
    reveal_strlit("thirty");
    reveal_strlit("forty");
    reveal_strlit("fifty");
    reveal_strlit("sixty");
    reveal_strlit("seventy");
    reveal_strlit("eighty");
    reveal_strlit("ninety");
    reveal_strlit("hundred");
    reveal_strlit("thousand");
    reveal_strlit("and");
    assert("two"@[0] == 't' && "one"@[0] == 'o');
    assert("four"@[0] == 'f' && "zero"@[0] == 'z');
    assert("five"@[0] == 'f' && "zero"@[0] == 'z');
    assert("five"@[1] == 'i' && "four"@[1] == 'o');
    assert("six"@[0] == 's' && "one"@[0] == 'o');
    assert("six"@[0] == 's' && "two"@[0] == 't');
    assert("seven"@[0] == 's' && "three"@[0] == 't');
    assert("eight"@[0] == 'e' && "three"@[0] == 't');
    assert("eight"@[0] == 'e' && "seven"@[0] == 's');
    assert("nine"@[0] == 'n' && "zero"@[0] == 'z');
    assert("nine"@[0] == 'n' && "four"@[0] == 'f');
    assert("nine"@[0] == 'n' && "five"@[0] == 'f');
    assert("ten"@[0] == 't' && "one"@[0] == 'o');
    assert("ten"@[1] == 'e' && "two"@[1] == 'w');
    assert("ten"@[0] == 't' && "six"@[0] == 's');
    assert("twelve"@[0] == 't' && "eleven"@[0] == 'e');
    assert("fourteen"@[0] == 'f' && "thirteen"@[0] == 't');
    assert("sixteen"@[0] == 's' && "fifteen"@[0] == 'f');
    assert("eighteen"@[0] == 'e' && "thirteen"@[0] == 't');
    assert("eighteen"@[0] == 'e' && "fourteen"@[0] == 'f');
    assert("nineteen"@[0] == 'n' && "thirteen"@[0] == 't');
    assert("nineteen"@[0] == 'n' && "fourteen"@[0] == 'f');
    assert("nineteen"@[0] == 'n' && "eighteen"@[0] == 'e');
    assert("twenty"@[0] == 't' && "eleven"@[0] == 'e');
    assert("twenty"@[3] == 'n' && "twelve"@[3] == 'l');
    assert("thirty"@[0] == 't' && "eleven"@[0] == 'e');
    assert("thirty"@[1] == 'h' && "twelve"@[1] == 'w');
    assert("thirty"@[1] == 'h' && "twenty"@[1] == 'w');
    assert("forty"@[0] == 'f' && "three"@[0] == 't');
    assert("forty"@[0] == 'f' && "seven"@[0] == 's');
    assert("forty"@[0] == 'f' && "eight"@[0] == 'e');
    assert("fifty"@[0] == 'f' && "three"@[0] == 't');
    assert("fifty"@[0] == 'f' && "seven"@[0] == 's');
    assert("fifty"@[0] == 'f' && "eight"@[0] == 'e');
    assert("fifty"@[1] == 'i' && "forty"@[1] == 'o');
    assert("sixty"@[0] == 's' && "three"@[0] == 't');
    assert("sixty"@[1] == 'i' && "seven"@[1] == 'e');
    assert("sixty"@[0] == 's' && "eight"@[0] == 'e');
    assert("sixty"@[0] == 's' && "forty"@[0] == 'f');
    assert("sixty"@[0] == 's' && "fifty"@[0] == 'f');
    assert("seventy"@[0] == 's' && "fifteen"@[0] == 'f');
    assert("seventy"@[1] == 'e' && "sixteen"@[1] == 'i');
    assert("eighty"@[1] == 'i' && "eleven"@[1] == 'l');
    assert("eighty"@[0] == 'e' && "twelve"@[0] == 't');
    assert("eighty"@[0] == 'e' && "twenty"@[0] == 't');
    assert("eighty"@[0] == 'e' && "thirty"@[0] == 't');
    assert("ninety"@[0] == 'n' && "eleven"@[0] == 'e');
    assert("ninety"@[0] == 'n' && "twelve"@[0] == 't');
    assert("ninety"@[0] == 'n' && "twenty"@[0] == 't');
    assert("ninety"@[0] == 'n' && "thirty"@[0] == 't');
    assert("ninety"@[0] == 'n' && "eighty"@[0] == 'e');
    assert("hundred"@[0] == 'h' && "fifteen"@[0] == 'f');
    assert("hundred"@[0] == 'h' && "sixteen"@[0] == 's');
    assert("hundred"@[0] == 'h' && "seventy"@[0] == 's');
    assert("thousand"@[2] == 'o' && "thirteen"@[2] == 'i');
    assert("thousand"@[0] == 't' && "fourteen"@[0] == 'f');
    assert("thousand"@[0] == 't' && "eighteen"@[0] == 'e');
    assert("thousand"@[0] == 't' && "nineteen"@[0] == 'n');
    assert("and"@[0] == 'a' && "one"@[0] == 'o');
    assert("and"@[0] == 'a' && "two"@[0] == 't');
    assert("and"@[0] == 'a' && "six"@[0] == 's');
    assert("and"@[0] == 'a' && "ten"@[0] == 't');
}

proof fn lemma_literals_differ()
    ensures
        forall|i: int| 0 <= i < 20 ==> word_value(#[trigger] small_names()[i]) == Some(i as i32),
        forall|i: int|
            0 <= i < 8 ==> word_value(#[trigger] tens_names()[i]) == Some((10 * i + 20) as i32),
        word_value("hundred"@) == Some(100i32),
        word_value("thousand"@) == Some(1000i32),
        word_value("and"@) is None,
        "hundred"@.len() > 0 && 'a' <= "hundred"@[0] && "hundred"@[0] <= 'z',
        "thousand"@.len() > 0 && 'a' <= "thousand"@[0] && "thousand"@[0] <= 'z',
        forall|i: int| 0 <= i < 20 ==> 'a' <= (#[trigger] small_names()[i])[0] && small_names()[i][0] <= 'z' && small_names()[i].len() > 0,
        forall|i: int| 0 <= i < 8 ==> 'a' <= (#[trigger] tens_names()[i])[0] && tens_names()[i][0] <= 'z' && tens_names()[i].len() > 0,
{
    lemma_literals();
    let (small, tens) = (small_names(), tens_names());
    assert(small[0] == "zero"@ && word_value("zero"@) == Some(0i32));
    assert(small[1] == "one"@ && word_value("one"@) == Some(1i32));
    assert(small[2] == "two"@ && word_value("two"@) == Some(2i32));
    assert(small[3] == "three"@ && word_value("three"@) == Some(3i32));
    assert(small[4] == "four"@ && word_value("four"@) == Some(4i32));
    assert(small[5] == "five"@ && word_value("five"@) == Some(5i32));
    assert(small[6] == "six"@ && word_value("six"@) == Some(6i32));
    assert(small[7] == "seven"@ && word_value("seven"@) == Some(7i32));
    assert(small[8] == "eight"@ && word_value("eight"@) == Some(8i32));
    assert(small[9] == "nine"@ && word_value("nine"@) == Some(9i32));
    assert(small[10] == "ten"@ && word_value("ten"@) == Some(10i32));
    assert(small[11] == "eleven"@ && word_value("eleven"@) == Some(11i32));
    assert(small[12] == "twelve"@ && word_value("twelve"@) == Some(12i32));
    assert(small[13] == "thirteen"@ && word_value("thirteen"@) == Some(13i32));
    assert(small[14] == "fourteen"@ && word_value("fourteen"@) == Some(14i32));
    assert(small[15] == "fifteen"@ && word_value("fifteen"@) == Some(15i32));
    assert(small[16] == "sixteen"@ && word_value("sixteen"@) == Some(16i32));
    assert(small[17] == "seventeen"@ && word_value("seventeen"@) == Some(17i32));
    assert(small[18] == "eighteen"@ && word_value("eighteen"@) == Some(18i32));
    assert(small[19] == "nineteen"@ && word_value("nineteen"@) == Some(19i32));
    assert(tens[0] == "twenty"@ && word_value("twenty"@) == Some(20i32));
    assert(tens[1] == "thirty"@ && word_value("thirty"@) == Some(30i32));
    assert(tens[2] == "forty"@ && word_value("forty"@) == Some(40i32));
    assert(tens[3] == "fifty"@ && word_value("fifty"@) == Some(50i32));
    assert(tens[4] == "sixty"@ && word_value("sixty"@) == Some(60i32));
    assert(tens[5] == "seventy"@ && word_value("seventy"@) == Some(70i32));
    assert(tens[6] == "eighty"@ && word_value("eighty"@) == Some(80i32));
    assert(tens[7] == "ninety"@ && word_value("ninety"@) == Some(90i32));
}

proof fn lemma_tally_push(tokens: Seq<Seq<char>>, word: Seq<char>)
    ensures
        word == "and"@ ==> tally(tokens.push(word)) == tally(tokens),
        word != "and"@ ==> match tally(tokens) {
            Tally::Running(total, current, seen) => match word_value(word) {
                Some(value) => tally(tokens.push(word)) == tally_word(total, current, value as int),
                None => tally(tokens.push(word)) is Broken,
            },
            other => tally(tokens.push(word)) == other,
        },
{
    assert(tokens.push(word).drop_last() =~= tokens);
}

proof fn lemma_tally_tens(front: Seq<Seq<char>>, n: nat)
    requires
        tally(front) matches Tally::Running(total, current, _) && 0 <= current <= 900,
        n < 100,
    ensures
        tally(front) matches Tally::Running(total, current, _) ==> tally(front + english_tens(n))
            == Tally::Running(total, current + n, true),
{
    lemma_literals_differ();
    let (small, tens) = (small_names(), tens_names());
    if n < 20 {
        lemma_tally_push(front, small[n as int]);
        assert(front + english_tens(n) =~= front.push(small[n as int]));
    } else {
        let first = front.push(tens[n / 10 - 2]);
        lemma_tally_push(front, tens[n / 10 - 2]);
        if n % 10 == 0 {
            assert(front + english_tens(n) =~= first);
        } else {
            lemma_tally_push(first, small[(n % 10) as int]);
            assert(front + english_tens(n) =~= first.push(small[(n % 10) as int]));
        }
    }
}

proof fn lemma_tally_hundreds(front: Seq<Seq<char>>, n: nat)
    requires
        tally(front) matches Tally::Running(total, current, _) && current == 0,
        n < 1000,
    ensures
        tally(front) matches Tally::Running(total, _, _) ==> tally(front + english_hundreds(n))
            == Tally::Running(total, n as int, true),
{
    lemma_literals_differ();
    let small = small_names();
    if n < 100 {
        lemma_tally_tens(front, n);
    } else {
        let h = small[(n / 100) as int];
        let head = front.push(h).push("hundred"@);
        lemma_tally_push(front, h);
        lemma_tally_push(front.push(h), "hundred"@);
        assert(head =~= front + seq![h, "hundred"@]);
        if n % 100 != 0 {
            lemma_tally_tens(head, n % 100);
            assert(front + english_hundreds(n) =~= head + english_tens(n % 100));
        }
    }
}

/// Whether a word is a number word in lowercase letters.
spec fn is_named(word: Seq<char>) -> bool {
    word_value(word) is Some && word.len() > 0 && 'a' <= word[0] && word[0] <= 'z'
}

proof fn lemma_names()
    ensures
        forall|i: int| 0 <= i < 20 ==> is_named(#[trigger] small_names()[i]),
        forall|i: int| 0 <= i < 8 ==> is_named(#[trigger] tens_names()[i]),
        is_named("hundred"@),
        is_named("thousand"@),
{
    lemma_literals_differ();
}

proof fn lemma_english_hundreds(n: nat)
    requires
        n < 1000,
    ensures
        english_hundreds(n).len() > 0,
        forall|i: int|
            0 <= i < english_hundreds(n).len() ==> is_named(#[trigger] english_hundreds(n)[i]),
{
    lemma_names();
    let k = if n < 100 {
        n
    } else {
        n % 100
    };
    assert forall|i: int| 0 <= i < english_tens(k).len() implies is_named(
        #[trigger] english_tens(k)[i],
    ) by {}
    assert forall|i: int| 0 <= i < english_hundreds(n).len() implies is_named(
        #[trigger] english_hundreds(n)[i],
    ) by {
        if n >= 100 && i >= 2 {
            assert(english_hundreds(n)[i] == english_tens(k)[i - 2]);
        }
    }
}

proof fn lemma_english_words(n: nat)
    requires
        n < 1_000_000,
    ensures
        english(n).len() > 0,
        forall|i: int| 0 <= i < english(n).len() ==> is_named(#[trigger] english(n)[i]),
{
    lemma_names();
    if n < 1000 {
        lemma_english_hundreds(n);
    } else {
        lemma_english_hundreds(n / 1000);
        lemma_english_hundreds(n % 1000);
        let k = english_hundreds(n / 1000).len() as int;
        assert forall|i: int| 0 <= i < english(n).len() implies is_named(
            #[trigger] english(n)[i],
        ) by {
            if i < k {
                assert(english(n)[i] == english_hundreds(n / 1000)[i]);
            } else if i > k {
                assert(english(n)[i] == english_hundreds(n % 1000)[i - k - 1]);
            }
        }
    }
}

/// Reading inverts spelling: the English words for a number below one million
/// are read as that number.
pub proof fn written_numbers_are_read_back(n: nat)
    requires
        n < 1_000_000,
    ensures
        spelled(english(n)) == Reading::Value(n as i32),
{
    let empty = Seq::<Seq<char>>::empty();
    lemma_literals_differ();
    lemma_english_words(n);
    assert(is_named(english(n)[0]));
    assert(text::integer(english(n)[0]) is None) by {
        let first = english(n)[0];
        assert(!text::is_digit(first[0]));
    }
    if n < 1000 {
        lemma_tally_hundreds(empty, n);
        assert(empty + english_hundreds(n) =~= english(n));
    } else {
        let front = english_hundreds(n / 1000);
        let head = front.push("thousand"@);
        lemma_tally_hundreds(empty, n / 1000);
        assert(empty + front =~= front);
        lemma_tally_push(front, "thousand"@);
        assert(tally(head) == Tally::Running(1000 * (n / 1000) as int, 0, true));
        if n % 1000 != 0 {
            lemma_tally_hundreds(head, n % 1000);
        }
    }
}

/// The tens are twenty, thirty and so on up to ninety, in steps of ten: each
/// of their words is worth ten times the unit that it is named after, and the
/// words of the first twenty numbers are worth one more than the word before.
/// No other word is a number word but `hundred`, ten times ten, and
/// `thousand`, ten times that.
pub proof fn number_words_go_in_steps(token: Seq<char>)
    ensures
        word_value(small_names()[0]) == Some(0i32),
        forall|i: int|
            0 <= i < 19 ==> word_value(#[trigger] small_names()[i]) is Some && word_value(
                small_names()[i + 1],
            )->0 == word_value(small_names()[i])->0 + 1,
        forall|d: int|
            2 <= d < 10 ==> word_value(#[trigger] small_names()[d]) is Some && word_value(
                tens_names()[d - 2],
            ) is Some && word_value(tens_names()[d - 2])->0 == 10 * word_value(
                small_names()[d],
            )->0,
        word_value("hundred"@) is Some,
        word_value("hundred"@)->0 == 10 * word_value("ten"@)->0,
        word_value("thousand"@) is Some,
        word_value("thousand"@)->0 == 10 * word_value("hundred"@)->0,
        word_value(token) is Some <==> small_names().contains(token) || tens_names().contains(
            token,
        ) || token == "hundred"@ || token == "thousand"@,
{
    lemma_literals_differ();
    let (small, tens) = (small_names(), tens_names());
    assert(small[10] == "ten"@);
    if word_value(token) is Some {
        let v = word_value(token)->0 as int;
        if v < 20 {
            assert(small[v] == token);
        } else if v < 100 {
            assert(tens[v / 10 - 2] == token);
        }
    }
}

proof fn lemma_and_between(front: Seq<Seq<char>>, back: Seq<Seq<char>>)
    ensures
        tally(front + seq!["and"@] + back) == tally(front + back),
    decreases back.len(),
{
    let with = front + seq!["and"@] + back;
    if back.len() == 0 {
        lemma_tally_push(front, "and"@);
        assert(with =~= front.push("and"@));
        assert(front + back =~= front);
    } else {
        lemma_and_between(front, back.drop_last());
        assert(with.drop_last() =~= front + seq!["and"@] + back.drop_last());
        assert((front + back).drop_last() =~= front + back.drop_last());
    }
}

/// The word `and` between the words of a number changes nothing.
pub proof fn and_is_passed_over(front: Seq<Seq<char>>, back: Seq<Seq<char>>)
    requires
        front.len() > 0,
        back.len() > 0,
    ensures
        spelled(front + seq!["and"@] + back) == spelled(front + back),
{
    lemma_and_between(front, back);
}

/// A decimal integer is read as that integer.
pub proof fn decimal_numbers_are_read(token: Seq<char>)
    requires
        text::integer(token) is Some,
    ensures
        spelled(seq![token]) == Reading::Value(text::integer(token)->0 as i32),
{
}

/// A list of words that holds anything but number words and `and`, or nothing
/// but `and`, is no number.
pub proof fn other_words_are_no_number(tokens: Seq<Seq<char>>, i: int)
    requires
        0 <= i < tokens.len(),
        tokens.len() > 1 || text::integer(tokens[0]) is None,
        tokens[i] != "and"@,
        word_value(tokens[i]) is None,
    ensures
        spelled(tokens) is Missing || spelled(tokens) is Overflow,
{
    lemma_unknown_word_breaks(tokens, i);
}

proof fn lemma_unknown_word_breaks(tokens: Seq<Seq<char>>, i: int)
    requires
        0 <= i < tokens.len(),
        tokens[i] != "and"@,
        word_value(tokens[i]) is None,
    ensures
        !(tally(tokens) is Running),
    decreases tokens.len(),
{
    if i < tokens.len() - 1 {
        lemma_unknown_word_breaks(tokens.drop_last(), i);
    }
}

// ── Words of a sum of texts ─────────────────────────────────────────────

proof fn lemma_run_is(source: Seq<char>, n: int)
    requires
        0 <= n <= source.len(),
        forall|i: int| 0 <= i < n ==> text::is_alnum(#[trigger] source[i]),
        n < source.len() ==> !text::is_alnum(source[n]),
    ensures
        word_run(source) == n,
    decreases n,
{
    if n > 0 {
        let rest = source.skip(1);
        assert forall|i: int| 0 <= i < n - 1 implies text::is_alnum(#[trigger] rest[i]) by {
            assert(rest[i] == source[i + 1]);
        }
        lemma_run_is(rest, n - 1);
    }
}

/// A character that is no ASCII letter or digit separates words: the words of
/// a text around it are those before it and those behind it.
pub proof fn words_are_separated(front: Seq<char>, ch: char, back: Seq<char>)
    requires
        !text::is_alnum(ch),
    ensures
        words(front.push(ch) + back) == words(front) + words(back),
    decreases front.len(),
{
    let whole = front.push(ch) + back;
    assert(words(Seq::<char>::empty()) =~= Seq::<Seq<char>>::empty());
    if front.len() == 0 {
        assert(whole.skip(1) =~= back);
        assert(words(front) + words(back) =~= words(back));
    } else if !text::is_alnum(front[0]) {
        words_are_separated(front.skip(1), ch, back);
        assert(whole.skip(1) =~= front.skip(1).push(ch) + back);
    } else {
        lemma_word_run(front);
        let n = word_run(front) as int;
        assert forall|i: int| 0 <= i < n implies text::is_alnum(#[trigger] whole[i]) by {
            assert(whole[i] == front[i]);
        }
        assert(whole[n] == front.push(ch)[n]);
        lemma_run_is(whole, n);
        words_are_separated(front.skip(n), ch, back);
        assert(whole.skip(n) =~= front.skip(n).push(ch) + back);
        assert(whole.take(n) =~= front.take(n));
        assert(words(whole) =~= seq![front.take(n)] + words(whole.skip(n)));
        assert(words(whole) =~= words(front) + words(back));
    }
}

/// A run of ASCII letters and digits is one word.
pub proof fn run_is_one_word(word: Seq<char>)
    requires
        word.len() > 0,
        forall|i: int| 0 <= i < word.len() ==> text::is_alnum(#[trigger] word[i]),
    ensures
        words(word) == seq![word],
{
    lemma_run_is(word, word.len() as int);
    assert(word.take(word.len() as int) =~= word);
    assert(words(word.skip(word.len() as int)) =~= Seq::<Seq<char>>::empty());
    assert(words(word) =~= seq![word]);
}

// ── Where a number is found ─────────────────────────────────────────────

/// A word is a number where it is a decimal integer or one of the number
/// words, and `and` belongs to a number without being one.
pub proof fn numbers_are_told_apart(token: Seq<char>)
    ensures
        is_number(token) <==> text::integer(token) is Some || small_names().contains(token)
            || tens_names().contains(token) || token == "hundred"@ || token == "thousand"@,
        is_number_part(token) <==> is_number(token) || token == "and"@,
        !is_number("and"@),
{
    number_words_go_in_steps(token);
    lemma_literals_differ();
    reveal_strlit("and");
    assert("and"@[0] == 'a');
    assert(!text::is_digit("and"@[0]));
}

proof fn lemma_sequence_is_first(
    tokens: Seq<Seq<char>>,
    mark: Seq<Seq<char>>,
    from: int,
    at: int,
)
    requires
        0 <= from <= at,
        sequence_at(tokens, mark, at),
        forall|i: int| from <= i < at ==> !#[trigger] sequence_at(tokens, mark, i),
    ensures
        sequence_from(tokens, mark, from) == Some(at),
    decreases at - from,
{
    if from < at {
        assert(!sequence_at(tokens, mark, from));
        lemma_sequence_is_first(tokens, mark, from + 1, at);
    }
}

proof fn lemma_before_number(gap: Seq<Seq<char>>, rest: Seq<Seq<char>>)
    requires
        forall|i: int| 0 <= i < gap.len() ==> !is_number(#[trigger] gap[i]),
        rest.len() > 0,
        is_number(rest[0]),
    ensures
        before_number(gap + rest) == gap.len(),
    decreases gap.len(),
{
    if gap.len() == 0 {
        assert(gap + rest =~= rest);
    } else {
        assert((gap + rest)[0] == gap[0]);
        assert((gap + rest).skip(1) =~= gap.skip(1) + rest);
        lemma_before_number(gap.skip(1), rest);
    }
}

proof fn lemma_leading_parts(number: Seq<Seq<char>>, back: Seq<Seq<char>>)
    requires
        forall|i: int| 0 <= i < number.len() ==> is_number_part(#[trigger] number[i]),
        back.len() > 0 ==> !is_number_part(back[0]),
    ensures
        leading_parts(number + back) == number.len(),
    decreases number.len(),
{
    if number.len() == 0 {
        assert(number + back =~= back);
    } else {
        assert((number + back)[0] == number[0]);
        assert((number + back).skip(1) =~= number.skip(1) + back);
        lemma_leading_parts(number.skip(1), back);
    }
}

/// The number after a mark is the first one behind the first place of the
/// mark, with all of its words: what stands before the mark, between the mark
/// and the number, and behind the number does not count.
pub proof fn number_after_a_mark_is_read(
    front: Seq<Seq<char>>,
    mark: Seq<Seq<char>>,
    gap: Seq<Seq<char>>,
    number: Seq<Seq<char>>,
    back: Seq<Seq<char>>,
)
    requires
        mark.len() > 0,
        forall|i: int|
            0 <= i < front.len() ==> !#[trigger] sequence_at(
                front + mark + gap + number + back,
                mark,
                i,
            ),
        forall|i: int| 0 <= i < gap.len() ==> !is_number(#[trigger] gap[i]),
        number.len() > 0,
        is_number(number[0]),
        forall|i: int| 0 <= i < number.len() ==> is_number_part(#[trigger] number[i]),
        back.len() > 0 ==> !is_number_part(back[0]),
    ensures
        number_after(front + mark + gap + number + back, mark) == spelled(number),
{
    let tokens = front + mark + gap + number + back;
    let at = front.len() as int;
    assert(tokens.subrange(at, at + mark.len()) =~= mark);
    assert(sequence_at(tokens, mark, at));
    lemma_sequence_is_first(tokens, mark, 0, at);
    let rest = tokens.skip(at + mark.len());
    assert(rest =~= gap + (number + back));
    assert((number + back)[0] == number[0]);
    lemma_before_number(gap, number + back);
    assert(rest.skip(gap.len() as int) =~= number + back);
    lemma_leading_parts(number, back);
    assert((number + back).take(number.len() as int) =~= number);
}

proof fn lemma_keyword_is_first(tokens: Seq<Seq<char>>, keyword: Seq<char>, from: int, at: int)
    requires
        0 <= from <= at < tokens.len(),
        tokens[at] == keyword,
        forall|i: int| from <= i < at ==> #[trigger] tokens[i] != keyword,
    ensures
        keyword_from(tokens, keyword, from) == Some(at),
    decreases at - from,
{
    if from < at {
        assert(tokens[from] != keyword);
        lemma_keyword_is_first(tokens, keyword, from + 1, at);
    }
}

proof fn lemma_up_to_number(head: Seq<Seq<char>>, gap: Seq<Seq<char>>)
    requires
        forall|i: int| 0 <= i < gap.len() ==> !is_number(#[trigger] gap[i]),
        head.len() > 0,
        is_number(head.last()),
    ensures
        up_to_number(head + gap) == head,
    decreases gap.len(),
{
    if gap.len() == 0 {
        assert(head + gap =~= head);
    } else {
        assert((head + gap).last() == gap[gap.len() - 1]);
        assert((head + gap).drop_last() =~= head + gap.drop_last());
        lemma_up_to_number(head, gap.drop_last());
    }
}

proof fn lemma_trailing_parts(front: Seq<Seq<char>>, number: Seq<Seq<char>>)
    requires
        forall|i: int| 0 <= i < number.len() ==> is_number_part(#[trigger] number[i]),
        front.len() > 0 ==> !is_number_part(front.last()),
    ensures
        trailing_parts(front + number) == number.len(),
    decreases number.len(),
{
    if number.len() == 0 {
        assert(front + number =~= front);
    } else {
        assert((front + number).last() == number[number.len() - 1]);
        assert((front + number).drop_last() =~= front + number.drop_last());
        lemma_trailing_parts(front, number.drop_last());
    }
}

/// The number before a keyword is the last one in front of the first place of
/// the keyword, with all of its words.
pub proof fn number_before_a_keyword_is_read(
    front: Seq<Seq<char>>,
    number: Seq<Seq<char>>,
    gap: Seq<Seq<char>>,
    keyword: Seq<char>,
    back: Seq<Seq<char>>,
)
    requires
        forall|i: int|
            0 <= i < front.len() + number.len() + gap.len() ==> #[trigger] (front + number
                + gap)[i] != keyword,
        forall|i: int| 0 <= i < gap.len() ==> !is_number(#[trigger] gap[i]),
        number.len() > 0,
        is_number(number.last()),
        forall|i: int| 0 <= i < number.len() ==> is_number_part(#[trigger] number[i]),
        front.len() > 0 ==> !is_number_part(front.last()),
    ensures
        number_before(front + number + gap + seq![keyword] + back, keyword) == spelled(number),
{
    let before = front + number + gap;
    let tokens = before + seq![keyword] + back;
    let at = before.len() as int;
    assert forall|i: int| 0 <= i < at implies #[trigger] tokens[i] != keyword by {
        assert(tokens[i] == before[i]);
    }
    assert(tokens[at] == keyword);
    lemma_keyword_is_first(tokens, keyword, 0, at);
    assert(tokens.take(at) =~= (front + number) + gap);
    assert((front + number).last() == number.last());
    lemma_up_to_number(front + number, gap);
    lemma_trailing_parts(front, number);
    assert((front + number).skip(front.len() as int) =~= number);
}

/// Without the mark, or without the keyword, no number is found.
pub proof fn unmarked_numbers_are_not_read(
    tokens: Seq<Seq<char>>,
    mark: Seq<Seq<char>>,
    keyword: Seq<char>,
)
    ensures
        (forall|i: int| !#[trigger] sequence_at(tokens, mark, i)) ==> number_after(tokens, mark)
            == Reading::Missing,
        !tokens.contains(keyword) ==> number_before(tokens, keyword) == Reading::Missing,
{
    if forall|i: int| !#[trigger] sequence_at(tokens, mark, i) {
        lemma_no_sequence(tokens, mark, 0);
    }
    if !tokens.contains(keyword) {
        lemma_no_keyword(tokens, keyword, 0);
    }
}

proof fn lemma_no_sequence(tokens: Seq<Seq<char>>, mark: Seq<Seq<char>>, from: int)
    requires
        forall|i: int| !#[trigger] sequence_at(tokens, mark, i),
    ensures
        sequence_from(tokens, mark, from) is None,
    decreases tokens.len() + 1 - from,
{
    if from + mark.len() <= tokens.len() {
        assert(!sequence_at(tokens, mark, from));
        lemma_no_sequence(tokens, mark, from + 1);
    }
}

proof fn lemma_no_keyword(tokens: Seq<Seq<char>>, keyword: Seq<char>, from: int)
    requires
        !tokens.contains(keyword),
        0 <= from,
    ensures
        keyword_from(tokens, keyword, from) is None,
    decreases tokens.len() - from,
{
    if from < tokens.len() {
        assert(tokens.contains(tokens[from]));
        lemma_no_keyword(tokens, keyword, from + 1);
    }
}

/// A one in front of `hundred` or `thousand` may be left out: the English
/// words for a number from 100 to 199, or from 1000 to 1999, are read as that
/// number without their first word as well.
#[verifier::rlimit(30)]
pub proof fn leading_one_may_be_left_out(n: nat)
    requires
        100 <= n < 200 || 1000 <= n < 2000,
    ensures
        english(n)[0] == "one"@,
        spelled(english(n).skip(1)) == Reading::Value(n as i32),
{
    let rest = english(n).skip(1);
    assert(small_names()[1] == "one"@);
    assert(english_hundreds(1) =~= seq!["one"@]);
    lemma_bare_multipliers();
    if n < 200 {
        let head = seq!["hundred"@];
        if n == 100 {
            assert(rest =~= head);
        } else {
            lemma_tally_tens(head, (n - 100) as nat);
            assert(rest =~= head + english_tens((n - 100) as nat));
        }
    } else {
        let head = seq!["thousand"@];
        if n == 1000 {
            assert(rest =~= head);
        } else {
            lemma_tally_hundreds(head, (n - 1000) as nat);
            assert(rest =~= head + english_hundreds((n - 1000) as nat));
        }
    }
}

proof fn lemma_bare_multipliers()
    ensures
        tally(seq!["hundred"@]) == Tally::Running(0, 100, true),
        tally(seq!["thousand"@]) == Tally::Running(1000, 0, true),
        text::integer("hundred"@) is None,
        text::integer("thousand"@) is None,
{
    let empty = Seq::<Seq<char>>::empty();
    lemma_literals_differ();
    assert(!text::is_digit("hundred"@[0]) && !text::is_digit("thousand"@[0]));
    lemma_tally_push(empty, "hundred"@);
    assert(empty.push("hundred"@) =~= seq!["hundred"@]);
    lemma_tally_push(empty, "thousand"@);
    assert(empty.push("thousand"@) =~= seq!["thousand"@]);
}

} // verus!
