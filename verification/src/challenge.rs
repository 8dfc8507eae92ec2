//! Challenges: the questions that the server asks with each market, their
//! answers, and the lines of a reasoning that carry an answer.
use crate::json::Json;
use crate::json::JsonView;
use crate::text;
use crate::words;
use crate::words::Reading;
use vstd::prelude::*;
use vstd::slice::slice_subrange;
use vstd::string::StringExecFns;

verus! {

// ── Digits ──────────────────────────────────────────────────────────────

/// The digits at the start of a text.
pub open spec fn leading_digits(source: Seq<char>) -> Seq<char>
    decreases source.len(),
{
    if source.len() > 0 && text::is_digit(source[0]) {
        seq![source[0]] + leading_digits(source.skip(1))
    } else {
        Seq::empty()
    }
}

/// The digits at the end of a text.
pub open spec fn trailing_digits(source: Seq<char>) -> Seq<char>
    decreases source.len(),
{
    if source.len() > 0 && text::is_digit(source.last()) {
        trailing_digits(source.drop_last()).push(source.last())
    } else {
        Seq::empty()
    }
}

/// The last run of digits in a text.
pub open spec fn last_digits(source: Seq<char>) -> Seq<char>
    decreases source.len(),
{
    if source.len() == 0 || text::is_digit(source.last()) {
        trailing_digits(source)
    } else {
        last_digits(source.drop_last())
    }
}

fn leading_digits_of(source: &[char]) -> (r: &[char])
    ensures
        r@ == leading_digits(source@),
{
    let mut n: usize = 0;
    assert(source@.take(0) + leading_digits(source@.skip(0)) =~= leading_digits(source@)) by {
        assert(source@.skip(0) =~= source@);
    }
    while n < source.len() && text::digit(source[n])
        invariant
            n <= source@.len(),
            source@.take(n as int) + leading_digits(source@.skip(n as int)) == leading_digits(
                source@,
            ),
        decreases source@.len() - n,
    {
        proof {
            let rest = source@.skip(n as int);
            assert(rest.skip(1) =~= source@.skip(n + 1));
            assert(source@.take(n as int) + (seq![rest[0]] + leading_digits(rest.skip(1)))
                =~= source@.take(n + 1) + leading_digits(source@.skip(n + 1)));
        }
        n = n + 1;
    }
    assert(source@.take(n as int) + Seq::<char>::empty() =~= source@.take(n as int));
    slice_subrange(source, 0, n)
}

fn last_digits_of(source: &[char]) -> (r: &[char])
    ensures
        r@ == last_digits(source@),
{
    let mut end: usize = source.len();
    assert(source@.take(end as int) =~= source@);
    while end > 0 && !text::digit(source[end - 1])
        invariant
            end <= source@.len(),
            last_digits(source@) == last_digits(source@.take(end as int)),
        decreases end,
    {
        assert(source@.take(end as int).drop_last() =~= source@.take(end - 1));
        end = end - 1;
    }
    let ghost head = source@.take(end as int);
    let mut start: usize = end;
    assert(trailing_digits(source@.take(start as int)) + source@.subrange(start as int, end as int)
        =~= trailing_digits(head));
    while start > 0 && text::digit(source[start - 1])
        invariant
            start <= end <= source@.len(),
            trailing_digits(source@.take(start as int)) + source@.subrange(
                start as int,
                end as int,
            ) == trailing_digits(head),
        decreases start,
    {
        proof {
            let part = source@.take(start as int);
            assert(part.drop_last() =~= source@.take(start - 1));
            assert(trailing_digits(part.drop_last()).push(part.last()) + source@.subrange(
                start as int,
                end as int,
            ) =~= trailing_digits(source@.take(start - 1)) + source@.subrange(
                start - 1,
                end as int,
            ));
        }
        start = start - 1;
    }
    assert(Seq::<char>::empty() + source@.subrange(start as int, end as int) =~= source@.subrange(
        start as int,
        end as int,
    ));
    slice_subrange(source, start, end)
}

// ── Inventory challenges ────────────────────────────────────────────────

/// Whether a text in lowercase is an inventory challenge.
pub open spec fn is_inventory(lower: Seq<char>) -> bool {
    &&& text::has(lower, "inventory"@)
    &&& text::has(lower, "began"@)
    &&& text::has(lower, "sold"@)
    &&& text::has(lower, "received"@) || text::has(lower, "suppliers"@)
}

/// What is left of an inventory: the start, less what was sold, and what was
/// received.
pub open spec fn stock(initial: Reading, sold: Reading, received: Reading) -> Reading {
    match (initial, sold, received) {
        (Reading::Value(a), Reading::Value(b), Reading::Value(c)) => if words::fits(a - b) {
            words::reading_of(a - b + c)
        } else {
            Reading::Overflow
        },
        (Reading::Value(_), Reading::Value(_), other) => other,
        (Reading::Value(_), other, _) => other,
        (other, _, _) => other,
    }
}

/// The answer to an inventory challenge, from its text in lowercase.
pub open spec fn inventory(lower: Seq<char>) -> Reading {
    let tokens = words::words(lower);
    if is_inventory(lower) {
        stock(
            words::number_after(tokens, seq!["began"@, "at"@]).or(
                words::number_after(tokens, seq!["began"@]),
            ),
            words::number_before(tokens, "sold"@),
            words::number_before(tokens, "received"@).or(
                words::number_before(tokens, "suppliers"@),
            ),
        )
    } else {
        Reading::Missing
    }
}

fn inventory_text(lower: &str) -> (r: bool)
    ensures
        r == is_inventory(lower@),
{
    text::contains(lower, "inventory") && text::contains(lower, "began") && text::contains(
        lower,
        "sold",
    ) && (text::contains(lower, "received") || text::contains(lower, "suppliers"))
}

/// Answers an inventory challenge, from its text in lowercase.
pub fn read_inventory(lower: &str) -> (r: Reading)
    ensures
        r == inventory(lower@),
{
    if !inventory_text(lower) {
        return Reading::Missing;
    }
    let list = words::challenge_tokens(lower);
    let tokens: &[String] = list.as_slice();
    let began_at: Vec<&str> = vec!["began", "at"];
    let began: Vec<&str> = vec!["began"];
    proof {
        assert(text::slices(began_at@) =~= seq!["began"@, "at"@]);
        assert(text::slices(began@) =~= seq!["began"@]);
    }
    let initial = match words::read_number_after(tokens, began_at.as_slice()) {
        Reading::Missing => words::read_number_after(tokens, began.as_slice()),
        other => other,
    };
    let sold = words::read_number_before(tokens, "sold");
    let received = match words::read_number_before(tokens, "received") {
        Reading::Missing => words::read_number_before(tokens, "suppliers"),
        other => other,
    };
    match (initial, sold, received) {
        (Reading::Value(a), Reading::Value(b), Reading::Value(c)) => match a.checked_sub(b) {
            Some(left) => match left.checked_add(c) {
                Some(n) => Reading::Value(n),
                None => Reading::Overflow,
            },
            None => Reading::Overflow,
        },
        (Reading::Value(_), Reading::Value(_), other) => other,
        (Reading::Value(_), other, _) => other,
        (other, _, _) => other,
    }
}

/// The answer to an inventory challenge: where the inventory began, less what
/// was sold, and what was received.
pub fn solve_inventory_challenge(source: &str) -> (r: Option<i32>)
    requires
        !(inventory(text::lowercase(source@)) is Overflow),
    ensures
        r == inventory(text::lowercase(source@)).value(),
{
    let lower = text::to_lower(source);
    read_inventory(lower.as_str()).into_option()
}

// ── Timezone challenges ─────────────────────────────────────────────────

/// The hour of departure: the digits after the first `departs at `.
pub open spec fn departure_hour(source: Seq<char>) -> Option<int> {
    match text::find(source, "departs at "@) {
        Some(at) => text::integer(leading_digits(source.skip(at + "departs at "@.len()))),
        None => None,
    }
}

/// The hour of departure: the digits after the first `departs at `.
pub fn parse_departure_hour(source: &str) -> (r: Option<i32>)
    ensures
        text::number(r) == departure_hour(source@),
{
    let chars = text::chars_of(source);
    let all: &[char] = chars.as_slice();
    proof {
        text::find_is_first(source@, "departs at "@);
        reveal_strlit("departs at ");
    }
    match text::find_in(all, "departs at ") {
        Some(at) => {
            let total: usize = all.len();
            assert(at + 11 <= total);
            let rest = slice_subrange(all, at + 11, total);
            assert(rest@ =~= source@.skip(at + 11));
            text::parse_integer(leading_digits_of(rest))
        },
        None => None,
    }
}

/// The last number before the first `hour`.
pub open spec fn number_before_hour(source: Seq<char>) -> Option<int> {
    match text::find(source, "hour"@) {
        Some(at) => text::integer(last_digits(source.take(at))),
        None => None,
    }
}

/// The last number before the first `hour`.
pub fn first_number_before_hour(source: &str) -> (r: Option<i32>)
    ensures
        text::number(r) == number_before_hour(source@),
{
    let chars = text::chars_of(source);
    let all: &[char] = chars.as_slice();
    proof {
        text::find_is_first(source@, "hour"@);
    }
    match text::find_in(all, "hour") {
        Some(at) => {
            let before = slice_subrange(all, 0, at);
            assert(before@ =~= source@.take(at as int));
            text::parse_integer(last_digits_of(before))
        },
        None => None,
    }
}

/// The word for a number of hours up to twelve.
pub open spec fn hour_word(n: int) -> Seq<char> {
    if n == 0 {
        "zero"@
    } else if n == 1 {
        "one"@
    } else if n == 2 {
        "two"@
    } else if n == 3 {
        "three"@
    } else if n == 4 {
        "four"@
    } else if n == 5 {
        "five"@
    } else if n == 6 {
        "six"@
    } else if n == 7 {
        "seven"@
    } else if n == 8 {
        "eight"@
    } else if n == 9 {
        "nine"@
    } else if n == 10 {
        "ten"@
    } else if n == 11 {
        "eleven"@
    } else {
        "twelve"@
    }
}

fn hour_word_of(n: i32) -> (r: &'static str)
    requires
        0 <= n <= 12,
    ensures
        r@ == hour_word(n as int),
{
    match n {
        0 => "zero",
        1 => "one",
        2 => "two",
        3 => "three",
        4 => "four",
        5 => "five",
        6 => "six",
        7 => "seven",
        8 => "eight",
        9 => "nine",
        10 => "ten",
        11 => "eleven",
        _ => "twelve",
    }
}

/// The smallest number from `from` to twelve whose word stands before ` hour`.
pub open spec fn hours_in_words(source: Seq<char>, from: int) -> Option<int>
    decreases 13 - from,
{
    if from > 12 {
        None
    } else if text::has(source, hour_word(from) + " hour"@) {
        Some(from)
    } else {
        hours_in_words(source, from + 1)
    }
}

/// The hours between two places, negative where the destination is behind.
pub open spec fn timezone_offset(source: Seq<char>) -> Option<int> {
    let amount = match hours_in_words(source, 0) {
        Some(n) => Some(n),
        None => number_before_hour(source),
    };
    if !text::has(source, "ahead"@) && !text::has(source, "behind"@) {
        None
    } else {
        match amount {
            Some(n) => Some(
                if text::has(source, "ahead"@) {
                    n
                } else {
                    -n
                },
            ),
            None => None,
        }
    }
}

proof fn lemma_last_digits(source: Seq<char>)
    ensures
        text::all_digits(last_digits(source)),
    decreases source.len(),
{
    if source.len() == 0 || text::is_digit(source.last()) {
        lemma_trailing_digits(source);
    } else {
        lemma_last_digits(source.drop_last());
    }
}

proof fn lemma_trailing_digits(source: Seq<char>)
    ensures
        text::all_digits(trailing_digits(source)),
    decreases source.len(),
{
    if source.len() > 0 && text::is_digit(source.last()) {
        lemma_trailing_digits(source.drop_last());
    }
}

proof fn lemma_leading_digits(source: Seq<char>)
    ensures
        text::all_digits(leading_digits(source)),
    decreases source.len(),
{
    if source.len() > 0 && text::is_digit(source[0]) {
        lemma_leading_digits(source.skip(1));
    }
}

/// The hours between two places, negative where the destination is behind: a
/// number word before ` hour`, or else the last number before `hour`.
pub fn parse_timezone_offset(source: &str) -> (r: Option<i32>)
    ensures
        text::number(r) == timezone_offset(source@),
{
    let ahead: bool = text::contains(source, "ahead");
    if !ahead && !text::contains(source, "behind") {
        return None;
    }
    let mut amount: Option<i32> = None;
    let mut n: i32 = 0;
    while n <= 12 && amount.is_none()
        invariant
            0 <= n <= 13,
            amount is None ==> hours_in_words(source@, 0) == hours_in_words(source@, n as int),
            amount matches Some(a) ==> a >= 0 && hours_in_words(source@, 0) == Some(a as int),
        decreases 13 - n + (if amount is None {
            1int
        } else {
            0
        }),
    {
        let mut phrase: String = hour_word_of(n).to_owned();
        phrase.append(" hour");
        if text::contains(source, phrase.as_str()) {
            amount = Some(n);
        } else {
            n = n + 1;
        }
    }
    if amount.is_none() {
        proof {
            if let Some(at) = text::find(source@, "hour"@) {
                lemma_last_digits(source@.take(at));
            }
        }
        amount = first_number_before_hour(source);
    }
    match amount {
        Some(a) => if ahead {
            Some(a)
        } else {
            Some(-a)
        },
        None => None,
    }
}

// ── Ahead and behind ────────────────────────────────────────────────────

/// A text with `behind` in place of `ahead`.
spec fn turned(source: Seq<char>) -> Seq<char> {
    text::replaced(source, "ahead"@, "behind"@)
}

proof fn lemma_turned(source: Seq<char>)
    ensures
        "ahead"@ =~= seq!['a', 'h', 'e', 'a', 'd'],
        "behind"@ =~= seq!['b', 'e', 'h', 'i', 'n', 'd'],
        source.len() == 0 ==> turned(source) == source,
        text::begins(source, "ahead"@) ==> turned(source) == "behind"@ + turned(source.skip(5))
            && source.len() >= 5 && source[0] == 'a' && source[1] == 'h' && source[2] == 'e'
            && source[3] == 'a' && source[4] == 'd',
        source.len() > 0 && !text::begins(source, "ahead"@) ==> turned(source) == seq![source[0]]
            + turned(source.skip(1)),
{
    reveal_strlit("ahead");
    reveal_strlit("behind");
    if text::begins(source, "ahead"@) {
        let word = source.subrange(0, 5);
        assert(word[0] == 'a' && word[1] == 'h' && word[2] == 'e' && word[3] == 'a' && word[4]
            == 'd');
    }
}

proof fn lemma_begins(source: Seq<char>, pattern: Seq<char>)
    ensures
        pattern.len() == 0 ==> text::begins(source, pattern),
        pattern.len() > 0 ==> (text::begins(source, pattern) <==> source.len() > 0 && source[0]
            == pattern[0] && text::begins(source.skip(1), pattern.skip(1))),
{
    if pattern.len() > 0 && source.len() >= pattern.len() {
        let n = pattern.len() as int;
        assert(source.skip(1).subrange(0, n - 1) =~= source.subrange(0, n).skip(1));
        if text::begins(source, pattern) {
            assert(source.subrange(0, n)[0] == pattern[0]);
            assert(source.skip(1).subrange(0, n - 1) =~= pattern.skip(1));
        }
        if source[0] == pattern[0] && text::begins(source.skip(1), pattern.skip(1)) {
            assert forall|i: int| 0 <= i < n implies source.subrange(0, n)[i] == pattern[i] by {
                if i > 0 {
                    assert(source.skip(1).subrange(0, n - 1)[i - 1] == pattern.skip(1)[i - 1]);
                }
            }
            assert(source.subrange(0, n) =~= pattern);
        }
    } else if pattern.len() == 0 {
        assert(source.subrange(0, 0) =~= pattern);
    }
}

proof fn lemma_has(source: Seq<char>, pattern: Seq<char>)
    ensures
        text::has(source, pattern) <==> text::begins(source, pattern) || (source.len() > 0
            && text::has(source.skip(1), pattern)),
{
    let n = pattern.len();
    if text::has(source, pattern) {
        let at = choose|at: int| text::occurs_at(source, pattern, at);
        if at > 0 {
            assert(source.skip(1).subrange(at - 1, at - 1 + n) =~= source.subrange(at, at + n));
            assert(text::occurs_at(source.skip(1), pattern, at - 1));
        }
    }
    if source.len() > 0 && text::has(source.skip(1), pattern) {
        let at = choose|at: int| text::occurs_at(source.skip(1), pattern, at);
        assert(source.skip(1).subrange(at, at + n) =~= source.subrange(at + 1, at + 1 + n));
        assert(text::occurs_at(source, pattern, at + 1));
    }
}

proof fn lemma_turned_begins(source: Seq<char>, pattern: Seq<char>)
    requires
        !pattern.contains('b'),
    ensures
        text::begins(turned(source), pattern) ==> text::begins(source, pattern),
        !pattern.contains('a') ==> (text::begins(source, pattern) ==> text::begins(
            turned(source),
            pattern,
        )),
    decreases pattern.len(),
{
    lemma_begins(source, pattern);
    lemma_begins(turned(source), pattern);
    lemma_turned(source);
    if pattern.len() > 0 && source.len() > 0 {
        assert(pattern.contains(pattern[0]));
        if !text::begins(source, "ahead"@) {
            let rest = pattern.skip(1);
            assert forall|ch: char| rest.contains(ch) implies pattern.contains(ch) by {
                let i = choose|i: int| 0 <= i < rest.len() && rest[i] == ch;
                assert(pattern[i + 1] == ch);
            }
            lemma_turned_begins(source.skip(1), rest);
            assert(turned(source).skip(1) =~= turned(source.skip(1)));
        }
    }
}

/// Whether a word can neither begin nor end inside of `ahead` or `behind`.
spec fn stands_apart(word: Seq<char>) -> bool {
    &&& word.len() >= 3
    &&& !word.contains('a')
    &&& !word.contains('b')
    &&& word[0] != 'd'
    &&& word[0] != 'i'
    &&& !(word[0] == 'e' && word[1] == 'h')
    &&& !(word[0] == 'h' && word[1] == 'i')
    &&& !(word[0] == 'n' && word[1] == 'd')
}

proof fn lemma_apart_in_front(front: Seq<char>, back: Seq<char>, word: Seq<char>)
    requires
        stands_apart(word),
        front == "ahead"@ || front == "behind"@,
    ensures
        forall|k: int| 0 <= k < front.len() ==> !text::occurs_at(front + back, word, k),
{
    lemma_turned(front);
    let full = front + back;
    assert forall|k: int| 0 <= k < front.len() implies !text::occurs_at(full, word, k) by {
        if text::occurs_at(full, word, k) {
            let part = full.subrange(k, k + word.len());
            assert(part[0] == word[0] && part[1] == word[1] && part[2] == word[2]);
            assert(word.contains(word[0]) && word.contains(word[1]) && word.contains(word[2]));
            assert(full[k] == word[0] && full[k + 1] == word[1] && full[k + 2] == word[2]);
        }
    }
}

proof fn lemma_occurs_behind(front: Seq<char>, back: Seq<char>, word: Seq<char>)
    requires
        forall|k: int| 0 <= k < front.len() ==> !text::occurs_at(front + back, word, k),
    ensures
        text::has(front + back, word) == text::has(back, word),
        text::find(front + back, word) == match text::find(back, word) {
            Some(at) => Some(front.len() + at),
            None => None,
        },
{
    let full = front + back;
    let n = word.len();
    text::find_is_first(full, word);
    text::find_is_first(back, word);
    assert forall|k: int| #[trigger] text::occurs_at(back, word, k) implies text::occurs_at(
        full,
        word,
        front.len() + k,
    ) by {
        assert(full.subrange(front.len() + k, front.len() + k + n) =~= back.subrange(k, k + n));
    }
    assert forall|k: int| #[trigger] text::occurs_at(full, word, k) implies text::occurs_at(
        back,
        word,
        k - front.len(),
    ) by {
        assert(k >= front.len());
        assert(full.subrange(k, k + n) =~= back.subrange(k - front.len(), k - front.len() + n));
    }
    if text::has(full, word) {
        let k = text::find(full, word)->0;
        assert(text::occurs_at(back, word, k - front.len()));
        let first = text::find(back, word)->0;
        assert(text::occurs_at(full, word, front.len() + first));
    }
    if text::has(back, word) {
        let k = text::find(back, word)->0;
        assert(text::occurs_at(full, word, front.len() + k));
    }
}

/// The first place of a word that stands apart is the same in both texts, and
/// so is what stands before it.
proof fn lemma_turned_find(source: Seq<char>, word: Seq<char>)
    requires
        stands_apart(word),
    ensures
        text::has(turned(source), word) == text::has(source, word),
        match (text::find(source, word), text::find(turned(source), word)) {
            (Some(a), Some(b)) => 0 <= a <= source.len() && 0 <= b <= turned(source).len()
                && turned(source).take(b) == turned(source.take(a)),
            (None, None) => true,
            _ => false,
        },
    decreases source.len(),
{
    let other = turned(source);
    lemma_turned(source);
    text::find_is_first(source, word);
    text::find_is_first(other, word);
    if source.len() == 0 {
        assert forall|at: int| !text::occurs_at(source, word, at) by {}
    } else if text::begins(source, "ahead"@) {
        let rest = source.skip(5);
        lemma_turned_find(rest, word);
        assert(source =~= "ahead"@ + rest);
        lemma_apart_in_front("ahead"@, rest, word);
        lemma_apart_in_front("behind"@, turned(rest), word);
        lemma_occurs_behind("ahead"@, rest, word);
        lemma_occurs_behind("behind"@, turned(rest), word);
        if let Some(at) = text::find(rest, word) {
            let to = text::find(turned(rest), word)->0;
            let head = source.take(5 + at);
            assert(head =~= "ahead"@ + rest.take(at));
            assert(head.subrange(0, 5) =~= "ahead"@);
            assert(text::begins(head, "ahead"@));
            lemma_turned(head);
            assert(head.skip(5) =~= rest.take(at));
            assert(other.take(6 + to) =~= "behind"@ + turned(rest).take(to));
        }
    } else if text::begins(source, word) {
        lemma_turned_begins(source, word);
        assert(text::occurs_at(source, word, 0) && text::occurs_at(other, word, 0));
        assert(source.take(0) =~= Seq::<char>::empty());
        lemma_turned(source.take(0));
        assert(other.take(0) =~= source.take(0));
    } else {
        lemma_turned_begins(source, word);
        let rest = source.skip(1);
        let first = seq![source[0]];
        lemma_turned_find(rest, word);
        assert(source =~= first + rest);
        lemma_occurs_behind(first, rest, word);
        lemma_occurs_behind(first, turned(rest), word);
        if let Some(at) = text::find(rest, word) {
            let to = text::find(turned(rest), word)->0;
            let head = source.take(1 + at);
            lemma_turned(head);
            if text::begins(head, "ahead"@) {
                assert(source.subrange(0, 5) =~= head.subrange(0, 5));
            }
            assert(head.skip(1) =~= rest.take(at));
            assert(other.take(1 + to) =~= first + turned(rest).take(to));
        }
    }
}

proof fn lemma_turned_words(source: Seq<char>)
    ensures
        !text::has(turned(source), "ahead"@),
        text::has(source, "ahead"@) ==> text::has(turned(source), "behind"@),
    decreases source.len(),
{
    let other = turned(source);
    lemma_turned(source);
    lemma_has(source, "ahead"@);
    lemma_has(other, "ahead"@);
    lemma_has(other, "behind"@);
    if source.len() == 0 {
        assert(!text::begins(other, "ahead"@));
    } else if text::begins(source, "ahead"@) {
        let rest = turned(source.skip(5));
        lemma_turned_words(source.skip(5));
        assert forall|k: int| 0 <= k < 6 implies !text::occurs_at(other, "ahead"@, k) by {
            if text::occurs_at(other, "ahead"@, k) {
                assert(other.subrange(k, k + 5)[0] == 'a');
                assert(other[k] == "behind"@[k]);
            }
        }
        lemma_occurs_behind("behind"@, rest, "ahead"@);
        assert(other.subrange(0, 6) =~= "behind"@);
        assert(text::begins(other, "behind"@));
    } else {
        lemma_turned_words(source.skip(1));
        assert(other.skip(1) =~= turned(source.skip(1)));
        assert(!"ahead"@.contains('b'));
        lemma_turned_begins(source, "ahead"@);
    }
}

proof fn lemma_trailing_digits_behind(front: Seq<char>, back: Seq<char>)
    requires
        front.len() > 0,
        !text::is_digit(front.last()),
    ensures
        trailing_digits(front + back) == trailing_digits(back),
    decreases back.len(),
{
    let full = front + back;
    if back.len() > 0 {
        assert(full.last() == back.last());
        assert(full.drop_last() =~= front + back.drop_last());
        if text::is_digit(back.last()) {
            lemma_trailing_digits_behind(front, back.drop_last());
        }
    } else {
        assert(full =~= front);
    }
}

proof fn lemma_last_digits_before(front: Seq<char>, word: Seq<char>)
    requires
        forall|i: int| 0 <= i < word.len() ==> !text::is_digit(#[trigger] word[i]),
    ensures
        last_digits(front + word) == last_digits(front),
    decreases word.len(),
{
    let full = front + word;
    if word.len() > 0 {
        assert(full.last() == word[word.len() - 1]);
        assert(full.drop_last() =~= front + word.drop_last());
        lemma_last_digits_before(front, word.drop_last());
    } else {
        assert(full =~= front);
    }
}

proof fn lemma_last_digits_around(front: Seq<char>, word: Seq<char>, back: Seq<char>)
    requires
        word.len() > 0,
        forall|i: int| 0 <= i < word.len() ==> !text::is_digit(#[trigger] word[i]),
    ensures
        last_digits(front + word + back) == (if last_digits(back).len() > 0 {
            last_digits(back)
        } else {
            last_digits(front)
        }),
    decreases back.len(),
{
    let full = front + word + back;
    if back.len() == 0 {
        assert(full =~= front + word);
        lemma_last_digits_before(front, word);
        assert(trailing_digits(back).len() == 0);
    } else {
        assert(full.last() == back.last());
        assert(full.drop_last() =~= front + word + back.drop_last());
        if text::is_digit(back.last()) {
            assert((front + word).last() == word[word.len() - 1]);
            lemma_trailing_digits_behind(front + word, back);
        } else {
            lemma_last_digits_around(front, word, back.drop_last());
        }
    }
}

proof fn lemma_turned_digits(front: Seq<char>, source: Seq<char>)
    ensures
        last_digits(front + turned(source)) == last_digits(front + source),
    decreases source.len(),
{
    lemma_turned(source);
    if source.len() == 0 {
    } else if text::begins(source, "ahead"@) {
        let rest = source.skip(5);
        lemma_turned_digits(Seq::empty(), rest);
        assert(Seq::<char>::empty() + rest =~= rest);
        assert(Seq::<char>::empty() + turned(rest) =~= turned(rest));
        lemma_last_digits_around(front, "ahead"@, rest);
        lemma_last_digits_around(front, "behind"@, turned(rest));
        assert(front + source =~= front + "ahead"@ + rest);
        assert(front + turned(source) =~= front + "behind"@ + turned(rest));
    } else {
        let rest = source.skip(1);
        lemma_turned_digits(front.push(source[0]), rest);
        assert(front + source =~= front.push(source[0]) + rest);
        assert(front + turned(source) =~= front.push(source[0]) + turned(rest));
    }
}

proof fn lemma_hour_words_stand_apart(n: int)
    requires
        0 <= n <= 12,
    ensures
        stands_apart(hour_word(n) + " hour"@),
{
    reveal_strlit(" hour");
    reveal_strlit("zero");
    reveal_strlit("one");
    reveal_strlit("two");
    reveal_strlit("three");
    reveal_strlit("four");
    reveal_strlit("five");
    reveal_strlit("six");
    reveal_strlit("seven");
    reveal_strlit("eight");
    reveal_strlit("nine");
    reveal_strlit("ten");
    reveal_strlit("eleven");
    reveal_strlit("twelve");
    let word = hour_word(n);
    let phrase = word + " hour"@;
    assert forall|i: int| 0 <= i < phrase.len() implies phrase[i] != 'a' && phrase[i] != 'b' by {
        if i < word.len() {
            assert(phrase[i] == word[i]);
        } else {
            assert(phrase[i] == " hour"@[i - word.len()]);
        }
    }
    assert(phrase[0] == word[0] && phrase[1] == word[1]);
}

proof fn lemma_turned_hours(source: Seq<char>, from: int)
    requires
        0 <= from,
    ensures
        hours_in_words(turned(source), from) == hours_in_words(source, from),
    decreases 13 - from,
{
    if from <= 12 {
        lemma_hour_words_stand_apart(from);
        lemma_turned_find(source, hour_word(from) + " hour"@);
        lemma_turned_hours(source, from + 1);
    }
}

proof fn lemma_hours_are_counted(source: Seq<char>, from: int)
    requires
        0 <= from,
    ensures
        hours_in_words(source, from) matches Some(n) ==> n >= 0,
    decreases 13 - from,
{
    if from <= 12 {
        lemma_hours_are_counted(source, from + 1);
    }
}

/// With `behind` in place of `ahead` an offset is negated, and with `ahead` it
/// is not negative.
pub proof fn behind_negates_ahead(source: Seq<char>)
    requires
        text::has(source, "ahead"@),
    ensures
        timezone_offset(source) matches Some(n) ==> n >= 0,
        timezone_offset(text::replaced(source, "ahead"@, "behind"@)) == match timezone_offset(
            source,
        ) {
            Some(n) => Some(-n),
            None => None,
        },
{
    let other = turned(source);
    lemma_turned_words(source);
    lemma_turned_hours(source, 0);
    lemma_hours_are_counted(source, 0);
    reveal_strlit("hour");
    assert(stands_apart("hour"@)) by {
        assert forall|i: int| 0 <= i < 4 implies "hour"@[i] != 'a' && "hour"@[i] != 'b' by {}
    }
    lemma_turned_find(source, "hour"@);
    if let Some(at) = text::find(source, "hour"@) {
        lemma_turned_digits(Seq::empty(), source.take(at));
        assert(Seq::<char>::empty() + source.take(at) =~= source.take(at));
        assert(Seq::<char>::empty() + turned(source.take(at)) =~= turned(source.take(at)));
        lemma_last_digits(source.take(at));
        let digits = last_digits(source.take(at));
        if digits.len() > 0 {
            assert(text::is_digit(digits[0]));
        }
    }
}

/// The local hour at the destination, from an hour of departure and an offset.
pub open spec fn arrival(hour: Option<int>, offset: Option<int>) -> Reading {
    match (hour, offset) {
        (Some(h), Some(o)) => if words::fits(h + o) {
            Reading::Value(((h + o) % 24) as i32)
        } else {
            Reading::Overflow
        },
        _ => Reading::Missing,
    }
}

/// Whether a text in lowercase is a timezone challenge.
pub open spec fn is_timezone(lower: Seq<char>) -> bool {
    text::has(lower, "local hour"@) && text::has(lower, "destination"@)
}

/// The answer to a timezone challenge, from its text in lowercase.
pub open spec fn timezone(lower: Seq<char>) -> Reading {
    if is_timezone(lower) {
        arrival(departure_hour(lower), timezone_offset(lower))
    } else {
        Reading::Missing
    }
}

fn timezone_text(lower: &str) -> (r: bool)
    ensures
        r == is_timezone(lower@),
{
    text::contains(lower, "local hour") && text::contains(lower, "destination")
}

/// Answers a timezone challenge, from its text in lowercase.
pub fn read_timezone(lower: &str) -> (r: Reading)
    ensures
        r == timezone(lower@),
{
    if !timezone_text(lower) {
        return Reading::Missing;
    }
    match (parse_departure_hour(lower), parse_timezone_offset(lower)) {
        (Some(hour), Some(offset)) => match hour.checked_add(offset) {
            Some(sum) => {
                proof {
                    vstd::arithmetic::div_mod::lemma_mod_multiples_vanish(
                        100_000_000,
                        sum as int,
                        24,
                    );
                }
                let wrapped: i64 = (sum as i64 + 2_400_000_000) % 24;
                Reading::Value(wrapped as i32)
            },
            None => Reading::Overflow,
        },
        _ => Reading::Missing,
    }
}

/// The answer to a timezone challenge: the local hour at the destination.
pub fn solve_timezone_challenge(source: &str) -> (r: Option<i32>)
    requires
        !(timezone(text::lowercase(source@)) is Overflow),
    ensures
        r == timezone(text::lowercase(source@)).value(),
{
    let lower = text::to_lower(source);
    read_timezone(lower.as_str()).into_option()
}

/// The answer to a timezone challenge is an hour of the day.
pub proof fn arrival_is_an_hour(lower: Seq<char>)
    ensures
        timezone(lower) matches Reading::Value(hour) ==> 0 <= hour < 24,
{
}

// ── Answers in a reasoning ──────────────────────────────────────────────

/// The longer mark before an answer, in lowercase.
pub const LONG_MARK: &'static str = "challenge answer:";

/// The shorter mark before an answer, in lowercase.
pub const SHORT_MARK: &'static str = "challenge:";

/// The longer mark as it is written into a reasoning.
pub const LONG_FORM: &'static str = "Challenge answer:";

/// The shorter mark as it is written into a reasoning.
pub const SHORT_FORM: &'static str = "Challenge:";

/// Whether a line is there to carry an answer: it begins with one of the
/// marks, after white space and in any case.
pub open spec fn is_answer_line(line: Seq<char>) -> bool {
    let start = text::folded(text::trim_start(line));
    text::begins(start, LONG_MARK@) || text::begins(start, SHORT_MARK@)
}

/// A reasoning without the lines that carry an answer.
pub open spec fn stripped(reasoning: Seq<char>) -> Seq<char> {
    text::joined(
        text::lines(reasoning).filter(|line: Seq<char>| !is_answer_line(line)),
        seq!['\n'],
    )
}

// The letters of the marks are ASCII, and no other character has one of them
// in its lowercase form, so ASCII letters are all that has to be folded.
fn answer_line(line: &[char]) -> (r: bool)
    ensures
        r == is_answer_line(line@),
{
    let start = text::fold(text::trim_start_of(line));
    text::starts_with(start.as_slice(), LONG_MARK) || text::starts_with(
        start.as_slice(),
        SHORT_MARK,
    )
}

/// Removes the lines that carry an answer.
pub fn strip_challenge_answer(reasoning: &str) -> (r: String)
    ensures
        r@ == stripped(reasoning@),
{
    let chars = text::chars_of(reasoning);
    let lines = text::lines_of(chars.as_slice());
    let ghost all = text::texts(lines@);
    let ghost keep = |line: Seq<char>| !is_answer_line(line);
    let mut kept: Vec<Vec<char>> = Vec::new();
    let mut i: usize = 0;
    proof {
        reveal(Seq::filter);
        assert(all.take(0).filter(keep) =~= text::texts(kept@));
    }
    while i < lines.len()
        invariant
            i <= lines@.len(),
            all == text::texts(lines@),
            keep == (|line: Seq<char>| !is_answer_line(line)),
            text::texts(kept@) == all.take(i as int).filter(keep),
        decreases lines@.len() - i,
    {
        let ghost before = kept@;
        proof {
            reveal(Seq::filter);
            assert(all.take(i + 1).drop_last() =~= all.take(i as int));
            assert(all.take(i + 1).last() == lines@[i as int]@);
        }
        if !answer_line(lines[i].as_slice()) {
            let line = vstd::slice::slice_to_vec(lines[i].as_slice());
            kept.push(line);
            assert(text::texts(kept@) =~= text::texts(before).push(line@));
        }
        i = i + 1;
    }
    assert(all.take(i as int) =~= all);
    let out = text::join(&kept, '\n');
    text::string_of(out.as_slice())
}

/// A reasoning with an answer: without its own answer lines, and with two
/// lines that carry the answer at its end.
pub open spec fn answered(reasoning: Seq<char>, answer: Seq<char>) -> Seq<char> {
    text::trim(stripped(reasoning)) + "\nChallenge answer: "@ + answer + ".\nChallenge: "@ + answer
}

/// Writes an answer into a reasoning, in both forms that the server knows.
pub fn with_challenge_answer(reasoning: &str, answer: &str) -> (r: String)
    ensures
        r@ == answered(reasoning@, answer@),
{
    let base = text::chars_of(strip_challenge_answer(reasoning).as_str());
    let mut out = text::string_of(text::trim_of(base.as_slice()));
    out.append("\nChallenge answer: ");
    out.append(answer);
    out.append(".\nChallenge: ");
    out.append(answer);
    out
}

/// The digits after the first place where a mark stands in `searched`, a text
/// of the same length as the reasoning.
pub open spec fn digits_in(reasoning: Seq<char>, searched: Seq<char>, mark: Seq<char>) -> Seq<
    char,
> {
    match text::find(searched, mark) {
        Some(at) => leading_digits(text::trim_start(reasoning.skip(at + mark.len()))),
        None => Seq::empty(),
    }
}

/// The digits after the first place where a mark stands, so spelled.
pub open spec fn digits_at(reasoning: Seq<char>, mark: Seq<char>) -> Seq<char> {
    digits_in(reasoning, reasoning, mark)
}

/// The digits after the first place where a mark stands, in any case.
pub open spec fn digits_after(reasoning: Seq<char>, mark: Seq<char>) -> Seq<char> {
    digits_in(reasoning, text::folded(reasoning), mark)
}

/// The answer that a reasoning carries: the digits after the first of the
/// usual spellings of a mark that has digits after its first place, or else
/// after a mark in any case.
pub open spec fn shown_answer(reasoning: Seq<char>) -> Option<Seq<char>> {
    if digits_at(reasoning, LONG_FORM@).len() > 0 {
        Some(digits_at(reasoning, LONG_FORM@))
    } else if digits_at(reasoning, LONG_MARK@).len() > 0 {
        Some(digits_at(reasoning, LONG_MARK@))
    } else if digits_at(reasoning, SHORT_FORM@).len() > 0 {
        Some(digits_at(reasoning, SHORT_FORM@))
    } else if digits_after(reasoning, LONG_MARK@).len() > 0 {
        Some(digits_after(reasoning, LONG_MARK@))
    } else if digits_after(reasoning, SHORT_MARK@).len() > 0 {
        Some(digits_after(reasoning, SHORT_MARK@))
    } else {
        None
    }
}

fn digits_of(reasoning: &[char], searched: &[char], mark: &str) -> (r: String)
    requires
        searched@.len() == reasoning@.len(),
    ensures
        r@ == digits_in(reasoning@, searched@, mark@),
{
    proof {
        text::find_is_first(searched@, mark@);
    }
    match text::find_in(searched, mark) {
        Some(at) => {
            let width: usize = text::chars_of(mark).len();
            let total: usize = reasoning.len();
            assert(at + width <= total);
            let rest = slice_subrange(reasoning, at + width, total);
            assert(rest@ =~= reasoning@.skip(at + mark@.len()));
            text::string_of(leading_digits_of(text::trim_start_of(rest)))
        },
        None => String::new(),
    }
}

/// The answer that a reasoning carries, if any. Either mark is accepted in any
/// case; the usual spellings go first.
pub fn extract_challenge_answer(reasoning: &str) -> (r: Option<String>)
    ensures
        crate::json::opt_view(r) == shown_answer(reasoning@),
{
    let chars = text::chars_of(reasoning);
    let source: &[char] = chars.as_slice();
    let long_form = digits_of(source, source, LONG_FORM);
    if long_form.unicode_len() > 0 {
        return Some(long_form);
    }
    let lower_form = digits_of(source, source, LONG_MARK);
    if lower_form.unicode_len() > 0 {
        return Some(lower_form);
    }
    let short_form = digits_of(source, source, SHORT_FORM);
    if short_form.unicode_len() > 0 {
        return Some(short_form);
    }
    let lower = text::fold(source);
    let long = digits_of(source, lower.as_slice(), LONG_MARK);
    if long.unicode_len() > 0 {
        return Some(long);
    }
    let short = digits_of(source, lower.as_slice(), SHORT_MARK);
    if short.unicode_len() > 0 {
        return Some(short);
    }
    None
}

/// An answer that a reasoning carries is one or more digits.
pub proof fn shown_answers_are_digits(reasoning: Seq<char>)
    ensures
        shown_answer(reasoning) matches Some(answer) ==> answer.len() > 0 && text::all_digits(
            answer,
        ),
{
    let lower = text::folded(reasoning);
    lemma_digits_in(reasoning, reasoning, LONG_FORM@);
    lemma_digits_in(reasoning, reasoning, LONG_MARK@);
    lemma_digits_in(reasoning, reasoning, SHORT_FORM@);
    lemma_digits_in(reasoning, lower, LONG_MARK@);
    lemma_digits_in(reasoning, lower, SHORT_MARK@);
}

proof fn lemma_digits_in(reasoning: Seq<char>, searched: Seq<char>, mark: Seq<char>)
    ensures
        text::all_digits(digits_in(reasoning, searched, mark)),
{
    if let Some(at) = text::find(searched, mark) {
        lemma_leading_digits(text::trim_start(reasoning.skip(at + mark.len())));
    }
}

/// A usual spelling of a mark is a mark.
proof fn lemma_forms_are_marks(reasoning: Seq<char>)
    ensures
        text::has(reasoning, LONG_FORM@) ==> text::has(text::folded(reasoning), LONG_MARK@),
        text::has(reasoning, SHORT_FORM@) ==> text::has(text::folded(reasoning), SHORT_MARK@),
{
    reveal_strlit("Challenge answer:");
    reveal_strlit("Challenge:");
    reveal_strlit("challenge answer:");
    reveal_strlit("challenge:");
    let lower = text::folded(reasoning);
    if text::has(reasoning, LONG_FORM@) {
        let at = choose|at: int| text::occurs_at(reasoning, LONG_FORM@, at);
        let part = reasoning.subrange(at, at + 17);
        assert(lower.subrange(at, at + 17) =~= text::folded(part));
        assert(text::folded(part) =~= LONG_MARK@);
        assert(text::occurs_at(lower, LONG_MARK@, at));
    }
    if text::has(reasoning, SHORT_FORM@) {
        let at = choose|at: int| text::occurs_at(reasoning, SHORT_FORM@, at);
        let part = reasoning.subrange(at, at + 10);
        assert(lower.subrange(at, at + 10) =~= text::folded(part));
        assert(text::folded(part) =~= SHORT_MARK@);
        assert(text::occurs_at(lower, SHORT_MARK@, at));
    }
}

// ── What is read back of an answer ──────────────────────────────────────

proof fn lemma_find_in_front(front: Seq<char>, back: Seq<char>, mark: Seq<char>)
    requires
        text::has(front, mark),
    ensures
        text::find(front + back, mark) == text::find(front, mark),
{
    text::find_is_first(front, mark);
    text::find_is_first(front + back, mark);
    let at = text::find(front, mark)->0;
    let full = front + back;
    assert(full.subrange(at, at + mark.len()) =~= front.subrange(at, at + mark.len()));
    assert(text::occurs_at(full, mark, at));
    let first = text::find(full, mark)->0;
    if first < at {
        assert(full.subrange(first, first + mark.len()) =~= front.subrange(
            first,
            first + mark.len(),
        ));
        assert(text::occurs_at(front, mark, first));
    }
}

proof fn lemma_find_in_back(front: Seq<char>, back: Seq<char>, mark: Seq<char>)
    requires
        !text::has(front, mark),
        back.len() > 0,
        !mark.contains(back[0]),
        mark.len() > 0,
    ensures
        text::has(front + back, mark) == text::has(back, mark),
        text::find(back, mark) matches Some(at) ==> text::find(front + back, mark) == Some(
            front.len() + at,
        ),
{
    let full = front + back;
    text::find_is_first(back, mark);
    text::find_is_first(full, mark);
    assert forall|j: int| #[trigger] text::occurs_at(full, mark, j) implies j >= front.len()
        && text::occurs_at(back, mark, j - front.len()) by {
        if j + mark.len() <= front.len() {
            assert(full.subrange(j, j + mark.len()) =~= front.subrange(j, j + mark.len()));
            assert(text::occurs_at(front, mark, j));
        } else if j < front.len() {
            let k = front.len() - j;
            assert(full.subrange(j, j + mark.len())[k] == back[0]);
            assert(mark[k] == back[0]);
        } else {
            assert(full.subrange(j, j + mark.len()) =~= back.subrange(
                j - front.len(),
                j - front.len() + mark.len(),
            ));
        }
    }
    assert forall|j: int| #[trigger] text::occurs_at(back, mark, j) implies text::occurs_at(
        full,
        mark,
        front.len() + j,
    ) by {
        assert(full.subrange(front.len() + j, front.len() + j + mark.len()) =~= back.subrange(
            j,
            j + mark.len(),
        ));
    }
    if let Some(at) = text::find(back, mark) {
        assert(text::occurs_at(full, mark, front.len() + at));
        let first = text::find(full, mark)->0;
        assert(text::occurs_at(full, mark, first));
        assert(text::occurs_at(back, mark, first - front.len()));
    }
    if text::has(full, mark) {
        let first = text::find(full, mark)->0;
        assert(text::occurs_at(back, mark, first - front.len()));
    }
}

proof fn lemma_trim_start_of_sum(front: Seq<char>, back: Seq<char>)
    requires
        front.len() > 0,
        !text::is_space(front.last()),
    ensures
        text::trim_start(front + back) == text::trim_start(front) + back,
        text::trim_start(front).len() > 0,
    decreases front.len(),
{
    if text::is_space(front[0]) {
        assert((front + back).skip(1) =~= front.skip(1) + back);
        assert(front.skip(1).last() == front.last());
        lemma_trim_start_of_sum(front.skip(1), back);
    }
}

proof fn lemma_leading_digits_of_sum(front: Seq<char>, back: Seq<char>)
    requires
        back.len() > 0,
        !text::is_digit(back[0]),
    ensures
        leading_digits(front + back) == leading_digits(front),
        text::all_digits(front) ==> leading_digits(front) == front,
    decreases front.len(),
{
    if front.len() > 0 {
        assert((front + back).skip(1) =~= front.skip(1) + back);
        lemma_leading_digits_of_sum(front.skip(1), back);
        if text::all_digits(front) {
            assert forall|i: int| 0 <= i < front.skip(1).len() implies text::is_digit(
                #[trigger] front.skip(1)[i],
            ) by {
                assert(front.skip(1)[i] == front[i + 1]);
            }
            assert(text::is_digit(front[0]));
            assert(seq![front[0]] + front.skip(1) =~= front);
        }
    } else {
        assert(front + back =~= back);
        assert(leading_digits(front) =~= front);
    }
}

proof fn lemma_all_leading_digits(digits: Seq<char>)
    requires
        text::all_digits(digits),
    ensures
        leading_digits(digits) == digits,
    decreases digits.len(),
{
    if digits.len() > 0 {
        assert forall|i: int| 0 <= i < digits.skip(1).len() implies text::is_digit(
            #[trigger] digits.skip(1)[i],
        ) by {
            assert(digits.skip(1)[i] == digits[i + 1]);
        }
        lemma_all_leading_digits(digits.skip(1));
        assert(text::is_digit(digits[0]));
        assert(seq![digits[0]] + digits.skip(1) =~= digits);
    } else {
        assert(leading_digits(digits) =~= digits);
    }
}

proof fn lemma_trimmed_end(source: Seq<char>)
    ensures
        text::trim_end(source).len() > 0 ==> !text::is_space(text::trim_end(source).last()),
    decreases source.len(),
{
    if source.len() > 0 && text::is_space(source.last()) {
        lemma_trimmed_end(source.drop_last());
    }
}

/// The two lines that carry an answer, with the line feed before them.
spec fn answer_lines(answer: Seq<char>) -> Seq<char> {
    "\nChallenge answer: "@ + answer + ".\nChallenge: "@ + answer
}

proof fn lemma_marks_in_lines(answer: Seq<char>)
    requires
        answer.len() > 0,
        text::all_digits(answer),
    ensures
        answer_lines(answer).len() > 1,
        answer_lines(answer)[0] == '\n',
        answer_lines(answer)[1] == 'C',
        digits_at(answer_lines(answer), LONG_FORM@) == answer,
        digits_at(answer_lines(answer), LONG_MARK@).len() == 0,
        digits_at(answer_lines(answer), SHORT_FORM@) == answer,
{
    reveal_strlit("\nChallenge answer: ");
    reveal_strlit(".\nChallenge: ");
    reveal_strlit("Challenge answer:");
    reveal_strlit("challenge answer:");
    reveal_strlit("Challenge:");
    let lines = answer_lines(answer);
    let n = answer.len() as int;
    let head = "\nChallenge answer: "@;
    let link = ".\nChallenge: "@;
    assert(lines.len() == 19 + n + 13 + n);
    assert forall|i: int| 0 <= i < 19 implies lines[i] == head[i] by {}
    assert forall|i: int| 0 <= i < n implies #[trigger] lines[19 + i] == answer[i] by {}
    assert forall|i: int| 0 <= i < 13 implies lines[19 + n + i] == link[i] by {}
    // the longer mark stands behind the first line feed
    assert(lines.subrange(1, 18) =~= LONG_FORM@) by {
        assert(head.subrange(1, 18) =~= LONG_FORM@);
    }
    assert(text::occurs_at(lines, LONG_FORM@, 1));
    assert(!text::occurs_at(lines, LONG_FORM@, 0)) by {
        if text::occurs_at(lines, LONG_FORM@, 0) {
            assert(lines.subrange(0, 17)[0] == LONG_FORM@[0]);
        }
    }
    text::find_is_first(lines, LONG_FORM@);
    assert(text::find(lines, LONG_FORM@) == Some(1int));
    let rest = lines.skip(18);
    let tail = link + answer;
    assert(rest =~= seq![' '] + (answer + tail));
    assert(rest.skip(1) =~= answer + tail);
    assert(text::is_digit(answer[0]));
    assert(text::trim_start(rest.skip(1)) == rest.skip(1));
    assert(text::trim_start(rest) == answer + tail);
    assert(tail[0] == '.');
    lemma_leading_digits_of_sum(answer, tail);
    // the mark in lowercase needs a lowercase c
    assert forall|j: int| !text::occurs_at(lines, LONG_MARK@, j) by {
        if text::occurs_at(lines, LONG_MARK@, j) {
            assert(lines.subrange(j, j + 17)[0] == 'c');
            assert(lines[j] == 'c');
            if 19 <= j < 19 + n {
                assert(text::is_digit(answer[j - 19]));
            } else if j >= 19 + n + 13 {
                assert(lines[j] == answer[j - (19 + n + 13)]);
                assert(text::is_digit(answer[j - (19 + n + 13)]));
            }
        }
    }
    text::find_is_first(lines, LONG_MARK@);
    // the shorter mark stands behind the second line feed
    let at = 19 + n + 2;
    assert(lines.subrange(at, at + 10) =~= SHORT_FORM@) by {
        assert forall|i: int| 0 <= i < 10 implies lines[at + i] == SHORT_FORM@[i] by {
            assert(lines[19 + n + (2 + i)] == link[2 + i]);
        }
    }
    assert(text::occurs_at(lines, SHORT_FORM@, at));
    assert forall|j: int| 0 <= j < at implies !text::occurs_at(lines, SHORT_FORM@, j) by {
        if text::occurs_at(lines, SHORT_FORM@, j) {
            assert(lines.subrange(j, j + 10)[0] == 'C');
            assert(lines.subrange(j, j + 10)[9] == ':');
            assert(lines[j] == 'C');
            assert(lines[j + 9] == ':');
            if 19 <= j < 19 + n {
                assert(text::is_digit(answer[j - 19]));
            }
            assert(j == 1);
            assert(head[10] == ' ');
        }
    }
    text::find_is_first(lines, SHORT_FORM@);
    assert(text::find(lines, SHORT_FORM@) == Some(at));
    let last = lines.skip(at + 10);
    assert(last =~= seq![' '] + answer);
    assert(last.skip(1) =~= answer);
    assert(text::trim_start(last.skip(1)) == last.skip(1));
    lemma_all_leading_digits(answer);
}

/// What is read of a sum whose front ends without white space, given the texts
/// in which the mark is searched for.
proof fn lemma_mark_in_full(
    front: Seq<char>,
    back: Seq<char>,
    low: Seq<char>,
    end: Seq<char>,
    mark: Seq<char>,
)
    requires
        front.len() > 0 ==> !text::is_space(front.last()),
        back.len() > 1,
        back[0] == '\n',
        back[1] == 'C',
        low.len() == front.len(),
        end.len() == back.len(),
        end[0] == '\n',
        mark.len() > 0,
        !mark.contains('\n'),
    ensures
        text::has(low, mark) ==> digits_in(front + back, low + end, mark) == digits_in(
            front,
            low,
            mark,
        ),
        !text::has(low, mark) ==> digits_in(front + back, low + end, mark) == digits_in(
            back,
            end,
            mark,
        ) && digits_in(front, low, mark).len() == 0,
{
    text::find_is_first(low, mark);
    text::find_is_first(end, mark);
    text::find_is_first(low + end, mark);
    if text::has(low, mark) {
        lemma_find_in_front(low, end, mark);
        let at = text::find(low, mark)->0;
        let rest = front.skip(at + mark.len());
        assert((front + back).skip(at + mark.len()) =~= rest + back);
        if rest.len() > 0 {
            assert(rest.last() == front.last());
            lemma_trim_start_of_sum(rest, back);
            lemma_leading_digits_of_sum(text::trim_start(rest), back);
        } else {
            assert(rest + back =~= back);
            assert(back.skip(1)[0] == 'C');
            assert(text::trim_start(back.skip(1)) == back.skip(1));
            assert(text::trim_start(back) == back.skip(1));
            assert(leading_digits(back.skip(1)) =~= Seq::<char>::empty());
            assert(leading_digits(text::trim_start(rest)) =~= Seq::<char>::empty());
        }
    } else {
        lemma_find_in_back(low, end, mark);
        if let Some(at) = text::find(end, mark) {
            assert((front + back).skip(front.len() + at + mark.len()) =~= back.skip(
                at + mark.len(),
            ));
        }
    }
}

/// Whether a reasoning leaves the word to the lines that are added to it: it
/// has no longer mark in its usual spelling, or neither digits after a longer
/// mark in a usual spelling nor a shorter mark in its own.
pub open spec fn is_silent(reasoning: Seq<char>) -> bool {
    ||| !text::has(reasoning, LONG_FORM@)
    ||| digits_at(reasoning, LONG_FORM@).len() == 0 && digits_at(reasoning, LONG_MARK@).len() == 0
        && !text::has(reasoning, SHORT_FORM@)
}

/// An answer that was written into a reasoning is read back, wherever the
/// reasoning does not show an answer in the middle of one of its own lines;
/// there its own answer is read.
pub proof fn written_answer_is_read_back(reasoning: Seq<char>, answer: Seq<char>)
    requires
        answer.len() > 0,
        text::all_digits(answer),
    ensures
        shown_answer(answered(reasoning, answer)) == if is_silent(
            text::trim(stripped(reasoning)),
        ) {
            Some(answer)
        } else {
            shown_answer(text::trim(stripped(reasoning)))
        },
{
    let base = text::trim(stripped(reasoning));
    let lines = answer_lines(answer);
    assert(answered(reasoning, answer) =~= base + lines);
    lemma_marks_in_lines(answer);
    lemma_trimmed_end(text::trim_start(stripped(reasoning)));
    reveal_strlit("Challenge answer:");
    reveal_strlit("Challenge:");
    reveal_strlit("challenge answer:");
    reveal_strlit("challenge:");
    let (low, end) = (text::folded(base), text::folded(lines));
    assert(text::folded(base + lines) =~= low + end);
    assert(end[0] == '\n');
    lemma_mark_in_full(base, lines, base, lines, LONG_FORM@);
    lemma_mark_in_full(base, lines, base, lines, LONG_MARK@);
    lemma_mark_in_full(base, lines, base, lines, SHORT_FORM@);
    lemma_mark_in_full(base, lines, low, end, LONG_MARK@);
    lemma_mark_in_full(base, lines, low, end, SHORT_MARK@);
    lemma_forms_are_marks(base);
}

/// Whether a reasoning has the longer mark, in its usual spelling, only on
/// lines that begin with a mark after white space.
pub open spec fn marks_begin_lines(reasoning: Seq<char>) -> bool {
    forall|i: int|
        0 <= i < text::lines(reasoning).len() && !is_answer_line(
            #[trigger] text::lines(reasoning)[i],
        ) ==> !text::has(text::lines(reasoning)[i], LONG_FORM@)
}

proof fn lemma_has_in_joined(items: Seq<Seq<char>>, mark: Seq<char>)
    requires
        mark.len() > 0,
        !mark.contains('\n'),
        forall|i: int| 0 <= i < items.len() ==> !text::has(#[trigger] items[i], mark),
    ensures
        !text::has(text::joined(items, seq!['\n']), mark),
    decreases items.len(),
{
    let full = text::joined(items, seq!['\n']);
    if items.len() == 0 {
        assert forall|at: int| !text::occurs_at(full, mark, at) by {}
    } else if items.len() > 1 {
        let front = text::joined(items.drop_last(), seq!['\n']);
        lemma_has_in_joined(items.drop_last(), mark);
        let item = items[items.len() - 1];
        let feed = seq!['\n'] + item;
        assert(full =~= front + feed);
        lemma_find_in_back(front, feed, mark);
        assert forall|at: int| !text::occurs_at(feed, mark, at) by {
            if text::occurs_at(feed, mark, at) {
                if at == 0 {
                    assert(feed.subrange(0, mark.len() as int)[0] == mark[0]);
                } else {
                    assert(feed.subrange(at, at + mark.len()) =~= item.subrange(
                        at - 1,
                        at - 1 + mark.len(),
                    ));
                    assert(text::occurs_at(item, mark, at - 1));
                }
            }
        }
    }
}

proof fn lemma_trim_is_a_part(source: Seq<char>) -> (at: int)
    ensures
        0 <= at,
        at + text::trim(source).len() <= source.len(),
        text::trim(source) == source.subrange(at, at + text::trim(source).len()),
{
    let at = lemma_trim_start_is_a_part(source);
    lemma_trim_end_is_a_part(text::trim_start(source));
    assert(text::trim(source) =~= source.subrange(at, at + text::trim(source).len()));
    at
}

proof fn lemma_trim_start_is_a_part(source: Seq<char>) -> (at: int)
    ensures
        0 <= at <= source.len(),
        text::trim_start(source) == source.skip(at),
    decreases source.len(),
{
    if source.len() > 0 && text::is_space(source[0]) {
        let at = lemma_trim_start_is_a_part(source.skip(1));
        assert(source.skip(1).skip(at) =~= source.skip(at + 1));
        at + 1
    } else {
        assert(source.skip(0) =~= source);
        0
    }
}

proof fn lemma_trim_end_is_a_part(source: Seq<char>)
    ensures
        text::trim_end(source).len() <= source.len(),
        text::trim_end(source) == source.take(text::trim_end(source).len() as int),
    decreases source.len(),
{
    if source.len() > 0 && text::is_space(source.last()) {
        lemma_trim_end_is_a_part(source.drop_last());
        let n = text::trim_end(source).len() as int;
        assert(source.drop_last().take(n) =~= source.take(n));
    } else {
        assert(source.take(source.len() as int) =~= source);
    }
}

proof fn lemma_kept_lines(lines: Seq<Seq<char>>)
    ensures
        ({
            let kept = lines.filter(|line: Seq<char>| !is_answer_line(line));
            forall|i: int|
                0 <= i < kept.len() ==> lines.contains(#[trigger] kept[i]) && !is_answer_line(
                    kept[i],
                )
        }),
    decreases lines.len(),
{
    reveal(Seq::filter);
    let plain = |line: Seq<char>| !is_answer_line(line);
    let kept = lines.filter(plain);
    if lines.len() > 0 {
        let before = lines.drop_last().filter(plain);
        lemma_kept_lines(lines.drop_last());
        assert forall|i: int| 0 <= i < kept.len() implies lines.contains(#[trigger] kept[i])
            && !is_answer_line(kept[i]) by {
            if i < before.len() {
                assert(kept[i] == before[i]);
                let k = choose|k: int|
                    0 <= k < lines.drop_last().len() && lines.drop_last()[k] == before[i];
                assert(lines[k] == kept[i]);
            } else {
                assert(kept[i] == lines[lines.len() - 1]);
            }
        }
    }
}

proof fn lemma_no_mark_is_left(reasoning: Seq<char>)
    requires
        marks_begin_lines(reasoning),
    ensures
        !text::has(text::trim(stripped(reasoning)), LONG_FORM@),
{
    reveal_strlit("Challenge answer:");
    let mark = LONG_FORM@;
    let all = text::lines(reasoning);
    let plain = |line: Seq<char>| !is_answer_line(line);
    let kept = all.filter(plain);
    lemma_kept_lines(all);
    assert forall|i: int| 0 <= i < kept.len() implies !text::has(#[trigger] kept[i], mark) by {
        let k = choose|k: int| 0 <= k < all.len() && all[k] == kept[i];
        assert(!is_answer_line(all[k]));
    }
    lemma_has_in_joined(kept, mark);
    let source = stripped(reasoning);
    let base = text::trim(source);
    let from = lemma_trim_is_a_part(source);
    if text::has(base, mark) {
        let at = choose|at: int| text::occurs_at(base, mark, at);
        assert(source.subrange(from + at, from + at + mark.len()) =~= base.subrange(
            at,
            at + mark.len(),
        ));
        assert(text::occurs_at(source, mark, from + at));
    }
}

/// An answer that was written into a reasoning is read back, whatever stale
/// answer lines the reasoning held, unless it has the longer mark, in its usual
/// spelling, in the middle of another line.
pub proof fn stale_answers_are_replaced(reasoning: Seq<char>, answer: Seq<char>)
    requires
        answer.len() > 0,
        text::all_digits(answer),
        marks_begin_lines(reasoning),
    ensures
        shown_answer(answered(reasoning, answer)) == Some(answer),
{
    lemma_no_mark_is_left(reasoning);
    written_answer_is_read_back(reasoning, answer);
}

// ── A second answer ─────────────────────────────────────────────────────

/// Whether no line of a text carries an answer.
spec fn is_plain(source: Seq<char>) -> bool {
    forall|i: int|
        0 <= i < text::lines(source).len() ==> !is_answer_line(#[trigger] text::lines(source)[i])
}

proof fn lemma_shorter_line_is_plain(line: Seq<char>, ch: char)
    requires
        is_answer_line(line),
    ensures
        is_answer_line(line.push(ch)),
{
    reveal_strlit("challenge answer:");
    reveal_strlit("challenge:");
    lemma_trim_start_of_push(line, ch);
    let start = text::folded(text::trim_start(line));
    let longer = text::folded(text::trim_start(line.push(ch)));
    assert(start.len() > 0);
    assert(longer =~= start.push(text::ascii_lower(ch)));
    if text::begins(start, LONG_MARK@) {
        assert(longer.subrange(0, LONG_MARK@.len() as int) =~= start.subrange(
            0,
            LONG_MARK@.len() as int,
        ));
    } else {
        assert(longer.subrange(0, SHORT_MARK@.len() as int) =~= start.subrange(
            0,
            SHORT_MARK@.len() as int,
        ));
    }
}

proof fn lemma_trim_start_of_push(line: Seq<char>, ch: char)
    ensures
        text::trim_start(line).len() > 0 ==> text::trim_start(line.push(ch)) == text::trim_start(
            line,
        ).push(ch),
    decreases line.len(),
{
    if line.len() > 0 && text::is_space(line[0]) {
        assert(line.push(ch).skip(1) =~= line.skip(1).push(ch));
        lemma_trim_start_of_push(line.skip(1), ch);
    }
}

proof fn lemma_plain_without_last(source: Seq<char>, ch: char)
    requires
        is_plain(source.push(ch)),
    ensures
        is_plain(source),
    decreases source.len(),
{
    let full = source.push(ch);
    text::lemma_find_feed(source);
    text::lemma_find_feed(full);
    if source.len() == 0 {
    } else {
        match text::find_char(source, '\n') {
            None => {
                assert(text::lines(source) =~= seq![source]);
                let at = text::find_char(full, '\n');
                if ch == '\n' {
                    assert(full =~= source + seq!['\n'] + Seq::<char>::empty());
                    text::lemma_find_feed_after(source, Seq::empty());
                    assert(full.take(source.len() as int) =~= source);
                    assert(text::lines(full)[0] == text::without_return(source));
                    if source.last() == '\r' && is_answer_line(source) {
                        lemma_return_ends_no_mark(source);
                    }
                } else {
                    if let Some(k) = at {
                        assert(source[k] == '\n');
                    }
                    assert(text::lines(full) =~= seq![full]);
                    assert(!is_answer_line(text::lines(full)[0]));
                    if is_answer_line(source) {
                        lemma_shorter_line_is_plain(source, ch);
                    }
                }
            },
            Some(at) => {
                let rest = source.skip(at + 1);
                assert(full =~= source.take(at) + seq!['\n'] + rest.push(ch));
                text::lemma_find_feed_after(source.take(at), rest.push(ch));
                assert(full.skip(at + 1) =~= rest.push(ch));
                assert(full.take(at) =~= source.take(at));
                let first = text::without_return(source.take(at));
                assert(text::lines(full) =~= seq![first] + text::lines(rest.push(ch)));
                assert forall|i: int| 0 <= i < text::lines(rest.push(ch)).len() implies
                    !is_answer_line(#[trigger] text::lines(rest.push(ch))[i]) by {
                    assert(text::lines(full)[i + 1] == text::lines(rest.push(ch))[i]);
                }
                lemma_plain_without_last(rest, ch);
                assert(text::lines(source) =~= seq![first] + text::lines(rest));
                assert(text::lines(full)[0] == first);
            },
        }
    }
}

proof fn lemma_return_ends_no_mark(line: Seq<char>)
    requires
        line.len() > 0,
        line.last() == '\r',
        is_answer_line(line),
    ensures
        is_answer_line(text::without_return(line)),
{
    reveal_strlit("challenge answer:");
    reveal_strlit("challenge:");
    let short = line.drop_last();
    lemma_trim_start_of_push(short, '\r');
    assert(short.push('\r') =~= line);
    let start = text::folded(text::trim_start(line));
    let from = lemma_trim_start_is_a_part(line);
    assert(start.last() == '\r');
    if text::trim_start(short).len() > 0 {
        let less = text::folded(text::trim_start(short));
        assert(start =~= less.push('\r'));
        if text::begins(start, LONG_MARK@) {
            assert(start.subrange(0, 17)[16] == ':');
            assert(less.subrange(0, 17) =~= start.subrange(0, 17));
        } else {
            assert(start.subrange(0, 10)[9] == ':');
            assert(less.subrange(0, 10) =~= start.subrange(0, 10));
        }
    } else {
        lemma_trim_start_of_blank(short, '\r');
        assert(start.len() == 0);
    }
}

proof fn lemma_trim_start_of_blank(line: Seq<char>, ch: char)
    requires
        text::trim_start(line).len() == 0,
        text::is_space(ch),
    ensures
        text::trim_start(line.push(ch)).len() == 0,
    decreases line.len(),
{
    if line.len() > 0 {
        assert(line.push(ch).skip(1) =~= line.skip(1).push(ch));
        lemma_trim_start_of_blank(line.skip(1), ch);
    } else {
        assert(line.push(ch).skip(1) =~= Seq::<char>::empty());
        assert(text::trim_start(Seq::<char>::empty()).len() == 0);
    }
}

proof fn lemma_plain_without_first(source: Seq<char>)
    requires
        source.len() > 0,
        text::is_space(source[0]),
        is_plain(source),
    ensures
        is_plain(source.skip(1)),
{
    let rest = source.skip(1);
    text::lemma_find_feed(source);
    text::lemma_find_feed(rest);
    let all = text::lines(source);
    if rest.len() == 0 {
    } else if source[0] == '\n' {
        assert(source =~= Seq::<char>::empty() + seq!['\n'] + rest);
        text::lemma_find_feed_after(Seq::empty(), rest);
        assert(all =~= seq![text::without_return(source.take(0))] + text::lines(rest));
        assert forall|i: int| 0 <= i < text::lines(rest).len() implies !is_answer_line(
            #[trigger] text::lines(rest)[i],
        ) by {
            assert(all[i + 1] == text::lines(rest)[i]);
        }
    } else {
        match text::find_char(rest, '\n') {
            None => {
                if let Some(at) = text::find_char(source, '\n') {
                    assert(rest[at - 1] == '\n');
                }
                assert(all =~= seq![source]);
                assert(!is_answer_line(all[0]));
            },
            Some(at) => {
                let line = rest.take(at);
                let behind = rest.skip(at + 1);
                assert(source =~= source.take(at + 1) + seq!['\n'] + behind);
                assert(!source.take(at + 1).contains('\n')) by {
                    if source.take(at + 1).contains('\n') {
                        let upto = source.take(at + 1);
                        let k = choose|k: int| 0 <= k < upto.len() && upto[k] == '\n';
                        assert(line[k - 1] == '\n');
                    }
                }
                text::lemma_find_feed_after(source.take(at + 1), behind);
                assert(source.skip(at + 2) =~= behind);
                assert(all =~= seq![text::without_return(source.take(at + 1))] + text::lines(
                    behind,
                ));
                let first = text::without_return(line);
                assert(text::lines(rest) =~= seq![first] + text::lines(behind));
                assert(!is_answer_line(all[0]));
                let longer = text::without_return(source.take(at + 1));
                if line.len() == 0 {
                    assert(text::trim_start(first).len() == 0);
                    reveal_strlit("challenge answer:");
                    reveal_strlit("challenge:");
                } else {
                    assert(source.take(at + 1).last() == line.last());
                    assert(longer.skip(1) =~= first);
                    assert(longer[0] == source[0]);
                }
                assert forall|i: int| 0 <= i < text::lines(rest).len() implies !is_answer_line(
                    #[trigger] text::lines(rest)[i],
                ) by {
                    if i > 0 {
                        assert(all[i] == text::lines(rest)[i]);
                    }
                }
            },
        }
    }
}

proof fn lemma_plain_trimmed(source: Seq<char>)
    requires
        is_plain(source),
    ensures
        is_plain(text::trim(source)),
{
    lemma_plain_trimmed_start(source);
    lemma_plain_trimmed_end(text::trim_start(source));
}

proof fn lemma_plain_trimmed_start(source: Seq<char>)
    requires
        is_plain(source),
    ensures
        is_plain(text::trim_start(source)),
    decreases source.len(),
{
    if source.len() > 0 && text::is_space(source[0]) {
        lemma_plain_without_first(source);
        lemma_plain_trimmed_start(source.skip(1));
    }
}

proof fn lemma_plain_trimmed_end(source: Seq<char>)
    requires
        is_plain(source),
    ensures
        is_plain(text::trim_end(source)),
    decreases source.len(),
{
    if source.len() > 0 && text::is_space(source.last()) {
        assert(source.drop_last().push(source.last()) =~= source);
        lemma_plain_without_last(source.drop_last(), source.last());
        lemma_plain_trimmed_end(source.drop_last());
    }
}

proof fn lemma_trimmed_start(source: Seq<char>)
    ensures
        text::trim_start(source).len() > 0 ==> !text::is_space(text::trim_start(source)[0]),
    decreases source.len(),
{
    if source.len() > 0 && text::is_space(source[0]) {
        lemma_trimmed_start(source.skip(1));
    }
}

proof fn lemma_trim_twice(source: Seq<char>)
    ensures
        text::trim(text::trim(source)) == text::trim(source),
{
    let start = text::trim_start(source);
    let base = text::trim(source);
    lemma_trimmed_start(source);
    lemma_trimmed_end(start);
    lemma_trim_end_is_a_part(start);
    if base.len() > 0 {
        assert(base[0] == start[0]);
    }
    assert(text::trim_start(base) == base);
}

proof fn lemma_stripped_is_plain(reasoning: Seq<char>)
    requires
        !reasoning.contains('\r'),
    ensures
        is_plain(stripped(reasoning)),
        !stripped(reasoning).contains('\r'),
{
    let all = text::lines(reasoning);
    let plain = |line: Seq<char>| !is_answer_line(line);
    let kept = all.filter(plain);
    lemma_kept_lines(all);
    text::lemma_lines_are_lines(reasoning);
    assert forall|i: int| 0 <= i < kept.len() implies text::is_one_line(#[trigger] kept[i])
        && !is_answer_line(kept[i]) by {
        let k = choose|k: int| 0 <= k < all.len() && all[k] == kept[i];
        assert(!all[k].contains('\n'));
    }
    text::lemma_lines_of_joined(kept);
    assert forall|i: int| 0 <= i < text::lines(stripped(reasoning)).len() implies
        !is_answer_line(#[trigger] text::lines(stripped(reasoning))[i]) by {
        let line = text::lines(stripped(reasoning))[i];
        assert(kept.contains(line));
        let k = choose|k: int| 0 <= k < kept.len() && kept[k] == line;
        assert(!is_answer_line(kept[k]));
    }
    lemma_joined_without_return(kept);
}

proof fn lemma_joined_without_return(items: Seq<Seq<char>>)
    requires
        forall|i: int| 0 <= i < items.len() ==> text::is_one_line(#[trigger] items[i]),
    ensures
        !text::joined(items, seq!['\n']).contains('\r'),
    decreases items.len(),
{
    let full = text::joined(items, seq!['\n']);
    if items.len() == 1 {
        assert(text::is_one_line(items[0]));
    } else if items.len() > 1 {
        lemma_joined_without_return(items.drop_last());
        let front = text::joined(items.drop_last(), seq!['\n']);
        assert(text::is_one_line(items[items.len() - 1]));
        if full.contains('\r') {
            let i = choose|i: int| 0 <= i < full.len() && full[i] == '\r';
            if i < front.len() {
                assert(front[i] == '\r');
            } else if i > front.len() {
                assert(items.last()[i - front.len() - 1] == '\r');
            }
        }
    }
}

proof fn lemma_answer_lines(answer: Seq<char>)
    requires
        !answer.contains('\n'),
    ensures
        text::lines(answer_lines(answer).skip(1)) == seq![
            "Challenge answer: "@ + answer + "."@,
            "Challenge: "@ + answer,
        ],
        is_answer_line("Challenge answer: "@ + answer + "."@),
        is_answer_line("Challenge: "@ + answer),
        answer_lines(answer) == seq!['\n'] + answer_lines(answer).skip(1),
{
    reveal_strlit("\nChallenge answer: ");
    reveal_strlit("Challenge answer: ");
    reveal_strlit(".\nChallenge: ");
    reveal_strlit("Challenge: ");
    reveal_strlit(".");
    reveal_strlit("challenge answer:");
    reveal_strlit("challenge:");
    let long = "Challenge answer: "@ + answer + "."@;
    let short = "Challenge: "@ + answer;
    let both = answer_lines(answer).skip(1);
    assert(answer_lines(answer) =~= seq!['\n'] + both);
    assert(both =~= long + seq!['\n'] + short);
    assert(!long.contains('\n')) by {
        if long.contains('\n') {
            let i = choose|i: int| 0 <= i < long.len() && long[i] == '\n';
            assert(18 <= i < 18 + answer.len());
            assert(answer[i - 18] == '\n');
        }
    }
    assert(!short.contains('\n')) by {
        if short.contains('\n') {
            let i = choose|i: int| 0 <= i < short.len() && short[i] == '\n';
            assert(11 <= i);
            assert(answer[i - 11] == '\n');
        }
    }
    assert(long.last() == '.');
    text::lemma_lines_of_sum(long, short);
    text::lemma_find_feed(long);
    text::lemma_find_feed(short);
    if let Some(at) = text::find_char(long, '\n') {
        assert(long.contains(long[at]));
    }
    if let Some(at) = text::find_char(short, '\n') {
        assert(short.contains(short[at]));
    }
    assert(text::lines(long) =~= seq![long]);
    assert(text::lines(short) =~= seq![short]);
    assert(text::lines(both) =~= seq![long, short]);
    assert(text::trim_start(long) == long);
    assert(text::trim_start(short) == short);
    assert(text::folded(long).subrange(0, 17) =~= LONG_MARK@);
    assert(text::begins(text::folded(long), LONG_MARK@));
    assert(text::folded(short).subrange(0, 10) =~= SHORT_MARK@);
    assert(text::begins(text::folded(short), SHORT_MARK@));
}

proof fn lemma_filter_plain(lines: Seq<Seq<char>>)
    requires
        forall|i: int| 0 <= i < lines.len() ==> !is_answer_line(#[trigger] lines[i]),
    ensures
        lines.filter(|line: Seq<char>| !is_answer_line(line)) == lines,
    decreases lines.len(),
{
    reveal(Seq::filter);
    if lines.len() > 0 {
        lemma_filter_plain(lines.drop_last());
        assert(!is_answer_line(lines[lines.len() - 1]));
        assert(lines.drop_last().push(lines.last()) =~= lines);
    }
}

/// A second answer replaces the first; with the same answer, nothing changes.
pub proof fn second_answer_replaces_the_first(
    reasoning: Seq<char>,
    first: Seq<char>,
    second: Seq<char>,
)
    requires
        !reasoning.contains('\r'),
        !first.contains('\n'),
    ensures
        answered(answered(reasoning, first), second) == answered(reasoning, second),
{
    let source = stripped(reasoning);
    let base = text::trim(source);
    let full = answered(reasoning, first);
    let both = answer_lines(first).skip(1);
    let plain = |line: Seq<char>| !is_answer_line(line);
    lemma_stripped_is_plain(reasoning);
    lemma_plain_trimmed(source);
    lemma_trim_twice(source);
    lemma_trimmed_end(text::trim_start(source));
    lemma_answer_lines(first);
    let from = lemma_trim_is_a_part(source);
    assert(!base.contains('\r')) by {
        if base.contains('\r') {
            let i = choose|i: int| 0 <= i < base.len() && base[i] == '\r';
            assert(source[from + i] == '\r');
        }
    }
    assert(full =~= base + answer_lines(first));
    assert(full =~= base + seq!['\n'] + both);
    text::lemma_lines_of_sum(base, both);
    let kept = if base.len() == 0 {
        seq![base]
    } else {
        text::lines(base)
    };
    assert forall|i: int| 0 <= i < kept.len() implies !is_answer_line(#[trigger] kept[i]) by {
        if base.len() == 0 {
            reveal_strlit("challenge answer:");
            reveal_strlit("challenge:");
            assert(text::trim_start(base).len() == 0);
        }
    }
    lemma_filter_plain(kept);
    let tail = text::lines(both);
    Seq::filter_distributes_over_add(kept, tail, plain);
    assert(tail.filter(plain) =~= Seq::<Seq<char>>::empty()) by {
        lemma_kept_lines(tail);
        if tail.filter(plain).len() > 0 {
            let line = tail.filter(plain)[0];
            assert(tail.contains(line) && !is_answer_line(line));
        }
    }
    assert(text::lines(full).filter(plain) =~= kept);
    if base.len() > 0 {
        text::lemma_joined_lines(base);
    } else {
        assert(text::joined(kept, seq!['\n']) =~= base);
    }
    assert(stripped(full) == base);
}

/// A reasoning into which an answer was written holds it in both forms.
pub proof fn written_answer_has_both_forms(reasoning: Seq<char>, answer: Seq<char>)
    ensures
        text::has(answered(reasoning, answer), "Challenge answer: "@ + answer + "."@),
        text::has(answered(reasoning, answer), "Challenge: "@ + answer),
{
    reveal_strlit("\nChallenge answer: ");
    reveal_strlit("Challenge answer: ");
    reveal_strlit(".\nChallenge: ");
    reveal_strlit("Challenge: ");
    reveal_strlit(".");
    let base = text::trim(stripped(reasoning));
    let full = answered(reasoning, answer);
    let long = "Challenge answer: "@ + answer + "."@;
    let short = "Challenge: "@ + answer;
    let n = answer.len() as int;
    let b = base.len() as int;
    assert(full.subrange(b + 1, b + 1 + long.len()) =~= long);
    assert(text::occurs_at(full, long, b + 1));
    assert(full.subrange(b + 19 + n + 2, b + 19 + n + 2 + short.len()) =~= short);
    assert(text::occurs_at(full, short, b + 19 + n + 2));
}

// ── Challenges as the server sends them ─────────────────────────────────

/// The text of a challenge.
pub open spec fn question(challenge: JsonView) -> Option<Seq<char>> {
    match challenge.text_at("prompt"@) {
        Some(source) => Some(source),
        None => challenge.text_at("challenge"@),
    }
}

/// The text of a challenge, if it has one.
pub fn challenge_text(challenge: &Json) -> (r: Option<&String>)
    ensures
        crate::json::text_view(r) == question(challenge@),
{
    match challenge.str_at("prompt") {
        Some(source) => Some(source),
        None => challenge.str_at("challenge"),
    }
}

/// The answer to the question that a text asks, by the first solver that
/// knows it.
pub open spec fn solution(source: Seq<char>) -> Reading {
    inventory(text::lowercase(source)).or(timezone(text::lowercase(source)))
}

/// The answer to a challenge, in decimal notation.
pub open spec fn answer_to(challenge: JsonView) -> Option<Seq<char>> {
    match question(challenge) {
        Some(source) => match solution(source) {
            Reading::Value(n) => Some(text::signed_decimal(n as int)),
            _ => None,
        },
        None => None,
    }
}

/// Answers a challenge, where one of the solvers knows its kind.
pub fn solve_challenge_answer(challenge: &Json) -> (r: Option<String>)
    requires
        question(challenge@) matches Some(source) ==> !(solution(source) is Overflow),
    ensures
        crate::json::opt_view(r) == answer_to(challenge@),
{
    match challenge_text(challenge) {
        Some(source) => {
            let answer = match solve_inventory_challenge(source.as_str()) {
                Some(n) => Some(n),
                None => solve_timezone_challenge(source.as_str()),
            };
            match answer {
                Some(n) => Some(text::signed_decimal_of(n as i64)),
                None => None,
            }
        },
        None => None,
    }
}

/// Answers a challenge, where one of the solvers knows its kind and the
/// numbers in it stay within 32 bits.
pub fn challenge_answer(challenge: &Json) -> (r: Option<String>)
    ensures
        crate::json::opt_view(r) == answer_to(challenge@),
{
    if let Some(source) = challenge_text(challenge) {
        let lower = text::to_lower(source.as_str());
        match read_inventory(lower.as_str()) {
            Reading::Overflow => {
                return None;
            },
            Reading::Missing => match read_timezone(lower.as_str()) {
                Reading::Overflow => {
                    return None;
                },
                _ => {},
            },
            Reading::Value(_) => {},
        }
    }
    solve_challenge_answer(challenge)
}

/// The kind of a challenge, by its text in lowercase.
pub open spec fn kind_by_words(lower: Seq<char>) -> Seq<char> {
    if is_inventory(lower) {
        "inventory"@
    } else if is_timezone(lower) {
        "timezone"@
    } else if text::has(lower, "reward"@) && text::has(lower, "split"@) {
        "reward_split"@
    } else if text::has(lower, "orderbook"@) || text::has(lower, "tickets"@) {
        "market_math"@
    } else {
        "unknown"@
    }
}

/// The kind of a challenge, by the words in it.
pub open spec fn kind(challenge: JsonView) -> Seq<char> {
    match question(challenge) {
        None => "missing"@,
        Some(source) => kind_by_words(text::lowercase(source)),
    }
}

/// The kind of a challenge, by its text in lowercase.
pub fn classify_words(lower: &str) -> (r: &'static str)
    ensures
        r@ == kind_by_words(lower@),
{
    if inventory_text(lower) {
        "inventory"
    } else if timezone_text(lower) {
        "timezone"
    } else if text::contains(lower, "reward") && text::contains(lower, "split") {
        "reward_split"
    } else if text::contains(lower, "orderbook") || text::contains(lower, "tickets") {
        "market_math"
    } else {
        "unknown"
    }
}

/// Classifies a challenge by the words in it, for a log that does not show
/// the challenge itself.
pub fn classify_challenge_kind(challenge: &Json) -> (r: &'static str)
    ensures
        r@ == kind(challenge@),
{
    match challenge_text(challenge) {
        None => "missing",
        Some(source) => classify_words(text::to_lower(source.as_str()).as_str()),
    }
}

/// A challenge that a solver answers is classified as that solver's kind.
pub proof fn answered_challenges_are_classified(challenge: JsonView)
    ensures
        answer_to(challenge) is Some ==> kind(challenge) == "inventory"@ || kind(challenge)
            == "timezone"@,
{
}

// ── What the solvers answer ─────────────────────────────────────────────

/// An inventory that began at `a`, of which `b` was sold and to which `c` was
/// received has `a - b + c` left. The start stands behind `began at`, or else
/// behind `began`, and what came in before `received`, or else before
/// `suppliers`.
pub proof fn inventory_is_what_is_left(lower: Seq<char>, a: i32, b: i32, c: i32)
    requires
        text::has(lower, "inventory"@),
        text::has(lower, "began"@),
        text::has(lower, "sold"@),
        text::has(lower, "received"@) || text::has(lower, "suppliers"@),
        ({
            let tokens = words::words(lower);
            let start = words::number_after(tokens, seq!["began"@, "at"@]);
            let income = words::number_before(tokens, "received"@);
            &&& start == Reading::Value(a) || (start is Missing && words::number_after(
                tokens,
                seq!["began"@],
            ) == Reading::Value(a))
            &&& words::number_before(tokens, "sold"@) == Reading::Value(b)
            &&& income == Reading::Value(c) || (income is Missing && words::number_before(
                tokens,
                "suppliers"@,
            ) == Reading::Value(c))
        }),
        i32::MIN <= a - b <= i32::MAX,
        i32::MIN <= a - b + c <= i32::MAX,
    ensures
        inventory(lower) matches Reading::Value(n) && n == a - b + c,
{
}

/// Without one of its words, or of its numbers, there is no answer to an
/// inventory challenge.
pub proof fn inventories_need_their_words(lower: Seq<char>)
    ensures
        !text::has(lower, "inventory"@) || !text::has(lower, "began"@) || !text::has(
            lower,
            "sold"@,
        ) || (!text::has(lower, "received"@) && !text::has(lower, "suppliers"@)) ==> inventory(
            lower,
        ) is Missing,
        words::number_before(words::words(lower), "sold"@) is Missing ==> !(inventory(
            lower,
        ) is Value),
{
}

/// The hour of departure is the number that stands right behind the first
/// `departs at `.
pub proof fn departure_is_read(front: Seq<char>, hour: nat, back: Seq<char>)
    requires
        hour <= i32::MAX,
        forall|i: int|
            0 <= i < front.len() ==> !#[trigger] text::occurs_at(
                front + "departs at "@ + text::decimal(hour) + back,
                "departs at "@,
                i,
            ),
        back.len() > 0 ==> !text::is_digit(back[0]),
    ensures
        departure_hour(front + "departs at "@ + text::decimal(hour) + back) == Some(hour as int),
{
    let digits = text::decimal(hour);
    let source = front + "departs at "@ + digits + back;
    let at = front.len() as int;
    let mark = "departs at "@;
    text::find_is_first(source, mark);
    assert(source.subrange(at, at + mark.len()) =~= mark);
    assert(text::occurs_at(source, mark, at));
    assert(text::find(source, mark) == Some(at));
    assert(source.skip(at + mark.len()) =~= digits + back);
    text::decimals_denote_their_number(hour);
    if back.len() > 0 {
        lemma_leading_digits_of_sum(digits, back);
    } else {
        assert(digits + back =~= digits);
        lemma_all_leading_digits(digits);
    }
    text::integers_are_read_back(hour as int);
}

proof fn lemma_last_digits_behind(front: Seq<char>, digits: Seq<char>, gap: Seq<char>)
    requires
        digits.len() > 0,
        text::all_digits(digits),
        front.len() > 0 ==> !text::is_digit(front.last()),
        forall|i: int| 0 <= i < gap.len() ==> !text::is_digit(#[trigger] gap[i]),
    ensures
        last_digits(front + digits + gap) == digits,
    decreases gap.len(),
{
    let source = front + digits + gap;
    if gap.len() == 0 {
        assert(source =~= front + digits);
        assert(source.last() == digits[digits.len() - 1]);
        lemma_trailing_run(front, digits);
    } else {
        assert(source.last() == gap[gap.len() - 1]);
        assert(source.drop_last() =~= front + digits + gap.drop_last());
        lemma_last_digits_behind(front, digits, gap.drop_last());
    }
}

proof fn lemma_trailing_run(front: Seq<char>, digits: Seq<char>)
    requires
        text::all_digits(digits),
        front.len() > 0 ==> !text::is_digit(front.last()),
    ensures
        trailing_digits(front + digits) == digits,
    decreases digits.len(),
{
    let source = front + digits;
    if digits.len() == 0 {
        assert(source =~= front);
        assert(trailing_digits(source) =~= digits);
    } else {
        assert(text::is_digit(digits[digits.len() - 1]));
        assert(source.last() == digits[digits.len() - 1]);
        assert(source.drop_last() =~= front + digits.drop_last());
        assert forall|i: int| 0 <= i < digits.drop_last().len() implies text::is_digit(
            #[trigger] digits.drop_last()[i],
        ) by {
            assert(digits.drop_last()[i] == digits[i]);
        }
        lemma_trailing_run(front, digits.drop_last());
        assert(trailing_digits(source) =~= digits);
    }
}

/// The hours in digits are the last number before the first `hour`.
pub proof fn hours_in_digits_are_read(
    front: Seq<char>,
    hours: nat,
    gap: Seq<char>,
    back: Seq<char>,
)
    requires
        hours <= i32::MAX,
        front.len() > 0 ==> !text::is_digit(front.last()),
        forall|i: int| 0 <= i < gap.len() ==> !text::is_digit(#[trigger] gap[i]),
        forall|i: int|
            0 <= i < front.len() + text::decimal(hours).len() + gap.len()
                ==> !#[trigger] text::occurs_at(
                front + text::decimal(hours) + gap + "hour"@ + back,
                "hour"@,
                i,
            ),
    ensures
        number_before_hour(front + text::decimal(hours) + gap + "hour"@ + back) == Some(
            hours as int,
        ),
{
    let digits = text::decimal(hours);
    let before = front + digits + gap;
    let source = before + "hour"@ + back;
    let at = before.len() as int;
    text::find_is_first(source, "hour"@);
    assert(source.subrange(at, at + "hour"@.len()) =~= "hour"@);
    assert(text::occurs_at(source, "hour"@, at));
    assert(text::find(source, "hour"@) == Some(at));
    assert(source.take(at) =~= before);
    text::decimals_denote_their_number(hours);
    lemma_last_digits_behind(front, digits, gap);
    text::integers_are_read_back(hours as int);
}

/// The words for the hours from zero to twelve.
pub open spec fn hour_names() -> Seq<Seq<char>> {
    words::small_names().take(13)
}

/// The offset between two places: `n` hours in words, the smallest number of
/// which the text speaks, or else the hours in digits, counted forward where
/// the text says `ahead` and backward where it says `behind` only. Without one
/// of the two words there is none.
pub proof fn offset_counts_the_hours(source: Seq<char>, n: int)
    requires
        0 <= n <= 12,
    ensures
        ({
            let ahead = text::has(source, "ahead"@);
            let behind = text::has(source, "behind"@);
            let worded = text::has(source, hour_names()[n] + " hour"@) && forall|i: int|
                0 <= i < n ==> !text::has(source, #[trigger] hour_names()[i] + " hour"@);
            let wordless = forall|i: int|
                0 <= i <= 12 ==> !text::has(source, #[trigger] hour_names()[i] + " hour"@);
            &&& worded && ahead ==> timezone_offset(source) == Some(n)
            &&& worded && behind && !ahead ==> timezone_offset(source) == Some(-n)
            &&& wordless && ahead ==> timezone_offset(source) == number_before_hour(source)
            &&& wordless && behind && !ahead ==> match number_before_hour(source) {
                Some(hours) => timezone_offset(source) == Some(-hours),
                None => timezone_offset(source) is None,
            }
            &&& !ahead && !behind ==> timezone_offset(source) is None
        }),
{
    let names = hour_names();
    assert forall|i: int| 0 <= i <= 12 implies hour_word(i) == #[trigger] names[i] by {}
    if text::has(source, names[n] + " hour"@) && forall|i: int|
        0 <= i < n ==> !text::has(source, #[trigger] names[i] + " hour"@) {
        lemma_hours_worded(source, 0, n);
    }
    if forall|i: int| 0 <= i <= 12 ==> !text::has(source, #[trigger] names[i] + " hour"@) {
        lemma_hours_wordless(source, 0);
    }
}

proof fn lemma_hours_worded(source: Seq<char>, from: int, n: int)
    requires
        0 <= from <= n <= 12,
        text::has(source, hour_names()[n] + " hour"@),
        forall|i: int| 0 <= i < n ==> !text::has(source, #[trigger] hour_names()[i] + " hour"@),
        forall|i: int| 0 <= i <= 12 ==> hour_word(i) == #[trigger] hour_names()[i],
    ensures
        hours_in_words(source, from) == Some(n),
    decreases n - from,
{
    assert(hour_word(from) == hour_names()[from]);
    if from < n {
        assert(!text::has(source, hour_names()[from] + " hour"@));
        lemma_hours_worded(source, from + 1, n);
    }
}

proof fn lemma_hours_wordless(source: Seq<char>, from: int)
    requires
        0 <= from,
        forall|i: int| 0 <= i <= 12 ==> !text::has(source, #[trigger] hour_names()[i] + " hour"@),
        forall|i: int| 0 <= i <= 12 ==> hour_word(i) == #[trigger] hour_names()[i],
    ensures
        hours_in_words(source, from) is None,
    decreases 13 - from,
{
    if from <= 12 {
        assert(hour_word(from) == hour_names()[from]);
        lemma_hours_wordless(source, from + 1);
    }
}

/// The answer to a timezone challenge is an hour of the day, the one that the
/// clock shows `offset` hours after the departure, and one exactly where the
/// text speaks of a local hour at a destination, of a departure and of an
/// offset, as far as their sum is a 32-bit integer.
pub proof fn timezone_turns_the_clock(lower: Seq<char>, hour: int, offset: int)
    requires
        departure_hour(lower) == Some(hour),
        timezone_offset(lower) == Some(offset),
        i32::MIN <= hour + offset <= i32::MAX,
    ensures
        text::has(lower, "local hour"@) && text::has(lower, "destination"@) ==> {
            &&& timezone(lower) matches Reading::Value(n) && 0 <= n < 24 && (hour + offset - n) % 24
                == 0
        },
        !text::has(lower, "local hour"@) || !text::has(lower, "destination"@) ==> timezone(
            lower,
        ) is Missing,
{
}

/// There is no answer to a timezone challenge without a departure and an
/// offset.
pub proof fn timezones_need_their_numbers(lower: Seq<char>)
    ensures
        departure_hour(lower) is None || timezone_offset(lower) is None ==> timezone(
            lower,
        ) is Missing,
{
}

/// The answer to a challenge is that of the inventory solver, or else that of
/// the timezone solver, to the text of the challenge in lowercase, written in
/// decimal notation. The text stands under `prompt`, or else under
/// `challenge`.
pub proof fn challenges_are_answered(challenge: JsonView)
    ensures
        ({
            let source = match challenge.text_at("prompt"@) {
                Some(s) => Some(s),
                None => challenge.text_at("challenge"@),
            };
            let lower = text::lowercase(source->0);
            &&& source is None ==> answer_to(challenge) is None
            &&& source is Some ==> {
                &&& inventory(lower) matches Reading::Value(n) ==> answer_to(challenge) == Some(
                    text::signed_decimal(n as int),
                )
                &&& inventory(lower) is Missing ==> (timezone(lower) matches Reading::Value(n)
                    ==> answer_to(challenge) == Some(text::signed_decimal(n as int)))
                &&& inventory(lower) is Missing && timezone(lower) is Missing ==> answer_to(
                    challenge,
                ) is None
            }
        }),
{
}

/// The kind of a challenge goes by its words: those of an inventory first,
/// then those of a timezone, of a reward that is split, of the market, and
/// otherwise it is unknown. A challenge without a text is missing.
pub proof fn kinds_go_by_words(challenge: JsonView)
    ensures
        ({
            let source = match challenge.text_at("prompt"@) {
                Some(s) => Some(s),
                None => challenge.text_at("challenge"@),
            };
            let has = |word: Seq<char>| text::has(text::lowercase(source->0), word);
            let stock = has("inventory"@) && has("began"@) && has("sold"@) && (has("received"@)
                || has("suppliers"@));
            let zone = has("local hour"@) && has("destination"@);
            let split = has("reward"@) && has("split"@);
            let maths = has("orderbook"@) || has("tickets"@);
            &&& source is None ==> kind(challenge) == "missing"@
            &&& source is Some && stock ==> kind(challenge) == "inventory"@
            &&& source is Some && !stock && zone ==> kind(challenge) == "timezone"@
            &&& source is Some && !stock && !zone && split ==> kind(challenge) == "reward_split"@
            &&& source is Some && !stock && !zone && !split && maths ==> kind(challenge)
                == "market_math"@
            &&& source is Some && !stock && !zone && !split && !maths ==> kind(challenge)
                == "unknown"@
        }),
{
}

// ── Answers in a reasoning ──────────────────────────────────────────────

proof fn lemma_digits_found(
    searched: Seq<char>,
    front: Seq<char>,
    mark: Seq<char>,
    gap: Seq<char>,
    digits: Seq<char>,
    back: Seq<char>,
    name: Seq<char>,
)
    requires
        searched.len() == (front + mark + gap + digits + back).len(),
        mark.len() == name.len(),
        text::occurs_at(searched, name, front.len() as int),
        forall|i: int| 0 <= i < front.len() ==> !#[trigger] text::occurs_at(searched, name, i),
        text::is_blank(gap),
        digits.len() > 0,
        text::all_digits(digits),
        back.len() > 0 ==> !text::is_digit(back[0]),
    ensures
        digits_in(front + mark + gap + digits + back, searched, name) == digits,
{
    let source = front + mark + gap + digits + back;
    let at = front.len() as int;
    text::find_is_first(searched, name);
    assert(text::find(searched, name) == Some(at));
    let rest = source.skip(at + name.len());
    assert(rest =~= gap + (digits + back) + Seq::<char>::empty());
    assert(text::is_digit(digits[0]));
    assert(text::trim_start(rest) == digits + back) by {
        let shown = digits + back;
        assert(shown[0] == digits[0]);
        assert(!text::is_space(digits[0]));
        lemma_trim_start_of_blanks(gap, shown);
        assert(rest =~= gap + shown);
    }
    if back.len() > 0 {
        lemma_leading_digits_of_sum(digits, back);
    } else {
        assert(digits + back =~= digits);
        lemma_all_leading_digits(digits);
    }
}

proof fn lemma_trim_start_of_blanks(gap: Seq<char>, rest: Seq<char>)
    requires
        text::is_blank(gap),
        rest.len() > 0,
        !text::is_space(rest[0]),
    ensures
        text::trim_start(gap + rest) == rest,
    decreases gap.len(),
{
    if gap.len() == 0 {
        assert(gap + rest =~= rest);
    } else {
        assert(text::is_space(gap[0]));
        assert((gap + rest).skip(1) =~= gap.skip(1) + rest);
        assert forall|i: int| 0 <= i < gap.skip(1).len() implies text::is_space(
            #[trigger] gap.skip(1)[i],
        ) by {
            assert(gap.skip(1)[i] == gap[i + 1]);
        }
        lemma_trim_start_of_blanks(gap.skip(1), rest);
    }
}

/// The digits behind the first `Challenge answer:` of a reasoning are the
/// answer that it shows, whatever other marks it holds.
pub proof fn marked_answer_is_read(
    front: Seq<char>,
    gap: Seq<char>,
    digits: Seq<char>,
    back: Seq<char>,
)
    requires
        forall|i: int|
            0 <= i < front.len() ==> !#[trigger] text::occurs_at(
                front + "Challenge answer:"@ + gap + digits + back,
                "Challenge answer:"@,
                i,
            ),
        text::is_blank(gap),
        digits.len() > 0,
        text::all_digits(digits),
        back.len() > 0 ==> !text::is_digit(back[0]),
    ensures
        shown_answer(front + "Challenge answer:"@ + gap + digits + back) == Some(digits),
{
    let mark = "Challenge answer:"@;
    let source = front + mark + gap + digits + back;
    let at = front.len() as int;
    assert(source.subrange(at, at + mark.len()) =~= mark);
    lemma_digits_found(source, front, mark, gap, digits, back, mark);
}

/// The other usual spellings of the marks are read as well, the longer one
/// first: the digits behind the first of them are the answer where the
/// spellings that go before do not stand in the reasoning.
pub proof fn usual_marks_are_read(
    front: Seq<char>,
    mark: Seq<char>,
    gap: Seq<char>,
    digits: Seq<char>,
    back: Seq<char>,
)
    requires
        ({
            let source = front + mark + gap + digits + back;
            &&& !text::has(source, "Challenge answer:"@)
            &&& mark == "challenge answer:"@ || (mark == "Challenge:"@ && !text::has(
                source,
                "challenge answer:"@,
            ))
            &&& forall|i: int|
                0 <= i < front.len() ==> !#[trigger] text::occurs_at(source, mark, i)
        }),
        text::is_blank(gap),
        digits.len() > 0,
        text::all_digits(digits),
        back.len() > 0 ==> !text::is_digit(back[0]),
    ensures
        shown_answer(front + mark + gap + digits + back) == Some(digits),
{
    let source = front + mark + gap + digits + back;
    let at = front.len() as int;
    text::find_is_first(source, "Challenge answer:"@);
    text::find_is_first(source, "challenge answer:"@);
    assert(source.subrange(at, at + mark.len()) =~= mark);
    lemma_digits_found(source, front, mark, gap, digits, back, mark);
}

/// An answer is read behind its mark in any case, the longer mark before the
/// shorter one: the digits behind the first mark, of the given case or in any,
/// are the answer wherever the usual spellings of the marks that go before do
/// not stand in the reasoning.
pub proof fn marks_are_read_in_any_case(
    front: Seq<char>,
    mark: Seq<char>,
    gap: Seq<char>,
    digits: Seq<char>,
    back: Seq<char>,
)
    requires
        ({
            let source = front + mark + gap + digits + back;
            let lower = text::folded(source);
            &&& !text::has(source, "Challenge answer:"@)
            &&& !text::has(source, "challenge answer:"@)
            &&& !text::has(source, "Challenge:"@)
            &&& (text::folded(mark) == "challenge answer:"@ && forall|i: int|
                0 <= i < front.len() ==> !#[trigger] text::occurs_at(
                    lower,
                    "challenge answer:"@,
                    i,
                )) || (text::folded(mark) == "challenge:"@ && !text::has(
                lower,
                "challenge answer:"@,
            ) && forall|i: int|
                0 <= i < front.len() ==> !#[trigger] text::occurs_at(lower, "challenge:"@, i))
        }),
        text::is_blank(gap),
        digits.len() > 0,
        text::all_digits(digits),
        back.len() > 0 ==> !text::is_digit(back[0]),
    ensures
        shown_answer(front + mark + gap + digits + back) == Some(digits),
{
    let source = front + mark + gap + digits + back;
    let lower = text::folded(source);
    let at = front.len() as int;
    text::find_is_first(source, "Challenge answer:"@);
    text::find_is_first(source, "challenge answer:"@);
    text::find_is_first(source, "Challenge:"@);
    text::find_is_first(lower, "challenge answer:"@);
    let name = text::folded(mark);
    assert(lower.subrange(at, at + mark.len()) =~= name);
    assert(text::occurs_at(lower, name, at));
    lemma_digits_found(lower, front, mark, gap, digits, back, name);
}

/// A reasoning without a mark, in any case, shows no answer.
pub proof fn nothing_is_shown_without_a_mark(reasoning: Seq<char>)
    requires
        !text::has(text::folded(reasoning), "challenge answer:"@),
        !text::has(text::folded(reasoning), "challenge:"@),
    ensures
        shown_answer(reasoning) is None,
{
    let lower = text::folded(reasoning);
    lemma_forms_are_marks(reasoning);
    if text::has(reasoning, LONG_MARK@) {
        reveal_strlit("challenge answer:");
        let at = choose|at: int| text::occurs_at(reasoning, LONG_MARK@, at);
        let part = reasoning.subrange(at, at + 17);
        assert(lower.subrange(at, at + 17) =~= text::folded(part));
        assert(text::folded(part) =~= LONG_MARK@);
        assert(text::occurs_at(lower, LONG_MARK@, at));
    }
    text::find_is_first(reasoning, LONG_FORM@);
    text::find_is_first(reasoning, LONG_MARK@);
    text::find_is_first(reasoning, SHORT_FORM@);
    text::find_is_first(text::folded(reasoning), LONG_MARK@);
    text::find_is_first(text::folded(reasoning), SHORT_MARK@);
}

/// A line is there to carry an answer exactly where, without the white space
/// in front and in any case, it begins with a mark.
pub proof fn answer_lines_begin_with_a_mark(gap: Seq<char>, mark: Seq<char>, rest: Seq<char>)
    requires
        text::is_blank(gap),
    ensures
        text::folded(mark) == "challenge answer:"@ || text::folded(mark) == "challenge:"@
            ==> is_answer_line(gap + mark + rest),
        mark.len() > 0 && !text::is_space(mark[0]) && !text::begins(
            text::folded(mark + rest),
            "challenge answer:"@,
        ) && !text::begins(text::folded(mark + rest), "challenge:"@) ==> !is_answer_line(
            gap + mark + rest,
        ),
{
    reveal_strlit("challenge answer:");
    reveal_strlit("challenge:");
    let line = gap + mark + rest;
    let body = mark + rest;
    assert(line =~= gap + body);
    if mark.len() > 0 && !text::is_space(mark[0]) {
        assert(body[0] == mark[0]);
        lemma_trim_start_of_blanks(gap, body);
    }
    if text::folded(mark) == "challenge answer:"@ || text::folded(mark) == "challenge:"@ {
        assert(mark.len() == text::folded(mark).len());
        assert(text::folded(mark)[0] == 'c');
        assert(text::ascii_lower(mark[0]) == 'c');
        assert(!text::is_space(mark[0]));
        assert(body[0] == mark[0]);
        lemma_trim_start_of_blanks(gap, body);
        assert(text::folded(body).subrange(0, mark.len() as int) =~= text::folded(mark));
    }
}

/// Nothing is taken out of a reasoning of one line that carries no answer, and
/// nothing is left of one that does; around a line feed, each side is stripped
/// by itself. So a line that carries an answer is taken out alone.
pub proof fn stripping_takes_answer_lines_out(line: Seq<char>, back: Seq<char>)
    requires
        line.len() > 0,
        !line.contains('\n'),
        line.last() != '\r',
    ensures
        !is_answer_line(line) ==> stripped(line) == line,
        is_answer_line(line) ==> stripped(line).len() == 0,
        is_answer_line(line) ==> stripped(line + seq!['\n'] + back) == stripped(back),
        !is_answer_line(line) && (exists|i: int|
            0 <= i < text::lines(back).len() && !is_answer_line(#[trigger] text::lines(back)[i]))
            ==> stripped(line + seq!['\n'] + back) == line + seq!['\n'] + stripped(back),
{
    reveal(Seq::filter);
    let pick = |s: Seq<char>| !is_answer_line(s);
    text::line_feeds_separate_lines(line, back);
    let rest = text::lines(back);
    let all = seq![line] + rest;
    assert(seq![line].drop_last() =~= Seq::<Seq<char>>::empty());
    assert(seq![line].last() == line);
    assert(Seq::<Seq<char>>::empty().filter(pick) =~= Seq::<Seq<char>>::empty());
    lemma_filter_front(line, rest);
    if !is_answer_line(line) {
        assert(seq![line].filter(pick) =~= seq![line]);
        if exists|i: int| 0 <= i < rest.len() && !is_answer_line(#[trigger] rest[i]) {
            let i = choose|i: int| 0 <= i < rest.len() && !is_answer_line(#[trigger] rest[i]);
            lemma_filter_keeps(rest, i);
            let kept = rest.filter(pick);
            let whole = seq![line] + kept;
            text::lemma_joined_front(whole, seq!['\n']);
            assert(whole.skip(1) =~= kept);
        }
    } else {
        assert(seq![line].filter(pick) =~= Seq::<Seq<char>>::empty());
        assert(all.filter(pick) =~= rest.filter(pick));
    }
}

proof fn lemma_filter_front(line: Seq<char>, rest: Seq<Seq<char>>)
    ensures
        (seq![line] + rest).filter(|s: Seq<char>| !is_answer_line(s)) == seq![line].filter(
            |s: Seq<char>| !is_answer_line(s),
        ) + rest.filter(|s: Seq<char>| !is_answer_line(s)),
    decreases rest.len(),
{
    reveal(Seq::filter);
    let pick = |s: Seq<char>| !is_answer_line(s);
    let one = seq![line];
    if rest.len() == 0 {
        assert(one + rest =~= one);
        assert(rest.filter(pick) =~= Seq::<Seq<char>>::empty());
        assert(one.filter(pick) + rest.filter(pick) =~= one.filter(pick));
    } else {
        lemma_filter_front(line, rest.drop_last());
        assert((one + rest).drop_last() =~= one + rest.drop_last());
        assert((one + rest).last() == rest.last());
        assert((one + rest).filter(pick) =~= one.filter(pick) + rest.filter(pick));
    }
}

proof fn lemma_filter_keeps(rest: Seq<Seq<char>>, i: int)
    requires
        0 <= i < rest.len(),
        !is_answer_line(rest[i]),
    ensures
        rest.filter(|s: Seq<char>| !is_answer_line(s)).len() > 0,
    decreases rest.len(),
{
    reveal(Seq::filter);
    if i < rest.len() - 1 {
        lemma_filter_keeps(rest.drop_last(), i);
    }
}

/// An inventory whose numbers leave the range of 32 bits has no answer.
pub proof fn large_inventories_overflow(lower: Seq<char>, a: i32, b: i32, c: i32)
    requires
        is_inventory(lower),
        words::number_after(words::words(lower), seq!["began"@, "at"@]) == Reading::Value(a),
        words::number_before(words::words(lower), "sold"@) == Reading::Value(b),
        words::number_before(words::words(lower), "received"@) == Reading::Value(c),
        a - b < i32::MIN || a - b > i32::MAX || a - b + c < i32::MIN || a - b + c > i32::MAX,
    ensures
        inventory(lower) is Overflow,
{
}

} // verus!
