//! Decisions of the language model: finding the JSON object in a reply, and
//! reading it as a submission or a skip.
use crate::challenge;
use crate::double;
use crate::double::Double;
use crate::json;
use crate::json::Json;
use crate::json::JsonView;
use crate::numerals;
use crate::text;
use vstd::prelude::*;
use vstd::slice::slice_subrange;
use vstd::string::StringExecFns;

verus! {

// ── Candidates for the JSON object of a reply ───────────────────────────

/// The number of characters up to the brace that closes the object, where
/// `depth` braces are open at the position `i`.
pub open spec fn closing(source: Seq<char>, i: int, depth: int) -> Option<int>
    decreases source.len() - i,
{
    if i >= source.len() {
        None
    } else if source[i] == '{' {
        closing(source, i + 1, depth + 1)
    } else if source[i] == '}' {
        if depth == 1 {
            Some(i + 1)
        } else {
            closing(source, i + 1, depth - 1)
        }
    } else {
        closing(source, i + 1, depth)
    }
}

/// The number of characters behind the brace that opens the last object, where
/// `depth` braces are closed within the last `i` characters.
pub open spec fn opening(source: Seq<char>, i: int, depth: int) -> Option<int>
    decreases source.len() - i,
{
    if i >= source.len() {
        None
    } else {
        let ch = source[source.len() - 1 - i];
        if ch == '}' {
            opening(source, i + 1, depth + 1)
        } else if ch == '{' {
            if depth == 1 {
                Some(i)
            } else {
                opening(source, i + 1, depth - 1)
            }
        } else {
            opening(source, i + 1, depth)
        }
    }
}

/// The object behind a prefix such as `DECISION:`.
pub open spec fn after_prefix(source: Seq<char>, prefix: Seq<char>) -> Seq<Seq<char>> {
    match text::find(source, prefix) {
        Some(at) => {
            let rest = source.skip(at + prefix.len());
            match text::find_char(rest, '{') {
                Some(brace) => match closing(rest.skip(brace), 0, 0) {
                    Some(end) => seq![rest.skip(brace).take(end)],
                    None => Seq::empty(),
                },
                None => Seq::empty(),
            }
        },
        None => Seq::empty(),
    }
}

/// The whole text, where it begins with a brace.
pub open spec fn whole_text(source: Seq<char>) -> Seq<Seq<char>> {
    if source.len() > 0 && source[0] == '{' {
        seq![source]
    } else {
        Seq::empty()
    }
}

/// What stands between the first `fence` and the next three backticks.
pub open spec fn fenced(source: Seq<char>, fence: Seq<char>) -> Option<Seq<char>> {
    match text::find(source, fence) {
        Some(at) => {
            let rest = source.skip(at + fence.len());
            match text::find(rest, "```"@) {
                Some(end) => Some(text::trim(rest.take(end))),
                None => None,
            }
        },
        None => None,
    }
}

/// The contents of a fence that is marked as JSON.
pub open spec fn in_json_fence(source: Seq<char>) -> Seq<Seq<char>> {
    match fenced(source, "```json"@) {
        Some(inner) => seq![inner],
        None => Seq::empty(),
    }
}

/// The contents of any fence, where they begin with a brace.
pub open spec fn in_plain_fence(source: Seq<char>) -> Seq<Seq<char>> {
    match fenced(source, "```"@) {
        Some(inner) => whole_text(inner),
        None => Seq::empty(),
    }
}

/// The object that the last closing brace closes.
pub open spec fn last_object(source: Seq<char>) -> Seq<Seq<char>> {
    match text::rfind_char(source, '}') {
        Some(close) => {
            let head = source.take(close + 1);
            match opening(head, 0, 0) {
                Some(i) => seq![head.skip(head.len() - 1 - i)],
                None => Seq::empty(),
            }
        },
        None => Seq::empty(),
    }
}

/// What stands from the first opening to the last closing brace.
pub open spec fn brace_span(source: Seq<char>) -> Seq<Seq<char>> {
    match (text::find_char(source, '{'), text::rfind_char(source, '}')) {
        (Some(start), Some(end)) => if end > start {
            seq![source.subrange(start, end + 1)]
        } else {
            Seq::empty()
        },
        _ => Seq::empty(),
    }
}

/// The places of a reply where its JSON object may stand, in the order in
/// which they are tried.
pub open spec fn candidates(reply: Seq<char>) -> Seq<Seq<char>> {
    let source = text::trim(reply);
    after_prefix(source, "DECISION:"@) + after_prefix(source, "DECISION :"@) + after_prefix(
        source,
        "decision:"@,
    ) + after_prefix(source, "Decision:"@) + whole_text(source) + in_json_fence(source)
        + in_plain_fence(source) + last_object(source) + brace_span(source)
}

fn keep(found: &mut Vec<String>, candidate: &[char])
    ensures
        text::strings(final(found)@) == text::strings(old(found)@) + seq![candidate@],
{
    let ghost before = found@;
    found.push(text::string_of(candidate));
    assert(text::strings(found@) =~= text::strings(before) + seq![candidate@]);
}

fn closing_of(source: &[char]) -> (r: Option<usize>)
    requires
        source@.len() > 0,
        source@[0] == '{',
    ensures
        text::position(r) == closing(source@, 0, 0),
        r matches Some(n) ==> 0 < n <= source@.len(),
{
    let mut depth: usize = 1;
    let mut i: usize = 1;
    while i < source.len()
        invariant
            1 <= i <= source@.len(),
            1 <= depth <= i,
            source@.len() == source.len(),
            closing(source@, 0, 0) == closing(source@, i as int, depth as int),
        decreases source@.len() - i,
    {
        if source[i] == '{' {
            depth = depth + 1;
        } else if source[i] == '}' {
            if depth == 1 {
                return Some(i + 1);
            }
            depth = depth - 1;
        }
        i = i + 1;
    }
    None
}

fn opening_of(source: &[char]) -> (r: Option<usize>)
    requires
        source@.len() > 0,
        source@.last() == '}',
    ensures
        text::position(r) == opening(source@, 0, 0),
        r matches Some(i) ==> i < source@.len(),
{
    let mut depth: usize = 1;
    let mut i: usize = 1;
    while i < source.len()
        invariant
            1 <= i <= source@.len(),
            1 <= depth <= i,
            source@.len() == source.len(),
            opening(source@, 0, 0) == opening(source@, i as int, depth as int),
        decreases source@.len() - i,
    {
        let ch = source[source.len() - 1 - i];
        if ch == '}' {
            depth = depth + 1;
        } else if ch == '{' {
            if depth == 1 {
                return Some(i);
            }
            depth = depth - 1;
        }
        i = i + 1;
    }
    None
}

fn add_after_prefix(found: &mut Vec<String>, source: &[char], prefix: &str)
    ensures
        text::strings(final(found)@) == text::strings(old(found)@) + after_prefix(
            source@,
            prefix@,
        ),
{
    proof {
        text::find_is_first(source@, prefix@);
    }
    assert(text::strings(found@) + Seq::<Seq<char>>::empty() =~= text::strings(found@));
    if let Some(at) = text::find_in(source, prefix) {
        let width: usize = text::chars_of(prefix).len();
        let total: usize = source.len();
        assert(at + width <= total);
        let rest = slice_subrange(source, at + width, total);
        assert(rest@ =~= source@.skip(at + prefix@.len()));
        proof {
            text::find_char_found(rest@, '{');
        }
        if let Some(brace) = text::find_char_in(rest, '{') {
            let part = slice_subrange(rest, brace, rest.len());
            assert(part@ =~= rest@.skip(brace as int));
            if let Some(end) = closing_of(part) {
                let candidate = slice_subrange(part, 0, end);
                assert(candidate@ =~= part@.take(end as int));
                keep(found, candidate);
            }
        }
    }
}

fn add_whole_text(found: &mut Vec<String>, source: &[char])
    ensures
        text::strings(final(found)@) == text::strings(old(found)@) + whole_text(source@),
{
    assert(text::strings(found@) + Seq::<Seq<char>>::empty() =~= text::strings(found@));
    if source.len() > 0 && source[0] == '{' {
        keep(found, source);
    }
}

fn fenced_in<'a>(source: &'a [char], fence: &str) -> (r: Option<&'a [char]>)
    ensures
        r is Some == fenced(source@, fence@) is Some,
        r matches Some(inner) ==> Some(inner@) == fenced(source@, fence@),
{
    proof {
        text::find_is_first(source@, fence@);
    }
    match text::find_in(source, fence) {
        Some(at) => {
            let width: usize = text::chars_of(fence).len();
            let total: usize = source.len();
            assert(at + width <= total);
            let rest = slice_subrange(source, at + width, total);
            assert(rest@ =~= source@.skip(at + fence@.len()));
            proof {
                text::find_is_first(rest@, "```"@);
            }
            match text::find_in(rest, "```") {
                Some(end) => {
                    let inner = slice_subrange(rest, 0, end);
                    assert(inner@ =~= rest@.take(end as int));
                    Some(text::trim_of(inner))
                },
                None => None,
            }
        },
        None => None,
    }
}

fn add_fenced(found: &mut Vec<String>, source: &[char])
    ensures
        text::strings(final(found)@) == text::strings(old(found)@) + in_json_fence(source@)
            + in_plain_fence(source@),
{
    let ghost before = text::strings(found@);
    if let Some(inner) = fenced_in(source, "```json") {
        keep(found, inner);
    }
    assert(text::strings(found@) =~= before + in_json_fence(source@));
    if let Some(inner) = fenced_in(source, "```") {
        add_whole_text(found, inner);
    }
    assert(text::strings(found@) =~= before + in_json_fence(source@) + in_plain_fence(source@));
}

fn add_last_object(found: &mut Vec<String>, source: &[char])
    ensures
        text::strings(final(found)@) == text::strings(old(found)@) + last_object(source@),
{
    assert(text::strings(found@) + Seq::<Seq<char>>::empty() =~= text::strings(found@));
    proof {
        text::rfind_char_found(source@, '}');
    }
    if let Some(close) = text::rfind_char_in(source, '}') {
        let total: usize = source.len();
        assert(close < total);
        let head = slice_subrange(source, 0, close + 1);
        assert(head@ =~= source@.take(close + 1));
        if let Some(i) = opening_of(head) {
            let size: usize = head.len();
            let candidate = slice_subrange(head, size - 1 - i, size);
            assert(candidate@ =~= head@.skip(head@.len() - 1 - i));
            keep(found, candidate);
        }
    }
}

fn add_brace_span(found: &mut Vec<String>, source: &[char])
    ensures
        text::strings(final(found)@) == text::strings(old(found)@) + brace_span(source@),
{
    assert(text::strings(found@) + Seq::<Seq<char>>::empty() =~= text::strings(found@));
    proof {
        text::find_char_found(source@, '{');
        text::rfind_char_found(source@, '}');
    }
    match (text::find_char_in(source, '{'), text::rfind_char_in(source, '}')) {
        (Some(start), Some(end)) => {
            if end > start {
                let total: usize = source.len();
                assert(end < total);
                let candidate = slice_subrange(source, start, end + 1);
                assert(candidate@ =~= source@.subrange(start as int, end + 1));
                keep(found, candidate);
            }
        },
        _ => {},
    }
}

/// The places of a reply where its JSON object may stand, in the order in
/// which they are tried: behind `DECISION:`, the whole reply, inside a fence,
/// the last object, and from the first to the last brace.
pub fn json_candidates(reply: &str) -> (found: Vec<String>)
    ensures
        text::strings(found@) == candidates(reply@),
{
    let chars = text::chars_of(reply);
    let source = text::trim_of(chars.as_slice());
    let mut found: Vec<String> = Vec::new();
    assert(text::strings(found@) =~= Seq::<Seq<char>>::empty());
    add_after_prefix(&mut found, source, "DECISION:");
    assert(text::strings(found@) =~= after_prefix(source@, "DECISION:"@));
    add_after_prefix(&mut found, source, "DECISION :");
    add_after_prefix(&mut found, source, "decision:");
    add_after_prefix(&mut found, source, "Decision:");
    add_whole_text(&mut found, source);
    add_fenced(&mut found, source);
    add_last_object(&mut found, source);
    add_brace_span(&mut found, source);
    found
}

// ── The JSON object of a reply ──────────────────────────────────────────

/// Whether a text is a JSON object.
pub open spec fn is_object_text(source: Seq<char>) -> bool {
    json::json_tree(source) matches Some(value) && value is Object
}

/// The first candidate that is a JSON object.
pub open spec fn first_json(list: Seq<Seq<char>>) -> Option<Seq<char>>
    decreases list.len(),
{
    if list.len() == 0 {
        None
    } else if is_object_text(list[0]) {
        Some(list[0])
    } else {
        first_json(list.skip(1))
    }
}

/// The first candidate from `from` on that is a JSON object, given which of
/// them are.
pub open spec fn first_valid(list: Seq<Seq<char>>, valid: Seq<bool>, from: int) -> Option<Seq<char>>
    decreases list.len() - from,
{
    if from >= list.len() || from >= valid.len() {
        None
    } else if valid[from] {
        Some(list[from])
    } else {
        first_valid(list, valid, from + 1)
    }
}

/// Which candidates are JSON objects.
pub open spec fn validity(list: Seq<Seq<char>>) -> Seq<bool> {
    list.map_values(|candidate: Seq<char>| is_object_text(candidate))
}

proof fn lemma_first_json(list: Seq<Seq<char>>, from: int)
    requires
        0 <= from <= list.len(),
    ensures
        first_valid(list, validity(list), from) == first_json(list.skip(from)),
    decreases list.len() - from,
{
    if from < list.len() {
        assert(list.skip(from)[0] == list[from]);
        assert(list.skip(from).skip(1) =~= list.skip(from + 1));
        lemma_first_json(list, from + 1);
    }
}

/// The first candidate that is a JSON object, given which of them are.
pub fn pick_json(found: &Vec<String>, valid: &Vec<bool>) -> (r: Option<String>)
    ensures
        json::opt_view(r) == first_valid(text::strings(found@), valid@, 0),
{
    let ghost list = text::strings(found@);
    let mut i: usize = 0;
    while i < found.len() && i < valid.len()
        invariant
            i <= found@.len(),
            i <= valid@.len(),
            list == text::strings(found@),
            first_valid(list, valid@, 0) == first_valid(list, valid@, i as int),
        decreases found@.len() - i,
    {
        assert(list[i as int] == found@[i as int]@);
        if valid[i] {
            return Some(found[i].clone());
        }
        i = i + 1;
    }
    None
}

fn object_text(source: &str) -> (r: bool)
    ensures
        r == is_object_text(source@),
{
    match Json::parse(source) {
        Some(Json::Object(_)) => true,
        _ => false,
    }
}

/// The JSON object of a reply that may hold markdown fences or other text
/// around it. What stands behind `DECISION:` is tried first.
pub fn extract_json(reply: &str) -> (r: Option<String>)
    ensures
        json::opt_view(r) == first_json(candidates(reply@)),
{
    let found = json_candidates(reply);
    let ghost list = text::strings(found@);
    let mut valid: Vec<bool> = Vec::new();
    let mut i: usize = 0;
    while i < found.len()
        invariant
            i <= found@.len(),
            list == text::strings(found@),
            valid@.len() == i,
            forall|j: int| 0 <= j < i ==> valid@[j] == #[trigger] validity(list)[j],
        decreases found@.len() - i,
    {
        assert(list[i as int] == found@[i as int]@);
        valid.push(object_text(found[i].as_str()));
        i = i + 1;
    }
    proof {
        assert(valid@ =~= validity(list));
        lemma_first_json(list, 0);
        assert(list.skip(0) =~= list);
    }
    pick_json(&found, &valid)
}

/// What is found in a reply is a JSON object, and one of the candidates.
pub proof fn found_json_is_json(list: Seq<Seq<char>>)
    ensures
        first_json(list) matches Some(s) ==> is_object_text(s) && list.contains(s),
    decreases list.len(),
{
    if list.len() > 0 {
        found_json_is_json(list.skip(1));
        if let Some(s) = first_json(list) {
            if list[0] != s {
                let k = choose|k: int| 0 <= k < list.skip(1).len() && list.skip(1)[k] == s;
                assert(list[k + 1] == s);
            } else {
                assert(list.contains(list[0]));
            }
        }
    }
}

// ── Skips in plain language ─────────────────────────────────────────────

/// Whether a line of a reply says something: it is not empty, and not a line
/// of the agent's own log.
pub open spec fn is_said(line: Seq<char>) -> bool {
    line.len() > 0 && !text::begins(line, "[predict-agent"@) && !text::begins(line, "[NOTIFY]"@)
}

/// The lines of a reply that say something, trimmed and put in one line.
pub open spec fn plain_words(reply: Seq<char>) -> Seq<char> {
    text::joined(
        text::lines(reply).map_values(|line: Seq<char>| text::trim(line)).filter(
            |line: Seq<char>| is_said(line),
        ),
        seq![' '],
    )
}

/// Whether a text in lowercase speaks of a skip.
pub open spec fn looks_like_skip(lower: Seq<char>) -> bool {
    ||| text::has(lower, "skip"@)
    ||| text::has(lower, "skipped"@)
    ||| text::has(lower, "no edge"@)
    ||| text::has(lower, "no clear edge"@)
    ||| text::has(lower, "not strong enough"@)
    ||| text::has(lower, "below the conservative bar"@)
    ||| text::has(lower, "weak setup"@)
    ||| text::has(lower, "choppy"@)
    ||| text::has(lower, "low-conviction"@)
    ||| text::has(lower, "low conviction"@)
}

/// Whether a text in lowercase speaks of a submission.
pub open spec fn looks_like_submit(lower: Seq<char>) -> bool {
    ||| text::has(lower, "submit"@)
    ||| text::has(lower, "submitted"@)
    ||| text::has(lower, "tickets"@)
    ||| text::has(lower, "limit_price"@)
    ||| text::has(lower, "\"direction\""@)
    ||| text::has(lower, "direction:"@)
}

/// A text without a prefix and the white space behind it.
pub open spec fn without_prefix(source: Seq<char>, prefix: Seq<char>) -> Seq<char> {
    if text::begins(source, prefix) {
        text::trim(source.skip(prefix.len() as int))
    } else {
        source
    }
}

/// A text without the words that announce a decision, each taken off once.
pub open spec fn without_announcement(source: Seq<char>) -> Seq<char> {
    without_prefix(
        without_prefix(
            without_prefix(
                without_prefix(
                    without_prefix(without_prefix(source, "DECISION:"@), "Decision:"@),
                    "decision:"@,
                ),
                "SKIP:"@,
            ),
            "Skip:"@,
        ),
        "skip:"@,
    )
}

/// The reason of a skip that gives none in plain language.
pub const PLAIN_SKIP: &'static str = "Plain-language LLM skip recovered from non-JSON response";

/// The reason of a skip in plain language.
pub open spec fn plain_skip(reply: Seq<char>) -> Option<Seq<char>> {
    skip_reason(plain_words(reply), text::lowercase(plain_words(reply)))
}

/// The reason of a skip, given what is said and the same in lowercase.
pub open spec fn skip_reason(clean: Seq<char>, lower: Seq<char>) -> Option<Seq<char>> {
    if !looks_like_skip(lower) || looks_like_submit(lower) {
        None
    } else {
        let reason = without_announcement(clean);
        Some(
            text::truncated(
                if reason.len() == 0 {
                    PLAIN_SKIP@
                } else {
                    reason
                },
                500,
            ),
        )
    }
}

fn plain_words_of(reply: &str) -> (r: String)
    ensures
        r@ == plain_words(reply@),
{
    let chars = text::chars_of(reply);
    let lines = text::lines_of(chars.as_slice());
    let ghost all = text::lines(reply@).map_values(|line: Seq<char>| text::trim(line));
    let ghost pick = |line: Seq<char>| is_said(line);
    let mut kept: Vec<Vec<char>> = Vec::new();
    let mut i: usize = 0;
    proof {
        reveal(Seq::filter);
        assert(all.take(0).filter(pick) =~= text::texts(kept@));
    }
    while i < lines.len()
        invariant
            i <= lines@.len(),
            text::texts(lines@) == text::lines(reply@),
            all == text::lines(reply@).map_values(|line: Seq<char>| text::trim(line)),
            pick == (|line: Seq<char>| is_said(line)),
            text::texts(kept@) == all.take(i as int).filter(pick),
        decreases lines@.len() - i,
    {
        let ghost before = kept@;
        let line = text::trim_of(lines[i].as_slice());
        proof {
            reveal(Seq::filter);
            assert(all.take(i + 1).drop_last() =~= all.take(i as int));
            assert(text::texts(lines@)[i as int] == lines@[i as int]@);
            assert(all.take(i + 1).last() == line@);
        }
        if line.len() > 0 && !text::starts_with(line, "[predict-agent") && !text::starts_with(
            line,
            "[NOTIFY]",
        ) {
            let owned = vstd::slice::slice_to_vec(line);
            kept.push(owned);
            assert(text::texts(kept@) =~= text::texts(before).push(line@));
        }
        i = i + 1;
    }
    assert(all.take(i as int) =~= all);
    let out = text::join(&kept, ' ');
    text::string_of(out.as_slice())
}

fn skip_words(lower: &str) -> (r: bool)
    ensures
        r == looks_like_skip(lower@),
{
    text::contains(lower, "skip") || text::contains(lower, "skipped") || text::contains(
        lower,
        "no edge",
    ) || text::contains(lower, "no clear edge") || text::contains(lower, "not strong enough")
        || text::contains(lower, "below the conservative bar") || text::contains(
        lower,
        "weak setup",
    ) || text::contains(lower, "choppy") || text::contains(lower, "low-conviction")
        || text::contains(lower, "low conviction")
}

fn submit_words(lower: &str) -> (r: bool)
    ensures
        r == looks_like_submit(lower@),
{
    text::contains(lower, "submit") || text::contains(lower, "submitted") || text::contains(
        lower,
        "tickets",
    ) || text::contains(lower, "limit_price") || text::contains(lower, "\"direction\"")
        || text::contains(lower, "direction:")
}

fn drop_prefix(source: String, prefix: &str) -> (r: String)
    ensures
        r@ == without_prefix(source@, prefix@),
{
    let chars = text::chars_of(source.as_str());
    if text::starts_with(chars.as_slice(), prefix) {
        let width: usize = text::chars_of(prefix).len();
        let rest = slice_subrange(chars.as_slice(), width, chars.len());
        assert(rest@ =~= source@.skip(prefix@.len() as int));
        text::string_of(text::trim_of(rest))
    } else {
        source
    }
}

/// The reason of a skip, given what is said and the same in lowercase.
pub fn skip_reason_of(clean: String, lower: &str) -> (r: Option<String>)
    ensures
        json::opt_view(r) == skip_reason(clean@, lower@),
{
    if !skip_words(lower) || submit_words(lower) {
        return None;
    }
    let mut reason = drop_prefix(clean, "DECISION:");
    reason = drop_prefix(reason, "Decision:");
    reason = drop_prefix(reason, "decision:");
    reason = drop_prefix(reason, "SKIP:");
    reason = drop_prefix(reason, "Skip:");
    reason = drop_prefix(reason, "skip:");
    if reason.as_str().unicode_len() == 0 {
        Some(text::truncate_str(PLAIN_SKIP, 500))
    } else {
        Some(text::truncate_str(reason.as_str(), 500))
    }
}

/// The reason of a skip that a reply states in plain language, in place of
/// JSON. Nothing but a skip is ever read out of plain language.
pub fn extract_textual_skip_reason(reply: &str) -> (r: Option<String>)
    ensures
        json::opt_view(r) == plain_skip(reply@),
{
    let clean = plain_words_of(reply);
    let lower = text::to_lower(clean.as_str());
    skip_reason_of(clean, lower.as_str())
}

// ── Decisions ───────────────────────────────────────────────────────────

/// What the language model decided: a submission or a skip. `S` is the type
/// of its texts.
#[derive(Debug)]
pub enum LlmDecision<S> {
    Submit {
        direction: S,
        reasoning: S,
        tickets: Option<u32>,
        market_id: Option<S>,
        limit_price: Option<Double>,
        /// How sure the model is, from 0 to 1.
        confidence: Option<Double>,
        /// The model's own rating of the setup: strong, medium or weak. Where
        /// it is missing, it counts as medium.
        edge_quality: Option<S>,
        /// Whether the order is meant to take liquidity or to provide it.
        fill_intent: Option<S>,
    },
    Skip { reason: S },
}

/// A decision as a mathematical value.
pub open spec fn decision_view(decision: LlmDecision<String>) -> LlmDecision<Seq<char>> {
    match decision {
        LlmDecision::Submit {
            direction,
            reasoning,
            tickets,
            market_id,
            limit_price,
            confidence,
            edge_quality,
            fill_intent,
        } => LlmDecision::Submit {
            direction: direction@,
            reasoning: reasoning@,
            tickets,
            market_id: json::opt_view(market_id),
            limit_price,
            confidence,
            edge_quality: json::opt_view(edge_quality),
            fill_intent: json::opt_view(fill_intent),
        },
        LlmDecision::Skip { reason } => LlmDecision::Skip { reason: reason@ },
    }
}

/// Why a reply is no decision.
#[derive(Clone, Copy, Debug, PartialEq, Eq, Structural)]
pub enum ParseError {
    /// The reply holds no JSON object, and no skip in plain language.
    NoJson,
    /// The direction is neither `up` nor `down`.
    Direction,
    /// The reasoning is missing, or shorter than 80 characters.
    Reasoning,
}

impl ParseError {
    /// The error in words.
    pub open spec fn words(self) -> Seq<char> {
        match self {
            ParseError::NoJson => "no JSON object found in LLM response"@,
            ParseError::Direction => "missing or invalid 'direction' (must be 'up' or 'down')"@,
            ParseError::Reasoning => "missing or too short 'reasoning' (must be >= 80 chars)"@,
        }
    }

    /// The error in words.
    pub fn message(self) -> (r: &'static str)
        ensures
            r@ == self.words(),
    {
        match self {
            ParseError::NoJson => "no JSON object found in LLM response",
            ParseError::Direction => "missing or invalid 'direction' (must be 'up' or 'down')",
            ParseError::Reasoning => "missing or too short 'reasoning' (must be >= 80 chars)",
        }
    }
}

/// The text under a key, in lowercase.
pub open spec fn lower_at(value: JsonView, key: Seq<char>) -> Option<Seq<char>> {
    match value.text_at(key) {
        Some(s) => Some(text::lowercase(s)),
        None => None,
    }
}

/// Whether an optional text is one of two.
pub open spec fn one_of(s: Option<Seq<char>>, a: Seq<char>, b: Seq<char>) -> bool {
    s == Some(a) || s == Some(b)
}

/// The number of tickets in an answer: an unsigned integer, or the whole part
/// of another number; at least one, and its low 32 bits.
pub open spec fn tickets_in(value: JsonView) -> Option<u32> {
    match value.get("tickets"@) {
        Some(t) => match (t.unsigned(), t.double()) {
            (Some(n), _) => Some(low_bits(n as int)),
            (None, Some(d)) => Some(low_bits(double::whole(d) as int)),
            (None, None) => None,
        },
        None => None,
    }
}

/// A number, or one where it is zero, modulo 2 to the power of 32.
pub open spec fn low_bits(n: int) -> u32 {
    (if n < 1 {
        1
    } else {
        n % 0x1_0000_0000
    }) as u32
}

/// What an answer says, word by word: the texts that only certain words make
/// sense for are in lowercase.
pub struct Answer<S> {
    pub action: Option<S>,
    pub direction: Option<S>,
    pub reasoning: Option<S>,
    pub tickets: Option<u32>,
    pub market_id: Option<S>,
    pub limit_price: Option<Double>,
    pub confidence: Option<Double>,
    pub edge_quality: Option<S>,
    pub fill_intent: Option<S>,
}

/// An answer as a mathematical value.
pub open spec fn answer_view(answer: Answer<String>) -> Answer<Seq<char>> {
    Answer {
        action: json::opt_view(answer.action),
        direction: json::opt_view(answer.direction),
        reasoning: json::opt_view(answer.reasoning),
        tickets: answer.tickets,
        market_id: json::opt_view(answer.market_id),
        limit_price: answer.limit_price,
        confidence: answer.confidence,
        edge_quality: json::opt_view(answer.edge_quality),
        fill_intent: json::opt_view(answer.fill_intent),
    }
}

/// What a JSON value says as an answer.
pub open spec fn answer_in(value: JsonView) -> Answer<Seq<char>> {
    Answer {
        action: lower_at(value, "action"@),
        direction: lower_at(value, "direction"@),
        reasoning: value.text_at("reasoning"@),
        tickets: tickets_in(value),
        market_id: value.text_at("market_id"@),
        limit_price: value.double_at("limit_price"@),
        confidence: value.double_at("confidence"@),
        edge_quality: lower_at(value, "edge_quality"@),
        fill_intent: lower_at(value, "fill_intent"@),
    }
}

/// A price within the server's bounds, or none.
pub open spec fn sound_price(limit_price: Option<Double>) -> Option<Double> {
    match limit_price {
        Some(d) => if numerals::is_price(d) {
            Some(d)
        } else {
            None
        },
        None => None,
    }
}

/// The decision that an answer states.
pub open spec fn decided(answer: Answer<Seq<char>>) -> Result<LlmDecision<Seq<char>>, ParseError> {
    if answer.action == Some("skip"@) {
        Ok(
            LlmDecision::Skip {
                reason: match answer.reasoning {
                    Some(r) => r,
                    None => "No reason provided"@,
                },
            },
        )
    } else if !one_of(answer.direction, "up"@, "down"@) {
        Err(ParseError::Direction)
    } else if !(answer.reasoning matches Some(r) && r.len() >= 80) {
        Err(ParseError::Reasoning)
    } else {
        Ok(
            LlmDecision::Submit {
                direction: answer.direction->0,
                reasoning: answer.reasoning->0,
                tickets: answer.tickets,
                market_id: answer.market_id,
                limit_price: sound_price(answer.limit_price),
                confidence: match answer.confidence {
                    Some(d) => Some(d.unit_clamped()),
                    None => None,
                },
                edge_quality: if one_of(answer.edge_quality, "strong"@, "medium"@)
                    || answer.edge_quality == Some("weak"@) {
                    answer.edge_quality
                } else {
                    None
                },
                fill_intent: if one_of(answer.fill_intent, "taker"@, "maker"@) {
                    answer.fill_intent
                } else {
                    None
                },
            },
        )
    }
}

/// The decision that a JSON value states.
pub open spec fn decision(value: JsonView) -> Result<LlmDecision<Seq<char>>, ParseError> {
    decided(answer_in(value))
}

fn lower_of(value: &Json, key: &str) -> (r: Option<String>)
    ensures
        json::opt_view(r) == lower_at(value@, key@),
{
    match value.str_at(key) {
        Some(s) => Some(text::to_lower(s.as_str())),
        None => None,
    }
}

fn is_one_of(s: &Option<String>, a: &str, b: &str) -> (r: bool)
    ensures
        r == one_of(json::opt_view(*s), a@, b@),
{
    match s {
        Some(s) => text::same(s.as_str(), a) || text::same(s.as_str(), b),
        None => false,
    }
}

fn low_bits_of(n: u64) -> (r: u32)
    ensures
        r == low_bits(n as int),
{
    if n < 1 {
        1
    } else {
        (n % 0x1_0000_0000) as u32
    }
}

fn tickets_of(value: &Json) -> (r: Option<u32>)
    ensures
        r == tickets_in(value@),
{
    match value.get("tickets") {
        Some(t) => match t.as_u64() {
            Some(n) => Some(low_bits_of(n)),
            None => match t.as_double() {
                Some(d) => Some(low_bits_of(double::whole_of(d))),
                None => None,
            },
        },
        None => None,
    }
}

/// Whether a number is a price that an order may name: from 0.01 to 0.99.
pub fn order_price(d: Double) -> (r: bool)
    ensures
        r == numerals::is_price(d),
{
    d.at_least(Double { bits: double::PRICE_MIN }) && (Double { bits: double::PRICE_MAX }).at_least(
        d,
    )
}

/// A decision, or why there is none, as a mathematical value.
pub open spec fn outcome_view(
    outcome: Result<LlmDecision<String>, ParseError>,
) -> Result<LlmDecision<Seq<char>>, ParseError> {
    match outcome {
        Ok(d) => Ok(decision_view(d)),
        Err(e) => Err(e),
    }
}

/// Reads the decision that an answer states. An answer without an action is a
/// submission; tickets, market, price, confidence, edge and intent may be
/// missing, and count as missing where they make no sense.
pub fn decide(answer: Answer<String>) -> (r: Result<LlmDecision<String>, ParseError>)
    ensures
        outcome_view(r) == decided(answer_view(answer)),
{
    if is_one_of(&answer.action, "skip", "skip") {
        return Ok(
            LlmDecision::Skip {
                reason: match answer.reasoning {
                    Some(r) => r,
                    None => "No reason provided".to_owned(),
                },
            },
        );
    }
    if !is_one_of(&answer.direction, "up", "down") {
        return Err(ParseError::Direction);
    }
    let direction = match answer.direction {
        Some(s) => s,
        None => {
            return Err(ParseError::Direction);
        },
    };
    let reasoning = match answer.reasoning {
        Some(s) => {
            if s.as_str().unicode_len() < 80 {
                return Err(ParseError::Reasoning);
            }
            s
        },
        None => {
            return Err(ParseError::Reasoning);
        },
    };
    let limit_price = match answer.limit_price {
        Some(d) => if order_price(d) {
            Some(d)
        } else {
            None
        },
        None => None,
    };
    let confidence = match answer.confidence {
        Some(d) => Some(d.clamp_unit()),
        None => None,
    };
    let edge_quality = if is_one_of(&answer.edge_quality, "strong", "medium") || is_one_of(
        &answer.edge_quality,
        "weak",
        "weak",
    ) {
        answer.edge_quality
    } else {
        None
    };
    let fill_intent = if is_one_of(&answer.fill_intent, "taker", "maker") {
        answer.fill_intent
    } else {
        None
    };
    Ok(
        LlmDecision::Submit {
            direction,
            reasoning,
            tickets: answer.tickets,
            market_id: answer.market_id,
            limit_price,
            confidence,
            edge_quality,
            fill_intent,
        },
    )
}

fn copy_at(value: &Json, key: &str) -> (r: Option<String>)
    ensures
        json::opt_view(r) == value@.text_at(key@),
{
    match value.str_at(key) {
        Some(s) => Some(s.clone()),
        None => None,
    }
}

/// Reads the decision that a JSON value states.
pub fn decision_from_json(value: &Json) -> (r: Result<LlmDecision<String>, ParseError>)
    ensures
        outcome_view(r) == decision(value@),
{
    decide(
        Answer {
            action: lower_of(value, "action"),
            direction: lower_of(value, "direction"),
            reasoning: copy_at(value, "reasoning"),
            tickets: tickets_of(value),
            market_id: copy_at(value, "market_id"),
            limit_price: value.double_at("limit_price"),
            confidence: value.double_at("confidence"),
            edge_quality: lower_of(value, "edge_quality"),
            fill_intent: lower_of(value, "fill_intent"),
        },
    )
}

/// The decision that a reply states, given the JSON object that was found in
/// it.
pub open spec fn reply_decision(reply: Seq<char>, found: Option<Seq<char>>) -> Result<
    LlmDecision<Seq<char>>,
    ParseError,
> {
    match found {
        Some(s) => decision(json::json_tree(s)->0),
        None => match plain_skip(reply) {
            Some(reason) => Ok(LlmDecision::Skip { reason }),
            None => Err(ParseError::NoJson),
        },
    }
}

/// The decision that a reply states.
pub open spec fn response(reply: Seq<char>) -> Result<LlmDecision<Seq<char>>, ParseError> {
    reply_decision(reply, first_json(candidates(reply)))
}

/// Reads the decision that a reply states: its JSON object, or a skip in plain
/// language.
pub fn parse_llm_response(reply: &str) -> (r: Result<LlmDecision<String>, ParseError>)
    ensures
        outcome_view(r) == response(reply@),
        r matches Ok(d) ==> is_well_formed(decision_view(d)),
{
    proof {
        found_json_is_json(candidates(reply@));
    }
    match extract_json(reply) {
        Some(s) => match Json::parse(s.as_str()) {
            Some(value) => {
                proof {
                    submissions_are_well_formed(value@);
                }
                decision_from_json(&value)
            },
            None => Err(ParseError::NoJson),
        },
        None => match extract_textual_skip_reason(reply) {
            Some(reason) => Ok(LlmDecision::Skip { reason }),
            None => Err(ParseError::NoJson),
        },
    }
}

/// Whether a decision can go ahead as far as its challenge is concerned.
pub open spec fn has_answer(decision: LlmDecision<Seq<char>>) -> bool {
    match decision {
        LlmDecision::Submit { reasoning, .. } => challenge::shown_answer(reasoning) is Some,
        LlmDecision::Skip { .. } => true,
    }
}

/// Whether a decision can go ahead as far as its challenge is concerned: it is
/// a skip, or its reasoning carries an answer.
pub fn decision_has_challenge_answer(decision: &LlmDecision<String>) -> (r: bool)
    ensures
        r == has_answer(decision_view(*decision)),
{
    match decision {
        LlmDecision::Submit { reasoning, .. } => challenge::extract_challenge_answer(
            reasoning.as_str(),
        ).is_some(),
        LlmDecision::Skip { .. } => true,
    }
}

// ── What holds of every decision ────────────────────────────────────────

/// No submission is ever read out of plain language: a reply in which no JSON
/// object is found is a skip or an error.
pub proof fn plain_language_never_submits(reply: Seq<char>)
    ensures
        first_json(candidates(reply)) is None ==> !(response(reply) matches Ok(
            LlmDecision::Submit { .. },
        )),
{
}

/// The reason of a skip in plain language has at most 500 characters, and the
/// reply holds no word of a submission.
pub proof fn plain_skips_are_short(reply: Seq<char>)
    ensures
        plain_skip(reply) matches Some(reason) ==> reason.len() <= 500 && !looks_like_submit(
            text::lowercase(plain_words(reply)),
        ),
{
    let reason = without_announcement(plain_words(reply));
    text::truncation_is_bounded(reason, 500);
    text::truncation_is_bounded(PLAIN_SKIP@, 500);
}

/// Whether a decision is a skip, or a submission that goes up or down, has a
/// reasoning of at least 80 characters, and names a price from 0.01 to 0.99 or
/// none, a confidence from 0 to 1 or none, and an edge and an intent that the
/// rules know, or none.
pub open spec fn is_well_formed(decision: LlmDecision<Seq<char>>) -> bool {
    match decision {
        LlmDecision::Skip { .. } => true,
        LlmDecision::Submit {
            direction,
            reasoning,
            limit_price,
            confidence,
            edge_quality,
            fill_intent,
            ..
        } => {
            &&& direction == "up"@ || direction == "down"@
            &&& reasoning.len() >= 80
            &&& limit_price matches Some(p) ==> numerals::is_price(p)
            &&& confidence matches Some(c) ==> c.ge(Double { bits: double::ZERO }) && (Double {
                bits: double::ONE,
            }).ge(c)
            &&& edge_quality matches Some(e) ==> e == "strong"@ || e == "medium"@ || e == "weak"@
            &&& fill_intent matches Some(f) ==> f == "taker"@ || f == "maker"@
        },
    }
}

/// Every decision that a JSON value states is well formed.
pub proof fn submissions_are_well_formed(value: JsonView)
    requires
        json::all_finite(value),
    ensures
        decision(value) matches Ok(d) ==> is_well_formed(d),
{
    if let Some(d) = value.double_at("confidence"@) {
        json::member_is_finite(value, "confidence"@);
        double::unit_clamped_in_unit(d);
    }
}

/// A reply that is one JSON object, and does not announce a decision, is read
/// whole, whatever stands in it.
pub proof fn bare_json_is_read_whole(reply: Seq<char>)
    requires
        text::trim(reply).len() > 0,
        text::trim(reply)[0] == '{',
        is_object_text(text::trim(reply)),
        !text::has(text::trim(reply), "DECISION:"@),
        !text::has(text::trim(reply), "DECISION :"@),
        !text::has(text::trim(reply), "decision:"@),
        !text::has(text::trim(reply), "Decision:"@),
    ensures
        first_json(candidates(reply)) == Some(text::trim(reply)),
        response(reply) == decision(json::json_tree(text::trim(reply))->0),
{
    let source = text::trim(reply);
    text::find_is_first(source, "DECISION:"@);
    text::find_is_first(source, "DECISION :"@);
    text::find_is_first(source, "decision:"@);
    text::find_is_first(source, "Decision:"@);
    assert(candidates(reply)[0] == source);
}

/// The first object behind `DECISION:`, if it is JSON, is the one that is read,
/// whatever stands before and behind it.
pub proof fn announced_json_is_read_first(reply: Seq<char>, s: Seq<char>)
    requires
        after_prefix(text::trim(reply), "DECISION:"@) == seq![s],
        is_object_text(s),
    ensures
        first_json(candidates(reply)) == Some(s),
        response(reply) == decision(json::json_tree(s)->0),
{
    assert(candidates(reply)[0] == s);
}

/// What is read as a submission carries what the JSON value says, as far as it
/// makes sense, and nothing else: the direction and the reasoning, the market,
/// an edge exactly where it is strong, medium or weak in lowercase, an intent
/// exactly where it is taker or maker, a price exactly where it lies from 0.01
/// to 0.99, and a confidence, which stays as it is from 0 to 1 and is moved to
/// the nearer end otherwise.
pub proof fn submissions_carry_what_is_said(value: JsonView)
    requires
        decision(value) matches Ok(d) && d is Submit,
    ensures
        ({
            let made = decision(value)->Ok_0;
            let edge = match value.text_at("edge_quality"@) {
                Some(s) => text::lowercase(s),
                None => Seq::empty(),
            };
            let intent = match value.text_at("fill_intent"@) {
                Some(s) => text::lowercase(s),
                None => Seq::empty(),
            };
            &&& value.text_at("direction"@) matches Some(s) && made->direction == text::lowercase(s)
            &&& value.text_at("reasoning"@) == Some(made->reasoning)
            &&& made->market_id == value.text_at("market_id"@)
            &&& edge == "strong"@ || edge == "medium"@ || edge == "weak"@ ==> made->edge_quality
                == Some(edge)
            &&& edge != "strong"@ && edge != "medium"@ && edge != "weak"@ ==> made->edge_quality
                is None
            &&& intent == "taker"@ || intent == "maker"@ ==> made->fill_intent == Some(intent)
            &&& intent != "taker"@ && intent != "maker"@ ==> made->fill_intent is None
            &&& match value.double_at("limit_price"@) {
                Some(p) => made->limit_price == if p.ge(Double { bits: double::PRICE_MIN }) && (
                Double { bits: double::PRICE_MAX }).ge(p) {
                    Some(p)
                } else {
                    None
                },
                None => made->limit_price is None,
            }
            &&& match value.double_at("confidence"@) {
                Some(c) => {
                    &&& made->confidence is Some
                    &&& c.bits <= 0x3ff0_0000_0000_0000 ==> made->confidence == Some(c)
                    &&& 0x3ff0_0000_0000_0000 < c.bits <= 0x7ff0_0000_0000_0000
                        ==> double::is_hundredths(made->confidence->0.bits, 100)
                    &&& 0x8000_0000_0000_0000 < c.bits <= 0xfff0_0000_0000_0000
                        ==> made->confidence->0.bits == 0
                },
                None => made->confidence is None,
            }
        }),
{
    reveal_strlit("strong");
    reveal_strlit("medium");
    reveal_strlit("weak");
    reveal_strlit("taker");
    reveal_strlit("maker");
    assert("strong"@.len() == 6 && "medium"@.len() == 6 && "weak"@.len() == 4 && "taker"@.len() == 5
        && "maker"@.len() == 5);
    if let Some(c) = value.double_at("confidence"@) {
        double::clamping_keeps_what_fits(c);
    }
}

/// The tickets of a submission: a whole number from 1 to 4,294,967,295 stays as
/// it is, zero becomes one, and any other number counts by its whole part.
/// Without a number there are none.
pub proof fn tickets_are_read(value: JsonView)
    requires
        decision(value) matches Ok(d) && d is Submit,
    ensures
        ({
            let tickets = decision(value)->Ok_0->tickets;
            let member = value.get("tickets"@);
            &&& tickets is None <==> member is None || (member->0.unsigned() is None
                && member->0.double() is None)
            &&& member is Some ==> (member->0.unsigned() matches Some(n) ==> {
                &&& 1 <= n <= 4_294_967_295 ==> tickets == Some(n as u32)
                &&& n == 0 ==> tickets == Some(1u32)
            })
            &&& member is Some && member->0.unsigned() is None ==> (
            member->0.double() matches Some(d) ==> {
                &&& 1 <= double::whole(d) <= 4_294_967_295 ==> tickets == Some(
                    double::whole(d) as u32,
                )
                &&& double::whole(d) == 0 ==> tickets == Some(1u32)
            })
        }),
{
}

/// What a JSON value is read as: a skip exactly where its action is, in
/// lowercase, `skip`, with the reasoning as its reason; otherwise it needs a
/// direction, up or down in lowercase, and then a reasoning of 80 characters
/// or more, and is a submission where it has both.
pub proof fn actions_are_told_apart(value: JsonView)
    ensures
        ({
            let skips = value.text_at("action"@) matches Some(s) && text::lowercase(s) == "skip"@;
            let directed = value.text_at("direction"@) matches Some(s) && (text::lowercase(s)
                == "up"@ || text::lowercase(s) == "down"@);
            let reasoned = value.text_at("reasoning"@) matches Some(s) && s.len() >= 80;
            &&& skips ==> decision(value) == Ok::<LlmDecision<Seq<char>>, ParseError>(
                LlmDecision::Skip {
                    reason: match value.text_at("reasoning"@) {
                        Some(s) => s,
                        None => "No reason provided"@,
                    },
                },
            )
            &&& !skips && !directed ==> decision(value) == Err::<LlmDecision<Seq<char>>, ParseError>(
                ParseError::Direction,
            )
            &&& !skips && directed && !reasoned ==> decision(value) == Err::<
                LlmDecision<Seq<char>>,
                ParseError,
            >(ParseError::Reasoning)
            &&& !skips && directed && reasoned ==> (decision(value) matches Ok(d) && d is Submit)
        }),
{
}

// ── Where an object stands ──────────────────────────────────────────────

/// The braces that a text opens, less those that it closes.
pub open spec fn open_braces(source: Seq<char>) -> int
    decreases source.len(),
{
    if source.len() == 0 {
        0
    } else if source.last() == '{' {
        open_braces(source.drop_last()) + 1
    } else if source.last() == '}' {
        open_braces(source.drop_last()) - 1
    } else {
        open_braces(source.drop_last())
    }
}

/// Whether a text is a block: it opens a brace at its start and closes it at
/// its end, and not before.
pub open spec fn is_block(source: Seq<char>) -> bool {
    &&& source.len() >= 2
    &&& open_braces(source) == 0
    &&& forall|n: int| 0 < n < source.len() ==> open_braces(#[trigger] source.take(n)) > 0
}

proof fn lemma_braces_step(block: Seq<char>, i: int)
    requires
        0 <= i < block.len(),
    ensures
        open_braces(block.take(i + 1)) == open_braces(block.take(i)) + (if block[i] == '{' {
            1int
        } else if block[i] == '}' {
            -1
        } else {
            0
        }),
{
    assert(block.take(i + 1).drop_last() =~= block.take(i));
    assert(block.take(i + 1).last() == block[i]);
}

proof fn lemma_block_ends(block: Seq<char>)
    requires
        is_block(block),
    ensures
        block[0] == '{',
        block.last() == '}',
{
    lemma_braces_step(block, 0);
    assert(block.take(0) =~= Seq::<char>::empty());
    assert(block.take(block.len() as int) =~= block);
    lemma_braces_step(block, block.len() - 1);
}

proof fn lemma_closing(block: Seq<char>, rest: Seq<char>, i: int)
    requires
        is_block(block),
        0 <= i < block.len(),
    ensures
        closing(block + rest, i, open_braces(block.take(i))) == Some(block.len() as int),
    decreases block.len() - i,
{
    lemma_braces_step(block, i);
    assert(block.take(block.len() as int) =~= block);
    assert(block.take(0) =~= Seq::<char>::empty());
    assert((block + rest)[i] == block[i]);
    if i + 1 < block.len() {
        lemma_closing(block, rest, i + 1);
    }
}

proof fn lemma_opening(front: Seq<char>, block: Seq<char>, i: int)
    requires
        is_block(block),
        0 <= i < block.len(),
    ensures
        opening(front + block, i, open_braces(block.take(block.len() - i))) == Some(
            block.len() - 1,
        ),
    decreases block.len() - i,
{
    let source = front + block;
    let at = block.len() - 1 - i;
    lemma_braces_step(block, at);
    assert(block.take(block.len() as int) =~= block);
    assert(block.take(0) =~= Seq::<char>::empty());
    assert(source[source.len() - 1 - i] == block[at]);
    if at > 0 {
        lemma_opening(front, block, i + 1);
    }
}

proof fn lemma_after_prefix(
    front: Seq<char>,
    prefix: Seq<char>,
    gap: Seq<char>,
    block: Seq<char>,
    back: Seq<char>,
)
    requires
        is_block(block),
        !gap.contains('{'),
        forall|i: int|
            0 <= i < front.len() ==> !#[trigger] text::occurs_at(
                front + prefix + gap + block + back,
                prefix,
                i,
            ),
    ensures
        after_prefix(front + prefix + gap + block + back, prefix) == seq![block],
{
    let source = front + prefix + gap + block + back;
    let at = front.len() as int;
    text::find_is_first(source, prefix);
    assert(source.subrange(at, at + prefix.len()) =~= prefix);
    assert(text::occurs_at(source, prefix, at));
    assert(text::find(source, prefix) == Some(at));
    let rest = source.skip(at + prefix.len());
    assert(rest =~= gap + block + back);
    lemma_block_ends(block);
    text::find_char_is_first(rest, '{');
    assert(rest[gap.len() as int] == '{');
    assert forall|j: int| 0 <= j < gap.len() implies rest[j] != '{' by {
        assert(rest[j] == gap[j]);
    }
    assert(text::find_char(rest, '{') == Some(gap.len() as int));
    assert(rest.skip(gap.len() as int) =~= block + back);
    lemma_closing(block, back, 0);
    assert(block.take(0) =~= Seq::<char>::empty());
    assert((block + back).take(block.len() as int) =~= block);
}

/// A block that stands behind the first `DECISION:` of a reply, with no brace
/// between, is what is read, if it is a JSON object.
pub proof fn announced_block_is_read(
    front: Seq<char>,
    gap: Seq<char>,
    block: Seq<char>,
    back: Seq<char>,
    reply: Seq<char>,
)
    requires
        text::trim(reply) == front + "DECISION:"@ + gap + block + back,
        forall|i: int|
            0 <= i < front.len() ==> !#[trigger] text::occurs_at(
                text::trim(reply),
                "DECISION:"@,
                i,
            ),
        !gap.contains('{'),
        is_block(block),
        is_object_text(block),
    ensures
        first_json(candidates(reply)) == Some(block),
        response(reply) == decision(json::json_tree(block)->0),
{
    lemma_after_prefix(front, "DECISION:"@, gap, block, back);
    announced_json_is_read_first(reply, block);
}

proof fn lemma_first_of_sum(front: Seq<Seq<char>>, back: Seq<Seq<char>>)
    requires
        forall|i: int| 0 <= i < front.len() ==> !is_object_text(#[trigger] front[i]),
    ensures
        first_json(front + back) == first_json(back),
    decreases front.len(),
{
    if front.len() == 0 {
        assert(front + back =~= back);
    } else {
        assert((front + back)[0] == front[0]);
        assert((front + back).skip(1) =~= front.skip(1) + back);
        lemma_first_of_sum(front.skip(1), back);
    }
}

/// Whether a text announces no decision.
pub open spec fn is_unannounced(source: Seq<char>) -> bool {
    !text::has(source, "DECISION:"@) && !text::has(source, "DECISION :"@) && !text::has(
        source,
        "decision:"@,
    ) && !text::has(source, "Decision:"@)
}

proof fn lemma_unannounced(reply: Seq<char>)
    requires
        is_unannounced(text::trim(reply)),
    ensures
        candidates(reply) == whole_text(text::trim(reply)) + in_json_fence(text::trim(reply))
            + in_plain_fence(text::trim(reply)) + last_object(text::trim(reply)) + brace_span(
            text::trim(reply),
        ),
{
    let source = text::trim(reply);
    text::find_is_first(source, "DECISION:"@);
    text::find_is_first(source, "DECISION :"@);
    text::find_is_first(source, "decision:"@);
    text::find_is_first(source, "Decision:"@);
    assert(candidates(reply) =~= whole_text(source) + in_json_fence(source) + in_plain_fence(source)
        + last_object(source) + brace_span(source));
}

proof fn lemma_fenced(front: Seq<char>, fence: Seq<char>, inner: Seq<char>, back: Seq<char>)
    requires
        forall|i: int|
            0 <= i < front.len() ==> !#[trigger] text::occurs_at(
                front + fence + inner + "```"@ + back,
                fence,
                i,
            ),
        forall|i: int|
            0 <= i < inner.len() ==> !#[trigger] text::occurs_at(
                inner + "```"@ + back,
                "```"@,
                i,
            ),
    ensures
        fenced(front + fence + inner + "```"@ + back, fence) == Some(text::trim(inner)),
{
    let source = front + fence + inner + "```"@ + back;
    let at = front.len() as int;
    text::find_is_first(source, fence);
    assert(source.subrange(at, at + fence.len()) =~= fence);
    assert(text::occurs_at(source, fence, at));
    assert(text::find(source, fence) == Some(at));
    let rest = source.skip(at + fence.len());
    assert(rest =~= inner + "```"@ + back);
    let end = inner.len() as int;
    text::find_is_first(rest, "```"@);
    assert(rest.subrange(end, end + "```"@.len()) =~= "```"@);
    assert(text::occurs_at(rest, "```"@, end));
    assert(text::find(rest, "```"@) == Some(end));
    assert(rest.take(end) =~= inner);
}

/// What stands in the first fence that is marked as JSON is read, if it is a
/// JSON object, wherever the reply neither announces a decision nor begins
/// with a brace.
pub proof fn json_fence_is_read(
    reply: Seq<char>,
    front: Seq<char>,
    inner: Seq<char>,
    back: Seq<char>,
)
    requires
        text::trim(reply) == front + "```json"@ + inner + "```"@ + back,
        forall|i: int|
            0 <= i < front.len() ==> !#[trigger] text::occurs_at(text::trim(reply), "```json"@, i),
        forall|i: int|
            0 <= i < inner.len() ==> !#[trigger] text::occurs_at(
                inner + "```"@ + back,
                "```"@,
                i,
            ),
        is_unannounced(text::trim(reply)),
        text::trim(reply)[0] != '{',
        is_object_text(text::trim(inner)),
    ensures
        first_json(candidates(reply)) == Some(text::trim(inner)),
        response(reply) == decision(json::json_tree(text::trim(inner))->0),
{
    lemma_unannounced(reply);
    lemma_fenced(front, "```json"@, inner, back);
    assert(candidates(reply)[0] == text::trim(inner));
}

/// What stands in the first fence of a reply is read, if it is a JSON object,
/// wherever the reply has no fence that is marked as JSON, does not announce a
/// decision and does not begin with a brace.
pub proof fn plain_fence_is_read(
    reply: Seq<char>,
    front: Seq<char>,
    inner: Seq<char>,
    back: Seq<char>,
)
    requires
        text::trim(reply) == front + "```"@ + inner + "```"@ + back,
        !text::has(text::trim(reply), "```json"@),
        forall|i: int|
            0 <= i < front.len() ==> !#[trigger] text::occurs_at(text::trim(reply), "```"@, i),
        forall|i: int|
            0 <= i < inner.len() ==> !#[trigger] text::occurs_at(
                inner + "```"@ + back,
                "```"@,
                i,
            ),
        is_unannounced(text::trim(reply)),
        text::trim(reply)[0] != '{',
        text::trim(inner).len() > 0,
        text::trim(inner)[0] == '{',
        is_object_text(text::trim(inner)),
    ensures
        first_json(candidates(reply)) == Some(text::trim(inner)),
        response(reply) == decision(json::json_tree(text::trim(inner))->0),
{
    lemma_unannounced(reply);
    text::find_is_first(text::trim(reply), "```json"@);
    lemma_fenced(front, "```"@, inner, back);
    assert(candidates(reply)[0] == text::trim(inner));
}

/// The last block of a reply is read, if it is a JSON object, wherever the
/// reply has no fence, does not announce a decision and does not begin with a
/// brace: no closing brace stands behind it.
pub proof fn last_block_is_read(
    reply: Seq<char>,
    front: Seq<char>,
    block: Seq<char>,
    back: Seq<char>,
)
    requires
        text::trim(reply) == front + block + back,
        !back.contains('}'),
        is_unannounced(text::trim(reply)),
        !text::has(text::trim(reply), "```"@),
        !text::has(text::trim(reply), "```json"@),
        text::trim(reply)[0] != '{',
        is_block(block),
        is_object_text(block),
    ensures
        first_json(candidates(reply)) == Some(block),
        response(reply) == decision(json::json_tree(block)->0),
{
    let source = text::trim(reply);
    lemma_unannounced(reply);
    text::find_is_first(source, "```json"@);
    text::find_is_first(source, "```"@);
    lemma_block_ends(block);
    let close = (front.len() + block.len()) as int - 1;
    text::rfind_char_is_last(source, '}');
    assert(source[close] == '}');
    assert forall|j: int| close < j < source.len() implies source[j] != '}' by {
        assert(source[j] == back[j - close - 1]);
    }
    assert(text::rfind_char(source, '}') == Some(close));
    let head = source.take(close + 1);
    assert(head =~= front + block);
    lemma_opening(front, block, 0);
    assert(block.take(block.len() as int) =~= block);
    assert(head.skip(head.len() - 1 - (block.len() - 1)) =~= block);
    assert(candidates(reply)[0] == block);
}

/// Without a brace there is no JSON object in a reply.
pub proof fn nothing_is_read_without_braces(reply: Seq<char>)
    requires
        !text::trim(reply).contains('{'),
        !text::has(text::trim(reply), "```"@),
        !text::has(text::trim(reply), "```json"@),
    ensures
        first_json(candidates(reply)) is None,
{
    let source = text::trim(reply);
    text::find_is_first(source, "```json"@);
    text::find_is_first(source, "```"@);
    lemma_no_announced_block(source, "DECISION:"@);
    lemma_no_announced_block(source, "DECISION :"@);
    lemma_no_announced_block(source, "decision:"@);
    lemma_no_announced_block(source, "Decision:"@);
    text::find_char_is_first(source, '{');
    if source.len() > 0 {
        assert(source.contains(source[0]));
    }
    if let Some(close) = text::rfind_char(source, '}') {
        text::rfind_char_is_last(source, '}');
        lemma_never_opens(source.take(close + 1), 0, 0);
    }
    assert(candidates(reply) =~= Seq::<Seq<char>>::empty());
}

proof fn lemma_no_announced_block(source: Seq<char>, prefix: Seq<char>)
    requires
        !source.contains('{'),
    ensures
        after_prefix(source, prefix).len() == 0,
{
    text::find_is_first(source, prefix);
    if let Some(at) = text::find(source, prefix) {
        let rest = source.skip(at + prefix.len());
        text::find_char_is_first(rest, '{');
        if rest.contains('{') {
            let k = choose|k: int| 0 <= k < rest.len() && rest[k] == '{';
            assert(source[at + prefix.len() + k] == '{');
        }
    }
}

proof fn lemma_never_opens(source: Seq<char>, i: int, depth: int)
    requires
        !source.contains('{'),
        0 <= i,
    ensures
        opening(source, i, depth) is None,
    decreases source.len() - i,
{
    if i < source.len() {
        assert(source.contains(source[source.len() - 1 - i]));
        lemma_never_opens(source, i + 1, depth + 1);
        lemma_never_opens(source, i + 1, depth);
    }
}

// ── Skips in words ──────────────────────────────────────────────────────

/// The phrases that speak of a skip.
pub open spec fn skip_phrases() -> Seq<Seq<char>> {
    seq![
        "skip"@,
        "no edge"@,
        "no clear edge"@,
        "not strong enough"@,
        "below the conservative bar"@,
        "weak setup"@,
        "choppy"@,
        "low-conviction"@,
        "low conviction"@,
    ]
}

/// The phrases that speak of a submission.
pub open spec fn submit_phrases() -> Seq<Seq<char>> {
    seq!["submit"@, "tickets"@, "limit_price"@, "\"direction\""@, "direction:"@]
}

/// A reply in words is a skip exactly where, in lowercase, it holds a phrase
/// that speaks of a skip and none that speaks of a submission. Its reason is
/// what it says, cut to 500 characters, without the announcement in front.
pub proof fn skips_are_told_by_their_words(clean: Seq<char>, lower: Seq<char>)
    ensures
        skip_reason(clean, lower) is Some <==> (exists|i: int|
            0 <= i < skip_phrases().len() && text::has(lower, #[trigger] skip_phrases()[i])) && (
        forall|i: int|
            0 <= i < submit_phrases().len() ==> !text::has(lower, #[trigger] submit_phrases()[i])),
{
    let (skips, submits) = (skip_phrases(), submit_phrases());
    lemma_longer_phrase(lower, "skip"@, "skipped"@);
    lemma_longer_phrase(lower, "submit"@, "submitted"@);
    assert(skips[0] == "skip"@ && skips[1] == "no edge"@ && skips[2] == "no clear edge"@ && skips[3]
        == "not strong enough"@ && skips[4] == "below the conservative bar"@ && skips[5]
        == "weak setup"@ && skips[6] == "choppy"@ && skips[7] == "low-conviction"@ && skips[8]
        == "low conviction"@);
    assert(submits[0] == "submit"@ && submits[1] == "tickets"@ && submits[2] == "limit_price"@
        && submits[3] == "\"direction\""@ && submits[4] == "direction:"@);
}

proof fn lemma_longer_phrase(source: Seq<char>, phrase: Seq<char>, longer: Seq<char>)
    requires
        phrase == "skip"@ && longer == "skipped"@ || phrase == "submit"@ && longer == "submitted"@,
    ensures
        text::has(source, longer) ==> text::has(source, phrase),
{
    reveal_strlit("skip");
    reveal_strlit("skipped");
    reveal_strlit("submit");
    reveal_strlit("submitted");
    assert("skip"@ =~= "skipped"@.take(4));
    assert("submit"@ =~= "submitted"@.take(6));
    if text::has(source, longer) {
        let at = choose|at: int| text::occurs_at(source, longer, at);
        assert(source.subrange(at, at + phrase.len()) =~= source.subrange(
            at,
            at + longer.len(),
        ).take(phrase.len() as int));
        assert(text::occurs_at(source, phrase, at));
    }
}

/// Whether a text begins with a word that announces a decision.
pub open spec fn is_announced(source: Seq<char>) -> bool {
    ||| text::begins(source, "DECISION:"@)
    ||| text::begins(source, "Decision:"@)
    ||| text::begins(source, "decision:"@)
    ||| text::begins(source, "SKIP:"@)
    ||| text::begins(source, "Skip:"@)
    ||| text::begins(source, "skip:"@)
}

/// The reason of a skip in words is what is said. Words that announce it are
/// taken off once, with the white space behind them, a reason that is left
/// empty is replaced, and one of more than 500 characters is cut there.
pub proof fn skip_reasons_are_what_is_said(
    announcement: Seq<char>,
    gap: Seq<char>,
    said: Seq<char>,
    lower: Seq<char>,
)
    requires
        announcement == "DECISION:"@ || announcement == "Decision:"@ || announcement
            == "decision:"@ || announcement == "SKIP:"@ || announcement == "Skip:"@ || announcement
            == "skip:"@,
        text::is_blank(gap),
        said.len() > 0 ==> !text::is_space(said[0]) && !text::is_space(said.last()),
        !is_announced(said),
        skip_reason(said, lower) is Some,
    ensures
        skip_reason(announcement + gap + said, lower) == skip_reason(said, lower),
        0 < said.len() <= 500 ==> skip_reason(said, lower) == Some(said),
        said.len() > 500 ==> skip_reason(said, lower) == Some(said.take(500)),
        said.len() == 0 ==> skip_reason(said, lower) == Some(
            "Plain-language LLM skip recovered from non-JSON response"@,
        ),
{
    reveal_strlit("DECISION:");
    reveal_strlit("Decision:");
    reveal_strlit("decision:");
    reveal_strlit("SKIP:");
    reveal_strlit("Skip:");
    reveal_strlit("skip:");
    reveal_strlit("Plain-language LLM skip recovered from non-JSON response");
    let source = announcement + gap + said;
    lemma_taken_off(announcement, gap, said);
    lemma_other_announcement(announcement, gap + said, "DECISION:"@);
    lemma_other_announcement(announcement, gap + said, "Decision:"@);
    lemma_other_announcement(announcement, gap + said, "decision:"@);
    lemma_other_announcement(announcement, gap + said, "SKIP:"@);
    lemma_other_announcement(announcement, gap + said, "Skip:"@);
    lemma_other_announcement(announcement, gap + said, "skip:"@);
    assert(source =~= announcement + (gap + said));
    assert(without_announcement(source) == said);
    assert(without_announcement(said) == said);
    assert("Plain-language LLM skip recovered from non-JSON response"@.len() <= 500);
}

proof fn lemma_taken_off(announcement: Seq<char>, gap: Seq<char>, said: Seq<char>)
    requires
        text::is_blank(gap),
        said.len() > 0 ==> !text::is_space(said[0]) && !text::is_space(said.last()),
    ensures
        without_prefix(announcement + gap + said, announcement) == said,
{
    let source = announcement + gap + said;
    assert(source.subrange(0, announcement.len() as int) =~= announcement);
    assert(source.skip(announcement.len() as int) =~= gap + said + Seq::<char>::empty());
    text::trimming_takes_the_ends_off(gap, said, Seq::empty());
}

proof fn lemma_other_announcement(announcement: Seq<char>, rest: Seq<char>, other: Seq<char>)
    requires
        announcement == "DECISION:"@ || announcement == "Decision:"@ || announcement
            == "decision:"@ || announcement == "SKIP:"@ || announcement == "Skip:"@ || announcement
            == "skip:"@,
        other == "DECISION:"@ || other == "Decision:"@ || other == "decision:"@ || other
            == "SKIP:"@ || other == "Skip:"@ || other == "skip:"@,
    ensures
        text::begins(announcement + rest, other) ==> other == announcement,
{
    reveal_strlit("DECISION:");
    reveal_strlit("Decision:");
    reveal_strlit("decision:");
    reveal_strlit("SKIP:");
    reveal_strlit("Skip:");
    reveal_strlit("skip:");
    assert("DECISION:"@[0] == 'D' && "Decision:"@[0] == 'D' && "decision:"@[0] == 'd');
    assert("SKIP:"@[0] == 'S' && "Skip:"@[0] == 'S' && "skip:"@[0] == 's');
    assert("DECISION:"@[1] == 'E' && "Decision:"@[1] == 'e');
    assert("SKIP:"@[1] == 'K' && "Skip:"@[1] == 'k');
    if text::begins(announcement + rest, other) {
        let whole = announcement + rest;
        assert(whole.subrange(0, other.len() as int)[0] == whole[0]);
        assert(whole.subrange(0, other.len() as int)[1] == whole[1]);
        assert(whole[0] == announcement[0] && whole[1] == announcement[1]);
    }
}

/// What a reply says in one line: that line, trimmed, unless it is a line of
/// the agent's own log, which says nothing.
pub proof fn one_line_says_itself(line: Seq<char>)
    requires
        line.len() > 0,
        !line.contains('\n'),
        line.last() != '\r',
    ensures
        text::begins(text::trim(line), "[predict-agent"@) || text::begins(
            text::trim(line),
            "[NOTIFY]"@,
        ) ==> plain_words(line).len() == 0,
        !text::begins(text::trim(line), "[predict-agent"@) && !text::begins(
            text::trim(line),
            "[NOTIFY]"@,
        ) ==> plain_words(line) == text::trim(line),
{
    reveal(Seq::filter);
    text::line_feeds_separate_lines(line, Seq::empty());
    let pick = |s: Seq<char>| is_said(s);
    let all = text::lines(line).map_values(|s: Seq<char>| text::trim(s));
    assert(all =~= seq![text::trim(line)]);
    assert(all.drop_last() =~= Seq::<Seq<char>>::empty());
    assert(all.last() == text::trim(line));
    assert(all.drop_last().filter(pick) =~= Seq::<Seq<char>>::empty());
    if is_said(text::trim(line)) {
        assert(all.filter(pick) =~= seq![text::trim(line)]);
    } else {
        assert(all.filter(pick) =~= Seq::<Seq<char>>::empty());
        if text::trim(line).len() == 0 {
            assert(plain_words(line) =~= text::trim(line));
        }
    }
}

/// What a reply says in two parts with a line feed between them is what the
/// two say, with a space between.
pub proof fn lines_are_put_in_one(front: Seq<char>, back: Seq<char>)
    requires
        front.len() > 0,
        front.last() != '\n',
        front.last() != '\r',
        plain_words(front).len() > 0,
        plain_words(back).len() > 0,
    ensures
        plain_words(front + seq!['\n'] + back) == plain_words(front) + seq![' '] + plain_words(
            back,
        ),
{
    text::lemma_lines_of_sum(front, back);
    let pick = |s: Seq<char>| is_said(s);
    let shorten = |s: Seq<char>| text::trim(s);
    let a = text::lines(front).map_values(shorten);
    let b = text::lines(back).map_values(shorten);
    let both = text::lines(front + seq!['\n'] + back).map_values(shorten);
    assert(both =~= a + b);
    lemma_filter_sum(a, b);
    lemma_joined_parts(a.filter(pick), b.filter(pick));
}

proof fn lemma_filter_sum(a: Seq<Seq<char>>, b: Seq<Seq<char>>)
    ensures
        (a + b).filter(|s: Seq<char>| is_said(s)) == a.filter(|s: Seq<char>| is_said(s)) + b.filter(
            |s: Seq<char>| is_said(s),
        ),
    decreases b.len(),
{
    reveal(Seq::filter);
    let pick = |s: Seq<char>| is_said(s);
    if b.len() == 0 {
        assert(a + b =~= a);
        assert(b.filter(pick) =~= Seq::<Seq<char>>::empty());
        assert(a.filter(pick) + b.filter(pick) =~= a.filter(pick));
    } else {
        lemma_filter_sum(a, b.drop_last());
        assert((a + b).drop_last() =~= a + b.drop_last());
        assert((a + b).last() == b.last());
        assert((a + b).filter(pick) =~= a.filter(pick) + b.filter(pick));
    }
}

proof fn lemma_joined_parts(a: Seq<Seq<char>>, b: Seq<Seq<char>>)
    requires
        a.len() > 0,
        b.len() > 0,
    ensures
        text::joined(a + b, seq![' ']) == text::joined(a, seq![' ']) + seq![' '] + text::joined(
            b,
            seq![' '],
        ),
    decreases b.len(),
{
    assert((a + b).drop_last() =~= a + b.drop_last());
    assert((a + b).last() == b.last());
    if b.len() == 1 {
        assert(a + b.drop_last() =~= a);
    } else {
        lemma_joined_parts(a, b.drop_last());
        assert(text::joined(a + b, seq![' ']) =~= text::joined(a, seq![' ']) + seq![' ']
            + text::joined(b, seq![' ']));
    }
}

/// The errors of a reply in words.
pub proof fn parse_errors_say_what_is_missing(error: ParseError)
    ensures
        error is NoJson <==> error.words() == "no JSON object found in LLM response"@,
        error is Direction <==> error.words()
            == "missing or invalid 'direction' (must be 'up' or 'down')"@,
        error is Reasoning <==> error.words()
            == "missing or too short 'reasoning' (must be >= 80 chars)"@,
{
    reveal_strlit("no JSON object found in LLM response");
    reveal_strlit("missing or invalid 'direction' (must be 'up' or 'down')");
    reveal_strlit("missing or too short 'reasoning' (must be >= 80 chars)");
    assert("no JSON object found in LLM response"@[0] == 'n');
    assert("missing or invalid 'direction' (must be 'up' or 'down')"@[11] == 'i');
    assert("missing or too short 'reasoning' (must be >= 80 chars)"@[11] == 't');
    assert("missing or too short 'reasoning' (must be >= 80 chars)"@[0] == 'm');
}

/// A submission can go ahead exactly where its reasoning shows an answer, and
/// a skip always can.
pub proof fn skips_need_no_answer(decision: LlmDecision<Seq<char>>)
    ensures
        decision is Skip ==> has_answer(decision),
        decision is Submit ==> (has_answer(decision) <==> challenge::shown_answer(
            decision->reasoning,
        ) is Some),
{
}

/// Where nothing else of a reply is a JSON object, what stands from its first
/// opening to its last closing brace is read, if it is one.
pub proof fn brace_span_is_read(
    reply: Seq<char>,
    front: Seq<char>,
    span: Seq<char>,
    back: Seq<char>,
)
    requires
        text::trim(reply) == front + span + back,
        !front.contains('{'),
        !back.contains('}'),
        span.len() >= 2,
        span[0] == '{',
        span.last() == '}',
        is_unannounced(text::trim(reply)),
        !text::has(text::trim(reply), "```"@),
        !text::has(text::trim(reply), "```json"@),
        text::trim(reply)[0] != '{',
        forall|i: int|
            0 <= i < last_object(text::trim(reply)).len() ==> !is_object_text(
                #[trigger] last_object(text::trim(reply))[i],
            ),
        is_object_text(span),
    ensures
        first_json(candidates(reply)) == Some(span),
        response(reply) == decision(json::json_tree(span)->0),
{
    let source = text::trim(reply);
    lemma_unannounced(reply);
    text::find_is_first(source, "```json"@);
    text::find_is_first(source, "```"@);
    let (start, end) = (front.len() as int, (front.len() + span.len()) as int - 1);
    text::find_char_is_first(source, '{');
    assert(source[start] == '{');
    assert forall|j: int| 0 <= j < start implies source[j] != '{' by {
        assert(source[j] == front[j]);
    }
    assert(text::find_char(source, '{') == Some(start));
    text::rfind_char_is_last(source, '}');
    assert(source[end] == '}');
    assert forall|j: int| end < j < source.len() implies source[j] != '}' by {
        assert(source[j] == back[j - end - 1]);
    }
    assert(text::rfind_char(source, '}') == Some(end));
    assert(source.subrange(start, end + 1) =~= span);
    assert(candidates(reply) =~= last_object(source) + seq![span]);
    lemma_first_of_sum(last_object(source), seq![span]);
}

/// The other spellings of an announcement count as well: a block behind the
/// first of them, with no brace between, is what is read, if it is a JSON
/// object and the reply holds none of the spellings that go before.
pub proof fn other_announcements_are_read(
    prefix: Seq<char>,
    front: Seq<char>,
    gap: Seq<char>,
    block: Seq<char>,
    back: Seq<char>,
    reply: Seq<char>,
)
    requires
        prefix == "DECISION :"@ || prefix == "decision:"@ || prefix == "Decision:"@,
        text::trim(reply) == front + prefix + gap + block + back,
        forall|i: int|
            0 <= i < front.len() ==> !#[trigger] text::occurs_at(text::trim(reply), prefix, i),
        !text::has(text::trim(reply), "DECISION:"@),
        prefix != "DECISION :"@ ==> !text::has(text::trim(reply), "DECISION :"@),
        prefix == "Decision:"@ ==> !text::has(text::trim(reply), "decision:"@),
        !gap.contains('{'),
        is_block(block),
        is_object_text(block),
    ensures
        first_json(candidates(reply)) == Some(block),
        response(reply) == decision(json::json_tree(block)->0),
{
    let source = text::trim(reply);
    reveal_strlit("DECISION :");
    reveal_strlit("decision:");
    reveal_strlit("Decision:");
    assert("decision:"@[0] == 'd' && "Decision:"@[0] == 'D');
    assert("DECISION :"@.len() == 10 && "decision:"@.len() == 9 && "Decision:"@.len() == 9);
    text::find_is_first(source, "DECISION:"@);
    text::find_is_first(source, "DECISION :"@);
    text::find_is_first(source, "decision:"@);
    lemma_after_prefix(front, prefix, gap, block, back);
    assert(candidates(reply)[0] == block);
}

} // verus!
