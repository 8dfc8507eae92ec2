//! Choosing the market of a round: the server's recommendations first, then
//! the active markets.
use crate::json;
use crate::json::Json;
use crate::json::JsonView;
use crate::text;
use vstd::prelude::*;

verus! {

/// A point in time: seconds since 1970-01-01T00:00:00Z, and nanoseconds.
#[derive(Clone, Copy, Debug, PartialEq, Eq, Structural)]
pub struct Moment {
    pub secs: i64,
    pub nanos: u32,
}

/// The moment that a text states, as seconds and nanoseconds, where chrono
/// reads it as a date and time.
pub uninterp spec fn stated_moment(source: Seq<char>) -> Option<(i64, u32)>;

/// Reads a `chrono::DateTime<Utc>` from a text, and takes it over by
/// `timestamp` and `timestamp_subsec_nanos`. The moment, and whether the text
/// states one, are functions of the text.
#[verifier::external_body]
fn moment_in(source: &str) -> (r: Option<Moment>)
    ensures
        r is Some == stated_moment(source@) is Some,
        r matches Some(m) ==> stated_moment(source@) == Some((m.secs, m.nanos)),
{
    let at = source.parse::<chrono::DateTime<chrono::Utc>>().ok()?;
    Some(Moment { secs: at.timestamp(), nanos: at.timestamp_subsec_nanos() })
}

/// The whole seconds from one moment to another, as chrono counts them, where
/// both are within its range.
pub uninterp spec fn counted_seconds(
    secs: i64,
    nanos: u32,
    start_secs: i64,
    start_nanos: u32,
) -> Option<i64>;

/// The nanoseconds from one moment to another.
pub open spec fn nanoseconds(start: Moment, end: Moment) -> int {
    (end.secs - start.secs) * 1_000_000_000 + end.nanos - start.nanos
}

/// A number of nanoseconds in whole seconds; the rest is cut off.
pub open spec fn whole_seconds(nanoseconds: int) -> int {
    if nanoseconds >= 0 {
        nanoseconds / 1_000_000_000
    } else {
        -(-nanoseconds / 1_000_000_000)
    }
}

/// Whether chrono has a moment: it lies in a year from -262143 to 262142, and
/// has less than a second of nanoseconds, or less than two in the last second
/// of a minute, for a leap second.
pub open spec fn is_in_range(moment: Moment) -> bool {
    &&& -8_334_601_228_800 <= moment.secs <= 8_210_266_876_799
    &&& moment.nanos < 1_000_000_000 || (moment.nanos < 2_000_000_000 && moment.secs % 60 == 59)
}

/// Subtracts two `chrono::DateTime<Utc>`, which `DateTime::from_timestamp`
/// makes of two moments, and counts the whole seconds with `num_seconds`. The
/// result is a function of the moments, and there is one where both are within
/// chrono's range. Outside of leap seconds, which have a billion nanoseconds
/// or more, it is the difference with the rest cut off.
#[verifier::external_body]
fn seconds_between(start: Moment, end: Moment) -> (r: Option<i64>)
    ensures
        r == counted_seconds(end.secs, end.nanos, start.secs, start.nanos),
        r is Some == (is_in_range(start) && is_in_range(end)),
        r is Some && start.nanos < 1_000_000_000 && end.nanos < 1_000_000_000 ==> r->0
            == whole_seconds(nanoseconds(start, end)),
{
    let from = chrono::DateTime::from_timestamp(start.secs, start.nanos)?;
    let to = chrono::DateTime::from_timestamp(end.secs, end.nanos)?;
    Some((to - from).num_seconds())
}

/// The whole seconds from a moment to the close of a market.
pub open spec fn time_to_close(market: JsonView, now: Moment) -> Option<i64> {
    match market.text_at("close_at"@) {
        Some(source) => match stated_moment(source) {
            Some((secs, nanos)) => counted_seconds(secs, nanos, now.secs, now.nanos),
            None => None,
        },
        None => None,
    }
}

/// The whole seconds from a moment to the close of a market, where it states
/// a close that can be read.
pub fn seconds_to_close(market: &Json, now: Moment) -> (r: Option<i64>)
    ensures
        r == time_to_close(market@, now),
{
    match market.str_at("close_at") {
        Some(source) => match moment_in(source.as_str()) {
            Some(close) => seconds_between(now, close),
            None => None,
        },
        None => None,
    }
}

/// Whether more than two minutes are left.
pub open spec fn is_open_long(seconds: Option<i64>) -> bool {
    seconds matches Some(s) && s > 120
}

/// Whether a recommendation can be followed: it is not to skip, and more than
/// two minutes are left.
pub open spec fn is_actionable(recommendation: JsonView) -> bool {
    recommendation.text_at("action"@) != Some("skip"@) && is_open_long(
        recommendation.signed_at("seconds_to_close"@),
    )
}

/// The position of the first recommendation from `from` on that can be
/// followed.
pub open spec fn first_actionable(list: Seq<JsonView>, from: int) -> Option<int>
    decreases list.len() - from,
{
    if from >= list.len() {
        None
    } else if is_actionable(list[from]) {
        Some(from)
    } else {
        first_actionable(list, from + 1)
    }
}

/// The position of the first market from `from` on that is open for more than
/// two minutes, where the time to the close of each market is given.
pub open spec fn first_open(times: Seq<Option<i64>>, from: int) -> Option<int>
    decreases times.len() - from,
{
    if from >= times.len() {
        None
    } else if is_open_long(times[from]) {
        Some(from)
    } else {
        first_open(times, from + 1)
    }
}

/// The times from a moment to the close of each market.
pub open spec fn times_to_close(list: Seq<JsonView>, now: Moment) -> Seq<Option<i64>> {
    list.map_values(|market: JsonView| time_to_close(market, now))
}

fn actionable(recommendation: &Json) -> (r: bool)
    ensures
        r == is_actionable(recommendation@),
{
    if let Some(action) = recommendation.str_at("action") {
        if text::same(action.as_str(), "skip") {
            return false;
        }
    }
    match recommendation.i64_at("seconds_to_close") {
        Some(s) => s > 120,
        None => false,
    }
}

/// The first recommendation that can be followed.
pub fn recommended(list: &Vec<Json>) -> (r: Option<usize>)
    ensures
        text::position(r) == first_actionable(json::trees(list@), 0),
        r matches Some(i) ==> i < list@.len(),
{
    let ghost all = json::trees(list@);
    let mut i: usize = 0;
    while i < list.len()
        invariant
            i <= list@.len(),
            all == json::trees(list@),
            first_actionable(all, 0) == first_actionable(all, i as int),
        decreases list@.len() - i,
    {
        assert(all[i as int] == list@[i as int]@);
        if actionable(&list[i]) {
            return Some(i);
        }
        i = i + 1;
    }
    None
}

/// The first market that is open for more than two minutes, where the time to
/// the close of each market is given.
pub fn open_market(times: &Vec<Option<i64>>) -> (r: Option<usize>)
    ensures
        text::position(r) == first_open(times@, 0),
        r matches Some(i) ==> i < times@.len(),
{
    let mut i: usize = 0;
    while i < times.len()
        invariant
            i <= times@.len(),
            first_open(times@, 0) == first_open(times@, i as int),
        decreases times@.len() - i,
    {
        if let Some(s) = times[i] {
            if s > 120 {
                return Some(i);
            }
        }
        i = i + 1;
    }
    None
}

/// The times from a moment to the close of each market.
pub fn closing_times(list: &Vec<Json>, now: Moment) -> (times: Vec<Option<i64>>)
    ensures
        times@ == times_to_close(json::trees(list@), now),
{
    let ghost all = json::trees(list@);
    let mut times: Vec<Option<i64>> = Vec::new();
    let mut i: usize = 0;
    while i < list.len()
        invariant
            i <= list@.len(),
            all == json::trees(list@),
            times@.len() == i,
            forall|j: int| 0 <= j < i ==> times@[j] == time_to_close(#[trigger] all[j], now),
        decreases list@.len() - i,
    {
        assert(all[i as int] == list@[i as int]@);
        times.push(seconds_to_close(&list[i], now));
        i = i + 1;
    }
    assert(times@ =~= times_to_close(all, now));
    times
}

proof fn lemma_first_actionable(list: Seq<JsonView>, from: int)
    requires
        0 <= from,
    ensures
        first_actionable(list, from) matches Some(i) ==> from <= i < list.len() && is_actionable(
            list[i],
        ) && forall|j: int| from <= j < i ==> !is_actionable(#[trigger] list[j]),
        first_actionable(list, from) is None ==> forall|j: int|
            from <= j < list.len() ==> !is_actionable(#[trigger] list[j]),
    decreases list.len() - from,
{
    if from < list.len() && !is_actionable(list[from]) {
        lemma_first_actionable(list, from + 1);
    }
}

/// The recommendation that is followed is the first that can be, and one is
/// followed whenever one can be.
pub proof fn recommendation_is_first(list: Seq<JsonView>)
    ensures
        first_actionable(list, 0) matches Some(i) ==> 0 <= i < list.len() && is_actionable(list[i])
            && forall|j: int| 0 <= j < i ==> !is_actionable(#[trigger] list[j]),
        first_actionable(list, 0) is None ==> forall|j: int|
            0 <= j < list.len() ==> !is_actionable(#[trigger] list[j]),
{
    lemma_first_actionable(list, 0);
}

proof fn lemma_first_open(times: Seq<Option<i64>>, from: int)
    requires
        0 <= from,
    ensures
        first_open(times, from) matches Some(i) ==> from <= i < times.len() && is_open_long(
            times[i],
        ) && forall|j: int| from <= j < i ==> !is_open_long(#[trigger] times[j]),
        first_open(times, from) is None ==> forall|j: int|
            from <= j < times.len() ==> !is_open_long(#[trigger] times[j]),
    decreases times.len() - from,
{
    if from < times.len() && !is_open_long(times[from]) {
        lemma_first_open(times, from + 1);
    }
}

/// The active market that is chosen is the first that is open for more than
/// two minutes, and one is chosen whenever there is one.
pub proof fn open_market_is_first(times: Seq<Option<i64>>)
    ensures
        first_open(times, 0) matches Some(i) ==> 0 <= i < times.len() && is_open_long(times[i])
            && forall|j: int| 0 <= j < i ==> !is_open_long(#[trigger] times[j]),
        first_open(times, 0) is None ==> forall|j: int|
            0 <= j < times.len() ==> !is_open_long(#[trigger] times[j]),
{
    lemma_first_open(times, 0);
}

/// A recommendation is followed where it is the first with more than 120
/// seconds to its close and another action than `skip`; none is followed where
/// each has that action, no time or no more than 120 seconds.
pub proof fn short_markets_are_passed_over(list: Seq<JsonView>, i: int)
    ensures
        ({
            let good = |r: JsonView|
                r.text_at("action"@) != Some("skip"@) && (r.signed_at(
                    "seconds_to_close"@,
                ) matches Some(s) && s >= 121);
            &&& 0 <= i < list.len() && good(list[i]) && (forall|j: int|
                0 <= j < i ==> !good(#[trigger] list[j])) ==> first_actionable(list, 0) == Some(i)
            &&& (forall|j: int| 0 <= j < list.len() ==> !good(#[trigger] list[j]))
                ==> first_actionable(list, 0) is None
        }),
{
    recommendation_is_first(list);
    let good = |r: JsonView|
        r.text_at("action"@) != Some("skip"@) && (r.signed_at("seconds_to_close"@) matches Some(s)
            && s >= 121);
    assert forall|r: JsonView| #[trigger] good(r) == is_actionable(r) by {}
    if let Some(k) = first_actionable(list, 0) {
        assert(good(list[k]));
        if 0 <= i < list.len() && good(list[i]) {
            assert(is_actionable(list[i]));
        }
    } else if 0 <= i < list.len() {
        assert(!is_actionable(list[i]));
    }
}

/// An active market is chosen where it is the first with more than 120 seconds
/// to its close.
pub proof fn short_active_markets_are_passed_over(times: Seq<Option<i64>>, i: int)
    ensures
        0 <= i < times.len() && times[i] is Some && times[i]->0 >= 121 && (forall|j: int|
            0 <= j < i ==> (#[trigger] times[j] is None || times[j]->0 <= 120)) ==> first_open(
            times,
            0,
        ) == Some(i),
        (forall|j: int| 0 <= j < times.len() ==> (#[trigger] times[j] is None || times[j]->0 <= 120))
            ==> first_open(times, 0) is None,
{
    open_market_is_first(times);
    if let Some(k) = first_open(times, 0) {
        assert(is_open_long(times[k]));
        if 0 <= i < times.len() && i < k {
            assert(!is_open_long(times[i]));
        }
    } else if 0 <= i < times.len() {
        assert(!is_open_long(times[i]));
    }
}

/// The time to a close is counted from the moment that the market states under
/// `close_at`, and each market is counted by itself.
pub proof fn closes_are_counted_from_now(list: Seq<JsonView>, now: Moment, i: int)
    requires
        0 <= i < list.len(),
    ensures
        times_to_close(list, now).len() == list.len(),
        times_to_close(list, now)[i] == time_to_close(list[i], now),
        list[i].text_at("close_at"@) is None ==> time_to_close(list[i], now) is None,
        list[i].text_at("close_at"@) matches Some(source) ==> (stated_moment(source) matches Some(
            close,
        ) ==> time_to_close(list[i], now) == counted_seconds(close.0, close.1, now.secs, now.nanos))
            && (stated_moment(source) is None ==> time_to_close(list[i], now) is None),
{
}

/// Cutting off the rest of a number of nanoseconds goes towards zero.
pub proof fn seconds_are_cut_towards_zero(n: int)
    ensures
        n >= 0 ==> 1_000_000_000 * whole_seconds(n) <= n < 1_000_000_000 * (whole_seconds(n) + 1),
        whole_seconds(-n) == -whole_seconds(n),
{
}

} // verus!
