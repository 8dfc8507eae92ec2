//! The background loop: one round after another, with a pause between them
//! that grows where rounds fail.
use crate::iteration::IterationResult;
use crate::iteration;
use crate::json;
use crate::text;
use vstd::prelude::*;
use vstd::string::StringExecFns;

verus! {

/// What the loop is started with.
#[derive(Debug)]
pub struct LoopArgs {
    /// The pause between two rounds, in seconds.
    pub interval: u64,
    /// The most rounds to run; zero for no limit.
    pub max_iterations: u64,
    pub agent_id: String,
    /// Whether lines are printed that the agent relays to its user.
    pub notify: bool,
}

// ── The way to the model ────────────────────────────────────────────────

/// How the model is reached.
pub enum Transport<S> {
    /// Over an endpoint.
    Direct,
    /// Through the openclaw program.
    Openclaw(S),
    /// Not at all: the loop does not start.
    Missing,
}

/// A way to the model as a mathematical value.
pub open spec fn transport_view(transport: Transport<String>) -> Transport<Seq<char>> {
    match transport {
        Transport::Direct => Transport::Direct,
        Transport::Openclaw(bin) => Transport::Openclaw(bin@),
        Transport::Missing => Transport::Missing,
    }
}

/// How the model is reached: an endpoint goes before the openclaw program.
pub fn choose_transport(direct: bool, openclaw_bin: Option<String>) -> (r: Transport<String>)
    ensures
        transport_view(r) == match (direct, json::opt_view(openclaw_bin)) {
            (true, _) => Transport::Direct,
            (false, Some(bin)) => Transport::Openclaw(bin),
            (false, None) => Transport::Missing,
        },
        r is Direct <==> direct,
        r is Missing <==> !direct && openclaw_bin is None,
{
    if direct {
        Transport::Direct
    } else {
        match openclaw_bin {
            Some(bin) => Transport::Openclaw(bin),
            None => Transport::Missing,
        }
    }
}

/// What to set where the model cannot be reached.
pub const SETTINGS_HINT: &'static str =
    "Set PREDICT_LLM_BASE_URL, PREDICT_LLM_API_KEY, and PREDICT_LLM_MODEL for direct LLM mode.";

// ── Pauses ──────────────────────────────────────────────────────────────

/// The factor by which a pause grows with the failures in a row: it doubles
/// with each, four times at most.
pub open spec fn backoff_factor(consecutive: nat) -> nat {
    vstd::arithmetic::power2::pow2(
        if consecutive < 4 {
            consecutive
        } else {
            4
        },
    )
}

/// The pause after a failure: what the server asks for, or else a pause that
/// doubles with each failure in a row, up to ten minutes.
pub open spec fn backoff(base: nat, consecutive: nat, server_hint: Option<u64>) -> nat {
    match server_hint {
        Some(hint) => hint as nat,
        None => if base * backoff_factor(consecutive) < 600 {
            base * backoff_factor(consecutive)
        } else {
            600
        },
    }
}

/// The pause after a failure, in seconds.
pub fn calculate_backoff(base: u64, consecutive: u32, server_hint: Option<u64>) -> (r: u64)
    requires
        server_hint is None ==> base * backoff_factor(consecutive as nat) <= u64::MAX,
    ensures
        r == backoff(base as nat, consecutive as nat, server_hint),
{
    if let Some(hint) = server_hint {
        return hint;
    }
    proof {
        vstd::arithmetic::power2::lemma2_to64();
    }
    let factor: u64 = if consecutive == 0 {
        1
    } else if consecutive == 1 {
        2
    } else if consecutive == 2 {
        4
    } else if consecutive == 3 {
        8
    } else {
        16
    };
    assert(factor == backoff_factor(consecutive as nat));
    let pause: u64 = base * factor;
    if pause < 600 {
        pause
    } else {
        600
    }
}

/// Without a word from the server a pause is at most ten minutes, and it never
/// shrinks with the failures in a row.
pub proof fn backoff_is_bounded_and_grows(base: nat, fewer: nat, more: nat)
    requires
        fewer <= more,
    ensures
        backoff(base, more, None) <= 600,
        backoff(base, fewer, None) <= backoff(base, more, None),
        base <= 600 ==> base <= backoff(base, fewer, None),
{
    vstd::arithmetic::power2::lemma2_to64();
    let (f, m) = (backoff_factor(fewer), backoff_factor(more));
    let (a, b) = (
        if fewer < 4 {
            fewer
        } else {
            4
        },
        if more < 4 {
            more
        } else {
            4
        },
    );
    if a < b {
        vstd::arithmetic::power2::lemma_pow2_strictly_increases(a, b);
    }
    assert(1 <= f) by {
        vstd::arithmetic::power2::lemma_pow2_pos(a);
    }
    assert(base * f <= base * m) by (nonlinear_arith)
        requires
            f <= m,
    ;
    assert(base <= base * f) by (nonlinear_arith)
        requires
            1 <= f,
    ;
}

/// The server's word on a pause is final.
pub proof fn server_hint_wins(base: nat, consecutive: nat, hint: u64)
    ensures
        backoff(base, consecutive, Some(hint)) == hint,
{
}

// ── Rounds ──────────────────────────────────────────────────────────────

/// Where the loop stands: the rounds that were begun, and how many rounds in a
/// row found no market or failed.
#[derive(Clone, Copy, Debug, PartialEq, Eq, Structural)]
pub struct LoopState {
    pub iteration: u64,
    pub consecutive_empty: u32,
    pub consecutive_errors: u32,
}

impl LoopState {
    /// The state before the first round.
    pub fn new() -> (r: LoopState)
        ensures
            r == (LoopState { iteration: 0, consecutive_empty: 0, consecutive_errors: 0 }),
    {
        LoopState { iteration: 0, consecutive_empty: 0, consecutive_errors: 0 }
    }
}

/// Whether a round is within the limit on rounds.
pub open spec fn within_limit(max_iterations: u64, iteration: int) -> bool {
    max_iterations == 0 || iteration <= max_iterations
}

/// Begins the next round. The result says whether it is within the limit; if
/// not, the loop stops.
pub fn next_round(state: LoopState, max_iterations: u64) -> (r: (LoopState, bool))
    requires
        state.iteration < u64::MAX,
    ensures
        r.0 == (LoopState { iteration: (state.iteration + 1) as u64, ..state }),
        r.1 == within_limit(max_iterations, state.iteration + 1),
        max_iterations > 0 ==> (r.1 <==> state.iteration < max_iterations),
        max_iterations == 0 ==> r.1,
{
    let next = LoopState { iteration: state.iteration + 1, ..state };
    (next, max_iterations == 0 || next.iteration <= max_iterations)
}

/// How far an order is filled, in words.
pub open spec fn fill_info(order_status: Seq<char>, filled: u32, tickets: u32) -> Seq<char> {
    if order_status == "filled"@ {
        "FILLED "@ + text::decimal(filled as nat) + "/"@ + text::decimal(tickets as nat)
    } else if order_status == "partial"@ {
        "PARTIAL "@ + text::decimal(filled as nat) + "/"@ + text::decimal(tickets as nat)
    } else {
        "PENDING 0/"@ + text::decimal(tickets as nat) + " (waiting for counterparty)"@
    }
}

/// The state after a round: a round that was played clears both counts, one
/// without a market or with a failure adds to one of them, and one that met
/// the rate limit leaves them.
pub open spec fn counted(state: LoopState, result: IterationResult<Seq<char>>) -> LoopState {
    match result {
        IterationResult::Submitted { .. } | IterationResult::Skipped { .. } => LoopState {
            iteration: state.iteration,
            consecutive_empty: 0,
            consecutive_errors: 0,
        },
        IterationResult::NoMarkets { .. } => LoopState {
            consecutive_empty: (state.consecutive_empty + 1) as u32,
            ..state
        },
        IterationResult::RateLimited { .. } => state,
        IterationResult::LlmFailed { .. } | IterationResult::Error { .. } => LoopState {
            consecutive_errors: (state.consecutive_errors + 1) as u32,
            ..state
        },
    }
}

/// The pause after a round, given the state after it.
pub open spec fn pause(
    interval: u64,
    after: LoopState,
    result: IterationResult<Seq<char>>,
) -> nat {
    match result {
        IterationResult::Submitted { .. } | IterationResult::Skipped { .. } => interval as nat,
        IterationResult::NoMarkets { wait_seconds } => backoff(
            interval as nat,
            after.consecutive_empty as nat,
            Some(wait_seconds),
        ),
        IterationResult::RateLimited { wait_seconds } => wait_seconds as nat,
        IterationResult::LlmFailed { .. } | IterationResult::Error { .. } => backoff(
            interval as nat,
            after.consecutive_errors as nat,
            None,
        ),
    }
}

/// What the user is told of a round, given how long it took and the pause
/// after it.
pub open spec fn notice(
    iteration: u64,
    result: IterationResult<Seq<char>>,
    elapsed: Seq<char>,
    pause: nat,
) -> Seq<char> {
    let head = "[NOTIFY] Round "@ + text::decimal(iteration as nat) + ": "@;
    match result {
        IterationResult::Submitted {
            market,
            direction,
            tickets,
            tickets_filled,
            order_status,
        } => head + text::uppercase(direction) + " "@ + market + " — "@ + fill_info(
            order_status,
            tickets_filled,
            tickets,
        ) + " ("@ + elapsed + "s)"@,
        IterationResult::Skipped { reason } => head + "Skipped — "@ + reason,
        IterationResult::NoMarkets { .. } => head + "No markets available, waiting "@
            + text::decimal(pause) + "s"@,
        IterationResult::RateLimited { .. } => head + "Rate limited, waiting "@ + text::decimal(
            pause,
        ) + "s"@,
        IterationResult::LlmFailed { reason } => head + "LLM error — "@ + reason
            + ", retrying in "@ + text::decimal(pause) + "s"@,
        IterationResult::Error { reason } => head + "Error — "@ + reason + ", retrying in "@
            + text::decimal(pause) + "s"@,
    }
}

/// What follows a round: the new state, the pause in seconds, and the line for
/// the user, where lines are wanted. `S` is the type of the line.
pub struct Aftermath<S> {
    pub state: LoopState,
    pub pause: u64,
    pub notice: Option<S>,
}

/// How far an order is filled, in words.
pub fn fill_words(order_status: &str, filled: u32, tickets: u32) -> (r: String)
    ensures
        r@ == fill_info(order_status@, filled, tickets),
{
    if text::same(order_status, "filled") {
        let mut out = "FILLED ".to_owned();
        text::push_decimal(&mut out, filled as u64);
        out.append("/");
        text::push_decimal(&mut out, tickets as u64);
        out
    } else if text::same(order_status, "partial") {
        let mut out = "PARTIAL ".to_owned();
        text::push_decimal(&mut out, filled as u64);
        out.append("/");
        text::push_decimal(&mut out, tickets as u64);
        out
    } else {
        let mut out = "PENDING 0/".to_owned();
        text::push_decimal(&mut out, tickets as u64);
        out.append(" (waiting for counterparty)");
        out
    }
}

fn notice_of(
    iteration: u64,
    result: &IterationResult<String>,
    elapsed: &str,
    pause: u64,
) -> (r: String)
    ensures
        r@ == notice(iteration, iteration::result_view(*result), elapsed@, pause as nat),
{
    let mut out = "[NOTIFY] Round ".to_owned();
    text::push_decimal(&mut out, iteration);
    out.append(": ");
    match result {
        IterationResult::Submitted {
            market,
            direction,
            tickets,
            tickets_filled,
            order_status,
        } => {
            out.append(text::to_upper(direction.as_str()).as_str());
            out.append(" ");
            out.append(market.as_str());
            out.append(" — ");
            out.append(fill_words(order_status.as_str(), *tickets_filled, *tickets).as_str());
            out.append(" (");
            out.append(elapsed);
            out.append("s)");
        },
        IterationResult::Skipped { reason } => {
            out.append("Skipped — ");
            out.append(reason.as_str());
        },
        IterationResult::NoMarkets { .. } => {
            out.append("No markets available, waiting ");
            text::push_decimal(&mut out, pause);
            out.append("s");
        },
        IterationResult::RateLimited { .. } => {
            out.append("Rate limited, waiting ");
            text::push_decimal(&mut out, pause);
            out.append("s");
        },
        IterationResult::LlmFailed { reason } => {
            out.append("LLM error — ");
            out.append(reason.as_str());
            out.append(", retrying in ");
            text::push_decimal(&mut out, pause);
            out.append("s");
        },
        IterationResult::Error { reason } => {
            out.append("Error — ");
            out.append(reason.as_str());
            out.append(", retrying in ");
            text::push_decimal(&mut out, pause);
            out.append("s");
        },
    }
    out
}

/// Whether a round can be counted and its pause computed within the machine's
/// integers.
pub open spec fn countable(state: LoopState, interval: u64, result: IterationResult<Seq<char>>) -> bool {
    match result {
        IterationResult::NoMarkets { .. } => state.consecutive_empty < u32::MAX,
        IterationResult::LlmFailed { .. } | IterationResult::Error { .. } =>
            state.consecutive_errors < u32::MAX && interval * backoff_factor(
            (state.consecutive_errors + 1) as nat,
        ) <= u64::MAX,
        _ => true,
    }
}

/// Whether a round can be counted and its pause computed within the machine's
/// integers.
pub fn can_count(state: LoopState, interval: u64, result: &IterationResult<String>) -> (r: bool)
    ensures
        r == countable(state, interval, iteration::result_view(*result)),
{
    proof {
        vstd::arithmetic::power2::lemma2_to64();
    }
    match result {
        IterationResult::NoMarkets { .. } => state.consecutive_empty < u32::MAX,
        IterationResult::LlmFailed { .. } | IterationResult::Error { .. } => {
            if state.consecutive_errors == u32::MAX {
                return false;
            }
            let factor: u64 = if state.consecutive_errors == 0 {
                2
            } else if state.consecutive_errors == 1 {
                4
            } else if state.consecutive_errors == 2 {
                8
            } else {
                16
            };
            assert(factor == backoff_factor((state.consecutive_errors + 1) as nat));
            interval.checked_mul(factor).is_some()
        },
        _ => true,
    }
}

/// What follows a round: the counts, the pause, and the line for the user. The
/// time that the round took is handed in, in seconds with one decimal.
pub fn after_round(
    state: LoopState,
    args: &LoopArgs,
    result: &IterationResult<String>,
    elapsed: &str,
) -> (r: Aftermath<String>)
    requires
        countable(state, args.interval, iteration::result_view(*result)),
    ensures
        r.state == counted(state, iteration::result_view(*result)),
        r.pause == pause(args.interval, r.state, iteration::result_view(*result)),
        json::opt_view(r.notice) == if args.notify {
            Some(
                notice(
                    state.iteration,
                    iteration::result_view(*result),
                    elapsed@,
                    r.pause as nat,
                ),
            )
        } else {
            None
        },
        r.notice is Some <==> args.notify,
        r.state.iteration == state.iteration,
{
    let (next, pause) = match result {
        IterationResult::Submitted { .. } => (
            LoopState { iteration: state.iteration, consecutive_empty: 0, consecutive_errors: 0 },
            args.interval,
        ),
        IterationResult::Skipped { .. } => (
            LoopState { iteration: state.iteration, consecutive_empty: 0, consecutive_errors: 0 },
            args.interval,
        ),
        IterationResult::NoMarkets { wait_seconds } => {
            let empty: u32 = state.consecutive_empty + 1;
            (
                LoopState { consecutive_empty: empty, ..state },
                calculate_backoff(args.interval, empty, Some(*wait_seconds)),
            )
        },
        IterationResult::RateLimited { wait_seconds } => (state, *wait_seconds),
        IterationResult::LlmFailed { .. } => {
            let errors: u32 = state.consecutive_errors + 1;
            (
                LoopState { consecutive_errors: errors, ..state },
                calculate_backoff(args.interval, errors, None),
            )
        },
        IterationResult::Error { .. } => {
            let errors: u32 = state.consecutive_errors + 1;
            (
                LoopState { consecutive_errors: errors, ..state },
                calculate_backoff(args.interval, errors, None),
            )
        },
    };
    let notice = if args.notify {
        Some(notice_of(state.iteration, result, elapsed, pause))
    } else {
        None
    };
    Aftermath { state: next, pause, notice }
}

/// A round that was played, with a submission or a skip, clears both counts
/// and is followed by the plain interval.
pub proof fn played_rounds_clear_the_counts(
    state: LoopState,
    interval: u64,
    result: IterationResult<Seq<char>>,
)
    requires
        result is Submitted || result is Skipped,
    ensures
        counted(state, result).consecutive_empty == 0,
        counted(state, result).consecutive_errors == 0,
        pause(interval, counted(state, result), result) == interval,
{
}

/// No round changes the number of rounds that were begun.
pub proof fn rounds_are_counted_once(state: LoopState, result: IterationResult<Seq<char>>)
    ensures
        counted(state, result).iteration == state.iteration,
{
}

/// Without a word from the server the pause doubles with each failure in a
/// row, up to the fourth: it is the interval times 2, 4, 8 and 16 after 1, 2,
/// 3 and any more failures, and never more than 600 seconds.
pub proof fn pauses_double(base: nat, consecutive: nat)
    ensures
        ({
            let factor: nat = if consecutive == 0 {
                1
            } else if consecutive == 1 {
                2
            } else if consecutive == 2 {
                4
            } else if consecutive == 3 {
                8
            } else {
                16
            };
            &&& base * factor <= 600 ==> backoff(base, consecutive, None) == base * factor
            &&& base * factor > 600 ==> backoff(base, consecutive, None) == 600
        }),
{
    vstd::arithmetic::power2::lemma2_to64();
}

/// What a round adds to the counts: one to the rounds without a market, or one
/// to the failures; a round that met the rate limit adds nothing.
pub proof fn rounds_are_counted_by_kind(state: LoopState, result: IterationResult<Seq<char>>)
    requires
        state.consecutive_empty < u32::MAX,
        state.consecutive_errors < u32::MAX,
    ensures
        result is NoMarkets ==> counted(state, result).consecutive_empty == state.consecutive_empty
            + 1 && counted(state, result).consecutive_errors == state.consecutive_errors,
        result is LlmFailed || result is Error ==> counted(state, result).consecutive_errors
            == state.consecutive_errors + 1 && counted(state, result).consecutive_empty
            == state.consecutive_empty,
        result is RateLimited ==> counted(state, result) == state,
{
}

/// After a round without a market, or one that met the rate limit, the pause
/// is the one that the round gives; after a failure it is the one that the
/// failures in a row give, this one included.
pub proof fn rounds_give_their_pause(
    state: LoopState,
    interval: u64,
    result: IterationResult<Seq<char>>,
)
    requires
        state.consecutive_errors < u32::MAX,
    ensures
        result matches IterationResult::NoMarkets { wait_seconds } ==> pause(
            interval,
            counted(state, result),
            result,
        ) == wait_seconds,
        result matches IterationResult::RateLimited { wait_seconds } ==> pause(
            interval,
            counted(state, result),
            result,
        ) == wait_seconds,
        result is LlmFailed || result is Error ==> pause(interval, counted(state, result), result)
            == backoff(interval as nat, (state.consecutive_errors + 1) as nat, None),
{
}

/// The rounds of a loop with a limit are those up to the limit, and a loop
/// without one runs on.
pub proof fn limits_count_rounds(max_iterations: u64, iteration: int)
    ensures
        within_limit(0, iteration),
        max_iterations >= 1 ==> (within_limit(max_iterations, iteration) <==> iteration
            < max_iterations + 1),
{
}

/// What the user is told of a round begins with its number and says how it
/// ended: what was submitted and how far it is filled, why it was skipped, or
/// what went wrong, and how long the pause is.
pub proof fn notices_tell_how_a_round_ended(
    iteration: u64,
    result: IterationResult<Seq<char>>,
    elapsed: Seq<char>,
    pause: nat,
)
    ensures
        ({
            let told = notice(iteration, result, elapsed, pause);
            let head = "[NOTIFY] Round "@ + text::decimal(iteration as nat) + ": "@;
            let seconds = text::decimal(pause);
            &&& result matches IterationResult::Submitted {
                market,
                direction,
                tickets,
                tickets_filled,
                order_status,
            } ==> {
                let of = text::decimal(tickets_filled as nat) + "/"@ + text::decimal(
                    tickets as nat,
                );
                let start = head + text::uppercase(direction) + " "@ + market + " — "@;
                let rest = " ("@ + elapsed + "s)"@;
                &&& order_status == "filled"@ ==> told == start + ("FILLED "@ + of) + rest
                &&& order_status == "partial"@ ==> told == start + ("PARTIAL "@ + of) + rest
                &&& order_status != "filled"@ && order_status != "partial"@ ==> told == start + (
                "PENDING 0/"@ + text::decimal(tickets as nat) + " (waiting for counterparty)"@)
                    + rest
            }
            &&& result matches IterationResult::Skipped { reason } ==> told == head + "Skipped — "@
                + reason
            &&& result is NoMarkets ==> told == head + "No markets available, waiting "@ + seconds
                + "s"@
            &&& result is RateLimited ==> told == head + "Rate limited, waiting "@ + seconds + "s"@
            &&& result matches IterationResult::LlmFailed { reason } ==> told == head
                + "LLM error — "@ + reason + ", retrying in "@ + seconds + "s"@
            &&& result matches IterationResult::Error { reason } ==> told == head + "Error — "@
                + reason + ", retrying in "@ + seconds + "s"@
        }),
{
    reveal_strlit("filled");
    reveal_strlit("partial");
    assert("filled"@.len() == 6 && "partial"@.len() == 7);
    if let IterationResult::Submitted {
        market,
        direction,
        tickets,
        tickets_filled,
        order_status,
    } = result {
        let (some, all) = (text::decimal(tickets_filled as nat), text::decimal(tickets as nat));
        assert("FILLED "@ + some + "/"@ + all =~= "FILLED "@ + (some + "/"@ + all));
        assert("PARTIAL "@ + some + "/"@ + all =~= "PARTIAL "@ + (some + "/"@ + all));
        let start = "[NOTIFY] Round "@ + text::decimal(iteration as nat) + ": "@ + text::uppercase(
            direction,
        ) + " "@ + market + " — "@;
        let info = fill_info(order_status, tickets_filled, tickets);
        assert(start + info + " ("@ + elapsed + "s)"@ =~= start + info + (" ("@ + elapsed + "s)"@));
    }
}

/// Every round can be counted as long as the counts are not at the end of
/// their range and sixteen intervals are a 64-bit number.
pub proof fn ordinary_rounds_can_be_counted(
    state: LoopState,
    interval: u64,
    result: IterationResult<Seq<char>>,
)
    requires
        state.consecutive_empty < u32::MAX,
        state.consecutive_errors < u32::MAX,
        16 * interval <= u64::MAX,
    ensures
        countable(state, interval, result),
{
    vstd::arithmetic::power2::lemma2_to64();
    let factor = backoff_factor((state.consecutive_errors + 1) as nat);
    assert(interval * factor <= 16 * interval) by (nonlinear_arith)
        requires
            factor <= 16,
    ;
}

} // verus!
