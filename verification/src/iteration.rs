//! One round of the agent, as a machine that asks its host for one thing at a
//! time.
//!
//! `begin` and `run_iteration` return a state and an action. The host performs
//! the action and hands what came of it to `run_iteration` as an event, until
//! the action is to finish.
use crate::challenge;
use crate::decision;
use crate::decision::LlmDecision;
use crate::decision::ParseError;
use crate::double;
use crate::double::Double;
use crate::json;
use crate::json::Json;
use crate::json::JsonView;
use crate::llm;
use crate::llm::DirectLlmConfig;
use crate::llm::ModelCall;
use crate::market;
use crate::market::Moment;
use crate::prompt;
use crate::prompt::Quotes;
use crate::strategy;
use crate::strategy::Complements;
use crate::submission;
use crate::submission::Order;
use crate::text;
use crate::verdict;
use crate::verdict::Agent;
use crate::verdict::Verdict;
use vstd::prelude::*;
use vstd::slice::slice_subrange;
use vstd::string::StringExecFns;

verus! {

// ── Errors of the server ────────────────────────────────────────────────

/// The message in an error's JSON, where it has one.
pub open spec fn error_message(value: Option<JsonView>) -> Option<Seq<char>> {
    match value {
        Some(v) => match v.get("error"@) {
            Some(e) => e.text_at("message"@),
            None => None,
        },
        None => None,
    }
}

/// An error in short, given the JSON that it holds.
pub open spec fn short_error_with(err: Seq<char>, value: Option<JsonView>) -> Seq<char> {
    match error_message(value) {
        Some(message) => message,
        None => if err.len() > 200 {
            err.take(200)
        } else {
            err
        },
    }
}

/// The JSON that an error holds: what stands from its first brace on.
pub open spec fn error_json(err: Seq<char>) -> Option<JsonView> {
    match text::find_char(err, '{') {
        Some(at) => json::json_tree(err.skip(at)),
        None => None,
    }
}

/// An error in short: the message in its JSON, or its first 200 characters.
pub open spec fn short_error(err: Seq<char>) -> Seq<char> {
    short_error_with(err, error_json(err))
}

/// An optional value as a mathematical tree.
pub open spec fn opt_tree_of(value: Option<Json>) -> Option<JsonView> {
    match value {
        Some(v) => Some(v@),
        None => None,
    }
}

/// An error in short, given the JSON that it holds.
pub fn short_error_from(err: &str, value: &Option<Json>) -> (r: String)
    ensures
        r@ == short_error_with(err@, opt_tree_of(*value)),
{
    if let Some(v) = value {
        if let Some(e) = v.get("error") {
            if let Some(message) = e.str_at("message") {
                return message.clone();
            }
        }
    }
    let chars = text::chars_of(err);
    if chars.len() > 200 {
        let head = slice_subrange(chars.as_slice(), 0, 200);
        assert(head@ =~= err@.take(200));
        text::string_of(head)
    } else {
        err.to_owned()
    }
}

/// An error in short: the message in the JSON that it holds, or its first 200
/// characters.
pub fn extract_short_error(err: &str) -> (r: String)
    ensures
        r@ == short_error(err@),
{
    let chars = text::chars_of(err);
    proof {
        text::find_char_found(err@, '{');
    }
    let value = match text::find_char_in(chars.as_slice(), '{') {
        Some(at) => {
            let rest = slice_subrange(chars.as_slice(), at, chars.len());
            assert(rest@ =~= err@.skip(at as int));
            Json::parse(text::string_of(rest).as_str())
        },
        None => None,
    };
    short_error_from(err, &value)
}

// ── The parts of a round ────────────────────────────────────────────────

/// What a round is run with: how the model is reached. `S` is the type of
/// texts.
pub struct Setup<S> {
    pub direct: Option<DirectLlmConfig<S>>,
    pub openclaw_bin: Option<S>,
    pub agent_id: S,
}

/// A setup as a mathematical value.
pub open spec fn setup_view(setup: Setup<String>) -> Setup<Seq<char>> {
    Setup {
        direct: llm::opt_config_view(setup.direct),
        openclaw_bin: json::opt_view(setup.openclaw_bin),
        agent_id: setup.agent_id@,
    }
}

/// How a round ended.
#[derive(Debug)]
pub enum IterationResult<S> {
    Submitted { market: S, direction: S, tickets: u32, tickets_filled: u32, order_status: S },
    Skipped { reason: S },
    NoMarkets { wait_seconds: u64 },
    RateLimited { wait_seconds: u64 },
    LlmFailed { reason: S },
    Error { reason: S },
}

/// The end of a round as a mathematical value.
pub open spec fn result_view(result: IterationResult<String>) -> IterationResult<Seq<char>> {
    match result {
        IterationResult::Submitted {
            market,
            direction,
            tickets,
            tickets_filled,
            order_status,
        } => IterationResult::Submitted {
            market: market@,
            direction: direction@,
            tickets,
            tickets_filled,
            order_status: order_status@,
        },
        IterationResult::Skipped { reason } => IterationResult::Skipped { reason: reason@ },
        IterationResult::NoMarkets { wait_seconds } => IterationResult::NoMarkets {
            wait_seconds,
        },
        IterationResult::RateLimited { wait_seconds } => IterationResult::RateLimited {
            wait_seconds,
        },
        IterationResult::LlmFailed { reason } => IterationResult::LlmFailed { reason: reason@ },
        IterationResult::Error { reason } => IterationResult::Error { reason: reason@ },
    }
}

/// The market of a round, the agent that trades it, and what the server
/// recommended. `J` is the type of JSON values, `L` that of lists of them.
pub struct Round<S, J, L> {
    pub agent: Agent<S, L>,
    pub recommendations: L,
    pub market_id: S,
    pub market: J,
}

/// A round as a mathematical value.
pub open spec fn round_view(round: Round<String, Json, Vec<Json>>) -> Round<
    Seq<char>,
    JsonView,
    Seq<JsonView>,
> {
    Round {
        agent: verdict::agent_view(round.agent),
        recommendations: json::trees(round.recommendations@),
        market_id: round.market_id@,
        market: round.market@,
    }
}

/// What the model is asked about: the challenge, its nonce, what it takes to
/// buy at the best prices, and the prompt.
pub struct Question<S, J> {
    pub challenge: J,
    pub nonce: S,
    pub complements: Complements,
    pub prompt: S,
}

/// A question as a mathematical value.
pub open spec fn question_view(question: Question<String, Json>) -> Question<Seq<char>, JsonView> {
    Question {
        challenge: question.challenge@,
        nonce: question.nonce@,
        complements: question.complements,
        prompt: question.prompt@,
    }
}

/// What a round waits for.
pub enum State<S, J, L> {
    /// A client.
    Opening,
    /// The status of the agent.
    FetchingStatus,
    /// A new token, after the status was refused with an error.
    Refreshing { error: S },
    /// A client with the new token.
    Reopening,
    /// The status of the agent, with the new token.
    RefetchingStatus,
    /// The number that the balance in the status is.
    ReadingBalance { data: J },
    /// The server's recommendations.
    Recommending { agent: Agent<S, L> },
    /// The active markets.
    Listing { agent: Agent<S, L>, recommendations: L },
    /// The candles of the market.
    Charting { round: Round<S, J, L> },
    /// The challenge of the market.
    Challenging { round: Round<S, J, L>, klines: Option<L> },
    /// The quotes for the prompt.
    Quoting { round: Round<S, J, L>, klines: Option<L>, challenge: J, nonce: S },
    /// The answer of the model.
    Asking { round: Round<S, J, L>, question: Question<S, J> },
    /// The second answer of the model, after a first one that was a decision
    /// without an answer to the challenge, or no decision.
    Normalizing {
        round: Round<S, J, L>,
        question: Question<S, J>,
        first: Result<LlmDecision<S>, ParseError>,
    },
    /// The reply to a submission.
    Submitting { market: S, direction: S, tickets: u32 },
    /// Nothing: the round is over.
    Finished,
}

/// A state as a mathematical value.
pub open spec fn state_view(state: State<String, Json, Vec<Json>>) -> State<
    Seq<char>,
    JsonView,
    Seq<JsonView>,
> {
    match state {
        State::Opening => State::Opening,
        State::FetchingStatus => State::FetchingStatus,
        State::Refreshing { error } => State::Refreshing { error: error@ },
        State::Reopening => State::Reopening,
        State::RefetchingStatus => State::RefetchingStatus,
        State::ReadingBalance { data } => State::ReadingBalance { data: data@ },
        State::Recommending { agent } => State::Recommending { agent: verdict::agent_view(agent) },
        State::Listing { agent, recommendations } => State::Listing {
            agent: verdict::agent_view(agent),
            recommendations: json::trees(recommendations@),
        },
        State::Charting { round } => State::Charting { round: round_view(round) },
        State::Challenging { round, klines } => State::Challenging {
            round: round_view(round),
            klines: strategy::opt_trees(klines),
        },
        State::Quoting { round, klines, challenge, nonce } => State::Quoting {
            round: round_view(round),
            klines: strategy::opt_trees(klines),
            challenge: challenge@,
            nonce: nonce@,
        },
        State::Asking { round, question } => State::Asking {
            round: round_view(round),
            question: question_view(question),
        },
        State::Normalizing { round, question, first } => State::Normalizing {
            round: round_view(round),
            question: question_view(question),
            first: decision::outcome_view(first),
        },
        State::Submitting { market, direction, tickets } => State::Submitting {
            market: market@,
            direction: direction@,
            tickets,
        },
        State::Finished => State::Finished,
    }
}

/// What came of an action.
pub enum Event<S, J> {
    /// It was done.
    Ready,
    /// It failed, for the reason given.
    Failed(S),
    /// The server replied.
    Reply(J),
    /// The server listed the active markets, at the moment given.
    Listed(J, Moment),
    /// A text was read as a number, or is none.
    Number(Option<Double>),
    /// The quotes.
    Quoted(Quotes),
    /// The model answered.
    Answer(S),
}

/// An event as a mathematical value.
pub open spec fn event_view(event: Event<String, Json>) -> Event<Seq<char>, JsonView> {
    match event {
        Event::Ready => Event::Ready,
        Event::Failed(e) => Event::Failed(e@),
        Event::Reply(j) => Event::Reply(j@),
        Event::Listed(j, now) => Event::Listed(j@, now),
        Event::Number(d) => Event::Number(d),
        Event::Quoted(q) => Event::Quoted(q),
        Event::Answer(s) => Event::Answer(s@),
    }
}

/// What the host is to do next.
pub enum Action<S, J> {
    /// Open a client for the server.
    OpenClient,
    /// Get a new token.
    RefreshToken,
    /// Open another client, for the next fetch alone.
    ReopenClient,
    /// Fetch a path, signed or not.
    Fetch { path: S, signed: bool },
    /// Fetch a path, signed, with the other client.
    Refetch { path: S },
    /// Read a text as a number.
    ReadNumber(S),
    /// Subtract three numbers from one: the two best prices, where they are
    /// numbers, and the implied probability of `up`; and tell the time.
    Quote { best_up: Option<S>, best_down: Option<S>, implied_up: Double },
    /// Call the model.
    Ask(ModelCall<S, J>),
    /// Post a body to a path, with a signature over the canonical text. The
    /// advice is for the log.
    Submit { path: S, canonical: S, body: J, advice: Option<S> },
    /// End the round.
    Finish(IterationResult<S>),
}

/// An action as a mathematical value.
pub open spec fn action_view(action: Action<String, Json>) -> Action<Seq<char>, JsonView> {
    match action {
        Action::OpenClient => Action::OpenClient,
        Action::RefreshToken => Action::RefreshToken,
        Action::ReopenClient => Action::ReopenClient,
        Action::Fetch { path, signed } => Action::Fetch { path: path@, signed },
        Action::Refetch { path } => Action::Refetch { path: path@ },
        Action::ReadNumber(s) => Action::ReadNumber(s@),
        Action::Quote { best_up, best_down, implied_up } => Action::Quote {
            best_up: json::opt_view(best_up),
            best_down: json::opt_view(best_down),
            implied_up,
        },
        Action::Ask(call) => Action::Ask(llm::call_view(call)),
        Action::Submit { path, canonical, body, advice } => Action::Submit {
            path: path@,
            canonical: canonical@,
            body: body@,
            advice: json::opt_view(advice),
        },
        Action::Finish(result) => Action::Finish(result_view(result)),
    }
}

/// A state and an action.
pub struct Step<S, J, L> {
    pub state: State<S, J, L>,
    pub action: Action<S, J>,
}

/// A step as a mathematical value.
pub open spec fn step_view(step: Step<String, Json, Vec<Json>>) -> Step<
    Seq<char>,
    JsonView,
    Seq<JsonView>,
> {
    Step { state: state_view(step.state), action: action_view(step.action) }
}

/// The end of a round.
pub open spec fn finish(result: IterationResult<Seq<char>>) -> Step<
    Seq<char>,
    JsonView,
    Seq<JsonView>,
> {
    Step { state: State::Finished, action: Action::Finish(result) }
}

fn end(result: IterationResult<String>) -> (r: Step<String, Json, Vec<Json>>)
    ensures
        step_view(r) == finish(result_view(result)),
{
    Step { state: State::Finished, action: Action::Finish(result) }
}

/// A round that ends for want of a market, and the seconds to wait.
pub open spec fn no_markets(wait_seconds: u64) -> Step<Seq<char>, JsonView, Seq<JsonView>> {
    finish(IterationResult::NoMarkets { wait_seconds })
}

/// A round that fails with an error.
pub open spec fn fail(words: Seq<char>, error: Seq<char>) -> Step<
    Seq<char>,
    JsonView,
    Seq<JsonView>,
> {
    finish(IterationResult::Error { reason: words + error })
}

fn end_with_error(words: &str, error: &str) -> (r: Step<String, Json, Vec<Json>>)
    ensures
        step_view(r) == fail(words@, error@),
{
    let mut reason = words.to_owned();
    reason.append(error);
    end(IterationResult::Error { reason })
}

/// A round in which the model fails.
pub open spec fn fail_llm(words: Seq<char>, error: Seq<char>) -> Step<
    Seq<char>,
    JsonView,
    Seq<JsonView>,
> {
    finish(IterationResult::LlmFailed { reason: words + error })
}

fn end_with_llm_failure(words: &str, error: &str) -> (r: Step<String, Json, Vec<Json>>)
    ensures
        step_view(r) == fail_llm(words@, error@),
{
    let mut reason = words.to_owned();
    reason.append(error);
    end(IterationResult::LlmFailed { reason })
}

// ── The agent ───────────────────────────────────────────────────────────

/// Where the status of the agent is found.
pub const STATUS_PATH: &'static str = "/api/v1/agents/me/status";

/// Where the server's recommendations are found.
pub const RECOMMEND_PATH: &'static str = "/api/v1/markets/recommend";

/// Where the active markets are found.
pub const ACTIVE_PATH: &'static str = "/api/v1/markets/active";

/// Where predictions are submitted.
pub const PREDICTIONS_PATH: &'static str = "/api/v1/predictions";

/// A value of the timeslot, where there is one.
pub open spec fn timeslot_signed(data: JsonView, key: Seq<char>, other: i64) -> i64 {
    match data.get("timeslot"@) {
        Some(slot) => slot.signed_or(key, other),
        None => other,
    }
}

/// The seconds to the next timeslot; five minutes where they are not told.
pub open spec fn resets_in(data: JsonView) -> u64 {
    match data.get("timeslot"@) {
        Some(slot) => match slot.unsigned_at("slot_resets_in_seconds"@) {
            Some(n) => n,
            None => 300,
        },
        None => 300,
    }
}

/// The agent that a status describes, given its balance.
pub open spec fn agent_in(data: JsonView, balance: Double) -> Agent<Seq<char>, Seq<JsonView>> {
    Agent {
        balance,
        persona: data.text_or("persona"@, "none"@),
        submissions_remaining: timeslot_signed(data, "submissions_remaining"@, 3),
        slot_resets_in: resets_in(data),
        open_orders: data.items_at("open_orders"@),
        recent_results: data.items_at("recent_results"@),
    }
}

/// A copy of a list.
fn copy_list(list: &Vec<Json>) -> (r: Vec<Json>)
    ensures
        json::trees(r@) == json::trees(list@),
{
    let mut out: Vec<Json> = Vec::new();
    let mut i: usize = 0;
    while i < list.len()
        invariant
            i <= list@.len(),
            out@.len() == i,
            forall|j: int| 0 <= j < i ==> (#[trigger] out@[j])@ == list@[j]@,
        decreases list@.len() - i,
    {
        out.push(list[i].copy());
        i = i + 1;
    }
    assert(json::trees(out@) =~= json::trees(list@));
    out
}

fn list_at(value: &Json, key: &str) -> (r: Option<Vec<Json>>)
    ensures
        strategy::opt_trees(r) == value@.items_at(key@),
{
    match value.array_at(key) {
        Some(list) => Some(copy_list(list)),
        None => None,
    }
}

/// Reads the agent that a status describes, given its balance. Where the
/// status does not tell, three submissions remain and the timeslot ends in
/// five minutes.
pub fn agent_of(data: &Json, balance: Double) -> (r: Agent<String, Vec<Json>>)
    ensures
        verdict::agent_view(r) == agent_in(data@, balance),
{
    let (submissions_remaining, slot_resets_in) = match data.get("timeslot") {
        Some(slot) => (
            slot.i64_or("submissions_remaining", 3),
            match slot.u64_at("slot_resets_in_seconds") {
                Some(n) => n,
                None => 300,
            },
        ),
        None => (3, 300),
    };
    Agent {
        balance,
        persona: data.str_or("persona", "none"),
        submissions_remaining,
        slot_resets_in,
        open_orders: list_at(data, "open_orders"),
        recent_results: list_at(data, "recent_results"),
    }
}

/// On with an agent: to the recommendations, or to the end of the round where
/// no submission remains.
pub open spec fn with_agent(agent: Agent<Seq<char>, Seq<JsonView>>) -> Step<
    Seq<char>,
    JsonView,
    Seq<JsonView>,
> {
    if agent.submissions_remaining <= 0 {
        finish(
            IterationResult::RateLimited {
                wait_seconds: if agent.slot_resets_in < 10 {
                    10
                } else {
                    agent.slot_resets_in
                },
            },
        )
    } else {
        Step {
            state: State::Recommending { agent },
            action: Action::Fetch { path: RECOMMEND_PATH@, signed: true },
        }
    }
}

fn on_agent(agent: Agent<String, Vec<Json>>) -> (r: Step<String, Json, Vec<Json>>)
    ensures
        step_view(r) == with_agent(verdict::agent_view(agent)),
{
    if agent.submissions_remaining <= 0 {
        let wait_seconds: u64 = if agent.slot_resets_in < 10 {
            10
        } else {
            agent.slot_resets_in
        };
        end(IterationResult::RateLimited { wait_seconds })
    } else {
        Step {
            state: State::Recommending { agent },
            action: Action::Fetch { path: RECOMMEND_PATH.to_owned(), signed: true },
        }
    }
}

/// On with a status: a balance that is a text is read first.
pub open spec fn with_status(status: JsonView) -> Step<Seq<char>, JsonView, Seq<JsonView>> {
    let data = status.object_at("data"@);
    match data.text_at("balance"@) {
        Some(s) => Step { state: State::ReadingBalance { data }, action: Action::ReadNumber(s) },
        None => with_agent(
            agent_in(
                data,
                match data.double_at("balance"@) {
                    Some(d) => d,
                    None => Double { bits: double::ZERO },
                },
            ),
        ),
    }
}

fn data_of(reply: &Json) -> (r: Json)
    ensures
        r@ == reply@.object_at("data"@),
{
    match reply.get("data") {
        Some(data) => data.copy(),
        None => json::Members::new().object(),
    }
}

fn on_status(status: &Json) -> (r: Step<String, Json, Vec<Json>>)
    ensures
        step_view(r) == with_status(status@),
{
    let data = data_of(status);
    let balance = match data.str_at("balance") {
        Some(s) => Some(s.clone()),
        None => None,
    };
    match balance {
        Some(s) => Step { state: State::ReadingBalance { data }, action: Action::ReadNumber(s) },
        None => {
            let number = match data.double_at("balance") {
                Some(d) => d,
                None => Double { bits: double::ZERO },
            };
            on_agent(agent_of(&data, number))
        },
    }
}

/// Whether a refused status may be due to an old token.
pub open spec fn is_auth_error(error: Seq<char>) -> bool {
    text::has(error, "AUTH_FAILED"@) || text::has(error, "expired"@) || text::has(
        error,
        "invalid token"@,
    )
}

// ── The market ──────────────────────────────────────────────────────────

/// The list that a reply holds, or an empty one.
pub open spec fn data_list(reply: JsonView) -> Seq<JsonView> {
    match reply.items_at("data"@) {
        Some(list) => list,
        None => Seq::empty(),
    }
}

fn data_list_of(reply: &Json) -> (r: Vec<Json>)
    ensures
        json::trees(r@) == data_list(reply@),
{
    match reply.array_at("data") {
        Some(list) => copy_list(list),
        None => {
            let empty: Vec<Json> = Vec::new();
            assert(json::trees(empty@) =~= Seq::<JsonView>::empty());
            empty
        },
    }
}

/// On with a market, unless it has no name.
pub open spec fn with_market(
    agent: Agent<Seq<char>, Seq<JsonView>>,
    recommendations: Seq<JsonView>,
    market_id: Seq<char>,
    market: JsonView,
) -> Step<Seq<char>, JsonView, Seq<JsonView>> {
    if market_id.len() == 0 {
        no_markets(300)
    } else {
        Step {
            state: State::Charting { round: Round { agent, recommendations, market_id, market } },
            action: Action::Fetch {
                path: "/api/v1/markets/"@ + market_id + "/klines"@,
                signed: false,
            },
        }
    }
}

fn on_market(
    agent: Agent<String, Vec<Json>>,
    recommendations: Vec<Json>,
    market_id: String,
    market: Json,
) -> (r: Step<String, Json, Vec<Json>>)
    ensures
        step_view(r) == with_market(
            verdict::agent_view(agent),
            json::trees(recommendations@),
            market_id@,
            market@,
        ),
{
    if market_id.as_str().unicode_len() == 0 {
        return end(IterationResult::NoMarkets { wait_seconds: 300 });
    }
    let mut path = "/api/v1/markets/".to_owned();
    path.append(market_id.as_str());
    path.append("/klines");
    Step {
        state: State::Charting { round: Round { agent, recommendations, market_id, market } },
        action: Action::Fetch { path, signed: false },
    }
}

/// On with the recommendations: the first that can be followed, or the active
/// markets.
pub open spec fn with_recommendations(
    agent: Agent<Seq<char>, Seq<JsonView>>,
    list: Seq<JsonView>,
) -> Step<Seq<char>, JsonView, Seq<JsonView>> {
    match market::first_actionable(list, 0) {
        Some(i) => with_market(agent, list, list[i].text_or("market_id"@, ""@), list[i]),
        None => Step {
            state: State::Listing { agent, recommendations: list },
            action: Action::Fetch { path: ACTIVE_PATH@, signed: false },
        },
    }
}

fn on_recommendations(agent: Agent<String, Vec<Json>>, list: Vec<Json>) -> (r: Step<
    String,
    Json,
    Vec<Json>,
>)
    ensures
        step_view(r) == with_recommendations(verdict::agent_view(agent), json::trees(list@)),
{
    match market::recommended(&list) {
        Some(i) => {
            assert(json::trees(list@)[i as int] == list@[i as int]@);
            let market_id = list[i].str_or("market_id", "");
            let market = list[i].copy();
            on_market(agent, list, market_id, market)
        },
        None => Step {
            state: State::Listing { agent, recommendations: list },
            action: Action::Fetch { path: ACTIVE_PATH.to_owned(), signed: false },
        },
    }
}

/// On with the active markets: the first that is open for more than two
/// minutes, where the time to the close of each is given.
pub open spec fn with_active(
    agent: Agent<Seq<char>, Seq<JsonView>>,
    recommendations: Seq<JsonView>,
    list: Seq<JsonView>,
    times: Seq<Option<i64>>,
) -> Step<Seq<char>, JsonView, Seq<JsonView>> {
    match market::first_open(times, 0) {
        Some(i) => with_market(agent, recommendations, list[i].text_or("id"@, ""@), list[i]),
        None => no_markets(300),
    }
}

/// Goes on with the active markets, where the time to the close of each is
/// given.
pub fn on_active(
    agent: Agent<String, Vec<Json>>,
    recommendations: Vec<Json>,
    list: Vec<Json>,
    times: &Vec<Option<i64>>,
) -> (r: Step<String, Json, Vec<Json>>)
    requires
        times@.len() == list@.len(),
    ensures
        step_view(r) == with_active(
            verdict::agent_view(agent),
            json::trees(recommendations@),
            json::trees(list@),
            times@,
        ),
{
    match market::open_market(times) {
        Some(i) => {
            assert(json::trees(list@)[i as int] == list@[i as int]@);
            let market_id = list[i].str_or("id", "");
            let market = list[i].copy();
            on_market(agent, recommendations, market_id, market)
        },
        None => end(IterationResult::NoMarkets { wait_seconds: 300 }),
    }
}

/// The candles in a reply, where it has any.
pub open spec fn klines_in(reply: JsonView) -> Option<Seq<JsonView>> {
    match reply.get("data"@) {
        Some(data) => data.items_at("klines"@),
        None => None,
    }
}

fn klines_of(reply: &Json) -> (r: Option<Vec<Json>>)
    ensures
        strategy::opt_trees(r) == klines_in(reply@),
{
    match reply.get("data") {
        Some(data) => list_at(data, "klines"),
        None => None,
    }
}

/// On with the candles, or without them: to the challenge.
pub open spec fn with_klines(
    round: Round<Seq<char>, JsonView, Seq<JsonView>>,
    klines: Option<Seq<JsonView>>,
) -> Step<Seq<char>, JsonView, Seq<JsonView>> {
    Step {
        state: State::Challenging { round, klines },
        action: Action::Fetch {
            path: "/api/v1/challenge?market_id="@ + round.market_id,
            signed: true,
        },
    }
}

fn on_klines(round: Round<String, Json, Vec<Json>>, klines: Option<Vec<Json>>) -> (r: Step<
    String,
    Json,
    Vec<Json>,
>)
    ensures
        step_view(r) == with_klines(round_view(round), strategy::opt_trees(klines)),
{
    let mut path = "/api/v1/challenge?market_id=".to_owned();
    path.append(round.market_id.as_str());
    Step {
        state: State::Challenging { round, klines },
        action: Action::Fetch { path, signed: true },
    }
}

// ── The question ────────────────────────────────────────────────────────

/// A best price in the orderbook of a market, where it is a text.
pub open spec fn best_price(market: JsonView, key: Seq<char>) -> Option<Seq<char>> {
    match market.get("orderbook"@) {
        Some(book) => book.text_at(key),
        None => None,
    }
}

fn best_price_of(market: &Json, key: &str) -> (r: Option<String>)
    ensures
        json::opt_view(r) == best_price(market@, key@),
{
    match market.get("orderbook") {
        Some(book) => match book.str_at(key) {
            Some(s) => Some(s.clone()),
            None => None,
        },
        None => None,
    }
}

/// On with a challenge, unless it has no nonce: to the quotes.
pub open spec fn with_challenge(
    round: Round<Seq<char>, JsonView, Seq<JsonView>>,
    klines: Option<Seq<JsonView>>,
    challenge: JsonView,
) -> Step<Seq<char>, JsonView, Seq<JsonView>> {
    let nonce = challenge.text_or("nonce"@, ""@);
    if nonce.len() == 0 {
        fail_llm("challenge missing nonce"@, Seq::empty())
    } else {
        Step {
            state: State::Quoting { round, klines, challenge, nonce },
            action: Action::Quote {
                best_up: best_price(round.market, "best_up_price"@),
                best_down: best_price(round.market, "best_down_price"@),
                implied_up: prompt::implied_up(round.market),
            },
        }
    }
}

fn on_challenge(
    round: Round<String, Json, Vec<Json>>,
    klines: Option<Vec<Json>>,
    challenge: Json,
) -> (r: Step<String, Json, Vec<Json>>)
    ensures
        step_view(r) == with_challenge(
            round_view(round),
            strategy::opt_trees(klines),
            challenge@,
        ),
{
    let nonce = challenge.str_or("nonce", "");
    if nonce.as_str().unicode_len() == 0 {
        proof {
            assert("challenge missing nonce"@ + Seq::<char>::empty()
                =~= "challenge missing nonce"@);
        }
        return end(IterationResult::LlmFailed { reason: "challenge missing nonce".to_owned() });
    }
    let action = Action::Quote {
        best_up: best_price_of(&round.market, "best_up_price"),
        best_down: best_price_of(&round.market, "best_down_price"),
        implied_up: prompt::implied_up_of(&round.market),
    };
    Step { state: State::Quoting { round, klines, challenge, nonce }, action }
}

/// The prompt of a round.
pub open spec fn round_prompt(
    round: Round<Seq<char>, JsonView, Seq<JsonView>>,
    klines: Option<Seq<JsonView>>,
    challenge: JsonView,
    quotes: Quotes,
) -> Seq<char> {
    prompt::prompt(
        round.market_id,
        round.market,
        klines,
        round.recommendations,
        round.agent.balance,
        round.agent.persona,
        round.agent.submissions_remaining,
        round.agent.slot_resets_in,
        round.agent.open_orders,
        round.agent.recent_results,
        challenge,
        strategy::accuracy(round.agent.recent_results),
        quotes,
    )
}

/// On with the quotes: to the model.
pub open spec fn with_quotes(
    setup: Setup<Seq<char>>,
    round: Round<Seq<char>, JsonView, Seq<JsonView>>,
    klines: Option<Seq<JsonView>>,
    challenge: JsonView,
    nonce: Seq<char>,
    quotes: Quotes,
) -> Step<Seq<char>, JsonView, Seq<JsonView>> {
    let words = round_prompt(round, klines, challenge, quotes);
    match llm::model_call(
        setup.direct,
        setup.openclaw_bin,
        setup.agent_id,
        words,
        llm::NO_TRANSPORT@,
    ) {
        Ok(call) => Step {
            state: State::Asking {
                round,
                question: Question {
                    challenge,
                    nonce,
                    complements: quotes.complements,
                    prompt: words,
                },
            },
            action: Action::Ask(call),
        },
        Err(e) => finish(IterationResult::LlmFailed { reason: e }),
    }
}

fn on_quotes(
    setup: &Setup<String>,
    round: Round<String, Json, Vec<Json>>,
    klines: Option<Vec<Json>>,
    challenge: Json,
    nonce: String,
    quotes: Quotes,
) -> (r: Step<String, Json, Vec<Json>>)
    requires
        prompt::orders_fit(strategy::opt_trees(round.agent.open_orders)),
    ensures
        step_view(r) == with_quotes(
            setup_view(*setup),
            round_view(round),
            strategy::opt_trees(klines),
            challenge@,
            nonce@,
            quotes,
        ),
{
    let recent_acc = strategy::recent_accuracy(&round.agent.recent_results);
    let words = prompt::build_prompt(
        round.market_id.as_str(),
        &round.market,
        &klines,
        &round.recommendations,
        round.agent.balance,
        round.agent.persona.as_str(),
        round.agent.submissions_remaining,
        round.agent.slot_resets_in,
        &round.agent.open_orders,
        &round.agent.recent_results,
        &challenge,
        recent_acc,
        quotes,
    );
    match llm::ask_model(
        &setup.direct,
        &setup.openclaw_bin,
        setup.agent_id.as_str(),
        words.as_str(),
    ) {
        Ok(call) => Step {
            state: State::Asking {
                round,
                question: Question {
                    challenge,
                    nonce,
                    complements: quotes.complements,
                    prompt: words,
                },
            },
            action: Action::Ask(call),
        },
        Err(e) => end(IterationResult::LlmFailed { reason: e }),
    }
}

// ── The decision ────────────────────────────────────────────────────────

/// A word of advice on the price of a decision.
pub open spec fn advice_on(
    decision: LlmDecision<Seq<char>>,
    market: JsonView,
    complements: Complements,
) -> Option<Seq<char>> {
    match decision {
        LlmDecision::Submit { direction, limit_price, fill_intent, .. } => match (
            limit_price,
            fill_intent,
        ) {
            (Some(p), Some(intent)) => strategy::advisory(
                intent,
                direction,
                p,
                market,
                complements,
            ),
            _ => None,
        },
        LlmDecision::Skip { .. } => None,
    }
}

fn advice_of(
    decision: &LlmDecision<String>,
    market: &Json,
    complements: Complements,
) -> (r: Option<String>)
    ensures
        json::opt_view(r) == advice_on(decision::decision_view(*decision), market@, complements),
{
    match decision {
        LlmDecision::Submit { direction, limit_price, fill_intent, .. } => match (
            limit_price,
            fill_intent,
        ) {
            (Some(p), Some(intent)) => strategy::limit_price_advisory(
                intent.as_str(),
                direction.as_str(),
                *p,
                market,
                complements,
            ),
            _ => None,
        },
        LlmDecision::Skip { .. } => None,
    }
}

/// On with an order: to its submission.
pub open spec fn with_order(order: Order<Seq<char>>, advice: Option<Seq<char>>) -> Step<
    Seq<char>,
    JsonView,
    Seq<JsonView>,
> {
    Step {
        state: State::Submitting {
            market: order.market_id,
            direction: order.direction,
            tickets: order.tickets,
        },
        action: Action::Submit {
            path: PREDICTIONS_PATH@,
            canonical: submission::canonical(order, submission::sha256(order.reasoning)),
            body: submission::order_tree(order),
            advice,
        },
    }
}

/// On with a decision: to a submission, or to the end of the round.
pub open spec fn with_decision(
    round: Round<Seq<char>, JsonView, Seq<JsonView>>,
    question: Question<Seq<char>, JsonView>,
    decision: LlmDecision<Seq<char>>,
) -> Step<Seq<char>, JsonView, Seq<JsonView>> {
    match verdict::verdict(
        round.agent,
        round.market_id,
        question.challenge,
        question.nonce,
        decision,
    ) {
        Verdict::Skip(reason) => finish(IterationResult::Skipped { reason }),
        Verdict::Place(order) => with_order(
            order,
            advice_on(decision, round.market, question.complements),
        ),
    }
}

fn on_decision(
    round: &Round<String, Json, Vec<Json>>,
    question: &Question<String, Json>,
    decision: LlmDecision<String>,
) -> (r: Step<String, Json, Vec<Json>>)
    requires
        verdict::priced(decision),
    ensures
        step_view(r) == with_decision(
            round_view(*round),
            question_view(*question),
            decision::decision_view(decision),
        ),
{
    let advice = advice_of(&decision, &round.market, question.complements);
    match verdict::judge(
        &round.agent,
        round.market_id.as_str(),
        &question.challenge,
        question.nonce.as_str(),
        decision,
    ) {
        Verdict::Skip(reason) => end(IterationResult::Skipped { reason }),
        Verdict::Place(order) => {
            let canonical = submission::canonical_body(&order);
            let body = submission::order_request(&order);
            Step {
                state: State::Submitting {
                    market: order.market_id,
                    direction: order.direction,
                    tickets: order.tickets,
                },
                action: Action::Submit {
                    path: PREDICTIONS_PATH.to_owned(),
                    canonical,
                    body,
                    advice,
                },
            }
        },
    }
}

/// A round whose replies are no decision, and whose second question failed.
pub open spec fn normalization_failed(error: ParseError, retry: Seq<char>) -> Step<
    Seq<char>,
    JsonView,
    Seq<JsonView>,
> {
    finish(
        IterationResult::LlmFailed {
            reason: "parse failed: "@ + error.words() + "; normalization failed: "@ + retry,
        },
    )
}

fn end_normalization(error: ParseError, retry: &str) -> (r: Step<String, Json, Vec<Json>>)
    ensures
        step_view(r) == normalization_failed(error, retry@),
{
    let mut reason = "parse failed: ".to_owned();
    reason.append(error.message());
    reason.append("; normalization failed: ");
    reason.append(retry);
    end(IterationResult::LlmFailed { reason })
}

/// On where the model could not be asked a second time: with its first
/// decision, or to the end of the round.
pub open spec fn without_normalization(
    round: Round<Seq<char>, JsonView, Seq<JsonView>>,
    question: Question<Seq<char>, JsonView>,
    first: Result<LlmDecision<Seq<char>>, ParseError>,
    retry: Seq<char>,
) -> Step<Seq<char>, JsonView, Seq<JsonView>> {
    match first {
        Ok(decision) => with_decision(round, question, decision),
        Err(e) => normalization_failed(e, retry),
    }
}

fn on_no_normalization(
    round: &Round<String, Json, Vec<Json>>,
    question: &Question<String, Json>,
    first: Result<LlmDecision<String>, ParseError>,
    retry: &str,
) -> (r: Step<String, Json, Vec<Json>>)
    requires
        first matches Ok(d) ==> verdict::priced(d),
    ensures
        step_view(r) == without_normalization(
            round_view(*round),
            question_view(*question),
            decision::outcome_view(first),
            retry@,
        ),
{
    match first {
        Ok(decision) => on_decision(round, question, decision),
        Err(e) => end_normalization(e, retry),
    }
}

/// On with the model's first answer, given the decision that it states: with
/// the decision where it has an answer to the challenge, else to a second
/// question.
pub open spec fn with_answer(
    setup: Setup<Seq<char>>,
    round: Round<Seq<char>, JsonView, Seq<JsonView>>,
    question: Question<Seq<char>, JsonView>,
    answer: Seq<char>,
    first: Result<LlmDecision<Seq<char>>, ParseError>,
) -> Step<Seq<char>, JsonView, Seq<JsonView>> {
    if first is Ok && decision::has_answer(first->Ok_0) {
        with_decision(round, question, first->Ok_0)
    } else {
        match llm::model_call(
            setup.direct,
            setup.openclaw_bin,
            setup.agent_id,
            llm::normalization_prompt(question.prompt, answer),
            llm::NO_NORMALIZER@,
        ) {
            Ok(call) => Step {
                state: State::Normalizing { round, question, first },
                action: Action::Ask(call),
            },
            Err(retry) => without_normalization(round, question, first, retry),
        }
    }
}

/// Goes on with the model's first answer, given the decision that it states.
pub fn on_answer(
    setup: &Setup<String>,
    round: Round<String, Json, Vec<Json>>,
    question: Question<String, Json>,
    answer: &str,
    first: Result<LlmDecision<String>, ParseError>,
) -> (r: Step<String, Json, Vec<Json>>)
    requires
        first matches Ok(d) ==> verdict::priced(d),
    ensures
        step_view(r) == with_answer(
            setup_view(*setup),
            round_view(round),
            question_view(question),
            answer@,
            decision::outcome_view(first),
        ),
        wf(r.state),
{
    let settled: bool = match &first {
        Ok(d) => decision::decision_has_challenge_answer(d),
        Err(_) => false,
    };
    if settled {
        return on_no_normalization(&round, &question, first, "");
    }
    match llm::normalize_llm_decision(
        question.prompt.as_str(),
        answer,
        &setup.direct,
        &setup.openclaw_bin,
        setup.agent_id.as_str(),
    ) {
        Ok(call) => Step {
            state: State::Normalizing { round, question, first },
            action: Action::Ask(call),
        },
        Err(retry) => on_no_normalization(&round, &question, first, retry.as_str()),
    }
}

/// The decision to go on with after a second answer: the second one, unless
/// only the first is a decision, or only the second lacks an answer to the
/// challenge.
pub open spec fn settled(
    first: Result<LlmDecision<Seq<char>>, ParseError>,
    second: Result<LlmDecision<Seq<char>>, ParseError>,
) -> Result<LlmDecision<Seq<char>>, ParseError> {
    match (first, second) {
        (Ok(a), Ok(b)) => if decision::has_answer(b) {
            Ok(b)
        } else {
            Ok(a)
        },
        (Ok(a), Err(_)) => Ok(a),
        (Err(_), second) => second,
    }
}

/// On with the model's second answer, given the decision that it states.
pub open spec fn with_second_answer(
    round: Round<Seq<char>, JsonView, Seq<JsonView>>,
    question: Question<Seq<char>, JsonView>,
    first: Result<LlmDecision<Seq<char>>, ParseError>,
    second: Result<LlmDecision<Seq<char>>, ParseError>,
) -> Step<Seq<char>, JsonView, Seq<JsonView>> {
    match settled(first, second) {
        Ok(decision) => with_decision(round, question, decision),
        Err(e) => fail_llm("parse failed after normalization: "@, e.words()),
    }
}

/// Goes on with the model's second answer, given the decision that it states.
pub fn on_second_answer(
    round: &Round<String, Json, Vec<Json>>,
    question: &Question<String, Json>,
    first: Result<LlmDecision<String>, ParseError>,
    second: Result<LlmDecision<String>, ParseError>,
) -> (r: Step<String, Json, Vec<Json>>)
    requires
        first matches Ok(d) ==> verdict::priced(d),
        second matches Ok(d) ==> verdict::priced(d),
    ensures
        step_view(r) == with_second_answer(
            round_view(*round),
            question_view(*question),
            decision::outcome_view(first),
            decision::outcome_view(second),
        ),
{
    match (first, second) {
        (Ok(a), Ok(b)) => {
            if decision::decision_has_challenge_answer(&b) {
                on_decision(round, question, b)
            } else {
                on_decision(round, question, a)
            }
        },
        (Ok(a), Err(_)) => on_decision(round, question, a),
        (Err(_), Ok(b)) => on_decision(round, question, b),
        (Err(_), Err(e)) => end_with_llm_failure(
            "parse failed after normalization: ",
            e.message(),
        ),
    }
}

// ── The submission ──────────────────────────────────────────────────────

/// The end of a round whose submission was refused.
pub open spec fn refused(error: Seq<char>) -> Step<Seq<char>, JsonView, Seq<JsonView>> {
    if text::has(error, "RATE_LIMIT"@) || text::has(error, "429"@) {
        finish(IterationResult::RateLimited { wait_seconds: 300 })
    } else if text::has(error, "INSUFFICIENT_BALANCE"@) {
        no_markets(600)
    } else {
        fail("submit failed: "@, short_error(error))
    }
}

fn on_refusal(error: &str) -> (r: Step<String, Json, Vec<Json>>)
    ensures
        step_view(r) == refused(error@),
{
    if text::contains(error, "RATE_LIMIT") || text::contains(error, "429") {
        end(IterationResult::RateLimited { wait_seconds: 300 })
    } else if text::contains(error, "INSUFFICIENT_BALANCE") {
        end(IterationResult::NoMarkets { wait_seconds: 600 })
    } else {
        end_with_error("submit failed: ", extract_short_error(error).as_str())
    }
}

/// The end of a round whose submission was taken.
pub open spec fn taken(
    market: Seq<char>,
    direction: Seq<char>,
    tickets: u32,
    reply: JsonView,
) -> Step<Seq<char>, JsonView, Seq<JsonView>> {
    let receipt = submission::receipt(reply);
    finish(
        IterationResult::Submitted {
            market,
            direction,
            tickets,
            tickets_filled: receipt.tickets_filled,
            order_status: receipt.order_status,
        },
    )
}

// ── The machine ─────────────────────────────────────────────────────────

/// A decision that waits for a second answer names no price out of bounds.
pub open spec fn wf<S, J, L>(state: State<S, J, L>) -> bool {
    match state {
        State::Normalizing { first, .. } => first matches Ok(d) ==> verdict::priced(d),
        _ => true,
    }
}

/// Whether the tickets of the open orders can be summed up, where a prompt is
/// about to be built.
pub open spec fn can_build(state: State<Seq<char>, JsonView, Seq<JsonView>>) -> bool {
    state matches State::Quoting { round, .. } ==> prompt::orders_fit(round.agent.open_orders)
}

/// What a state becomes on an event, and what the host is to do next.
pub open spec fn next(
    setup: Setup<Seq<char>>,
    state: State<Seq<char>, JsonView, Seq<JsonView>>,
    event: Event<Seq<char>, JsonView>,
) -> Step<Seq<char>, JsonView, Seq<JsonView>> {
    match (state, event) {
        (State::Opening, Event::Failed(e)) => fail("API client init failed: "@, e),
        (State::Opening, Event::Ready) => Step {
            state: State::FetchingStatus,
            action: Action::Fetch { path: STATUS_PATH@, signed: true },
        },
        (State::FetchingStatus, Event::Reply(status)) => with_status(status),
        (State::FetchingStatus, Event::Failed(e)) => if is_auth_error(e) {
            Step { state: State::Refreshing { error: e }, action: Action::RefreshToken }
        } else {
            fail("status fetch failed: "@, e)
        },
        (State::Refreshing { error }, Event::Failed(e)) => finish(
            IterationResult::Error {
                reason: "auth failed and token refresh failed: "@ + error + " / "@ + e,
            },
        ),
        (State::Refreshing { .. }, Event::Ready) => Step {
            state: State::Reopening,
            action: Action::ReopenClient,
        },
        (State::Reopening, Event::Failed(e)) => fail("client reinit failed: "@, e),
        (State::Reopening, Event::Ready) => Step {
            state: State::RefetchingStatus,
            action: Action::Refetch { path: STATUS_PATH@ },
        },
        (State::RefetchingStatus, Event::Reply(status)) => with_status(status),
        (State::RefetchingStatus, Event::Failed(e)) => fail(
            "status fetch failed after refresh: "@,
            e,
        ),
        (State::ReadingBalance { data }, Event::Number(number)) => with_agent(
            agent_in(
                data,
                match number {
                    Some(d) => d,
                    None => Double { bits: double::ZERO },
                },
            ),
        ),
        (State::Recommending { agent }, Event::Reply(reply)) => with_recommendations(
            agent,
            data_list(reply),
        ),
        (State::Recommending { agent }, Event::Failed(_)) => with_recommendations(
            agent,
            Seq::empty(),
        ),
        (State::Listing { agent, recommendations }, Event::Listed(reply, now)) => with_active(
            agent,
            recommendations,
            data_list(reply),
            market::times_to_close(data_list(reply), now),
        ),
        (State::Listing { .. }, Event::Failed(e)) => fail("markets fetch failed: "@, e),
        (State::Charting { round }, Event::Reply(reply)) => with_klines(round, klines_in(reply)),
        (State::Charting { round }, Event::Failed(_)) => with_klines(round, None),
        (State::Challenging { round, klines }, Event::Reply(reply)) => with_challenge(
            round,
            klines,
            reply.object_at("data"@),
        ),
        (State::Challenging { .. }, Event::Failed(e)) => fail_llm("challenge fetch failed: "@, e),
        (
            State::Quoting { round, klines, challenge, nonce },
            Event::Quoted(quotes),
        ) => with_quotes(setup, round, klines, challenge, nonce, quotes),
        (State::Asking { round, question }, Event::Answer(answer)) => with_answer(
            setup,
            round,
            question,
            answer,
            decision::response(answer),
        ),
        (State::Asking { .. }, Event::Failed(e)) => finish(
            IterationResult::LlmFailed { reason: e },
        ),
        (
            State::Normalizing { round, question, first },
            Event::Answer(answer),
        ) => with_second_answer(round, question, first, decision::response(answer)),
        (
            State::Normalizing { round, question, first },
            Event::Failed(e),
        ) => without_normalization(round, question, first, e),
        (State::Submitting { market, direction, tickets }, Event::Reply(reply)) => taken(
            market,
            direction,
            tickets,
            reply,
        ),
        (State::Submitting { .. }, Event::Failed(e)) => refused(e),
        _ => finish(IterationResult::Error { reason: UNEXPECTED@ }),
    }
}

/// Why a round ends on an event that it does not wait for.
pub const UNEXPECTED: &'static str = "unexpected event";

/// The first step of a round.
pub open spec fn first_step() -> Step<Seq<char>, JsonView, Seq<JsonView>> {
    Step { state: State::Opening, action: Action::OpenClient }
}

/// Starts a round.
pub fn begin() -> (r: Step<String, Json, Vec<Json>>)
    ensures
        step_view(r) == first_step(),
        wf(r.state),
{
    Step { state: State::Opening, action: Action::OpenClient }
}

fn on_failure(
    state: State<String, Json, Vec<Json>>,
    error: String,
) -> (r: Step<String, Json, Vec<Json>>)
    requires
        wf(state),
    ensures
        forall|setup: Setup<Seq<char>>| #[trigger]
            next(setup, state_view(state), Event::Failed(error@)) == step_view(r),
        wf(r.state),
{
    match state {
        State::Opening => end_with_error("API client init failed: ", error.as_str()),
        State::FetchingStatus => {
            if text::contains(error.as_str(), "AUTH_FAILED") || text::contains(
                error.as_str(),
                "expired",
            ) || text::contains(error.as_str(), "invalid token") {
                Step { state: State::Refreshing { error }, action: Action::RefreshToken }
            } else {
                end_with_error("status fetch failed: ", error.as_str())
            }
        },
        State::Refreshing { error: first } => {
            let mut reason = "auth failed and token refresh failed: ".to_owned();
            reason.append(first.as_str());
            reason.append(" / ");
            reason.append(error.as_str());
            end(IterationResult::Error { reason })
        },
        State::Reopening => end_with_error("client reinit failed: ", error.as_str()),
        State::RefetchingStatus => end_with_error(
            "status fetch failed after refresh: ",
            error.as_str(),
        ),
        State::Recommending { agent } => {
            let empty: Vec<Json> = Vec::new();
            assert(json::trees(empty@) =~= Seq::<JsonView>::empty());
            on_recommendations(agent, empty)
        },
        State::Listing { .. } => end_with_error("markets fetch failed: ", error.as_str()),
        State::Charting { round } => on_klines(round, None),
        State::Challenging { .. } => end_with_llm_failure(
            "challenge fetch failed: ",
            error.as_str(),
        ),
        State::Asking { .. } => end(IterationResult::LlmFailed { reason: error }),
        State::Normalizing { round, question, first } => on_no_normalization(
            &round,
            &question,
            first,
            error.as_str(),
        ),
        State::Submitting { .. } => on_refusal(error.as_str()),
        _ => end(IterationResult::Error { reason: UNEXPECTED.to_owned() }),
    }
}

fn on_reply(
    state: State<String, Json, Vec<Json>>,
    reply: Json,
) -> (r: Step<String, Json, Vec<Json>>)
    requires
        wf(state),
    ensures
        forall|setup: Setup<Seq<char>>| #[trigger]
            next(setup, state_view(state), Event::Reply(reply@)) == step_view(r),
        wf(r.state),
{
    match state {
        State::FetchingStatus => on_status(&reply),
        State::RefetchingStatus => on_status(&reply),
        State::Recommending { agent } => on_recommendations(agent, data_list_of(&reply)),
        State::Charting { round } => on_klines(round, klines_of(&reply)),
        State::Challenging { round, klines } => on_challenge(round, klines, data_of(&reply)),
        State::Submitting { market, direction, tickets } => {
            let receipt = submission::receipt_of(&reply);
            end(
                IterationResult::Submitted {
                    market,
                    direction,
                    tickets,
                    tickets_filled: receipt.tickets_filled,
                    order_status: receipt.order_status,
                },
            )
        },
        _ => end(IterationResult::Error { reason: UNEXPECTED.to_owned() }),
    }
}

fn on_ready(
    state: State<String, Json, Vec<Json>>,
) -> (r: Step<String, Json, Vec<Json>>)
    requires
        wf(state),
    ensures
        forall|setup: Setup<Seq<char>>| #[trigger]
            next(setup, state_view(state), Event::Ready) == step_view(r),
        wf(r.state),
{
    match state {
        State::Opening => Step {
            state: State::FetchingStatus,
            action: Action::Fetch { path: STATUS_PATH.to_owned(), signed: true },
        },
        State::Refreshing { .. } => Step { state: State::Reopening, action: Action::ReopenClient },
        State::Reopening => Step {
            state: State::RefetchingStatus,
            action: Action::Refetch { path: STATUS_PATH.to_owned() },
        },
        _ => end(IterationResult::Error { reason: UNEXPECTED.to_owned() }),
    }
}

fn on_number(
    state: State<String, Json, Vec<Json>>,
    number: Option<Double>,
) -> (r: Step<String, Json, Vec<Json>>)
    requires
        wf(state),
    ensures
        forall|setup: Setup<Seq<char>>| #[trigger]
            next(setup, state_view(state), Event::Number(number)) == step_view(r),
        wf(r.state),
{
    match state {
        State::ReadingBalance { data } => {
            let balance = match number {
                Some(d) => d,
                None => Double { bits: double::ZERO },
            };
            on_agent(agent_of(&data, balance))
        },
        _ => end(IterationResult::Error { reason: UNEXPECTED.to_owned() }),
    }
}

fn on_listed(
    state: State<String, Json, Vec<Json>>,
    reply: Json,
    now: Moment,
) -> (r: Step<String, Json, Vec<Json>>)
    requires
        wf(state),
    ensures
        forall|setup: Setup<Seq<char>>| #[trigger]
            next(setup, state_view(state), Event::Listed(reply@, now)) == step_view(r),
        wf(r.state),
{
    match state {
        State::Listing { agent, recommendations } => {
            let list = data_list_of(&reply);
            let times = market::closing_times(&list, now);
            on_active(agent, recommendations, list, &times)
        },
        _ => end(IterationResult::Error { reason: UNEXPECTED.to_owned() }),
    }
}

fn on_quoted(
    setup: &Setup<String>,
    state: State<String, Json, Vec<Json>>,
    quotes: Quotes,
) -> (r: Step<String, Json, Vec<Json>>)
    requires
        wf(state),
        can_build(state_view(state)),
    ensures
        step_view(r) == next(setup_view(*setup), state_view(state), Event::Quoted(quotes)),
        wf(r.state),
{
    match state {
        State::Quoting { round, klines, challenge, nonce } => on_quotes(
            setup,
            round,
            klines,
            challenge,
            nonce,
            quotes,
        ),
        _ => end(IterationResult::Error { reason: UNEXPECTED.to_owned() }),
    }
}

fn on_model_answer(
    setup: &Setup<String>,
    state: State<String, Json, Vec<Json>>,
    answer: String,
) -> (r: Step<String, Json, Vec<Json>>)
    requires
        wf(state),
    ensures
        step_view(r) == next(setup_view(*setup), state_view(state), Event::Answer(answer@)),
        wf(r.state),
{
    match state {
        State::Asking { round, question } => {
            let first = decision::parse_llm_response(answer.as_str());
            on_answer(setup, round, question, answer.as_str(), first)
        },
        State::Normalizing { round, question, first } => {
            let second = decision::parse_llm_response(answer.as_str());
            on_second_answer(&round, &question, first, second)
        },
        _ => end(IterationResult::Error { reason: UNEXPECTED.to_owned() }),
    }
}

/// Takes a round one step further: what the state becomes on an event, and
/// what the host is to do next. An event that the state does not wait for ends
/// the round with an error.
pub fn run_iteration(
    setup: &Setup<String>,
    state: State<String, Json, Vec<Json>>,
    event: Event<String, Json>,
) -> (r: Step<String, Json, Vec<Json>>)
    requires
        wf(state),
        can_build(state_view(state)),
    ensures
        step_view(r) == next(setup_view(*setup), state_view(state), event_view(event)),
        wf(r.state),
{
    match event {
        Event::Ready => on_ready(state),
        Event::Failed(e) => on_failure(state, e),
        Event::Reply(reply) => on_reply(state, reply),
        Event::Listed(reply, now) => on_listed(state, reply, now),
        Event::Number(number) => on_number(state, number),
        Event::Quoted(quotes) => on_quoted(setup, state, quotes),
        Event::Answer(answer) => on_model_answer(setup, state, answer),
    }
}

// ── What holds of every round ───────────────────────────────────────────

/// How many steps a state is away from the end of its round, at most.
pub open spec fn rank<S, J, L>(state: State<S, J, L>) -> nat {
    match state {
        State::Opening => 14,
        State::FetchingStatus => 13,
        State::Refreshing { .. } => 12,
        State::Reopening => 11,
        State::RefetchingStatus => 10,
        State::ReadingBalance { .. } => 9,
        State::Recommending { .. } => 8,
        State::Listing { .. } => 7,
        State::Charting { .. } => 6,
        State::Challenging { .. } => 5,
        State::Quoting { .. } => 4,
        State::Asking { .. } => 3,
        State::Normalizing { .. } => 2,
        State::Submitting { .. } => 1,
        State::Finished => 0,
    }
}

/// Every round ends: each step leaves fewer steps to go, and a round is over
/// exactly when the host is told so. A round is at most fourteen steps long.
pub proof fn rounds_end(
    setup: Setup<Seq<char>>,
    state: State<Seq<char>, JsonView, Seq<JsonView>>,
    event: Event<Seq<char>, JsonView>,
)
    ensures
        rank(first_step().state) == 14,
        rank(state) > 0 ==> rank(next(setup, state, event).state) < rank(state),
        next(setup, state, event).action is Finish <==> rank(next(setup, state, event).state)
            == 0,
{
}

/// Whether an order is one that a round may submit: it goes to the market of
/// the round's challenge, with the challenge's nonce, and commits a number of
/// tickets that the server takes and the balance covers.
pub open spec fn is_sound(
    round: Round<Seq<char>, JsonView, Seq<JsonView>>,
    question: Question<Seq<char>, JsonView>,
    order: Order<Seq<char>>,
) -> bool {
    &&& order.market_id == round.market_id
    &&& order.challenge_nonce == question.nonce
    &&& strategy::MIN_TICKETS <= order.tickets <= strategy::MAX_TICKETS
    &&& !double::exceeds(order.tickets as nat, round.agent.balance)
}

proof fn lemma_decision_is_sound(
    round: Round<Seq<char>, JsonView, Seq<JsonView>>,
    question: Question<Seq<char>, JsonView>,
    decision: LlmDecision<Seq<char>>,
)
    ensures
        with_decision(round, question, decision).action matches Action::Submit {
            path,
            canonical,
            body,
            ..
        } ==> decision is Submit && exists|order: Order<Seq<char>>| #[trigger]
            is_sound(round, question, order) && path == PREDICTIONS_PATH@ && body
                == submission::order_tree(order) && canonical == submission::canonical(
                order,
                submission::sha256(order.reasoning),
            ),
{
    verdict::orders_are_sound(
        round.agent,
        round.market_id,
        question.challenge,
        question.nonce,
        decision,
    );
    if let Verdict::Place(order) = verdict::verdict(
        round.agent,
        round.market_id,
        question.challenge,
        question.nonce,
        decision,
    ) {
        assert(is_sound(round, question, order));
    }
}

/// Nothing is submitted but a sound order, signed over its own content, and
/// only on an answer of the model or, where the model decided before, on its
/// failure to decide again.
pub proof fn submissions_are_sound(
    setup: Setup<Seq<char>>,
    state: State<Seq<char>, JsonView, Seq<JsonView>>,
    event: Event<Seq<char>, JsonView>,
)
    ensures
        next(setup, state, event).action matches Action::Submit { path, canonical, body, .. }
            ==> match state {
            State::Asking { round, question } => event is Answer && exists|
                order: Order<Seq<char>>,
            | #[trigger]
                is_sound(round, question, order) && path == PREDICTIONS_PATH@ && body
                    == submission::order_tree(order) && canonical == submission::canonical(
                    order,
                    submission::sha256(order.reasoning),
                ),
            State::Normalizing { round, question, .. } => exists|order: Order<Seq<char>>|
             #[trigger]
                is_sound(round, question, order) && path == PREDICTIONS_PATH@ && body
                    == submission::order_tree(order) && canonical == submission::canonical(
                    order,
                    submission::sha256(order.reasoning),
                ),
            _ => false,
        },
{
    match (state, event) {
        (State::Asking { round, question }, Event::Answer(answer)) => {
            if let Ok(d) = decision::response(answer) {
                lemma_decision_is_sound(round, question, d);
            }
        },
        (State::Normalizing { round, question, first }, Event::Answer(answer)) => {
            if let Ok(d) = settled(first, decision::response(answer)) {
                lemma_decision_is_sound(round, question, d);
            }
        },
        (State::Normalizing { round, question, first }, Event::Failed(_)) => {
            if let Ok(d) = first {
                lemma_decision_is_sound(round, question, d);
            }
        },
        _ => {},
    }
}

/// A first answer in which no JSON object is found is never submitted.
pub proof fn plain_answers_are_not_submitted(
    setup: Setup<Seq<char>>,
    round: Round<Seq<char>, JsonView, Seq<JsonView>>,
    question: Question<Seq<char>, JsonView>,
    answer: Seq<char>,
)
    requires
        decision::first_json(decision::candidates(answer)) is None,
    ensures
        !(next(setup, State::Asking { round, question }, Event::Answer(answer)).action is Submit),
{
    decision::plain_language_never_submits(answer);
    if let Ok(d) = decision::response(answer) {
        lemma_decision_is_sound(round, question, d);
    }
}

/// The model is not called in a timeslot without submissions: the round ends
/// at once, and its wait is at least ten seconds.
pub proof fn used_up_timeslots_end_the_round(agent: Agent<Seq<char>, Seq<JsonView>>)
    requires
        agent.submissions_remaining <= 0,
    ensures
        with_agent(agent).action matches Action::Finish(
            IterationResult::RateLimited { wait_seconds },
        ) && wait_seconds >= 10 && wait_seconds >= agent.slot_resets_in,
{
}

// ── What a round does ───────────────────────────────────────────────────

/// A round opens a client and asks for the status of the agent. A status that
/// is refused for an old token (the error speaks of a failed authentication,
/// of something expired or of an invalid token) has the token refreshed and
/// the status asked for again, once; any other refusal ends the round.
pub proof fn old_tokens_are_refreshed_once(
    setup: Setup<Seq<char>>,
    error: Seq<char>,
    other: Seq<char>,
    status: JsonView,
)
    ensures
        ({
            let old = text::has(error, "AUTH_FAILED"@) || text::has(error, "expired"@) || text::has(
                error,
                "invalid token"@,
            );
            let refused = next(setup, State::FetchingStatus, Event::Failed(error));
            &&& first_step().action is OpenClient
            &&& next(setup, first_step().state, Event::Ready).action == Action::<
                Seq<char>,
                JsonView,
            >::Fetch { path: "/api/v1/agents/me/status"@, signed: true }
            &&& next(setup, first_step().state, Event::Ready).state is FetchingStatus
            &&& refused.action is RefreshToken <==> old
            &&& !old ==> refused.action == Action::<Seq<char>, JsonView>::Finish(
                IterationResult::Error { reason: "status fetch failed: "@ + error },
            )
            &&& old ==> {
                let renewed = next(setup, refused.state, Event::Ready);
                let asked = next(setup, renewed.state, Event::Ready);
                &&& renewed.action is ReopenClient
                &&& asked.action == Action::<Seq<char>, JsonView>::Refetch {
                    path: "/api/v1/agents/me/status"@,
                }
                &&& next(setup, asked.state, Event::Reply(status)) == next(
                    setup,
                    State::FetchingStatus,
                    Event::Reply(status),
                )
                &&& next(setup, asked.state, Event::Failed(other)).action == Action::<
                    Seq<char>,
                    JsonView,
                >::Finish(
                    IterationResult::Error {
                        reason: "status fetch failed after refresh: "@ + other,
                    },
                )
                &&& next(setup, refused.state, Event::Failed(other)).action == Action::<
                    Seq<char>,
                    JsonView,
                >::Finish(
                    IterationResult::Error {
                        reason: "auth failed and token refresh failed: "@ + error + " / "@ + other,
                    },
                )
                &&& next(setup, renewed.state, Event::Failed(other)).action == Action::<
                    Seq<char>,
                    JsonView,
                >::Finish(IterationResult::Error { reason: "client reinit failed: "@ + other })
            }
        }),
{
}

/// What fails ends the round with an error that says what it was, except for
/// the recommendations and the candles: a round goes on without them as it
/// does with a reply that holds none.
pub proof fn failures_are_told(
    setup: Setup<Seq<char>>,
    state: State<Seq<char>, JsonView, Seq<JsonView>>,
    error: Seq<char>,
)
    ensures
        ({
            let step = next(setup, state, Event::Failed(error));
            &&& state is Opening ==> step.action == Action::<Seq<char>, JsonView>::Finish(
                IterationResult::Error { reason: "API client init failed: "@ + error },
            )
            &&& state is Listing ==> step.action == Action::<Seq<char>, JsonView>::Finish(
                IterationResult::Error { reason: "markets fetch failed: "@ + error },
            )
            &&& state is Challenging ==> step.action == Action::<Seq<char>, JsonView>::Finish(
                IterationResult::LlmFailed { reason: "challenge fetch failed: "@ + error },
            )
            &&& state is Asking ==> step.action == Action::<Seq<char>, JsonView>::Finish(
                IterationResult::LlmFailed { reason: error },
            )
            &&& state is Recommending || state is Charting ==> step == next(
                setup,
                state,
                Event::Reply(JsonView::Null),
            )
        }),
{
}

/// The agent is what its status says. Where the status does not tell, the
/// persona is none, three submissions remain, and the timeslot ends in 300
/// seconds. A balance that is a text is read as a number first; one that is
/// no number is zero.
pub proof fn status_describes_the_agent(
    setup: Setup<Seq<char>>,
    status: JsonView,
    number: Option<Double>,
)
    ensures
        ({
            let data = status.object_at("data"@);
            let step = next(setup, State::FetchingStatus, Event::Reply(status));
            let read = if data.text_at("balance"@) is Some {
                next(setup, step.state, Event::Number(number))
            } else {
                step
            };
            let balance = if data.text_at("balance"@) is Some {
                number
            } else {
                data.double_at("balance"@)
            };
            let slot = data.object_at("timeslot"@);
            let remaining = match slot.signed_at("submissions_remaining"@) {
                Some(n) => n,
                None => 3,
            };
            let resets = match slot.unsigned_at("slot_resets_in_seconds"@) {
                Some(n) => n,
                None => 300,
            };
            &&& data.text_at("balance"@) matches Some(s) ==> step.action == Action::<
                Seq<char>,
                JsonView,
            >::ReadNumber(s)
            &&& remaining <= 0 ==> read.action == Action::<Seq<char>, JsonView>::Finish(
                IterationResult::RateLimited {
                    wait_seconds: if resets > 10 {
                        resets
                    } else {
                        10
                    },
                },
            )
            &&& remaining >= 1 ==> {
                &&& read.action == Action::<Seq<char>, JsonView>::Fetch {
                    path: "/api/v1/markets/recommend"@,
                    signed: true,
                }
                &&& read.state matches State::Recommending { agent } && {
                    &&& agent.balance == (match balance {
                        Some(d) => d,
                        None => Double { bits: 0 },
                    })
                    &&& agent.persona == (match data.text_at("persona"@) {
                        Some(s) => s,
                        None => "none"@,
                    })
                    &&& agent.submissions_remaining == remaining
                    &&& agent.slot_resets_in == resets
                    &&& agent.open_orders == data.items_at("open_orders"@)
                    &&& agent.recent_results == data.items_at("recent_results"@)
                }
            }
        }),
{
    let data = status.object_at("data"@);
    if data.get("timeslot"@) is None {
        assert(json::lookup(Seq::empty(), "submissions_remaining"@) is None);
        assert(json::lookup(Seq::empty(), "slot_resets_in_seconds"@) is None);
    }
}

/// The market of a round is the first recommendation that can be followed, by
/// its `market_id`. Where there is none, the active markets are asked for, and
/// the market is the first of them that is open long enough, by its `id`.
/// Where there is none either, or the market has no name, the round ends and
/// waits 300 seconds. The candles of the market are asked for next.
pub proof fn market_is_chosen(
    setup: Setup<Seq<char>>,
    agent: Agent<Seq<char>, Seq<JsonView>>,
    reply: JsonView,
    recommendations: Seq<JsonView>,
    now: Moment,
)
    ensures
        ({
            let list = match reply.items_at("data"@) {
                Some(items) => items,
                None => Seq::empty(),
            };
            let first = next(setup, State::Recommending { agent }, Event::Reply(reply));
            let second = next(
                setup,
                State::Listing { agent, recommendations },
                Event::Listed(reply, now),
            );
            let followed = market::first_actionable(list, 0);
            let open = market::first_open(market::times_to_close(list, now), 0);
            let waits = Action::<Seq<char>, JsonView>::Finish(
                IterationResult::NoMarkets { wait_seconds: 300 },
            );
            &&& followed is None ==> first.action == Action::<Seq<char>, JsonView>::Fetch {
                path: "/api/v1/markets/active"@,
                signed: false,
            } && (first.state matches State::Listing { agent: same, recommendations: kept } && same
                == agent && kept == list)
            &&& followed matches Some(i) ==> match list[i].text_at("market_id"@) {
                Some(id) if id.len() > 0 => first.action == Action::<Seq<char>, JsonView>::Fetch {
                    path: "/api/v1/markets/"@ + id + "/klines"@,
                    signed: false,
                } && (first.state matches State::Charting { round } && round.agent == agent
                    && round.recommendations == list && round.market_id == id && round.market
                    == list[i]),
                _ => first.action == waits,
            }
            &&& open is None ==> second.action == waits
            &&& open matches Some(i) ==> match list[i].text_at("id"@) {
                Some(id) if id.len() > 0 => second.action == Action::<Seq<char>, JsonView>::Fetch {
                    path: "/api/v1/markets/"@ + id + "/klines"@,
                    signed: false,
                } && (second.state matches State::Charting { round } && round.agent == agent
                    && round.recommendations == recommendations && round.market_id == id
                    && round.market == list[i]),
                _ => second.action == waits,
            }
        }),
{
    reveal_strlit("");
    let list = data_list(reply);
    if let Some(i) = market::first_actionable(list, 0) {
        assert(list[i].text_or("market_id"@, ""@).len() == 0 <==> !(list[i].text_at(
            "market_id"@,
        ) matches Some(id) && id.len() > 0));
    }
    if let Some(i) = market::first_open(market::times_to_close(list, now), 0) {
        assert(list[i].text_or("id"@, ""@).len() == 0 <==> !(list[i].text_at("id"@) matches Some(id)
            && id.len() > 0));
    }
}

/// With or without candles, the challenge of the market is asked for, with a
/// signature. A challenge with a nonce leads to the quotes, for the best
/// prices and the implied probability of the market; one without ends the
/// round.
pub proof fn challenge_belongs_to_the_market(
    setup: Setup<Seq<char>>,
    round: Round<Seq<char>, JsonView, Seq<JsonView>>,
    klines: Option<Seq<JsonView>>,
    reply: JsonView,
)
    ensures
        ({
            let charted = next(setup, State::Charting { round }, Event::Reply(reply));
            let asked = next(setup, State::Challenging { round, klines }, Event::Reply(reply));
            let challenge = reply.object_at("data"@);
            let book = round.market.object_at("orderbook"@);
            &&& charted.action == Action::<Seq<char>, JsonView>::Fetch {
                path: "/api/v1/challenge?market_id="@ + round.market_id,
                signed: true,
            }
            &&& charted.state matches State::Challenging { round: same, klines: found } && same
                == round && found == reply.object_at("data"@).items_at("klines"@)
            &&& match challenge.text_at("nonce"@) {
                Some(nonce) if nonce.len() > 0 => {
                    &&& asked.action == Action::<Seq<char>, JsonView>::Quote {
                        best_up: book.text_at("best_up_price"@),
                        best_down: book.text_at("best_down_price"@),
                        implied_up: prompt::implied_up(round.market),
                    }
                    &&& asked.state matches State::Quoting {
                        round: same,
                        klines: kept,
                        challenge: given,
                        nonce: number,
                    } && same == round && kept == klines && given == challenge && number == nonce
                },
                _ => asked.action == Action::<Seq<char>, JsonView>::Finish(
                    IterationResult::LlmFailed { reason: "challenge missing nonce"@ },
                ),
            }
        }),
{
    reveal_strlit("");
    assert(json::lookup(Seq::empty(), "klines"@) is None);
    assert(json::lookup(Seq::empty(), "best_up_price"@) is None);
    assert(json::lookup(Seq::empty(), "best_down_price"@) is None);
    assert("challenge missing nonce"@ + Seq::<char>::empty() =~= "challenge missing nonce"@);
    let challenge = reply.object_at("data"@);
    assert(challenge.text_or("nonce"@, ""@).len() == 0 <==> !(challenge.text_at(
        "nonce"@,
    ) matches Some(nonce) && nonce.len() > 0));
}

/// The model is asked with the prompt of the round, over the endpoint where
/// there is one, else through openclaw. Where there is neither, the round
/// ends.
pub proof fn model_is_asked_about_the_round(
    setup: Setup<Seq<char>>,
    round: Round<Seq<char>, JsonView, Seq<JsonView>>,
    klines: Option<Seq<JsonView>>,
    challenge: JsonView,
    nonce: Seq<char>,
    quotes: Quotes,
)
    ensures
        ({
            let step = next(
                setup,
                State::Quoting { round, klines, challenge, nonce },
                Event::Quoted(quotes),
            );
            let words = prompt::prompt(
                round.market_id,
                round.market,
                klines,
                round.recommendations,
                round.agent.balance,
                round.agent.persona,
                round.agent.submissions_remaining,
                round.agent.slot_resets_in,
                round.agent.open_orders,
                round.agent.recent_results,
                challenge,
                strategy::accuracy(round.agent.recent_results),
                quotes,
            );
            &&& setup.direct matches Some(config) ==> (step.action matches Action::Ask(
                ModelCall::Direct(request),
            ) && request.url == config.base_url && request.api_key == config.api_key && request.body
                == llm::body_tree(config.model, words, 600))
            &&& setup.direct is None ==> (setup.openclaw_bin matches Some(bin) ==> step.action
                == Action::<Seq<char>, JsonView>::Ask(
                ModelCall::Agent { openclaw_bin: bin, agent_id: setup.agent_id, prompt: words },
            ))
            &&& setup.direct is None && setup.openclaw_bin is None ==> (
            step.action matches Action::Finish(result) && result is LlmFailed)
            &&& setup.direct is Some || setup.openclaw_bin is Some ==> (
            step.state matches State::Asking { round: same, question } && same == round
                && question.challenge == challenge && question.nonce == nonce
                && question.complements == quotes.complements && question.prompt == words)
        }),
{
}

/// What is done on a decision: a skip ends the round with its reason, and an
/// order is posted to the predictions, signed over its own text with the
/// digest of its reasoning, and then waited for.
pub open spec fn done_on(
    step: Step<Seq<char>, JsonView, Seq<JsonView>>,
    round: Round<Seq<char>, JsonView, Seq<JsonView>>,
    question: Question<Seq<char>, JsonView>,
    decision: LlmDecision<Seq<char>>,
) -> bool {
    match verdict::verdict(
        round.agent,
        round.market_id,
        question.challenge,
        question.nonce,
        decision,
    ) {
        Verdict::Skip(reason) => step.action == Action::<Seq<char>, JsonView>::Finish(
            IterationResult::Skipped { reason },
        ),
        Verdict::Place(order) => {
            &&& step.action matches Action::Submit { path, canonical, body, .. } && path
                == "/api/v1/predictions"@ && canonical == submission::canonical(
                order,
                submission::sha256(order.reasoning),
            ) && body == submission::order_tree(order)
            &&& step.state matches State::Submitting { market, direction, tickets } && market
                == order.market_id && direction == order.direction && tickets == order.tickets
        },
    }
}

/// A first answer that is a skip, or a submission whose reasoning shows an
/// answer to the challenge, is what is done. Otherwise the model is asked once
/// more, with its task and what it answered.
pub proof fn first_answers_are_followed_or_asked_again(
    setup: Setup<Seq<char>>,
    round: Round<Seq<char>, JsonView, Seq<JsonView>>,
    question: Question<Seq<char>, JsonView>,
    answer: Seq<char>,
)
    ensures
        ({
            let step = next(setup, State::Asking { round, question }, Event::Answer(answer));
            let first = decision::response(answer);
            let good = first matches Ok(d) && (d is Skip || challenge::shown_answer(d->reasoning)
                is Some);
            let again = llm::normalization_prompt(question.prompt, answer);
            &&& good ==> done_on(step, round, question, first->Ok_0)
            &&& !good ==> {
                &&& setup.direct matches Some(config) ==> (step.action matches Action::Ask(
                    ModelCall::Direct(request),
                ) && request.url == config.base_url && request.body == llm::body_tree(
                    config.model,
                    again,
                    600,
                ))
                &&& setup.direct is None ==> (setup.openclaw_bin matches Some(bin) ==> step.action
                    == Action::<Seq<char>, JsonView>::Ask(
                    ModelCall::Agent { openclaw_bin: bin, agent_id: setup.agent_id, prompt: again },
                ))
                &&& setup.direct is Some || setup.openclaw_bin is Some ==> (
                step.state matches State::Normalizing { round: same, question: kept, first: old }
                    && same == round && kept == question && old == first)
            }
        }),
{
}

/// After a second answer, the second decision is followed where it is a skip
/// or shows an answer to the challenge, or where the first answer was no
/// decision; otherwise the first one is. Where neither answer is a decision,
/// or the second question fails after a first answer that was none, the round
/// ends.
pub proof fn second_answers_are_followed_if_better(
    setup: Setup<Seq<char>>,
    round: Round<Seq<char>, JsonView, Seq<JsonView>>,
    question: Question<Seq<char>, JsonView>,
    first: Result<LlmDecision<Seq<char>>, ParseError>,
    answer: Seq<char>,
    error: Seq<char>,
)
    ensures
        ({
            let state = State::Normalizing { round, question, first };
            let step = next(setup, state, Event::Answer(answer));
            let failed = next(setup, state, Event::Failed(error));
            let second = decision::response(answer);
            let good = second matches Ok(d) && (d is Skip || challenge::shown_answer(d->reasoning)
                is Some);
            &&& good ==> done_on(step, round, question, second->Ok_0)
            &&& !good && first is Ok ==> done_on(step, round, question, first->Ok_0)
            &&& !good && first is Err && second is Ok ==> done_on(
                step,
                round,
                question,
                second->Ok_0,
            )
            &&& first is Err && second is Err ==> step.action == Action::<
                Seq<char>,
                JsonView,
            >::Finish(
                IterationResult::LlmFailed {
                    reason: "parse failed after normalization: "@ + second->Err_0.words(),
                },
            )
            &&& first matches Ok(d) ==> done_on(failed, round, question, d)
            &&& first matches Err(e) ==> failed.action == Action::<Seq<char>, JsonView>::Finish(
                IterationResult::LlmFailed {
                    reason: "parse failed: "@ + e.words() + "; normalization failed: "@ + error,
                },
            )
        }),
{
}

/// A submission that is taken ends the round with what the server says of it;
/// one that meets the rate limit has the round wait 300 seconds, one for which
/// the balance is too small 600 seconds, and any other refusal is an error.
pub proof fn submissions_end_the_round(
    setup: Setup<Seq<char>>,
    market: Seq<char>,
    direction: Seq<char>,
    tickets: u32,
    reply: JsonView,
    error: Seq<char>,
)
    ensures
        ({
            let state = State::Submitting { market, direction, tickets };
            let refusal = next(setup, state, Event::Failed(error)).action;
            let limited = text::has(error, "RATE_LIMIT"@) || text::has(error, "429"@);
            let poor = text::has(error, "INSUFFICIENT_BALANCE"@);
            &&& next(setup, state, Event::Reply(reply)).action == Action::<
                Seq<char>,
                JsonView,
            >::Finish(
                IterationResult::Submitted {
                    market,
                    direction,
                    tickets,
                    tickets_filled: submission::receipt(reply).tickets_filled,
                    order_status: submission::receipt(reply).order_status,
                },
            )
            &&& limited ==> refusal == Action::<Seq<char>, JsonView>::Finish(
                IterationResult::RateLimited { wait_seconds: 300 },
            )
            &&& !limited && poor ==> refusal == Action::<Seq<char>, JsonView>::Finish(
                IterationResult::NoMarkets { wait_seconds: 600 },
            )
            &&& !limited && !poor ==> refusal == Action::<Seq<char>, JsonView>::Finish(
                IterationResult::Error { reason: "submit failed: "@ + short_error(error) },
            )
        }),
{
}

/// An error in short is the message in the JSON that stands from its first
/// brace on, and otherwise the error itself, cut to 200 characters.
pub proof fn short_errors_are_messages(front: Seq<char>, source: Seq<char>, error: Seq<char>)
    ensures
        !front.contains('{') && source.len() > 0 && source[0] == '{' ==> (json::json_tree(
            source,
        ) matches Some(value) ==> (value.get("error"@) matches Some(e) ==> (e.text_at(
            "message"@,
        ) matches Some(message) ==> short_error(front + source) == message))),
        !error.contains('{') && error.len() <= 200 ==> short_error(error) == error,
        !error.contains('{') && error.len() > 200 ==> short_error(error).len() == 200 && text::begins(
            error,
            short_error(error),
        ),
{
    text::find_char_is_first(error, '{');
    if !error.contains('{') && error.len() > 200 {
        assert(error.subrange(0, 200) =~= error.take(200));
    }
    if !front.contains('{') && source.len() > 0 && source[0] == '{' {
        let whole = front + source;
        let at = front.len() as int;
        text::find_char_is_first(whole, '{');
        assert(whole[at] == '{');
        assert forall|j: int| 0 <= j < at implies whole[j] != '{' by {
            assert(whole[j] == front[j]);
        }
        assert(text::find_char(whole, '{') == Some(at));
        assert(whole.skip(at) =~= source);
    }
}

/// Advice on an order is the advice on the price and the intent of the
/// decision that it comes from, where it names both.
pub proof fn advice_goes_with_the_order(
    round: Round<Seq<char>, JsonView, Seq<JsonView>>,
    question: Question<Seq<char>, JsonView>,
    decision: LlmDecision<Seq<char>>,
)
    ensures
        with_decision(round, question, decision).action matches Action::Submit { advice, .. } ==> {
            &&& decision->limit_price is Some && decision->fill_intent is Some ==> advice
                == strategy::advisory(
                decision->fill_intent->0,
                decision->direction,
                decision->limit_price->0,
                round.market,
                question.complements,
            )
            &&& decision->limit_price is None || decision->fill_intent is None ==> advice is None
        },
{
}

} // verus!
