use predict_agent::double::Double;
use predict_agent::iteration::{
    begin, extract_short_error, run_iteration, short_error_from, Action, Event, IterationResult,
    Setup, State, Step,
};
use predict_agent::json::Json;
use predict_agent::llm::{DirectLlmConfig, ModelCall};
use predict_agent::market::Moment;
use predict_agent::prompt::{tickets_fit, Quotes};
use predict_agent::strategy::Complements;

type Now = Step<String, Json, Vec<Json>>;

fn d(x: f64) -> Double {
    Double::from_bits(x.to_bits())
}

fn json(source: &str) -> Json {
    Json::parse(source).unwrap()
}

fn setup() -> Setup<String> {
    Setup { direct: None, openclaw_bin: Some("openclaw".to_string()), agent_id: "worker".to_string() }
}

fn direct() -> Setup<String> {
    Setup {
        direct: Some(DirectLlmConfig {
            base_url: "http://llm".to_string(),
            api_key: "key".to_string(),
            model: "m1".to_string(),
        }),
        openclaw_bin: Some("openclaw".to_string()),
        agent_id: "worker".to_string(),
    }
}

fn quotes() -> Event<String, Json> {
    Event::Quoted(Quotes {
        complements: Complements { up: Some(d(0.45)), down: None },
        implied: d(0.4),
        now: Moment { secs: 1_700_000_000, nanos: 0 },
    })
}

fn go(setup: &Setup<String>, step: Now, event: Event<String, Json>) -> Now {
    run_iteration(setup, step.state, event)
}

fn fetch(step: &Now) -> (String, bool) {
    match &step.action {
        Action::Fetch { path, signed } => (path.clone(), *signed),
        _ => panic!("expected a fetch"),
    }
}

fn result(step: Now) -> IterationResult<String> {
    assert!(matches!(step.state, State::Finished));
    match step.action {
        Action::Finish(result) => result,
        _ => panic!("expected the end"),
    }
}

fn error(step: Now) -> String {
    match result(step) {
        IterationResult::Error { reason } => reason,
        other => panic!("expected an error, got {other:?}"),
    }
}

fn llm_error(step: Now) -> String {
    match result(step) {
        IterationResult::LlmFailed { reason } => reason,
        other => panic!("expected a failure of the model, got {other:?}"),
    }
}

fn skipped(step: Now) -> String {
    match result(step) {
        IterationResult::Skipped { reason } => reason,
        other => panic!("expected a skip, got {other:?}"),
    }
}

fn reply(source: &str) -> Event<String, Json> {
    Event::Reply(json(source))
}

fn failed(e: &str) -> Event<String, Json> {
    Event::Failed(e.to_string())
}

const STATUS: &str = r#"{"data": {"balance": 5000, "persona": "degen", "timeslot": {"submissions_remaining": 2, "slot_resets_in_seconds": 700}}}"#;
const RECOMMENDED: &str = r#"{"data": [
    {"market_id": "skip-me", "action": "skip", "seconds_to_close": 900},
    {"market_id": "late", "action": "submit", "seconds_to_close": 120},
    {"market_id": "m-1", "action": "submit", "seconds_to_close": 600, "asset": "BTC/USDT",
     "orderbook": {"best_up_price": "0.55", "implied_up_prob": 0.6}}]}"#;
const CHALLENGE: &str = r#"{"data": {"nonce": "n-1", "prompt": "Inventory began at 9 units; 4 sold; 1 received"}}"#;
const REASON: &str = "BTC 15m closes above 74500 twice with rising volume, so another push up is likely soon.";

fn to_quotes(setup: &Setup<String>, status: &str, challenge: &str) -> Now {
    let step = begin();
    assert!(matches!(step.action, Action::OpenClient));
    let step = go(setup, step, Event::Ready);
    assert_eq!(fetch(&step), ("/api/v1/agents/me/status".to_string(), true));
    let step = go(setup, step, reply(status));
    assert_eq!(fetch(&step), ("/api/v1/markets/recommend".to_string(), true));
    let step = go(setup, step, reply(RECOMMENDED));
    assert_eq!(fetch(&step), ("/api/v1/markets/m-1/klines".to_string(), false));
    let step = go(setup, step, reply(r#"{"data": {"klines": [{"open_time": 1, "open": 2.0}]}}"#));
    assert_eq!(fetch(&step), ("/api/v1/challenge?market_id=m-1".to_string(), true));
    let step = go(setup, step, reply(challenge));
    match &step.action {
        Action::Quote { best_up, best_down, implied_up } => {
            assert_eq!(best_up.as_deref(), Some("0.55"));
            assert_eq!(*best_down, None);
            assert_eq!(*implied_up, d(0.6));
        }
        _ => panic!("expected to quote"),
    }
    step
}

fn to_model(setup: &Setup<String>, status: &str, challenge: &str) -> Now {
    let step = to_quotes(setup, status, challenge);
    let step = go(setup, step, quotes());
    assert!(matches!(step.action, Action::Ask(_)));
    step
}

fn decision(fields: &str) -> Event<String, Json> {
    Event::Answer(format!("{{\"direction\":\"up\",\"reasoning\":\"{REASON}\"{fields}}}"))
}

const ANSWERED: &str = r#"{"direction":"up","reasoning":"BTC 15m closes above 74500 twice with rising volume, so another push up is likely soon. Challenge answer: 5.","tickets":400,"limit_price":0.55,"edge_quality":"strong","confidence":0.7,"fill_intent":"taker","market_id":"other"}"#;

#[test]
fn a_round_submits_to_the_market_of_its_challenge() {
    let setup = setup();
    let step = to_model(&setup, STATUS, CHALLENGE);
    match &step.action {
        Action::Ask(ModelCall::Agent { openclaw_bin, agent_id, prompt }) => {
            assert_eq!(openclaw_bin, "openclaw");
            assert_eq!(agent_id, "worker");
            assert!(prompt.contains("Inventory began at 9 units; 4 sold; 1 received"));
            assert!(prompt.contains("- ID: m-1\n"));
        }
        _ => panic!("expected an agent"),
    }
    let step = go(&setup, step, Event::Answer(ANSWERED.to_string()));
    match &step.action {
        Action::Submit { path, canonical, body, advice } => {
            assert_eq!(path, "/api/v1/predictions");
            assert_eq!(
                canonical,
                "m-1|up|0.55|400|fd7acfa4b6eaf94163d86fd34d4af66a6423b8358d5533f6a6853a67d567f14d|n-1"
            );
            assert_eq!(body.str_at("market_id").unwrap(), "m-1");
            assert_eq!(body.str_at("prediction").unwrap(), "up");
            assert_eq!(body.u64_at("tickets"), Some(400));
            assert_eq!(body.str_at("challenge_nonce").unwrap(), "n-1");
            assert_eq!(body.double_at("limit_price"), Some(d(0.55)));
            assert!(body.str_at("reasoning").unwrap().ends_with("\nChallenge answer: 6.\nChallenge: 6"));
            assert_eq!(
                advice.as_deref(),
                Some("fill_intent=taker up but no DOWN counterparty in book — taker fill unlikely")
            );
        }
        _ => panic!("expected a submission"),
    }
    let step = go(&setup, step, reply(r#"{"data": {"order_status": "partial", "tickets_filled": 150}}"#));
    match result(step) {
        IterationResult::Submitted { market, direction, tickets, tickets_filled, order_status } => {
            assert_eq!((market.as_str(), direction.as_str()), ("m-1", "up"));
            assert_eq!((tickets, tickets_filled), (400, 150));
            assert_eq!(order_status, "partial");
        }
        other => panic!("expected a submission, got {other:?}"),
    }
}

#[test]
fn refused_submissions_end_the_round() {
    let end = |e: &str| {
        let setup = setup();
        let step = to_model(&setup, STATUS, CHALLENGE);
        let step = go(&setup, step, Event::Answer(ANSWERED.to_string()));
        result(go(&setup, step, failed(e)))
    };
    assert!(matches!(end("HTTP 429"), IterationResult::RateLimited { wait_seconds: 300 }));
    assert!(matches!(end("RATE_LIMIT_EXCEEDED"), IterationResult::RateLimited { wait_seconds: 300 }));
    assert!(matches!(end("INSUFFICIENT_BALANCE"), IterationResult::NoMarkets { wait_seconds: 600 }));
    match end("HTTP 400: {\"error\": {\"message\": \"market closed\"}}") {
        IterationResult::Error { reason } => assert_eq!(reason, "submit failed: market closed"),
        other => panic!("{other:?}"),
    }
}

#[test]
fn old_tokens_are_refreshed_once() {
    let setup = setup();
    let start = || go(&setup, go(&setup, begin(), Event::Ready), failed("token expired"));
    let step = start();
    assert!(matches!(step.action, Action::RefreshToken));
    let step = go(&setup, step, Event::Ready);
    assert!(matches!(step.action, Action::ReopenClient));
    let step = go(&setup, step, Event::Ready);
    match &step.action {
        Action::Refetch { path } => assert_eq!(path, "/api/v1/agents/me/status"),
        _ => panic!("expected another fetch"),
    }
    let step = go(&setup, step, failed("AUTH_FAILED"));
    assert_eq!(error(step), "status fetch failed after refresh: AUTH_FAILED");
    assert_eq!(
        error(go(&setup, start(), failed("no wallet"))),
        "auth failed and token refresh failed: token expired / no wallet"
    );
    let reopened = go(&setup, start(), Event::Ready);
    assert_eq!(error(go(&setup, reopened, failed("down"))), "client reinit failed: down");
}

#[test]
fn failed_fetches_end_the_round_or_are_passed_over() {
    let setup = setup();
    assert_eq!(error(go(&setup, begin(), failed("x"))), "API client init failed: x");
    let opened = go(&setup, begin(), Event::Ready);
    assert_eq!(error(go(&setup, opened, failed("HTTP 500"))), "status fetch failed: HTTP 500");
    let status = || go(&setup, go(&setup, begin(), Event::Ready), reply(STATUS));
    let listing = go(&setup, status(), failed("no recommendations"));
    assert_eq!(fetch(&listing), ("/api/v1/markets/active".to_string(), false));
    assert_eq!(error(go(&setup, listing, failed("y"))), "markets fetch failed: y");
    let charting = go(&setup, status(), reply(RECOMMENDED));
    let challenging = go(&setup, charting, failed("no klines"));
    assert_eq!(fetch(&challenging).0, "/api/v1/challenge?market_id=m-1");
    assert_eq!(llm_error(go(&setup, challenging, failed("z"))), "challenge fetch failed: z");
    let charting = go(&setup, status(), reply(RECOMMENDED));
    let challenging = go(&setup, charting, failed("no klines"));
    assert_eq!(llm_error(go(&setup, challenging, reply("{}"))), "challenge missing nonce");
    assert_eq!(error(go(&setup, begin(), reply("{}"))), "unexpected event");
}

#[test]
fn active_markets_are_chosen_by_their_close() {
    let setup = setup();
    let listing = || {
        let status = go(&setup, go(&setup, begin(), Event::Ready), reply(STATUS));
        go(&setup, status, reply(r#"{"data": []}"#))
    };
    let now = Moment { secs: 1_700_000_000, nanos: 500_000_000 };
    // 1_700_000_000 is 2023-11-14T22:13:20Z
    let markets = r#"{"data": [{"id": "a", "close_at": "2023-11-14T22:15:21Z"}, {"id": "b", "close_at": "never"}, {"id": "c"}, {"id": "e", "close_at": "2023-11-14T22:15:22Z"}, {"id": "f", "close_at": "2023-11-14T23:00:00Z"}]}"#;
    let step = go(&setup, listing(), Event::Listed(json(markets), now));
    assert_eq!(fetch(&step).0, "/api/v1/markets/e/klines");
    for none in [r#"{"data": []}"#, "{}", r#"{"data": [{"id": "b", "close_at": "never"}]}"#, r#"{"data": [{"close_at": "2033-11-14T22:15:21Z"}]}"#] {
        let step = go(&setup, listing(), Event::Listed(json(none), now));
        assert!(matches!(result(step), IterationResult::NoMarkets { wait_seconds: 300 }));
    }
}

#[test]
fn used_up_timeslots_wait_for_the_next() {
    let setup = setup();
    let wait = |slot: &str| {
        let status = format!("{{\"data\": {{\"timeslot\": {slot}}}}}");
        match result(go(&setup, go(&setup, begin(), Event::Ready), reply(&status))) {
            IterationResult::RateLimited { wait_seconds } => wait_seconds,
            other => panic!("{other:?}"),
        }
    };
    assert_eq!(wait(r#"{"submissions_remaining": 0, "slot_resets_in_seconds": 77}"#), 77);
    assert_eq!(wait(r#"{"submissions_remaining": -1, "slot_resets_in_seconds": 3}"#), 10);
    assert_eq!(wait(r#"{"submissions_remaining": 0}"#), 300);
}

#[test]
fn balances_that_are_texts_are_read_first() {
    let setup = setup();
    let status = r#"{"data": {"balance": "250.5"}}"#;
    let step = go(&setup, go(&setup, begin(), Event::Ready), reply(status));
    match &step.action {
        Action::ReadNumber(s) => assert_eq!(s, "250.5"),
        _ => panic!("expected to read a number"),
    }
    let step = go(&setup, step, Event::Number(Some(d(250.5))));
    match &step.state {
        State::Recommending { agent } => {
            assert_eq!(agent.balance, d(250.5));
            assert_eq!(agent.persona, "none");
            assert_eq!(agent.submissions_remaining, 3);
        }
        _ => panic!("expected to go on"),
    }
    let step = go(&setup, go(&setup, begin(), Event::Ready), reply(status));
    let step = go(&setup, step, Event::Number(None));
    match &step.state {
        State::Recommending { agent } => assert_eq!(agent.balance, d(0.0)),
        _ => panic!("expected to go on"),
    }
}

#[test]
fn direct_endpoints_go_first() {
    let setup = direct();
    let step = to_model(&setup, STATUS, CHALLENGE);
    match &step.action {
        Action::Ask(ModelCall::Direct(request)) => {
            assert_eq!(request.url, "http://llm");
            assert_eq!(request.api_key, "key");
            assert_eq!(request.body.str_at("model").unwrap(), "m1");
            assert_eq!(request.body.u64_at("max_tokens"), Some(600));
        }
        _ => panic!("expected a request"),
    }
    let nobody = Setup { direct: None, openclaw_bin: None, agent_id: "worker".to_string() };
    let step = to_quotes(&nobody, STATUS, CHALLENGE);
    assert_eq!(llm_error(go(&nobody, step, quotes())), "no LLM transport configured");
}

#[test]
fn answers_without_an_answer_are_asked_for_again() {
    let setup = setup();
    let asked_again = || {
        let step = to_model(&setup, STATUS, CHALLENGE);
        let step = go(&setup, step, decision(",\"tickets\":300"));
        match &step.action {
            Action::Ask(ModelCall::Agent { prompt, .. }) => {
                assert!(prompt.starts_with("The previous response was invalid or missing"));
                assert!(prompt.contains(&format!("\n\nPrevious response:\n{{\"direction\":\"up\",\"reasoning\":\"{REASON}\"")));
            }
            _ => panic!("expected another question"),
        }
        step
    };
    // the solver knows the challenge, so the first decision is good enough
    let step = go(&setup, asked_again(), failed("timeout"));
    assert!(matches!(step.action, Action::Submit { .. }));
    let step = go(&setup, asked_again(), Event::Answer("nonsense".to_string()));
    assert!(matches!(step.action, Action::Submit { .. }));
    let step = go(&setup, asked_again(), Event::Answer("{\"action\":\"skip\",\"reasoning\":\"no\"}".to_string()));
    assert_eq!(skipped(step), "no");
}

#[test]
fn replies_that_are_no_decision_are_asked_for_again() {
    let setup = setup();
    let asked_again = || {
        let step = to_model(&setup, STATUS, CHALLENGE);
        let step = go(&setup, step, Event::Answer("Submit it all".to_string()));
        assert!(matches!(step.action, Action::Ask(_)));
        step
    };
    assert_eq!(
        llm_error(go(&setup, asked_again(), failed("timeout"))),
        "parse failed: no JSON object found in LLM response; normalization failed: timeout"
    );
    assert_eq!(
        llm_error(go(&setup, asked_again(), Event::Answer("{\"direction\":\"left\"}".to_string()))),
        "parse failed after normalization: missing or invalid 'direction' (must be 'up' or 'down')"
    );
    let step = go(&setup, asked_again(), decision(",\"tickets\":300"));
    match &step.action {
        Action::Submit { canonical, .. } => assert_eq!(
            canonical,
            "m-1|up|none|300|f7bcd3d6fd46f72c73db61160b95207ebd84cd2e16160cbe0dd0e96a6e61f39a|n-1"
        ),
        _ => panic!("expected a submission"),
    }
}

#[test]
fn model_failures_end_the_round() {
    let setup = setup();
    let step = to_model(&setup, STATUS, CHALLENGE);
    assert_eq!(llm_error(go(&setup, step, failed("exit 1"))), "exit 1");
    let step = to_model(&setup, STATUS, CHALLENGE);
    assert_eq!(skipped(go(&setup, step, Event::Answer("I skip, choppy".to_string()))), "I skip, choppy");
}

#[test]
fn rules_turn_decisions_into_skips() {
    let unknown = r#"{"data": {"nonce": "n-1", "prompt": "What is the answer?"}}"#;
    let end = |status: &str, challenge: &str, fields: &str, second: &str| {
        let setup = setup();
        let step = to_model(&setup, status, challenge);
        let step = go(&setup, step, decision(fields));
        skipped(go(&setup, step, failed(second)))
    };
    assert_eq!(end(STATUS, unknown, ",\"tickets\":300", "x"), "LLM did not include required Challenge answer digits");
    assert_eq!(end(STATUS, CHALLENGE, ",\"tickets\":6000", "x"), "tickets exceed available balance");
    let poor = r#"{"data": {"balance": 300, "persona": "degen"}}"#;
    assert_eq!(end(poor, CHALLENGE, ",\"edge_quality\":\"weak\"", "x"), "missing tickets and unsafe to fall back");
    let sniper = r#"{"data": {"balance": 9000, "persona": "sniper"}}"#;
    assert_eq!(end(sniper, CHALLENGE, "", "x"), "sniper persona skips medium edges");
    let open = r#"{"data": {"balance": 9000, "open_orders": [{"market_id": "m-1"}]}}"#;
    assert!(end(open, CHALLENGE, "", "x").starts_with("open order on same market_id"));
}

#[test]
fn tickets_are_moved_into_bounds() {
    let setup = setup();
    let rich = r#"{"data": {"balance": 1e9}}"#;
    for (given, expected) in [(",\"tickets\":5", "|100|"), (",\"tickets\":4000000", "|100000|"), (",\"edge_quality\":\"strong\"", "|100000|")] {
        let step = to_model(&setup, rich, CHALLENGE);
        let step = go(&setup, step, decision(given));
        let step = go(&setup, step, failed("x"));
        match &step.action {
            Action::Submit { canonical, .. } => assert!(canonical.contains(expected), "{canonical}"),
            _ => panic!("expected a submission"),
        }
    }
}

#[test]
fn errors_are_shortened() {
    assert_eq!(extract_short_error("HTTP 400: {\"error\": {\"message\": \"bad\"}}"), "bad");
    assert_eq!(extract_short_error("plain"), "plain");
    assert_eq!(extract_short_error("{not json"), "{not json");
    assert_eq!(extract_short_error(&"é".repeat(300)), "é".repeat(200));
    let value = Some(json(r#"{"error": {"message": 5}}"#));
    assert_eq!(short_error_from("x {", &value), "x {");
}

#[test]
fn sums_of_tickets_are_tested() {
    let orders = |a: &str, b: &str| Some(vec![json(a), json(b)]);
    assert!(tickets_fit(&None));
    assert!(tickets_fit(&orders(r#"{"tickets": 9223372036854775807}"#, "{}")));
    assert!(!tickets_fit(&orders(r#"{"tickets": 9223372036854775807}"#, r#"{"tickets": 1}"#)));
    assert!(!tickets_fit(&orders(r#"{"tickets_filled": -9223372036854775807}"#, r#"{"tickets_filled": -2}"#)));
}
