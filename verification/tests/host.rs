use predict_agent::double::Double;
use predict_agent::iteration::IterationResult;
use predict_agent::json::Json;
use predict_agent::llm::{
    ask_model, call_direct_llm, call_llm_api, direct_llm_config, extract_llm_text, llm_reply,
    normalize_llm_decision, DirectLlmConfig, HttpOutcome, ModelCall,
};
use predict_agent::loop_worker::{
    after_round, calculate_backoff, can_count, choose_transport, fill_words, next_round, LoopArgs, LoopState,
    Transport,
};
use predict_agent::market::{closing_times, open_market, recommended, seconds_to_close, Moment};
use predict_agent::openclaw::{
    detect_openclaw, ensure_agent, openclaw_cleanup, openclaw_files, openclaw_names,
    openclaw_purge, openclaw_question, openclaw_reply, path_directories, AgentOutcome,
};
use predict_agent::preflight;
use predict_agent::report::Report;
use predict_agent::stake::{stake_report, stake_unavailable};
use predict_agent::submission::{
    canonical_body, canonical_text, order_request, receipt_of, Order,
};

fn d(x: f64) -> Double {
    Double::from_bits(x.to_bits())
}

fn json(source: &str) -> Json {
    Json::parse(source).unwrap()
}

fn s(text: &str) -> String {
    text.to_string()
}

// ── The loop ────────────────────────────────────────────────────────────

#[test]
fn pauses_double_up_to_ten_minutes() {
    assert_eq!(calculate_backoff(120, 0, None), 120);
    assert_eq!(calculate_backoff(30, 1, None), 60);
    assert_eq!(calculate_backoff(30, 3, None), 240);
    assert_eq!(calculate_backoff(30, 4, None), 480);
    assert_eq!(calculate_backoff(30, 9, None), 480);
    assert_eq!(calculate_backoff(120, 3, None), 600);
    assert_eq!(calculate_backoff(u64::MAX, 7, Some(5)), 5);
}

#[test]
fn rounds_are_counted_and_limited() {
    let (first, go) = next_round(LoopState::new(), 1);
    assert_eq!(first.iteration, 1);
    assert!(go);
    let (second, go) = next_round(first, 1);
    assert_eq!(second.iteration, 2);
    assert!(!go);
    assert!(next_round(second, 0).1);
}

fn args(notify: bool) -> LoopArgs {
    LoopArgs { interval: 120, max_iterations: 0, agent_id: s("worker"), notify }
}

#[test]
fn rounds_are_followed_by_pauses_and_notices() {
    let state = LoopState { iteration: 7, consecutive_empty: 2, consecutive_errors: 1 };
    let submitted = IterationResult::Submitted {
        market: s("m-1"),
        direction: s("up"),
        tickets: 400,
        tickets_filled: 150,
        order_status: s("partial"),
    };
    let after = after_round(state, &args(true), &submitted, "12.3");
    assert_eq!(after.state, LoopState { iteration: 7, consecutive_empty: 0, consecutive_errors: 0 });
    assert_eq!(after.pause, 120);
    assert_eq!(after.notice.as_deref(), Some("[NOTIFY] Round 7: UP m-1 — PARTIAL 150/400 (12.3s)"));

    let skipped = IterationResult::Skipped { reason: s("no edge") };
    let after = after_round(state, &args(true), &skipped, "1.0");
    assert_eq!(after.state.consecutive_errors, 0);
    assert_eq!(after.notice.as_deref(), Some("[NOTIFY] Round 7: Skipped — no edge"));

    let none = IterationResult::NoMarkets { wait_seconds: 300 };
    let after = after_round(state, &args(true), &none, "1.0");
    assert_eq!(after.state, LoopState { iteration: 7, consecutive_empty: 3, consecutive_errors: 1 });
    assert_eq!(after.pause, 300);
    assert_eq!(after.notice.as_deref(), Some("[NOTIFY] Round 7: No markets available, waiting 300s"));

    let limited = IterationResult::RateLimited { wait_seconds: 45 };
    let after = after_round(state, &args(true), &limited, "1.0");
    assert_eq!(after.state, state);
    assert_eq!(after.pause, 45);
    assert_eq!(after.notice.as_deref(), Some("[NOTIFY] Round 7: Rate limited, waiting 45s"));

    let failed = IterationResult::LlmFailed { reason: s("timeout") };
    let after = after_round(state, &args(true), &failed, "1.0");
    assert_eq!(after.state.consecutive_errors, 2);
    assert_eq!(after.pause, 480);
    assert_eq!(after.notice.as_deref(), Some("[NOTIFY] Round 7: LLM error — timeout, retrying in 480s"));

    let error = IterationResult::Error { reason: s("down") };
    let after = after_round(after.state, &args(true), &error, "1.0");
    assert_eq!(after.pause, 600);
    assert_eq!(after.notice.as_deref(), Some("[NOTIFY] Round 7: Error — down, retrying in 600s"));
    assert_eq!(after_round(state, &args(false), &error, "1.0").notice, None);
}

#[test]
fn fills_are_put_in_words() {
    assert_eq!(fill_words("filled", 5, 5), "FILLED 5/5");
    assert_eq!(fill_words("partial", 2, 5), "PARTIAL 2/5");
    assert_eq!(fill_words("open", 2, 5), "PENDING 0/5 (waiting for counterparty)");
}

#[test]
fn transports_are_chosen() {
    assert!(matches!(choose_transport(true, Some(s("x"))), Transport::Direct));
    assert!(matches!(choose_transport(false, Some(s("x"))), Transport::Openclaw(bin) if bin == "x"));
    assert!(matches!(choose_transport(false, None), Transport::Missing));
}

// ── The model ───────────────────────────────────────────────────────────

fn config() -> DirectLlmConfig<String> {
    DirectLlmConfig { base_url: s("http://llm"), api_key: s("key"), model: s("m1") }
}

#[test]
fn endpoints_need_all_settings() {
    let made = direct_llm_config(None, Some(s("shared")), Some(s("u")), Some(s("m"))).unwrap();
    assert_eq!((made.api_key.as_str(), made.base_url.as_str(), made.model.as_str()), ("shared", "u", "m"));
    let made = direct_llm_config(Some(s("own")), Some(s("shared")), Some(s("u")), Some(s("m"))).unwrap();
    assert_eq!(made.api_key, "own");
    assert!(direct_llm_config(None, None, Some(s("u")), Some(s("m"))).is_none());
    assert!(direct_llm_config(Some(s("own")), None, None, Some(s("m"))).is_none());
    assert!(direct_llm_config(Some(s("own")), None, Some(s("u")), None).is_none());
}

#[test]
fn requests_hold_the_prompt() {
    let request = match call_direct_llm(&Some(config()), "What now?") {
        Ok(request) => request,
        Err(e) => panic!("{e}"),
    };
    let body = &request.body;
    assert_eq!(body.double_at("temperature"), Some(d(0.2)));
    assert_eq!(body.u64_at("max_tokens"), Some(600));
    assert_eq!(body.get("response_format").unwrap().str_at("type").unwrap(), "json_object");
    let messages = body.array_at("messages").unwrap();
    assert_eq!(messages[0].str_at("role").unwrap(), "system");
    assert_eq!(
        messages[0].str_at("content").unwrap(),
        "Return only one raw JSON object. No markdown. No prose."
    );
    assert_eq!(messages[1].str_at("role").unwrap(), "user");
    assert_eq!(messages[1].str_at("content").unwrap(), "What now?");
    assert_eq!(call_direct_llm(&None, "x").err().as_deref(), Some("direct LLM env vars are incomplete"));
    assert_eq!(call_llm_api(&Some(config()), "x", 5).ok().unwrap().body.u64_at("max_tokens"), Some(5));
}

#[test]
fn normalization_repeats_task_and_reply() {
    match normalize_llm_decision("TASK", "REPLY", &None, &Some(s("bin")), "worker") {
        Ok(ModelCall::Agent { prompt, .. }) => assert_eq!(
            prompt,
            "The previous response was invalid or missing `Challenge answer: <digits>.` in reasoning.\n\nOriginal task and challenge:\nTASK\n\nPrevious response:\nREPLY\n\nReturn exactly one raw JSON object now. For submit, reasoning must include `Challenge answer: <digits>.` Do not add markdown, prose, or explanations. If the trade is not strong enough, return {\"action\":\"skip\",\"reasoning\":\"<brief market reason>\"}."
        ),
        _ => panic!("expected an agent"),
    }
    assert!(matches!(
        normalize_llm_decision("a", "b", &Some(config()), &Some(s("bin")), "w"),
        Ok(ModelCall::Direct(_))
    ));
    assert_eq!(
        normalize_llm_decision("a", "b", &None, &None, "w").err().as_deref(),
        Some("no LLM transport available for normalization")
    );
    assert_eq!(ask_model(&None, &None, "w", "p").err().as_deref(), Some("no LLM transport configured"));
}

#[test]
fn replies_carry_text_in_two_forms() {
    let text = |source: &str| extract_llm_text(&json(source));
    assert_eq!(text(r#"{"content": [{"type": "x"}, {"text": "a"}, {"text": "b"}]}"#).as_deref(), Some("a"));
    assert_eq!(text(r#"{"choices": [{"message": {"content": "c"}}, {}]}"#).as_deref(), Some("c"));
    assert_eq!(text(r#"{"content": [], "choices": [{"message": {"content": "c"}}]}"#).as_deref(), Some("c"));
    assert_eq!(text(r#"{"choices": []}"#), None);
    assert_eq!(llm_reply(HttpOutcome::NoClient(s("tls"))), Err(s("tls")));
    assert_eq!(llm_reply(HttpOutcome::NotSent), Err(s("direct LLM request failed")));
    assert_eq!(llm_reply(HttpOutcome::BadStatus), Err(s("direct LLM returned error status")));
    assert_eq!(llm_reply(HttpOutcome::NotJson), Err(s("direct LLM returned invalid JSON")));
    assert_eq!(
        llm_reply(HttpOutcome::Answer(json("{}"))),
        Err(s("direct LLM response did not contain text content"))
    );
    assert_eq!(llm_reply(HttpOutcome::Answer(json(r#"{"content": [{"text": "a"}]}"#))), Ok(s("a")));
}

#[test]
fn openclaw_is_looked_for_in_order() {
    assert_eq!(path_directories("/a:/b::c"), vec!["/a", "/b", "", "c"]);
    assert_eq!(path_directories(""), vec![""]);
    assert_eq!(openclaw_names(), vec!["openclaw", "openclaw.mjs", "openclaw.cmd"]);
    assert_eq!(openclaw_files("/h")[1], "/h/.npm-global/bin/openclaw");
    let none = vec![false, false, false];
    assert_eq!(detect_openclaw("/h", &vec![false, true, true], &vec![true, true, true]).as_deref(), Some("openclaw.mjs"));
    assert_eq!(detect_openclaw("/h", &none, &vec![true, false, true]).as_deref(), Some("/h/.local/bin/openclaw"));
    assert_eq!(detect_openclaw("/h", &none, &vec![false, false, true]).as_deref(), Some("/usr/local/bin/openclaw"));
    assert_eq!(detect_openclaw("/h", &none, &none), None);
}

#[test]
fn agents_are_made_where_missing() {
    assert_eq!(ensure_agent(Some(&s("a\nworker\n")), None, "worker"), None);
    assert_eq!(
        ensure_agent(Some(&s("a")), Some(&s("/h")), "worker").unwrap(),
        vec!["agents", "add", "worker", "--workspace", "/h/.openclaw/workspace-worker", "--non-interactive"]
    );
    assert_eq!(ensure_agent(None, None, "w").unwrap()[4], "/tmp/.openclaw/workspace-w");
}

#[test]
fn openclaw_is_called_and_read() {
    assert_eq!(openclaw_purge("w"), vec!["sessions", "purge", "--agent", "w", "--yes"]);
    assert_eq!(openclaw_cleanup(true, "w"), None);
    assert_eq!(openclaw_cleanup(false, "w").unwrap(), vec!["sessions", "cleanup", "--agent", "w"]);
    assert_eq!(
        openclaw_question("w", "p"),
        vec!["agent", "--agent", "w", "--message", "p", "--thinking", "high", "--timeout", "180"]
    );
    let ended = |success: bool, code: Option<i32>, stdout: &str, stderr: &str| {
        openclaw_reply("bin", AgentOutcome::Ended { success, code, stdout: s(stdout), stderr: s(stderr) })
    };
    assert_eq!(ended(true, Some(0), " out ", "err\n"), Ok(s("out \nerr")));
    assert_eq!(ended(true, Some(0), " ", "\n"), Err(s("openclaw returned empty response")));
    assert_eq!(ended(false, Some(2), "", " rate limit hit "), Err(s("OpenClaw rate limited (exit 2): rate limit hit")));
    assert_eq!(ended(false, None, "", "boom"), Err(s("openclaw failed (exit -1): boom")));
    assert_eq!(openclaw_reply("bin", AgentOutcome::NotStarted), Err(s("failed to execute openclaw at bin")));
    assert_eq!(openclaw_reply("bin", AgentOutcome::NoPromptFile), Err(s("failed to create temp prompt file")));
    assert_eq!(openclaw_reply("bin", AgentOutcome::PromptFile(s("disk full"))), Err(s("disk full")));
}

// ── Markets and submissions ─────────────────────────────────────────────

#[test]
fn closes_are_counted_in_whole_seconds() {
    let now = Moment { secs: 1_700_000_000, nanos: 250_000_000 };
    let left = |close: &str| seconds_to_close(&json(&format!("{{\"close_at\": \"{close}\"}}")), now);
    assert_eq!(left("2023-11-14T22:13:30Z"), Some(9));
    assert_eq!(left("2023-11-14T22:13:30.250Z"), Some(10));
    assert_eq!(left("2023-11-14T23:13:20.25+01:00"), Some(0));
    assert_eq!(left("2023-11-14T22:13:19Z"), Some(-1));
    assert_eq!(left("soon"), None);
    assert_eq!(seconds_to_close(&json("{}"), now), None);
    assert_eq!(left("2023-11-14T22:13:20.1Z"), Some(0));
}

#[test]
fn moments_have_a_range() {
    let from = |secs: i64, nanos: u32| {
        seconds_to_close(&json(r#"{"close_at": "1970-01-01T00:00:00Z"}"#), Moment { secs, nanos })
    };
    assert_eq!(from(-8_334_601_228_800, 0), Some(8_334_601_228_800));
    assert_eq!(from(-8_334_601_228_801, 0), None);
    assert_eq!(from(8_210_266_876_799, 0), Some(-8_210_266_876_799));
    assert_eq!(from(8_210_266_876_800, 0), None);
    assert_eq!(from(60, 999_999_999), Some(-60));
    assert_eq!(from(60, 1_000_000_000), None);
    assert!(from(59, 1_999_999_999).is_some());
    assert!(from(-1, 1_999_999_999).is_some());
    assert_eq!(from(59, 2_000_000_000), None);
}

#[test]
fn first_fitting_market_is_chosen() {
    let list = vec![
        json(r#"{"action": "skip", "seconds_to_close": 999}"#),
        json(r#"{"seconds_to_close": 120}"#),
        json(r#"{"action": 5, "seconds_to_close": 121}"#),
        json(r#"{"seconds_to_close": 900}"#),
    ];
    assert_eq!(recommended(&list), Some(2));
    assert_eq!(recommended(&vec![]), None);
    assert_eq!(open_market(&vec![None, Some(120), Some(121)]), Some(2));
    assert_eq!(open_market(&vec![None]), None);
    let markets = vec![json("{}"), json(r#"{"close_at": "2023-11-15T00:00:00Z"}"#)];
    assert_eq!(closing_times(&markets, Moment { secs: 1_700_000_000, nanos: 0 }), vec![None, Some(6400)]);
}

fn order(limit_price: Option<Double>) -> Order<String> {
    Order {
        market_id: s("m"),
        direction: s("down"),
        tickets: 250,
        reasoning: s("Ü→ reasoning"),
        challenge_nonce: s("n"),
        limit_price,
    }
}

#[test]
fn canonical_text_binds_the_reasoning_by_its_digest() {
    assert_eq!(
        canonical_body(&order(Some(d(0.47)))),
        "m|down|0.47|250|57429feda7f5deb734878197bc86fe6a396a0a5fa9a6e785df395096b8f5e6fe|n"
    );
    assert_eq!(canonical_text(&order(None), &vec![0, 9, 10, 255]), "m|down|none|250|00090aff|n");
    let body = order_request(&order(None));
    assert!(body.get("limit_price").is_none());
    assert_eq!(body.u64_at("tickets"), Some(250));
    assert_eq!(order_request(&order(Some(d(0.47)))).double_at("limit_price"), Some(d(0.47)));
}

#[test]
fn receipts_have_defaults() {
    let receipt = receipt_of(&json("{}"));
    assert_eq!((receipt.order_status.as_str(), receipt.tickets_filled), ("open", 0));
    let receipt = receipt_of(&json(r#"{"data": {"order_status": "filled", "tickets_filled": 4294967298}}"#));
    assert_eq!((receipt.order_status.as_str(), receipt.tickets_filled), ("filled", 2));
}

// ── Preflight and stake ─────────────────────────────────────────────────

fn settings() -> preflight::Settings<String> {
    preflight::Settings {
        server_url: s("http://server"),
        dev_mode: None,
        has_address: false,
        has_private_key: true,
        has_wallet_token: false,
        session_id: None,
        agent_id: Some(s("agent-7")),
    }
}

fn trouble(error: &str) -> preflight::Event<String, Json> {
    preflight::Event::Failed(preflight::Trouble { error: s(error), chain: format!("{error}: cause") })
}

type Check = preflight::Step<String, Json, Vec<predict_agent::report::Choice<String>>>;

fn failure(step: Check) -> (String, String, bool, String, Json, Option<u64>, Option<String>) {
    match step.action {
        preflight::Action::Show(Report::Failure { message, code, retryable, suggestion, debug, internal, .. }) => {
            (message, code, retryable, suggestion, debug, internal.wait_seconds, internal.progress)
        }
        _ => panic!("expected a failure"),
    }
}

fn to_status(settings: &preflight::Settings<String>) -> Check {
    let step = preflight::advance(settings, preflight::begin().state, preflight::Event::Address(s("0xabc")));
    assert!(matches!(&step.action, preflight::Action::CheckRegistration { address } if address == "0xabc"));
    let step = preflight::advance(settings, step.state, preflight::Event::Registered(true));
    assert!(matches!(step.action, preflight::Action::ProbeServer));
    let step = preflight::advance(settings, step.state, preflight::Event::Ready);
    assert!(matches!(step.action, preflight::Action::OpenClient));
    let step = preflight::advance(settings, step.state, preflight::Event::Ready);
    assert!(matches!(&step.action, preflight::Action::Fetch { path, signed: true } if path == "/api/v1/agents/me/status"));
    step
}

fn to_markets(settings: &preflight::Settings<String>, status: &str, number: Option<Double>) -> Check {
    let step = preflight::advance(settings, to_status(settings).state, preflight::Event::Reply(json(status)));
    assert!(matches!(&step.action, preflight::Action::Fetch { path, signed: true } if path == "/api/v1/agents/me/stake"));
    let step = preflight::advance(settings, step.state, trouble("stake down"));
    assert!(matches!(step.action, preflight::Action::ReadNumber(_)));
    let step = preflight::advance(settings, step.state, preflight::Event::Number(number));
    assert!(matches!(&step.action, preflight::Action::Fetch { path, signed: false } if path == "/api/v1/markets/active"));
    step
}

#[test]
fn ready_agents_are_told_so() {
    let settings = settings();
    let status = r#"{"data": {"balance": "123.456", "total_predictions": 9, "persona": "macro"}}"#;
    let step = to_markets(&settings, status, Some(d(123.456)));
    let step = preflight::advance(&settings, step.state, preflight::Event::Reply(json(r#"{"data": [1, 2, 3]}"#)));
    match step.action {
        preflight::Action::Show(Report::Success { message, data, internal }) => {
            assert_eq!(message, "Ready. 3 open markets. 9 total predictions. Balance: 123.46 chips.");
            assert_eq!(data.str_at("status").unwrap(), "ready");
            assert_eq!(data.u64_at("open_markets"), Some(3));
            assert_eq!(data.i64_at("total_predictions"), Some(9));
            assert_eq!(data.str_at("wallet_id").unwrap(), "agent-7");
            assert_eq!(internal.next_command.as_deref(), Some("predict-agent context"));
            assert!(internal.options.is_none());
        }
        _ => panic!("expected success"),
    }
}

#[test]
fn agents_without_a_persona_choose_one() {
    let settings = settings();
    let step = to_markets(&settings, r#"{"data": {"balance": "lots", "persona": ""}}"#, None);
    let step = preflight::advance(&settings, step.state, trouble("down"));
    match step.action {
        preflight::Action::Show(Report::Success { message, data, internal }) => {
            assert_eq!(message, "Ready! But no persona set — choose one to shape your analysis style. 0 open markets, lots chips.");
            assert_eq!(data.str_at("status").unwrap(), "needs_persona");
            let options = internal.options.unwrap();
            assert_eq!(options.len(), 7);
            assert_eq!(options[2].key, "sniper");
            assert_eq!(options[2].label, "sniper");
            assert_eq!(options[2].command.as_deref(), Some("predict-agent set-persona sniper"));
            assert_eq!(options[5].description, "rates, DXY, equity correlations, risk-on/off flows");
        }
        _ => panic!("expected success"),
    }
}

#[test]
fn missing_wallets_are_reported() {
    let settings = settings();
    let step = preflight::advance(&settings, preflight::begin().state, trouble("no wallet"));
    assert!(matches!(step.action, preflight::Action::InspectWallet));
    let wallet = preflight::Wallet {
        cli_installed: true,
        wallet_dir_exists: false,
        has_keystore: false,
        can_receive: false,
        safe_to_init: true,
        human_status: s("empty"),
        suggestion: s("run setup"),
        setup_command: s("setup"),
    };
    let step = preflight::advance(&settings, step.state, preflight::Event::Wallet(wallet));
    let (message, code, retryable, suggestion, debug, wait, progress) = failure(step);
    assert_eq!(message, "Cannot determine wallet address: no wallet");
    assert_eq!(code, "WALLET_NOT_CONFIGURED");
    assert!(!retryable);
    assert_eq!(suggestion, "run setup");
    assert_eq!(debug.get("wallet_status").unwrap().bool_at("cli_installed"), Some(true));
    assert_eq!(debug.bool_at("env_AWP_PRIVATE_KEY"), Some(true));
    assert!(debug.get("env_AWP_DEV_MODE").unwrap().is_null());
    assert_eq!((wait, progress.as_deref()), (None, Some("0/4")));
}

#[test]
fn registrations_are_waited_for() {
    let settings = settings();
    let register = || {
        let step = preflight::advance(&settings, preflight::begin().state, preflight::Event::Address(s("0xabc")));
        let step = preflight::advance(&settings, step.state, preflight::Event::Registered(false));
        assert!(matches!(&step.action, preflight::Action::Register { address } if address == "0xabc"));
        step
    };
    let outcome = |registered: bool| {
        preflight::Event::Registration(preflight::Registration { registered, auto_registered: true, message: s("submitted") })
    };
    let (message, code, retryable, _, debug, wait, progress) =
        failure(preflight::advance(&settings, register().state, outcome(false)));
    assert_eq!(message, "AWP registration incomplete: submitted");
    assert_eq!(code, "AWP_REGISTRATION_PENDING");
    assert!(retryable);
    assert_eq!(debug.bool_at("auto_registered"), Some(true));
    assert_eq!((wait, progress.as_deref()), (Some(10), Some("1/4")));
    assert!(matches!(
        preflight::advance(&settings, register().state, outcome(true)).action,
        preflight::Action::ProbeServer
    ));
    let (message, code, _, _, debug, wait, _) =
        failure(preflight::advance(&settings, register().state, trouble("gas")));
    assert_eq!(message, "AWP registration failed: gas");
    assert_eq!(code, "AWP_REGISTRATION_FAILED");
    assert_eq!(debug.str_at("error_chain").unwrap(), "gas: cause");
    assert_eq!(wait, Some(30));
    let step = preflight::advance(&settings, preflight::begin().state, preflight::Event::Address(s("0xabc")));
    assert!(matches!(
        preflight::advance(&settings, step.state, trouble("api down")).action,
        preflight::Action::ProbeServer
    ));
}

#[test]
fn development_setups_skip_registration() {
    for mode in ["true", "1"] {
        let settings = preflight::Settings { dev_mode: Some(s(mode)), ..settings() };
        let step = preflight::advance(&settings, preflight::begin().state, preflight::Event::Address(s("0xabc")));
        assert!(matches!(step.action, preflight::Action::ProbeServer));
    }
    let settings = preflight::Settings { dev_mode: Some(s("yes")), ..settings() };
    let step = preflight::advance(&settings, preflight::begin().state, preflight::Event::Address(s("0xabc")));
    assert!(matches!(step.action, preflight::Action::CheckRegistration { .. }));
}

#[test]
fn servers_and_auth_are_reported() {
    let settings = preflight::Settings { has_private_key: false, session_id: Some(s("sess")), ..settings() };
    let step = preflight::advance(&settings, preflight::begin().state, preflight::Event::Address(s("0xabc")));
    let probing = preflight::advance(&settings, step.state, preflight::Event::Registered(true));
    let (message, code, _, suggestion, _, wait, progress) =
        failure(preflight::advance(&settings, probing.state, trouble("refused")));
    assert_eq!(message, "Cannot reach coordinator at http://server: refused");
    assert_eq!(code, "COORDINATOR_UNREACHABLE");
    assert_eq!(suggestion, "Check PREDICT_SERVER_URL and network. Tried: http://server");
    assert_eq!((wait, progress.as_deref()), (Some(30), Some("2/4")));
    let (message, code, _, suggestion, debug, _, progress) =
        failure(preflight::advance(&settings, to_status(&settings).state, trouble("Wallet address mismatch!")));
    assert_eq!(message, "Failed to fetch agent status: Wallet address mismatch!");
    assert_eq!(code, "AUTH_FAILED");
    assert!(suggestion.starts_with("AWP_AGENT_ID or AWP_SESSION_ID may have changed."));
    assert_eq!(debug.str_at("signing_mode").unwrap(), "awp_wallet");
    assert_eq!(debug.str_at("wallet_id").unwrap(), "sess");
    assert_eq!(debug.str_at("env_AWP_AGENT_ID").unwrap(), "agent-7");
    assert_eq!(progress.as_deref(), Some("3/4"));
    let (_, _, _, suggestion, _, _, _) =
        failure(preflight::advance(&settings, to_status(&settings).state, trouble("HTTP 401")));
    assert_eq!(suggestion, "Check your wallet configuration and ensure the timestamp is fresh.");
}

#[test]
fn failing_clients_abort_the_check() {
    let settings = settings();
    let step = preflight::advance(&settings, preflight::begin().state, preflight::Event::Address(s("0xabc")));
    let step = preflight::advance(&settings, step.state, preflight::Event::Registered(true));
    let opening = preflight::advance(&settings, step.state, preflight::Event::Ready);
    let step = preflight::advance(&settings, opening.state, trouble("no tls"));
    assert!(matches!(step.action, preflight::Action::Abort));
}

#[test]
fn stakes_hold_up_where_enforced() {
    let settings = settings();
    let staking = || preflight::advance(&settings, to_status(&settings).state, preflight::Event::Reply(json("{}")));
    let enforced = json(r#"{"data": {"eligible": false, "gate_mode": "enforce", "current_stake_awp": "10"}}"#);
    let (message, code, retryable, _, debug, _, progress) =
        failure(preflight::advance(&settings, staking().state, preflight::Event::Reply(enforced)));
    assert_eq!(
        message,
        "Stake gate: agent has 10 AWP allocated to Predict, but ≥1000 AWP is required. Run `predict-agent stake` for the three ways to become eligible (awp.pro web UI, KYA delegated staking, or direct contract calls)."
    );
    assert_eq!(code, "STAKE_REQUIRED");
    assert!(!retryable);
    assert_eq!(debug.get("stake_data").unwrap().str_at("gate_mode").unwrap(), "enforce");
    assert_eq!(progress.as_deref(), Some("5/5"));
    for open in [r#"{"data": {"gate_mode": "monitor"}}"#, r#"{"data": {"eligible": true, "gate_mode": "enforce"}}"#, "{}"] {
        let step = preflight::advance(&settings, staking().state, preflight::Event::Reply(json(open)));
        assert!(matches!(&step.action, preflight::Action::ReadNumber(raw) if raw == "0"));
    }
}

#[test]
fn stakes_are_reported() {
    let eligible = json(r#"{"data": {"agent_address": "0xabc", "current_stake_awp": "1500", "eligible": true, "gate_mode": "enforce", "lock_min_until": "2027", "backers": [{"staker": "s1", "amount_awp": "5", "worknet_id": "w"}, {}]}}"#);
    match stake_report(&eligible) {
        Report::Success { message, data, internal } => {
            assert_eq!(
                message,
                "Agent:           0xabc\nCurrent stake:   1500 AWP\nRequired:        1000 AWP\nStatus:          ✓ ELIGIBLE\nGate mode:       enforce\nLock expires at: 2027\nBackers (2):\n  • staker s1  →  5 AWP  (worknet w)\n  • staker ?  →  ? AWP  (worknet ?)\n\nYou're staked. Run `predict-agent context` to start."
            );
            assert_eq!(data.str_at("agent_address").unwrap(), "0xabc");
            assert_eq!(internal.next_action, "ready");
        }
        _ => panic!("expected success"),
    }
    match stake_report(&json("{}")) {
        Report::Failure { message, code, debug, internal, .. } => {
            let lines: Vec<&str> = message.lines().collect();
            assert_eq!(lines[0], "Agent:           unknown");
            assert_eq!(lines[3], "Status:          ✗ NOT ELIGIBLE");
            assert_eq!(lines[4], "Gate mode:       off");
            assert_eq!(lines[6], "To become eligible — pick whichever path fits you:");
            assert_eq!(lines[10], "    Connect your wallet, lock ≥1000 AWP, and allocate to");
            assert_eq!(lines[11], "    (your agent unknown, worknetId 845300000003).");
            assert_eq!(lines[17], "    stake to (your agent unknown, worknetId 845300000012) on your");
            assert_eq!(lines.last().unwrap(), &"After staking, wait ~10s, then re-run: predict-agent stake");
            assert_eq!(lines.len(), 27);
            assert_eq!(code, "NOT_STAKED");
            assert!(debug.get("agent_address").is_none());
            assert_eq!(internal.next_command.as_deref(), Some("predict-agent stake"));
        }
        _ => panic!("expected a failure"),
    }
    match stake_unavailable("http://server", "down") {
        Report::Failure { message, code, retryable, debug, .. } => {
            assert_eq!(message, "Failed to fetch stake status: down");
            assert_eq!(code, "STAKE_FETCH_FAILED");
            assert!(retryable);
            assert_eq!(debug.str_at("server_url").unwrap(), "http://server");
        }
        _ => panic!("expected a failure"),
    }
}

#[test]
fn rounds_that_do_not_fit_are_not_counted() {
    let fresh = LoopState { iteration: 1, consecutive_empty: 0, consecutive_errors: 0 };
    let spent =
        LoopState { iteration: 1, consecutive_empty: u32::MAX, consecutive_errors: u32::MAX };
    let error = IterationResult::Error { reason: "e".to_string() };
    let empty = IterationResult::NoMarkets { wait_seconds: 1 };
    assert!(can_count(fresh, 120, &error));
    assert!(can_count(fresh, u64::MAX / 2, &error));
    assert!(!can_count(fresh, u64::MAX / 2 + 1, &error));
    assert!(!can_count(spent, 120, &error));
    assert!(!can_count(spent, 120, &empty));
    assert!(can_count(spent, 120, &IterationResult::RateLimited { wait_seconds: 1 }));
}
