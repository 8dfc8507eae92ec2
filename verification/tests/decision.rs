use predict_agent::decision::{
    decide, decision_from_json, decision_has_challenge_answer, extract_json,
    extract_textual_skip_reason, json_candidates, order_price, parse_llm_response, pick_json,
    skip_reason_of, Answer, LlmDecision, ParseError,
};
use predict_agent::double::Double;
use predict_agent::json::Json;

fn d(x: f64) -> Double {
    Double::from_bits(x.to_bits())
}

const LONG: &str = "BTC 15m showing higher lows; volume rising. The 74500 level held twice, and again today.";

#[test]
fn plain_language_skip_recovers_as_skip() {
    let parsed =
        parse_llm_response("Skipped — BTC 15m is choppy and no clear edge after price haircut.")
            .expect("plain skip should parse");
    match parsed {
        LlmDecision::Skip { reason } => assert!(reason.contains("choppy")),
        _ => panic!("expected skip"),
    }
}

#[test]
fn plain_language_submit_is_not_inferred() {
    let result = parse_llm_response("Submit DOWN 5000 tickets because trend is bearish");
    assert!(result.is_err(), "free-text submit must not be inferred");
    let err = result.err().unwrap();
    assert!(err.message().contains("no JSON object"));
}

#[test]
fn parse_old_decision_without_new_fields_still_works() {
    let json_text = r#"{
            "action":"submit","direction":"up",
            "reasoning":"BTC 15m showing higher lows; volume rising. The 74500 level held twice. Challenge answer: 42.",
            "tickets":1000,"limit_price":0.55
        }"#;
    let parsed = parse_llm_response(json_text).unwrap();
    match parsed {
        LlmDecision::Submit {
            direction,
            tickets,
            limit_price,
            edge_quality,
            confidence,
            fill_intent,
            ..
        } => {
            assert_eq!(direction, "up");
            assert_eq!(tickets, Some(1000));
            assert_eq!(limit_price, Some(d(0.55)));
            assert!(edge_quality.is_none());
            assert!(confidence.is_none());
            assert!(fill_intent.is_none());
        }
        _ => panic!("expected submit"),
    }
}

#[test]
fn parse_new_decision_with_quality_fields() {
    let json_text = r#"{
            "action":"submit","direction":"down",
            "reasoning":"ETH 15m losing 3500 support, volume confirming the breakdown. Challenge answer: 7.",
            "tickets":500,"limit_price":0.42,
            "confidence":0.71,"edge_quality":"strong","fill_intent":"taker"
        }"#;
    let parsed = parse_llm_response(json_text).unwrap();
    match parsed {
        LlmDecision::Submit { edge_quality, confidence, fill_intent, .. } => {
            assert_eq!(edge_quality.as_deref(), Some("strong"));
            assert_eq!(confidence, Some(d(0.71)));
            assert_eq!(fill_intent.as_deref(), Some("taker"));
        }
        _ => panic!("expected submit"),
    }
}

#[test]
fn parse_skip_decision() {
    let json_text = r#"{"action":"skip","reasoning":"Klines mixed, no concrete edge."}"#;
    let parsed = parse_llm_response(json_text).unwrap();
    assert!(matches!(parsed, LlmDecision::Skip { .. }));
}

fn submit(fields: &str) -> Result<LlmDecision<String>, ParseError> {
    let source = format!("{{\"direction\":\"UP\",\"reasoning\":\"{LONG}\"{fields}}}");
    decision_from_json(&Json::parse(&source).unwrap())
}

#[test]
fn missing_action_is_a_submission() {
    match submit("").unwrap() {
        LlmDecision::Submit { direction, reasoning, tickets, market_id, limit_price, .. } => {
            assert_eq!(direction, "up");
            assert_eq!(reasoning, LONG);
            assert_eq!(tickets, None);
            assert_eq!(market_id, None);
            assert_eq!(limit_price, None);
        }
        _ => panic!("expected submit"),
    }
}

#[test]
fn tickets_are_whole_positive_and_32_bits_wide() {
    let tickets = |fields: &str| match submit(fields).unwrap() {
        LlmDecision::Submit { tickets, .. } => tickets,
        _ => panic!("expected submit"),
    };
    assert_eq!(tickets(",\"tickets\":250"), Some(250));
    assert_eq!(tickets(",\"tickets\":250.9"), Some(250));
    assert_eq!(tickets(",\"tickets\":0"), Some(1));
    assert_eq!(tickets(",\"tickets\":-7"), Some(1));
    assert_eq!(tickets(",\"tickets\":1e300"), Some(u32::MAX));
    assert_eq!(tickets(",\"tickets\":4294967297"), Some(1));
    assert_eq!(tickets(",\"tickets\":\"250\""), None);
}

#[test]
fn senseless_fields_count_as_missing() {
    let decided = submit(
        ",\"limit_price\":0.995,\"confidence\":7,\"edge_quality\":\"HUGE\",\"fill_intent\":\"Maker\",\"market_id\":\"m-1\"",
    )
    .unwrap();
    match decided {
        LlmDecision::Submit { limit_price, confidence, edge_quality, fill_intent, market_id, .. } => {
            assert_eq!(limit_price, None);
            assert_eq!(confidence, Some(d(1.0)));
            assert_eq!(edge_quality, None);
            assert_eq!(fill_intent.as_deref(), Some("maker"));
            assert_eq!(market_id.as_deref(), Some("m-1"));
        }
        _ => panic!("expected submit"),
    }
    assert!(order_price(d(0.01)) && order_price(d(0.99)));
    assert!(!order_price(d(0.0099)) && !order_price(d(0.9901)) && !order_price(d(f64::NAN)));
}

#[test]
fn errors_name_what_is_wrong() {
    let parse = |s: &str| decision_from_json(&Json::parse(s).unwrap()).err();
    assert_eq!(parse(r#"{"direction":"sideways"}"#), Some(ParseError::Direction));
    assert_eq!(parse("{}"), Some(ParseError::Direction));
    assert_eq!(parse(r#"{"direction":"Down","reasoning":"short"}"#), Some(ParseError::Reasoning));
    assert_eq!(parse(r#"{"direction":"Down"}"#), Some(ParseError::Reasoning));
    assert_eq!(
        ParseError::Direction.message(),
        "missing or invalid 'direction' (must be 'up' or 'down')"
    );
    assert_eq!(
        ParseError::Reasoning.message(),
        "missing or too short 'reasoning' (must be >= 80 chars)"
    );
}

#[test]
fn reasoning_is_measured_in_characters() {
    let parse = |ch: &str, n: usize| {
        let source = format!("{{\"direction\":\"up\",\"reasoning\":\"{}\"}}", ch.repeat(n));
        parse_llm_response(&source).err()
    };
    assert_eq!(parse("→", 80), None);
    assert_eq!(parse("→", 79), Some(ParseError::Reasoning));
    assert_eq!(parse("→", 27), Some(ParseError::Reasoning));
    assert_eq!(parse("x", 80), None);
    assert_eq!(parse("x", 79), Some(ParseError::Reasoning));
}

#[test]
fn json_is_found_behind_an_announcement() {
    let reply = "{\"a\":0}\nI think {hard}.\nDECISION: {\"a\":{\"b\":1}} and {\"c\":2}";
    assert_eq!(extract_json(reply).as_deref(), Some("{\"a\":{\"b\":1}}"));
    assert_eq!(extract_json("Decision: none. decision: {\"x\":3}").as_deref(), Some("{\"x\":3}"));
}

#[test]
fn json_is_found_whole_fenced_or_last() {
    assert_eq!(extract_json("  {\"a\":1}\n").as_deref(), Some("{\"a\":1}"));
    assert_eq!(extract_json("x\n```json\n{\"a\":2}\n```\ny").as_deref(), Some("{\"a\":2}"));
    assert_eq!(extract_json("x ``` {\"a\":3} ``` {broken").as_deref(), Some("{\"a\":3}"));
    assert_eq!(extract_json("first {\"a\":1} then {\"a\":4} end").as_deref(), Some("{\"a\":4}"));
    assert_eq!(extract_json("note: {\"s\":\"}\"} end").as_deref(), Some("{\"s\":\"}\"}"));
    assert_eq!(extract_json("no braces"), None);
    assert_eq!(extract_json("} {"), None);
}

#[test]
fn objects_may_hold_any_character() {
    let found = json_candidates("DECISION: {\"a\":\"→\"} x");
    assert_eq!(found[0], "{\"a\":\"→\"}");
    let reply = "DECISION: {\"a\":\"→→\"}";
    assert_eq!(extract_json(reply).as_deref(), Some("{\"a\":\"→→\"}"));
    let reply = "{\"a\":0} DECISION: {\"a\":\"é\"} note {\"b\":2}";
    assert_eq!(extract_json(reply).as_deref(), Some("{\"a\":\"é\"}"));
    let reply = "first {\"a\":1} then {\"a\":\"é→\"} end";
    assert_eq!(extract_json(reply).as_deref(), Some("{\"a\":\"é→\"}"));
}

#[test]
fn nothing_but_objects_is_found() {
    assert_eq!(extract_json("```json\n[1]\n```"), None);
    assert_eq!(extract_json("```json\n5\n```\n{\"a\":1}").as_deref(), Some("{\"a\":1}"));
    assert_eq!(parse_llm_response("```json\n[1]\n```").err(), Some(ParseError::NoJson));
}

#[test]
fn plain_skips_need_skip_words_and_no_submit_words() {
    assert_eq!(
        extract_textual_skip_reason("[predict-agent] log\n\n Skip: weak setup \n[NOTIFY] x\n today").as_deref(),
        Some("weak setup today")
    );
    assert_eq!(extract_textual_skip_reason("DECISION: skip:").as_deref(), Some("Plain-language LLM skip recovered from non-JSON response"));
    assert_eq!(extract_textual_skip_reason("I would skip these tickets"), None);
    assert_eq!(extract_textual_skip_reason("All is well"), None);
    let long = format!("no edge {}", "x".repeat(600));
    let reason = extract_textual_skip_reason(&long).unwrap();
    assert_eq!(reason.chars().count(), 500);
    assert!(long.starts_with(&reason));
}

#[test]
fn skips_in_json_have_a_reason() {
    match parse_llm_response("{\"action\":\"SKIP\"}").unwrap() {
        LlmDecision::Skip { reason } => assert_eq!(reason, "No reason provided"),
        _ => panic!("expected skip"),
    }
}

#[test]
fn decisions_are_checked_for_an_answer() {
    assert!(!decision_has_challenge_answer(&submit("").unwrap()));
    assert!(decision_has_challenge_answer(&LlmDecision::Skip { reason: "x".to_string() }));
    let with = format!(
        "{{\"direction\":\"up\",\"reasoning\":\"{LONG} Challenge answer: 4.\"}}"
    );
    assert!(decision_has_challenge_answer(&parse_llm_response(&with).unwrap()));
}

fn answer() -> Answer<String> {
    Answer {
        action: Some("submit".to_string()),
        direction: Some("down".to_string()),
        reasoning: Some(LONG.to_string()),
        tickets: Some(700),
        market_id: None,
        limit_price: Some(d(0.005)),
        confidence: Some(d(1.5)),
        edge_quality: Some("huge".to_string()),
        fill_intent: Some("maker".to_string()),
    }
}

#[test]
fn answers_are_decided_on() {
    match decide(answer()) {
        Ok(LlmDecision::Submit {
            direction,
            tickets,
            limit_price,
            confidence,
            edge_quality,
            fill_intent,
            ..
        }) => {
            assert_eq!(direction, "down");
            assert_eq!(tickets, Some(700));
            assert_eq!(limit_price, None);
            assert_eq!(confidence, Some(d(1.0)));
            assert_eq!(edge_quality, None);
            assert_eq!(fill_intent.as_deref(), Some("maker"));
        }
        other => panic!("{other:?}"),
    }
    let skip = decide(Answer { action: Some("skip".to_string()), reasoning: None, ..answer() });
    assert!(matches!(skip, Ok(LlmDecision::Skip { reason }) if reason == "No reason provided"));
    let unlowered = decide(Answer { direction: Some("UP".to_string()), ..answer() });
    assert!(matches!(unlowered, Err(ParseError::Direction)));
    let short = decide(Answer { reasoning: Some("too short".to_string()), ..answer() });
    assert!(matches!(short, Err(ParseError::Reasoning)));
}

#[test]
fn first_valid_candidate_is_picked() {
    let found = vec!["a".to_string(), "b".to_string()];
    assert_eq!(pick_json(&found, &vec![false, true]).as_deref(), Some("b"));
    assert_eq!(pick_json(&found, &vec![true, true]).as_deref(), Some("a"));
    assert_eq!(pick_json(&found, &vec![false, false]), None);
    assert_eq!(pick_json(&vec![], &vec![]), None);
}

#[test]
fn skip_reasons_go_by_the_lowercase_words() {
    let said = "SKIP: Choppy tape".to_string();
    assert_eq!(skip_reason_of(said.clone(), "skip: choppy tape").as_deref(), Some("Choppy tape"));
    assert_eq!(skip_reason_of(said.clone(), "SKIP: CHOPPY TAPE"), None);
    assert_eq!(skip_reason_of(said, "skip the tickets"), None);
}
