use predict_agent::double::Double;
use predict_agent::json::Json;
use predict_agent::market::Moment;
use predict_agent::prompt::{
    build_prompt, implied_up_of, Quotes, CAREFUL_MEDIUM, CHALLENGE_RULE, CONSERVATIVE_STYLE,
    CONTINUITY, FILL_STATUS, FORMAT, FREE_MEDIUM, LANGUAGE, LOSING, NO_KLINES, OPEN_WARNING,
    OTHERS_END, RECENT_WARNING, RULES,
};
use predict_agent::strategy::{recent_accuracy, Complements};

fn d(x: f64) -> Double {
    Double::from_bits(x.to_bits())
}

fn json(source: &str) -> Json {
    Json::parse(source).unwrap()
}

fn list(source: &str) -> Option<Vec<Json>> {
    match Json::parse(source).unwrap() {
        Json::Array(items) => Some(items),
        _ => None,
    }
}

fn quotes(up: Option<f64>, down: Option<f64>, implied: f64) -> Quotes {
    Quotes {
        complements: Complements { up: up.map(d), down: down.map(d) },
        implied: d(implied),
        now: Moment { secs: 1_700_000_000, nanos: 0 },
    }
}

#[test]
fn bare_prompts_have_the_fixed_passages() {
    let prompt = build_prompt(
        "m-1",
        &json("{}"),
        &None,
        &vec![],
        d(1234.5),
        "none",
        3,
        0,
        &None,
        &None,
        &json("{}"),
        None,
        quotes(None, None, 0.5),
    );
    let expected = format!(
        "You are a prediction agent competing in AWP Predict WorkNet.\n\n{RULES}- \"tickets\": how many chips to commit (integer, minimum 100, max 1234). Size according to your persona and conviction!\n- \"market_id\": which market (default: \"m-1\", required if action=submit)\n{FORMAT}- \"tickets\": integer, minimum 100, max 1234\n- \"market_id\": which market (default: \"m-1\")\n{LANGUAGE}- Balance: 1234 chips\n- **Your sizing (none, STRONG edge):** 123-246 tickets. Size according to conviction.\n{FREE_MEDIUM}- Submissions remaining this timeslot: 3/3 (cap, not a quota — only use if edge is real).\n- Available markets: 0\n\n## Recommended Market\n\n- ID: m-1\n- Asset: BTC/USDT\n- Window: 15m\n- Closes in: 0s\n- implied_up_prob: 0.50\n  → Fair odds (0.50/0.50). Your edge comes purely from analysis.\n\n{NO_KLINES}"
    );
    assert_eq!(prompt, expected);
}

#[test]
fn full_prompts_hold_everything() {
    let market = json(
        r#"{"asset": "ETH/USDT", "window": "1h", "implied_up_prob": 0.375, "close_at": "2023-11-14T22:14:50Z",
            "reason": "thin book", "suggested_side": "down",
            "orderbook": {"best_up_price": "0.35", "best_down_price": "abc", "last_price": "0.36", "spread": 0.07,
                          "up_filled": 1, "up_open_tickets": 2, "down_filled": 3, "down_open_tickets": 4},
            "last_prediction": {"direction": "up", "won": false, "outcome": "down", "reasoning_text": "because"}}"#,
    );
    let orders = list(
        r#"[{"market_id": "m-1", "asset": "ETH", "window": "1h", "direction": "up", "tickets": 300, "tickets_filled": 100, "close_at": "later"},
            {"tickets": 50, "tickets_filled": 50}, {}]"#,
    );
    let results = list(
        r#"[{"market_id": "m-1", "asset": "BTC", "window": "15m", "direction": "down", "won": true, "payout_chips": 10, "chips_spent": 5, "tickets_filled": 1},
            {"won": false, "tickets_filled": 1}, {"won": false, "tickets_filled": 1},
            {"won": false, "tickets_filled": 1}, {"won": false, "tickets_filled": 1}, {"won": true}]"#,
    );
    let accuracy = recent_accuracy(&results);
    let markets = vec![
        json("{}"),
        json(r#"{"market_id": "a", "asset": "SOL", "window": "30m", "score": 7, "suggested_side": "up", "reason": "r", "last_prediction": {"direction": "down", "won": true}}"#),
        json(r#"{"market_id": 5, "id": "b", "last_prediction": null}"#),
        json(r#"{"id": "c", "last_prediction": {"direction": "up"}}"#),
    ];
    let klines = list(
        r#"[{"open_time": 17, "open": 1.005, "high": 2, "low": 0.5, "close": 1.25, "volume": 1234.5}, 5, {"volume": 2.5}]"#,
    );
    let challenge = json(r#"{"challenge": "obfuscated", "instructions": "obey"}"#);
    let prompt = build_prompt(
        "m-1",
        &market,
        &klines,
        &markets,
        d(10000.0),
        "conservative",
        0,
        125,
        &orders,
        &results,
        &challenge,
        accuracy,
        quotes(Some(1.0 - 0.35), None, 1.0 - 0.375),
    );
    let head = format!(
        "You are a prediction agent competing in AWP Predict WorkNet (persona: conservative).\n\n## Server-Issued Challenge (reasoning must satisfy this in one pass)\n\nSubmit only to market `m-1`. The challenge below applies to your `reasoning` string.\n\n--- challenge begins ---\nobfuscated\nInstructions: obey{CHALLENGE_RULE}{CONSERVATIVE_STYLE}{RULES}"
    );
    assert!(prompt.starts_with(&head));
    let tail = format!(
        "{LANGUAGE}- Balance: 10000 chips\n- **Your sizing (conservative, STRONG edge):** 500-1000 tickets. Strong edges only. Mediocre = smaller or skip. Weak = skip.\n{CAREFUL_MEDIUM}- **Recent filled accuracy: 20% (1W / 4L over last 5 resolved).**\n{LOSING}- Submissions: 0/3 remaining this timeslot — wait for next timeslot.\n- Timeslot resets in 2m5s\n- Available markets: 4\n\n**Your open orders (3, fill rate: 42%)**\n- ETH 1h UP — PARTIAL 100/300 tickets, closes later\n- ? ? ? — FILLED 50/50 tickets, closes ?\n- ? ? ? — FILLED 0/0 tickets, closes ?\n{FILL_STATUS}\n**Recent results (last 6, 2 wins):**\n- BTC 15m DOWN — WON (payout: 10, spent: 5)\n- ? ? ? — LOST (payout: 0, spent: 0)\n- ? ? ? — LOST (payout: 0, spent: 0)\n- ? ? ? — LOST (payout: 0, spent: 0)\n- ? ? ? — LOST (payout: 0, spent: 0)\n\n## Recommended Market\n\n- ID: m-1\n- Asset: ETH/USDT\n- Window: 1h\n- Closes in: 90s\n- implied_up_prob: 0.38\n{OPEN_WARNING}{RECENT_WARNING}- ⚠ Only 90s to close. Maker orders likely cancel unfilled. If you submit, prefer TAKER pricing or skip.\n- Server insight: thin book\n- Liquidity favors: DOWN (counterparty orders waiting)\n- **Last traded price:** 0.36 (most recent fill)\n- **Orderbook — how to get filled:**\n  - Best UP @ 0.35 → to BUY DOWN, bid 0.65+ (takes this liquidity)\n  - Best DOWN @ abc → to BUY UP, bid 0.50+ (takes this liquidity)\n  - Spread: 0.07 (moderate)\n- Volume: UP filled=1 open=2, DOWN filled=3 open=4\n\n**Your last prediction on ETH/USDT:**\n- Direction: UP\n- Result: LOST (outcome was down)\n- Your reasoning was: \"because\"\n{CONTINUITY}  → Buying UP costs 0.38, profit if correct: 0.62. Buying DOWN costs 0.62, profit if correct: 0.38.\n\n## Klines (3 candles)\n\ntime | open | high | low | close | volume\n--- | --- | --- | --- | --- | ---\n17 | {:.2} | 2.00 | 0.50 | 1.25 | 1234\n0 |  |  |  |  | 2\n\n## Other Markets (server-ranked)\n\n- a (SOL 30m) score=7 suggested=up [last: down won] — r\n- ? (? ?) score=0 suggested=? — \n- c (? ?) score=0 suggested=? [last: up pending] — \n{OTHERS_END}",
        1.005f64
    );
    assert!(prompt.ends_with(&tail), "{prompt}");
}

#[test]
fn sides_without_orders_are_pointed_out() {
    let market = json(r#"{"suggested_side": "skip", "orderbook": {"best_down_price": "0.2", "spread": 0.5}, "seconds_to_close": 300}"#);
    let prompt = build_prompt(
        "m",
        &market,
        &Some(vec![]),
        &vec![json("{}")],
        d(0.0),
        "sniper",
        1,
        661,
        &Some(vec![]),
        &Some(vec![]),
        &json("{}"),
        None,
        quotes(None, Some(0.8), 0.5),
    );
    assert!(prompt.contains("- Timeslot resets in 11m\n- Available markets: 1\n\n## Recommended Market"));
    assert!(prompt.contains("- Closes in: 300s\n"));
    assert!(!prompt.contains("Liquidity favors"));
    assert!(prompt.contains(
        "- **Orderbook — how to get filled:**\n  - Best DOWN @ 0.2 → to BUY UP, bid 0.80+ (takes this liquidity)\n  - No UP orders — your UP order will wait for DOWN counterparty\n  - Spread: 0.50 (WIDE — good opportunity to provide liquidity)\n- Volume: UP filled=0 open=0, DOWN filled=0 open=0\n"
    ));
    assert!(prompt.ends_with(NO_KLINES));
    assert!(prompt.contains("Most rounds skip. When you shoot, this is the size."));
}

#[test]
fn only_the_last_twenty_candles_are_shown() {
    let candles: Vec<Json> = (0..25).map(|n| json(&format!("{{\"open_time\": {n}}}"))).collect();
    let prompt = build_prompt(
        "m", &json("{}"), &Some(candles), &vec![], d(0.0), "degen", 1, 0, &None, &None,
        &json("{}"), None, quotes(None, None, 0.5),
    );
    assert!(prompt.contains("## Klines (25 candles)"));
    assert!(!prompt.contains("\n4 | "));
    assert!(prompt.contains("\n5 |  |  |  |  | \n"));
    assert!(prompt.contains("\n24 |  |  |  |  | \n"));
}

#[test]
fn implied_probability_has_three_sources() {
    assert_eq!(implied_up_of(&json(r#"{"implied_up_prob": 0.7, "orderbook": {"implied_up_prob": 0.2}}"#)), d(0.7));
    assert_eq!(implied_up_of(&json(r#"{"orderbook": {"implied_up_prob": 0.2}}"#)), d(0.2));
    assert_eq!(implied_up_of(&json(r#"{"implied_up_prob": "0.7", "orderbook": {"implied_up_prob": 0.2}}"#)), d(0.5));
    assert_eq!(implied_up_of(&json("{}")), d(0.5));
}
