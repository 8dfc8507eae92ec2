use predict_agent::double::Double;
use predict_agent::json::Json;
use predict_agent::strategy::{
    limit_price_advisory, recent_accuracy, safe_fallback_tickets, should_reject_for_strategy,
    should_skip_for_duplicate_market, Complements, RecentAccuracy,
};

fn d(x: f64) -> Double {
    Double::from_bits(x.to_bits())
}

fn json(source: &str) -> Json {
    Json::parse(source).unwrap()
}

fn some(s: &str) -> Option<String> {
    Some(s.to_string())
}

#[test]
fn conservative_skips_weak_edge() {
    let r = should_reject_for_strategy("conservative", &Some("weak".into()), Some(d(0.7)), None);
    assert!(r.is_some(), "conservative + weak edge must skip");
}

#[test]
fn conservative_skips_medium_low_conf() {
    let r = should_reject_for_strategy("conservative", &Some("medium".into()), Some(d(0.50)), None);
    assert!(r.is_some(), "conservative + medium + conf<0.55 must skip");
}

#[test]
fn conservative_allows_strong_with_conf() {
    let r = should_reject_for_strategy("conservative", &Some("strong".into()), Some(d(0.65)), None);
    assert!(r.is_none(), "conservative + strong + conf>=0.50 must pass");
}

#[test]
fn sniper_skips_medium() {
    let r = should_reject_for_strategy("sniper", &Some("medium".into()), Some(d(0.80)), None);
    assert!(r.is_some(), "sniper persona must skip medium edges");
}

#[test]
fn losing_streak_throttles_conservative() {
    let acc = RecentAccuracy { wins: 1, losses: 4, filled: 5 };
    let r = should_reject_for_strategy(
        "conservative",
        &Some("strong".into()),
        Some(d(0.55)),
        Some(acc),
    );
    assert!(r.is_some(), "losing streak should tighten the bar");
}

#[test]
fn losing_streak_does_not_throttle_degen() {
    let acc = RecentAccuracy { wins: 1, losses: 4, filled: 5 };
    let r = should_reject_for_strategy("degen", &Some("medium".into()), Some(d(0.50)), Some(acc));
    assert!(r.is_none(), "degen ignores losing-streak throttle");
}

#[test]
fn duplicate_open_order_blocks_weak() {
    let orders = Some(vec![json(r#"{"market_id": "btc-15m-1"}"#)]);
    let r = should_skip_for_duplicate_market(
        "btc-15m-1",
        &orders,
        &None,
        &Some("medium".into()),
        Some(d(0.6)),
    );
    assert!(r.is_some(), "weak/medium edge must not double up");
}

#[test]
fn duplicate_open_order_strong_overrides() {
    let orders = Some(vec![json(r#"{"market_id": "btc-15m-1"}"#)]);
    let r = should_skip_for_duplicate_market(
        "btc-15m-1",
        &orders,
        &None,
        &Some("strong".into()),
        Some(d(0.70)),
    );
    assert!(r.is_none(), "strong + high confidence permits duplicate-market override");
}

#[test]
fn no_duplicate_passes() {
    let orders = Some(vec![json(r#"{"market_id": "eth-15m-99"}"#)]);
    let r = should_skip_for_duplicate_market(
        "btc-15m-1",
        &orders,
        &None,
        &Some("medium".into()),
        Some(d(0.5)),
    );
    assert!(r.is_none(), "different market_id must not be flagged");
}

#[test]
fn fallback_skips_conservative_without_strong_edge() {
    let r = safe_fallback_tickets(
        "conservative",
        d(38_000.0),
        &Some("medium".into()),
        Some(d(0.6)),
        None,
    );
    assert_eq!(r, None, "conservative + non-strong without LLM tickets must skip");
}

#[test]
fn fallback_sizes_conservative_strong() {
    let r = safe_fallback_tickets(
        "conservative",
        d(38_000.0),
        &Some("strong".into()),
        Some(d(0.60)),
        None,
    );
    assert!(matches!(r, Some(t) if (100..=38_000).contains(&t)));
}

#[test]
fn fallback_caps_during_losing_streak() {
    let acc = RecentAccuracy { wins: 1, losses: 4, filled: 5 };
    let strong = safe_fallback_tickets(
        "degen",
        d(10_000.0),
        &Some("strong".into()),
        Some(d(0.7)),
        Some(acc),
    )
    .unwrap();
    assert!(strong <= 500, "losing streak should cap fallback");
}

#[test]
fn recent_accuracy_excludes_unfilled_orders() {
    let results = Some(vec![
        json(r#"{"won": true,  "tickets_filled": 100}"#),
        json(r#"{"won": false, "tickets_filled": 200}"#),
        json(r#"{"won": false, "tickets_filled": 0}"#),
        json(r#"{"won": null,  "tickets_filled": 50}"#),
    ]);
    let acc = recent_accuracy(&results).unwrap();
    assert_eq!(acc.wins, 1);
    assert_eq!(acc.losses, 1);
    assert_eq!(acc.filled, 2);
}

#[test]
fn recent_accuracy_returns_none_when_all_unfilled() {
    let results = Some(vec![
        json(r#"{"won": false, "tickets_filled": 0}"#),
        json(r#"{"won": null, "tickets_filled": 0}"#),
    ]);
    assert!(recent_accuracy(&results).is_none());
}

#[test]
fn recent_accuracy_needs_results() {
    assert!(recent_accuracy(&None).is_none());
    assert!(recent_accuracy(&Some(vec![])).is_none());
}

#[test]
fn losing_streak_is_less_than_two_in_five() {
    for wins in 0..40usize {
        for losses in 0..40usize {
            let filled = wins + losses;
            let acc = RecentAccuracy { wins, losses, filled };
            if filled > 0 {
                let rate = wins as f64 / filled as f64;
                assert_eq!(acc.is_losing(), filled >= 5 && rate < 0.40);
            }
        }
    }
}

#[test]
fn gate_gives_its_reasons() {
    let reject = should_reject_for_strategy;
    assert_eq!(
        reject("sniper", &some("weak"), None, None).as_deref(),
        Some("sniper persona requires stronger edge (LLM self-rated weak)")
    );
    assert_eq!(
        reject("sniper", &None, Some(d(0.9)), None).as_deref(),
        Some("sniper persona skips medium edges")
    );
    assert_eq!(
        reject("conservative", &None, None, None).as_deref(),
        Some("conservative + medium edge with confidence <0.55 — skipping")
    );
    assert_eq!(
        reject("conservative", &some("strong"), Some(d(0.494)), None).as_deref(),
        Some("conservative persona requires confidence ≥0.50 (got 0.49)")
    );
    assert_eq!(
        reject("degen", &some("weak"), Some(d(0.44)), None).as_deref(),
        Some("even degen skips genuinely-no-edge weak setups (conf <0.45)")
    );
    assert_eq!(reject("degen", &some("weak"), None, None), None);
    let acc = RecentAccuracy { wins: 3, losses: 5, filled: 8 };
    assert_eq!(
        reject("none", &None, None, Some(acc)).as_deref(),
        Some("recent filled accuracy 38% (3W/5L) — only strong edge with conf ≥0.60 allowed; got edge=medium conf=0.50")
    );
    assert_eq!(reject("none", &some("strong"), Some(d(0.60)), Some(acc)), None);
}

#[test]
fn duplicate_guard_gives_its_reasons() {
    let traded = Some(vec![json(r#"{"market_id": "m"}"#)]);
    assert_eq!(
        should_skip_for_duplicate_market("m", &traded, &traded, &None, None).as_deref(),
        Some("open order on same market_id (edge=medium conf=0.00); not strong enough to justify duplicate exposure")
    );
    assert_eq!(
        should_skip_for_duplicate_market("m", &None, &traded, &some("strong"), Some(d(0.64))).as_deref(),
        Some("recently traded same market_id (edge=strong conf=0.64); not strong enough to justify duplicate exposure")
    );
    assert_eq!(
        should_skip_for_duplicate_market("m", &None, &traded, &some("strong"), Some(d(0.65))),
        None
    );
}

#[test]
fn fallback_sizes_by_persona_and_edge() {
    let size = |persona: &str, edge: &str| {
        safe_fallback_tickets(persona, d(10_000.0), &some(edge), Some(d(0.9)), None)
    };
    for (persona, edge, part) in [
        ("degen", "strong", 0.30),
        ("degen", "medium", 0.15),
        ("degen", "weak", 0.07),
        ("sniper", "strong", 0.25),
        ("contrarian", "weak", 0.20),
        ("conservative", "strong", 0.07),
        ("none", "strong", 0.10),
        ("none", "medium", 0.06),
        ("none", "weak", 0.04),
    ] {
        assert_eq!(size(persona, edge), Some((10_000.0f64 * part).floor() as u32), "{persona} {edge}");
    }
    assert_eq!(safe_fallback_tickets("none", d(900.0), &None, None, None), None);
    assert_eq!(safe_fallback_tickets("degen", d(1e12), &some("strong"), None, None), Some(100_000));
    assert_eq!(safe_fallback_tickets("degen", d(-5e6), &some("strong"), None, None), None);
    assert_eq!(safe_fallback_tickets("sniper", d(1e6), &some("strong"), Some(d(0.54)), None), None);
    let acc = RecentAccuracy { wins: 0, losses: 5, filled: 5 };
    assert_eq!(safe_fallback_tickets("none", d(10_000.0), &some("weak"), None, Some(acc)), Some(400));
    assert_eq!(safe_fallback_tickets("degen", d(10_000.0), &None, None, Some(acc)), Some(500));
}

#[test]
fn takers_are_advised() {
    let book = json(r#"{"orderbook": {}}"#);
    let both = Complements { up: Some(d(0.4)), down: Some(d(0.6)) };
    let none = Complements { up: None, down: None };
    assert_eq!(
        limit_price_advisory("taker", "up", d(0.5), &book, both).as_deref(),
        Some("fill_intent=taker up but limit 0.50 < (1-best_down) 0.60 — likely won't take liquidity")
    );
    assert_eq!(limit_price_advisory("taker", "down", d(0.5), &book, both), None);
    assert_eq!(
        limit_price_advisory("taker", "down", d(0.5), &book, none).as_deref(),
        Some("fill_intent=taker down but no UP counterparty in book — taker fill unlikely")
    );
    assert_eq!(
        limit_price_advisory("taker", "up", d(0.5), &book, none).as_deref(),
        Some("fill_intent=taker up but no DOWN counterparty in book — taker fill unlikely")
    );
    assert_eq!(limit_price_advisory("maker", "up", d(0.5), &book, none), None);
    assert_eq!(limit_price_advisory("taker", "up", d(0.5), &json("{}"), none), None);
}
