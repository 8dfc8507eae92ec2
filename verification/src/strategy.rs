//! The rules that stand between a decision and a submission: how good recent
//! results were, when a setup is too weak, when a market was traded already,
//! and how much to commit.
use crate::double;
use crate::double::Double;
use crate::json;
use crate::json::Json;
use crate::json::JsonView;
use crate::numerals;
use crate::text;
use vstd::prelude::*;
use vstd::string::StringExecFns;

verus! {

// ── Recent accuracy ─────────────────────────────────────────────────────

/// How the recent orders went that were filled and resolved.
#[derive(Clone, Copy, Debug, PartialEq, Eq, Structural)]
pub struct RecentAccuracy {
    pub wins: usize,
    pub losses: usize,
    pub filled: usize,
}

impl RecentAccuracy {
    /// Some order was filled, and every filled order was won or lost.
    pub open spec fn wf(self) -> bool {
        self.filled == self.wins + self.losses && self.filled > 0
    }

    /// A losing streak: five orders or more, and less than two in five won.
    pub open spec fn losing(self) -> bool {
        self.filled >= 5 && 5 * self.wins < 2 * self.filled
    }

    /// Whether this is a losing streak.
    pub fn is_losing(self) -> (r: bool)
        ensures
            r == self.losing(),
    {
        self.filled >= 5 && 5 * (self.wins as u128) < 2 * (self.filled as u128)
    }
}

/// Whether a result counts: some of its tickets were filled.
pub open spec fn counts(result: JsonView) -> bool {
    result.signed_or("tickets_filled"@, 0) > 0
}

/// The number of filled orders with the given outcome.
pub open spec fn outcomes(results: Seq<JsonView>, won: bool) -> nat
    decreases results.len(),
{
    if results.len() == 0 {
        0
    } else {
        outcomes(results.drop_last(), won) + (if counts(results.last())
            && results.last().boolean_at("won"@) == Some(won) {
            1nat
        } else {
            0
        })
    }
}

/// The accuracy of recent results.
pub open spec fn accuracy(results: Option<Seq<JsonView>>) -> Option<RecentAccuracy> {
    match results {
        Some(list) => {
            let wins = outcomes(list, true);
            let losses = outcomes(list, false);
            if wins + losses > 0 {
                Some(
                    RecentAccuracy {
                        wins: wins as usize,
                        losses: losses as usize,
                        filled: (wins + losses) as usize,
                    },
                )
            } else {
                None
            }
        },
        None => None,
    }
}

/// An optional list of values as mathematical trees.
pub open spec fn opt_trees(list: Option<Vec<Json>>) -> Option<Seq<JsonView>> {
    match list {
        Some(v) => Some(json::trees(v@)),
        None => None,
    }
}

/// Counts the wins and losses among recent results. Only orders that were
/// filled and resolved count.
pub fn recent_accuracy(recent_results: &Option<Vec<Json>>) -> (r: Option<RecentAccuracy>)
    ensures
        r == accuracy(opt_trees(*recent_results)),
        r matches Some(acc) ==> acc.wf(),
{
    match recent_results {
        None => None,
        Some(results) => {
            let ghost list = json::trees(results@);
            let mut wins: usize = 0;
            let mut losses: usize = 0;
            let mut i: usize = 0;
            assert(list.take(0) =~= Seq::<JsonView>::empty());
            while i < results.len()
                invariant
                    i <= results@.len(),
                    results@.len() == results.len(),
                    list == json::trees(results@),
                    wins == outcomes(list.take(i as int), true),
                    losses == outcomes(list.take(i as int), false),
                    wins + losses <= i,
                decreases results@.len() - i,
            {
                proof {
                    assert(list.take(i + 1).drop_last() =~= list.take(i as int));
                    assert(list.take(i + 1).last() == results@[i as int]@);
                }
                let result = &results[i];
                if result.i64_or("tickets_filled", 0) > 0 {
                    match result.bool_at("won") {
                        Some(true) => {
                            wins = wins + 1;
                        },
                        Some(false) => {
                            losses = losses + 1;
                        },
                        None => {},
                    }
                }
                i = i + 1;
            }
            assert(list.take(i as int) =~= list);
            let filled: usize = wins + losses;
            if filled == 0 {
                None
            } else {
                Some(RecentAccuracy { wins, losses, filled })
            }
        },
    }
}

// ── The strategy gate ───────────────────────────────────────────────────

/// The edge of a setup; one that is not rated counts as medium.
pub open spec fn edge_or_medium(edge: Option<Seq<char>>) -> Seq<char> {
    match edge {
        Some(e) => e,
        None => "medium"@,
    }
}

/// The confidence, or another number where it is missing.
pub open spec fn confidence_or(confidence: Option<Double>, bits: u64) -> Double {
    match confidence {
        Some(c) => c,
        None => Double { bits },
    }
}

/// Whether the confidence, or a number in its place, is below a bound.
pub open spec fn below(confidence: Option<Double>, missing: u64, bound: u64) -> bool {
    confidence_or(confidence, missing).lt(Double { bits: bound })
}

/// Why a careful persona turns a setup down.
pub open spec fn careful_rejection(
    persona: Seq<char>,
    edge: Seq<char>,
    confidence: Option<Double>,
) -> Option<Seq<char>> {
    if edge == "weak"@ {
        Some(persona + " persona requires stronger edge (LLM self-rated weak)"@)
    } else if edge == "medium"@ && persona == "sniper"@ {
        Some("sniper persona skips medium edges"@)
    } else if edge == "medium"@ && below(confidence, double::ZERO, double::D055) {
        Some("conservative + medium edge with confidence <0.55 — skipping"@)
    } else {
        match confidence {
            Some(c) => if c.lt(Double { bits: double::D050 }) {
                Some(
                    persona + " persona requires confidence ≥0.50 (got "@ + numerals::fixed2(c)
                        + ")"@,
                )
            } else {
                None
            },
            None => None,
        }
    }
}

/// Why a persona turns a setup down.
pub open spec fn persona_rejection(
    persona: Seq<char>,
    edge: Seq<char>,
    confidence: Option<Double>,
) -> Option<Seq<char>> {
    if persona == "conservative"@ || persona == "sniper"@ {
        careful_rejection(persona, edge, confidence)
    } else if persona == "degen"@ && edge == "weak"@ && below(
        confidence,
        double::D050,
        double::D045,
    ) {
        Some("even degen skips genuinely-no-edge weak setups (conf <0.45)"@)
    } else {
        None
    }
}

/// Why a setup is turned down during a losing streak.
pub open spec fn streak_rejection(
    edge: Seq<char>,
    confidence: Option<Double>,
    acc: RecentAccuracy,
) -> Option<Seq<char>> {
    let conf = confidence_or(confidence, double::D050);
    if acc.losing() && !(edge == "strong"@ && conf.ge(Double { bits: double::D060 })) {
        Some(
            "recent filled accuracy "@ + text::decimal(
                numerals::even_percent(acc.wins as nat, acc.filled as nat),
            ) + "% ("@ + text::decimal(acc.wins as nat) + "W/"@ + text::decimal(acc.losses as nat)
                + "L) — only strong edge with conf ≥0.60 allowed; got edge="@ + edge + " conf="@
                + numerals::fixed2(conf),
        )
    } else {
        None
    }
}

/// Why a setup is turned down.
pub open spec fn rejection(
    persona: Seq<char>,
    edge_quality: Option<Seq<char>>,
    confidence: Option<Double>,
    recent_acc: Option<RecentAccuracy>,
) -> Option<Seq<char>> {
    let edge = edge_or_medium(edge_quality);
    match persona_rejection(persona, edge, confidence) {
        Some(reason) => Some(reason),
        None => if persona != "degen"@ && recent_acc is Some {
            streak_rejection(edge, confidence, recent_acc->0)
        } else {
            None
        },
    }
}

fn edge_of(edge_quality: &Option<String>) -> (r: &str)
    ensures
        r@ == edge_or_medium(json::opt_view(*edge_quality)),
{
    match edge_quality {
        Some(e) => e.as_str(),
        None => "medium",
    }
}

fn confidence_of(confidence: Option<Double>, bits: u64) -> (r: Double)
    ensures
        r == confidence_or(confidence, bits),
{
    match confidence {
        Some(c) => c,
        None => Double { bits },
    }
}

fn careful_rejection_of(persona: &str, edge: &str, confidence: Option<Double>) -> (r: Option<
    String,
>)
    ensures
        json::opt_view(r) == careful_rejection(persona@, edge@, confidence),
{
    if text::same(edge, "weak") {
        let mut out = persona.to_owned();
        out.append(" persona requires stronger edge (LLM self-rated weak)");
        return Some(out);
    }
    if text::same(edge, "medium") {
        if text::same(persona, "sniper") {
            return Some("sniper persona skips medium edges".to_owned());
        }
        if confidence_of(confidence, double::ZERO).less(Double { bits: double::D055 }) {
            return Some(
                "conservative + medium edge with confidence <0.55 — skipping".to_owned(),
            );
        }
    }
    if let Some(c) = confidence {
        if c.less(Double { bits: double::D050 }) {
            let mut out = persona.to_owned();
            out.append(" persona requires confidence ≥0.50 (got ");
            out.append(numerals::fixed2_of(c).as_str());
            out.append(")");
            return Some(out);
        }
    }
    None
}

fn streak_rejection_of(edge: &str, confidence: Option<Double>, acc: RecentAccuracy) -> (r: Option<
    String,
>)
    requires
        acc.wf(),
    ensures
        json::opt_view(r) == streak_rejection(edge@, confidence, acc),
{
    let conf = confidence_of(confidence, double::D050);
    if !acc.is_losing() || (text::same(edge, "strong") && conf.at_least(
        Double { bits: double::D060 },
    )) {
        return None;
    }
    let mut out = "recent filled accuracy ".to_owned();
    text::push_decimal(&mut out, numerals::even_percent_of(acc.wins as u64, acc.filled as u64));
    out.append("% (");
    text::push_decimal(&mut out, acc.wins as u64);
    out.append("W/");
    text::push_decimal(&mut out, acc.losses as u64);
    out.append("L) — only strong edge with conf ≥0.60 allowed; got edge=");
    out.append(edge);
    out.append(" conf=");
    out.append(numerals::fixed2_of(conf).as_str());
    Some(out)
}

/// The strategy gate: turns down setups whose edge or confidence does not meet
/// what the persona asks for, or comes during a losing streak. Returns the
/// reason to skip, if there is one.
pub fn should_reject_for_strategy(
    persona: &str,
    edge_quality: &Option<String>,
    confidence: Option<Double>,
    recent_acc: Option<RecentAccuracy>,
) -> (r: Option<String>)
    requires
        recent_acc matches Some(acc) ==> acc.wf(),
    ensures
        json::opt_view(r) == rejection(
            persona@,
            json::opt_view(*edge_quality),
            confidence,
            recent_acc,
        ),
{
    let edge = edge_of(edge_quality);
    let degen: bool = text::same(persona, "degen");
    if text::same(persona, "conservative") || text::same(persona, "sniper") {
        let reason = careful_rejection_of(persona, edge, confidence);
        if reason.is_some() {
            return reason;
        }
    } else if degen && text::same(edge, "weak") && confidence_of(confidence, double::D050).less(
        Double { bits: double::D045 },
    ) {
        return Some("even degen skips genuinely-no-edge weak setups (conf <0.45)".to_owned());
    }
    if !degen {
        if let Some(acc) = recent_acc {
            return streak_rejection_of(edge, confidence, acc);
        }
    }
    None
}

// ── The duplicate-market guard ──────────────────────────────────────────

/// Whether one of the values names the market.
pub open spec fn names_market(list: Option<Seq<JsonView>>, market_id: Seq<char>) -> bool {
    match list {
        Some(items) => exists|i: int|
            0 <= i < items.len() && (#[trigger] items[i]).text_at("market_id"@) == Some(market_id),
        None => false,
    }
}

/// Whether one of the values names the market.
pub fn any_on_market(list: &Option<Vec<Json>>, market_id: &str) -> (r: bool)
    ensures
        r == names_market(opt_trees(*list), market_id@),
{
    match list {
        None => false,
        Some(items) => {
            let ghost all = json::trees(items@);
            let mut i: usize = 0;
            while i < items.len()
                invariant
                    i <= items@.len(),
                    all == json::trees(items@),
                    opt_trees(*list) == Some(all),
                    forall|j: int|
                        0 <= j < i ==> (#[trigger] all[j]).text_at("market_id"@) != Some(
                            market_id@,
                        ),
                decreases items@.len() - i,
            {
                assert(all[i as int] == items@[i as int]@);
                if let Some(id) = items[i].str_at("market_id") {
                    if text::same(id.as_str(), market_id) {
                        assert(all[i as int].text_at("market_id"@) == Some(market_id@));
                        return true;
                    }
                }
                i = i + 1;
            }
            false
        },
    }
}

/// Whether a setup is good enough to trade a market a second time.
pub open spec fn overrides_duplicate(
    edge_quality: Option<Seq<char>>,
    confidence: Option<Double>,
) -> bool {
    edge_or_medium(edge_quality) == "strong"@ && confidence_or(confidence, double::ZERO).ge(
        Double { bits: double::D065 },
    )
}

/// Why a market that is in the book or in recent results is left alone.
pub open spec fn duplicate(
    market_id: Seq<char>,
    open_orders: Option<Seq<JsonView>>,
    recent_results: Option<Seq<JsonView>>,
    edge_quality: Option<Seq<char>>,
    confidence: Option<Double>,
) -> Option<Seq<char>> {
    let has_open = names_market(open_orders, market_id);
    if !has_open && !names_market(recent_results, market_id) {
        None
    } else if overrides_duplicate(edge_quality, confidence) {
        None
    } else {
        Some(
            (if has_open {
                "open order on same market_id"@
            } else {
                "recently traded same market_id"@
            }) + " (edge="@ + edge_or_medium(edge_quality) + " conf="@ + numerals::fixed2(
                confidence_or(confidence, double::ZERO),
            ) + "); not strong enough to justify duplicate exposure"@,
        )
    }
}

/// The duplicate-market guard: a market with an open order or a recent result
/// is left alone unless the edge is strong and the confidence at least 0.65.
/// Returns the reason to skip, if there is one.
pub fn should_skip_for_duplicate_market(
    market_id: &str,
    open_orders: &Option<Vec<Json>>,
    recent_results: &Option<Vec<Json>>,
    edge_quality: &Option<String>,
    confidence: Option<Double>,
) -> (r: Option<String>)
    ensures
        json::opt_view(r) == duplicate(
            market_id@,
            opt_trees(*open_orders),
            opt_trees(*recent_results),
            json::opt_view(*edge_quality),
            confidence,
        ),
{
    let has_open: bool = any_on_market(open_orders, market_id);
    if !has_open && !any_on_market(recent_results, market_id) {
        return None;
    }
    let edge = edge_of(edge_quality);
    let conf = confidence_of(confidence, double::ZERO);
    if text::same(edge, "strong") && conf.at_least(Double { bits: double::D065 }) {
        return None;
    }
    let mut out: String = if has_open {
        "open order on same market_id".to_owned()
    } else {
        "recently traded same market_id".to_owned()
    };
    out.append(" (edge=");
    out.append(edge);
    out.append(" conf=");
    out.append(numerals::fixed2_of(conf).as_str());
    out.append("); not strong enough to justify duplicate exposure");
    Some(out)
}

// ── Ticket sizes ────────────────────────────────────────────────────────

/// The fewest tickets that the server takes.
pub const MIN_TICKETS: u32 = 100;

/// The most tickets that the server takes.
pub const MAX_TICKETS: u32 = 100_000;

/// The part of the balance that a persona commits to a setup, as the bits of
/// a double.
pub open spec fn base_fraction(persona: Seq<char>, edge: Seq<char>) -> u64 {
    if persona == "degen"@ {
        if edge == "strong"@ {
            double::D030
        } else if edge == "medium"@ {
            double::D015
        } else {
            double::D007
        }
    } else if persona == "sniper"@ {
        double::D025
    } else if persona == "contrarian"@ {
        double::D020
    } else if persona == "conservative"@ {
        double::D007
    } else if edge == "strong"@ {
        double::D010
    } else if edge == "medium"@ {
        double::D006
    } else {
        double::D004
    }
}

/// The part of the balance to commit: at most a twentieth during a losing
/// streak.
pub open spec fn fraction(
    persona: Seq<char>,
    edge: Seq<char>,
    recent_acc: Option<RecentAccuracy>,
) -> Double {
    let base = Double { bits: base_fraction(persona, edge) };
    let cap = Double { bits: double::D005 };
    if recent_acc is Some && recent_acc->0.losing() && cap.lt(base) {
        cap
    } else {
        base
    }
}

/// The tickets to commit where the model named none.
pub open spec fn fallback(
    persona: Seq<char>,
    balance: Double,
    edge_quality: Option<Seq<char>>,
    confidence: Option<Double>,
    recent_acc: Option<RecentAccuracy>,
) -> Option<u32> {
    let edge = edge_or_medium(edge_quality);
    let careful = persona == "conservative"@ || persona == "sniper"@;
    let amount = double::share(balance, fraction(persona, edge, recent_acc));
    if careful && (edge != "strong"@ || below(confidence, double::ZERO, double::D055)) {
        None
    } else if amount < MIN_TICKETS {
        None
    } else if amount > MAX_TICKETS {
        Some(MAX_TICKETS)
    } else {
        Some(amount as u32)
    }
}

fn base_fraction_of(persona: &str, edge: &str) -> (r: u64)
    ensures
        r == base_fraction(persona@, edge@),
{
    let strong: bool = text::same(edge, "strong");
    let medium: bool = text::same(edge, "medium");
    if text::same(persona, "degen") {
        if strong {
            double::D030
        } else if medium {
            double::D015
        } else {
            double::D007
        }
    } else if text::same(persona, "sniper") {
        double::D025
    } else if text::same(persona, "contrarian") {
        double::D020
    } else if text::same(persona, "conservative") {
        double::D007
    } else if strong {
        double::D010
    } else if medium {
        double::D006
    } else {
        double::D004
    }
}

/// The tickets to commit where the model named none: a part of the balance
/// that depends on persona and edge, capped during a losing streak. `None`
/// where it is safer to skip than to guess.
pub fn safe_fallback_tickets(
    persona: &str,
    balance: Double,
    edge_quality: &Option<String>,
    confidence: Option<Double>,
    recent_acc: Option<RecentAccuracy>,
) -> (r: Option<u32>)
    ensures
        r == fallback(persona@, balance, json::opt_view(*edge_quality), confidence, recent_acc),
{
    let edge = edge_of(edge_quality);
    if text::same(persona, "conservative") || text::same(persona, "sniper") {
        if !text::same(edge, "strong") {
            return None;
        }
        if confidence_of(confidence, double::ZERO).less(Double { bits: double::D055 }) {
            return None;
        }
    }
    let base = Double { bits: base_fraction_of(persona, edge) };
    let cap = Double { bits: double::D005 };
    let part = match recent_acc {
        Some(acc) => if acc.is_losing() && cap.less(base) {
            cap
        } else {
            base
        },
        None => base,
    };
    let amount: u64 = double::share_of(balance, part);
    if amount < MIN_TICKETS as u64 {
        None
    } else if amount > MAX_TICKETS as u64 {
        Some(MAX_TICKETS)
    } else {
        Some(amount as u32)
    }
}

// ── The limit-price advisory ────────────────────────────────────────────

/// What it takes to buy one side of the book at once: one less the best price
/// of the other side, where there is one. `up` belongs to the best price of
/// `up`, `down` to that of `down`.
#[derive(Clone, Copy, Debug, PartialEq, Eq, Structural)]
pub struct Complements {
    pub up: Option<Double>,
    pub down: Option<Double>,
}

/// A word of advice on a price that is meant to take liquidity.
pub open spec fn taker_advice(
    direction: Seq<char>,
    other: Seq<char>,
    counterparty: Seq<char>,
    limit_price: Double,
    needed: Option<Double>,
) -> Option<Seq<char>> {
    match needed {
        Some(price) => if limit_price.lt(price) {
            Some(
                "fill_intent=taker "@ + direction + " but limit "@ + numerals::fixed2(limit_price)
                    + " < (1-best_"@ + other + ") "@ + numerals::fixed2(price)
                    + " — likely won't take liquidity"@,
            )
        } else {
            None
        },
        None => Some(
            "fill_intent=taker "@ + direction + " but no "@ + counterparty
                + " counterparty in book — taker fill unlikely"@,
        ),
    }
}

/// A word of advice on a limit price, given what the order is meant to do.
pub open spec fn advisory(
    fill_intent: Seq<char>,
    direction: Seq<char>,
    limit_price: Double,
    market_info: JsonView,
    complements: Complements,
) -> Option<Seq<char>> {
    if market_info.get("orderbook"@) is None || fill_intent != "taker"@ {
        None
    } else if direction == "up"@ {
        taker_advice("up"@, "down"@, "DOWN"@, limit_price, complements.down)
    } else if direction == "down"@ {
        taker_advice("down"@, "up"@, "UP"@, limit_price, complements.up)
    } else {
        None
    }
}

fn taker_advice_of(
    direction: &str,
    other: &str,
    counterparty: &str,
    limit_price: Double,
    needed: Option<Double>,
) -> (r: Option<String>)
    ensures
        json::opt_view(r) == taker_advice(
            direction@,
            other@,
            counterparty@,
            limit_price,
            needed,
        ),
{
    let mut out = "fill_intent=taker ".to_owned();
    out.append(direction);
    match needed {
        Some(price) => {
            if !limit_price.less(price) {
                return None;
            }
            out.append(" but limit ");
            out.append(numerals::fixed2_of(limit_price).as_str());
            out.append(" < (1-best_");
            out.append(other);
            out.append(") ");
            out.append(numerals::fixed2_of(price).as_str());
            out.append(" — likely won't take liquidity");
        },
        None => {
            out.append(" but no ");
            out.append(counterparty);
            out.append(" counterparty in book — taker fill unlikely");
        },
    }
    Some(out)
}

/// Compares a limit price with what the order is meant to do. The advice is
/// for the log and never holds an order back. The complements of the best
/// prices are handed in.
pub fn limit_price_advisory(
    fill_intent: &str,
    direction: &str,
    limit_price: Double,
    market_info: &Json,
    complements: Complements,
) -> (r: Option<String>)
    ensures
        json::opt_view(r) == advisory(
            fill_intent@,
            direction@,
            limit_price,
            market_info@,
            complements,
        ),
{
    if market_info.get("orderbook").is_none() || !text::same(fill_intent, "taker") {
        None
    } else if text::same(direction, "up") {
        taker_advice_of("up", "down", "DOWN", limit_price, complements.down)
    } else if text::same(direction, "down") {
        taker_advice_of("down", "up", "UP", limit_price, complements.up)
    } else {
        None
    }
}

// ── What holds of the rules ─────────────────────────────────────────────

/// A careful persona never takes a weak setup, and a sniper no medium one.
pub proof fn careful_personas_want_an_edge(
    persona: Seq<char>,
    edge_quality: Option<Seq<char>>,
    confidence: Option<Double>,
    recent_acc: Option<RecentAccuracy>,
)
    requires
        persona == "conservative"@ || persona == "sniper"@,
    ensures
        edge_or_medium(edge_quality) == "weak"@ ==> rejection(
            persona,
            edge_quality,
            confidence,
            recent_acc,
        ) is Some,
        persona == "sniper"@ && edge_or_medium(edge_quality) == "medium"@ ==> rejection(
            persona,
            edge_quality,
            confidence,
            recent_acc,
        ) is Some,
        edge_or_medium(edge_quality) == "medium"@ && below(confidence, double::ZERO, double::D055)
            ==> rejection(persona, edge_quality, confidence, recent_acc) is Some,
        confidence matches Some(c) && c.lt(Double { bits: double::D050 }) ==> rejection(
            persona,
            edge_quality,
            confidence,
            recent_acc,
        ) is Some,
{
}

/// During a losing streak nobody but a degen trades anything but a strong
/// setup with a confidence of at least 0.60.
pub proof fn losing_streak_raises_the_bar(
    persona: Seq<char>,
    edge_quality: Option<Seq<char>>,
    confidence: Option<Double>,
    acc: RecentAccuracy,
)
    requires
        acc.losing(),
        persona != "degen"@,
        rejection(persona, edge_quality, confidence, Some(acc)) is None,
    ensures
        edge_or_medium(edge_quality) == "strong"@,
        confidence_or(confidence, double::D050).ge(Double { bits: double::D060 }),
{
}

/// A degen is not held back by recent results.
pub proof fn degen_ignores_recent_results(
    edge_quality: Option<Seq<char>>,
    confidence: Option<Double>,
    recent_acc: Option<RecentAccuracy>,
)
    ensures
        rejection("degen"@, edge_quality, confidence, recent_acc) == rejection(
            "degen"@,
            edge_quality,
            confidence,
            None,
        ),
{
}

/// A setup with a strong edge and a confidence of at least 0.60 passes the
/// gate, whatever the persona and the recent results.
pub proof fn strong_and_sure_passes(
    persona: Seq<char>,
    confidence: Double,
    recent_acc: Option<RecentAccuracy>,
)
    requires
        confidence.ge(Double { bits: double::D060 }),
    ensures
        rejection(persona, Some("strong"@), Some(confidence), recent_acc) is None,
{
    reveal_strlit("strong");
    reveal_strlit("weak");
    reveal_strlit("medium");
    assert("strong"@[0] == 's' && "weak"@[0] == 'w' && "medium"@[0] == 'm');
    double::lemma_order(Double { bits: double::D050 }, Double { bits: double::D060 });
}

/// The duplicate guard concerns markets in the book or in recent results
/// only, and there lets nothing pass but a strong edge with a confidence of
/// at least 0.65.
pub proof fn duplicates_need_a_strong_setup(
    market_id: Seq<char>,
    open_orders: Option<Seq<JsonView>>,
    recent_results: Option<Seq<JsonView>>,
    edge_quality: Option<Seq<char>>,
    confidence: Option<Double>,
)
    ensures
        duplicate(market_id, open_orders, recent_results, edge_quality, confidence) is None <==> (
        !names_market(open_orders, market_id) && !names_market(recent_results, market_id))
            || overrides_duplicate(edge_quality, confidence),
{
}

/// Tickets that were not named by the model are within the server's bounds.
pub proof fn fallback_is_in_bounds(
    persona: Seq<char>,
    balance: Double,
    edge_quality: Option<Seq<char>>,
    confidence: Option<Double>,
    recent_acc: Option<RecentAccuracy>,
)
    ensures
        fallback(persona, balance, edge_quality, confidence, recent_acc) matches Some(t)
            ==> MIN_TICKETS <= t <= MAX_TICKETS,
{
}

/// A careful persona is sized only on a strong edge with a confidence of at
/// least 0.55.
pub proof fn careful_fallback_is_strong(
    persona: Seq<char>,
    balance: Double,
    edge_quality: Option<Seq<char>>,
    confidence: Option<Double>,
    recent_acc: Option<RecentAccuracy>,
)
    requires
        persona == "conservative"@ || persona == "sniper"@,
        fallback(persona, balance, edge_quality, confidence, recent_acc) is Some,
    ensures
        edge_or_medium(edge_quality) == "strong"@,
        !below(confidence, double::ZERO, double::D055),
{
}

/// During a losing streak no more than a twentieth of the balance is
/// committed.
pub proof fn losing_streak_caps_the_fraction(
    persona: Seq<char>,
    edge: Seq<char>,
    acc: RecentAccuracy,
)
    requires
        acc.losing(),
    ensures
        (Double { bits: double::D005 }).ge(fraction(persona, edge, Some(acc))),
{
    let base = Double { bits: base_fraction(persona, edge) };
    assert(!base.is_nan());
}

/// Tickets that were not named by the model never exceed the balance.
pub proof fn fallback_is_affordable(
    persona: Seq<char>,
    balance: Double,
    edge_quality: Option<Seq<char>>,
    confidence: Option<Double>,
    recent_acc: Option<RecentAccuracy>,
)
    ensures
        fallback(persona, balance, edge_quality, confidence, recent_acc) matches Some(t)
            ==> !double::exceeds(t as nat, balance),
{
    let part = fraction(persona, edge_or_medium(edge_quality), recent_acc);
    double::lemma_small_fractions(part);
    double::share_is_a_part(balance, part);
    let amount = double::share(balance, part);
    if let Some(t) = fallback(persona, balance, edge_quality, confidence, recent_acc) {
        assert(t <= amount);
        assert(t * double::two(1074) <= amount * double::two(1074)) by (nonlinear_arith)
            requires
                t <= amount,
        ;
    }
}

/// Recent results hold nothing back outside of a losing streak: where fewer
/// than five orders were filled, or at least two in five of them won, a setup
/// is decided on as it is without any record.
pub proof fn only_a_losing_streak_holds_back(
    persona: Seq<char>,
    edge_quality: Option<Seq<char>>,
    confidence: Option<Double>,
    acc: RecentAccuracy,
)
    requires
        acc.filled < 5 || 5 * acc.wins >= 2 * acc.filled,
    ensures
        rejection(persona, edge_quality, confidence, Some(acc)) == rejection(
            persona,
            edge_quality,
            confidence,
            None,
        ),
{
}

/// Without a record, only a careful persona or a degen turns a setup down, and
/// each of them only for its own reasons: a careful one for a weak edge, for a
/// medium one (a sniper always, the other below a confidence of 0.55, which a
/// missing one is) and for a confidence below 0.50, a degen for a weak edge
/// with a confidence below 0.45. A missing edge counts as a medium one.
pub proof fn personas_turn_down_no_more(
    persona: Seq<char>,
    edge_quality: Option<Seq<char>>,
    confidence: Option<Double>,
)
    ensures
        ({
            let gate = rejection(persona, edge_quality, confidence, None);
            let medium = edge_quality is None || edge_quality == Some("medium"@);
            let weak = edge_quality == Some("weak"@);
            &&& persona == "sniper"@ ==> (gate is Some <==> weak || medium || (
            confidence matches Some(c) && c.lt(Double { bits: double::D050 })))
            &&& persona == "conservative"@ ==> (gate is Some <==> weak || (medium && (
            confidence is None || confidence->0.lt(Double { bits: double::D055 }))) || (
            confidence matches Some(c) && c.lt(Double { bits: double::D050 })))
            &&& persona == "degen"@ ==> (gate is Some <==> weak && (confidence matches Some(c)
                && c.lt(Double { bits: double::D045 })))
            &&& persona != "sniper"@ && persona != "conservative"@ && persona != "degen"@
                ==> gate is None
        }),
{
    lemma_names_differ();
    lemma_thresholds_in_order();
}

proof fn lemma_names_differ()
    ensures
        "strong"@ != "medium"@,
        "strong"@ != "weak"@,
        "medium"@ != "weak"@,
        "sniper"@ != "conservative"@,
        "sniper"@ != "degen"@,
        "sniper"@ != "contrarian"@,
        "conservative"@ != "degen"@,
        "conservative"@ != "contrarian"@,
        "degen"@ != "contrarian"@,
{
    reveal_strlit("strong");
    reveal_strlit("medium");
    reveal_strlit("weak");
    reveal_strlit("sniper");
    reveal_strlit("conservative");
    reveal_strlit("contrarian");
    reveal_strlit("degen");
    assert("strong"@[0] == 's' && "medium"@[0] == 'm');
    assert("weak"@.len() == 4 && "strong"@.len() == 6 && "medium"@.len() == 6);
    assert("sniper"@.len() == 6 && "degen"@.len() == 5);
    assert("conservative"@.len() == 12 && "contrarian"@.len() == 10);
}

proof fn lemma_thresholds_in_order()
    ensures
        !(Double { bits: double::ZERO }).is_nan(),
        (Double { bits: double::ZERO }).lt(Double { bits: double::D050 }),
        (Double { bits: double::ZERO }).lt(Double { bits: double::D055 }),
        (Double { bits: double::ZERO }).lt(Double { bits: double::D060 }),
        (Double { bits: double::ZERO }).lt(Double { bits: double::D065 }),
        (Double { bits: double::D045 }).lt(Double { bits: double::D050 }),
        (Double { bits: double::D050 }).lt(Double { bits: double::D055 }),
        (Double { bits: double::D050 }).lt(Double { bits: double::D060 }),
{
    let d = |bits: u64| Double { bits };
    double::lemma_order(d(double::ZERO), d(double::D050));
    double::lemma_order(d(double::ZERO), d(double::D055));
    double::lemma_order(d(double::ZERO), d(double::D060));
    double::lemma_order(d(double::ZERO), d(double::D065));
    double::lemma_order(d(double::D045), d(double::D050));
    double::lemma_order(d(double::D050), d(double::D055));
    double::lemma_order(d(double::D050), d(double::D060));
}

/// A setup is turned down exactly where the persona does so without a
/// record, or where someone who is no degen is on a losing streak (five orders
/// or more, less than two in five won) and the setup is anything but a strong
/// edge with a confidence of at least 0.60. The persona's reason goes first.
pub proof fn all_else_passes(
    persona: Seq<char>,
    edge_quality: Option<Seq<char>>,
    confidence: Option<Double>,
    acc: RecentAccuracy,
)
    ensures
        ({
            let gate = rejection(persona, edge_quality, confidence, Some(acc));
            let alone = rejection(persona, edge_quality, confidence, None);
            let streak = acc.filled >= 5 && 5 * acc.wins < 2 * acc.filled;
            let good = edge_quality == Some("strong"@) && (confidence matches Some(c) && c.ge(
                Double { bits: double::D060 },
            ));
            &&& alone is Some ==> gate == alone
            &&& alone is None ==> (gate is Some <==> persona != "degen"@ && streak && !good)
        }),
{
    lemma_names_differ();
    lemma_thresholds_in_order();
}

/// The reason for which a setup is turned down says what it went by: the
/// persona, and on a losing streak the wins, the losses, the edge and the
/// confidence, one half where it is missing.
pub proof fn reasons_say_why(
    persona: Seq<char>,
    edge_quality: Option<Seq<char>>,
    confidence: Option<Double>,
    acc: RecentAccuracy,
)
    requires
        rejection(persona, edge_quality, confidence, Some(acc)) is Some,
    ensures
        ({
            let reason = rejection(persona, edge_quality, confidence, Some(acc))->0;
            let alone = rejection(persona, edge_quality, confidence, None);
            let weak = edge_quality == Some("weak"@);
            let careful = persona == "conservative"@ || persona == "sniper"@;
            &&& careful && weak ==> reason == persona
                + " persona requires stronger edge (LLM self-rated weak)"@
            &&& persona == "sniper"@ && (edge_quality is None || edge_quality == Some("medium"@))
                ==> reason == "sniper persona skips medium edges"@
            &&& persona == "conservative"@ && (edge_quality is None || edge_quality == Some(
                "medium"@,
            )) && (confidence is None || confidence->0.lt(Double { bits: double::D055 })) ==> reason
                == "conservative + medium edge with confidence <0.55 — skipping"@
            &&& careful && edge_quality is Some && !weak && edge_quality != Some("medium"@)
                && confidence is Some && confidence->0.lt(Double { bits: double::D050 }) ==> reason
                == persona + " persona requires confidence ≥0.50 (got "@ + numerals::fixed2(
                confidence->0,
            ) + ")"@
            &&& persona == "degen"@ ==> reason
                == "even degen skips genuinely-no-edge weak setups (conf <0.45)"@
            &&& alone is None ==> reason == "recent filled accuracy "@ + text::decimal(
                numerals::even_percent(acc.wins as nat, acc.filled as nat),
            ) + "% ("@ + text::decimal(acc.wins as nat) + "W/"@ + text::decimal(acc.losses as nat)
                + "L) — only strong edge with conf ≥0.60 allowed; got edge="@ + (
            match edge_quality {
                Some(e) => e,
                None => "medium"@,
            }) + " conf="@ + numerals::fixed2(
                match confidence {
                    Some(c) => c,
                    None => Double { bits: double::D050 },
                },
            )
        }),
{
    lemma_names_differ();
    lemma_thresholds_in_order();
}

/// Whether a result is that of a filled order with the given outcome.
pub open spec fn resolved(result: JsonView, won: bool) -> bool {
    result.signed_or("tickets_filled"@, 0) >= 1 && result.boolean_at("won"@) == Some(won)
}

/// The record counts every filled order that was won or lost, and no other:
/// a list of results has as many wins, and as many losses, as its two parts
/// have together, one result counts once where some of its tickets were filled
/// and its outcome is known, and there is no record where nothing counts.
pub proof fn record_counts_filled_orders(front: Seq<JsonView>, result: JsonView, back: Seq<JsonView>)
    ensures
        outcomes(front + back, true) == outcomes(front, true) + outcomes(back, true),
        outcomes(front + back, false) == outcomes(front, false) + outcomes(back, false),
        outcomes(seq![result], true) == (if resolved(result, true) {
            1nat
        } else {
            0nat
        }),
        outcomes(seq![result], false) == (if resolved(result, false) {
            1nat
        } else {
            0nat
        }),
        outcomes(Seq::empty(), true) == 0,
        outcomes(Seq::empty(), false) == 0,
        accuracy(Some(front)) is None <==> outcomes(front, true) == 0 && outcomes(front, false)
            == 0,
        front.len() <= usize::MAX ==> (accuracy(Some(front)) matches Some(acc) ==> acc.wins
            == outcomes(front, true) && acc.losses == outcomes(front, false) && acc.filled
            == acc.wins + acc.losses),
        accuracy(None) is None,
{
    lemma_outcomes_add(front, back, true);
    lemma_outcomes_add(front, back, false);
    lemma_outcomes_bounded(front);
    assert(seq![result].drop_last() =~= Seq::<JsonView>::empty());
    assert(seq![result].last() == result);
    assert(outcomes(Seq::empty(), true) == 0);
    assert(outcomes(Seq::empty(), false) == 0);
}

proof fn lemma_outcomes_bounded(results: Seq<JsonView>)
    ensures
        outcomes(results, true) + outcomes(results, false) <= results.len(),
    decreases results.len(),
{
    if results.len() > 0 {
        lemma_outcomes_bounded(results.drop_last());
    }
}

proof fn lemma_outcomes_add(front: Seq<JsonView>, back: Seq<JsonView>, won: bool)
    ensures
        outcomes(front + back, won) == outcomes(front, won) + outcomes(back, won),
    decreases back.len(),
{
    if back.len() == 0 {
        assert(front + back =~= front);
    } else {
        lemma_outcomes_add(front, back.drop_last(), won);
        assert((front + back).drop_last() =~= front + back.drop_last());
        assert((front + back).last() == back.last());
    }
}

/// The duplicate guard in full: a market that neither an open order nor a
/// recent result names is free, and one that is named is left alone unless the
/// edge is rated strong and the confidence is at least 0.65. An open order is
/// the reason that is given first.
pub proof fn duplicate_guard_decides(
    market_id: Seq<char>,
    open_orders: Option<Seq<JsonView>>,
    recent_results: Option<Seq<JsonView>>,
    edge_quality: Option<Seq<char>>,
    confidence: Option<Double>,
)
    ensures
        ({
            let guard = duplicate(market_id, open_orders, recent_results, edge_quality, confidence);
            let open = open_orders is Some && exists|i: int|
                0 <= i < open_orders->0.len() && (#[trigger] open_orders->0[i]).text_at(
                    "market_id"@,
                ) == Some(market_id);
            let recent = recent_results is Some && exists|i: int|
                0 <= i < recent_results->0.len() && (#[trigger] recent_results->0[i]).text_at(
                    "market_id"@,
                ) == Some(market_id);
            let good = edge_quality == Some("strong"@) && (confidence matches Some(c) && c.ge(
                Double { bits: double::D065 },
            ));
            let rest = " (edge="@ + (match edge_quality {
                Some(e) => e,
                None => "medium"@,
            }) + " conf="@ + numerals::fixed2(
                match confidence {
                    Some(c) => c,
                    None => Double { bits: double::ZERO },
                },
            ) + "); not strong enough to justify duplicate exposure"@;
            &&& guard is Some <==> (open || recent) && !good
            &&& open && !good ==> guard == Some("open order on same market_id"@ + rest)
            &&& !open && recent && !good ==> guard == Some("recently traded same market_id"@ + rest)
        }),
{
    lemma_names_differ();
    lemma_thresholds_in_order();
    if let Some(reason) = duplicate(
        market_id,
        open_orders,
        recent_results,
        edge_quality,
        confidence,
    ) {
        let head = if names_market(open_orders, market_id) {
            "open order on same market_id"@
        } else {
            "recently traded same market_id"@
        };
        let edge = edge_or_medium(edge_quality);
        let conf = numerals::fixed2(confidence_or(confidence, double::ZERO));
        assert(reason =~= head + (" (edge="@ + edge + " conf="@ + conf
            + "); not strong enough to justify duplicate exposure"@));
    }
}

/// The part of the balance that each persona commits, in hundredths: a degen
/// 30, 15 or 7 by the edge, a sniper 25, a contrarian 20, a conservative 7,
/// and everybody else 10, 6 or 4 by the edge.
pub open spec fn committed_hundredths(persona: Seq<char>, edge: Seq<char>) -> nat {
    let by_edge = |strong: nat, medium: nat, other: nat|
        if edge == "strong"@ {
            strong
        } else if edge == "medium"@ {
            medium
        } else {
            other
        };
    if persona == "degen"@ {
        by_edge(30, 15, 7)
    } else if persona == "sniper"@ {
        25
    } else if persona == "contrarian"@ {
        20
    } else if persona == "conservative"@ {
        7
    } else {
        by_edge(10, 6, 4)
    }
}

proof fn lemma_base_fraction(persona: Seq<char>, edge: Seq<char>)
    ensures
        double::is_hundredths(base_fraction(persona, edge), committed_hundredths(persona, edge)),
        base_fraction(persona, edge) > double::D005 <==> committed_hundredths(persona, edge) > 5,
        base_fraction(persona, edge) <= double::D030,
{
    double::thresholds_are_hundredths();
    let n = committed_hundredths(persona, edge);
    let bits = base_fraction(persona, edge);
    assert(n == 30 && bits == double::D030 || n == 15 && bits == double::D015 || n == 7 && bits
        == double::D007 || n == 25 && bits == double::D025 || n == 20 && bits == double::D020 || n
        == 10 && bits == double::D010 || n == 6 && bits == double::D006 || n == 4 && bits
        == double::D004);
}

/// The part of the balance to commit is the double nearest to the hundredths
/// of the persona, and on a losing streak to five hundredths at most.
pub proof fn committed_parts_are_hundredths(
    persona: Seq<char>,
    edge: Seq<char>,
    acc: RecentAccuracy,
)
    ensures
        double::is_hundredths(fraction(persona, edge, None).bits, committed_hundredths(
            persona,
            edge,
        )),
        ({
            let n = committed_hundredths(persona, edge);
            let streak = acc.filled >= 5 && 5 * acc.wins < 2 * acc.filled;
            double::is_hundredths(
                fraction(persona, edge, Some(acc)).bits,
                if streak && n > 5 {
                    5
                } else {
                    n
                },
            )
        }),
{
    lemma_base_fraction(persona, edge);
    let base = Double { bits: base_fraction(persona, edge) };
    double::order_follows_the_bits(Double { bits: double::D005 }, base);
    assert(double::is_hundredths(double::D005, 5)) by {
        double::thresholds_are_hundredths();
    }
}

/// Tickets that the model did not name are the whole part of the balance's
/// part, 100,000 at most. None are committed where that is below 100, and
/// none by a careful persona without a strong edge and a confidence of at
/// least 0.55.
pub proof fn fallback_is_a_part_of_the_balance(
    persona: Seq<char>,
    balance: Double,
    edge_quality: Option<Seq<char>>,
    confidence: Option<Double>,
    recent_acc: Option<RecentAccuracy>,
)
    ensures
        ({
            let edge = match edge_quality {
                Some(e) => e,
                None => "medium"@,
            };
            let tickets = fallback(persona, balance, edge_quality, confidence, recent_acc);
            let amount = double::share(balance, fraction(persona, edge, recent_acc));
            let held = (persona == "conservative"@ || persona == "sniper"@) && !(edge_quality
                == Some("strong"@) && confidence is Some && !confidence->0.lt(
                Double { bits: double::D055 },
            ));
            &&& tickets is None <==> held || amount < 100
            &&& tickets is Some ==> tickets->0 as nat == (if amount > 100_000 {
                100_000
            } else {
                amount
            })
        }),
{
    lemma_names_differ();
    lemma_thresholds_in_order();
}

/// A more confident setup with a better edge is never turned down where a
/// lesser one passes: what passes with one confidence passes with every
/// higher one.
pub proof fn more_confidence_never_hurts(
    persona: Seq<char>,
    edge_quality: Option<Seq<char>>,
    lower: Double,
    higher: Double,
    recent_acc: Option<RecentAccuracy>,
)
    requires
        higher.ge(lower),
        rejection(persona, edge_quality, Some(lower), recent_acc) is None,
    ensures
        rejection(persona, edge_quality, Some(higher), recent_acc) is None,
{
}

/// Advice is given on an order that is meant to take liquidity, on a market
/// with a book: that there is no counterparty, where the other side has no
/// price, or else that the limit is below one less that price. Nothing else is
/// advised on.
pub proof fn advice_is_for_takers(
    fill_intent: Seq<char>,
    direction: Seq<char>,
    limit_price: Double,
    market_info: JsonView,
    complements: Complements,
)
    ensures
        ({
            let advice = advisory(fill_intent, direction, limit_price, market_info, complements);
            let taker = fill_intent == "taker"@ && market_info.get("orderbook"@) is Some;
            let (needed, other, side) = if direction == "up"@ {
                (complements.down, "down"@, "DOWN"@)
            } else {
                (complements.up, "up"@, "UP"@)
            };
            let sided = direction == "up"@ || direction == "down"@;
            &&& advice is Some <==> taker && sided && (needed is None || limit_price.lt(needed->0))
            &&& advice is Some && needed is None ==> advice == Some(
                "fill_intent=taker "@ + direction + " but no "@ + side
                    + " counterparty in book — taker fill unlikely"@,
            )
            &&& advice is Some && needed is Some ==> advice == Some(
                "fill_intent=taker "@ + direction + " but limit "@ + numerals::fixed2(limit_price)
                    + " < (1-best_"@ + other + ") "@ + numerals::fixed2(needed->0)
                    + " — likely won't take liquidity"@,
            )
        }),
{
    reveal_strlit("up");
    reveal_strlit("down");
}

} // verus!
