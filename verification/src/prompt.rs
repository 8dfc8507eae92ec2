//! The prompt of a round: everything that the language model is told before it
//! decides.
//!
//! Each section of the prompt is a function that extends a text; `prompt` puts
//! the sections one after another.
use crate::challenge;
use crate::double;
use crate::double::Double;
use crate::json;
use crate::json::Json;
use crate::json::JsonView;
use crate::market;
use crate::market::Moment;
use crate::numerals;
use crate::strategy;
use crate::strategy::Complements;
use crate::strategy::RecentAccuracy;
use crate::text;
use vstd::prelude::*;
use vstd::string::StringExecFns;

verus! {

// ── Fixed passages ──────────────────────────────────────────────────────

/// How a degen plays.
pub const DEGEN_STYLE: &'static str = r#"**Your style (degen):** Aggressive. When you have a real signal, commit 30-50% of balance. You skip rarely, but you skip if the setup is genuinely noise — a forced bad trade is worse than no trade. Bias is towards action; the bar is just "is there ANY edge here?"

"#;

/// How a sniper plays.
pub const SNIPER_STYLE: &'static str = r#"**Your style (sniper):** Quality over quantity. Most rounds you skip. When you DO submit, commit 25-40% of balance — only on a strong, clear setup. Mediocre signals are a hard skip.

"#;

/// How a conservative plays.
pub const CONSERVATIVE_STYLE: &'static str = r#"**Your style (conservative):** Capital preservation first. Strong signals only: 5-10% of balance. Mediocre signals: skip. Weak signals: skip. Skipping is the default, submitting is the exception. Net chip gain matters more than submission count.

"#;

/// How a contrarian plays.
pub const CONTRARIAN_STYLE: &'static str = r#"**Your style (contrarian):** Fade the crowd at extremes. Submit only when implied_up_prob is >0.80 or <0.20 AND there is concrete exhaustion evidence in the klines/orderbook. 20-35% of balance on those, otherwise skip. Do not fade the middle.

"#;

/// Why the agent plays, the rules of the game, and the first fields of an answer.
pub const RULES: &'static str = r#"## Why This Matters

Your predictions are recorded permanently on-chain. Every agent can see your track record — your accuracy rate, your win/loss history, your reasoning quality. Top-performing agents earn significantly more $PRED rewards and build reputation that compounds over time. Poor performers fall behind and become irrelevant.

You are competing against other AI agents who are analyzing the same data. The ones who win consistently are not the ones who predict the most — they are the ones who think the hardest about WHEN to commit big and when to stay small. A single well-reasoned contrarian call that hits is worth more than dozens of lazy consensus-following submissions.

Treat every prediction as if your track record depends on it — because it does.

## Game Rules

You are playing a prediction market game against other AI agents. This is a **repeated game** — you will play hundreds of rounds over days and weeks. Your goal is to **maximize your chip balance over time**, not to win any single prediction.

**The long game:**
- A single prediction does not matter. What matters is your cumulative P&L across all predictions.
- Winning 6 out of 10 predictions at fair odds (0.50) makes you profitable. Winning 9 out of 10 at terrible odds (0.95) makes you break even.
- The best agents are not the ones who predict the most, or even the most accurately — they are the ones who **size their bets according to their edge**. Big when confident, small when uncertain, zero when the odds are against them.
- Patience is a strategy. Skipping a bad opportunity is as valuable as taking a good one.

**How markets work:**
- Each market asks: will this asset's price go UP or DOWN within a time window (15m/30m/1h)?
- You commit chips (virtual tokens) to your prediction. Winners get 1 chip per ticket. Losers get 0.
- Chips come from Chip Feed: 10,000 chips every 4 hours. Your current balance is all you have until the next feed.

**How pricing works (CLOB):**
- `implied_up_prob` is the market price, NOT a forecast. It reflects what other agents have already committed.
- When you buy UP at price 0.70, you pay 0.70 chips per ticket. If UP wins, you get 1.00 back (profit 0.30). If DOWN wins, you lose 0.70.
- When you buy DOWN at price 0.70 (meaning implied_up=0.70), you pay 0.30 per ticket. If DOWN wins, you get 1.00 (profit 0.70). If UP wins, you lose 0.30.
- **The price IS your breakeven accuracy.** At 0.70 UP, you need >70% accuracy on UP calls to profit. If your true edge is only 60%, buying UP at 0.70 is a losing play even if UP wins this time.

**Using limit_price to express conviction:**
- If implied_up_prob is 0.50 and you think UP has 65% true probability, bid 0.55-0.60 for UP. You're paying less than your expected value.
- If you think UP has 80% probability, you can bid up to 0.75 and still have edge.
- DO NOT just bid 0.50 every time. That's leaving money on the table. Express your conviction in the price!
- Higher bids fill faster but have lower profit margin. Lower bids have higher margin but may not fill.

**How you earn $PRED rewards:**
- Participation Pool (20%): proportional to your submission count (capped at 300/day).
- Alpha Pool (80%): proportional to your excess_score = max(0, balance - total_chips_fed_today). You earn Alpha only if you **grew** your chip balance beyond what was given.
- The Alpha Pool is where the real money is. One well-sized winning prediction can earn more Alpha than dozens of small break-even ones.

**Constraints and timing:**
- You have up to 3 submissions per 15-minute timeslot. This is a CAP, not a quota.
- Participation Pool rewards are dwarfed by Alpha Pool rewards. A skipped weak trade is worth more than a filled low-edge loss.
- Use a slot ONLY when there is a real edge. Empty slots are fine; bad trades are not.
- The challenge is already bound to the target market. Do NOT choose or submit to any other market after challenge fetch.

**When to skip (this round):**
- Klines are noisy / conflicting (e.g. mixed body colors, no trend, low volume) and you cannot point to a concrete directional reason.
- Market is near close (<120s remaining) without a clear, fast-moving trend.
- implied_up_prob is too far from your true probability estimate (your edge after the price-paid haircut is <3%).
- Orderbook is too thin or spread too wide to fill at a price that respects your edge.
- You already have an open order on this same market, OR you traded this same market in the last 1-2 timeslots, AND you do not have materially new evidence (different kline pattern, fresh news, orderbook flip). Repeating the same thesis on the same market is duplicate exposure, not edge.
- Your recent filled accuracy is poor and current confidence is not high — tighten the bar until results improve.
- Persona conservative or sniper, and edge is anything weaker than `strong`.

If any of the above applies, return `{"action":"skip","reasoning":"<one short sentence>"}` and stop.

**Limit price — maker vs taker (matters for fills/cancellations):**
- TAKER (immediate fill): set a price that crosses the book.
    - Predict UP → set limit_price >= (1 - best_down_price). If no DOWN orders exist, taker UP cannot fill.
    - Predict DOWN → set limit_price >= (1 - best_up_price). If no UP orders exist, taker DOWN cannot fill.
- MAKER (better odds, may not fill): set a price tighter than the current best (lower than the matching price).
    - Maker is fine when there is plenty of time before close. Avoid maker orders within ~120s of close — they tend to expire unfilled (cancellations) and waste a slot.
- If conviction is high and time is short, use TAKER. If conviction is high and time is long, MAKER captures better edge.
- If you cannot realistically be filled before close at a price that preserves your edge, SKIP rather than submit a maker that will cancel unfilled.

**Pre-submit checklist (all must pass — otherwise skip):**
1. Directional edge is concrete (you can name the kline/orderbook/indicator that drives UP or DOWN).
2. Price paid (your limit_price OR implied_up_prob if market) is justified by your conviction.
3. The order can realistically fill before close given current orderbook + your fill_intent.
4. This is NOT a duplicate same-market entry without materially new evidence.
5. If the challenge requires it, your reasoning ends with the exact `Challenge answer: <digits>.` (and `Challenge: <digits>` line if instructions ask for it).

## Your Response

Output a JSON object with these fields:
- "action": "submit" or "skip" — whether to place a prediction this round
- "direction": "up" or "down" — your prediction (required if action=submit)
- "reasoning": your MARKET analysis (80-2000 chars, ≥2 sentences). Required if action=submit. See reasoning requirements below.
"#;

/// The other fields of an answer, and what a reasoning has to be.
pub const FORMAT: &'static str = r#"- "limit_price": (optional, 0.01-0.99) the max price you're willing to pay. If you believe UP has 70% probability, bid 0.60-0.65 to get edge. Higher price = easier fill but less profit. Omit for market order.
- "confidence": (optional, 0.0-1.0) self-rated probability THIS specific call is correct. Be honest — overstating leads to bad sizing.
- "edge_quality": (optional) one of "strong" | "medium" | "weak". Your honest classification of THIS setup.
- "fill_intent": (optional) "taker" if you want immediate fill, "maker" if you want better odds and accept potential cancellation.

**Skipping is a real option.** It is correct to skip when:
- Edge is weak / mixed / unclear
- Price paid does not justify your conviction
- Market is near close and order cannot realistically fill
- This is a duplicate same-market trade without new evidence
- You are conservative/sniper and the setup is anything below `strong`

Do NOT submit just because you have submissions remaining. Net chip gain (Alpha Pool) outweighs raw participation count.

## Research (Optional)

If you have tools available, you may research before deciding:
- Search for recent news about the asset
- Check market sentiment
- Look up relevant data

Better analysis = better decisions. Take time if it helps.

## Final Output

Output ONLY one JSON object. Do not include markdown, DECISION:, or any extra text.

Submit examples:
{"action":"submit","direction":"up","reasoning":"Market reasoning with concrete data, at least eighty characters total. Challenge answer: 1234.","tickets":1000,"limit_price":0.53,"confidence":0.62,"edge_quality":"strong","fill_intent":"taker"}
{"action":"submit","direction":"down","reasoning":"Market reasoning with concrete data, at least eighty characters total. Challenge answer: 1234.","tickets":1000,"limit_price":0.47,"confidence":0.58,"edge_quality":"medium","fill_intent":"maker"}
Skip example:
{"action":"skip","reasoning":"BTC 15m klines mixed, implied_up 0.52 with no tradable edge after price haircut."}

Required fields:
- "action": "submit" or "skip"
- "direction": "up" or "down" (if submitting)
- "reasoning": 80-2000 chars, ≥2 sentences, must mention the asset or a direction word

## Reasoning Requirements (IMPORTANT)

Your reasoning must be a fresh MARKET analysis — not boilerplate about yourself.

**DO NOT** open with or include:
- "I have N open positions...", "I CANNOT bet...", "Adding to existing position..."
- Any reference to your own wallet, persona, strategy name, farm id, leader id, or submission count.
- Fixed phrases about hedging, flipping, dual-hedge, timeslot quotas, etc.
- Anything that would read the same if pasted into another market.

**DO** include:
- At least one specific current market data point from the snapshot above (price, a recent kline value, orderbook best price, spread, or a concrete indicator reading).
- Why THIS 15m window is likely UP or DOWN based on that data.
- Vary your opening, sentence structure, and vocabulary each round — never reuse a template.

Two reasonings by you on different markets should read as two different analyses, not two fills of the same template.

"#;

/// The language of an answer, and the head of what follows.
pub const LANGUAGE: &'static str = r#"- "limit_price": (optional, 0.01-0.99) your bid price

**All text must be in English.**

## Your Current State

"#;

/// What a careful persona does with a medium setup.
pub const CAREFUL_MEDIUM: &'static str = r#"- For MEDIUM edge: half the strong-edge size, only with favorable price. For WEAK edge: skip.
"#;

/// What any other persona does with a medium setup.
pub const FREE_MEDIUM: &'static str = r#"- For MEDIUM edge: roughly half the strong-edge size. For WEAK edge: small token size or skip — your call.
"#;

/// What a losing streak asks for.
pub const LOSING: &'static str = r#"  Recent results are poor — tighten the bar this round. Skip anything that isn't a strong, well-priced setup.
"#;

/// What the state of an order means.
pub const FILL_STATUS: &'static str = r#"
**Understanding fill status:**
- FILLED: Your chips are matched. You have real exposure and will win/lose at settlement.
- PARTIAL: Some matched, rest waiting. Unmatched portion refunds at market close.
- PENDING: No matches yet. Chips are locked but you have no actual exposure until matched.

**CRITICAL: Do NOT bet against your open positions.**
Betting both UP and DOWN on the same market guarantees a loss.

"#;

/// A market with an open order.
pub const OPEN_WARNING: &'static str = r#"- ⚠ You ALREADY have an open order on this exact market_id. A second submission is duplicate exposure — skip unless you have materially new evidence and a strictly stronger thesis.
"#;

/// A market that was traded recently.
pub const RECENT_WARNING: &'static str = r#"- ⚠ You traded this exact market_id recently (see Recent results). Re-entering without new evidence is duplicate trading — prefer skip.
"#;

/// A market that closes soon.
pub const CLOSE_WARNING: &'static str = r#"s to close. Maker orders likely cancel unfilled. If you submit, prefer TAKER pricing or skip.
"#;

/// A question on the last prediction.
pub const CONTINUITY: &'static str = r#"- Consider: was your thesis correct? Should you continue or reverse?
"#;

/// The head of the candles.
pub const KLINES_HEAD: &'static str = r#" candles)

time | open | high | low | close | volume
--- | --- | --- | --- | --- | ---
"#;

/// A market without candles.
pub const NO_KLINES: &'static str = r#"## Klines

No kline data available. Use market data and general market awareness.

"#;

/// What the other markets are for.
pub const OTHERS_END: &'static str = r#"
These markets are context only. Submit only to the target market already bound to the challenge.

"#;

// ── What the prompt is made of ──────────────────────────────────────────

/// What the host computes for a prompt: what it takes to buy at the best
/// prices, one less the implied probability of `up`, and the time.
#[derive(Clone, Copy, Debug, PartialEq, Eq, Structural)]
pub struct Quotes {
    pub complements: Complements,
    pub implied: Double,
    pub now: Moment,
}

/// The implied probability of `up`: the market's own number, that of its
/// orderbook where it has none, and one half where neither is a number.
pub open spec fn implied_up(market: JsonView) -> Double {
    let value = match market.get("implied_up_prob"@) {
        Some(v) => Some(v),
        None => match market.get("orderbook"@) {
            Some(book) => book.get("implied_up_prob"@),
            None => None,
        },
    };
    match value {
        Some(v) => match v.double() {
            Some(d) => d,
            None => Double { bits: double::D050 },
        },
        None => Double { bits: double::D050 },
    }
}

/// The implied probability of `up`.
pub fn implied_up_of(market: &Json) -> (r: Double)
    ensures
        r == implied_up(market@),
{
    let value = match market.get("implied_up_prob") {
        Some(v) => Some(v),
        None => match market.get("orderbook") {
            Some(book) => book.get("implied_up_prob"),
            None => None,
        },
    };
    match value {
        Some(v) => match v.as_double() {
            Some(d) => d,
            None => Double { bits: double::D050 },
        },
        None => Double { bits: double::D050 },
    }
}

/// The seconds to the close of a market: its own number, or else those that
/// were counted, and then not below zero.
pub open spec fn closes_from(market: JsonView, counted: Option<i64>) -> i64 {
    match market.signed_at("seconds_to_close"@) {
        Some(s) => s,
        None => match counted {
            Some(s) => if s > 0 {
                s
            } else {
                0
            },
            None => 0,
        },
    }
}

/// The seconds to the close of a market: its own number, or else counted from
/// now.
pub open spec fn closes_in(market: JsonView, now: Moment) -> i64 {
    closes_from(market, market::time_to_close(market, now))
}

/// The seconds to the close of a market: its own number, or else those that
/// were counted, and then not below zero.
pub fn closes_from_of(market: &Json, counted: Option<i64>) -> (r: i64)
    ensures
        r == closes_from(market@, counted),
{
    match market.i64_at("seconds_to_close") {
        Some(s) => s,
        None => match counted {
            Some(s) => if s > 0 {
                s
            } else {
                0
            },
            None => 0,
        },
    }
}

fn closes_in_of(market: &Json, now: Moment) -> (r: i64)
    ensures
        r == closes_in(market@, now),
{
    closes_from_of(market, market::seconds_to_close(market, now))
}

/// A text under a key in uppercase, or a question mark.
pub open spec fn upper_or_unknown(value: JsonView, key: Seq<char>) -> Seq<char> {
    text::uppercase(value.text_or(key, "?"@))
}

fn put_upper(out: &mut String, value: &Json, key: &str)
    ensures
        final(out)@ == old(out)@ + upper_or_unknown(value@, key@),
{
    out.append(text::to_upper(value.str_or(key, "?").as_str()).as_str());
}

fn put_or_unknown(out: &mut String, value: &Json, key: &str)
    ensures
        final(out)@ == old(out)@ + value@.text_or(key@, "?"@),
{
    out.append(value.str_or(key, "?").as_str());
}

fn put_signed(out: &mut String, n: i64)
    ensures
        final(out)@ == old(out)@ + text::signed_decimal(n as int),
{
    out.append(text::signed_decimal_of(n).as_str());
}

fn put_fixed0(out: &mut String, d: Double)
    ensures
        final(out)@ == old(out)@ + numerals::fixed0(d),
{
    out.append(numerals::fixed0_of(d).as_str());
}

fn put_fixed2(out: &mut String, d: Double)
    ensures
        final(out)@ == old(out)@ + numerals::fixed2(d),
{
    out.append(numerals::fixed2_of(d).as_str());
}

// ── Who the agent is, and the challenge ─────────────────────────────────

/// The persona in the first line.
pub open spec fn persona_note(persona: Seq<char>) -> Seq<char> {
    if persona != "none"@ {
        " (persona: "@ + persona + ")"@
    } else {
        Seq::empty()
    }
}

/// With the first line.
pub open spec fn with_opening(out: Seq<char>, persona: Seq<char>) -> Seq<char> {
    out + "You are a prediction agent competing in AWP Predict WorkNet"@ + persona_note(persona)
        + ".\n\n"@
}

fn put_opening(out: &mut String, persona: &str)
    ensures
        final(out)@ == with_opening(old(out)@, persona@),
{
    let mut note = String::new();
    if !text::same(persona, "none") {
        note.append(" (persona: ");
        note.append(persona);
        note.append(")");
        assert(note@ =~= persona_note(persona@));
    }
    out.append("You are a prediction agent competing in AWP Predict WorkNet");
    out.append(note.as_str());
    out.append(".\n\n");
}

/// What follows the text of a challenge.
pub const CHALLENGE_RULE: &'static str = r#"
--- challenge ends ---

Parse the challenge above, decide UP/DOWN based on the market, then write reasoning that simultaneously satisfies every requirement. The reasoning string MUST contain the exact phrase `Challenge answer: <digits>.` with the numeric answer from the challenge. If the challenge instructions ask for `Challenge: <number>`, include that line too. The server will programmatically verify all constraints and reject non-compliant submissions.

"#;

/// With the instructions of a challenge, where it has any.
pub open spec fn with_instructions(out: Seq<char>, challenge: JsonView) -> Seq<char> {
    match challenge.text_at("instructions"@) {
        Some(instructions) => out + "\nInstructions: "@ + instructions,
        None => out,
    }
}

/// With the challenge, word for word, where there is one.
pub open spec fn with_challenge(
    out: Seq<char>,
    market_id: Seq<char>,
    challenge: JsonView,
) -> Seq<char> {
    match challenge::question(challenge) {
        Some(question) => with_instructions(
            out
                + "## Server-Issued Challenge (reasoning must satisfy this in one pass)\n\nSubmit only to market `"@
                + market_id
                + "`. The challenge below applies to your `reasoning` string.\n\n--- challenge begins ---\n"@
                + question,
            challenge,
        ) + CHALLENGE_RULE@,
        None => out,
    }
}

fn put_challenge(out: &mut String, market_id: &str, challenge: &Json)
    ensures
        final(out)@ == with_challenge(old(out)@, market_id@, challenge@),
{
    if let Some(question) = challenge::challenge_text(challenge) {
        out.append(
            "## Server-Issued Challenge (reasoning must satisfy this in one pass)\n\nSubmit only to market `",
        );
        out.append(market_id);
        out.append(
            "`. The challenge below applies to your `reasoning` string.\n\n--- challenge begins ---\n",
        );
        out.append(question.as_str());
        if let Some(instructions) = challenge.str_at("instructions") {
            out.append("\nInstructions: ");
            out.append(instructions.as_str());
        }
        out.append(CHALLENGE_RULE);
    }
}

/// How a persona plays.
pub open spec fn style(persona: Seq<char>) -> Seq<char> {
    if persona == "degen"@ {
        DEGEN_STYLE@
    } else if persona == "sniper"@ {
        SNIPER_STYLE@
    } else if persona == "conservative"@ {
        CONSERVATIVE_STYLE@
    } else if persona == "contrarian"@ {
        CONTRARIAN_STYLE@
    } else {
        Seq::empty()
    }
}

fn put_style(out: &mut String, persona: &str)
    ensures
        final(out)@ == old(out)@ + style(persona@),
{
    if text::same(persona, "degen") {
        out.append(DEGEN_STYLE);
    } else if text::same(persona, "sniper") {
        out.append(SNIPER_STYLE);
    } else if text::same(persona, "conservative") {
        out.append(CONSERVATIVE_STYLE);
    } else if text::same(persona, "contrarian") {
        out.append(CONTRARIAN_STYLE);
    } else {
        assert(out@ + Seq::<char>::empty() =~= out@);
    }
}

/// With the rules of the game and the form of the answer.
pub open spec fn with_rules(
    out: Seq<char>,
    market_id: Seq<char>,
    persona: Seq<char>,
    balance: Double,
) -> Seq<char> {
    out + style(persona) + RULES@
        + "- \"tickets\": how many chips to commit (integer, minimum 100, max "@
        + numerals::fixed0(balance)
        + "). Size according to your persona and conviction!\n- \"market_id\": which market (default: \""@
        + market_id + "\", required if action=submit)\n"@ + FORMAT@
        + "- \"tickets\": integer, minimum 100, max "@ + numerals::fixed0(balance)
        + "\n- \"market_id\": which market (default: \""@ + market_id + "\")\n"@ + LANGUAGE@
        + "- Balance: "@ + numerals::fixed0(balance) + " chips\n"@
}

fn put_rules(out: &mut String, market_id: &str, persona: &str, balance: Double)
    ensures
        final(out)@ == with_rules(old(out)@, market_id@, persona@, balance),
{
    put_style(out, persona);
    out.append(RULES);
    out.append("- \"tickets\": how many chips to commit (integer, minimum 100, max ");
    put_fixed0(out, balance);
    out.append(
        "). Size according to your persona and conviction!\n- \"market_id\": which market (default: \"",
    );
    out.append(market_id);
    out.append("\", required if action=submit)\n");
    out.append(FORMAT);
    out.append("- \"tickets\": integer, minimum 100, max ");
    put_fixed0(out, balance);
    out.append("\n- \"market_id\": which market (default: \"");
    out.append(market_id);
    out.append("\")\n");
    out.append(LANGUAGE);
    out.append("- Balance: ");
    put_fixed0(out, balance);
    out.append(" chips\n");
}

// ── Sizes, results so far, and the timeslot ─────────────────────────────

/// The smaller part of the balance that a persona commits to a strong setup,
/// as the bits of a double.
pub open spec fn min_fraction(persona: Seq<char>) -> u64 {
    if persona == "degen"@ {
        double::D030
    } else if persona == "sniper"@ {
        double::D025
    } else if persona == "conservative"@ {
        double::D005
    } else if persona == "contrarian"@ {
        double::D020
    } else {
        double::D010
    }
}

/// The larger part of the balance that a persona commits to a strong setup,
/// as the bits of a double.
pub open spec fn max_fraction(persona: Seq<char>) -> u64 {
    if persona == "degen"@ {
        double::D050
    } else if persona == "sniper"@ {
        double::D040
    } else if persona == "conservative"@ {
        double::D010
    } else if persona == "contrarian"@ {
        double::D035
    } else {
        double::D020
    }
}

/// A note on a persona's sizes.
pub open spec fn sizing_note(persona: Seq<char>) -> Seq<char> {
    if persona == "degen"@ {
        "Strong edges only get the big size."@
    } else if persona == "sniper"@ {
        "Most rounds skip. When you shoot, this is the size."@
    } else if persona == "conservative"@ {
        "Strong edges only. Mediocre = smaller or skip. Weak = skip."@
    } else if persona == "contrarian"@ {
        "Only at extremes with exhaustion evidence."@
    } else {
        "Size according to conviction."@
    }
}

/// A part of the balance in whole tickets, at most what 32 bits hold.
pub open spec fn tickets_of_share(balance: Double, bits: u64) -> nat {
    let amount = double::share(balance, Double { bits });
    if amount > u32::MAX {
        u32::MAX as nat
    } else {
        amount
    }
}

/// Whether a persona trades strong setups only.
pub open spec fn is_careful(persona: Seq<char>) -> bool {
    persona == "conservative"@ || persona == "sniper"@
}

/// With the persona's sizes.
pub open spec fn with_sizes(out: Seq<char>, persona: Seq<char>, balance: Double) -> Seq<char> {
    out + "- **Your sizing ("@ + persona + ", STRONG edge):** "@ + text::decimal(
        tickets_of_share(balance, min_fraction(persona)),
    ) + "-"@ + text::decimal(tickets_of_share(balance, max_fraction(persona))) + " tickets. "@
        + sizing_note(persona) + "\n"@ + (if is_careful(persona) {
        CAREFUL_MEDIUM@
    } else {
        FREE_MEDIUM@
    })
}

fn put_share(out: &mut String, balance: Double, bits: u64)
    ensures
        final(out)@ == old(out)@ + text::decimal(tickets_of_share(balance, bits)),
{
    let amount: u64 = double::share_of(balance, Double { bits });
    let most: u64 = u32::MAX as u64;
    text::push_decimal(
        out,
        if amount > most {
            most
        } else {
            amount
        },
    );
}

fn sizing_of(persona: &str) -> (r: (u64, u64, &'static str))
    ensures
        r.0 == min_fraction(persona@),
        r.1 == max_fraction(persona@),
        r.2@ == sizing_note(persona@),
{
    if text::same(persona, "degen") {
        (double::D030, double::D050, "Strong edges only get the big size.")
    } else if text::same(persona, "sniper") {
        (double::D025, double::D040, "Most rounds skip. When you shoot, this is the size.")
    } else if text::same(persona, "conservative") {
        (double::D005, double::D010, "Strong edges only. Mediocre = smaller or skip. Weak = skip.")
    } else if text::same(persona, "contrarian") {
        (double::D020, double::D035, "Only at extremes with exhaustion evidence.")
    } else {
        (double::D010, double::D020, "Size according to conviction.")
    }
}

fn put_sizes(out: &mut String, persona: &str, balance: Double)
    ensures
        final(out)@ == with_sizes(old(out)@, persona@, balance),
{
    let (least, most, note) = sizing_of(persona);
    out.append("- **Your sizing (");
    out.append(persona);
    out.append(", STRONG edge):** ");
    put_share(out, balance, least);
    out.append("-");
    put_share(out, balance, most);
    out.append(" tickets. ");
    out.append(note);
    out.append("\n");
    if text::same(persona, "conservative") || text::same(persona, "sniper") {
        out.append(CAREFUL_MEDIUM);
    } else {
        out.append(FREE_MEDIUM);
    }
}

/// With the recent accuracy, where there is one.
pub open spec fn with_accuracy(out: Seq<char>, recent_acc: Option<RecentAccuracy>) -> Seq<char> {
    match recent_acc {
        Some(acc) => {
            let banner = out + "- **Recent filled accuracy: "@ + text::decimal(
                numerals::rounded_percent(acc.wins as nat, acc.filled as nat),
            ) + "% ("@ + text::decimal(acc.wins as nat) + "W / "@ + text::decimal(
                acc.losses as nat,
            ) + "L over last "@ + text::decimal(acc.filled as nat) + " resolved).**\n"@;
            if acc.losing() {
                banner + LOSING@
            } else {
                banner
            }
        },
        None => out,
    }
}

fn put_accuracy(out: &mut String, recent_acc: Option<RecentAccuracy>)
    requires
        recent_acc matches Some(acc) ==> acc.wf(),
    ensures
        final(out)@ == with_accuracy(old(out)@, recent_acc),
{
    if let Some(acc) = recent_acc {
        out.append("- **Recent filled accuracy: ");
        text::push_decimal(out, numerals::rounded_percent_of(acc.wins as u64, acc.filled as u64));
        out.append("% (");
        text::push_decimal(out, acc.wins as u64);
        out.append("W / ");
        text::push_decimal(out, acc.losses as u64);
        out.append("L over last ");
        text::push_decimal(out, acc.filled as u64);
        out.append(" resolved).**\n");
        if acc.is_losing() {
            out.append(LOSING);
        }
    }
}

/// With the submissions that remain.
pub open spec fn with_remaining(out: Seq<char>, remaining: i64) -> Seq<char> {
    if remaining > 0 {
        out + "- Submissions remaining this timeslot: "@ + text::signed_decimal(remaining as int)
            + "/3 (cap, not a quota — only use if edge is real).\n"@
    } else {
        out + "- Submissions: 0/3 remaining this timeslot — wait for next timeslot.\n"@
    }
}

/// With the time to the next timeslot, without seconds where it is more than
/// ten minutes.
pub open spec fn with_reset(out: Seq<char>, resets_in: u64) -> Seq<char> {
    if resets_in == 0 {
        out
    } else if resets_in / 60 > 10 {
        out + "- Timeslot resets in "@ + text::decimal(resets_in as nat / 60) + "m\n"@
    } else {
        out + "- Timeslot resets in "@ + text::decimal(resets_in as nat / 60) + "m"@
            + text::decimal(resets_in as nat % 60) + "s\n"@
    }
}

/// With the timeslot and the number of markets.
pub open spec fn with_timeslot(
    out: Seq<char>,
    remaining: i64,
    resets_in: u64,
    markets: nat,
) -> Seq<char> {
    with_reset(with_remaining(out, remaining), resets_in) + "- Available markets: "@
        + text::decimal(markets) + "\n"@
}

fn put_timeslot(out: &mut String, remaining: i64, resets_in: u64, markets: usize)
    ensures
        final(out)@ == with_timeslot(old(out)@, remaining, resets_in, markets as nat),
{
    if remaining > 0 {
        out.append("- Submissions remaining this timeslot: ");
        put_signed(out, remaining);
        out.append("/3 (cap, not a quota — only use if edge is real).\n");
    } else {
        out.append("- Submissions: 0/3 remaining this timeslot — wait for next timeslot.\n");
    }
    if resets_in > 0 {
        out.append("- Timeslot resets in ");
        text::push_decimal(out, resets_in / 60);
        if resets_in / 60 > 10 {
            out.append("m\n");
        } else {
            out.append("m");
            text::push_decimal(out, resets_in % 60);
            out.append("s\n");
        }
    }
    out.append("- Available markets: ");
    text::push_decimal(out, markets as u64);
    out.append("\n");
}

// ── Open orders and recent results ──────────────────────────────────────

/// The sum of an integer over the first `n` values; a missing one is zero.
pub open spec fn sum_of(list: Seq<JsonView>, key: Seq<char>, n: int) -> int
    decreases n,
{
    if n <= 0 {
        0
    } else {
        sum_of(list, key, n - 1) + list[n - 1].signed_or(key, 0)
    }
}

/// Whether the sums of an integer, one value after another, stay within 64
/// bits.
pub open spec fn sums_fit(list: Seq<JsonView>, key: Seq<char>) -> bool {
    forall|n: int|
        0 <= n <= list.len() ==> i64::MIN <= #[trigger] sum_of(list, key, n) <= i64::MAX
}

/// Whether the tickets of the open orders can be summed up.
pub open spec fn orders_fit(open_orders: Option<Seq<JsonView>>) -> bool {
    open_orders matches Some(list) ==> sums_fit(list, "tickets"@) && sums_fit(
        list,
        "tickets_filled"@,
    )
}

fn sum_fits(list: &Vec<Json>, key: &str) -> (r: bool)
    ensures
        r == sums_fit(json::trees(list@), key@),
{
    let ghost all = json::trees(list@);
    let mut sum: i64 = 0;
    let mut i: usize = 0;
    while i < list.len()
        invariant
            i <= list@.len(),
            all == json::trees(list@),
            sum == sum_of(all, key@, i as int),
            forall|n: int|
                0 <= n <= i ==> i64::MIN <= #[trigger] sum_of(all, key@, n) <= i64::MAX,
        decreases list@.len() - i,
    {
        assert(all[i as int] == list@[i as int]@);
        let n: i64 = list[i].i64_or(key, 0);
        assert(sum_of(all, key@, i + 1) == sum + n);
        match sum.checked_add(n) {
            Some(next) => {
                sum = next;
            },
            None => {
                return false;
            },
        }
        i = i + 1;
    }
    true
}

/// Whether the tickets of the open orders can be summed up within 64 bits.
pub fn tickets_fit(open_orders: &Option<Vec<Json>>) -> (r: bool)
    ensures
        r == orders_fit(strategy::opt_trees(*open_orders)),
{
    match open_orders {
        Some(list) => sum_fits(list, "tickets") && sum_fits(list, "tickets_filled"),
        None => true,
    }
}

/// The state of an order, by its tickets.
pub open spec fn order_state(filled: i64, tickets: i64) -> Seq<char> {
    if filled == tickets {
        "FILLED"@
    } else if filled > 0 {
        "PARTIAL"@
    } else {
        "PENDING"@
    }
}

/// With one open order.
pub open spec fn with_order(out: Seq<char>, order: JsonView) -> Seq<char> {
    let tickets = order.signed_or("tickets"@, 0);
    let filled = order.signed_or("tickets_filled"@, 0);
    out + "- "@ + order.text_or("asset"@, "?"@) + " "@ + order.text_or("window"@, "?"@) + " "@
        + upper_or_unknown(order, "direction"@) + " — "@ + order_state(filled, tickets) + " "@
        + text::signed_decimal(filled as int) + "/"@ + text::signed_decimal(tickets as int)
        + " tickets, closes "@ + order.text_or("close_at"@, "?"@) + "\n"@
}

fn put_order(out: &mut String, order: &Json)
    ensures
        final(out)@ == with_order(old(out)@, order@),
{
    let tickets: i64 = order.i64_or("tickets", 0);
    let filled: i64 = order.i64_or("tickets_filled", 0);
    out.append("- ");
    put_or_unknown(out, order, "asset");
    out.append(" ");
    put_or_unknown(out, order, "window");
    out.append(" ");
    put_upper(out, order, "direction");
    out.append(" — ");
    if filled == tickets {
        out.append("FILLED");
    } else if filled > 0 {
        out.append("PARTIAL");
    } else {
        out.append("PENDING");
    }
    out.append(" ");
    put_signed(out, filled);
    out.append("/");
    put_signed(out, tickets);
    out.append(" tickets, closes ");
    put_or_unknown(out, order, "close_at");
    out.append("\n");
}

/// With the first `n` open orders.
pub open spec fn with_order_rows(out: Seq<char>, orders: Seq<JsonView>, n: int) -> Seq<char>
    decreases n,
{
    if n <= 0 {
        out
    } else {
        with_order(with_order_rows(out, orders, n - 1), orders[n - 1])
    }
}

/// The smaller of two numbers.
pub open spec fn at_most(n: nat, limit: int) -> int {
    if n < limit {
        n as int
    } else {
        limit
    }
}

/// The part of the tickets that is filled, in percent.
pub open spec fn filled_percent(orders: Seq<JsonView>) -> int {
    let tickets = sum_of(orders, "tickets"@, orders.len() as int);
    if tickets > 0 {
        numerals::fill_rate(sum_of(orders, "tickets_filled"@, orders.len() as int), tickets)
    } else {
        0
    }
}

/// With the open orders: how many, how far they are filled, and the first ten.
pub open spec fn with_orders(out: Seq<char>, open_orders: Option<Seq<JsonView>>) -> Seq<char> {
    match open_orders {
        Some(orders) => if orders.len() > 0 {
            with_order_rows(
                out + "\n**Your open orders ("@ + text::decimal(orders.len()) + ", fill rate: "@
                    + text::signed_decimal(filled_percent(orders)) + "%)**\n"@,
                orders,
                at_most(orders.len(), 10),
            ) + FILL_STATUS@
        } else {
            out
        },
        None => out,
    }
}

fn sum_up(list: &Vec<Json>, key: &str) -> (r: i64)
    requires
        sums_fit(json::trees(list@), key@),
    ensures
        r == sum_of(json::trees(list@), key@, list@.len() as int),
{
    let ghost all = json::trees(list@);
    let mut sum: i64 = 0;
    let mut i: usize = 0;
    while i < list.len()
        invariant
            i <= list@.len(),
            all == json::trees(list@),
            sums_fit(all, key@),
            sum == sum_of(all, key@, i as int),
        decreases list@.len() - i,
    {
        assert(all[i as int] == list@[i as int]@);
        let n: i64 = list[i].i64_or(key, 0);
        assert(sum_of(all, key@, i + 1) == sum + n);
        sum = sum + n;
        i = i + 1;
    }
    sum
}

fn put_orders(out: &mut String, open_orders: &Option<Vec<Json>>)
    requires
        orders_fit(strategy::opt_trees(*open_orders)),
    ensures
        final(out)@ == with_orders(old(out)@, strategy::opt_trees(*open_orders)),
{
    if let Some(orders) = open_orders {
        if orders.len() > 0 {
            let ghost all = json::trees(orders@);
            let tickets: i64 = sum_up(orders, "tickets");
            let filled: i64 = sum_up(orders, "tickets_filled");
            let rate: i64 = if tickets > 0 {
                numerals::fill_rate_of(filled, tickets)
            } else {
                0
            };
            out.append("\n**Your open orders (");
            text::push_decimal(out, orders.len() as u64);
            out.append(", fill rate: ");
            put_signed(out, rate);
            out.append("%)**\n");
            let ghost head = out@;
            let mut i: usize = 0;
            while i < orders.len() && i < 10
                invariant
                    i <= orders@.len(),
                    i <= 10,
                    all == json::trees(orders@),
                    out@ == with_order_rows(head, all, i as int),
                decreases orders@.len() - i,
            {
                assert(all[i as int] == orders@[i as int]@);
                put_order(out, &orders[i]);
                i = i + 1;
            }
            out.append(FILL_STATUS);
        }
    }
}

/// Whether a result was won.
pub open spec fn is_won(result: JsonView) -> bool {
    result.boolean_at("won"@) == Some(true)
}

/// The number of the first `n` results that were won.
pub open spec fn wins(results: Seq<JsonView>, n: int) -> nat
    decreases n,
{
    if n <= 0 {
        0
    } else {
        wins(results, n - 1) + (if is_won(results[n - 1]) {
            1nat
        } else {
            0
        })
    }
}

/// With one result.
pub open spec fn with_result(out: Seq<char>, result: JsonView) -> Seq<char> {
    out + "- "@ + result.text_or("asset"@, "?"@) + " "@ + result.text_or("window"@, "?"@) + " "@
        + upper_or_unknown(result, "direction"@) + " — "@ + (if is_won(result) {
        "WON"@
    } else {
        "LOST"@
    }) + " (payout: "@ + text::signed_decimal(result.signed_or("payout_chips"@, 0) as int)
        + ", spent: "@ + text::signed_decimal(result.signed_or("chips_spent"@, 0) as int)
        + ")\n"@
}

/// With the first `n` results.
pub open spec fn with_result_rows(out: Seq<char>, results: Seq<JsonView>, n: int) -> Seq<char>
    decreases n,
{
    if n <= 0 {
        out
    } else {
        with_result(with_result_rows(out, results, n - 1), results[n - 1])
    }
}

/// With the recent results: how many, how many were won, and the first five.
pub open spec fn with_results(out: Seq<char>, recent_results: Option<Seq<JsonView>>) -> Seq<char> {
    match recent_results {
        Some(results) => if results.len() > 0 {
            with_result_rows(
                out + "\n**Recent results (last "@ + text::decimal(results.len()) + ", "@
                    + text::decimal(wins(results, results.len() as int)) + " wins):**\n"@,
                results,
                at_most(results.len(), 5),
            )
        } else {
            out
        },
        None => out,
    }
}

fn won(result: &Json) -> (r: bool)
    ensures
        r == is_won(result@),
{
    match result.bool_at("won") {
        Some(b) => b,
        None => false,
    }
}

fn put_result(out: &mut String, result: &Json)
    ensures
        final(out)@ == with_result(old(out)@, result@),
{
    out.append("- ");
    put_or_unknown(out, result, "asset");
    out.append(" ");
    put_or_unknown(out, result, "window");
    out.append(" ");
    put_upper(out, result, "direction");
    out.append(" — ");
    if won(result) {
        out.append("WON");
    } else {
        out.append("LOST");
    }
    out.append(" (payout: ");
    put_signed(out, result.i64_or("payout_chips", 0));
    out.append(", spent: ");
    put_signed(out, result.i64_or("chips_spent", 0));
    out.append(")\n");
}

fn put_results(out: &mut String, recent_results: &Option<Vec<Json>>)
    ensures
        final(out)@ == with_results(old(out)@, strategy::opt_trees(*recent_results)),
{
    if let Some(results) = recent_results {
        if results.len() > 0 {
            let ghost all = json::trees(results@);
            let mut count: usize = 0;
            let mut k: usize = 0;
            while k < results.len()
                invariant
                    k <= results@.len(),
                    count <= k,
                    all == json::trees(results@),
                    count == wins(all, k as int),
                decreases results@.len() - k,
            {
                assert(all[k as int] == results@[k as int]@);
                if won(&results[k]) {
                    count = count + 1;
                }
                k = k + 1;
            }
            out.append("\n**Recent results (last ");
            text::push_decimal(out, results.len() as u64);
            out.append(", ");
            text::push_decimal(out, count as u64);
            out.append(" wins):**\n");
            let ghost head = out@;
            let mut i: usize = 0;
            while i < results.len() && i < 5
                invariant
                    i <= results@.len(),
                    i <= 5,
                    all == json::trees(results@),
                    out@ == with_result_rows(head, all, i as int),
                decreases results@.len() - i,
            {
                assert(all[i as int] == results@[i as int]@);
                put_result(out, &results[i]);
                i = i + 1;
            }
        }
    }
}

// ── The market ──────────────────────────────────────────────────────────

/// With the facts of the market.
pub open spec fn with_market(
    out: Seq<char>,
    market_id: Seq<char>,
    market: JsonView,
    closes: i64,
) -> Seq<char> {
    out + "\n## Recommended Market\n\n- ID: "@ + market_id + "\n- Asset: "@ + market.text_or(
        "asset"@,
        "BTC/USDT"@,
    ) + "\n- Window: "@ + market.text_or("window"@, "15m"@) + "\n- Closes in: "@
        + text::signed_decimal(closes as int) + "s\n- implied_up_prob: "@ + numerals::fixed2(
        implied_up(market),
    ) + "\n"@
}

fn put_market(out: &mut String, market_id: &str, market: &Json, closes: i64)
    ensures
        final(out)@ == with_market(old(out)@, market_id@, market@, closes),
{
    out.append("\n## Recommended Market\n\n- ID: ");
    out.append(market_id);
    out.append("\n- Asset: ");
    out.append(market.str_or("asset", "BTC/USDT").as_str());
    out.append("\n- Window: ");
    out.append(market.str_or("window", "15m").as_str());
    out.append("\n- Closes in: ");
    put_signed(out, closes);
    out.append("s\n- implied_up_prob: ");
    put_fixed2(out, implied_up_of(market));
    out.append("\n");
}

/// With a warning where the market has an open order.
pub open spec fn with_open_warning(out: Seq<char>, has_open: bool) -> Seq<char> {
    if has_open {
        out + OPEN_WARNING@
    } else {
        out
    }
}

/// With a warning where the market was traded recently.
pub open spec fn with_recent_warning(out: Seq<char>, has_recent: bool) -> Seq<char> {
    if has_recent {
        out + RECENT_WARNING@
    } else {
        out
    }
}

/// With a warning where the market closes soon.
pub open spec fn with_close_warning(out: Seq<char>, closes: i64) -> Seq<char> {
    if 0 < closes < 120 {
        out + "- ⚠ Only "@ + text::signed_decimal(closes as int) + CLOSE_WARNING@
    } else {
        out
    }
}

fn put_warnings(out: &mut String, has_open: bool, has_recent: bool, closes: i64)
    ensures
        final(out)@ == with_close_warning(
            with_recent_warning(with_open_warning(old(out)@, has_open), has_recent),
            closes,
        ),
{
    if has_open {
        out.append(OPEN_WARNING);
    }
    if has_recent {
        out.append(RECENT_WARNING);
    }
    if closes > 0 && closes < 120 {
        out.append("- ⚠ Only ");
        put_signed(out, closes);
        out.append(CLOSE_WARNING);
    }
}

/// With the server's reason for the market.
pub open spec fn with_reason(out: Seq<char>, market: JsonView) -> Seq<char> {
    match market.text_at("reason"@) {
        Some(reason) => out + "- Server insight: "@ + reason + "\n"@,
        None => out,
    }
}

/// With the side that the server suggests, unless it is to skip.
pub open spec fn with_side(out: Seq<char>, market: JsonView) -> Seq<char> {
    match market.text_at("suggested_side"@) {
        Some(side) => if side != "skip"@ {
            out + "- Liquidity favors: "@ + text::uppercase(side)
                + " (counterparty orders waiting)\n"@
        } else {
            out
        },
        None => out,
    }
}

fn put_insight(out: &mut String, market: &Json)
    ensures
        final(out)@ == with_side(with_reason(old(out)@, market@), market@),
{
    if let Some(reason) = market.str_at("reason") {
        out.append("- Server insight: ");
        out.append(reason.as_str());
        out.append("\n");
    }
    if let Some(side) = market.str_at("suggested_side") {
        if !text::same(side.as_str(), "skip") {
            out.append("- Liquidity favors: ");
            out.append(text::to_upper(side.as_str()).as_str());
            out.append(" (counterparty orders waiting)\n");
        }
    }
}

// ── The orderbook ───────────────────────────────────────────────────────

/// With the last price.
pub open spec fn with_last_price(out: Seq<char>, book: JsonView) -> Seq<char> {
    match book.text_at("last_price"@) {
        Some(price) => out + "- **Last traded price:** "@ + price + " (most recent fill)\n"@,
        None => out,
    }
}

/// The complement of a price, or that of one half where the price could not
/// be read.
pub open spec fn complement_or_half(complement: Option<Double>) -> Double {
    match complement {
        Some(d) => d,
        None => Double { bits: double::D050 },
    }
}

/// With what the best price of one side means for the other.
pub open spec fn with_best(
    out: Seq<char>,
    price: Option<Seq<char>>,
    side: Seq<char>,
    other: Seq<char>,
    complement: Option<Double>,
) -> Seq<char> {
    match price {
        Some(p) => out + "  - Best "@ + side + " @ "@ + p + " → to BUY "@ + other + ", bid "@
            + numerals::fixed2(complement_or_half(complement)) + "+ (takes this liquidity)\n"@,
        None => out,
    }
}

/// With a note where one side of the book is empty.
pub open spec fn with_missing(
    out: Seq<char>,
    price: Option<Seq<char>>,
    side: Seq<char>,
    other: Seq<char>,
) -> Seq<char> {
    match price {
        Some(_) => out,
        None => out + "  - No "@ + side + " orders — your "@ + side + " order will wait for "@
            + other + " counterparty\n"@,
    }
}

/// With the spread and what it means.
pub open spec fn with_spread(out: Seq<char>, spread: Option<Double>) -> Seq<char> {
    match spread {
        Some(s) => out + "  - Spread: "@ + numerals::fixed2(s) + (if (Double {
            bits: double::D010,
        }).lt(s) {
            " (WIDE — good opportunity to provide liquidity)\n"@
        } else if (Double { bits: double::D005 }).lt(s) {
            " (moderate)\n"@
        } else {
            " (tight — take liquidity or wait)\n"@
        }),
        None => out,
    }
}

/// With the best prices and the spread, where one side has a price.
pub open spec fn with_prices(
    out: Seq<char>,
    book: JsonView,
    complements: Complements,
) -> Seq<char> {
    let up = book.text_at("best_up_price"@);
    let down = book.text_at("best_down_price"@);
    if up is Some || down is Some {
        with_spread(
            with_missing(
                with_missing(
                    with_best(
                        with_best(
                            out + "- **Orderbook — how to get filled:**\n"@,
                            up,
                            "UP"@,
                            "DOWN"@,
                            complements.up,
                        ),
                        down,
                        "DOWN"@,
                        "UP"@,
                        complements.down,
                    ),
                    up,
                    "UP"@,
                    "DOWN"@,
                ),
                down,
                "DOWN"@,
                "UP"@,
            ),
            book.double_at("spread"@),
        )
    } else {
        out
    }
}

/// With the tickets on both sides.
pub open spec fn with_volume(out: Seq<char>, book: JsonView) -> Seq<char> {
    out + "- Volume: UP filled="@ + text::signed_decimal(book.signed_or("up_filled"@, 0) as int)
        + " open="@ + text::signed_decimal(book.signed_or("up_open_tickets"@, 0) as int)
        + ", DOWN filled="@ + text::signed_decimal(book.signed_or("down_filled"@, 0) as int)
        + " open="@ + text::signed_decimal(book.signed_or("down_open_tickets"@, 0) as int)
        + "\n"@
}

/// With the orderbook, where there is one.
pub open spec fn with_book(
    out: Seq<char>,
    market: JsonView,
    complements: Complements,
) -> Seq<char> {
    match market.get("orderbook"@) {
        Some(book) => with_volume(
            with_prices(with_last_price(out, book), book, complements),
            book,
        ),
        None => out,
    }
}

fn put_best(
    out: &mut String,
    price: Option<&String>,
    side: &str,
    other: &str,
    complement: Option<Double>,
)
    ensures
        final(out)@ == with_best(old(out)@, json::text_view(price), side@, other@, complement),
{
    if let Some(p) = price {
        out.append("  - Best ");
        out.append(side);
        out.append(" @ ");
        out.append(p.as_str());
        out.append(" → to BUY ");
        out.append(other);
        out.append(", bid ");
        put_fixed2(
            out,
            match complement {
                Some(d) => d,
                None => Double { bits: double::D050 },
            },
        );
        out.append("+ (takes this liquidity)\n");
    }
}

fn put_missing(out: &mut String, price: Option<&String>, side: &str, other: &str)
    ensures
        final(out)@ == with_missing(old(out)@, json::text_view(price), side@, other@),
{
    if price.is_none() {
        out.append("  - No ");
        out.append(side);
        out.append(" orders — your ");
        out.append(side);
        out.append(" order will wait for ");
        out.append(other);
        out.append(" counterparty\n");
    }
}

fn put_spread(out: &mut String, spread: Option<Double>)
    ensures
        final(out)@ == with_spread(old(out)@, spread),
{
    if let Some(s) = spread {
        out.append("  - Spread: ");
        put_fixed2(out, s);
        if (Double { bits: double::D010 }).less(s) {
            out.append(" (WIDE — good opportunity to provide liquidity)\n");
        } else if (Double { bits: double::D005 }).less(s) {
            out.append(" (moderate)\n");
        } else {
            out.append(" (tight — take liquidity or wait)\n");
        }
    }
}

fn put_book(out: &mut String, market: &Json, complements: Complements)
    ensures
        final(out)@ == with_book(old(out)@, market@, complements),
{
    if let Some(book) = market.get("orderbook") {
        if let Some(price) = book.str_at("last_price") {
            out.append("- **Last traded price:** ");
            out.append(price.as_str());
            out.append(" (most recent fill)\n");
        }
        let up = book.str_at("best_up_price");
        let down = book.str_at("best_down_price");
        if up.is_some() || down.is_some() {
            out.append("- **Orderbook — how to get filled:**\n");
            put_best(out, up, "UP", "DOWN", complements.up);
            put_best(out, down, "DOWN", "UP", complements.down);
            put_missing(out, up, "UP", "DOWN");
            put_missing(out, down, "DOWN", "UP");
            put_spread(out, book.double_at("spread"));
        }
        out.append("- Volume: UP filled=");
        put_signed(out, book.i64_or("up_filled", 0));
        out.append(" open=");
        put_signed(out, book.i64_or("up_open_tickets", 0));
        out.append(", DOWN filled=");
        put_signed(out, book.i64_or("down_filled", 0));
        out.append(" open=");
        put_signed(out, book.i64_or("down_open_tickets", 0));
        out.append("\n");
    }
}

// ── The last prediction and the odds ────────────────────────────────────

/// How a prediction turned out.
pub open spec fn result_line(last: JsonView) -> Seq<char> {
    let outcome = last.text_or("outcome"@, "pending"@);
    match last.boolean_at("won"@) {
        Some(true) => "- Result: WON (outcome was "@ + outcome + ")\n"@,
        Some(false) => "- Result: LOST (outcome was "@ + outcome + ")\n"@,
        None => "- Result: pending (market not yet resolved)\n"@,
    }
}

/// The reasoning of a prediction, where it has one.
pub open spec fn reasoning_line(last: JsonView) -> Seq<char> {
    let reasoning = last.text_or("reasoning_text"@, ""@);
    if reasoning.len() > 0 {
        "- Your reasoning was: \""@ + reasoning + "\"\n"@
    } else {
        Seq::empty()
    }
}

/// The last prediction on an asset, where there is one.
pub open spec fn last_prediction(market: JsonView) -> Option<JsonView> {
    match market.get("last_prediction"@) {
        Some(last) => if last == JsonView::Null {
            None
        } else {
            Some(last)
        },
        None => None,
    }
}

/// With the last prediction on the market's asset.
pub open spec fn with_last_prediction(out: Seq<char>, market: JsonView) -> Seq<char> {
    match last_prediction(market) {
        Some(last) => out + "\n**Your last prediction on "@ + market.text_or(
            "asset"@,
            "BTC/USDT"@,
        ) + ":**\n- Direction: "@ + upper_or_unknown(last, "direction"@) + "\n"@ + result_line(
            last,
        ) + reasoning_line(last) + CONTINUITY@,
        None => out,
    }
}

fn last_prediction_of(market: &Json) -> (r: Option<&Json>)
    ensures
        r is Some == last_prediction(market@) is Some,
        r matches Some(last) ==> Some(last@) == last_prediction(market@),
{
    match market.get("last_prediction") {
        Some(last) => if last.is_null() {
            None
        } else {
            Some(last)
        },
        None => None,
    }
}

fn result_line_of(last: &Json) -> (r: String)
    ensures
        r@ == result_line(last@),
{
    let mut line = match last.bool_at("won") {
        Some(true) => "- Result: WON (outcome was ".to_owned(),
        Some(false) => "- Result: LOST (outcome was ".to_owned(),
        None => {
            return "- Result: pending (market not yet resolved)\n".to_owned();
        },
    };
    line.append(last.str_or("outcome", "pending").as_str());
    line.append(")\n");
    line
}

fn reasoning_line_of(last: &Json) -> (r: String)
    ensures
        r@ == reasoning_line(last@),
{
    let reasoning = last.str_or("reasoning_text", "");
    if reasoning.as_str().unicode_len() > 0 {
        let mut line = "- Your reasoning was: \"".to_owned();
        line.append(reasoning.as_str());
        line.append("\"\n");
        line
    } else {
        String::new()
    }
}

fn put_last_prediction(out: &mut String, market: &Json)
    ensures
        final(out)@ == with_last_prediction(old(out)@, market@),
{
    if let Some(last) = last_prediction_of(market) {
        out.append("\n**Your last prediction on ");
        out.append(market.str_or("asset", "BTC/USDT").as_str());
        out.append(":**\n- Direction: ");
        put_upper(out, last, "direction");
        out.append("\n");
        out.append(result_line_of(last).as_str());
        out.append(reasoning_line_of(last).as_str());
        out.append(CONTINUITY);
    }
}

/// With what either side costs and pays, given one less the probability.
pub open spec fn with_odds(out: Seq<char>, implied: Double, complement: Double) -> Seq<char> {
    let half = Double { bits: double::D050 };
    if half.lt(implied) || implied.lt(half) {
        out + "  → Buying UP costs "@ + numerals::fixed2(implied) + ", profit if correct: "@
            + numerals::fixed2(complement) + ". Buying DOWN costs "@ + numerals::fixed2(
            complement,
        ) + ", profit if correct: "@ + numerals::fixed2(implied) + ".\n\n"@
    } else {
        out + "  → Fair odds (0.50/0.50). Your edge comes purely from analysis.\n\n"@
    }
}

fn put_odds(out: &mut String, implied: Double, complement: Double)
    ensures
        final(out)@ == with_odds(old(out)@, implied, complement),
{
    let half = Double { bits: double::D050 };
    if half.less(implied) || implied.less(half) {
        out.append("  → Buying UP costs ");
        put_fixed2(out, implied);
        out.append(", profit if correct: ");
        put_fixed2(out, complement);
        out.append(". Buying DOWN costs ");
        put_fixed2(out, complement);
        out.append(", profit if correct: ");
        put_fixed2(out, implied);
        out.append(".\n\n");
    } else {
        out.append("  → Fair odds (0.50/0.50). Your edge comes purely from analysis.\n\n");
    }
}

// ── Klines ──────────────────────────────────────────────────────────────

/// A number with two decimals, or nothing.
pub open spec fn fixed2_at(value: JsonView, key: Seq<char>) -> Seq<char> {
    match value.double_at(key) {
        Some(d) => numerals::fixed2(d),
        None => Seq::empty(),
    }
}

/// A number without decimals, or nothing.
pub open spec fn fixed0_at(value: JsonView, key: Seq<char>) -> Seq<char> {
    match value.double_at(key) {
        Some(d) => numerals::fixed0(d),
        None => Seq::empty(),
    }
}

/// With one candle, where it is an object.
pub open spec fn with_candle(out: Seq<char>, candle: JsonView) -> Seq<char> {
    if candle is Object {
        out + text::signed_decimal(candle.signed_or("open_time"@, 0) as int) + " | "@ + fixed2_at(
            candle,
            "open"@,
        ) + " | "@ + fixed2_at(candle, "high"@) + " | "@ + fixed2_at(candle, "low"@) + " | "@
            + fixed2_at(candle, "close"@) + " | "@ + fixed0_at(candle, "volume"@) + "\n"@
    } else {
        out
    }
}

/// With the first `n` candles of a list.
pub open spec fn with_candle_rows(out: Seq<char>, candles: Seq<JsonView>, n: int) -> Seq<char>
    decreases n,
{
    if n <= 0 {
        out
    } else {
        with_candle(with_candle_rows(out, candles, n - 1), candles[n - 1])
    }
}

/// The last twenty candles.
pub open spec fn last_candles(candles: Seq<JsonView>) -> Seq<JsonView> {
    if candles.len() > 20 {
        candles.skip(candles.len() - 20)
    } else {
        candles
    }
}

/// With the candles of the market.
pub open spec fn with_klines(out: Seq<char>, klines: Option<Seq<JsonView>>) -> Seq<char> {
    match klines {
        Some(candles) => if candles.len() > 0 {
            with_candle_rows(
                out + "## Klines ("@ + text::decimal(candles.len()) + KLINES_HEAD@,
                last_candles(candles),
                last_candles(candles).len() as int,
            ) + "\n"@
        } else {
            out + NO_KLINES@
        },
        None => out + NO_KLINES@,
    }
}

fn put_fixed2_at(out: &mut String, value: &Json, key: &str)
    ensures
        final(out)@ == old(out)@ + fixed2_at(value@, key@),
{
    match value.double_at(key) {
        Some(d) => put_fixed2(out, d),
        None => {
            assert(out@ + Seq::<char>::empty() =~= out@);
        },
    }
}

fn put_candle(out: &mut String, candle: &Json)
    ensures
        final(out)@ == with_candle(old(out)@, candle@),
{
    match candle {
        Json::Object(_) => {
            put_signed(out, candle.i64_or("open_time", 0));
            out.append(" | ");
            put_fixed2_at(out, candle, "open");
            out.append(" | ");
            put_fixed2_at(out, candle, "high");
            out.append(" | ");
            put_fixed2_at(out, candle, "low");
            out.append(" | ");
            put_fixed2_at(out, candle, "close");
            out.append(" | ");
            match candle.double_at("volume") {
                Some(d) => put_fixed0(out, d),
                None => {
                    assert(out@ + Seq::<char>::empty() =~= out@);
                },
            }
            out.append("\n");
        },
        _ => {},
    }
}

fn put_klines(out: &mut String, klines: &Option<Vec<Json>>)
    ensures
        final(out)@ == with_klines(old(out)@, strategy::opt_trees(*klines)),
{
    match klines {
        Some(candles) => {
            if candles.len() == 0 {
                out.append(NO_KLINES);
                return ;
            }
            let ghost all = json::trees(candles@);
            let start: usize = if candles.len() > 20 {
                candles.len() - 20
            } else {
                0
            };
            assert(all.skip(start as int) =~= last_candles(all));
            out.append("## Klines (");
            text::push_decimal(out, candles.len() as u64);
            out.append(KLINES_HEAD);
            let ghost head = out@;
            let mut i: usize = start;
            while i < candles.len()
                invariant
                    start <= i <= candles@.len(),
                    all == json::trees(candles@),
                    last_candles(all) == all.skip(start as int),
                    out@ == with_candle_rows(head, last_candles(all), i - start),
                decreases candles@.len() - i,
            {
                assert(last_candles(all)[i - start] == candles@[i as int]@);
                put_candle(out, &candles[i]);
                i = i + 1;
            }
            out.append("\n");
        },
        None => {
            out.append(NO_KLINES);
        },
    }
}

// ── Other markets ───────────────────────────────────────────────────────

/// How the last prediction on a market turned out, in short.
pub open spec fn hint(market: JsonView) -> Seq<char> {
    match last_prediction(market) {
        Some(last) => match last.text_at("direction"@) {
            Some(direction) => " [last: "@ + direction + " "@ + (match last.boolean_at("won"@) {
                Some(true) => "won"@,
                Some(false) => "lost"@,
                None => "pending"@,
            }) + "]"@,
            None => Seq::empty(),
        },
        None => Seq::empty(),
    }
}

/// The name of a market: the text under `market_id`, or under `id` where there
/// is no `market_id` at all.
pub open spec fn market_name(market: JsonView) -> Seq<char> {
    match market.get("market_id"@) {
        Some(_) => market.text_or("market_id"@, "?"@),
        None => market.text_or("id"@, "?"@),
    }
}

/// With one other market.
pub open spec fn with_other(out: Seq<char>, market: JsonView) -> Seq<char> {
    out + "- "@ + market_name(market) + " ("@ + market.text_or("asset"@, "?"@) + " "@
        + market.text_or("window"@, "?"@) + ") score="@ + text::signed_decimal(
        market.signed_or("score"@, 0) as int,
    ) + " suggested="@ + market.text_or("suggested_side"@, "?"@) + hint(market) + " — "@
        + market.text_or("reason"@, ""@) + "\n"@
}

/// With the markets from the second to the one before the position `n`.
pub open spec fn with_other_rows(out: Seq<char>, markets: Seq<JsonView>, n: int) -> Seq<char>
    decreases n,
{
    if n <= 1 {
        out
    } else {
        with_other(with_other_rows(out, markets, n - 1), markets[n - 1])
    }
}

/// With the other markets that the server ranked, eight at most.
pub open spec fn with_others(out: Seq<char>, markets: Seq<JsonView>) -> Seq<char> {
    if markets.len() > 1 {
        with_other_rows(
            out + "## Other Markets (server-ranked)\n\n"@,
            markets,
            at_most(markets.len(), 9),
        ) + OTHERS_END@
    } else {
        out
    }
}

fn hint_of(market: &Json) -> (r: String)
    ensures
        r@ == hint(market@),
{
    match last_prediction_of(market) {
        Some(last) => match last.str_at("direction") {
            Some(direction) => {
                let mut out = " [last: ".to_owned();
                out.append(direction.as_str());
                out.append(" ");
                match last.bool_at("won") {
                    Some(true) => out.append("won"),
                    Some(false) => out.append("lost"),
                    None => out.append("pending"),
                }
                out.append("]");
                out
            },
            None => String::new(),
        },
        None => String::new(),
    }
}

fn put_other(out: &mut String, market: &Json)
    ensures
        final(out)@ == with_other(old(out)@, market@),
{
    out.append("- ");
    if market.get("market_id").is_some() {
        put_or_unknown(out, market, "market_id");
    } else {
        put_or_unknown(out, market, "id");
    }
    out.append(" (");
    put_or_unknown(out, market, "asset");
    out.append(" ");
    put_or_unknown(out, market, "window");
    out.append(") score=");
    put_signed(out, market.i64_or("score", 0));
    out.append(" suggested=");
    put_or_unknown(out, market, "suggested_side");
    out.append(hint_of(market).as_str());
    out.append(" — ");
    out.append(market.str_or("reason", "").as_str());
    out.append("\n");
}

fn put_others(out: &mut String, markets: &Vec<Json>)
    ensures
        final(out)@ == with_others(old(out)@, json::trees(markets@)),
{
    if markets.len() > 1 {
        let ghost all = json::trees(markets@);
        out.append("## Other Markets (server-ranked)\n\n");
        let ghost head = out@;
        let mut i: usize = 1;
        while i < markets.len() && i < 9
            invariant
                1 <= i <= markets@.len(),
                i <= 9,
                all == json::trees(markets@),
                out@ == with_other_rows(head, all, i as int),
            decreases markets@.len() - i,
        {
            assert(all[i as int] == markets@[i as int]@);
            put_other(out, &markets[i]);
            i = i + 1;
        }
        out.append(OTHERS_END);
    }
}

// ── The whole prompt ────────────────────────────────────────────────────

/// The first half of the prompt: the agent, the challenge, the rules, and
/// where the agent stands.
pub open spec fn prompt_state(
    market_id: Seq<char>,
    markets: nat,
    balance: Double,
    persona: Seq<char>,
    submissions_remaining: i64,
    slot_resets_in: u64,
    open_orders: Option<Seq<JsonView>>,
    recent_results: Option<Seq<JsonView>>,
    challenge: JsonView,
    recent_acc: Option<RecentAccuracy>,
) -> Seq<char> {
    let opening = with_challenge(
        with_opening(Seq::empty(), persona),
        market_id,
        challenge,
    );
    let sizes = with_sizes(with_rules(opening, market_id, persona, balance), persona, balance);
    let timeslot = with_timeslot(
        with_accuracy(sizes, recent_acc),
        submissions_remaining,
        slot_resets_in,
        markets,
    );
    with_results(with_orders(timeslot, open_orders), recent_results)
}

/// The second half of the prompt: the market, its orderbook, its candles, and
/// other markets.
pub open spec fn prompt_market(
    out: Seq<char>,
    market_id: Seq<char>,
    recommended: JsonView,
    klines: Option<Seq<JsonView>>,
    all_markets: Seq<JsonView>,
    has_open: bool,
    has_recent: bool,
    quotes: Quotes,
) -> Seq<char> {
    let closes = closes_in(recommended, quotes.now);
    let facts = with_market(out, market_id, recommended, closes);
    let warned = with_close_warning(
        with_recent_warning(with_open_warning(facts, has_open), has_recent),
        closes,
    );
    let insight = with_side(with_reason(warned, recommended), recommended);
    let book = with_book(insight, recommended, quotes.complements);
    let odds = with_odds(
        with_last_prediction(book, recommended),
        implied_up(recommended),
        quotes.implied,
    );
    with_others(with_klines(odds, klines), all_markets)
}

/// The prompt of a round.
pub open spec fn prompt(
    market_id: Seq<char>,
    recommended: JsonView,
    klines: Option<Seq<JsonView>>,
    all_markets: Seq<JsonView>,
    balance: Double,
    persona: Seq<char>,
    submissions_remaining: i64,
    slot_resets_in: u64,
    open_orders: Option<Seq<JsonView>>,
    recent_results: Option<Seq<JsonView>>,
    challenge: JsonView,
    recent_acc: Option<RecentAccuracy>,
    quotes: Quotes,
) -> Seq<char> {
    prompt_market(
        prompt_state(
            market_id,
            all_markets.len(),
            balance,
            persona,
            submissions_remaining,
            slot_resets_in,
            open_orders,
            recent_results,
            challenge,
            recent_acc,
        ),
        market_id,
        recommended,
        klines,
        all_markets,
        strategy::names_market(open_orders, market_id),
        strategy::names_market(recent_results, market_id),
        quotes,
    )
}

/// Builds the prompt of a round: who the agent is, the challenge word for
/// word, the rules, where the agent stands, the market, its orderbook and
/// candles, and the other markets.
pub fn build_prompt(
    market_id: &str,
    recommended: &Json,
    klines: &Option<Vec<Json>>,
    all_markets: &Vec<Json>,
    balance: Double,
    persona: &str,
    submissions_remaining: i64,
    slot_resets_in: u64,
    open_orders: &Option<Vec<Json>>,
    recent_results: &Option<Vec<Json>>,
    challenge: &Json,
    recent_acc: Option<RecentAccuracy>,
    quotes: Quotes,
) -> (r: String)
    requires
        recent_acc matches Some(acc) ==> acc.wf(),
        orders_fit(strategy::opt_trees(*open_orders)),
    ensures
        r@ == prompt(
            market_id@,
            recommended@,
            strategy::opt_trees(*klines),
            json::trees(all_markets@),
            balance,
            persona@,
            submissions_remaining,
            slot_resets_in,
            strategy::opt_trees(*open_orders),
            strategy::opt_trees(*recent_results),
            challenge@,
            recent_acc,
            quotes,
        ),
{
    let mut out = String::new();
    put_opening(&mut out, persona);
    put_challenge(&mut out, market_id, challenge);
    put_rules(&mut out, market_id, persona, balance);
    put_sizes(&mut out, persona, balance);
    put_accuracy(&mut out, recent_acc);
    put_timeslot(&mut out, submissions_remaining, slot_resets_in, all_markets.len());
    put_orders(&mut out, open_orders);
    put_results(&mut out, recent_results);
    let closes: i64 = closes_in_of(recommended, quotes.now);
    put_market(&mut out, market_id, recommended, closes);
    put_warnings(
        &mut out,
        strategy::any_on_market(open_orders, market_id),
        strategy::any_on_market(recent_results, market_id),
        closes,
    );
    put_insight(&mut out, recommended);
    put_book(&mut out, recommended, quotes.complements);
    put_last_prediction(&mut out, recommended);
    put_odds(&mut out, implied_up_of(recommended), quotes.implied);
    put_klines(&mut out, klines);
    put_others(&mut out, all_markets);
    out
}

// ── What holds of every prompt ──────────────────────────────────────────

/// Whether a text begins with another one.
pub open spec fn extends(longer: Seq<char>, shorter: Seq<char>) -> bool {
    shorter.len() <= longer.len() && longer.take(shorter.len() as int) == shorter
}

broadcast proof fn lemma_extends_sum(whole: Seq<char>, tail: Seq<char>, start: Seq<char>)
    requires
        extends(whole, start),
    ensures
        #[trigger] extends(whole + tail, start),
{
    assert((whole + tail).take(start.len() as int) =~= whole.take(start.len() as int));
}

broadcast proof fn lemma_extends_itself(start: Seq<char>)
    ensures
        #[trigger] extends(start, start),
{
    assert(start.take(start.len() as int) =~= start);
}

proof fn lemma_extends_trans(a: Seq<char>, b: Seq<char>, c: Seq<char>)
    requires
        extends(c, b),
        extends(b, a),
    ensures
        extends(c, a),
{
    assert(c.take(a.len() as int) =~= b.take(a.len() as int));
}

proof fn lemma_order_rows_extend(out: Seq<char>, orders: Seq<JsonView>, n: int)
    ensures
        extends(with_order_rows(out, orders, n), out),
    decreases n,
{
    broadcast use {lemma_extends_sum, lemma_extends_itself};

    if n > 0 {
        lemma_order_rows_extend(out, orders, n - 1);
    }
}

proof fn lemma_result_rows_extend(out: Seq<char>, results: Seq<JsonView>, n: int)
    ensures
        extends(with_result_rows(out, results, n), out),
    decreases n,
{
    broadcast use {lemma_extends_sum, lemma_extends_itself};

    if n > 0 {
        lemma_result_rows_extend(out, results, n - 1);
    }
}

proof fn lemma_candle_rows_extend(out: Seq<char>, candles: Seq<JsonView>, n: int)
    ensures
        extends(with_candle_rows(out, candles, n), out),
    decreases n,
{
    broadcast use {lemma_extends_sum, lemma_extends_itself};

    if n > 0 {
        lemma_candle_rows_extend(out, candles, n - 1);
    }
}

proof fn lemma_other_rows_extend(out: Seq<char>, markets: Seq<JsonView>, n: int)
    ensures
        extends(with_other_rows(out, markets, n), out),
    decreases n,
{
    broadcast use {lemma_extends_sum, lemma_extends_itself};

    if n > 1 {
        lemma_other_rows_extend(out, markets, n - 1);
    }
}

proof fn lemma_orders_extend(out: Seq<char>, open_orders: Option<Seq<JsonView>>)
    ensures
        extends(with_orders(out, open_orders), out),
{
    broadcast use {lemma_extends_sum, lemma_extends_itself};

    if let Some(orders) = open_orders {
        let head = out + "\n**Your open orders ("@ + text::decimal(orders.len())
            + ", fill rate: "@ + text::signed_decimal(filled_percent(orders)) + "%)**\n"@;
        lemma_order_rows_extend(head, orders, at_most(orders.len(), 10));
        assert(extends(head, out));
        lemma_extends_trans(out, head, with_order_rows(head, orders, at_most(orders.len(), 10)));
    }
}

proof fn lemma_results_extend(out: Seq<char>, recent_results: Option<Seq<JsonView>>)
    ensures
        extends(with_results(out, recent_results), out),
{
    broadcast use {lemma_extends_sum, lemma_extends_itself};

    if let Some(results) = recent_results {
        let head = out + "\n**Recent results (last "@ + text::decimal(results.len()) + ", "@
            + text::decimal(wins(results, results.len() as int)) + " wins):**\n"@;
        lemma_result_rows_extend(head, results, at_most(results.len(), 5));
        assert(extends(head, out));
        lemma_extends_trans(out, head, with_result_rows(head, results, at_most(results.len(), 5)));
    }
}

proof fn lemma_klines_extend(out: Seq<char>, klines: Option<Seq<JsonView>>)
    ensures
        extends(with_klines(out, klines), out),
{
    broadcast use {lemma_extends_sum, lemma_extends_itself};

    if let Some(candles) = klines {
        let head = out + "## Klines ("@ + text::decimal(candles.len()) + KLINES_HEAD@;
        let last = last_candles(candles);
        lemma_candle_rows_extend(head, last, last.len() as int);
        assert(extends(head, out));
        lemma_extends_trans(out, head, with_candle_rows(head, last, last.len() as int));
    }
}

proof fn lemma_others_extend(out: Seq<char>, markets: Seq<JsonView>)
    ensures
        extends(with_others(out, markets), out),
{
    broadcast use {lemma_extends_sum, lemma_extends_itself};

    let head = out + "## Other Markets (server-ranked)\n\n"@;
    lemma_other_rows_extend(head, markets, at_most(markets.len(), 9));
    assert(extends(head, out));
    lemma_extends_trans(out, head, with_other_rows(head, markets, at_most(markets.len(), 9)));
}

proof fn lemma_prices_extend(out: Seq<char>, book: JsonView, complements: Complements)
    ensures
        extends(with_prices(out, book, complements), out),
{
    broadcast use {lemma_extends_sum, lemma_extends_itself};

    let up = book.text_at("best_up_price"@);
    let down = book.text_at("best_down_price"@);
    let a = out + "- **Orderbook — how to get filled:**\n"@;
    let b = with_best(a, up, "UP"@, "DOWN"@, complements.up);
    let c = with_best(b, down, "DOWN"@, "UP"@, complements.down);
    let d = with_missing(c, up, "UP"@, "DOWN"@);
    let e = with_missing(d, down, "DOWN"@, "UP"@);
    let f = with_spread(e, book.double_at("spread"@));
    assert(extends(a, out) && extends(b, a) && extends(c, b) && extends(d, c) && extends(e, d)
        && extends(f, e));
    lemma_extends_trans(out, a, b);
    lemma_extends_trans(out, b, c);
    lemma_extends_trans(out, c, d);
    lemma_extends_trans(out, d, e);
    lemma_extends_trans(out, e, f);
}

proof fn lemma_book_extends(out: Seq<char>, market: JsonView, complements: Complements)
    ensures
        extends(with_book(out, market, complements), out),
{
    broadcast use {lemma_extends_sum, lemma_extends_itself};

    if let Some(book) = market.get("orderbook"@) {
        let a = with_last_price(out, book);
        let b = with_prices(a, book, complements);
        assert(extends(a, out));
        lemma_prices_extend(a, book, complements);
        lemma_extends_trans(out, a, b);
        assert(extends(with_volume(b, book), b));
        lemma_extends_trans(out, b, with_volume(b, book));
    }
}

proof fn lemma_market_extends(
    out: Seq<char>,
    market_id: Seq<char>,
    recommended: JsonView,
    klines: Option<Seq<JsonView>>,
    all_markets: Seq<JsonView>,
    has_open: bool,
    has_recent: bool,
    quotes: Quotes,
)
    ensures
        extends(
            prompt_market(
                out,
                market_id,
                recommended,
                klines,
                all_markets,
                has_open,
                has_recent,
                quotes,
            ),
            out,
        ),
        extends(
            prompt_market(
                out,
                market_id,
                recommended,
                klines,
                all_markets,
                has_open,
                has_recent,
                quotes,
            ),
            with_market(out, market_id, recommended, closes_in(recommended, quotes.now)),
        ),
{
    broadcast use {lemma_extends_sum, lemma_extends_itself};

    let closes = closes_in(recommended, quotes.now);
    let a = with_market(out, market_id, recommended, closes);
    let b = with_open_warning(a, has_open);
    let c = with_recent_warning(b, has_recent);
    let d = with_close_warning(c, closes);
    let e = with_reason(d, recommended);
    let f = with_side(e, recommended);
    let g = with_book(f, recommended, quotes.complements);
    let h = with_last_prediction(g, recommended);
    let i = with_odds(h, implied_up(recommended), quotes.implied);
    let j = with_klines(i, klines);
    let k = with_others(j, all_markets);
    assert(extends(a, out) && extends(b, a) && extends(c, b) && extends(d, c) && extends(e, d)
        && extends(f, e) && extends(h, g) && extends(i, h));
    lemma_book_extends(f, recommended, quotes.complements);
    lemma_klines_extend(i, klines);
    lemma_others_extend(j, all_markets);
    lemma_extends_trans(a, b, c);
    lemma_extends_trans(a, c, d);
    lemma_extends_trans(a, d, e);
    lemma_extends_trans(a, e, f);
    lemma_extends_trans(a, f, g);
    lemma_extends_trans(a, g, h);
    lemma_extends_trans(a, h, i);
    lemma_extends_trans(a, i, j);
    lemma_extends_trans(a, j, k);
    lemma_extends_trans(out, a, k);
}

proof fn lemma_has_in_longer(longer: Seq<char>, shorter: Seq<char>, pattern: Seq<char>)
    requires
        extends(longer, shorter),
        text::has(shorter, pattern),
    ensures
        text::has(longer, pattern),
{
    let at = choose|at: int| text::occurs_at(shorter, pattern, at);
    assert(longer.subrange(at, at + pattern.len()) =~= shorter.subrange(at, at + pattern.len()));
    assert(text::occurs_at(longer, pattern, at));
}

proof fn lemma_has_last(start: Seq<char>, pattern: Seq<char>)
    ensures
        text::has(start + pattern, pattern),
{
    assert((start + pattern).subrange(start.len() as int, (start + pattern).len() as int)
        =~= pattern);
    assert(text::occurs_at(start + pattern, pattern, start.len() as int));
}

/// Every prompt holds the text of the challenge and its instructions, word for
/// word, and names the market to which the challenge belongs.
pub proof fn prompt_holds_the_challenge(
    market_id: Seq<char>,
    recommended: JsonView,
    klines: Option<Seq<JsonView>>,
    all_markets: Seq<JsonView>,
    balance: Double,
    persona: Seq<char>,
    submissions_remaining: i64,
    slot_resets_in: u64,
    open_orders: Option<Seq<JsonView>>,
    recent_results: Option<Seq<JsonView>>,
    challenge: JsonView,
    recent_acc: Option<RecentAccuracy>,
    quotes: Quotes,
)
    ensures
        ({
            let whole = prompt(
                market_id,
                recommended,
                klines,
                all_markets,
                balance,
                persona,
                submissions_remaining,
                slot_resets_in,
                open_orders,
                recent_results,
                challenge,
                recent_acc,
                quotes,
            );
            &&& challenge::question(challenge) matches Some(q) ==> text::has(whole, q)
            &&& challenge::question(challenge) is Some ==> (challenge.text_at(
                "instructions"@,
            ) matches Some(i) ==> text::has(whole, i))
            &&& text::has(whole, "\n## Recommended Market\n\n- ID: "@ + market_id)
        }),
{
    broadcast use {lemma_extends_sum, lemma_extends_itself};

    let opening = with_opening(Seq::empty(), persona);
    let challenged = with_challenge(opening, market_id, challenge);
    let a = with_rules(challenged, market_id, persona, balance);
    let b = with_sizes(a, persona, balance);
    let c = with_accuracy(b, recent_acc);
    let d = with_remaining(c, submissions_remaining);
    let e = with_reset(d, slot_resets_in);
    let f = with_timeslot(c, submissions_remaining, slot_resets_in, all_markets.len());
    let g = with_orders(f, open_orders);
    let state = with_results(g, recent_results);
    assert(extends(a, challenged) && extends(b, a) && extends(c, b) && extends(d, c) && extends(
        e,
        d,
    ) && extends(f, e));
    lemma_orders_extend(f, open_orders);
    lemma_results_extend(g, recent_results);
    lemma_extends_trans(challenged, a, b);
    lemma_extends_trans(challenged, b, c);
    lemma_extends_trans(challenged, c, d);
    lemma_extends_trans(challenged, d, e);
    lemma_extends_trans(challenged, e, f);
    lemma_extends_trans(challenged, f, g);
    lemma_extends_trans(challenged, g, state);
    let has_open = strategy::names_market(open_orders, market_id);
    let has_recent = strategy::names_market(recent_results, market_id);
    let whole = prompt_market(
        state,
        market_id,
        recommended,
        klines,
        all_markets,
        has_open,
        has_recent,
        quotes,
    );
    lemma_market_extends(
        state,
        market_id,
        recommended,
        klines,
        all_markets,
        has_open,
        has_recent,
        quotes,
    );
    lemma_extends_trans(challenged, state, whole);
    if let Some(q) = challenge::question(challenge) {
        let before = opening
            + "## Server-Issued Challenge (reasoning must satisfy this in one pass)\n\nSubmit only to market `"@
            + market_id
            + "`. The challenge below applies to your `reasoning` string.\n\n--- challenge begins ---\n"@;
        let asked = before + q;
        lemma_has_last(before, q);
        let instructed = with_instructions(asked, challenge);
        assert(extends(instructed, asked));
        assert(extends(challenged, instructed));
        lemma_extends_trans(asked, instructed, challenged);
        lemma_extends_trans(asked, challenged, whole);
        lemma_has_in_longer(whole, asked, q);
        if let Some(i) = challenge.text_at("instructions"@) {
            lemma_has_last(asked + "\nInstructions: "@, i);
            lemma_extends_trans(instructed, challenged, whole);
            lemma_has_in_longer(whole, instructed, i);
        }
    }
    let closes = closes_in(recommended, quotes.now);
    let title = "\n## Recommended Market\n\n- ID: "@;
    let named = state + (title + market_id);
    assert(state + title + market_id =~= named);
    lemma_has_last(state, title + market_id);
    let facts = with_market(state, market_id, recommended, closes);
    assert(extends(facts, state + title + market_id));
    lemma_extends_trans(named, facts, whole);
    lemma_has_in_longer(whole, named, title + market_id);
}

proof fn lemma_state_stages(
    market_id: Seq<char>,
    markets: nat,
    balance: Double,
    persona: Seq<char>,
    submissions_remaining: i64,
    slot_resets_in: u64,
    open_orders: Option<Seq<JsonView>>,
    recent_results: Option<Seq<JsonView>>,
    challenge: JsonView,
    recent_acc: Option<RecentAccuracy>,
)
    ensures
        ({
            let whole = prompt_state(
                market_id,
                markets,
                balance,
                persona,
                submissions_remaining,
                slot_resets_in,
                open_orders,
                recent_results,
                challenge,
                recent_acc,
            );
            let a = with_opening(Seq::empty(), persona);
            let b = with_challenge(a, market_id, challenge);
            let c = with_rules(b, market_id, persona, balance);
            let d = with_sizes(c, persona, balance);
            let e = with_accuracy(d, recent_acc);
            let f = with_remaining(e, submissions_remaining);
            let g = with_reset(f, slot_resets_in);
            let h = with_timeslot(e, submissions_remaining, slot_resets_in, markets);
            let i = with_orders(h, open_orders);
            &&& extends(whole, a)
            &&& extends(whole, b)
            &&& extends(whole, c)
            &&& extends(whole, d)
            &&& extends(whole, e)
            &&& extends(whole, f)
            &&& extends(whole, g)
            &&& extends(whole, h)
            &&& extends(whole, i)
            &&& whole == with_results(i, recent_results)
        }),
{
    broadcast use {lemma_extends_sum, lemma_extends_itself};

    let a = with_opening(Seq::empty(), persona);
    let b = with_challenge(a, market_id, challenge);
    let c = with_rules(b, market_id, persona, balance);
    let d = with_sizes(c, persona, balance);
    let e = with_accuracy(d, recent_acc);
    let f = with_remaining(e, submissions_remaining);
    let g = with_reset(f, slot_resets_in);
    let h = with_timeslot(e, submissions_remaining, slot_resets_in, markets);
    let i = with_orders(h, open_orders);
    let whole = with_results(i, recent_results);
    assert(extends(b, a)) by {
        if let Some(q) = challenge::question(challenge) {
            let asked = a
                + "## Server-Issued Challenge (reasoning must satisfy this in one pass)\n\nSubmit only to market `"@
                + market_id
                + "`. The challenge below applies to your `reasoning` string.\n\n--- challenge begins ---\n"@
                + q;
            let instructed = with_instructions(asked, challenge);
            assert(extends(asked, a));
            assert(extends(instructed, asked));
            lemma_extends_trans(a, asked, instructed);
            assert(extends(b, instructed));
            lemma_extends_trans(a, instructed, b);
        }
    }
    assert(extends(c, b) && extends(d, c) && extends(e, d) && extends(f, e) && extends(g, f)
        && extends(h, g));
    lemma_orders_extend(h, open_orders);
    lemma_results_extend(i, recent_results);
    lemma_extends_trans(h, i, whole);
    lemma_extends_trans(g, h, whole);
    lemma_extends_trans(f, g, whole);
    lemma_extends_trans(e, f, whole);
    lemma_extends_trans(d, e, whole);
    lemma_extends_trans(c, d, whole);
    lemma_extends_trans(b, c, whole);
    lemma_extends_trans(a, b, whole);
}

proof fn lemma_market_stages(
    out: Seq<char>,
    market_id: Seq<char>,
    recommended: JsonView,
    klines: Option<Seq<JsonView>>,
    all_markets: Seq<JsonView>,
    has_open: bool,
    has_recent: bool,
    quotes: Quotes,
)
    ensures
        ({
            let whole = prompt_market(
                out,
                market_id,
                recommended,
                klines,
                all_markets,
                has_open,
                has_recent,
                quotes,
            );
            let closes = closes_in(recommended, quotes.now);
            let a = with_market(out, market_id, recommended, closes);
            let b = with_open_warning(a, has_open);
            let c = with_recent_warning(b, has_recent);
            let d = with_close_warning(c, closes);
            let e = with_reason(d, recommended);
            let f = with_side(e, recommended);
            let g = with_book(f, recommended, quotes.complements);
            let h = with_last_prediction(g, recommended);
            let i = with_odds(h, implied_up(recommended), quotes.implied);
            let j = with_klines(i, klines);
            &&& extends(whole, out)
            &&& extends(whole, a)
            &&& extends(whole, b)
            &&& extends(whole, c)
            &&& extends(whole, d)
            &&& extends(whole, e)
            &&& extends(whole, f)
            &&& extends(whole, g)
            &&& extends(whole, h)
            &&& extends(whole, i)
            &&& extends(whole, j)
            &&& whole == with_others(j, all_markets)
        }),
{
    broadcast use {lemma_extends_sum, lemma_extends_itself};

    let closes = closes_in(recommended, quotes.now);
    let a = with_market(out, market_id, recommended, closes);
    let b = with_open_warning(a, has_open);
    let c = with_recent_warning(b, has_recent);
    let d = with_close_warning(c, closes);
    let e = with_reason(d, recommended);
    let f = with_side(e, recommended);
    let g = with_book(f, recommended, quotes.complements);
    let h = with_last_prediction(g, recommended);
    let i = with_odds(h, implied_up(recommended), quotes.implied);
    let j = with_klines(i, klines);
    let whole = with_others(j, all_markets);
    assert(extends(a, out) && extends(b, a) && extends(c, b) && extends(d, c) && extends(e, d)
        && extends(f, e) && extends(h, g) && extends(i, h));
    lemma_book_extends(f, recommended, quotes.complements);
    lemma_klines_extend(i, klines);
    lemma_others_extend(j, all_markets);
    lemma_extends_trans(i, j, whole);
    lemma_extends_trans(h, i, whole);
    lemma_extends_trans(g, h, whole);
    lemma_extends_trans(f, g, whole);
    lemma_extends_trans(e, f, whole);
    lemma_extends_trans(d, e, whole);
    lemma_extends_trans(c, d, whole);
    lemma_extends_trans(b, c, whole);
    lemma_extends_trans(a, b, whole);
    lemma_extends_trans(out, a, whole);
}

/// The stages of a prompt, each with all that stands before it.
struct Stages {
    opening: Seq<char>,
    challenged: Seq<char>,
    ruled: Seq<char>,
    sized: Seq<char>,
    recorded: Seq<char>,
    counted: Seq<char>,
    timed: Seq<char>,
    slotted: Seq<char>,
    ordered: Seq<char>,
    state: Seq<char>,
    titled: Seq<char>,
    opened: Seq<char>,
    traded: Seq<char>,
    closing: Seq<char>,
    reasoned: Seq<char>,
    sided: Seq<char>,
    booked: Seq<char>,
    recalled: Seq<char>,
    priced: Seq<char>,
    charted: Seq<char>,
    whole: Seq<char>,
}

proof fn lemma_stages(
    market_id: Seq<char>,
    recommended: JsonView,
    klines: Option<Seq<JsonView>>,
    all_markets: Seq<JsonView>,
    balance: Double,
    persona: Seq<char>,
    submissions_remaining: i64,
    slot_resets_in: u64,
    open_orders: Option<Seq<JsonView>>,
    recent_results: Option<Seq<JsonView>>,
    challenge: JsonView,
    recent_acc: Option<RecentAccuracy>,
    quotes: Quotes,
) -> (s: Stages)
    ensures
        s.whole == prompt(
            market_id,
            recommended,
            klines,
            all_markets,
            balance,
            persona,
            submissions_remaining,
            slot_resets_in,
            open_orders,
            recent_results,
            challenge,
            recent_acc,
            quotes,
        ),
        s.opening == with_opening(Seq::empty(), persona),
        s.challenged == with_challenge(s.opening, market_id, challenge),
        s.ruled == with_rules(s.challenged, market_id, persona, balance),
        s.sized == with_sizes(s.ruled, persona, balance),
        s.recorded == with_accuracy(s.sized, recent_acc),
        s.counted == with_remaining(s.recorded, submissions_remaining),
        s.timed == with_reset(s.counted, slot_resets_in),
        s.slotted == s.timed + "- Available markets: "@ + text::decimal(all_markets.len()) + "\n"@,
        s.ordered == with_orders(s.slotted, open_orders),
        s.state == with_results(s.ordered, recent_results),
        s.titled == with_market(
            s.state,
            market_id,
            recommended,
            closes_in(recommended, quotes.now),
        ),
        s.opened == with_open_warning(s.titled, strategy::names_market(open_orders, market_id)),
        s.traded == with_recent_warning(
            s.opened,
            strategy::names_market(recent_results, market_id),
        ),
        s.closing == with_close_warning(s.traded, closes_in(recommended, quotes.now)),
        s.reasoned == with_reason(s.closing, recommended),
        s.sided == with_side(s.reasoned, recommended),
        s.booked == with_book(s.sided, recommended, quotes.complements),
        s.recalled == with_last_prediction(s.booked, recommended),
        s.priced == with_odds(s.recalled, implied_up(recommended), quotes.implied),
        s.charted == with_klines(s.priced, klines),
        s.whole == with_others(s.charted, all_markets),
        extends(s.whole, s.opening),
        extends(s.whole, s.challenged),
        extends(s.whole, s.ruled),
        extends(s.whole, s.sized),
        extends(s.whole, s.recorded),
        extends(s.whole, s.counted),
        extends(s.whole, s.timed),
        extends(s.whole, s.slotted),
        extends(s.whole, s.ordered),
        extends(s.whole, s.state),
        extends(s.whole, s.titled),
        extends(s.whole, s.opened),
        extends(s.whole, s.traded),
        extends(s.whole, s.closing),
        extends(s.whole, s.reasoned),
        extends(s.whole, s.sided),
        extends(s.whole, s.booked),
        extends(s.whole, s.recalled),
        extends(s.whole, s.priced),
        extends(s.whole, s.charted),
        extends(s.whole, s.whole),
{
    let state = prompt_state(
        market_id,
        all_markets.len(),
        balance,
        persona,
        submissions_remaining,
        slot_resets_in,
        open_orders,
        recent_results,
        challenge,
        recent_acc,
    );
    let has_open = strategy::names_market(open_orders, market_id);
    let has_recent = strategy::names_market(recent_results, market_id);
    lemma_state_stages(
        market_id,
        all_markets.len(),
        balance,
        persona,
        submissions_remaining,
        slot_resets_in,
        open_orders,
        recent_results,
        challenge,
        recent_acc,
    );
    lemma_market_stages(
        state,
        market_id,
        recommended,
        klines,
        all_markets,
        has_open,
        has_recent,
        quotes,
    );
    let opening = with_opening(Seq::empty(), persona);
    let challenged = with_challenge(opening, market_id, challenge);
    let ruled = with_rules(challenged, market_id, persona, balance);
    let sized = with_sizes(ruled, persona, balance);
    let recorded = with_accuracy(sized, recent_acc);
    let counted = with_remaining(recorded, submissions_remaining);
    let timed = with_reset(counted, slot_resets_in);
    let slotted = with_timeslot(
        recorded,
        submissions_remaining,
        slot_resets_in,
        all_markets.len(),
    );
    let ordered = with_orders(slotted, open_orders);
    let closes = closes_in(recommended, quotes.now);
    let titled = with_market(state, market_id, recommended, closes);
    let opened = with_open_warning(titled, has_open);
    let traded = with_recent_warning(opened, has_recent);
    let closing = with_close_warning(traded, closes);
    let reasoned = with_reason(closing, recommended);
    let sided = with_side(reasoned, recommended);
    let booked = with_book(sided, recommended, quotes.complements);
    let recalled = with_last_prediction(booked, recommended);
    let priced = with_odds(recalled, implied_up(recommended), quotes.implied);
    let charted = with_klines(priced, klines);
    let whole = with_others(charted, all_markets);
    lemma_extends_trans(opening, state, whole);
    lemma_extends_trans(challenged, state, whole);
    lemma_extends_trans(ruled, state, whole);
    lemma_extends_trans(sized, state, whole);
    lemma_extends_trans(recorded, state, whole);
    lemma_extends_trans(counted, state, whole);
    lemma_extends_trans(timed, state, whole);
    lemma_extends_trans(slotted, state, whole);
    lemma_extends_trans(ordered, state, whole);
    lemma_extends_itself(whole);
    Stages {
        opening,
        challenged,
        ruled,
        sized,
        recorded,
        counted,
        timed,
        slotted,
        ordered,
        state,
        titled,
        opened,
        traded,
        closing,
        reasoned,
        sided,
        booked,
        recalled,
        priced,
        charted,
        whole,
    }
}

broadcast proof fn lemma_sum_shifts(a: Seq<char>, b: Seq<char>, c: Seq<char>)
    ensures
        #[trigger] (a + (b + c)) == (a + b) + c,
{
    assert(a + (b + c) =~= (a + b) + c);
}

/// A text that ends with a line holds it, also with more behind.
proof fn lemma_line(stage: Seq<char>, before: Seq<char>, line: Seq<char>, rest: Seq<char>)
    requires
        stage == before + line + rest,
    ensures
        text::has(stage, line),
{
    let at = before.len() as int;
    assert(stage.subrange(at, at + line.len()) =~= line);
    assert(text::occurs_at(stage, line, at));
}

proof fn lemma_odds_line(out: Seq<char>, p: Double, complement: Double)
    ensures
        ({
            let half = Double { bits: double::D050 };
            let (up, down) = (numerals::fixed2(p), numerals::fixed2(complement));
            let line = "  → Buying UP costs "@ + up + ", profit if correct: "@ + down
                + ". Buying DOWN costs "@ + down + ", profit if correct: "@ + up + ".\n"@;
            &&& half.lt(p) || p.lt(half) ==> text::has(with_odds(out, p, complement), line)
            &&& !half.lt(p) && !p.lt(half) ==> text::has(
                with_odds(out, p, complement),
                "  → Fair odds (0.50/0.50). Your edge comes purely from analysis.\n\n"@,
            )
        }),
{
    broadcast use lemma_sum_shifts;

    let half = Double { bits: double::D050 };
    let whole = with_odds(out, p, complement);
    if half.lt(p) || p.lt(half) {
        let (up, down) = (numerals::fixed2(p), numerals::fixed2(complement));
        let body = "  → Buying UP costs "@ + up + ", profit if correct: "@ + down
            + ". Buying DOWN costs "@ + down + ", profit if correct: "@ + up;
        reveal_strlit(".\n\n");
        reveal_strlit(".\n");
        assert(".\n\n"@ =~= ".\n"@ + seq!['\n']);
        assert(whole =~= out + (body + ".\n"@) + seq!['\n']);
        lemma_line(whole, out, body + ".\n"@, seq!['\n']);
    } else {
        lemma_has_last(
            out,
            "  → Fair odds (0.50/0.50). Your edge comes purely from analysis.\n\n"@,
        );
    }
}

/// The prompt tells the odds. Where the implied probability of `up` is above or
/// below one half, it states the cost of UP as that probability and of DOWN as
/// one less it, and the profit of either as the cost of the other, all with two
/// decimals. Only where the probability is neither are the odds called fair.
pub proof fn prompt_tells_the_odds(
    market_id: Seq<char>,
    recommended: JsonView,
    klines: Option<Seq<JsonView>>,
    all_markets: Seq<JsonView>,
    balance: Double,
    persona: Seq<char>,
    submissions_remaining: i64,
    slot_resets_in: u64,
    open_orders: Option<Seq<JsonView>>,
    recent_results: Option<Seq<JsonView>>,
    challenge: JsonView,
    recent_acc: Option<RecentAccuracy>,
    quotes: Quotes,
)
    ensures
        ({
            let whole = prompt(
                market_id,
                recommended,
                klines,
                all_markets,
                balance,
                persona,
                submissions_remaining,
                slot_resets_in,
                open_orders,
                recent_results,
                challenge,
                recent_acc,
                quotes,
            );
            let p = implied_up(recommended);
            let half = Double { bits: double::D050 };
            &&& half.lt(p) ==> text::has(
                whole,
                "  → Buying UP costs "@ + numerals::fixed2(p) + ", profit if correct: "@
                    + numerals::fixed2(quotes.implied) + ". Buying DOWN costs "@
                    + numerals::fixed2(quotes.implied) + ", profit if correct: "@
                    + numerals::fixed2(p) + ".\n"@,
            )
            &&& p.lt(half) ==> text::has(
                whole,
                "  → Buying UP costs "@ + numerals::fixed2(p) + ", profit if correct: "@
                    + numerals::fixed2(quotes.implied) + ". Buying DOWN costs "@
                    + numerals::fixed2(quotes.implied) + ", profit if correct: "@
                    + numerals::fixed2(p) + ".\n"@,
            )
            &&& !half.lt(p) && !p.lt(half) ==> text::has(
                whole,
                "  → Fair odds (0.50/0.50). Your edge comes purely from analysis.\n\n"@,
            )
        }),
{
    let s = lemma_stages(
        market_id,
        recommended,
        klines,
        all_markets,
        balance,
        persona,
        submissions_remaining,
        slot_resets_in,
        open_orders,
        recent_results,
        challenge,
        recent_acc,
        quotes,
    );
    let p = implied_up(recommended);
    let half = Double { bits: double::D050 };
    lemma_odds_line(s.recalled, p, quotes.implied);
    if half.lt(p) || p.lt(half) {
        let (up, down) = (numerals::fixed2(p), numerals::fixed2(quotes.implied));
        let line = "  → Buying UP costs "@ + up + ", profit if correct: "@ + down
            + ". Buying DOWN costs "@ + down + ", profit if correct: "@ + up + ".\n"@;
        lemma_has_in_longer(s.whole, s.priced, line);
    } else {
        lemma_has_in_longer(
            s.whole,
            s.priced,
            "  → Fair odds (0.50/0.50). Your edge comes purely from analysis.\n\n"@,
        );
    }
}

proof fn lemma_opening_line(persona: Seq<char>)
    ensures
        persona == "none"@ ==> with_opening(Seq::empty(), persona)
            == "You are a prediction agent competing in AWP Predict WorkNet.\n\n"@,
        persona != "none"@ ==> with_opening(Seq::empty(), persona)
            == "You are a prediction agent competing in AWP Predict WorkNet"@ + " (persona: "@
            + persona + ")"@ + ".\n\n"@,
{
    reveal_strlit("You are a prediction agent competing in AWP Predict WorkNet");
    reveal_strlit(".\n\n");
    reveal_strlit("You are a prediction agent competing in AWP Predict WorkNet.\n\n");
    let start = "You are a prediction agent competing in AWP Predict WorkNet"@;
    if persona == "none"@ {
        assert(with_opening(Seq::empty(), persona)
            =~= "You are a prediction agent competing in AWP Predict WorkNet.\n\n"@);
    } else {
        assert(with_opening(Seq::empty(), persona) =~= start + " (persona: "@ + persona + ")"@
            + ".\n\n"@);
    }
}

proof fn lemma_rules_lines(
    out: Seq<char>,
    market_id: Seq<char>,
    persona: Seq<char>,
    balance: Double,
)
    ensures
        ({
            let chips = numerals::fixed0(balance);
            let tickets = "- \"tickets\": how many chips to commit (integer, minimum 100, max "@ + chips
                + "). Size according to your persona and conviction!\n- \"market_id\": which market (default: \""@
                + market_id + "\", required if action=submit)\n"@;
            let ruled = with_rules(out, market_id, persona, balance);
            &&& text::has(ruled, tickets)
            &&& text::has(ruled, "- Balance: "@ + chips + " chips\n"@)
        }),
{
    broadcast use lemma_sum_shifts;

    let chips = numerals::fixed0(balance);
    let ruled = with_rules(out, market_id, persona, balance);
    let head = out + style(persona) + RULES@;
    let tickets = "- \"tickets\": how many chips to commit (integer, minimum 100, max "@ + chips
        + "). Size according to your persona and conviction!\n- \"market_id\": which market (default: \""@
        + market_id + "\", required if action=submit)\n"@;
    let middle = FORMAT@ + "- \"tickets\": integer, minimum 100, max "@ + chips
        + "\n- \"market_id\": which market (default: \""@ + market_id + "\")\n"@ + LANGUAGE@;
    let line = "- Balance: "@ + chips + " chips\n"@;
    assert(ruled =~= head + tickets + (middle + line));
    lemma_line(ruled, head, tickets, middle + line);
    assert(ruled =~= head + tickets + middle + line);
    lemma_has_last(head + tickets + middle, line);
}

proof fn lemma_sizing_line(out: Seq<char>, persona: Seq<char>, balance: Double)
    ensures
        text::has(
            with_sizes(out, persona, balance),
            "- **Your sizing ("@ + persona + ", STRONG edge):** "@ + text::decimal(
                tickets_of_share(balance, min_fraction(persona)),
            ) + "-"@ + text::decimal(tickets_of_share(balance, max_fraction(persona))) + " tickets. "@,
        ),
{
    broadcast use lemma_sum_shifts;

    let sizing = "- **Your sizing ("@ + persona + ", STRONG edge):** "@ + text::decimal(
        tickets_of_share(balance, min_fraction(persona)),
    ) + "-"@ + text::decimal(tickets_of_share(balance, max_fraction(persona))) + " tickets. "@;
    let rest = sizing_note(persona) + "\n"@ + (if is_careful(persona) {
        CAREFUL_MEDIUM@
    } else {
        FREE_MEDIUM@
    });
    let whole = with_sizes(out, persona, balance);
    assert(whole =~= out + sizing + rest);
    lemma_line(whole, out, sizing, rest);
}

/// The prompt says who the agent is and what it can commit: the persona, the
/// balance without decimals, and the range of tickets of a strong setup, which
/// are the shares of the balance by the persona's two fractions.
pub proof fn prompt_tells_the_stakes(
    market_id: Seq<char>,
    recommended: JsonView,
    klines: Option<Seq<JsonView>>,
    all_markets: Seq<JsonView>,
    balance: Double,
    persona: Seq<char>,
    submissions_remaining: i64,
    slot_resets_in: u64,
    open_orders: Option<Seq<JsonView>>,
    recent_results: Option<Seq<JsonView>>,
    challenge: JsonView,
    recent_acc: Option<RecentAccuracy>,
    quotes: Quotes,
)
    ensures
        ({
            let whole = prompt(
                market_id,
                recommended,
                klines,
                all_markets,
                balance,
                persona,
                submissions_remaining,
                slot_resets_in,
                open_orders,
                recent_results,
                challenge,
                recent_acc,
                quotes,
            );
            let chips = numerals::fixed0(balance);
            &&& persona == "none"@ ==> extends(
                whole,
                "You are a prediction agent competing in AWP Predict WorkNet.\n\n"@,
            )
            &&& persona != "none"@ ==> extends(
                whole,
                "You are a prediction agent competing in AWP Predict WorkNet"@ + " (persona: "@
                    + persona + ")"@ + ".\n\n"@,
            )
            &&& text::has(whole, "- Balance: "@ + chips + " chips\n"@)
            &&& text::has(
                whole,
                "- \"tickets\": how many chips to commit (integer, minimum 100, max "@ + chips
                    + "). Size according to your persona and conviction!\n- \"market_id\": which market (default: \""@
                    + market_id + "\", required if action=submit)\n"@,
            )
            &&& text::has(
                whole,
                "- **Your sizing ("@ + persona + ", STRONG edge):** "@ + text::decimal(
                    tickets_of_share(balance, min_fraction(persona)),
                ) + "-"@ + text::decimal(tickets_of_share(balance, max_fraction(persona)))
                    + " tickets. "@,
            )
        }),
{
    let s = lemma_stages(
        market_id,
        recommended,
        klines,
        all_markets,
        balance,
        persona,
        submissions_remaining,
        slot_resets_in,
        open_orders,
        recent_results,
        challenge,
        recent_acc,
        quotes,
    );
    let chips = numerals::fixed0(balance);
    let tickets = "- \"tickets\": how many chips to commit (integer, minimum 100, max "@ + chips
        + "). Size according to your persona and conviction!\n- \"market_id\": which market (default: \""@
        + market_id + "\", required if action=submit)\n"@;
    let sizing = "- **Your sizing ("@ + persona + ", STRONG edge):** "@ + text::decimal(
        tickets_of_share(balance, min_fraction(persona)),
    ) + "-"@ + text::decimal(tickets_of_share(balance, max_fraction(persona))) + " tickets. "@;
    lemma_opening_line(persona);
    lemma_rules_lines(s.challenged, market_id, persona, balance);
    lemma_sizing_line(s.ruled, persona, balance);
    lemma_has_in_longer(s.whole, s.ruled, tickets);
    lemma_has_in_longer(s.whole, s.ruled, "- Balance: "@ + chips + " chips\n"@);
    lemma_has_in_longer(s.whole, s.sized, sizing);
}

/// The line on recent results.
spec fn record_line(acc: RecentAccuracy) -> Seq<char> {
    "- **Recent filled accuracy: "@ + text::decimal(
        numerals::rounded_percent(acc.wins as nat, acc.filled as nat),
    ) + "% ("@ + text::decimal(acc.wins as nat) + "W / "@ + text::decimal(acc.losses as nat)
        + "L over last "@ + text::decimal(acc.filled as nat) + " resolved).**\n"@
}

proof fn lemma_record_lines(out: Seq<char>, acc: RecentAccuracy)
    ensures
        text::has(with_accuracy(out, Some(acc)), record_line(acc)),
        acc.filled >= 5 && 5 * acc.wins < 2 * acc.filled ==> text::has(
            with_accuracy(out, Some(acc)),
            record_line(acc)
                + "  Recent results are poor — tighten the bar this round. Skip anything that isn't a strong, well-priced setup.\n"@,
        ),
{
    broadcast use lemma_sum_shifts;

    let line = record_line(acc);
    let whole = with_accuracy(out, Some(acc));
    if acc.filled >= 5 && 5 * acc.wins < 2 * acc.filled {
        assert(whole =~= out + line + LOSING@);
        lemma_line(whole, out, line, LOSING@);
        assert(whole =~= out + (line + LOSING@));
        lemma_has_last(out, line + LOSING@);
    } else {
        assert(whole =~= out + line);
        lemma_has_last(out, line);
    }
}

proof fn lemma_timeslot_lines(out: Seq<char>, remaining: i64, resets_in: u64)
    ensures
        remaining >= 1 ==> text::has(
            with_remaining(out, remaining),
            "- Submissions remaining this timeslot: "@ + text::signed_decimal(remaining as int)
                + "/3 (cap, not a quota — only use if edge is real).\n"@,
        ),
        remaining <= 0 ==> text::has(
            with_remaining(out, remaining),
            "- Submissions: 0/3 remaining this timeslot — wait for next timeslot.\n"@,
        ),
        1 <= resets_in < 660 ==> text::has(
            with_reset(out, resets_in),
            "- Timeslot resets in "@ + text::decimal(resets_in as nat / 60) + "m"@ + text::decimal(
                resets_in as nat % 60,
            ) + "s\n"@,
        ),
        resets_in >= 660 ==> text::has(
            with_reset(out, resets_in),
            "- Timeslot resets in "@ + text::decimal(resets_in as nat / 60) + "m\n"@,
        ),
{
    broadcast use lemma_sum_shifts;

    if remaining > 0 {
        let line = "- Submissions remaining this timeslot: "@ + text::signed_decimal(remaining as int)
            + "/3 (cap, not a quota — only use if edge is real).\n"@;
        assert(with_remaining(out, remaining) =~= out + line);
        lemma_has_last(out, line);
    } else {
        lemma_has_last(
            out,
            "- Submissions: 0/3 remaining this timeslot — wait for next timeslot.\n"@,
        );
    }
    let minutes = "- Timeslot resets in "@ + text::decimal(resets_in as nat / 60);
    let long = minutes + "m\n"@;
    let short = minutes + "m"@ + text::decimal(resets_in as nat % 60) + "s\n"@;
    if resets_in >= 660 {
        assert(with_reset(out, resets_in) =~= out + long);
        lemma_has_last(out, long);
    } else if resets_in > 0 {
        assert(with_reset(out, resets_in) =~= out + short);
        lemma_has_last(out, short);
    }
}

/// The prompt tells the record and the timeslot: the wins and losses with their
/// percentage, with a warning on a losing streak (five orders or more, less than
/// two in five won), the submissions that remain of three, the time to the
/// reset, in minutes alone from eleven on, and the number of markets.
pub proof fn prompt_tells_the_record(
    market_id: Seq<char>,
    recommended: JsonView,
    klines: Option<Seq<JsonView>>,
    all_markets: Seq<JsonView>,
    balance: Double,
    persona: Seq<char>,
    submissions_remaining: i64,
    slot_resets_in: u64,
    open_orders: Option<Seq<JsonView>>,
    recent_results: Option<Seq<JsonView>>,
    challenge: JsonView,
    recent_acc: Option<RecentAccuracy>,
    quotes: Quotes,
)
    ensures
        ({
            let whole = prompt(
                market_id,
                recommended,
                klines,
                all_markets,
                balance,
                persona,
                submissions_remaining,
                slot_resets_in,
                open_orders,
                recent_results,
                challenge,
                recent_acc,
                quotes,
            );
            &&& recent_acc matches Some(acc) ==> {
                let banner = "- **Recent filled accuracy: "@ + text::decimal(
                    numerals::rounded_percent(acc.wins as nat, acc.filled as nat),
                ) + "% ("@ + text::decimal(acc.wins as nat) + "W / "@ + text::decimal(
                    acc.losses as nat,
                ) + "L over last "@ + text::decimal(acc.filled as nat) + " resolved).**\n"@;
                &&& text::has(whole, banner)
                &&& acc.filled >= 5 && 5 * acc.wins < 2 * acc.filled ==> text::has(
                    whole,
                    banner
                        + "  Recent results are poor — tighten the bar this round. Skip anything that isn't a strong, well-priced setup.\n"@,
                )
            }
            &&& submissions_remaining >= 1 ==> text::has(
                whole,
                "- Submissions remaining this timeslot: "@ + text::signed_decimal(
                    submissions_remaining as int,
                ) + "/3 (cap, not a quota — only use if edge is real).\n"@,
            )
            &&& submissions_remaining <= 0 ==> text::has(
                whole,
                "- Submissions: 0/3 remaining this timeslot — wait for next timeslot.\n"@,
            )
            &&& 1 <= slot_resets_in < 660 ==> text::has(
                whole,
                "- Timeslot resets in "@ + text::decimal(slot_resets_in as nat / 60) + "m"@
                    + text::decimal(slot_resets_in as nat % 60) + "s\n"@,
            )
            &&& slot_resets_in >= 660 ==> text::has(
                whole,
                "- Timeslot resets in "@ + text::decimal(slot_resets_in as nat / 60) + "m\n"@,
            )
            &&& text::has(
                whole,
                "- Available markets: "@ + text::decimal(all_markets.len()) + "\n"@,
            )
        }),
{
    let s = lemma_stages(
        market_id,
        recommended,
        klines,
        all_markets,
        balance,
        persona,
        submissions_remaining,
        slot_resets_in,
        open_orders,
        recent_results,
        challenge,
        recent_acc,
        quotes,
    );
    if let Some(acc) = recent_acc {
        let line = record_line(acc);
        lemma_record_lines(s.sized, acc);
        lemma_has_in_longer(s.whole, s.recorded, line);
        if acc.filled >= 5 && 5 * acc.wins < 2 * acc.filled {
            lemma_has_in_longer(
                s.whole,
                s.recorded,
                line
                    + "  Recent results are poor — tighten the bar this round. Skip anything that isn't a strong, well-priced setup.\n"@,
            );
        }
    }
    lemma_timeslot_lines(s.recorded, submissions_remaining, slot_resets_in);
    lemma_timeslot_lines(s.counted, submissions_remaining, slot_resets_in);
    let remaining = submissions_remaining;
    if remaining > 0 {
        lemma_has_in_longer(
            s.whole,
            s.counted,
            "- Submissions remaining this timeslot: "@ + text::signed_decimal(remaining as int)
                + "/3 (cap, not a quota — only use if edge is real).\n"@,
        );
    } else {
        lemma_has_in_longer(
            s.whole,
            s.counted,
            "- Submissions: 0/3 remaining this timeslot — wait for next timeslot.\n"@,
        );
    }
    let minutes = "- Timeslot resets in "@ + text::decimal(slot_resets_in as nat / 60);
    if slot_resets_in >= 660 {
        lemma_has_in_longer(s.whole, s.timed, minutes + "m\n"@);
    } else if slot_resets_in > 0 {
        lemma_has_in_longer(
            s.whole,
            s.timed,
            minutes + "m"@ + text::decimal(slot_resets_in as nat % 60) + "s\n"@,
        );
    }
    let count = "- Available markets: "@ + text::decimal(all_markets.len()) + "\n"@;
    assert(s.slotted =~= s.timed + count);
    lemma_has_last(s.timed, count);
    lemma_has_in_longer(s.whole, s.slotted, count);
}

proof fn lemma_order_text(order: JsonView)
    ensures
        with_order(Seq::empty(), order) == "- "@ + order.text_or("asset"@, "?"@) + " "@
            + order.text_or("window"@, "?"@) + " "@ + text::uppercase(
            order.text_or("direction"@, "?"@),
        ) + " — "@ + order_state(
            order.signed_or("tickets_filled"@, 0),
            order.signed_or("tickets"@, 0),
        ) + " "@ + text::signed_decimal(order.signed_or("tickets_filled"@, 0) as int) + "/"@
            + text::signed_decimal(order.signed_or("tickets"@, 0) as int) + " tickets, closes "@
            + order.text_or("close_at"@, "?"@) + "\n"@,
{
    assert(Seq::<char>::empty() + "- "@ =~= "- "@);
}

proof fn lemma_result_text(result: JsonView)
    ensures
        with_result(Seq::empty(), result) == "- "@ + result.text_or("asset"@, "?"@) + " "@
            + result.text_or("window"@, "?"@) + " "@ + text::uppercase(
            result.text_or("direction"@, "?"@),
        ) + " — "@ + (if is_won(result) {
            "WON"@
        } else {
            "LOST"@
        }) + " (payout: "@ + text::signed_decimal(result.signed_or("payout_chips"@, 0) as int)
            + ", spent: "@ + text::signed_decimal(result.signed_or("chips_spent"@, 0) as int)
            + ")\n"@,
{
    assert(Seq::<char>::empty() + "- "@ =~= "- "@);
}

proof fn lemma_order_is_added(out: Seq<char>, item: JsonView)
    ensures
        with_order(out, item) == out + with_order(Seq::empty(), item),
{
    broadcast use lemma_sum_shifts;

    assert(out + Seq::<char>::empty() =~= out);
}

proof fn lemma_order_row(out: Seq<char>, orders: Seq<JsonView>, n: int, k: int)
    requires
        0 <= k < n,
    ensures
        text::has(with_order_rows(out, orders, n), with_order(Seq::empty(), orders[k])),
    decreases n,
{
    let before = with_order_rows(out, orders, n - 1);
    let row = with_order(Seq::empty(), orders[n - 1]);
    lemma_order_is_added(before, orders[n - 1]);
    lemma_extends_itself(before);
    lemma_extends_sum(before, row, before);
    if k == n - 1 {
        lemma_has_last(before, row);
    } else {
        lemma_order_row(out, orders, n - 1, k);
        lemma_has_in_longer(before + row, before, with_order(Seq::empty(), orders[k]));
    }
}

proof fn lemma_result_is_added(out: Seq<char>, item: JsonView)
    ensures
        with_result(out, item) == out + with_result(Seq::empty(), item),
{
    broadcast use lemma_sum_shifts;

    assert(out + Seq::<char>::empty() =~= out);
}

proof fn lemma_result_row(out: Seq<char>, results: Seq<JsonView>, n: int, k: int)
    requires
        0 <= k < n,
    ensures
        text::has(with_result_rows(out, results, n), with_result(Seq::empty(), results[k])),
    decreases n,
{
    let before = with_result_rows(out, results, n - 1);
    let row = with_result(Seq::empty(), results[n - 1]);
    lemma_result_is_added(before, results[n - 1]);
    lemma_extends_itself(before);
    lemma_extends_sum(before, row, before);
    if k == n - 1 {
        lemma_has_last(before, row);
    } else {
        lemma_result_row(out, results, n - 1, k);
        lemma_has_in_longer(before + row, before, with_result(Seq::empty(), results[k]));
    }
}

proof fn lemma_orders_lines(out: Seq<char>, orders: Seq<JsonView>, k: int)
    requires
        orders.len() > 0,
    ensures
        text::has(
            with_orders(out, Some(orders)),
            "\n**Your open orders ("@ + text::decimal(orders.len()) + ", fill rate: "@
                + text::signed_decimal(filled_percent(orders)) + "%)**\n"@,
        ),
        0 <= k < orders.len() && k < 10 ==> text::has(
            with_orders(out, Some(orders)),
            with_order(Seq::empty(), orders[k]),
        ),
{
    broadcast use {lemma_extends_sum, lemma_extends_itself};

    let title = "\n**Your open orders ("@ + text::decimal(orders.len()) + ", fill rate: "@
        + text::signed_decimal(filled_percent(orders)) + "%)**\n"@;
    let head = out + "\n**Your open orders ("@ + text::decimal(orders.len()) + ", fill rate: "@
        + text::signed_decimal(filled_percent(orders)) + "%)**\n"@;
    let n = at_most(orders.len(), 10);
    let rows = with_order_rows(head, orders, n);
    assert(head =~= out + title);
    lemma_has_last(out, title);
    lemma_order_rows_extend(head, orders, n);
    lemma_has_in_longer(rows, head, title);
    assert(with_orders(out, Some(orders)) == rows + FILL_STATUS@);
    assert(extends(rows + FILL_STATUS@, rows));
    lemma_has_in_longer(rows + FILL_STATUS@, rows, title);
    if 0 <= k < orders.len() && k < 10 {
        lemma_order_row(head, orders, n, k);
        lemma_has_in_longer(rows + FILL_STATUS@, rows, with_order(Seq::empty(), orders[k]));
    }
}

proof fn lemma_results_lines(out: Seq<char>, results: Seq<JsonView>, k: int)
    requires
        results.len() > 0,
    ensures
        text::has(
            with_results(out, Some(results)),
            "\n**Recent results (last "@ + text::decimal(results.len()) + ", "@
                + text::decimal(wins(results, results.len() as int)) + " wins):**\n"@,
        ),
        0 <= k < results.len() && k < 5 ==> text::has(
            with_results(out, Some(results)),
            with_result(Seq::empty(), results[k]),
        ),
{
    let title = "\n**Recent results (last "@ + text::decimal(results.len()) + ", "@
        + text::decimal(wins(results, results.len() as int)) + " wins):**\n"@;
    let head = out + "\n**Recent results (last "@ + text::decimal(results.len()) + ", "@
        + text::decimal(wins(results, results.len() as int)) + " wins):**\n"@;
    let n = at_most(results.len(), 5);
    let rows = with_result_rows(head, results, n);
    assert(head =~= out + title);
    lemma_has_last(out, title);
    lemma_result_rows_extend(head, results, n);
    lemma_has_in_longer(rows, head, title);
    if 0 <= k < results.len() && k < 5 {
        lemma_result_row(head, results, n, k);
    }
}

/// The prompt lists the first ten open orders, with how many there are and how
/// much of them is filled, and the first five recent results, with how many
/// there are and how many were won.
pub proof fn prompt_lists_orders_and_results(
    market_id: Seq<char>,
    recommended: JsonView,
    klines: Option<Seq<JsonView>>,
    all_markets: Seq<JsonView>,
    balance: Double,
    persona: Seq<char>,
    submissions_remaining: i64,
    slot_resets_in: u64,
    open_orders: Option<Seq<JsonView>>,
    recent_results: Option<Seq<JsonView>>,
    challenge: JsonView,
    recent_acc: Option<RecentAccuracy>,
    quotes: Quotes,
    k: int,
)
    ensures
        ({
            let whole = prompt(
                market_id,
                recommended,
                klines,
                all_markets,
                balance,
                persona,
                submissions_remaining,
                slot_resets_in,
                open_orders,
                recent_results,
                challenge,
                recent_acc,
                quotes,
            );
            &&& open_orders matches Some(orders) ==> {
                &&& orders.len() > 0 ==> text::has(
                    whole,
                    "\n**Your open orders ("@ + text::decimal(orders.len()) + ", fill rate: "@
                        + text::signed_decimal(filled_percent(orders)) + "%)**\n"@,
                )
                &&& 0 <= k < orders.len() && k < 10 ==> {
                    let order = orders[k];
                    let tickets = order.signed_or("tickets"@, 0);
                    let filled = order.signed_or("tickets_filled"@, 0);
                    text::has(
                        whole,
                        "- "@ + order.text_or("asset"@, "?"@) + " "@ + order.text_or(
                            "window"@,
                            "?"@,
                        ) + " "@ + text::uppercase(order.text_or("direction"@, "?"@)) + " — "@ + (
                        if filled == tickets {
                            "FILLED"@
                        } else if filled >= 1 {
                            "PARTIAL"@
                        } else {
                            "PENDING"@
                        }) + " "@ + text::signed_decimal(filled as int) + "/"@
                            + text::signed_decimal(tickets as int) + " tickets, closes "@
                            + order.text_or("close_at"@, "?"@) + "\n"@,
                    )
                }
            }
            &&& recent_results matches Some(results) ==> {
                &&& results.len() > 0 ==> text::has(
                    whole,
                    "\n**Recent results (last "@ + text::decimal(results.len()) + ", "@
                        + text::decimal(wins(results, results.len() as int)) + " wins):**\n"@,
                )
                &&& 0 <= k < results.len() && k < 5 ==> {
                    let result = results[k];
                    text::has(
                        whole,
                        "- "@ + result.text_or("asset"@, "?"@) + " "@ + result.text_or(
                            "window"@,
                            "?"@,
                        ) + " "@ + text::uppercase(result.text_or("direction"@, "?"@)) + " — "@ + (
                        if result.boolean_at("won"@) == Some(true) {
                            "WON"@
                        } else {
                            "LOST"@
                        }) + " (payout: "@ + text::signed_decimal(
                            result.signed_or("payout_chips"@, 0) as int,
                        ) + ", spent: "@ + text::signed_decimal(
                            result.signed_or("chips_spent"@, 0) as int,
                        ) + ")\n"@,
                    )
                }
            }
        }),
{
    let s = lemma_stages(
        market_id,
        recommended,
        klines,
        all_markets,
        balance,
        persona,
        submissions_remaining,
        slot_resets_in,
        open_orders,
        recent_results,
        challenge,
        recent_acc,
        quotes,
    );
    if let Some(orders) = open_orders {
        if orders.len() > 0 {
            lemma_orders_lines(s.slotted, orders, k);
            lemma_has_in_longer(
                s.whole,
                s.ordered,
                "\n**Your open orders ("@ + text::decimal(orders.len()) + ", fill rate: "@
                    + text::signed_decimal(filled_percent(orders)) + "%)**\n"@,
            );
            if 0 <= k < orders.len() && k < 10 {
                lemma_has_in_longer(s.whole, s.ordered, with_order(Seq::empty(), orders[k]));
                lemma_order_text(orders[k]);
            }
        }
    }
    if let Some(results) = recent_results {
        if results.len() > 0 {
            lemma_results_lines(s.ordered, results, k);
            lemma_has_in_longer(
                s.whole,
                s.state,
                "\n**Recent results (last "@ + text::decimal(results.len()) + ", "@
                    + text::decimal(wins(results, results.len() as int)) + " wins):**\n"@,
            );
            if 0 <= k < results.len() && k < 5 {
                lemma_has_in_longer(s.whole, s.state, with_result(Seq::empty(), results[k]));
                lemma_result_text(results[k]);
            }
        }
    }
}

proof fn lemma_market_lines(
    out: Seq<char>,
    market_id: Seq<char>,
    market: JsonView,
    closes: i64,
)
    ensures
        ({
            let asset = market.text_or("asset"@, "BTC/USDT"@);
            let window = market.text_or("window"@, "15m"@);
            text::has(
                with_market(out, market_id, market, closes),
                "\n## Recommended Market\n\n- ID: "@ + market_id + "\n- Asset: "@ + asset
                    + "\n- Window: "@ + window + "\n- Closes in: "@ + text::signed_decimal(closes as int)
                    + "s\n- implied_up_prob: "@ + numerals::fixed2(implied_up(market)) + "\n"@,
            )
        }),
        text::has(with_open_warning(out, true), OPEN_WARNING@),
        text::has(with_recent_warning(out, true), RECENT_WARNING@),
        0 < closes < 120 ==> text::has(
            with_close_warning(out, closes),
            "- ⚠ Only "@ + text::signed_decimal(closes as int) + CLOSE_WARNING@,
        ),
        market.text_at("reason"@) matches Some(reason) ==> text::has(
            with_reason(out, market),
            "- Server insight: "@ + reason + "\n"@,
        ),
        market.text_at("suggested_side"@) matches Some(side) ==> (side != "skip"@ ==> text::has(
            with_side(out, market),
            "- Liquidity favors: "@ + text::uppercase(side) + " (counterparty orders waiting)\n"@,
        )),
{
    broadcast use lemma_sum_shifts;

    let asset = market.text_or("asset"@, "BTC/USDT"@);
    let window = market.text_or("window"@, "15m"@);
    let line = "\n## Recommended Market\n\n- ID: "@ + market_id + "\n- Asset: "@ + asset
        + "\n- Window: "@ + window + "\n- Closes in: "@ + text::signed_decimal(closes as int)
        + "s\n- implied_up_prob: "@ + numerals::fixed2(implied_up(market)) + "\n"@;
    assert(with_market(out, market_id, market, closes) =~= out + line);
    lemma_has_last(out, line);
    lemma_has_last(out, OPEN_WARNING@);
    lemma_has_last(out, RECENT_WARNING@);
    let soon = "- ⚠ Only "@ + text::signed_decimal(closes as int) + CLOSE_WARNING@;
    if 0 < closes < 120 {
        assert(with_close_warning(out, closes) =~= out + soon);
        lemma_has_last(out, soon);
    }
    if let Some(reason) = market.text_at("reason"@) {
        let insight = "- Server insight: "@ + reason + "\n"@;
        assert(with_reason(out, market) =~= out + insight);
        lemma_has_last(out, insight);
    }
    if let Some(side) = market.text_at("suggested_side"@) {
        if side != "skip"@ {
            let favor = "- Liquidity favors: "@ + text::uppercase(side)
                + " (counterparty orders waiting)\n"@;
            assert(with_side(out, market) =~= out + favor);
            lemma_has_last(out, favor);
        }
    }
}

/// The prompt describes the market: its name, asset, window, the seconds to its
/// close and the implied probability of `up` with two decimals. It warns where
/// an open order or a recent result names the market, and where less than two
/// minutes are left, and hands on the server's reason and the side that it
/// suggests, unless that is to skip.
pub proof fn prompt_describes_the_market(
    market_id: Seq<char>,
    recommended: JsonView,
    klines: Option<Seq<JsonView>>,
    all_markets: Seq<JsonView>,
    balance: Double,
    persona: Seq<char>,
    submissions_remaining: i64,
    slot_resets_in: u64,
    open_orders: Option<Seq<JsonView>>,
    recent_results: Option<Seq<JsonView>>,
    challenge: JsonView,
    recent_acc: Option<RecentAccuracy>,
    quotes: Quotes,
)
    ensures
        ({
            let whole = prompt(
                market_id,
                recommended,
                klines,
                all_markets,
                balance,
                persona,
                submissions_remaining,
                slot_resets_in,
                open_orders,
                recent_results,
                challenge,
                recent_acc,
                quotes,
            );
            let closes = closes_in(recommended, quotes.now);
            let asset = match recommended.text_at("asset"@) {
                Some(s) => s,
                None => "BTC/USDT"@,
            };
            let window = match recommended.text_at("window"@) {
                Some(s) => s,
                None => "15m"@,
            };
            &&& text::has(
                whole,
                "\n## Recommended Market\n\n- ID: "@ + market_id + "\n- Asset: "@ + asset
                    + "\n- Window: "@ + window + "\n- Closes in: "@ + text::signed_decimal(closes as int)
                    + "s\n- implied_up_prob: "@ + numerals::fixed2(implied_up(recommended)) + "\n"@,
            )
            &&& (open_orders matches Some(list) && exists|i: int|
                0 <= i < list.len() && (#[trigger] list[i]).text_at("market_id"@) == Some(
                    market_id,
                )) ==> text::has(
                whole,
                "- ⚠ You ALREADY have an open order on this exact market_id. A second submission is duplicate exposure — skip unless you have materially new evidence and a strictly stronger thesis.\n"@,
            )
            &&& (recent_results matches Some(list) && exists|i: int|
                0 <= i < list.len() && (#[trigger] list[i]).text_at("market_id"@) == Some(
                    market_id,
                )) ==> text::has(
                whole,
                "- ⚠ You traded this exact market_id recently (see Recent results). Re-entering without new evidence is duplicate trading — prefer skip.\n"@,
            )
            &&& 1 <= closes <= 119 ==> text::has(
                whole,
                "- ⚠ Only "@ + text::signed_decimal(closes as int)
                    + "s to close. Maker orders likely cancel unfilled. If you submit, prefer TAKER pricing or skip.\n"@,
            )
            &&& recommended.text_at("reason"@) matches Some(reason) ==> text::has(
                whole,
                "- Server insight: "@ + reason + "\n"@,
            )
            &&& recommended.text_at("suggested_side"@) matches Some(side) ==> (side != "skip"@
                ==> text::has(
                whole,
                "- Liquidity favors: "@ + text::uppercase(side)
                    + " (counterparty orders waiting)\n"@,
            ))
        }),
{
    let s = lemma_stages(
        market_id,
        recommended,
        klines,
        all_markets,
        balance,
        persona,
        submissions_remaining,
        slot_resets_in,
        open_orders,
        recent_results,
        challenge,
        recent_acc,
        quotes,
    );
    let closes = closes_in(recommended, quotes.now);
    let asset = recommended.text_or("asset"@, "BTC/USDT"@);
    let window = recommended.text_or("window"@, "15m"@);
    let line = "\n## Recommended Market\n\n- ID: "@ + market_id + "\n- Asset: "@ + asset
        + "\n- Window: "@ + window + "\n- Closes in: "@ + text::signed_decimal(closes as int)
        + "s\n- implied_up_prob: "@ + numerals::fixed2(implied_up(recommended)) + "\n"@;
    lemma_market_lines(s.state, market_id, recommended, closes);
    lemma_has_in_longer(s.whole, s.titled, line);
    lemma_market_lines(s.titled, market_id, recommended, closes);
    if strategy::names_market(open_orders, market_id) {
        lemma_has_in_longer(s.whole, s.opened, OPEN_WARNING@);
    }
    lemma_market_lines(s.opened, market_id, recommended, closes);
    if strategy::names_market(recent_results, market_id) {
        lemma_has_in_longer(s.whole, s.traded, RECENT_WARNING@);
    }
    lemma_market_lines(s.traded, market_id, recommended, closes);
    if 0 < closes < 120 {
        lemma_has_in_longer(
            s.whole,
            s.closing,
            "- ⚠ Only "@ + text::signed_decimal(closes as int) + CLOSE_WARNING@,
        );
    }
    lemma_market_lines(s.closing, market_id, recommended, closes);
    if let Some(reason) = recommended.text_at("reason"@) {
        lemma_has_in_longer(s.whole, s.reasoned, "- Server insight: "@ + reason + "\n"@);
    }
    lemma_market_lines(s.reasoned, market_id, recommended, closes);
    if let Some(side) = recommended.text_at("suggested_side"@) {
        if side != "skip"@ {
            lemma_has_in_longer(
                s.whole,
                s.sided,
                "- Liquidity favors: "@ + text::uppercase(side)
                    + " (counterparty orders waiting)\n"@,
            );
        }
    }
}

/// The line on the best price of one side.
spec fn best_line(price: Seq<char>, up: bool, complement: Option<Double>) -> Seq<char> {
    let bid = numerals::fixed2(complement_or_half(complement));
    if up {
        "  - Best UP @ "@ + price + " → to BUY DOWN, bid "@ + bid + "+ (takes this liquidity)\n"@
    } else {
        "  - Best DOWN @ "@ + price + " → to BUY UP, bid "@ + bid + "+ (takes this liquidity)\n"@
    }
}

/// The line on a side of the book that is empty.
spec fn empty_line(up: bool) -> Seq<char> {
    if up {
        "  - No UP orders — your UP order will wait for DOWN counterparty\n"@
    } else {
        "  - No DOWN orders — your DOWN order will wait for UP counterparty\n"@
    }
}

/// The line on the spread.
spec fn spread_line(spread: Double) -> Seq<char> {
    "  - Spread: "@ + numerals::fixed2(spread) + (if (Double { bits: double::D010 }).lt(spread) {
        " (WIDE — good opportunity to provide liquidity)\n"@
    } else if (Double { bits: double::D005 }).lt(spread) {
        " (moderate)\n"@
    } else {
        " (tight — take liquidity or wait)\n"@
    })
}

proof fn lemma_side_lines(out: Seq<char>, price: Seq<char>, complement: Option<Double>)
    ensures
        with_best(out, Some(price), "UP"@, "DOWN"@, complement) == out + best_line(
            price,
            true,
            complement,
        ),
        with_best(out, Some(price), "DOWN"@, "UP"@, complement) == out + best_line(
            price,
            false,
            complement,
        ),
        with_missing(out, None, "UP"@, "DOWN"@) == out + empty_line(true),
        with_missing(out, None, "DOWN"@, "UP"@) == out + empty_line(false),
{
    broadcast use lemma_sum_shifts;

    reveal_strlit("UP");
    reveal_strlit("DOWN");
    reveal_strlit("  - Best ");
    reveal_strlit(" @ ");
    reveal_strlit("  - Best UP @ ");
    reveal_strlit("  - Best DOWN @ ");
    reveal_strlit(" → to BUY ");
    reveal_strlit(", bid ");
    reveal_strlit(" → to BUY DOWN, bid ");
    reveal_strlit(" → to BUY UP, bid ");
    assert("  - Best UP @ "@ =~= "  - Best "@ + "UP"@ + " @ "@);
    assert("  - Best DOWN @ "@ =~= "  - Best "@ + "DOWN"@ + " @ "@);
    assert(" → to BUY DOWN, bid "@ =~= " → to BUY "@ + "DOWN"@ + ", bid "@);
    assert(" → to BUY UP, bid "@ =~= " → to BUY "@ + "UP"@ + ", bid "@);
    assert(with_best(out, Some(price), "UP"@, "DOWN"@, complement) =~= out + best_line(
        price,
        true,
        complement,
    ));
    assert(with_best(out, Some(price), "DOWN"@, "UP"@, complement) =~= out + best_line(
        price,
        false,
        complement,
    ));
    lemma_empty_lines(out);
}

proof fn lemma_empty_lines(out: Seq<char>)
    ensures
        with_missing(out, None, "UP"@, "DOWN"@) == out + empty_line(true),
        with_missing(out, None, "DOWN"@, "UP"@) == out + empty_line(false),
{
    reveal_strlit("UP");
    reveal_strlit("DOWN");
    reveal_strlit("  - No ");
    reveal_strlit(" orders — your ");
    reveal_strlit(" order will wait for ");
    reveal_strlit(" counterparty\n");
    reveal_strlit("  - No UP orders — your UP order will wait for DOWN counterparty\n");
    reveal_strlit("  - No DOWN orders — your DOWN order will wait for UP counterparty\n");
    assert("  - No "@ + "UP"@ + " orders — your "@ + "UP"@ + " order will wait for "@ + "DOWN"@
        + " counterparty\n"@ =~= empty_line(true));
    assert("  - No "@ + "DOWN"@ + " orders — your "@ + "DOWN"@ + " order will wait for "@ + "UP"@
        + " counterparty\n"@ =~= empty_line(false));
    assert(with_missing(out, None, "UP"@, "DOWN"@) =~= out + ("  - No "@ + "UP"@
        + " orders — your "@ + "UP"@ + " order will wait for "@ + "DOWN"@ + " counterparty\n"@));
    assert(with_missing(out, None, "DOWN"@, "UP"@) =~= out + ("  - No "@ + "DOWN"@
        + " orders — your "@ + "DOWN"@ + " order will wait for "@ + "UP"@
        + " counterparty\n"@));
}

proof fn lemma_price_lines(out: Seq<char>, book: JsonView, complements: Complements)
    requires
        book.text_at("best_up_price"@) is Some || book.text_at("best_down_price"@) is Some,
    ensures
        ({
            let whole = with_prices(out, book, complements);
            &&& book.text_at("best_up_price"@) matches Some(price) ==> text::has(
                whole,
                best_line(price, true, complements.up),
            )
            &&& book.text_at("best_down_price"@) matches Some(price) ==> text::has(
                whole,
                best_line(price, false, complements.down),
            )
            &&& book.text_at("best_up_price"@) is None ==> text::has(whole, empty_line(true))
            &&& book.text_at("best_down_price"@) is None ==> text::has(whole, empty_line(false))
            &&& book.double_at("spread"@) matches Some(spread) ==> text::has(
                whole,
                spread_line(spread),
            )
        }),
{
    broadcast use {lemma_extends_sum, lemma_extends_itself};

    let up = book.text_at("best_up_price"@);
    let down = book.text_at("best_down_price"@);
    let a = out + "- **Orderbook — how to get filled:**\n"@;
    let b = with_best(a, up, "UP"@, "DOWN"@, complements.up);
    let c = with_best(b, down, "DOWN"@, "UP"@, complements.down);
    let d = with_missing(c, up, "UP"@, "DOWN"@);
    let e = with_missing(d, down, "DOWN"@, "UP"@);
    let f = with_spread(e, book.double_at("spread"@));
    assert(extends(c, b) && extends(d, c) && extends(e, d) && extends(f, e));
    lemma_extends_trans(d, e, f);
    lemma_extends_trans(c, d, f);
    lemma_extends_trans(b, c, f);
    match up {
        Some(price) => {
            lemma_side_lines(a, price, complements.up);
            lemma_has_last(a, best_line(price, true, complements.up));
            lemma_has_in_longer(f, b, best_line(price, true, complements.up));
        },
        None => {
            lemma_empty_lines(c);
            lemma_has_last(c, empty_line(true));
            lemma_has_in_longer(f, d, empty_line(true));
        },
    }
    match down {
        Some(price) => {
            lemma_side_lines(b, price, complements.down);
            lemma_has_last(b, best_line(price, false, complements.down));
            lemma_has_in_longer(f, c, best_line(price, false, complements.down));
        },
        None => {
            lemma_empty_lines(d);
            lemma_has_last(d, empty_line(false));
            lemma_has_in_longer(f, e, empty_line(false));
        },
    }
    if let Some(spread) = book.double_at("spread"@) {
        assert(f =~= e + spread_line(spread));
        lemma_has_last(e, spread_line(spread));
    }
}

/// The line on the tickets of both sides.
spec fn volume_line(book: JsonView) -> Seq<char> {
    "- Volume: UP filled="@ + text::signed_decimal(book.signed_or("up_filled"@, 0) as int)
        + " open="@ + text::signed_decimal(book.signed_or("up_open_tickets"@, 0) as int)
        + ", DOWN filled="@ + text::signed_decimal(book.signed_or("down_filled"@, 0) as int)
        + " open="@ + text::signed_decimal(book.signed_or("down_open_tickets"@, 0) as int)
        + "\n"@
}

proof fn lemma_volume_line(out: Seq<char>, book: JsonView)
    ensures
        with_volume(out, book) == out + volume_line(book),
{
    broadcast use lemma_sum_shifts;

}

proof fn lemma_book_stages(out: Seq<char>, market: JsonView, complements: Complements)
    requires
        market.get("orderbook"@) is Some,
    ensures
        ({
            let book = market.get("orderbook"@)->0;
            let whole = with_book(out, market, complements);
            let a = with_last_price(out, book);
            &&& extends(whole, a)
            &&& extends(whole, with_prices(a, book, complements))
            &&& book.text_at("last_price"@) matches Some(price) ==> text::has(
                a,
                "- **Last traded price:** "@ + price + " (most recent fill)\n"@,
            )
            &&& text::has(whole, volume_line(book))
        }),
{
    broadcast use {lemma_extends_sum, lemma_extends_itself};

    let book = market.get("orderbook"@)->0;
    let a = with_last_price(out, book);
    let b = with_prices(a, book, complements);
    let whole = with_book(out, market, complements);
    lemma_prices_extend(a, book, complements);
    lemma_volume_line(b, book);
    assert(extends(whole, b));
    lemma_extends_trans(a, b, whole);
    lemma_has_last(b, volume_line(book));
    if let Some(price) = book.text_at("last_price"@) {
        let line = "- **Last traded price:** "@ + price + " (most recent fill)\n"@;
        assert(a =~= out + line);
        lemma_has_last(out, line);
    }
}

/// The prompt describes the orderbook: the last price, what either best price
/// means for the other side, which sides are empty, how wide the spread is
/// (above a tenth wide, above a twentieth moderate, tight otherwise), and the
/// tickets of both sides.
pub proof fn prompt_describes_the_book(
    market_id: Seq<char>,
    recommended: JsonView,
    klines: Option<Seq<JsonView>>,
    all_markets: Seq<JsonView>,
    balance: Double,
    persona: Seq<char>,
    submissions_remaining: i64,
    slot_resets_in: u64,
    open_orders: Option<Seq<JsonView>>,
    recent_results: Option<Seq<JsonView>>,
    challenge: JsonView,
    recent_acc: Option<RecentAccuracy>,
    quotes: Quotes,
)
    ensures
        ({
            let whole = prompt(
                market_id,
                recommended,
                klines,
                all_markets,
                balance,
                persona,
                submissions_remaining,
                slot_resets_in,
                open_orders,
                recent_results,
                challenge,
                recent_acc,
                quotes,
            );
            let complements = quotes.complements;
            recommended.get("orderbook"@) matches Some(book) ==> {
                &&& book.text_at("last_price"@) matches Some(price) ==> text::has(
                    whole,
                    "- **Last traded price:** "@ + price + " (most recent fill)\n"@,
                )
                &&& book.text_at("best_up_price"@) matches Some(price) ==> text::has(
                    whole,
                    "  - Best UP @ "@ + price + " → to BUY DOWN, bid "@ + numerals::fixed2(
                        complement_or_half(complements.up),
                    ) + "+ (takes this liquidity)\n"@,
                )
                &&& book.text_at("best_down_price"@) matches Some(price) ==> text::has(
                    whole,
                    "  - Best DOWN @ "@ + price + " → to BUY UP, bid "@ + numerals::fixed2(
                        complement_or_half(complements.down),
                    ) + "+ (takes this liquidity)\n"@,
                )
                &&& book.text_at("best_up_price"@) is None && book.text_at("best_down_price"@) is Some
                    ==> text::has(
                    whole,
                    "  - No UP orders — your UP order will wait for DOWN counterparty\n"@,
                )
                &&& book.text_at("best_up_price"@) is Some && book.text_at("best_down_price"@) is None
                    ==> text::has(
                    whole,
                    "  - No DOWN orders — your DOWN order will wait for UP counterparty\n"@,
                )
                &&& (book.text_at("best_up_price"@) is Some || book.text_at("best_down_price"@) is Some)
                    ==> (book.double_at("spread"@) matches Some(spread) ==> text::has(
                    whole,
                    "  - Spread: "@ + numerals::fixed2(spread) + (if (Double {
                        bits: double::D010,
                    }).lt(spread) {
                        " (WIDE — good opportunity to provide liquidity)\n"@
                    } else if (Double { bits: double::D005 }).lt(spread) {
                        " (moderate)\n"@
                    } else {
                        " (tight — take liquidity or wait)\n"@
                    }),
                ))
                &&& text::has(
                    whole,
                    "- Volume: UP filled="@ + text::signed_decimal(book.signed_or("up_filled"@, 0) as int)
                        + " open="@ + text::signed_decimal(book.signed_or("up_open_tickets"@, 0) as int)
                        + ", DOWN filled="@ + text::signed_decimal(book.signed_or("down_filled"@, 0) as int)
                        + " open="@ + text::signed_decimal(book.signed_or("down_open_tickets"@, 0) as int)
                        + "\n"@,
                )
            }
        }),
{
    let s = lemma_stages(
        market_id,
        recommended,
        klines,
        all_markets,
        balance,
        persona,
        submissions_remaining,
        slot_resets_in,
        open_orders,
        recent_results,
        challenge,
        recent_acc,
        quotes,
    );
    if let Some(book) = recommended.get("orderbook"@) {
        let a = with_last_price(s.sided, book);
        let b = with_prices(a, book, quotes.complements);
        lemma_book_stages(s.sided, recommended, quotes.complements);
        lemma_has_in_longer(s.whole, s.booked, volume_line(book));
        lemma_extends_trans(a, s.booked, s.whole);
        lemma_extends_trans(b, s.booked, s.whole);
        if let Some(price) = book.text_at("last_price"@) {
            lemma_has_in_longer(
                s.whole,
                a,
                "- **Last traded price:** "@ + price + " (most recent fill)\n"@,
            );
        }
        if book.text_at("best_up_price"@) is Some || book.text_at("best_down_price"@) is Some {
            lemma_price_lines(a, book, quotes.complements);
            match book.text_at("best_up_price"@) {
                Some(price) => lemma_has_in_longer(
                    s.whole,
                    b,
                    best_line(price, true, quotes.complements.up),
                ),
                None => lemma_has_in_longer(s.whole, b, empty_line(true)),
            }
            match book.text_at("best_down_price"@) {
                Some(price) => lemma_has_in_longer(
                    s.whole,
                    b,
                    best_line(price, false, quotes.complements.down),
                ),
                None => lemma_has_in_longer(s.whole, b, empty_line(false)),
            }
            if let Some(spread) = book.double_at("spread"@) {
                lemma_has_in_longer(s.whole, b, spread_line(spread));
            }
        }
    }
}

/// The lines on the last prediction, up to its outcome.
spec fn recalled_lines(market: JsonView, last: JsonView) -> Seq<char> {
    let asset = market.text_or("asset"@, "BTC/USDT"@);
    let direction = text::uppercase(last.text_or("direction"@, "?"@));
    let outcome = last.text_or("outcome"@, "pending"@);
    "\n**Your last prediction on "@ + asset + ":**\n- Direction: "@ + direction + "\n"@
        + (match last.boolean_at("won"@) {
        Some(true) => "- Result: WON (outcome was "@ + outcome + ")\n"@,
        Some(false) => "- Result: LOST (outcome was "@ + outcome + ")\n"@,
        None => "- Result: pending (market not yet resolved)\n"@,
    })
}

proof fn lemma_recalled(out: Seq<char>, market: JsonView, last: JsonView)
    requires
        market.get("last_prediction"@) == Some(last),
        !(last is Null),
    ensures
        ({
            let whole = with_last_prediction(out, market);
            let reasoning = last.text_or("reasoning_text"@, ""@);
            &&& text::has(whole, recalled_lines(market, last))
            &&& reasoning.len() > 0 ==> text::has(
                whole,
                "- Your reasoning was: \""@ + reasoning + "\"\n"@,
            )
        }),
{
    broadcast use lemma_sum_shifts;

    let whole = with_last_prediction(out, market);
    let lines = recalled_lines(market, last);
    assert(whole =~= out + lines + (reasoning_line(last) + CONTINUITY@));
    lemma_line(whole, out, lines, reasoning_line(last) + CONTINUITY@);
    assert(whole =~= out + lines + reasoning_line(last) + CONTINUITY@);
    lemma_line(whole, out + lines, reasoning_line(last), CONTINUITY@);
}

/// The prompt recalls the last prediction on the asset, where there is one: its
/// direction, how it turned out, and its reasoning where it has one.
pub proof fn prompt_recalls_the_last_prediction(
    market_id: Seq<char>,
    recommended: JsonView,
    klines: Option<Seq<JsonView>>,
    all_markets: Seq<JsonView>,
    balance: Double,
    persona: Seq<char>,
    submissions_remaining: i64,
    slot_resets_in: u64,
    open_orders: Option<Seq<JsonView>>,
    recent_results: Option<Seq<JsonView>>,
    challenge: JsonView,
    recent_acc: Option<RecentAccuracy>,
    quotes: Quotes,
)
    ensures
        ({
            let whole = prompt(
                market_id,
                recommended,
                klines,
                all_markets,
                balance,
                persona,
                submissions_remaining,
                slot_resets_in,
                open_orders,
                recent_results,
                challenge,
                recent_acc,
                quotes,
            );
            recommended.get("last_prediction"@) matches Some(last) ==> {
                let asset = match recommended.text_at("asset"@) {
                    Some(s) => s,
                    None => "BTC/USDT"@,
                };
                let direction = text::uppercase(
                    match last.text_at("direction"@) {
                        Some(s) => s,
                        None => "?"@,
                    },
                );
                let outcome = match last.text_at("outcome"@) {
                    Some(s) => s,
                    None => "pending"@,
                };
                !(last is Null) ==> {
                    &&& text::has(
                        whole,
                        "\n**Your last prediction on "@ + asset + ":**\n- Direction: "@ + direction + "\n"@
                            + (match last.boolean_at("won"@) {
                            Some(true) => "- Result: WON (outcome was "@ + outcome + ")\n"@,
                            Some(false) => "- Result: LOST (outcome was "@ + outcome + ")\n"@,
                            None => "- Result: pending (market not yet resolved)\n"@,
                        }),
                    )
                    &&& last.text_at("reasoning_text"@) matches Some(reasoning) ==> (reasoning.len()
                        > 0 ==> text::has(
                        whole,
                        "- Your reasoning was: \""@ + reasoning + "\"\n"@,
                    ))
                }
            }
        }),
{
    let s = lemma_stages(
        market_id,
        recommended,
        klines,
        all_markets,
        balance,
        persona,
        submissions_remaining,
        slot_resets_in,
        open_orders,
        recent_results,
        challenge,
        recent_acc,
        quotes,
    );
    if let Some(last) = recommended.get("last_prediction"@) {
        if !(last is Null) {
            lemma_recalled(s.booked, recommended, last);
            lemma_has_in_longer(s.whole, s.recalled, recalled_lines(recommended, last));
            let reasoning = last.text_or("reasoning_text"@, ""@);
            if reasoning.len() > 0 {
                lemma_has_in_longer(
                    s.whole,
                    s.recalled,
                    "- Your reasoning was: \""@ + reasoning + "\"\n"@,
                );
            }
        }
    }
}

/// The row of a candle.
spec fn candle_row(candle: JsonView) -> Seq<char> {
    text::signed_decimal(candle.signed_or("open_time"@, 0) as int) + " | "@ + fixed2_at(
        candle,
        "open"@,
    ) + " | "@ + fixed2_at(candle, "high"@) + " | "@ + fixed2_at(candle, "low"@) + " | "@
        + fixed2_at(candle, "close"@) + " | "@ + fixed0_at(candle, "volume"@) + "\n"@
}

proof fn lemma_candle_is_added(out: Seq<char>, candle: JsonView)
    requires
        candle is Object,
    ensures
        with_candle(out, candle) == out + candle_row(candle),
{
    broadcast use lemma_sum_shifts;

}

proof fn lemma_candle_row(out: Seq<char>, candles: Seq<JsonView>, n: int, k: int)
    requires
        0 <= k < n,
        candles[k] is Object,
    ensures
        text::has(with_candle_rows(out, candles, n), candle_row(candles[k])),
    decreases n,
{
    let before = with_candle_rows(out, candles, n - 1);
    let last = candles[n - 1];
    lemma_extends_itself(before);
    if last is Object {
        lemma_candle_is_added(before, last);
        lemma_extends_sum(before, candle_row(last), before);
    }
    if k == n - 1 {
        lemma_has_last(before, candle_row(last));
    } else {
        lemma_candle_row(out, candles, n - 1, k);
        lemma_has_in_longer(with_candle_rows(out, candles, n), before, candle_row(candles[k]));
    }
}

/// The row of another market.
spec fn other_row(market: JsonView) -> Seq<char> {
    "- "@ + market_name(market) + " ("@ + market.text_or("asset"@, "?"@) + " "@
        + market.text_or("window"@, "?"@) + ") score="@ + text::signed_decimal(
        market.signed_or("score"@, 0) as int,
    ) + " suggested="@ + market.text_or("suggested_side"@, "?"@) + hint(market) + " — "@
        + market.text_or("reason"@, ""@) + "\n"@
}

proof fn lemma_other_is_added(out: Seq<char>, item: JsonView)
    ensures
        with_other(out, item) == out + other_row(item),
{
    broadcast use lemma_sum_shifts;

}

proof fn lemma_other_row(out: Seq<char>, markets: Seq<JsonView>, n: int, k: int)
    requires
        1 <= k < n,
    ensures
        text::has(with_other_rows(out, markets, n), other_row(markets[k])),
    decreases n,
{
    let before = with_other_rows(out, markets, n - 1);
    let row = other_row(markets[n - 1]);
    lemma_other_is_added(before, markets[n - 1]);
    lemma_extends_itself(before);
    lemma_extends_sum(before, row, before);
    if k == n - 1 {
        lemma_has_last(before, row);
    } else {
        lemma_other_row(out, markets, n - 1, k);
        lemma_has_in_longer(before + row, before, other_row(markets[k]));
    }
}

proof fn lemma_chart_lines(out: Seq<char>, candles: Seq<JsonView>, k: int)
    requires
        0 <= k < candles.len(),
        candles.len() <= k + 20,
        candles[k] is Object,
    ensures
        text::has(with_klines(out, Some(candles)), candle_row(candles[k])),
{
    broadcast use {lemma_extends_sum, lemma_extends_itself};

    let head = out + "## Klines ("@ + text::decimal(candles.len()) + KLINES_HEAD@;
    let last = last_candles(candles);
    let j = k - (candles.len() - last.len());
    assert(last[j] == candles[k]);
    lemma_candle_row(head, last, last.len() as int, j);
    let rows = with_candle_rows(head, last, last.len() as int);
    assert(extends(rows + "\n"@, rows));
    lemma_has_in_longer(rows + "\n"@, rows, candle_row(candles[k]));
}

proof fn lemma_ranked_lines(out: Seq<char>, markets: Seq<JsonView>, k: int)
    requires
        1 <= k < markets.len(),
        k < 9,
    ensures
        text::has(with_others(out, markets), other_row(markets[k])),
{
    broadcast use {lemma_extends_sum, lemma_extends_itself};

    let head = out + "## Other Markets (server-ranked)\n\n"@;
    let n = at_most(markets.len(), 9);
    let rows = with_other_rows(head, markets, n);
    lemma_other_row(head, markets, n, k);
    assert(extends(rows + OTHERS_END@, rows));
    lemma_has_in_longer(rows + OTHERS_END@, rows, other_row(markets[k]));
}

/// The prompt has a row for each of the last twenty candles that is an object,
/// and one for each of the markets from the second to the ninth.
pub proof fn prompt_lists_candles_and_markets(
    market_id: Seq<char>,
    recommended: JsonView,
    klines: Option<Seq<JsonView>>,
    all_markets: Seq<JsonView>,
    balance: Double,
    persona: Seq<char>,
    submissions_remaining: i64,
    slot_resets_in: u64,
    open_orders: Option<Seq<JsonView>>,
    recent_results: Option<Seq<JsonView>>,
    challenge: JsonView,
    recent_acc: Option<RecentAccuracy>,
    quotes: Quotes,
    k: int,
)
    ensures
        ({
            let whole = prompt(
                market_id,
                recommended,
                klines,
                all_markets,
                balance,
                persona,
                submissions_remaining,
                slot_resets_in,
                open_orders,
                recent_results,
                challenge,
                recent_acc,
                quotes,
            );
            &&& klines matches Some(candles) ==> (0 <= k < candles.len() && candles.len() - k <= 20
                && candles[k] is Object ==> {
                let candle = candles[k];
                text::has(
                    whole,
                    text::signed_decimal(candle.signed_or("open_time"@, 0) as int) + " | "@ + fixed2_at(
                        candle,
                        "open"@,
                    ) + " | "@ + fixed2_at(candle, "high"@) + " | "@ + fixed2_at(candle, "low"@) + " | "@
                        + fixed2_at(candle, "close"@) + " | "@ + fixed0_at(candle, "volume"@) + "\n"@,
                )
            })
            &&& 1 <= k < all_markets.len() && k <= 8 ==> {
                let market = all_markets[k];
                text::has(
                    whole,
                    "- "@ + market_name(market) + " ("@ + market.text_or("asset"@, "?"@) + " "@
                        + market.text_or("window"@, "?"@) + ") score="@ + text::signed_decimal(
                        market.signed_or("score"@, 0) as int,
                    ) + " suggested="@ + market.text_or("suggested_side"@, "?"@) + hint(market) + " — "@
                        + market.text_or("reason"@, ""@) + "\n"@,
                )
            }
        }),
{
    let s = lemma_stages(
        market_id,
        recommended,
        klines,
        all_markets,
        balance,
        persona,
        submissions_remaining,
        slot_resets_in,
        open_orders,
        recent_results,
        challenge,
        recent_acc,
        quotes,
    );
    if let Some(candles) = klines {
        if 0 <= k < candles.len() && candles.len() - k <= 20 && candles[k] is Object {
            lemma_chart_lines(s.priced, candles, k);
            lemma_has_in_longer(s.whole, s.charted, candle_row(candles[k]));
        }
    }
    if 1 <= k < all_markets.len() && k < 9 {
        lemma_ranked_lines(s.charted, all_markets, k);
    }
}

// ── What is left out of a prompt ────────────────────────────────────────

/// A part of the prompt adds nothing where there is nothing to say: without a
/// challenge, a record, a time to the reset, orders, results, a warning to
/// give, a reason, a side, an orderbook, a last prediction or other markets.
pub proof fn nothing_is_said_of_nothing(
    out: Seq<char>,
    market_id: Seq<char>,
    market: JsonView,
    closes: i64,
)
    ensures
        challenge::question(market) is None ==> with_challenge(out, market_id, market) == out,
        market.text_at("instructions"@) is None ==> with_instructions(out, market) == out,
        with_accuracy(out, None) == out,
        with_reset(out, 0) == out,
        with_orders(out, None) == out,
        with_orders(out, Some(Seq::empty())) == out,
        with_results(out, None) == out,
        with_results(out, Some(Seq::empty())) == out,
        with_open_warning(out, false) == out,
        with_recent_warning(out, false) == out,
        closes <= 0 || closes >= 120 ==> with_close_warning(out, closes) == out,
        market.text_at("reason"@) is None ==> with_reason(out, market) == out,
        market.text_at("suggested_side"@) is None || market.text_at("suggested_side"@) == Some(
            "skip"@,
        ) ==> with_side(out, market) == out,
        market.get("last_prediction"@) is None || market.get("last_prediction"@) == Some(
            JsonView::Null,
        ) ==> with_last_prediction(out, market) == out && hint(market).len() == 0,
        with_others(out, Seq::empty()) == out,
        with_others(out, seq![market]) == out,
        !(market is Object) ==> with_candle(out, market) == out,
{
}

/// The parts on an orderbook add nothing where there is nothing to say.
pub proof fn empty_books_are_passed_over(out: Seq<char>, market: JsonView, complements: Complements)
    ensures
        market.get("orderbook"@) is None ==> with_book(out, market, complements) == out,
        market.text_at("last_price"@) is None ==> with_last_price(out, market) == out,
        market.text_at("best_up_price"@) is None && market.text_at("best_down_price"@) is None
            ==> with_prices(out, market, complements) == out,
        with_spread(out, None) == out,
{
}

/// A record that is no losing streak (fewer than five orders, or at least two
/// in five won) is told without a warning: the record adds its line and
/// nothing else.
pub proof fn good_records_give_no_warning(out: Seq<char>, acc: RecentAccuracy)
    requires
        acc.filled < 5 || 5 * acc.wins >= 2 * acc.filled,
    ensures
        with_accuracy(out, Some(acc)) == out + "- **Recent filled accuracy: "@ + text::decimal(
            numerals::rounded_percent(acc.wins as nat, acc.filled as nat),
        ) + "% ("@ + text::decimal(acc.wins as nat) + "W / "@ + text::decimal(acc.losses as nat)
            + "L over last "@ + text::decimal(acc.filled as nat) + " resolved).**\n"@,
{
}

/// The odds are told in one line: of the two sides where the probability is
/// above or below one half, and of fair odds only where it is neither.
pub proof fn fair_odds_are_neither_above_nor_below(out: Seq<char>, p: Double, complement: Double)
    ensures
        ({
            let half = Double { bits: double::D050 };
            let fair = out
                + "  → Fair odds (0.50/0.50). Your edge comes purely from analysis.\n\n"@;
            &&& half.lt(p) || p.lt(half) ==> with_odds(out, p, complement) == out
                + "  → Buying UP costs "@ + numerals::fixed2(p) + ", profit if correct: "@
                + numerals::fixed2(complement) + ". Buying DOWN costs "@ + numerals::fixed2(
                complement,
            ) + ", profit if correct: "@ + numerals::fixed2(p) + ".\n\n"@
            &&& with_odds(out, p, complement) == fair <==> !half.lt(p) && !p.lt(half)
        }),
{
    let half = Double { bits: double::D050 };
    let fair = "  → Fair odds (0.50/0.50). Your edge comes purely from analysis.\n\n"@;
    if half.lt(p) || p.lt(half) {
        let odds = with_odds(out, p, complement);
        reveal_strlit("  → Buying UP costs ");
        reveal_strlit("  → Fair odds (0.50/0.50). Your edge comes purely from analysis.\n\n");
        let at = out.len() as int + 4;
        assert("  → Buying UP costs "@[4] == 'B');
        assert(fair[4] == 'F');
        assert((out + "  → Buying UP costs "@)[at] == 'B');
        assert(odds[at] == 'B');
        assert((out + fair)[at] == 'F');
    }
}

/// A market without rows to list says so: where there are no candles, the
/// prompt says that there are none, and otherwise how many there are.
pub proof fn candles_are_counted(out: Seq<char>, candles: Seq<JsonView>)
    ensures
        with_klines(out, None) == with_klines(out, Some(Seq::empty())),
        with_klines(out, None) == out + NO_KLINES@,
        candles.len() > 0 ==> text::has(
            with_klines(out, Some(candles)),
            "## Klines ("@ + text::decimal(candles.len()) + " candles)\n"@,
        ),
{
    broadcast use {lemma_extends_sum, lemma_extends_itself};

    if candles.len() > 0 {
        let title = "## Klines ("@ + text::decimal(candles.len()) + " candles)\n"@;
        let head = out + "## Klines ("@ + text::decimal(candles.len()) + KLINES_HEAD@;
        reveal_strlit(" candles)\n");
        lemma_klines_head();
        let rest = KLINES_HEAD@.skip(10);
        assert(KLINES_HEAD@ =~= KLINES_HEAD@.take(10) + rest);
        assert(head =~= out + title + rest);
        lemma_line(head, out, title, rest);
        let last = last_candles(candles);
        lemma_candle_rows_extend(head, last, last.len() as int);
        let rows = with_candle_rows(head, last, last.len() as int);
        lemma_has_in_longer(rows, head, title);
        assert(extends(rows + "\n"@, rows));
        lemma_has_in_longer(rows + "\n"@, rows, title);
    }
}

proof fn lemma_klines_head()
    ensures
        KLINES_HEAD@.len() >= 10,
        KLINES_HEAD@.take(10) == " candles)\n"@,
{
    reveal_strlit(" candles)\n");
    reveal_strlit(
        " candles)\n\ntime | open | high | low | close | volume\n--- | --- | --- | --- | --- | ---\n",
    );
    assert(KLINES_HEAD@.take(10) =~= " candles)\n"@);
}

// ── Numbers in a prompt ─────────────────────────────────────────────────

/// The parts of the balance that a strong setup gets, in hundredths: 30 to 50
/// for a degen, 25 to 40 for a sniper, 5 to 10 for a conservative, 20 to 35
/// for a contrarian, and 10 to 20 for everybody else.
pub proof fn sizes_are_hundredths(persona: Seq<char>)
    ensures
        persona == "degen"@ ==> double::is_hundredths(min_fraction(persona), 30)
            && double::is_hundredths(max_fraction(persona), 50),
        persona == "sniper"@ ==> double::is_hundredths(min_fraction(persona), 25)
            && double::is_hundredths(max_fraction(persona), 40),
        persona == "conservative"@ ==> double::is_hundredths(min_fraction(persona), 5)
            && double::is_hundredths(max_fraction(persona), 10),
        persona == "contrarian"@ ==> double::is_hundredths(min_fraction(persona), 20)
            && double::is_hundredths(max_fraction(persona), 35),
        persona != "degen"@ && persona != "sniper"@ && persona != "conservative"@ && persona
            != "contrarian"@ ==> double::is_hundredths(min_fraction(persona), 10)
            && double::is_hundredths(max_fraction(persona), 20),
{
    reveal_strlit("degen");
    reveal_strlit("sniper");
    reveal_strlit("conservative");
    reveal_strlit("contrarian");
    assert("degen"@.len() == 5 && "sniper"@.len() == 6 && "conservative"@.len() == 12
        && "contrarian"@.len() == 10);
    double::thresholds_are_hundredths();
}

/// Tickets in a prompt are the whole share of the balance, or the largest
/// 32-bit number where that is less.
pub proof fn shown_tickets_are_shares(balance: Double, bits: u64)
    ensures
        tickets_of_share(balance, bits) <= 4_294_967_295,
        double::share(balance, Double { bits }) <= 4_294_967_295 ==> tickets_of_share(balance, bits)
            == double::share(balance, Double { bits }),
        double::share(balance, Double { bits }) > 4_294_967_295 ==> tickets_of_share(balance, bits)
            == 4_294_967_295,
{
}

/// The implied probability of `up` is the number of the market, or that of its
/// orderbook where the market has none, or one half.
pub proof fn probability_is_found(market: JsonView)
    ensures
        market.double_at("implied_up_prob"@) matches Some(p) ==> implied_up(market) == p,
        market.get("implied_up_prob"@) is None ==> (market.get("orderbook"@) matches Some(book) ==> (
        book.double_at("implied_up_prob"@) matches Some(p) ==> implied_up(market) == p)),
        market.get("implied_up_prob"@) is Some && market.double_at("implied_up_prob"@) is None
            ==> double::is_hundredths(implied_up(market).bits, 50),
        market.get("implied_up_prob"@) is None && market.get("orderbook"@) is None
            ==> double::is_hundredths(implied_up(market).bits, 50),
        market.get("implied_up_prob"@) is None && market.get("orderbook"@) is Some
            && market.get("orderbook"@)->0.double_at("implied_up_prob"@) is None
            ==> double::is_hundredths(implied_up(market).bits, 50),
{
    double::thresholds_are_hundredths();
}

/// The seconds to the close are the market's own number, whatever was counted;
/// where it has none, what was counted counts, and nothing below zero.
pub proof fn close_is_never_counted_below_zero(market: JsonView, counted: Option<i64>)
    ensures
        market.signed_at("seconds_to_close"@) matches Some(own) ==> closes_from(market, counted)
            == own,
        market.signed_at("seconds_to_close"@) is None ==> closes_from(market, counted) >= 0,
        market.signed_at("seconds_to_close"@) is None ==> (counted matches Some(seconds) ==> (
        seconds >= 0 ==> closes_from(market, counted) == seconds) && (seconds < 0 ==> closes_from(
            market,
            counted,
        ) == 0)),
        market.signed_at("seconds_to_close"@) is None && counted is None ==> closes_from(
            market,
            counted,
        ) == 0,
{
}

/// The wins among results, and the sum of a number over them, are those of
/// their two parts together. A result counts as won where it says so, and a
/// missing number as zero.
pub proof fn rows_are_counted_one_by_one(front: Seq<JsonView>, row: JsonView, key: Seq<char>)
    ensures
        wins(front.push(row), front.len() as int + 1) == wins(front, front.len() as int) + (
        if row.boolean_at("won"@) == Some(true) {
            1nat
        } else {
            0nat
        }),
        sum_of(front.push(row), key, front.len() as int + 1) == sum_of(
            front,
            key,
            front.len() as int,
        ) + (match row.signed_at(key) {
            Some(n) => n as int,
            None => 0,
        }),
        wins(Seq::empty(), 0) == 0,
        sum_of(Seq::empty(), key, 0) == 0,
{
    lemma_wins_of_longer(front, row, front.len() as int);
    lemma_sum_of_longer(front, row, key, front.len() as int);
}

proof fn lemma_wins_of_longer(front: Seq<JsonView>, row: JsonView, n: int)
    requires
        n <= front.len(),
    ensures
        wins(front.push(row), n) == wins(front, n),
    decreases n,
{
    if n > 0 {
        lemma_wins_of_longer(front, row, n - 1);
    }
}

proof fn lemma_sum_of_longer(front: Seq<JsonView>, row: JsonView, key: Seq<char>, n: int)
    requires
        n <= front.len(),
    ensures
        sum_of(front.push(row), key, n) == sum_of(front, key, n),
    decreases n,
{
    if n > 0 {
        lemma_sum_of_longer(front, row, key, n - 1);
    }
}

/// Another market is told with the direction and the outcome of the last
/// prediction on it, and goes by its `market_id`, or by its `id` where it has
/// no `market_id`.
pub proof fn other_markets_are_told_with_their_outcome(market: JsonView, last: JsonView)
    ensures
        market.get("last_prediction"@) == Some(last) && !(last is Null) ==> (last.text_at(
            "direction"@,
        ) matches Some(direction) ==> {
            &&& last.boolean_at("won"@) == Some(true) ==> hint(market) == " [last: "@ + direction
                + " "@ + "won"@ + "]"@
            &&& last.boolean_at("won"@) == Some(false) ==> hint(market) == " [last: "@ + direction
                + " "@ + "lost"@ + "]"@
            &&& last.boolean_at("won"@) is None ==> hint(market) == " [last: "@ + direction + " "@
                + "pending"@ + "]"@
        }),
        market.text_at("market_id"@) matches Some(id) ==> market_name(market) == id,
        market.get("market_id"@) is None ==> (market.text_at("id"@) matches Some(id)
            ==> market_name(market) == id),
        market.text_at("market_id"@) is None && market.text_at("id"@) is None ==> market_name(
            market,
        ) == "?"@,
        market.get("market_id"@) is Some && market.text_at("market_id"@) is None ==> market_name(
            market,
        ) == "?"@,
{
}

// ── How much a prompt lists ─────────────────────────────────────────────

/// No more than ten open orders, five results, twenty candles and eight other
/// markets are listed: lists that differ in what comes after the first ten
/// orders, the first five results or the first nine markets, or before the
/// last twenty candles, give the same text where what is told of them as a
/// whole is the same.
pub proof fn long_lists_are_cut(out: Seq<char>, a: Seq<JsonView>, b: Seq<JsonView>)
    requires
        a.len() == b.len(),
    ensures
        (forall|i: int| 0 <= i < a.len() && i < 10 ==> a[i] == b[i]) && filled_percent(a)
            == filled_percent(b) ==> with_orders(out, Some(a)) == with_orders(out, Some(b)),
        (forall|i: int| 0 <= i < a.len() && i < 5 ==> a[i] == b[i]) && wins(a, a.len() as int)
            == wins(b, b.len() as int) ==> with_results(out, Some(a)) == with_results(
            out,
            Some(b),
        ),
        (forall|i: int| 0 <= i < a.len() && a.len() - 20 <= i ==> a[i] == b[i]) ==> with_klines(
            out,
            Some(a),
        ) == with_klines(out, Some(b)),
        (forall|i: int| 1 <= i < a.len() && i < 9 ==> a[i] == b[i]) ==> with_others(out, a)
            == with_others(out, b),
{
    if forall|i: int| 0 <= i < a.len() && i < 10 ==> a[i] == b[i] {
        let head = out + "\n**Your open orders ("@ + text::decimal(a.len()) + ", fill rate: "@
            + text::signed_decimal(filled_percent(a)) + "%)**\n"@;
        lemma_same_orders(head, a, b, at_most(a.len(), 10));
    }
    if forall|i: int| 0 <= i < a.len() && i < 5 ==> a[i] == b[i] {
        let head = out + "\n**Recent results (last "@ + text::decimal(a.len()) + ", "@
            + text::decimal(wins(a, a.len() as int)) + " wins):**\n"@;
        lemma_same_results(head, a, b, at_most(a.len(), 5));
    }
    if forall|i: int| 0 <= i < a.len() && a.len() - 20 <= i ==> a[i] == b[i] {
        assert(last_candles(a) =~= last_candles(b));
    }
    if forall|i: int| 1 <= i < a.len() && i < 9 ==> a[i] == b[i] {
        let head = out + "## Other Markets (server-ranked)\n\n"@;
        lemma_same_markets(head, a, b, at_most(a.len(), 9));
    }
}

proof fn lemma_same_orders(out: Seq<char>, a: Seq<JsonView>, b: Seq<JsonView>, n: int)
    requires
        forall|i: int| 0 <= i < n ==> a[i] == b[i],
    ensures
        with_order_rows(out, a, n) == with_order_rows(out, b, n),
    decreases n,
{
    if n > 0 {
        lemma_same_orders(out, a, b, n - 1);
        assert(a[n - 1] == b[n - 1]);
    }
}

proof fn lemma_same_results(out: Seq<char>, a: Seq<JsonView>, b: Seq<JsonView>, n: int)
    requires
        forall|i: int| 0 <= i < n ==> a[i] == b[i],
    ensures
        with_result_rows(out, a, n) == with_result_rows(out, b, n),
    decreases n,
{
    if n > 0 {
        lemma_same_results(out, a, b, n - 1);
        assert(a[n - 1] == b[n - 1]);
    }
}

proof fn lemma_same_markets(out: Seq<char>, a: Seq<JsonView>, b: Seq<JsonView>, n: int)
    requires
        forall|i: int| 1 <= i < n ==> a[i] == b[i],
    ensures
        with_other_rows(out, a, n) == with_other_rows(out, b, n),
    decreases n,
{
    if n > 1 {
        lemma_same_markets(out, a, b, n - 1);
        assert(a[n - 1] == b[n - 1]);
    }
}

/// Each persona is told its style, its sizes and what a medium edge is worth
/// to it, and no other's.
pub proof fn personas_are_told_their_own(persona: Seq<char>)
    ensures
        persona == "degen"@ ==> text::has(style(persona), "**Your style (degen):**"@) && text::has(
            style(persona),
            "commit 30-50% of balance"@,
        ),
        persona == "sniper"@ ==> text::has(style(persona), "**Your style (sniper):**"@)
            && text::has(style(persona), "commit 25-40% of balance"@),
        persona == "conservative"@ ==> text::has(style(persona), "**Your style (conservative):**"@)
            && text::has(style(persona), "Strong signals only: 5-10% of balance"@),
        persona == "contrarian"@ ==> text::has(style(persona), "**Your style (contrarian):**"@)
            && text::has(style(persona), "20-35% of balance"@),
        persona != "degen"@ && persona != "sniper"@ && persona != "conservative"@ && persona
            != "contrarian"@ ==> style(persona).len() == 0,
        is_careful(persona) <==> persona == "conservative"@ || persona == "sniper"@,
{
    reveal_strlit("degen");
    reveal_strlit("sniper");
    reveal_strlit("conservative");
    reveal_strlit("contrarian");
    assert("degen"@.len() == 5 && "sniper"@.len() == 6 && "conservative"@.len() == 12
        && "contrarian"@.len() == 10);
    lemma_degen_style();
    lemma_sniper_style();
    lemma_conservative_style();
    lemma_contrarian_style();
}

proof fn lemma_degen_style()
    ensures
        text::has(DEGEN_STYLE@, "**Your style (degen):**"@),
        text::has(DEGEN_STYLE@, "commit 30-50% of balance"@),
{
    reveal_strlit(
        "**Your style (degen):** Aggressive. When you have a real signal, commit 30-50% of balance. You skip rarely, but you skip if the setup is genuinely noise — a forced bad trade is worse than no trade. Bias is towards action; the bar is just \"is there ANY edge here?\"\n\n",
    );
    reveal_strlit("**Your style (degen):**");
    assert(DEGEN_STYLE@.subrange(0, 23) =~= "**Your style (degen):**"@);
    assert(text::occurs_at(DEGEN_STYLE@, "**Your style (degen):**"@, 0));
    reveal_strlit("commit 30-50% of balance");
    assert(DEGEN_STYLE@.subrange(65, 89) =~= "commit 30-50% of balance"@);
    assert(text::occurs_at(DEGEN_STYLE@, "commit 30-50% of balance"@, 65));
}

proof fn lemma_sniper_style()
    ensures
        text::has(SNIPER_STYLE@, "**Your style (sniper):**"@),
        text::has(SNIPER_STYLE@, "commit 25-40% of balance"@),
{
    reveal_strlit(
        "**Your style (sniper):** Quality over quantity. Most rounds you skip. When you DO submit, commit 25-40% of balance — only on a strong, clear setup. Mediocre signals are a hard skip.\n\n",
    );
    reveal_strlit("**Your style (sniper):**");
    assert(SNIPER_STYLE@.subrange(0, 24) =~= "**Your style (sniper):**"@);
    assert(text::occurs_at(SNIPER_STYLE@, "**Your style (sniper):**"@, 0));
    reveal_strlit("commit 25-40% of balance");
    assert(SNIPER_STYLE@.subrange(90, 114) =~= "commit 25-40% of balance"@);
    assert(text::occurs_at(SNIPER_STYLE@, "commit 25-40% of balance"@, 90));
}

proof fn lemma_conservative_style()
    ensures
        text::has(CONSERVATIVE_STYLE@, "**Your style (conservative):**"@),
        text::has(CONSERVATIVE_STYLE@, "Strong signals only: 5-10% of balance"@),
{
    reveal_strlit(
        "**Your style (conservative):** Capital preservation first. Strong signals only: 5-10% of balance. Mediocre signals: skip. Weak signals: skip. Skipping is the default, submitting is the exception. Net chip gain matters more than submission count.\n\n",
    );
    reveal_strlit("**Your style (conservative):**");
    assert(CONSERVATIVE_STYLE@.subrange(0, 30) =~= "**Your style (conservative):**"@);
    assert(text::occurs_at(CONSERVATIVE_STYLE@, "**Your style (conservative):**"@, 0));
    reveal_strlit("Strong signals only: 5-10% of balance");
    assert(CONSERVATIVE_STYLE@.subrange(59, 96) =~= "Strong signals only: 5-10% of balance"@);
    assert(text::occurs_at(CONSERVATIVE_STYLE@, "Strong signals only: 5-10% of balance"@, 59));
}

proof fn lemma_contrarian_style()
    ensures
        text::has(CONTRARIAN_STYLE@, "**Your style (contrarian):**"@),
        text::has(CONTRARIAN_STYLE@, "20-35% of balance"@),
{
    reveal_strlit(
        "**Your style (contrarian):** Fade the crowd at extremes. Submit only when implied_up_prob is >0.80 or <0.20 AND there is concrete exhaustion evidence in the klines/orderbook. 20-35% of balance on those, otherwise skip. Do not fade the middle.\n\n",
    );
    reveal_strlit("**Your style (contrarian):**");
    assert(CONTRARIAN_STYLE@.subrange(0, 28) =~= "**Your style (contrarian):**"@);
    assert(text::occurs_at(CONTRARIAN_STYLE@, "**Your style (contrarian):**"@, 0));
    reveal_strlit("20-35% of balance");
    assert(CONTRARIAN_STYLE@.subrange(175, 192) =~= "20-35% of balance"@);
    assert(text::occurs_at(CONTRARIAN_STYLE@, "20-35% of balance"@, 175));
}

/// The tickets of orders can be summed up wherever none is negative and their
/// total is a 64-bit number.
pub proof fn ordinary_orders_can_be_summed_up(orders: Seq<JsonView>)
    requires
        forall|i: int|
            0 <= i < orders.len() ==> (#[trigger] orders[i]).signed_or("tickets"@, 0) >= 0
                && orders[i].signed_or("tickets_filled"@, 0) >= 0,
        sum_of(orders, "tickets"@, orders.len() as int) <= i64::MAX,
        sum_of(orders, "tickets_filled"@, orders.len() as int) <= i64::MAX,
    ensures
        orders_fit(Some(orders)),
        orders_fit(None),
{
    assert forall|n: int| 0 <= n <= orders.len() implies i64::MIN <= #[trigger] sum_of(
        orders,
        "tickets"@,
        n,
    ) <= i64::MAX by {
        lemma_sums_grow(orders, "tickets"@, n, orders.len() as int);
    }
    assert forall|n: int| 0 <= n <= orders.len() implies i64::MIN <= #[trigger] sum_of(
        orders,
        "tickets_filled"@,
        n,
    ) <= i64::MAX by {
        lemma_sums_grow(orders, "tickets_filled"@, n, orders.len() as int);
    }
}

proof fn lemma_sums_grow(list: Seq<JsonView>, key: Seq<char>, n: int, m: int)
    requires
        0 <= n <= m <= list.len(),
        forall|i: int| 0 <= i < list.len() ==> (#[trigger] list[i]).signed_or(key, 0) >= 0,
    ensures
        0 <= sum_of(list, key, n) <= sum_of(list, key, m),
    decreases m,
{
    if m > 0 {
        assert(list[m - 1].signed_or(key, 0) >= 0);
        if n < m {
            lemma_sums_grow(list, key, n, m - 1);
        } else {
            lemma_sums_grow(list, key, n - 1, m - 1);
        }
    }
}

/// The share of tickets that are filled is told for all open orders together,
/// and is zero where they have no tickets.
pub proof fn fill_rate_is_that_of_all_orders(orders: Seq<JsonView>)
    ensures
        ({
            let tickets = sum_of(orders, "tickets"@, orders.len() as int);
            let filled = sum_of(orders, "tickets_filled"@, orders.len() as int);
            &&& tickets <= 0 ==> filled_percent(orders) == 0
            &&& tickets >= 1 ==> filled_percent(orders) == numerals::fill_rate(filled, tickets)
        }),
{
}

/// The sizes end with what a medium edge is worth: to a careful persona half
/// the size at a favorable price, and nothing for a weak edge, to any other
/// about half the size, and a token for a weak edge.
pub proof fn medium_edges_are_worth_half(out: Seq<char>, persona: Seq<char>, balance: Double)
    ensures
        ({
            let sized = with_sizes(out, persona, balance);
            let end = sizing_note(persona) + "\n"@ + (if persona == "conservative"@ || persona
                == "sniper"@ {
                "- For MEDIUM edge: half the strong-edge size, only with favorable price. For WEAK edge: skip.\n"@
            } else {
                "- For MEDIUM edge: roughly half the strong-edge size. For WEAK edge: small token size or skip — your call.\n"@
            });
            sized.len() >= end.len() && sized.skip(sized.len() - end.len()) == end
        }),
        persona == "degen"@ ==> sizing_note(persona) == "Strong edges only get the big size."@,
        persona == "sniper"@ ==> sizing_note(persona)
            == "Most rounds skip. When you shoot, this is the size."@,
        persona == "conservative"@ ==> sizing_note(persona)
            == "Strong edges only. Mediocre = smaller or skip. Weak = skip."@,
        persona == "contrarian"@ ==> sizing_note(persona)
            == "Only at extremes with exhaustion evidence."@,
{
    broadcast use lemma_sum_shifts;

    reveal_strlit("degen");
    reveal_strlit("sniper");
    reveal_strlit("conservative");
    reveal_strlit("contrarian");
    assert("degen"@.len() == 5 && "sniper"@.len() == 6 && "conservative"@.len() == 12
        && "contrarian"@.len() == 10);
    let sized = with_sizes(out, persona, balance);
    let end = sizing_note(persona) + "\n"@ + (if is_careful(persona) {
        CAREFUL_MEDIUM@
    } else {
        FREE_MEDIUM@
    });
    let head = out + "- **Your sizing ("@ + persona + ", STRONG edge):** "@ + text::decimal(
        tickets_of_share(balance, min_fraction(persona)),
    ) + "-"@ + text::decimal(tickets_of_share(balance, max_fraction(persona))) + " tickets. "@;
    assert(sized == head + end);
    assert((head + end).skip(head.len() as int) =~= end);
}

/// The challenge is told word for word between two marks, with its
/// instructions where it has any, and for the market that it belongs to.
pub proof fn challenge_is_told_between_marks(
    out: Seq<char>,
    market_id: Seq<char>,
    challenge: JsonView,
    question: Seq<char>,
)
    requires
        challenge::question(challenge) == Some(question),
    ensures
        ({
            let told = with_challenge(out, market_id, challenge);
            let body = question + (match challenge.text_at("instructions"@) {
                Some(i) => "\nInstructions: "@ + i,
                None => Seq::empty(),
            });
            text::has(
                told,
                "Submit only to market `"@ + market_id
                    + "`. The challenge below applies to your `reasoning` string.\n\n--- challenge begins ---\n"@
                    + body + "\n--- challenge ends ---\n"@,
            )
        }),
{
    broadcast use lemma_sum_shifts;

    let told = with_challenge(out, market_id, challenge);
    let body = question + (match challenge.text_at("instructions"@) {
        Some(i) => "\nInstructions: "@ + i,
        None => Seq::empty(),
    });
    let first = "## Server-Issued Challenge (reasoning must satisfy this in one pass)\n\nSubmit only to market `"@;
    let begin = "`. The challenge below applies to your `reasoning` string.\n\n--- challenge begins ---\n"@;
    let mark = "\n--- challenge ends ---\n"@;
    reveal_strlit(
        "## Server-Issued Challenge (reasoning must satisfy this in one pass)\n\nSubmit only to market `",
    );
    reveal_strlit("Submit only to market `");
    lemma_challenge_rule();
    let n = first.len() - "Submit only to market `"@.len();
    assert(first =~= first.take(n) + "Submit only to market `"@);
    let rest = CHALLENGE_RULE@.skip(mark.len() as int);
    assert(CHALLENGE_RULE@ =~= mark + rest);
    assert(question + Seq::<char>::empty() =~= question);
    let line = "Submit only to market `"@ + market_id + begin + body + mark;
    assert(told == out + first + market_id + begin + body + CHALLENGE_RULE@);
    assert(told == (out + first.take(n)) + line + rest);
    lemma_line(told, out + first.take(n), line, rest);
}

proof fn lemma_challenge_rule()
    ensures
        CHALLENGE_RULE@.len() >= "\n--- challenge ends ---\n"@.len(),
        CHALLENGE_RULE@.take("\n--- challenge ends ---\n"@.len() as int)
            == "\n--- challenge ends ---\n"@,
{
    reveal_strlit("\n--- challenge ends ---\n");
    reveal_strlit(
        "\n--- challenge ends ---\n\nParse the challenge above, decide UP/DOWN based on the market, then write reasoning that simultaneously satisfies every requirement. The reasoning string MUST contain the exact phrase `Challenge answer: <digits>.` with the numeric answer from the challenge. If the challenge instructions ask for `Challenge: <number>`, include that line too. The server will programmatically verify all constraints and reject non-compliant submissions.\n\n",
    );
    assert(CHALLENGE_RULE@.take(24) =~= "\n--- challenge ends ---\n"@);
}

/// The price of the other side that could not be read counts as one half.
pub proof fn unread_prices_count_as_half(complement: Option<Double>)
    ensures
        complement matches Some(d) ==> complement_or_half(complement) == d,
        complement is None ==> double::is_hundredths(complement_or_half(complement).bits, 50),
{
    double::thresholds_are_hundredths();
}

/// A candle is told with its prices to two decimals and its volume without
/// any; what is missing is left out.
pub proof fn candle_numbers_are_told(candle: JsonView, key: Seq<char>)
    ensures
        candle.double_at(key) matches Some(d) ==> fixed2_at(candle, key) == numerals::fixed2(d)
            && fixed0_at(candle, key) == numerals::fixed0(d),
        candle.double_at(key) is None ==> fixed2_at(candle, key).len() == 0 && fixed0_at(
            candle,
            key,
        ).len() == 0,
{
}

/// The short form of the answer repeats the most tickets that can be
/// committed, the balance without decimals, and the market to submit to.
pub proof fn answer_form_names_the_market(
    out: Seq<char>,
    market_id: Seq<char>,
    persona: Seq<char>,
    balance: Double,
)
    ensures
        text::has(
            with_rules(out, market_id, persona, balance),
            "- \"tickets\": integer, minimum 100, max "@ + numerals::fixed0(balance)
                + "\n- \"market_id\": which market (default: \""@ + market_id + "\")\n"@,
        ),
        text::has(with_rules(out, market_id, persona, balance), style(persona)),
{
    broadcast use lemma_sum_shifts;

    let chips = numerals::fixed0(balance);
    let ruled = with_rules(out, market_id, persona, balance);
    let first = RULES@ + "- \"tickets\": how many chips to commit (integer, minimum 100, max "@
        + chips
        + "). Size according to your persona and conviction!\n- \"market_id\": which market (default: \""@
        + market_id + "\", required if action=submit)\n"@ + FORMAT@;
    let line = "- \"tickets\": integer, minimum 100, max "@ + chips
        + "\n- \"market_id\": which market (default: \""@ + market_id + "\")\n"@;
    let rest = LANGUAGE@ + "- Balance: "@ + chips + " chips\n"@;
    assert(ruled == (out + style(persona) + first) + line + rest);
    lemma_line(ruled, out + style(persona) + first, line, rest);
    assert(ruled == out + style(persona) + (first + line + rest));
    lemma_line(ruled, out, style(persona), first + line + rest);
}

} // verus!
