//! What becomes of a decision: an order, or a reason to skip the round.
use crate::challenge;
use crate::decision;
use crate::decision::LlmDecision;
use crate::double;
use crate::double::Double;
use crate::json;
use crate::json::Json;
use crate::json::JsonView;
use crate::numerals;
use crate::strategy;
use crate::submission;
use crate::submission::Order;
use vstd::prelude::*;

verus! {

/// Where the agent stands at the start of a round. `S` is the type of texts,
/// `L` that of lists of JSON values.
pub struct Agent<S, L> {
    pub balance: Double,
    pub persona: S,
    pub submissions_remaining: i64,
    pub slot_resets_in: u64,
    pub open_orders: Option<L>,
    pub recent_results: Option<L>,
}

/// An agent as a mathematical value.
pub open spec fn agent_view(agent: Agent<String, Vec<Json>>) -> Agent<Seq<char>, Seq<JsonView>> {
    Agent {
        balance: agent.balance,
        persona: agent.persona@,
        submissions_remaining: agent.submissions_remaining,
        slot_resets_in: agent.slot_resets_in,
        open_orders: strategy::opt_trees(agent.open_orders),
        recent_results: strategy::opt_trees(agent.recent_results),
    }
}

/// What becomes of a decision.
pub enum Verdict<S> {
    /// The order to submit.
    Place(Order<S>),
    /// Why the round is skipped.
    Skip(S),
}

/// A verdict as a mathematical value.
pub open spec fn verdict_view(verdict: Verdict<String>) -> Verdict<Seq<char>> {
    match verdict {
        Verdict::Place(order) => Verdict::Place(submission::order_view(order)),
        Verdict::Skip(reason) => Verdict::Skip(reason@),
    }
}

/// The reasoning to submit: with the answer to the challenge where a solver
/// knows it, else as it is, if it carries an answer.
pub open spec fn final_reasoning(reasoning: Seq<char>, challenge: JsonView) -> Option<Seq<char>> {
    match challenge::answer_to(challenge) {
        Some(answer) => Some(challenge::answered(reasoning, answer)),
        None => if challenge::shown_answer(reasoning) is Some {
            Some(reasoning)
        } else {
            None
        },
    }
}

/// A number of tickets moved into the server's bounds.
pub open spec fn bounded(tickets: u32) -> u32 {
    if tickets < strategy::MIN_TICKETS {
        strategy::MIN_TICKETS
    } else if tickets > strategy::MAX_TICKETS {
        strategy::MAX_TICKETS
    } else {
        tickets
    }
}

/// The tickets to submit: those of the model, or else those that the rules
/// give, within the server's bounds.
pub open spec fn final_tickets(
    agent: Agent<Seq<char>, Seq<JsonView>>,
    tickets: Option<u32>,
    edge_quality: Option<Seq<char>>,
    confidence: Option<Double>,
) -> Option<u32> {
    match tickets {
        Some(t) => Some(bounded(t)),
        None => match strategy::fallback(
            agent.persona,
            agent.balance,
            edge_quality,
            confidence,
            strategy::accuracy(agent.recent_results),
        ) {
            Some(t) => Some(bounded(t)),
            None => None,
        },
    }
}

/// Why a round is skipped for want of an answer.
pub const NO_ANSWER: &'static str = "LLM did not include required Challenge answer digits";

/// Why a round is skipped for want of tickets.
pub const NO_TICKETS: &'static str = "missing tickets and unsafe to fall back";

/// Why a round is skipped for want of chips.
pub const NO_CHIPS: &'static str = "tickets exceed available balance";

/// What becomes of a decision: the strategy gate, the duplicate guard, the
/// answer to the challenge, the tickets and the balance are checked in this
/// order. The order goes to the market of the challenge, whatever market the
/// decision names.
pub open spec fn verdict(
    agent: Agent<Seq<char>, Seq<JsonView>>,
    market_id: Seq<char>,
    challenge: JsonView,
    nonce: Seq<char>,
    decision: LlmDecision<Seq<char>>,
) -> Verdict<Seq<char>> {
    match decision {
        LlmDecision::Skip { reason } => Verdict::Skip(reason),
        LlmDecision::Submit {
            direction,
            reasoning,
            tickets,
            limit_price,
            confidence,
            edge_quality,
            ..
        } => {
            let rejected = strategy::rejection(
                agent.persona,
                edge_quality,
                confidence,
                strategy::accuracy(agent.recent_results),
            );
            let duplicate = strategy::duplicate(
                market_id,
                agent.open_orders,
                agent.recent_results,
                edge_quality,
                confidence,
            );
            let answered = final_reasoning(reasoning, challenge);
            let sized = final_tickets(agent, tickets, edge_quality, confidence);
            if rejected is Some {
                Verdict::Skip(rejected->0)
            } else if duplicate is Some {
                Verdict::Skip(duplicate->0)
            } else if answered is None {
                Verdict::Skip(NO_ANSWER@)
            } else if sized is None {
                Verdict::Skip(NO_TICKETS@)
            } else if double::exceeds(sized->0 as nat, agent.balance) {
                Verdict::Skip(NO_CHIPS@)
            } else {
                Verdict::Place(
                    Order {
                        market_id,
                        direction,
                        tickets: sized->0,
                        reasoning: answered->0,
                        challenge_nonce: nonce,
                        limit_price,
                    },
                )
            }
        },
    }
}

/// Whether a decision names no price, or one within the server's bounds.
pub open spec fn priced<S>(decision: LlmDecision<S>) -> bool {
    match decision {
        LlmDecision::Submit { limit_price, .. } => limit_price matches Some(p)
            ==> numerals::is_price(p),
        LlmDecision::Skip { .. } => true,
    }
}

fn bounded_of(tickets: u32) -> (r: u32)
    ensures
        r == bounded(tickets),
{
    if tickets < strategy::MIN_TICKETS {
        strategy::MIN_TICKETS
    } else if tickets > strategy::MAX_TICKETS {
        strategy::MAX_TICKETS
    } else {
        tickets
    }
}

/// The reasoning to submit: with the answer to the challenge where a solver
/// knows it, else as it is, if it carries an answer.
pub fn reasoning_to_submit(reasoning: String, challenge: &Json) -> (r: Option<String>)
    ensures
        json::opt_view(r) == final_reasoning(reasoning@, challenge@),
{
    match challenge::challenge_answer(challenge) {
        Some(answer) => Some(
            challenge::with_challenge_answer(reasoning.as_str(), answer.as_str()),
        ),
        None => if challenge::extract_challenge_answer(reasoning.as_str()).is_some() {
            Some(reasoning)
        } else {
            None
        },
    }
}

/// The tickets to submit: those of the model, or else those that the rules
/// give, within the server's bounds.
pub fn tickets_to_submit(
    agent: &Agent<String, Vec<Json>>,
    tickets: Option<u32>,
    edge_quality: &Option<String>,
    confidence: Option<Double>,
) -> (r: Option<u32>)
    ensures
        r == final_tickets(agent_view(*agent), tickets, json::opt_view(*edge_quality), confidence),
{
    match tickets {
        Some(t) => Some(bounded_of(t)),
        None => match strategy::safe_fallback_tickets(
            agent.persona.as_str(),
            agent.balance,
            edge_quality,
            confidence,
            strategy::recent_accuracy(&agent.recent_results),
        ) {
            Some(t) => Some(bounded_of(t)),
            None => None,
        },
    }
}

/// Turns a decision into an order, or into a reason to skip the round.
pub fn judge(
    agent: &Agent<String, Vec<Json>>,
    market_id: &str,
    challenge: &Json,
    nonce: &str,
    decision: LlmDecision<String>,
) -> (r: Verdict<String>)
    requires
        priced(decision),
    ensures
        verdict_view(r) == verdict(
            agent_view(*agent),
            market_id@,
            challenge@,
            nonce@,
            decision::decision_view(decision),
        ),
        r matches Verdict::Place(order) ==> order.wf(),
{
    match decision {
        LlmDecision::Skip { reason } => Verdict::Skip(reason),
        LlmDecision::Submit {
            direction,
            reasoning,
            tickets,
            market_id: _,
            limit_price,
            confidence,
            edge_quality,
            fill_intent: _,
        } => {
            let recent_acc = strategy::recent_accuracy(&agent.recent_results);
            if let Some(reason) = strategy::should_reject_for_strategy(
                agent.persona.as_str(),
                &edge_quality,
                confidence,
                recent_acc,
            ) {
                return Verdict::Skip(reason);
            }
            if let Some(reason) = strategy::should_skip_for_duplicate_market(
                market_id,
                &agent.open_orders,
                &agent.recent_results,
                &edge_quality,
                confidence,
            ) {
                return Verdict::Skip(reason);
            }
            let reasoning = match reasoning_to_submit(reasoning, challenge) {
                Some(s) => s,
                None => {
                    return Verdict::Skip(NO_ANSWER.to_owned());
                },
            };
            let tickets: u32 = match tickets_to_submit(
                agent,
                tickets,
                &edge_quality,
                confidence,
            ) {
                Some(t) => t,
                None => {
                    return Verdict::Skip(NO_TICKETS.to_owned());
                },
            };
            if double::whole_exceeds(tickets, agent.balance) {
                return Verdict::Skip(NO_CHIPS.to_owned());
            }
            Verdict::Place(
                Order {
                    market_id: market_id.to_owned(),
                    direction,
                    tickets,
                    reasoning,
                    challenge_nonce: nonce.to_owned(),
                    limit_price,
                },
            )
        },
    }
}

/// Every order goes to the market of the challenge with the challenge's nonce,
/// commits a number of tickets within the server's bounds that the balance
/// covers, and has passed the strategy gate and the duplicate guard. Its
/// reasoning holds the solver's answer, or an answer of the model.
pub proof fn orders_are_sound(
    agent: Agent<Seq<char>, Seq<JsonView>>,
    market_id: Seq<char>,
    challenge: JsonView,
    nonce: Seq<char>,
    decision: LlmDecision<Seq<char>>,
)
    ensures
        verdict(agent, market_id, challenge, nonce, decision) matches Verdict::Place(order) ==> {
            &&& order.market_id == market_id
            &&& order.challenge_nonce == nonce
            &&& strategy::MIN_TICKETS <= order.tickets <= strategy::MAX_TICKETS
            &&& !double::exceeds(order.tickets as nat, agent.balance)
            &&& decision is Submit
            &&& order.direction == decision->direction
            &&& order.limit_price == decision->limit_price
            &&& strategy::rejection(
                agent.persona,
                decision->edge_quality,
                decision->confidence,
                strategy::accuracy(agent.recent_results),
            ) is None
            &&& strategy::duplicate(
                market_id,
                agent.open_orders,
                agent.recent_results,
                decision->edge_quality,
                decision->confidence,
            ) is None
            &&& match challenge::answer_to(challenge) {
                Some(answer) => order.reasoning == challenge::answered(
                    decision->reasoning,
                    answer,
                ),
                None => order.reasoning == decision->reasoning && challenge::shown_answer(
                    order.reasoning,
                ) is Some,
            }
        },
{
}

/// A skip is never turned into an order, and keeps its reason.
pub proof fn skips_stay_skips(
    agent: Agent<Seq<char>, Seq<JsonView>>,
    market_id: Seq<char>,
    challenge: JsonView,
    nonce: Seq<char>,
    reason: Seq<char>,
)
    ensures
        verdict(agent, market_id, challenge, nonce, LlmDecision::Skip { reason }) == Verdict::Skip(
            reason,
        ),
{
}

/// A number of tickets that the model names is submitted as it is where it
/// lies from 100 to 100,000, and is moved to the nearer of the two bounds
/// otherwise. A setup that has passed both guards and answers the challenge
/// is placed unless that number exceeds the balance, and is skipped for want
/// of chips if it does.
pub proof fn named_tickets_are_submitted(
    agent: Agent<Seq<char>, Seq<JsonView>>,
    market_id: Seq<char>,
    challenge: JsonView,
    nonce: Seq<char>,
    decision: LlmDecision<Seq<char>>,
    t: u32,
)
    requires
        decision is Submit,
        decision->tickets == Some(t),
    ensures
        ({
            let outcome = verdict(agent, market_id, challenge, nonce, decision);
            let tickets: u32 = if t < 100 {
                100
            } else if t > 100_000 {
                100_000
            } else {
                t
            };
            let short = !agent.balance.is_nan() && agent.balance.units() < tickets * double::two(
                1074,
            );
            let passed = strategy::rejection(
                agent.persona,
                decision->edge_quality,
                decision->confidence,
                strategy::accuracy(agent.recent_results),
            ) is None && strategy::duplicate(
                market_id,
                agent.open_orders,
                agent.recent_results,
                decision->edge_quality,
                decision->confidence,
            ) is None && (challenge::answer_to(challenge) is Some || challenge::shown_answer(
                decision->reasoning,
            ) is Some);
            &&& outcome matches Verdict::Place(order) ==> order.tickets == tickets
            &&& outcome is Place <==> passed && !short
            &&& passed && short ==> outcome == Verdict::Skip("tickets exceed available balance"@)
        }),
{
}

/// Where the model names no tickets, those that the rules give are submitted,
/// and the round is skipped where they give none.
pub proof fn unnamed_tickets_follow_the_rules(
    agent: Agent<Seq<char>, Seq<JsonView>>,
    market_id: Seq<char>,
    challenge: JsonView,
    nonce: Seq<char>,
    decision: LlmDecision<Seq<char>>,
)
    requires
        decision is Submit,
        decision->tickets is None,
        strategy::rejection(
            agent.persona,
            decision->edge_quality,
            decision->confidence,
            strategy::accuracy(agent.recent_results),
        ) is None,
        strategy::duplicate(
            market_id,
            agent.open_orders,
            agent.recent_results,
            decision->edge_quality,
            decision->confidence,
        ) is None,
        challenge::answer_to(challenge) is Some || challenge::shown_answer(decision->reasoning)
            is Some,
    ensures
        ({
            let outcome = verdict(agent, market_id, challenge, nonce, decision);
            let given = strategy::fallback(
                agent.persona,
                agent.balance,
                decision->edge_quality,
                decision->confidence,
                strategy::accuracy(agent.recent_results),
            );
            &&& given matches Some(t) ==> (outcome matches Verdict::Place(order) && order.tickets
                == t)
            &&& given is None ==> outcome == Verdict::Skip(
                "missing tickets and unsafe to fall back"@,
            )
        }),
{
    strategy::fallback_is_in_bounds(
        agent.persona,
        agent.balance,
        decision->edge_quality,
        decision->confidence,
        strategy::accuracy(agent.recent_results),
    );
    strategy::fallback_is_affordable(
        agent.persona,
        agent.balance,
        decision->edge_quality,
        decision->confidence,
        strategy::accuracy(agent.recent_results),
    );
}

/// The reason of a skip is that of the first guard that objects: the strategy
/// gate, then the duplicate guard, then the want of an answer to the
/// challenge.
pub proof fn first_objection_is_the_reason(
    agent: Agent<Seq<char>, Seq<JsonView>>,
    market_id: Seq<char>,
    challenge: JsonView,
    nonce: Seq<char>,
    decision: LlmDecision<Seq<char>>,
)
    requires
        decision is Submit,
    ensures
        ({
            let outcome = verdict(agent, market_id, challenge, nonce, decision);
            let gate = strategy::rejection(
                agent.persona,
                decision->edge_quality,
                decision->confidence,
                strategy::accuracy(agent.recent_results),
            );
            let guard = strategy::duplicate(
                market_id,
                agent.open_orders,
                agent.recent_results,
                decision->edge_quality,
                decision->confidence,
            );
            let answered = challenge::answer_to(challenge) is Some || challenge::shown_answer(
                decision->reasoning,
            ) is Some;
            &&& gate matches Some(reason) ==> outcome == Verdict::Skip(reason)
            &&& gate is None ==> (guard matches Some(reason) ==> outcome == Verdict::Skip(reason))
            &&& gate is None && guard is None && !answered ==> outcome == Verdict::Skip(
                "LLM did not include required Challenge answer digits"@,
            )
        }),
{
}

} // verus!
