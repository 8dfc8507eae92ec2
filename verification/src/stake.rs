//! The stake of an agent: how much is allocated to it, whether that is enough,
//! and how to get there.
use crate::json::Json;
use crate::json::JsonView;
use crate::json::Members;
use crate::report;
use crate::report::Choice;
use crate::report::Report;
use crate::text;
use vstd::prelude::*;
use vstd::string::StringExecFns;

verus! {

/// Where the stake of an agent is found.
pub const STAKE_PATH: &'static str = "/api/v1/agents/me/stake";

/// The command that shows the stake.
pub const STAKE_COMMAND: &'static str = "predict-agent stake";

/// The command that starts a round by hand.
pub const CONTEXT_COMMAND: &'static str = "predict-agent context";

/// The paths that start with a web page.
pub const WEB_PATH: &'static str = r#"

To become eligible — pick whichever path fits you:

──── [A] Easiest — official AWP web UI ────
    https://awp.pro/staking
    Connect your wallet, lock ≥"#;

/// The path through a sponsor.
pub const SPONSOR_PATH: &'static str = r#", worknetId 845300000003).
    The UI walks you through every step.

──── [B] No-AWP path — KYA delegated staking ────
    https://kya.link/
    Complete KYA's verification (KYC / Twitter); KYA sponsors
    stake to (your agent "#;

/// The path through the contracts.
pub const CONTRACT_PATH: &'static str = r#", worknetId 845300000012) on your
    behalf — you don't need to hold AWP yourself.

──── [C] Programmatic — direct contract calls (advanced) ────
    Base mainnet (chainId 8453):
    1) veAWP.deposit(amount, lockDuration)  contract: 0x0000b534C63D78212f1BDCc315165852793A00A8
    2) AWPAllocator.allocate(staker=you, agent=this_agent_address, worknetId=845300000003, amount=1000e18)
       contract: 0x0000D6BB5e040E35081b3AaF59DD71b21C9800AA

After staking, wait ~10s, then re-run: predict-agent stake"#;

/// Whether the agent has stake enough, as far as the server tells.
pub open spec fn is_eligible(data: JsonView) -> bool {
    data.boolean_at("eligible"@) == Some(true)
}

/// Whether the agent has stake enough, as far as the server tells.
pub fn eligible(data: &Json) -> (r: bool)
    ensures
        r == is_eligible(data@),
{
    match data.bool_at("eligible") {
        Some(b) => b,
        None => false,
    }
}

/// The facts of the stake, one in a line.
pub open spec fn facts(data: JsonView) -> Seq<char> {
    "Agent:           "@ + data.text_or("agent_address"@, "unknown"@) + "\nCurrent stake:   "@
        + data.text_or("current_stake_awp"@, "0"@) + " AWP\nRequired:        "@ + data.text_or(
        "required_stake_awp"@,
        "1000"@,
    ) + " AWP\nStatus:          "@ + (if is_eligible(data) {
        "✓ ELIGIBLE"@
    } else {
        "✗ NOT ELIGIBLE"@
    }) + "\nGate mode:       "@ + data.text_or("gate_mode"@, "off"@)
}

/// With the end of the lock, where there is one.
pub open spec fn with_lock(out: Seq<char>, data: JsonView) -> Seq<char> {
    match data.text_at("lock_min_until"@) {
        Some(until) => out + "\nLock expires at: "@ + until,
        None => out,
    }
}

/// With one of those who back the agent.
pub open spec fn with_backer(out: Seq<char>, backer: JsonView) -> Seq<char> {
    out + "\n  • staker "@ + backer.text_or("staker"@, "?"@) + "  →  "@ + backer.text_or(
        "amount_awp"@,
        "?"@,
    ) + " AWP  (worknet "@ + backer.text_or("worknet_id"@, "?"@) + ")"@
}

/// With the first `n` of those who back the agent.
pub open spec fn with_backer_rows(out: Seq<char>, backers: Seq<JsonView>, n: int) -> Seq<char>
    decreases n,
{
    if n <= 0 {
        out
    } else {
        with_backer(with_backer_rows(out, backers, n - 1), backers[n - 1])
    }
}

/// With those who back the agent, where there are any.
pub open spec fn with_backers(out: Seq<char>, data: JsonView) -> Seq<char> {
    match data.items_at("backers"@) {
        Some(backers) => if backers.len() > 0 {
            with_backer_rows(
                out + "\nBackers ("@ + text::decimal(backers.len()) + "):"@,
                backers,
                backers.len() as int,
            )
        } else {
            out
        },
        None => out,
    }
}

/// The stake in words, as it is.
pub open spec fn summary(data: JsonView) -> Seq<char> {
    with_backers(with_lock(facts(data), data), data)
}

/// The ways to become eligible.
pub open spec fn with_paths(out: Seq<char>, data: JsonView) -> Seq<char> {
    let agent = data.text_or("agent_address"@, "unknown"@);
    out + WEB_PATH@ + data.text_or("required_stake_awp"@, "1000"@)
        + " AWP, and allocate to\n    (your agent "@ + agent + SPONSOR_PATH@ + agent
        + CONTRACT_PATH@
}

/// The report on a stake: the facts, and what comes next.
pub open spec fn stake_outcome(data: JsonView) -> Report<
    Seq<char>,
    JsonView,
    Seq<Choice<Seq<char>>>,
> {
    if is_eligible(data) {
        Report::Success {
            message: summary(data) + "\n\nYou're staked. Run `predict-agent context` to start."@,
            data,
            internal: report::guide("ready"@, CONTEXT_COMMAND@, None, None),
        }
    } else {
        Report::Failure {
            message: with_paths(summary(data), data),
            code: "NOT_STAKED"@,
            category: "stake"@,
            retryable: false,
            suggestion:
                "Complete one of the three paths above, then re-run `predict-agent stake`."@,
            debug: data,
            internal: report::guide("stake_required"@, STAKE_COMMAND@, None, None),
        }
    }
}

/// The report where the stake could not be fetched.
pub open spec fn stake_failure(server_url: Seq<char>, error: Seq<char>) -> Report<
    Seq<char>,
    JsonView,
    Seq<Choice<Seq<char>>>,
> {
    Report::Failure {
        message: "Failed to fetch stake status: "@ + error,
        code: "STAKE_FETCH_FAILED"@,
        category: "network"@,
        retryable: true,
        suggestion: "Check coordinator connectivity."@,
        debug: JsonView::Object(
            seq![
                ("server_url"@, JsonView::Str(server_url)),
                ("error_detail"@, JsonView::Str(error)),
            ],
        ),
        internal: report::guide("retry"@, STAKE_COMMAND@, None, None),
    }
}

fn summary_of(data: &Json) -> (out: String)
    ensures
        out@ == summary(data@),
{
    let mut out = "Agent:           ".to_owned();
    out.append(data.str_or("agent_address", "unknown").as_str());
    out.append("\nCurrent stake:   ");
    out.append(data.str_or("current_stake_awp", "0").as_str());
    out.append(" AWP\nRequired:        ");
    out.append(data.str_or("required_stake_awp", "1000").as_str());
    out.append(" AWP\nStatus:          ");
    if eligible(data) {
        out.append("✓ ELIGIBLE");
    } else {
        out.append("✗ NOT ELIGIBLE");
    }
    out.append("\nGate mode:       ");
    out.append(data.str_or("gate_mode", "off").as_str());
    if let Some(until) = data.str_at("lock_min_until") {
        out.append("\nLock expires at: ");
        out.append(until.as_str());
    }
    put_backers(&mut out, data);
    out
}

fn put_backers(out: &mut String, data: &Json)
    ensures
        final(out)@ == with_backers(old(out)@, data@),
{
    if let Some(backers) = data.array_at("backers") {
        if backers.len() > 0 {
            let ghost all = crate::json::trees(backers@);
            out.append("\nBackers (");
            text::push_decimal(out, backers.len() as u64);
            out.append("):");
            let ghost head = out@;
            let mut i: usize = 0;
            while i < backers.len()
                invariant
                    i <= backers@.len(),
                    all == crate::json::trees(backers@),
                    out@ == with_backer_rows(head, all, i as int),
                decreases backers@.len() - i,
            {
                assert(all[i as int] == backers@[i as int]@);
                let backer = &backers[i];
                out.append("\n  • staker ");
                out.append(backer.str_or("staker", "?").as_str());
                out.append("  →  ");
                out.append(backer.str_or("amount_awp", "?").as_str());
                out.append(" AWP  (worknet ");
                out.append(backer.str_or("worknet_id", "?").as_str());
                out.append(")");
                i = i + 1;
            }
        }
    }
}

/// The report on a stake, from the server's reply: the facts, and either what
/// to run next or the ways to become eligible.
pub fn stake_report(reply: &Json) -> (r: Report<String, Json, Vec<Choice<String>>>)
    ensures
        report::report_view(r) == stake_outcome(reply@.object_at("data"@)),
{
    let data = match reply.get("data") {
        Some(data) => data.copy(),
        None => Members::new().object(),
    };
    let mut message = summary_of(&data);
    if eligible(&data) {
        message.append("\n\nYou're staked. Run `predict-agent context` to start.");
        Report::Success {
            message,
            data,
            internal: report::guide_of("ready", CONTEXT_COMMAND, None, None),
        }
    } else {
        let agent = data.str_or("agent_address", "unknown");
        message.append(WEB_PATH);
        message.append(data.str_or("required_stake_awp", "1000").as_str());
        message.append(" AWP, and allocate to\n    (your agent ");
        message.append(agent.as_str());
        message.append(SPONSOR_PATH);
        message.append(agent.as_str());
        message.append(CONTRACT_PATH);
        Report::Failure {
            message,
            code: "NOT_STAKED".to_owned(),
            category: "stake".to_owned(),
            retryable: false,
            suggestion:
                "Complete one of the three paths above, then re-run `predict-agent stake`.".to_owned(),
            debug: data,
            internal: report::guide_of("stake_required", STAKE_COMMAND, None, None),
        }
    }
}

/// The report where the stake could not be fetched.
pub fn stake_unavailable(server_url: &str, error: &str) -> (r: Report<
    String,
    Json,
    Vec<Choice<String>>,
>)
    ensures
        report::report_view(r) == stake_failure(server_url@, error@),
{
    let mut message = "Failed to fetch stake status: ".to_owned();
    message.append(error);
    let debug = Members::new().with_str("server_url", server_url).with_str("error_detail", error);
    assert(debug@ =~= seq![
        ("server_url"@, JsonView::Str(server_url@)),
        ("error_detail"@, JsonView::Str(error@)),
    ]);
    Report::Failure {
        message,
        code: "STAKE_FETCH_FAILED".to_owned(),
        category: "network".to_owned(),
        retryable: true,
        suggestion: "Check coordinator connectivity.".to_owned(),
        debug: debug.object(),
        internal: report::guide_of("retry", STAKE_COMMAND, None, None),
    }
}

/// Success is reported exactly where the server says that the agent is
/// eligible, and both reports hand the server's data on unchanged.
pub proof fn stake_reports_eligibility(data: JsonView)
    ensures
        stake_outcome(data) is Success <==> data.boolean_at("eligible"@) == Some(true),
        match stake_outcome(data) {
            Report::Success { data: shown, .. } => shown == data,
            Report::Failure { debug, .. } => debug == data,
        },
{
}

/// What a report on a stake says first: the agent, what it has and what it
/// needs, whether that is enough, and whether the server enforces it. Where
/// the server does not tell, the agent is unknown, has 0 of 1000 and is not
/// gated.
pub proof fn stake_reports_begin_with_the_facts(data: JsonView)
    ensures
        ({
            let message = match stake_outcome(data) {
                Report::Success { message, .. } => message,
                Report::Failure { message, .. } => message,
            };
            let or = |key: Seq<char>, other: Seq<char>|
                match data.text_at(key) {
                    Some(s) => s,
                    None => other,
                };
            text::begins(
                message,
                "Agent:           "@ + or("agent_address"@, "unknown"@) + "\nCurrent stake:   "@
                    + or("current_stake_awp"@, "0"@) + " AWP\nRequired:        "@ + or(
                    "required_stake_awp"@,
                    "1000"@,
                ) + " AWP\nStatus:          "@ + (if data.boolean_at("eligible"@) == Some(true) {
                    "✓ ELIGIBLE"@
                } else {
                    "✗ NOT ELIGIBLE"@
                }) + "\nGate mode:       "@ + or("gate_mode"@, "off"@),
            )
        }),
{
    let message = match stake_outcome(data) {
        Report::Success { message, .. } => message,
        Report::Failure { message, .. } => message,
    };
    lemma_facts_come_first(data);
    let told = summary(data);
    let head = facts(data);
    if is_eligible(data) {
        let rest = "\n\nYou're staked. Run `predict-agent context` to start."@;
        assert(message.subrange(0, head.len() as int) =~= told.subrange(0, head.len() as int));
    } else {
        lemma_paths_come_last(told, data);
        assert(message.subrange(0, head.len() as int) =~= message.take(
            told.len() as int,
        ).subrange(0, head.len() as int));
    }
}

proof fn lemma_paths_come_last(out: Seq<char>, data: JsonView)
    ensures
        with_paths(out, data).len() >= out.len(),
        with_paths(out, data).take(out.len() as int) == out,
{
    let agent = data.text_or("agent_address"@, "unknown"@);
    let rest = WEB_PATH@ + data.text_or("required_stake_awp"@, "1000"@)
        + " AWP, and allocate to\n    (your agent "@ + agent + SPONSOR_PATH@ + agent
        + CONTRACT_PATH@;
    assert(with_paths(out, data) =~= out + rest);
    assert((out + rest).take(out.len() as int) =~= out);
}

proof fn lemma_facts_come_first(data: JsonView)
    ensures
        text::begins(summary(data), facts(data)),
{
    let head = facts(data);
    let locked = with_lock(head, data);
    assert(text::begins(locked, head)) by {
        assert(locked.subrange(0, head.len() as int) =~= head);
    }
    if let Some(backers) = data.items_at("backers"@) {
        if backers.len() > 0 {
            let title = locked + "\nBackers ("@ + text::decimal(backers.len()) + "):"@;
            lemma_rows_come_last(title, backers, backers.len() as int);
            let told = summary(data);
            assert(told.subrange(0, head.len() as int) =~= told.take(title.len() as int).subrange(
                0,
                head.len() as int,
            ));
            assert(title.subrange(0, head.len() as int) =~= locked.subrange(
                0,
                head.len() as int,
            ));
        }
    }
}

proof fn lemma_rows_come_last(out: Seq<char>, backers: Seq<JsonView>, n: int)
    ensures
        with_backer_rows(out, backers, n).len() >= out.len(),
        with_backer_rows(out, backers, n).take(out.len() as int) == out,
    decreases n,
{
    let rows = with_backer_rows(out, backers, n);
    if n > 0 {
        let before = with_backer_rows(out, backers, n - 1);
        lemma_rows_come_last(out, backers, n - 1);
        assert(rows.take(out.len() as int) =~= before.take(out.len() as int));
    } else {
        assert(rows.take(out.len() as int) =~= out);
    }
}

/// What a report on a stake has the agent do: one that is eligible can start,
/// any other is to get a stake and to look again, and where the stake could
/// not be fetched, the same command is to be run once more.
pub proof fn stake_reports_say_what_comes_next(
    data: JsonView,
    server_url: Seq<char>,
    error: Seq<char>,
)
    ensures
        data.boolean_at("eligible"@) == Some(true) ==> (stake_outcome(
            data,
        ) matches Report::Success { internal, .. } && internal.next_action == "ready"@
            && internal.next_command == Some("predict-agent context"@)),
        data.boolean_at("eligible"@) != Some(true) ==> (stake_outcome(
            data,
        ) matches Report::Failure { code, category, retryable, internal, .. } && code
            == "NOT_STAKED"@ && category == "stake"@ && !retryable && internal.next_action
            == "stake_required"@ && internal.next_command == Some("predict-agent stake"@)),
        stake_failure(server_url, error) matches Report::Failure {
            message,
            code,
            category,
            retryable,
            debug,
            internal,
            ..
        } && message == "Failed to fetch stake status: "@ + error && code == "STAKE_FETCH_FAILED"@
            && category == "network"@ && retryable && internal.next_action == "retry"@
            && internal.next_command == Some("predict-agent stake"@) && debug.text_at("server_url"@)
            == Some(server_url) && debug.text_at("error_detail"@) == Some(error),
{
    reveal_strlit("server_url");
    reveal_strlit("error_detail");
    assert("server_url"@.len() == 10 && "error_detail"@.len() == 12);
    let members = seq![
        ("server_url"@, JsonView::Str(server_url)),
        ("error_detail"@, JsonView::Str(error)),
    ];
    crate::json::members_are_found(members, "server_url"@, 0);
    crate::json::members_are_found(members, "error_detail"@, 1);
}

/// A report on a stake has a row for each of those who back the agent, with
/// their name, their amount and their worknet, and says until when the stake
/// is locked.
pub proof fn backers_are_listed(out: Seq<char>, data: JsonView, k: int)
    ensures
        data.items_at("backers"@) matches Some(backers) ==> (0 <= k < backers.len() ==> {
            let backer = backers[k];
            text::has(
                with_backers(out, data),
                "\n  • staker "@ + backer.text_or("staker"@, "?"@) + "  →  "@ + backer.text_or(
                    "amount_awp"@,
                    "?"@,
                ) + " AWP  (worknet "@ + backer.text_or("worknet_id"@, "?"@) + ")"@,
            )
        }),
        data.items_at("backers"@) is None || data.items_at("backers"@)->0.len() == 0
            ==> with_backers(out, data) == out,
        data.text_at("lock_min_until"@) matches Some(until) ==> with_lock(out, data) == out
            + "\nLock expires at: "@ + until,
        data.text_at("lock_min_until"@) is None ==> with_lock(out, data) == out,
{
    if let Some(backers) = data.items_at("backers"@) {
        if 0 <= k < backers.len() {
            let title = out + "\nBackers ("@ + text::decimal(backers.len()) + "):"@;
            lemma_backer_row(title, backers, backers.len() as int, k);
        }
    }
}

/// The row of one who backs the agent.
spec fn backer_row(backer: JsonView) -> Seq<char> {
    "\n  • staker "@ + backer.text_or("staker"@, "?"@) + "  →  "@ + backer.text_or(
        "amount_awp"@,
        "?"@,
    ) + " AWP  (worknet "@ + backer.text_or("worknet_id"@, "?"@) + ")"@
}

proof fn lemma_backer_row(out: Seq<char>, backers: Seq<JsonView>, n: int, k: int)
    requires
        0 <= k < n,
    ensures
        text::has(with_backer_rows(out, backers, n), backer_row(backers[k])),
    decreases n,
{
    let before = with_backer_rows(out, backers, n - 1);
    let last = backer_row(backers[n - 1]);
    let rows = with_backer_rows(out, backers, n);
    assert(rows =~= before + last);
    if k == n - 1 {
        let at = before.len() as int;
        assert(rows.subrange(at, at + last.len()) =~= last);
        assert(text::occurs_at(rows, last, at));
    } else {
        let row = backer_row(backers[k]);
        lemma_backer_row(out, backers, n - 1, k);
        let at = choose|at: int| text::occurs_at(before, row, at);
        assert(rows.subrange(at, at + row.len()) =~= before.subrange(at, at + row.len()));
        assert(text::occurs_at(rows, row, at));
    }
}

} // verus!
