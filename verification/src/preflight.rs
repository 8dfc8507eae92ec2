//! The check before the first round, as a machine that asks its host for one
//! thing at a time: a wallet, a registration, a server that can be reached, a
//! status that can be fetched, and a stake. Each failure ends in a report that
//! says what to do next.
use crate::double::Double;
use crate::iteration::ACTIVE_PATH;
use crate::iteration::STATUS_PATH;
use crate::json;
use crate::json::Json;
use crate::json::JsonView;
use crate::json::Members;
use crate::numerals;
use crate::report;
use crate::report::Choice;
use crate::report::Internal;
use crate::report::Report;
use crate::stake;
use crate::stake::STAKE_PATH;
use crate::text;
use vstd::prelude::*;
use vstd::string::StringExecFns;

verus! {

// ── Personas ────────────────────────────────────────────────────────────

/// The personas that a user can choose, each with a description: risk styles
/// first, then styles of analysis.
pub open spec fn personas() -> Seq<(Seq<char>, Seq<char>)> {
    seq![
        ("degen"@, "30-50% positions, never skips a round, always finds a trade"@),
        ("conservative"@, "5-10% positions, only strong signals, skip when uncertain"@),
        ("sniper"@, "may skip many rounds, but heavy (20-40%) when confident"@),
        ("contrarian"@, "fade the crowd, bet against extreme implied probabilities"@),
        ("chartist"@, "technical patterns, indicators, support/resistance levels"@),
        ("macro"@, "rates, DXY, equity correlations, risk-on/off flows"@),
        ("sentiment"@, "social media pulse, Fear & Greed, crowded trade detection"@),
    ]
}

/// A name with spaces in place of underscores.
pub open spec fn spaced(name: Seq<char>) -> Seq<char> {
    name.map_values(
        |ch: char|
            if ch == '_' {
                ' '
            } else {
                ch
            },
    )
}

/// The choice of a persona.
pub open spec fn persona_choice(key: Seq<char>, description: Seq<char>) -> Choice<Seq<char>> {
    Choice {
        key,
        label: spaced(key),
        description,
        command: Some("predict-agent set-persona "@ + key),
    }
}

/// The choices of a persona.
pub open spec fn choices() -> Seq<Choice<Seq<char>>> {
    personas().map_values(|p: (Seq<char>, Seq<char>)| persona_choice(p.0, p.1))
}

fn spaced_of(name: &str) -> (r: String)
    ensures
        r@ == spaced(name@),
{
    let chars = text::chars_of(name);
    let mut out = String::new();
    let mut i: usize = 0;
    assert(spaced(name@.take(0)) =~= out@);
    while i < chars.len()
        invariant
            i <= chars@.len(),
            chars@ == name@,
            out@ == spaced(name@.take(i as int)),
        decreases chars@.len() - i,
    {
        let ch = if chars[i] == '_' {
            ' '
        } else {
            chars[i]
        };
        out.push(ch);
        assert(out@ =~= spaced(name@.take(i + 1)));
        i = i + 1;
    }
    assert(name@.take(i as int) =~= name@);
    out
}

fn persona_choice_of(key: &str, description: &str) -> (r: Choice<String>)
    ensures
        report::choice_view(r) == persona_choice(key@, description@),
{
    let mut command = "predict-agent set-persona ".to_owned();
    command.append(key);
    Choice {
        key: key.to_owned(),
        label: spaced_of(key),
        description: description.to_owned(),
        command: Some(command),
    }
}

/// The choices of a persona, one for each persona.
pub fn persona_choices() -> (r: Vec<Choice<String>>)
    ensures
        report::choice_views(r@) == choices(),
{
    let r: Vec<Choice<String>> = vec![
        persona_choice_of("degen", "30-50% positions, never skips a round, always finds a trade"),
        persona_choice_of("conservative", "5-10% positions, only strong signals, skip when uncertain"),
        persona_choice_of("sniper", "may skip many rounds, but heavy (20-40%) when confident"),
        persona_choice_of("contrarian", "fade the crowd, bet against extreme implied probabilities"),
        persona_choice_of("chartist", "technical patterns, indicators, support/resistance levels"),
        persona_choice_of("macro", "rates, DXY, equity correlations, risk-on/off flows"),
        persona_choice_of("sentiment", "social media pulse, Fear & Greed, crowded trade detection"),
    ];
    assert(report::choice_views(r@) =~= choices());
    r
}

// ── What the host knows ─────────────────────────────────────────────────

/// The settings of a check: the server, and what the environment holds. `S`
/// is the type of texts.
pub struct Settings<S> {
    pub server_url: S,
    /// The value of `AWP_DEV_MODE`.
    pub dev_mode: Option<S>,
    /// Whether `AWP_ADDRESS` is set.
    pub has_address: bool,
    /// Whether `AWP_PRIVATE_KEY` is set.
    pub has_private_key: bool,
    /// Whether `AWP_WALLET_TOKEN` is set.
    pub has_wallet_token: bool,
    /// The value of `AWP_SESSION_ID`.
    pub session_id: Option<S>,
    /// The value of `AWP_AGENT_ID`.
    pub agent_id: Option<S>,
}

/// Settings as a mathematical value.
pub open spec fn settings_view(settings: Settings<String>) -> Settings<Seq<char>> {
    Settings {
        server_url: settings.server_url@,
        dev_mode: json::opt_view(settings.dev_mode),
        has_address: settings.has_address,
        has_private_key: settings.has_private_key,
        has_wallet_token: settings.has_wallet_token,
        session_id: json::opt_view(settings.session_id),
        agent_id: json::opt_view(settings.agent_id),
    }
}

/// Whether this is a development setup, without a wallet that could sign.
pub open spec fn is_dev(settings: Settings<Seq<char>>) -> bool {
    settings.dev_mode == Some("true"@) || settings.dev_mode == Some("1"@)
}

/// The wallet that is used: that of the session, of the agent, or the default.
pub open spec fn wallet_id(settings: Settings<Seq<char>>) -> Seq<char> {
    match (settings.session_id, settings.agent_id) {
        (Some(id), _) => id,
        (None, Some(id)) => id,
        (None, None) => "default"@,
    }
}

/// How requests are signed.
pub open spec fn signing_mode(settings: Settings<Seq<char>>) -> Seq<char> {
    if settings.has_private_key {
        "private_key"@
    } else if is_dev(settings) {
        "dev_mode"@
    } else {
        "awp_wallet"@
    }
}

fn dev(settings: &Settings<String>) -> (r: bool)
    ensures
        r == is_dev(settings_view(*settings)),
{
    match &settings.dev_mode {
        Some(mode) => text::same(mode.as_str(), "true") || text::same(mode.as_str(), "1"),
        None => false,
    }
}

fn wallet_id_of(settings: &Settings<String>) -> (r: String)
    ensures
        r@ == wallet_id(settings_view(*settings)),
{
    match &settings.session_id {
        Some(id) => id.clone(),
        None => match &settings.agent_id {
            Some(id) => id.clone(),
            None => "default".to_owned(),
        },
    }
}

fn signing_mode_of(settings: &Settings<String>) -> (r: &'static str)
    ensures
        r@ == signing_mode(settings_view(*settings)),
{
    if settings.has_private_key {
        "private_key"
    } else if dev(settings) {
        "dev_mode"
    } else {
        "awp_wallet"
    }
}

/// What the host finds of a wallet.
pub struct Wallet<S> {
    pub cli_installed: bool,
    pub wallet_dir_exists: bool,
    pub has_keystore: bool,
    pub can_receive: bool,
    pub safe_to_init: bool,
    pub human_status: S,
    /// What to do about the wallet.
    pub suggestion: S,
    /// The command that does it.
    pub setup_command: S,
}

/// A wallet as a mathematical value.
pub open spec fn wallet_view(wallet: Wallet<String>) -> Wallet<Seq<char>> {
    Wallet {
        cli_installed: wallet.cli_installed,
        wallet_dir_exists: wallet.wallet_dir_exists,
        has_keystore: wallet.has_keystore,
        can_receive: wallet.can_receive,
        safe_to_init: wallet.safe_to_init,
        human_status: wallet.human_status@,
        suggestion: wallet.suggestion@,
        setup_command: wallet.setup_command@,
    }
}

/// What came of a registration.
pub struct Registration<S> {
    pub registered: bool,
    pub auto_registered: bool,
    pub message: S,
}

/// A registration as a mathematical value.
pub open spec fn registration_view(registration: Registration<String>) -> Registration<Seq<char>> {
    Registration {
        registered: registration.registered,
        auto_registered: registration.auto_registered,
        message: registration.message@,
    }
}

/// An error: in short, and with its causes.
pub struct Trouble<S> {
    pub error: S,
    pub chain: S,
}

/// An error as a mathematical value.
pub open spec fn trouble_view(trouble: Trouble<String>) -> Trouble<Seq<char>> {
    Trouble { error: trouble.error@, chain: trouble.chain@ }
}

// ── Reports ─────────────────────────────────────────────────────────────

/// The command that starts this check.
pub const PREFLIGHT_COMMAND: &'static str = "predict-agent preflight";

/// The report where no wallet address is found.
pub open spec fn wallet_report(
    settings: Settings<Seq<char>>,
    error: Seq<char>,
    wallet: Wallet<Seq<char>>,
) -> Report<Seq<char>, JsonView, Seq<Choice<Seq<char>>>> {
    Report::Failure {
        message: "Cannot determine wallet address: "@ + error,
        code: "WALLET_NOT_CONFIGURED"@,
        category: "dependency"@,
        retryable: false,
        suggestion: wallet.suggestion,
        debug: JsonView::Object(
            seq![
                ("step"@, JsonView::Str("1_wallet_address"@)),
                ("error_detail"@, JsonView::Str(error)),
                (
                    "wallet_status"@,
                    JsonView::Object(
                        seq![
                            ("cli_installed"@, JsonView::Bool(wallet.cli_installed)),
                            ("wallet_dir_exists"@, JsonView::Bool(wallet.wallet_dir_exists)),
                            ("has_keystore"@, JsonView::Bool(wallet.has_keystore)),
                            ("can_receive"@, JsonView::Bool(wallet.can_receive)),
                            ("safe_to_init"@, JsonView::Bool(wallet.safe_to_init)),
                            ("human_status"@, JsonView::Str(wallet.human_status)),
                        ],
                    ),
                ),
                ("env_AWP_ADDRESS"@, JsonView::Bool(settings.has_address)),
                ("env_AWP_PRIVATE_KEY"@, JsonView::Bool(settings.has_private_key)),
                ("env_AWP_WALLET_TOKEN"@, JsonView::Bool(settings.has_wallet_token)),
                ("env_AWP_DEV_MODE"@, json::opt_tree(settings.dev_mode)),
            ],
        ),
        internal: report::guide("configure_wallet"@, wallet.setup_command, None, Some("0/4"@)),
    }
}

fn wallet_report_of(settings: &Settings<String>, error: &str, wallet: &Wallet<String>) -> (r: Report<
    String,
    Json,
    Vec<Choice<String>>,
>)
    ensures
        report::report_view(r) == wallet_report(
            settings_view(*settings),
            error@,
            wallet_view(*wallet),
        ),
{
    let mut message = "Cannot determine wallet address: ".to_owned();
    message.append(error);
    let status = Members::new().with_bool("cli_installed", wallet.cli_installed).with_bool(
        "wallet_dir_exists",
        wallet.wallet_dir_exists,
    ).with_bool("has_keystore", wallet.has_keystore).with_bool(
        "can_receive",
        wallet.can_receive,
    ).with_bool("safe_to_init", wallet.safe_to_init).with_str(
        "human_status",
        wallet.human_status.as_str(),
    );
    let ghost status_members = status@;
    let debug = Members::new().with_str("step", "1_wallet_address").with_str(
        "error_detail",
        error,
    ).with("wallet_status", status.object()).with_bool(
        "env_AWP_ADDRESS",
        settings.has_address,
    ).with_bool("env_AWP_PRIVATE_KEY", settings.has_private_key).with_bool(
        "env_AWP_WALLET_TOKEN",
        settings.has_wallet_token,
    ).with_opt("env_AWP_DEV_MODE", &settings.dev_mode);
    proof {
        let expected = wallet_report(settings_view(*settings), error@, wallet_view(*wallet));
        let tree = expected->debug->Object_0;
        assert(status_members =~= tree[2].1->Object_0);
        assert(debug@ =~= tree);
    }
    Report::Failure {
        message,
        code: "WALLET_NOT_CONFIGURED".to_owned(),
        category: "dependency".to_owned(),
        retryable: false,
        suggestion: wallet.suggestion.clone(),
        debug: debug.object(),
        internal: report::guide_of(
            "configure_wallet",
            wallet.setup_command.as_str(),
            None,
            Some("0/4"),
        ),
    }
}

/// The report where a registration is not complete.
pub open spec fn pending_report(
    address: Seq<char>,
    registration: Registration<Seq<char>>,
) -> Report<Seq<char>, JsonView, Seq<Choice<Seq<char>>>> {
    Report::Failure {
        message: "AWP registration incomplete: "@ + registration.message,
        code: "AWP_REGISTRATION_PENDING"@,
        category: "dependency"@,
        retryable: true,
        suggestion: "Registration submitted. Wait a moment and retry."@,
        debug: JsonView::Object(
            seq![
                ("step"@, JsonView::Str("2_awp_registration"@)),
                ("address"@, JsonView::Str(address)),
                ("auto_registered"@, JsonView::Bool(registration.auto_registered)),
                ("message"@, JsonView::Str(registration.message)),
            ],
        ),
        internal: report::guide("retry"@, PREFLIGHT_COMMAND@, Some(10), Some("1/4"@)),
    }
}

fn pending_report_of(address: &str, registration: &Registration<String>) -> (r: Report<
    String,
    Json,
    Vec<Choice<String>>,
>)
    ensures
        report::report_view(r) == pending_report(address@, registration_view(*registration)),
{
    let mut message = "AWP registration incomplete: ".to_owned();
    message.append(registration.message.as_str());
    let debug = Members::new().with_str("step", "2_awp_registration").with_str(
        "address",
        address,
    ).with_bool("auto_registered", registration.auto_registered).with_str(
        "message",
        registration.message.as_str(),
    );
    assert(debug@ =~= pending_report(
        address@,
        registration_view(*registration),
    )->debug->Object_0);
    Report::Failure {
        message,
        code: "AWP_REGISTRATION_PENDING".to_owned(),
        category: "dependency".to_owned(),
        retryable: true,
        suggestion: "Registration submitted. Wait a moment and retry.".to_owned(),
        debug: debug.object(),
        internal: report::guide_of("retry", PREFLIGHT_COMMAND, Some(10), Some("1/4")),
    }
}

/// The report where a registration failed.
pub open spec fn registration_report(address: Seq<char>, trouble: Trouble<Seq<char>>) -> Report<
    Seq<char>,
    JsonView,
    Seq<Choice<Seq<char>>>,
> {
    Report::Failure {
        message: "AWP registration failed: "@ + trouble.error,
        code: "AWP_REGISTRATION_FAILED"@,
        category: "dependency"@,
        retryable: true,
        suggestion: "Check network connectivity to api.awp.sh and retry."@,
        debug: JsonView::Object(
            seq![
                ("step"@, JsonView::Str("2_awp_registration"@)),
                ("address"@, JsonView::Str(address)),
                ("error_detail"@, JsonView::Str(trouble.error)),
                ("error_chain"@, JsonView::Str(trouble.chain)),
            ],
        ),
        internal: report::guide("retry"@, PREFLIGHT_COMMAND@, Some(30), Some("1/4"@)),
    }
}

fn registration_report_of(address: &str, trouble: &Trouble<String>) -> (r: Report<
    String,
    Json,
    Vec<Choice<String>>,
>)
    ensures
        report::report_view(r) == registration_report(address@, trouble_view(*trouble)),
{
    let mut message = "AWP registration failed: ".to_owned();
    message.append(trouble.error.as_str());
    let debug = Members::new().with_str("step", "2_awp_registration").with_str(
        "address",
        address,
    ).with_str("error_detail", trouble.error.as_str()).with_str(
        "error_chain",
        trouble.chain.as_str(),
    );
    assert(debug@ =~= registration_report(address@, trouble_view(*trouble))->debug->Object_0);
    Report::Failure {
        message,
        code: "AWP_REGISTRATION_FAILED".to_owned(),
        category: "dependency".to_owned(),
        retryable: true,
        suggestion: "Check network connectivity to api.awp.sh and retry.".to_owned(),
        debug: debug.object(),
        internal: report::guide_of("retry", PREFLIGHT_COMMAND, Some(30), Some("1/4")),
    }
}

/// The report where the server cannot be reached.
pub open spec fn server_report(server_url: Seq<char>, trouble: Trouble<Seq<char>>) -> Report<
    Seq<char>,
    JsonView,
    Seq<Choice<Seq<char>>>,
> {
    Report::Failure {
        message: "Cannot reach coordinator at "@ + server_url + ": "@ + trouble.error,
        code: "COORDINATOR_UNREACHABLE"@,
        category: "network"@,
        retryable: true,
        suggestion: "Check PREDICT_SERVER_URL and network. Tried: "@ + server_url,
        debug: JsonView::Object(
            seq![
                ("step"@, JsonView::Str("3_coordinator_check"@)),
                ("server_url"@, JsonView::Str(server_url)),
                ("error_detail"@, JsonView::Str(trouble.error)),
                ("error_chain"@, JsonView::Str(trouble.chain)),
            ],
        ),
        internal: report::guide("retry"@, PREFLIGHT_COMMAND@, Some(30), Some("2/4"@)),
    }
}

fn server_report_of(server_url: &str, trouble: &Trouble<String>) -> (r: Report<
    String,
    Json,
    Vec<Choice<String>>,
>)
    ensures
        report::report_view(r) == server_report(server_url@, trouble_view(*trouble)),
{
    let mut message = "Cannot reach coordinator at ".to_owned();
    message.append(server_url);
    message.append(": ");
    message.append(trouble.error.as_str());
    let mut suggestion = "Check PREDICT_SERVER_URL and network. Tried: ".to_owned();
    suggestion.append(server_url);
    let debug = Members::new().with_str("step", "3_coordinator_check").with_str(
        "server_url",
        server_url,
    ).with_str("error_detail", trouble.error.as_str()).with_str(
        "error_chain",
        trouble.chain.as_str(),
    );
    assert(debug@ =~= server_report(server_url@, trouble_view(*trouble))->debug->Object_0);
    Report::Failure {
        message,
        code: "COORDINATOR_UNREACHABLE".to_owned(),
        category: "network".to_owned(),
        retryable: true,
        suggestion,
        debug: debug.object(),
        internal: report::guide_of("retry", PREFLIGHT_COMMAND, Some(30), Some("2/4")),
    }
}

/// What to do about a status that was refused.
pub open spec fn auth_hint(error: Seq<char>) -> Seq<char> {
    if text::has(error, "Wallet address mismatch"@) {
        "AWP_AGENT_ID or AWP_SESSION_ID may have changed. Try: unset AWP_AGENT_ID AWP_SESSION_ID"@
    } else {
        "Check your wallet configuration and ensure the timestamp is fresh."@
    }
}

/// The report where the status was refused.
pub open spec fn auth_report(
    settings: Settings<Seq<char>>,
    address: Seq<char>,
    trouble: Trouble<Seq<char>>,
) -> Report<Seq<char>, JsonView, Seq<Choice<Seq<char>>>> {
    Report::Failure {
        message: "Failed to fetch agent status: "@ + trouble.error,
        code: "AUTH_FAILED"@,
        category: "auth"@,
        retryable: false,
        suggestion: auth_hint(trouble.error),
        debug: JsonView::Object(
            seq![
                ("step"@, JsonView::Str("4_auth_check"@)),
                ("address"@, JsonView::Str(address)),
                ("server_url"@, JsonView::Str(settings.server_url)),
                ("error_detail"@, JsonView::Str(trouble.error)),
                ("error_chain"@, JsonView::Str(trouble.chain)),
                ("signing_mode"@, JsonView::Str(signing_mode(settings))),
                ("wallet_id"@, JsonView::Str(wallet_id(settings))),
                ("env_AWP_SESSION_ID"@, json::opt_tree(settings.session_id)),
                ("env_AWP_AGENT_ID"@, json::opt_tree(settings.agent_id)),
            ],
        ),
        internal: report::guide("configure_wallet"@, PREFLIGHT_COMMAND@, None, Some("3/4"@)),
    }
}

fn auth_report_of(settings: &Settings<String>, address: &str, trouble: &Trouble<String>) -> (r: Report<
    String,
    Json,
    Vec<Choice<String>>,
>)
    ensures
        report::report_view(r) == auth_report(
            settings_view(*settings),
            address@,
            trouble_view(*trouble),
        ),
{
    let mut message = "Failed to fetch agent status: ".to_owned();
    message.append(trouble.error.as_str());
    let suggestion = if text::contains(trouble.error.as_str(), "Wallet address mismatch") {
        "AWP_AGENT_ID or AWP_SESSION_ID may have changed. Try: unset AWP_AGENT_ID AWP_SESSION_ID".to_owned()
    } else {
        "Check your wallet configuration and ensure the timestamp is fresh.".to_owned()
    };
    let debug = Members::new().with_str("step", "4_auth_check").with_str(
        "address",
        address,
    ).with_str("server_url", settings.server_url.as_str()).with_str(
        "error_detail",
        trouble.error.as_str(),
    ).with_str("error_chain", trouble.chain.as_str()).with_str(
        "signing_mode",
        signing_mode_of(settings),
    ).with_str("wallet_id", wallet_id_of(settings).as_str()).with_opt(
        "env_AWP_SESSION_ID",
        &settings.session_id,
    ).with_opt("env_AWP_AGENT_ID", &settings.agent_id);
    assert(debug@ =~= auth_report(
        settings_view(*settings),
        address@,
        trouble_view(*trouble),
    )->debug->Object_0);
    Report::Failure {
        message,
        code: "AUTH_FAILED".to_owned(),
        category: "auth".to_owned(),
        retryable: false,
        suggestion,
        debug: debug.object(),
        internal: report::guide_of("configure_wallet", PREFLIGHT_COMMAND, None, Some("3/4")),
    }
}

/// The report where the server enforces a stake that the agent does not have.
pub open spec fn stake_gate_report(data: JsonView) -> Report<
    Seq<char>,
    JsonView,
    Seq<Choice<Seq<char>>>,
> {
    let current = data.text_or("current_stake_awp"@, "0"@);
    let required = data.text_or("required_stake_awp"@, "1000"@);
    Report::Failure {
        message: "Stake gate: agent has "@ + current + " AWP allocated to Predict, but ≥"@
            + required + STAKE_WAYS@,
        code: "STAKE_REQUIRED"@,
        category: "stake"@,
        retryable: false,
        suggestion: "Run `predict-agent stake` and follow whichever path fits you."@,
        debug: JsonView::Object(
            seq![
                ("step"@, JsonView::Str("5_stake_check"@)),
                ("current_stake_awp"@, JsonView::Str(current)),
                ("required_stake_awp"@, JsonView::Str(required)),
                ("stake_data"@, data),
            ],
        ),
        internal: report::guide("stake_required"@, stake::STAKE_COMMAND@, None, Some("5/5"@)),
    }
}

/// How to become eligible, in short.
pub const STAKE_WAYS: &'static str =
    " AWP is required. Run `predict-agent stake` for the three ways to become eligible (awp.pro web UI, KYA delegated staking, or direct contract calls).";

fn stake_gate_report_of(data: Json) -> (r: Report<String, Json, Vec<Choice<String>>>)
    ensures
        report::report_view(r) == stake_gate_report(data@),
{
    let current = data.str_or("current_stake_awp", "0");
    let required = data.str_or("required_stake_awp", "1000");
    let mut message = "Stake gate: agent has ".to_owned();
    message.append(current.as_str());
    message.append(" AWP allocated to Predict, but ≥");
    message.append(required.as_str());
    message.append(STAKE_WAYS);
    let ghost tree = data@;
    let debug = Members::new().with_str("step", "5_stake_check").with_str(
        "current_stake_awp",
        current.as_str(),
    ).with_str("required_stake_awp", required.as_str()).with("stake_data", data);
    assert(debug@ =~= stake_gate_report(tree)->debug->Object_0);
    Report::Failure {
        message,
        code: "STAKE_REQUIRED".to_owned(),
        category: "stake".to_owned(),
        retryable: false,
        suggestion: "Run `predict-agent stake` and follow whichever path fits you.".to_owned(),
        debug: debug.object(),
        internal: report::guide_of("stake_required", stake::STAKE_COMMAND, None, Some("5/5")),
    }
}

/// Whether a stake keeps the agent from going on: it is not enough, and the
/// server enforces it.
pub open spec fn is_gated(data: JsonView) -> bool {
    !stake::is_eligible(data) && data.text_or("gate_mode"@, "off"@) == "enforce"@
}

fn gated(data: &Json) -> (r: bool)
    ensures
        r == is_gated(data@),
{
    !stake::eligible(data) && text::same(data.str_or("gate_mode", "off").as_str(), "enforce")
}

/// What the report of a check that went well shows.
pub open spec fn ready_data(
    status: Seq<char>,
    settings: Settings<Seq<char>>,
    address: Seq<char>,
    data: JsonView,
    balance: Seq<char>,
    open_markets: nat,
) -> JsonView {
    JsonView::Object(
        seq![
            ("status"@, JsonView::Str(status)),
            ("address"@, JsonView::Str(address)),
            ("open_markets"@, JsonView::Number(json::integer_number(open_markets as int))),
            (
                "total_predictions"@,
                JsonView::Number(json::integer_number(data.signed_or("total_predictions"@, 0) as int)),
            ),
            ("balance"@, JsonView::Str(balance)),
            ("persona"@, JsonView::Str(data.text_or("persona"@, "none"@))),
            ("wallet_id"@, JsonView::Str(wallet_id(settings))),
        ],
    )
}

fn ready_data_of(
    status: &str,
    settings: &Settings<String>,
    address: &str,
    data: &Json,
    balance: &str,
    open_markets: u64,
) -> (r: Json)
    ensures
        r@ == ready_data(
            status@,
            settings_view(*settings),
            address@,
            data@,
            balance@,
            open_markets as nat,
        ),
{
    let members = Members::new().with_str("status", status).with_str("address", address).with(
        "open_markets",
        Json::count(open_markets),
    ).with("total_predictions", Json::integer(data.i64_or("total_predictions", 0))).with_str(
        "balance",
        balance,
    ).with_str("persona", data.str_or("persona", "none").as_str()).with_str(
        "wallet_id",
        wallet_id_of(settings).as_str(),
    );
    assert(members@ =~= ready_data(
        status@,
        settings_view(*settings),
        address@,
        data@,
        balance@,
        open_markets as nat,
    )->Object_0);
    members.object()
}

/// Whether an agent has no persona yet.
pub open spec fn lacks_persona(data: JsonView) -> bool {
    data.text_or("persona"@, "none"@) == "none"@ || data.text_or("persona"@, "none"@).len() == 0
}

/// The report of a check that went well: an agent without a persona is to
/// choose one, any other can start.
pub open spec fn ready_report(
    settings: Settings<Seq<char>>,
    address: Seq<char>,
    data: JsonView,
    balance: Seq<char>,
    open_markets: nat,
) -> Report<Seq<char>, JsonView, Seq<Choice<Seq<char>>>> {
    if lacks_persona(data) {
        Report::Success {
            message:
                "Ready! But no persona set — choose one to shape your analysis style. "@
                + text::decimal(open_markets) + " open markets, "@ + balance + " chips."@,
            data: ready_data(
                "needs_persona"@,
                settings,
                address,
                data,
                balance,
                open_markets,
            ),
            internal: Internal {
                next_action: "select_persona"@,
                next_command: Some("predict-agent set-persona <PERSONA>"@),
                wait_seconds: None,
                progress: Some("4/4"@),
                options: Some(choices()),
            },
        }
    } else {
        Report::Success {
            message: "Ready. "@ + text::decimal(open_markets) + " open markets. "@
                + text::signed_decimal(data.signed_or("total_predictions"@, 0) as int)
                + " total predictions. Balance: "@ + balance + " chips."@,
            data: ready_data("ready"@, settings, address, data, balance, open_markets),
            internal: report::guide(
                "fetch_context"@,
                stake::CONTEXT_COMMAND@,
                None,
                Some("4/4"@),
            ),
        }
    }
}

fn persona_missing(data: &Json) -> (r: bool)
    ensures
        r == lacks_persona(data@),
{
    let persona = data.str_or("persona", "none");
    text::same(persona.as_str(), "none") || persona.as_str().unicode_len() == 0
}

fn ready_report_of(
    settings: &Settings<String>,
    address: &str,
    data: &Json,
    balance: &str,
    open_markets: u64,
) -> (r: Report<String, Json, Vec<Choice<String>>>)
    ensures
        report::report_view(r) == ready_report(
            settings_view(*settings),
            address@,
            data@,
            balance@,
            open_markets as nat,
        ),
{
    if persona_missing(data) {
        let mut message =
            "Ready! But no persona set — choose one to shape your analysis style. ".to_owned();
        text::push_decimal(&mut message, open_markets);
        message.append(" open markets, ");
        message.append(balance);
        message.append(" chips.");
        Report::Success {
            message,
            data: ready_data_of(
                "needs_persona",
                settings,
                address,
                data,
                balance,
                open_markets,
            ),
            internal: Internal {
                next_action: "select_persona".to_owned(),
                next_command: Some("predict-agent set-persona <PERSONA>".to_owned()),
                wait_seconds: None,
                progress: Some("4/4".to_owned()),
                options: Some(persona_choices()),
            },
        }
    } else {
        let mut message = "Ready. ".to_owned();
        text::push_decimal(&mut message, open_markets);
        message.append(" open markets. ");
        message.append(text::signed_decimal_of(data.i64_or("total_predictions", 0)).as_str());
        message.append(" total predictions. Balance: ");
        message.append(balance);
        message.append(" chips.");
        Report::Success {
            message,
            data: ready_data_of("ready", settings, address, data, balance, open_markets),
            internal: report::guide_of(
                "fetch_context",
                stake::CONTEXT_COMMAND,
                None,
                Some("4/4"),
            ),
        }
    }
}

// ── The machine ─────────────────────────────────────────────────────────

/// What a check waits for. `S` is the type of texts, `J` that of JSON values.
pub enum State<S, J> {
    /// The address of the wallet.
    Resolving,
    /// What there is of a wallet, after its address could not be found.
    Inspecting { error: S },
    /// Whether the address is registered.
    CheckingRegistration { address: S },
    /// The registration of the address.
    Registering { address: S },
    /// Whether the server can be reached.
    Probing { address: S },
    /// A client.
    Opening { address: S },
    /// The status of the agent.
    FetchingStatus { address: S },
    /// The stake of the agent.
    FetchingStake { address: S, data: J },
    /// The number that the balance in the status is.
    ReadingBalance { address: S, data: J },
    /// The active markets.
    CountingMarkets { address: S, data: J, balance: S },
    /// Nothing: the check is over.
    Finished,
}

/// A state as a mathematical value.
pub open spec fn state_view(state: State<String, Json>) -> State<Seq<char>, JsonView> {
    match state {
        State::Resolving => State::Resolving,
        State::Inspecting { error } => State::Inspecting { error: error@ },
        State::CheckingRegistration { address } => State::CheckingRegistration {
            address: address@,
        },
        State::Registering { address } => State::Registering { address: address@ },
        State::Probing { address } => State::Probing { address: address@ },
        State::Opening { address } => State::Opening { address: address@ },
        State::FetchingStatus { address } => State::FetchingStatus { address: address@ },
        State::FetchingStake { address, data } => State::FetchingStake {
            address: address@,
            data: data@,
        },
        State::ReadingBalance { address, data } => State::ReadingBalance {
            address: address@,
            data: data@,
        },
        State::CountingMarkets { address, data, balance } => State::CountingMarkets {
            address: address@,
            data: data@,
            balance: balance@,
        },
        State::Finished => State::Finished,
    }
}

/// What came of an action.
pub enum Event<S, J> {
    /// It was done.
    Ready,
    /// It failed.
    Failed(Trouble<S>),
    /// The address of the wallet.
    Address(S),
    /// What there is of a wallet.
    Wallet(Wallet<S>),
    /// Whether the address is registered.
    Registered(bool),
    /// What came of a registration.
    Registration(Registration<S>),
    /// The server replied.
    Reply(J),
    /// A text was read as a number, or is none.
    Number(Option<Double>),
}

/// An event as a mathematical value.
pub open spec fn event_view(event: Event<String, Json>) -> Event<Seq<char>, JsonView> {
    match event {
        Event::Ready => Event::Ready,
        Event::Failed(trouble) => Event::Failed(trouble_view(trouble)),
        Event::Address(address) => Event::Address(address@),
        Event::Wallet(wallet) => Event::Wallet(wallet_view(wallet)),
        Event::Registered(registered) => Event::Registered(registered),
        Event::Registration(registration) => Event::Registration(registration_view(registration)),
        Event::Reply(reply) => Event::Reply(reply@),
        Event::Number(number) => Event::Number(number),
    }
}

/// What the host is to do next. `C` is the type of lists of choices.
pub enum Action<S, J, C> {
    /// Find the address of the wallet.
    ResolveAddress,
    /// Look what there is of a wallet.
    InspectWallet,
    /// Ask whether an address is registered.
    CheckRegistration { address: S },
    /// Register an address.
    Register { address: S },
    /// Ask whether the server can be reached.
    ProbeServer,
    /// Open a client for the server.
    OpenClient,
    /// Fetch a path, signed or not.
    Fetch { path: S, signed: bool },
    /// Read a text as a number.
    ReadNumber(S),
    /// Show a report and end the check.
    Show(Report<S, J, C>),
    /// End the check with the error that came last.
    Abort,
}

/// An action as a mathematical value.
pub open spec fn action_view(action: Action<String, Json, Vec<Choice<String>>>) -> Action<
    Seq<char>,
    JsonView,
    Seq<Choice<Seq<char>>>,
> {
    match action {
        Action::ResolveAddress => Action::ResolveAddress,
        Action::InspectWallet => Action::InspectWallet,
        Action::CheckRegistration { address } => Action::CheckRegistration { address: address@ },
        Action::Register { address } => Action::Register { address: address@ },
        Action::ProbeServer => Action::ProbeServer,
        Action::OpenClient => Action::OpenClient,
        Action::Fetch { path, signed } => Action::Fetch { path: path@, signed },
        Action::ReadNumber(s) => Action::ReadNumber(s@),
        Action::Show(report) => Action::Show(report::report_view(report)),
        Action::Abort => Action::Abort,
    }
}

/// A state and an action.
pub struct Step<S, J, C> {
    pub state: State<S, J>,
    pub action: Action<S, J, C>,
}

/// A step as a mathematical value.
pub open spec fn step_view(step: Step<String, Json, Vec<Choice<String>>>) -> Step<
    Seq<char>,
    JsonView,
    Seq<Choice<Seq<char>>>,
> {
    Step { state: state_view(step.state), action: action_view(step.action) }
}

/// The end of a check with a report.
pub open spec fn show(report: Report<Seq<char>, JsonView, Seq<Choice<Seq<char>>>>) -> Step<
    Seq<char>,
    JsonView,
    Seq<Choice<Seq<char>>>,
> {
    Step { state: State::Finished, action: Action::Show(report) }
}

fn end(report: Report<String, Json, Vec<Choice<String>>>) -> (r: Step<
    String,
    Json,
    Vec<Choice<String>>,
>)
    ensures
        step_view(r) == show(report::report_view(report)),
{
    Step { state: State::Finished, action: Action::Show(report) }
}

/// On with an address, to the server.
pub open spec fn to_server(address: Seq<char>) -> Step<
    Seq<char>,
    JsonView,
    Seq<Choice<Seq<char>>>,
> {
    Step { state: State::Probing { address }, action: Action::ProbeServer }
}

/// On with an address: to its registration, unless this is a development
/// setup.
pub open spec fn with_address(settings: Settings<Seq<char>>, address: Seq<char>) -> Step<
    Seq<char>,
    JsonView,
    Seq<Choice<Seq<char>>>,
> {
    if is_dev(settings) {
        to_server(address)
    } else {
        Step {
            state: State::CheckingRegistration { address },
            action: Action::CheckRegistration { address },
        }
    }
}

/// The balance in a status, as a text; zero where it is no text.
pub open spec fn raw_balance(data: JsonView) -> Seq<char> {
    data.text_or("balance"@, "0"@)
}

/// On to the balance.
pub open spec fn to_balance(address: Seq<char>, data: JsonView) -> Step<
    Seq<char>,
    JsonView,
    Seq<Choice<Seq<char>>>,
> {
    Step {
        state: State::ReadingBalance { address, data },
        action: Action::ReadNumber(raw_balance(data)),
    }
}

fn on_to_balance(address: String, data: Json) -> (r: Step<String, Json, Vec<Choice<String>>>)
    ensures
        step_view(r) == to_balance(address@, data@),
{
    let raw = data.str_or("balance", "0");
    Step { state: State::ReadingBalance { address, data }, action: Action::ReadNumber(raw) }
}

/// The balance to show: with two decimals where it is a number, else as it is.
pub open spec fn shown_balance(data: JsonView, number: Option<Double>) -> Seq<char> {
    match number {
        Some(d) => numerals::fixed2(d),
        None => raw_balance(data),
    }
}

/// The number of markets in a reply; none where it has no list.
pub open spec fn market_count(reply: JsonView) -> nat {
    match reply.items_at("data"@) {
        Some(list) => list.len(),
        None => 0,
    }
}

/// What a state becomes on an event, and what the host is to do next.
pub open spec fn next(
    settings: Settings<Seq<char>>,
    state: State<Seq<char>, JsonView>,
    event: Event<Seq<char>, JsonView>,
) -> Step<Seq<char>, JsonView, Seq<Choice<Seq<char>>>> {
    match (state, event) {
        (State::Resolving, Event::Address(address)) => with_address(settings, address),
        (State::Resolving, Event::Failed(trouble)) => Step {
            state: State::Inspecting { error: trouble.error },
            action: Action::InspectWallet,
        },
        (State::Inspecting { error }, Event::Wallet(wallet)) => show(
            wallet_report(settings, error, wallet),
        ),
        (State::CheckingRegistration { address }, Event::Registered(true)) => to_server(address),
        (State::CheckingRegistration { address }, Event::Registered(false)) => Step {
            state: State::Registering { address },
            action: Action::Register { address },
        },
        (State::CheckingRegistration { address }, Event::Failed(_)) => to_server(address),
        (State::Registering { address }, Event::Registration(registration)) => if registration.registered {
            to_server(address)
        } else {
            show(pending_report(address, registration))
        },
        (State::Registering { address }, Event::Failed(trouble)) => show(
            registration_report(address, trouble),
        ),
        (State::Probing { address }, Event::Ready) => Step {
            state: State::Opening { address },
            action: Action::OpenClient,
        },
        (State::Probing { .. }, Event::Failed(trouble)) => show(
            server_report(settings.server_url, trouble),
        ),
        (State::Opening { address }, Event::Ready) => Step {
            state: State::FetchingStatus { address },
            action: Action::Fetch { path: STATUS_PATH@, signed: true },
        },
        (State::FetchingStatus { address }, Event::Reply(status)) => Step {
            state: State::FetchingStake { address, data: status.object_at("data"@) },
            action: Action::Fetch { path: STAKE_PATH@, signed: true },
        },
        (State::FetchingStatus { address }, Event::Failed(trouble)) => show(
            auth_report(settings, address, trouble),
        ),
        (State::FetchingStake { address, data }, Event::Reply(reply)) => if is_gated(
            reply.object_at("data"@),
        ) {
            show(stake_gate_report(reply.object_at("data"@)))
        } else {
            to_balance(address, data)
        },
        (State::FetchingStake { address, data }, Event::Failed(_)) => to_balance(address, data),
        (State::ReadingBalance { address, data }, Event::Number(number)) => Step {
            state: State::CountingMarkets { address, data, balance: shown_balance(data, number) },
            action: Action::Fetch { path: ACTIVE_PATH@, signed: false },
        },
        (State::CountingMarkets { address, data, balance }, Event::Reply(reply)) => show(
            ready_report(settings, address, data, balance, market_count(reply)),
        ),
        (State::CountingMarkets { address, data, balance }, Event::Failed(_)) => show(
            ready_report(settings, address, data, balance, 0),
        ),
        _ => Step { state: State::Finished, action: Action::Abort },
    }
}

/// Starts a check.
pub fn begin() -> (r: Step<String, Json, Vec<Choice<String>>>)
    ensures
        step_view(r) == (Step {
            state: State::<Seq<char>, JsonView>::Resolving,
            action: Action::<Seq<char>, JsonView, Seq<Choice<Seq<char>>>>::ResolveAddress,
        }),
{
    Step { state: State::Resolving, action: Action::ResolveAddress }
}

fn data_of(reply: &Json) -> (r: Json)
    ensures
        r@ == reply@.object_at("data"@),
{
    match reply.get("data") {
        Some(data) => data.copy(),
        None => Members::new().object(),
    }
}

fn on_failure(
    settings: &Settings<String>,
    state: State<String, Json>,
    trouble: Trouble<String>,
) -> (r: Step<String, Json, Vec<Choice<String>>>)
    ensures
        step_view(r) == next(
            settings_view(*settings),
            state_view(state),
            Event::Failed(trouble_view(trouble)),
        ),
{
    match state {
        State::Resolving => Step {
            state: State::Inspecting { error: trouble.error },
            action: Action::InspectWallet,
        },
        State::CheckingRegistration { address } => Step {
            state: State::Probing { address },
            action: Action::ProbeServer,
        },
        State::Registering { address } => end(
            registration_report_of(address.as_str(), &trouble),
        ),
        State::Probing { .. } => end(server_report_of(settings.server_url.as_str(), &trouble)),
        State::FetchingStatus { address } => end(
            auth_report_of(settings, address.as_str(), &trouble),
        ),
        State::FetchingStake { address, data } => on_to_balance(address, data),
        State::CountingMarkets { address, data, balance } => end(
            ready_report_of(settings, address.as_str(), &data, balance.as_str(), 0),
        ),
        _ => Step { state: State::Finished, action: Action::Abort },
    }
}

fn on_reply(
    settings: &Settings<String>,
    state: State<String, Json>,
    reply: Json,
) -> (r: Step<String, Json, Vec<Choice<String>>>)
    ensures
        step_view(r) == next(
            settings_view(*settings),
            state_view(state),
            Event::Reply(reply@),
        ),
{
    match state {
        State::FetchingStatus { address } => Step {
            state: State::FetchingStake { address, data: data_of(&reply) },
            action: Action::Fetch { path: STAKE_PATH.to_owned(), signed: true },
        },
        State::FetchingStake { address, data } => {
            let stake_data = data_of(&reply);
            if gated(&stake_data) {
                end(stake_gate_report_of(stake_data))
            } else {
                on_to_balance(address, data)
            }
        },
        State::CountingMarkets { address, data, balance } => {
            let count: u64 = match reply.array_at("data") {
                Some(list) => list.len() as u64,
                None => 0,
            };
            end(ready_report_of(settings, address.as_str(), &data, balance.as_str(), count))
        },
        _ => Step { state: State::Finished, action: Action::Abort },
    }
}

/// Takes a check one step further: what the state becomes on an event, and
/// what the host is to do next. A failure to open a client ends the check with
/// that error, and so does an event that the state does not wait for.
pub fn advance(
    settings: &Settings<String>,
    state: State<String, Json>,
    event: Event<String, Json>,
) -> (r: Step<String, Json, Vec<Choice<String>>>)
    ensures
        step_view(r) == next(settings_view(*settings), state_view(state), event_view(event)),
{
    match event {
        Event::Failed(trouble) => on_failure(settings, state, trouble),
        Event::Reply(reply) => on_reply(settings, state, reply),
        Event::Address(address) => match state {
            State::Resolving => if dev(settings) {
                Step { state: State::Probing { address }, action: Action::ProbeServer }
            } else {
                let asked = address.clone();
                Step {
                    state: State::CheckingRegistration { address },
                    action: Action::CheckRegistration { address: asked },
                }
            },
            _ => Step { state: State::Finished, action: Action::Abort },
        },
        Event::Wallet(wallet) => match state {
            State::Inspecting { error } => end(wallet_report_of(settings, error.as_str(), &wallet)),
            _ => Step { state: State::Finished, action: Action::Abort },
        },
        Event::Registered(registered) => match state {
            State::CheckingRegistration { address } => if registered {
                Step { state: State::Probing { address }, action: Action::ProbeServer }
            } else {
                let asked = address.clone();
                Step {
                    state: State::Registering { address },
                    action: Action::Register { address: asked },
                }
            },
            _ => Step { state: State::Finished, action: Action::Abort },
        },
        Event::Registration(registration) => match state {
            State::Registering { address } => if registration.registered {
                Step { state: State::Probing { address }, action: Action::ProbeServer }
            } else {
                end(pending_report_of(address.as_str(), &registration))
            },
            _ => Step { state: State::Finished, action: Action::Abort },
        },
        Event::Ready => match state {
            State::Probing { address } => Step {
                state: State::Opening { address },
                action: Action::OpenClient,
            },
            State::Opening { address } => Step {
                state: State::FetchingStatus { address },
                action: Action::Fetch { path: STATUS_PATH.to_owned(), signed: true },
            },
            _ => Step { state: State::Finished, action: Action::Abort },
        },
        Event::Number(number) => match state {
            State::ReadingBalance { address, data } => {
                let balance = match number {
                    Some(d) => numerals::fixed2_of(d),
                    None => data.str_or("balance", "0"),
                };
                Step {
                    state: State::CountingMarkets { address, data, balance },
                    action: Action::Fetch { path: ACTIVE_PATH.to_owned(), signed: false },
                }
            },
            _ => Step { state: State::Finished, action: Action::Abort },
        },
    }
}

// ── What holds of every check ───────────────────────────────────────────

/// How many steps a state is away from the end of its check, at most.
pub open spec fn rank<S, J>(state: State<S, J>) -> nat {
    match state {
        State::Resolving => 10,
        State::Inspecting { .. } => 1,
        State::CheckingRegistration { .. } => 9,
        State::Registering { .. } => 8,
        State::Probing { .. } => 7,
        State::Opening { .. } => 6,
        State::FetchingStatus { .. } => 5,
        State::FetchingStake { .. } => 4,
        State::ReadingBalance { .. } => 3,
        State::CountingMarkets { .. } => 2,
        State::Finished => 0,
    }
}

/// Every check ends: each step leaves fewer steps to go, and the check is over
/// exactly when a report is shown or the check is aborted.
pub proof fn checks_end(
    settings: Settings<Seq<char>>,
    state: State<Seq<char>, JsonView>,
    event: Event<Seq<char>, JsonView>,
)
    ensures
        rank(state) > 0 ==> rank(next(settings, state, event).state) < rank(state),
        (next(settings, state, event).action is Show || next(settings, state, event).action
            is Abort) <==> rank(next(settings, state, event).state) == 0,
{
}

/// Every report of a check names the command to run next.
pub proof fn reports_name_a_command(
    settings: Settings<Seq<char>>,
    state: State<Seq<char>, JsonView>,
    event: Event<Seq<char>, JsonView>,
)
    ensures
        next(settings, state, event).action matches Action::Show(report) ==> match report {
            Report::Success { internal, .. } => internal.next_command is Some,
            Report::Failure { internal, .. } => internal.next_command is Some,
        },
{
}

/// Success is reported at the last step only, and then an agent without a
/// persona is offered every persona, and any other agent none.
pub proof fn success_comes_last(
    settings: Settings<Seq<char>>,
    state: State<Seq<char>, JsonView>,
    event: Event<Seq<char>, JsonView>,
)
    ensures
        next(settings, state, event).action matches Action::Show(
            Report::Success { internal, .. },
        ) ==> (state matches State::CountingMarkets { data, .. } && internal.options == (
        if lacks_persona(data) {
            Some(choices())
        } else {
            None
        })),
{
}

/// A stake that is not enough holds the check up only where the server
/// enforces it.
pub proof fn stake_holds_up_only_where_enforced(
    settings: Settings<Seq<char>>,
    address: Seq<char>,
    data: JsonView,
    reply: JsonView,
)
    ensures
        next(
            settings,
            State::FetchingStake { address, data },
            Event::Reply(reply),
        ).action is Show <==> (!stake::is_eligible(reply.object_at("data"@))
            && reply.object_at("data"@).text_or("gate_mode"@, "off"@) == "enforce"@),
{
}

/// Whether a step ends the check with a failure of the given code, category,
/// action, command, pause and progress, that may or may not be retried.
pub open spec fn fails_with(
    step: Step<Seq<char>, JsonView, Seq<Choice<Seq<char>>>>,
    code: Seq<char>,
    category: Seq<char>,
    retryable: bool,
    action: Seq<char>,
    command: Seq<char>,
    wait: Option<u64>,
    progress: Seq<char>,
) -> bool {
    step.action matches Action::Show(report) && (report matches Report::Failure {
        code: c,
        category: k,
        retryable: r,
        internal,
        ..
    } && c == code && k == category && r == retryable && internal.next_action == action
        && internal.next_command == Some(command) && internal.wait_seconds == wait
        && internal.progress == Some(progress) && internal.options is None)
}

/// The way from a wallet to the server: without an address, the wallet is
/// looked at and what to do about it is reported; with one, a development
/// setup goes on at once, and any other asks whether the address is registered
/// and registers it where it is not. A question that fails holds nothing up, a
/// registration that fails or is not complete does.
pub proof fn addresses_are_registered(
    settings: Settings<Seq<char>>,
    address: Seq<char>,
    trouble: Trouble<Seq<char>>,
    wallet: Wallet<Seq<char>>,
    registration: Registration<Seq<char>>,
)
    ensures
        ({
            let found = next(settings, State::Resolving, Event::Address(address));
            let missing = next(settings, State::Resolving, Event::Failed(trouble));
            let looked = next(settings, missing.state, Event::Wallet(wallet));
            let dev = settings.dev_mode == Some("true"@) || settings.dev_mode == Some("1"@);
            let asked = State::<Seq<char>, JsonView>::CheckingRegistration { address };
            let registering = State::<Seq<char>, JsonView>::Registering { address };
            let on = to_server(address);
            let done = next(settings, registering, Event::Registration(registration));
            let failed = next(settings, registering, Event::Failed(trouble));
            &&& on.action is ProbeServer
            &&& on.state == State::<Seq<char>, JsonView>::Probing { address }
            &&& missing.action is InspectWallet
            &&& fails_with(
                looked,
                "WALLET_NOT_CONFIGURED"@,
                "dependency"@,
                false,
                "configure_wallet"@,
                wallet.setup_command,
                None,
                "0/4"@,
            )
            &&& looked.action matches Action::Show(report) && (report matches Report::Failure {
                message,
                suggestion,
                ..
            } && message == "Cannot determine wallet address: "@ + trouble.error && suggestion
                == wallet.suggestion)
            &&& dev ==> found == on
            &&& !dev ==> found.state == asked && (found.action matches Action::CheckRegistration {
                address: given,
            } && given == address)
            &&& next(settings, asked, Event::Registered(true)) == on
            &&& next(settings, asked, Event::Failed(trouble)) == on
            &&& next(settings, asked, Event::Registered(false)).state == registering && (next(
                settings,
                asked,
                Event::Registered(false),
            ).action matches Action::Register { address: given } && given == address)
            &&& registration.registered ==> done == on
            &&& !registration.registered ==> fails_with(
                done,
                "AWP_REGISTRATION_PENDING"@,
                "dependency"@,
                true,
                "retry"@,
                "predict-agent preflight"@,
                Some(10),
                "1/4"@,
            )
            &&& !registration.registered ==> (done.action matches Action::Show(report) && (
            report matches Report::Failure { message, .. } && message
                == "AWP registration incomplete: "@ + registration.message))
            &&& fails_with(
                failed,
                "AWP_REGISTRATION_FAILED"@,
                "dependency"@,
                true,
                "retry"@,
                "predict-agent preflight"@,
                Some(30),
                "1/4"@,
            )
            &&& failed.action matches Action::Show(report) && (report matches Report::Failure {
                message,
                ..
            } && message == "AWP registration failed: "@ + trouble.error)
        }),
{
}

/// The way from the server to the balance: the server has to be reached and
/// the status fetched, while a stake that cannot be fetched, or that is not
/// enforced, holds nothing up.
pub proof fn servers_are_asked_in_turn(
    settings: Settings<Seq<char>>,
    address: Seq<char>,
    data: JsonView,
    trouble: Trouble<Seq<char>>,
    reply: JsonView,
)
    ensures
        ({
            let probing = State::<Seq<char>, JsonView>::Probing { address };
            let opened = next(settings, probing, Event::Ready);
            let fetching = next(settings, opened.state, Event::Ready);
            let fetched = next(settings, fetching.state, Event::Reply(reply));
            let refused = next(settings, fetching.state, Event::Failed(trouble));
            let unreachable = next(settings, probing, Event::Failed(trouble));
            let staking = State::FetchingStake { address, data };
            let known = reply.object_at("data"@);
            let enforced = known.boolean_at("eligible"@) != Some(true) && known.text_at(
                "gate_mode"@,
            ) == Some("enforce"@);
            let staked = next(settings, staking, Event::Reply(reply));
            let balance = match data.text_at("balance"@) {
                Some(s) => s,
                None => "0"@,
            };
            &&& opened.action is OpenClient
            &&& fetching.action == Action::<Seq<char>, JsonView, Seq<Choice<Seq<char>>>>::Fetch {
                path: "/api/v1/agents/me/status"@,
                signed: true,
            }
            &&& fetched.action == Action::<Seq<char>, JsonView, Seq<Choice<Seq<char>>>>::Fetch {
                path: "/api/v1/agents/me/stake"@,
                signed: true,
            }
            &&& fetched.state == State::FetchingStake { address, data: known }
            &&& fails_with(
                unreachable,
                "COORDINATOR_UNREACHABLE"@,
                "network"@,
                true,
                "retry"@,
                "predict-agent preflight"@,
                Some(30),
                "2/4"@,
            )
            &&& unreachable.action matches Action::Show(report) && (report matches Report::Failure {
                message,
                suggestion,
                ..
            } && message == "Cannot reach coordinator at "@ + settings.server_url + ": "@
                + trouble.error && suggestion
                == "Check PREDICT_SERVER_URL and network. Tried: "@ + settings.server_url)
            &&& fails_with(
                refused,
                "AUTH_FAILED"@,
                "auth"@,
                false,
                "configure_wallet"@,
                "predict-agent preflight"@,
                None,
                "3/4"@,
            )
            &&& refused.action matches Action::Show(report) && (report matches Report::Failure {
                message,
                suggestion,
                ..
            } && message == "Failed to fetch agent status: "@ + trouble.error && suggestion == (
            if text::has(trouble.error, "Wallet address mismatch"@) {
                "AWP_AGENT_ID or AWP_SESSION_ID may have changed. Try: unset AWP_AGENT_ID AWP_SESSION_ID"@
            } else {
                "Check your wallet configuration and ensure the timestamp is fresh."@
            }))
            &&& enforced ==> fails_with(
                staked,
                "STAKE_REQUIRED"@,
                "stake"@,
                false,
                "stake_required"@,
                "predict-agent stake"@,
                None,
                "5/5"@,
            )
            &&& !enforced ==> staked.state == State::ReadingBalance { address, data }
                && staked.action == Action::<
                Seq<char>,
                JsonView,
                Seq<Choice<Seq<char>>>,
            >::ReadNumber(balance)
            &&& next(settings, staking, Event::Failed(trouble)).state == State::ReadingBalance {
                address,
                data,
            }
        }),
{
    reveal_strlit("off");
    reveal_strlit("enforce");
    assert("off"@.len() == 3 && "enforce"@.len() == 7);
}

/// A check that went well tells the number of active markets, none where they
/// could not be fetched, and the balance, with two decimals where it is a
/// number. An agent without a persona is to choose one, and any other can
/// start.
pub proof fn ready_agents_are_told_so(
    settings: Settings<Seq<char>>,
    address: Seq<char>,
    data: JsonView,
    number: Option<Double>,
    reply: JsonView,
    trouble: Trouble<Seq<char>>,
)
    ensures
        ({
            let reading = State::ReadingBalance { address, data };
            let counting = next(settings, reading, Event::Number(number));
            let step = next(settings, counting.state, Event::Reply(reply));
            let blind = next(settings, counting.state, Event::Failed(trouble));
            let balance = match (number, data.text_at("balance"@)) {
                (Some(d), _) => numerals::fixed2(d),
                (None, Some(s)) => s,
                (None, None) => "0"@,
            };
            let markets = match reply.items_at("data"@) {
                Some(list) => list.len(),
                None => 0,
            };
            let bare = match data.text_at("persona"@) {
                Some(s) => s.len() == 0 || s == "none"@,
                None => true,
            };
            let predictions = match data.signed_at("total_predictions"@) {
                Some(n) => n as int,
                None => 0,
            };
            &&& counting.action == Action::<Seq<char>, JsonView, Seq<Choice<Seq<char>>>>::Fetch {
                path: "/api/v1/markets/active"@,
                signed: false,
            }
            &&& blind == next(settings, counting.state, Event::Reply(JsonView::Null))
            &&& step.action matches Action::Show(report) && (report matches Report::Success {
                message,
                data: shown,
                internal,
            } && {
                &&& bare ==> {
                    &&& message
                        == "Ready! But no persona set — choose one to shape your analysis style. "@
                        + text::decimal(markets) + " open markets, "@ + balance + " chips."@
                    &&& internal.next_action == "select_persona"@
                    &&& internal.next_command == Some("predict-agent set-persona <PERSONA>"@)
                    &&& internal.options is Some
                    &&& shown.text_at("status"@) == Some("needs_persona"@)
                }
                &&& !bare ==> {
                    &&& message == "Ready. "@ + text::decimal(markets) + " open markets. "@
                        + text::signed_decimal(predictions) + " total predictions. Balance: "@
                        + balance + " chips."@
                    &&& internal.next_action == "fetch_context"@
                    &&& internal.next_command == Some("predict-agent context"@)
                    &&& internal.options is None
                    &&& shown.text_at("status"@) == Some("ready"@)
                }
                &&& internal.progress == Some("4/4"@)
                &&& internal.wait_seconds is None
                &&& shown.text_at("address"@) == Some(address)
                &&& shown.text_at("balance"@) == Some(balance)
            })
        }),
{
    let balance = shown_balance(data, number);
    let markets = market_count(reply);
    lemma_ready_data("needs_persona"@, settings, address, data, balance, markets);
    lemma_ready_data("ready"@, settings, address, data, balance, markets);
}

proof fn lemma_ready_data(
    status: Seq<char>,
    settings: Settings<Seq<char>>,
    address: Seq<char>,
    data: JsonView,
    balance: Seq<char>,
    open_markets: nat,
)
    ensures
        ({
            let shown = ready_data(status, settings, address, data, balance, open_markets);
            &&& shown.text_at("status"@) == Some(status)
            &&& shown.text_at("address"@) == Some(address)
            &&& shown.text_at("balance"@) == Some(balance)
        }),
{
    reveal_strlit("status");
    reveal_strlit("address");
    reveal_strlit("open_markets");
    reveal_strlit("total_predictions");
    reveal_strlit("balance");
    assert("status"@.len() == 6 && "address"@.len() == 7 && "balance"@.len() == 7
        && "open_markets"@.len() == 12 && "total_predictions"@.len() == 17);
    assert("address"@[0] == 'a' && "balance"@[0] == 'b');
    let members = ready_data(
        status,
        settings,
        address,
        data,
        balance,
        open_markets,
    )->Object_0;
    json::members_are_found(members, "status"@, 0);
    json::members_are_found(members, "address"@, 1);
    json::members_are_found(members, "balance"@, 4);
}

/// The wallet goes by the session, or else by the agent, and a key of the
/// user's own signs before the development mode and the wallet do.
pub proof fn wallets_go_by_session_first(settings: Settings<Seq<char>>)
    ensures
        settings.session_id matches Some(id) ==> wallet_id(settings) == id,
        settings.session_id is None ==> (settings.agent_id matches Some(id) ==> wallet_id(settings)
            == id),
        settings.session_id is None && settings.agent_id is None ==> wallet_id(settings)
            == "default"@,
        settings.has_private_key ==> signing_mode(settings) == "private_key"@,
        !settings.has_private_key && (settings.dev_mode == Some("true"@) || settings.dev_mode
            == Some("1"@)) ==> signing_mode(settings) == "dev_mode"@,
        !settings.has_private_key && settings.dev_mode != Some("true"@) && settings.dev_mode
            != Some("1"@) ==> signing_mode(settings) == "awp_wallet"@,
{
}

/// Each persona that can be chosen is set by a command with its name, and its
/// label is the name with spaces for underscores.
pub proof fn choices_set_their_persona(i: int, j: int)
    requires
        0 <= i < choices().len(),
        0 <= j < choices()[i].key.len(),
    ensures
        choices().len() == 7,
        choices()[i].command == Some("predict-agent set-persona "@ + choices()[i].key),
        choices()[i].label.len() == choices()[i].key.len(),
        choices()[i].key[j] == '_' ==> choices()[i].label[j] == ' ',
        choices()[i].key[j] != '_' ==> choices()[i].label[j] == choices()[i].key[j],
{
}

/// A report on a missing wallet holds what was found of the wallet and of the
/// environment.
pub proof fn wallet_reports_hold_what_was_found(
    settings: Settings<Seq<char>>,
    error: Seq<char>,
    wallet: Wallet<Seq<char>>,
)
    ensures
        ({
            let debug = wallet_report(settings, error, wallet)->debug;
            &&& debug.text_at("step"@) == Some("1_wallet_address"@)
            &&& debug.text_at("error_detail"@) == Some(error)
            &&& debug.boolean_at("env_AWP_ADDRESS"@) == Some(settings.has_address)
            &&& debug.boolean_at("env_AWP_PRIVATE_KEY"@) == Some(settings.has_private_key)
            &&& debug.boolean_at("env_AWP_WALLET_TOKEN"@) == Some(settings.has_wallet_token)
            &&& debug.text_at("env_AWP_DEV_MODE"@) == settings.dev_mode
            &&& debug.object_at("wallet_status"@).boolean_at("has_keystore"@) == Some(
                wallet.has_keystore,
            )
            &&& debug.object_at("wallet_status"@).boolean_at("can_receive"@) == Some(
                wallet.can_receive,
            )
            &&& debug.object_at("wallet_status"@).boolean_at("cli_installed"@) == Some(
                wallet.cli_installed,
            )
            &&& debug.object_at("wallet_status"@).boolean_at("wallet_dir_exists"@) == Some(
                wallet.wallet_dir_exists,
            )
            &&& debug.object_at("wallet_status"@).boolean_at("safe_to_init"@) == Some(
                wallet.safe_to_init,
            )
            &&& debug.object_at("wallet_status"@).text_at("human_status"@) == Some(
                wallet.human_status,
            )
        }),
{
    reveal_strlit("step");
    reveal_strlit("error_detail");
    reveal_strlit("wallet_status");
    reveal_strlit("env_AWP_ADDRESS");
    reveal_strlit("env_AWP_PRIVATE_KEY");
    reveal_strlit("env_AWP_WALLET_TOKEN");
    reveal_strlit("env_AWP_DEV_MODE");
    assert("step"@.len() == 4 && "error_detail"@.len() == 12 && "wallet_status"@.len() == 13 && "env_AWP_ADDRESS"@.len() == 15 && "env_AWP_PRIVATE_KEY"@.len() == 19 && "env_AWP_WALLET_TOKEN"@.len() == 20 && "env_AWP_DEV_MODE"@.len() == 16);
    let members = wallet_report(settings, error, wallet)->debug->Object_0;
    json::members_are_found(members, "step"@, 0);
    json::members_are_found(members, "error_detail"@, 1);
    json::members_are_found(members, "wallet_status"@, 2);
    json::members_are_found(members, "env_AWP_ADDRESS"@, 3);
    json::members_are_found(members, "env_AWP_PRIVATE_KEY"@, 4);
    json::members_are_found(members, "env_AWP_WALLET_TOKEN"@, 5);
    json::members_are_found(members, "env_AWP_DEV_MODE"@, 6);
    reveal_strlit("cli_installed");
    reveal_strlit("wallet_dir_exists");
    reveal_strlit("has_keystore");
    reveal_strlit("can_receive");
    reveal_strlit("safe_to_init");
    reveal_strlit("human_status");
    assert("cli_installed"@.len() == 13 && "wallet_dir_exists"@.len() == 17 && "has_keystore"@.len() == 12 && "can_receive"@.len() == 11 && "safe_to_init"@.len() == 12 && "human_status"@.len() == 12);
    assert("has_keystore"@[0] == 'h');
    assert("has_keystore"@[1] == 'a');
    assert("human_status"@[0] == 'h');
    assert("human_status"@[1] == 'u');
    assert("safe_to_init"@[0] == 's');
    let found = wallet_report(settings, error, wallet)->debug.object_at("wallet_status"@)->Object_0;
    json::members_are_found(found, "cli_installed"@, 0);
    json::members_are_found(found, "wallet_dir_exists"@, 1);
    json::members_are_found(found, "has_keystore"@, 2);
    json::members_are_found(found, "can_receive"@, 3);
    json::members_are_found(found, "safe_to_init"@, 4);
    json::members_are_found(found, "human_status"@, 5);
}

/// A report on a registration that is not complete holds the address and what
/// was said of it.
pub proof fn pending_reports_hold_the_address(
    address: Seq<char>,
    registration: Registration<Seq<char>>,
)
    ensures
        ({
            let debug = pending_report(address, registration)->debug;
            &&& debug.text_at("step"@) == Some("2_awp_registration"@)
            &&& debug.text_at("address"@) == Some(address)
            &&& debug.boolean_at("auto_registered"@) == Some(registration.auto_registered)
            &&& debug.text_at("message"@) == Some(registration.message)
        }),
{
    reveal_strlit("step");
    reveal_strlit("address");
    reveal_strlit("auto_registered");
    reveal_strlit("message");
    assert("step"@.len() == 4 && "address"@.len() == 7 && "auto_registered"@.len() == 15 && "message"@.len() == 7);
    assert("address"@[0] == 'a');
    assert("message"@[0] == 'm');
    let members = pending_report(address, registration)->debug->Object_0;
    json::members_are_found(members, "step"@, 0);
    json::members_are_found(members, "address"@, 1);
    json::members_are_found(members, "auto_registered"@, 2);
    json::members_are_found(members, "message"@, 3);
}

/// A report on a registration that failed holds the address and the error with
/// its causes.
pub proof fn registration_reports_hold_the_error(
    address: Seq<char>,
    trouble: Trouble<Seq<char>>,
)
    ensures
        ({
            let debug = registration_report(address, trouble)->debug;
            &&& debug.text_at("step"@) == Some("2_awp_registration"@)
            &&& debug.text_at("address"@) == Some(address)
            &&& debug.text_at("error_detail"@) == Some(trouble.error)
            &&& debug.text_at("error_chain"@) == Some(trouble.chain)
        }),
{
    reveal_strlit("step");
    reveal_strlit("address");
    reveal_strlit("error_detail");
    reveal_strlit("error_chain");
    assert("step"@.len() == 4 && "address"@.len() == 7 && "error_detail"@.len() == 12 && "error_chain"@.len() == 11);
    let members = registration_report(address, trouble)->debug->Object_0;
    json::members_are_found(members, "step"@, 0);
    json::members_are_found(members, "address"@, 1);
    json::members_are_found(members, "error_detail"@, 2);
    json::members_are_found(members, "error_chain"@, 3);
}

/// A report on a server that cannot be reached holds its URL and the error with
/// its causes.
pub proof fn server_reports_hold_the_error(
    server_url: Seq<char>,
    trouble: Trouble<Seq<char>>,
)
    ensures
        ({
            let debug = server_report(server_url, trouble)->debug;
            &&& debug.text_at("step"@) == Some("3_coordinator_check"@)
            &&& debug.text_at("server_url"@) == Some(server_url)
            &&& debug.text_at("error_detail"@) == Some(trouble.error)
            &&& debug.text_at("error_chain"@) == Some(trouble.chain)
        }),
{
    reveal_strlit("step");
    reveal_strlit("server_url");
    reveal_strlit("error_detail");
    reveal_strlit("error_chain");
    assert("step"@.len() == 4 && "server_url"@.len() == 10 && "error_detail"@.len() == 12 && "error_chain"@.len() == 11);
    let members = server_report(server_url, trouble)->debug->Object_0;
    json::members_are_found(members, "step"@, 0);
    json::members_are_found(members, "server_url"@, 1);
    json::members_are_found(members, "error_detail"@, 2);
    json::members_are_found(members, "error_chain"@, 3);
}

/// A report on a status that was refused holds the address, the server, the
/// error with its causes, how requests are signed and which wallet is used.
pub proof fn auth_reports_hold_the_signer(
    settings: Settings<Seq<char>>,
    address: Seq<char>,
    trouble: Trouble<Seq<char>>,
)
    ensures
        ({
            let debug = auth_report(settings, address, trouble)->debug;
            &&& debug.text_at("step"@) == Some("4_auth_check"@)
            &&& debug.text_at("address"@) == Some(address)
            &&& debug.text_at("server_url"@) == Some(settings.server_url)
            &&& debug.text_at("error_detail"@) == Some(trouble.error)
            &&& debug.text_at("error_chain"@) == Some(trouble.chain)
            &&& debug.text_at("signing_mode"@) == Some(signing_mode(settings))
            &&& debug.text_at("wallet_id"@) == Some(wallet_id(settings))
            &&& debug.text_at("env_AWP_SESSION_ID"@) == settings.session_id
            &&& debug.text_at("env_AWP_AGENT_ID"@) == settings.agent_id
        }),
{
    reveal_strlit("step");
    reveal_strlit("address");
    reveal_strlit("server_url");
    reveal_strlit("error_detail");
    reveal_strlit("error_chain");
    reveal_strlit("signing_mode");
    reveal_strlit("wallet_id");
    reveal_strlit("env_AWP_SESSION_ID");
    reveal_strlit("env_AWP_AGENT_ID");
    assert("step"@.len() == 4 && "address"@.len() == 7 && "server_url"@.len() == 10 && "error_detail"@.len() == 12 && "error_chain"@.len() == 11 && "signing_mode"@.len() == 12 && "wallet_id"@.len() == 9 && "env_AWP_SESSION_ID"@.len() == 18 && "env_AWP_AGENT_ID"@.len() == 16);
    assert("error_detail"@[0] == 'e');
    assert("signing_mode"@[0] == 's');
    let members = auth_report(settings, address, trouble)->debug->Object_0;
    json::members_are_found(members, "step"@, 0);
    json::members_are_found(members, "address"@, 1);
    json::members_are_found(members, "server_url"@, 2);
    json::members_are_found(members, "error_detail"@, 3);
    json::members_are_found(members, "error_chain"@, 4);
    json::members_are_found(members, "signing_mode"@, 5);
    json::members_are_found(members, "wallet_id"@, 6);
    json::members_are_found(members, "env_AWP_SESSION_ID"@, 7);
    json::members_are_found(members, "env_AWP_AGENT_ID"@, 8);
}

/// A report on a stake that is enforced tells what the agent has, zero where that
/// is not known, and what it needs, 1000 where that is not known.
pub proof fn stake_reports_tell_both_amounts(
    data: JsonView,
)
    ensures
        ({
            let debug = stake_gate_report(data)->debug;
            &&& debug.text_at("step"@) == Some("5_stake_check"@)
            &&& debug.get("stake_data"@) == Some(data)
            &&& debug.text_at("current_stake_awp"@) == Some(
                match data.text_at("current_stake_awp"@) {
                    Some(s) => s,
                    None => "0"@,
                },
            )
            &&& debug.text_at("required_stake_awp"@) == Some(
                match data.text_at("required_stake_awp"@) {
                    Some(s) => s,
                    None => "1000"@,
                },
            )
            &&& stake_gate_report(data)->Failure_message == "Stake gate: agent has "@ + debug.text_at(
                "current_stake_awp"@,
            )->0 + " AWP allocated to Predict, but ≥"@ + debug.text_at("required_stake_awp"@)->0
                + " AWP is required. Run `predict-agent stake` for the three ways to become eligible (awp.pro web UI, KYA delegated staking, or direct contract calls)."@
        }),
{
    reveal_strlit("step");
    reveal_strlit("current_stake_awp");
    reveal_strlit("required_stake_awp");
    reveal_strlit("stake_data");
    assert("step"@.len() == 4 && "current_stake_awp"@.len() == 17 && "required_stake_awp"@.len() == 18 && "stake_data"@.len() == 10);
    let members = stake_gate_report(data)->debug->Object_0;
    json::members_are_found(members, "step"@, 0);
    json::members_are_found(members, "current_stake_awp"@, 1);
    json::members_are_found(members, "required_stake_awp"@, 2);
    json::members_are_found(members, "stake_data"@, 3);
}

/// The personas that can be chosen: four styles of risk and three of analysis.
pub proof fn every_persona_can_be_chosen()
    ensures
        choices().map_values(|choice: Choice<Seq<char>>| choice.key) == seq![
            "degen"@,
            "conservative"@,
            "sniper"@,
            "contrarian"@,
            "chartist"@,
            "macro"@,
            "sentiment"@,
        ],
{
    assert(choices().map_values(|choice: Choice<Seq<char>>| choice.key) =~= seq![
        "degen"@,
        "conservative"@,
        "sniper"@,
        "contrarian"@,
        "chartist"@,
        "macro"@,
        "sentiment"@,
    ]);
}

/// What is shown of an agent that is ready: the markets that are open, how many
/// predictions it has made, its persona and its wallet.
pub proof fn ready_data_describes_the_agent(
    status: Seq<char>,
    settings: Settings<Seq<char>>,
    address: Seq<char>,
    data: JsonView,
    balance: Seq<char>,
    open_markets: u64,
)
    ensures
        ({
            let shown = ready_data(
                status,
                settings,
                address,
                data,
                balance,
                open_markets as nat,
            );
            &&& shown.text_at("status"@) == Some(status)
            &&& shown.text_at("address"@) == Some(address)
            &&& shown.unsigned_at("open_markets"@) == Some(open_markets)
            &&& shown.signed_at("total_predictions"@) == Some(
                match data.signed_at("total_predictions"@) {
                    Some(n) => n,
                    None => 0,
                },
            )
            &&& shown.text_at("balance"@) == Some(balance)
            &&& shown.text_at("persona"@) == Some(
                match data.text_at("persona"@) {
                    Some(s) => s,
                    None => "none"@,
                },
            )
            &&& shown.text_at("wallet_id"@) == Some(
                match (settings.session_id, settings.agent_id) {
                    (Some(id), _) => id,
                    (None, Some(id)) => id,
                    (None, None) => "default"@,
                },
            )
        }),
{
    reveal_strlit("status");
    reveal_strlit("address");
    reveal_strlit("open_markets");
    reveal_strlit("total_predictions");
    reveal_strlit("balance");
    reveal_strlit("persona");
    reveal_strlit("wallet_id");
    assert("status"@.len() == 6 && "address"@.len() == 7 && "open_markets"@.len() == 12 && "total_predictions"@.len() == 17 && "balance"@.len() == 7 && "persona"@.len() == 7 && "wallet_id"@.len() == 9);
    assert("address"@[0] == 'a');
    assert("balance"@[0] == 'b');
    assert("persona"@[0] == 'p');
    let members = ready_data(status, settings, address, data, balance, open_markets as nat)->Object_0;
    json::members_are_found(members, "status"@, 0);
    json::members_are_found(members, "address"@, 1);
    json::members_are_found(members, "open_markets"@, 2);
    json::members_are_found(members, "total_predictions"@, 3);
    json::members_are_found(members, "balance"@, 4);
    json::members_are_found(members, "persona"@, 5);
    json::members_are_found(members, "wallet_id"@, 6);
}

} // verus!
