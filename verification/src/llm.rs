//! The language model: how it is reached, what is asked, and what a reply
//! says.
//!
//! A model is reached over HTTP, where an endpoint is configured, or through
//! the openclaw program. This module decides what to send and reads what came
//! back; sending it is the host's part.
use crate::double;
use crate::double::Double;
use crate::json;
use crate::json::Json;
use crate::json::JsonView;
use crate::json::Members;
use crate::text;
use vstd::prelude::*;
use vstd::string::StringExecFns;

verus! {

// ── The direct endpoint ─────────────────────────────────────────────────

/// An endpoint for the language model. `S` is the type of its texts.
pub struct DirectLlmConfig<S> {
    pub base_url: S,
    pub api_key: S,
    pub model: S,
}

/// An endpoint as a mathematical value.
pub open spec fn config_view(config: DirectLlmConfig<String>) -> DirectLlmConfig<Seq<char>> {
    DirectLlmConfig {
        base_url: config.base_url@,
        api_key: config.api_key@,
        model: config.model@,
    }
}

/// An optional endpoint as a mathematical value.
pub open spec fn opt_config_view(config: Option<DirectLlmConfig<String>>) -> Option<
    DirectLlmConfig<Seq<char>>,
> {
    match config {
        Some(c) => Some(config_view(c)),
        None => None,
    }
}

/// The endpoint that four settings make up: a key of its own or a shared one,
/// a URL and a model. All three are needed.
pub open spec fn endpoint(
    own_key: Option<Seq<char>>,
    shared_key: Option<Seq<char>>,
    base_url: Option<Seq<char>>,
    model: Option<Seq<char>>,
) -> Option<DirectLlmConfig<Seq<char>>> {
    let key = match own_key {
        Some(k) => Some(k),
        None => shared_key,
    };
    match (key, base_url, model) {
        (Some(api_key), Some(base_url), Some(model)) => Some(
            DirectLlmConfig { base_url, api_key, model },
        ),
        _ => None,
    }
}

/// The endpoint that the settings `PREDICT_LLM_API_KEY`, `LLM_API_KEY`,
/// `PREDICT_LLM_BASE_URL` and `PREDICT_LLM_MODEL` make up, if they do. The
/// first key goes before the second.
pub fn direct_llm_config(
    own_key: Option<String>,
    shared_key: Option<String>,
    base_url: Option<String>,
    model: Option<String>,
) -> (r: Option<DirectLlmConfig<String>>)
    ensures
        opt_config_view(r) == endpoint(
            json::opt_view(own_key),
            json::opt_view(shared_key),
            json::opt_view(base_url),
            json::opt_view(model),
        ),
{
    let key = match own_key {
        Some(k) => Some(k),
        None => shared_key,
    };
    match (key, base_url, model) {
        (Some(api_key), Some(base_url), Some(model)) => Some(
            DirectLlmConfig { base_url, api_key, model },
        ),
        _ => None,
    }
}

/// A request to an endpoint. `S` is the type of its texts, `J` that of its
/// body.
pub struct LlmRequest<S, J> {
    pub url: S,
    pub api_key: S,
    pub body: J,
}

/// A request as a mathematical value.
pub open spec fn request_view(request: LlmRequest<String, Json>) -> LlmRequest<
    Seq<char>,
    JsonView,
> {
    LlmRequest { url: request.url@, api_key: request.api_key@, body: request.body@ }
}

/// What the model is told about its task.
pub const SYSTEM: &'static str = "Return only one raw JSON object. No markdown. No prose.";

/// A message of a role.
pub open spec fn message_tree(role: Seq<char>, content: Seq<char>) -> JsonView {
    JsonView::Object(seq![("role"@, JsonView::Str(role)), ("content"@, JsonView::Str(content))])
}

/// The body of a request: the model, the two messages, a low temperature, a
/// limit on the tokens of the answer, and the wish for a JSON object.
pub open spec fn body_tree(model: Seq<char>, prompt: Seq<char>, max_tokens: u32) -> JsonView {
    JsonView::Object(
        seq![
            ("model"@, JsonView::Str(model)),
            (
                "messages"@,
                JsonView::Array(
                    seq![message_tree("system"@, SYSTEM@), message_tree("user"@, prompt)],
                ),
            ),
            ("temperature"@, json::double_tree(Double { bits: double::D020 })),
            ("max_tokens"@, JsonView::Number(json::integer_number(max_tokens as int))),
            (
                "response_format"@,
                JsonView::Object(seq![("type"@, JsonView::Str("json_object"@))]),
            ),
        ],
    )
}

fn message_json(role: &str, content: &str) -> (r: Json)
    ensures
        r@ == message_tree(role@, content@),
{
    let members = Members::new().with_str("role", role).with_str("content", content);
    assert(members@ =~= seq![
        ("role"@, JsonView::Str(role@)),
        ("content"@, JsonView::Str(content@)),
    ]);
    members.object()
}

/// The body of a request to an endpoint.
pub fn llm_body(model: &str, prompt: &str, max_tokens: u32) -> (r: Json)
    ensures
        r@ == body_tree(model@, prompt@, max_tokens),
{
    let mut messages: Vec<Json> = Vec::new();
    messages.push(message_json("system", SYSTEM));
    messages.push(message_json("user", prompt));
    let list = Json::Array(messages);
    assert(list@->Array_0 =~= seq![
        message_tree("system"@, SYSTEM@),
        message_tree("user"@, prompt@),
    ]);
    let format = Members::new().with_str("type", "json_object");
    assert(format@ =~= seq![("type"@, JsonView::Str("json_object"@))]);
    let members = Members::new().with_str("model", model).with("messages", list).with(
        "temperature",
        Json::from_double(Double { bits: double::D020 }),
    ).with("max_tokens", Json::count(max_tokens as u64)).with(
        "response_format",
        format.object(),
    );
    assert(members@ =~= body_tree(model@, prompt@, max_tokens)->Object_0);
    members.object()
}

/// The request that asks an endpoint.
pub open spec fn llm_request(
    config: DirectLlmConfig<Seq<char>>,
    prompt: Seq<char>,
    max_tokens: u32,
) -> LlmRequest<Seq<char>, JsonView> {
    LlmRequest {
        url: config.base_url,
        api_key: config.api_key,
        body: body_tree(config.model, prompt, max_tokens),
    }
}

/// Why an endpoint cannot be asked.
pub const INCOMPLETE: &'static str = "direct LLM env vars are incomplete";

/// The request that asks an endpoint, where there is one.
pub fn call_llm_api(
    config: &Option<DirectLlmConfig<String>>,
    prompt: &str,
    max_tokens: u32,
) -> (r: Result<LlmRequest<String, Json>, String>)
    ensures
        match (r, *config) {
            (Ok(request), Some(c)) => request_view(request) == llm_request(
                config_view(c),
                prompt@,
                max_tokens,
            ),
            (Err(e), None) => e@ == INCOMPLETE@,
            _ => false,
        },
{
    match config {
        Some(c) => Ok(
            LlmRequest {
                url: c.base_url.clone(),
                api_key: c.api_key.clone(),
                body: llm_body(c.model.as_str(), prompt, max_tokens),
            },
        ),
        None => Err(INCOMPLETE.to_owned()),
    }
}

/// The most tokens that an answer may have.
pub const ANSWER_TOKENS: u32 = 600;

/// The request that asks an endpoint for a decision, where there is one.
pub fn call_direct_llm(config: &Option<DirectLlmConfig<String>>, prompt: &str) -> (r: Result<
    LlmRequest<String, Json>,
    String,
>)
    ensures
        match (r, *config) {
            (Ok(request), Some(c)) => request_view(request) == llm_request(
                config_view(c),
                prompt@,
                ANSWER_TOKENS,
            ),
            (Err(e), None) => e@ == INCOMPLETE@,
            _ => false,
        },
{
    call_llm_api(config, prompt, ANSWER_TOKENS)
}

// ── Choosing a way to the model ─────────────────────────────────────────

/// A call of the model: a request to an endpoint, or a message to an agent of
/// the openclaw program.
pub enum ModelCall<S, J> {
    Direct(LlmRequest<S, J>),
    Agent { openclaw_bin: S, agent_id: S, prompt: S },
}

/// A call as a mathematical value.
pub open spec fn call_view(call: ModelCall<String, Json>) -> ModelCall<Seq<char>, JsonView> {
    match call {
        ModelCall::Direct(request) => ModelCall::Direct(request_view(request)),
        ModelCall::Agent { openclaw_bin, agent_id, prompt } => ModelCall::Agent {
            openclaw_bin: openclaw_bin@,
            agent_id: agent_id@,
            prompt: prompt@,
        },
    }
}

/// A call, or why there is none, as a mathematical value.
pub open spec fn call_outcome(call: Result<ModelCall<String, Json>, String>) -> Result<
    ModelCall<Seq<char>, JsonView>,
    Seq<char>,
> {
    match call {
        Ok(c) => Ok(call_view(c)),
        Err(e) => Err(e@),
    }
}

/// The call that puts a prompt to the model: over the endpoint where there is
/// one, else through openclaw where it was found.
pub open spec fn model_call(
    config: Option<DirectLlmConfig<Seq<char>>>,
    openclaw_bin: Option<Seq<char>>,
    agent_id: Seq<char>,
    prompt: Seq<char>,
    otherwise: Seq<char>,
) -> Result<ModelCall<Seq<char>, JsonView>, Seq<char>> {
    match (config, openclaw_bin) {
        (Some(c), _) => Ok(ModelCall::Direct(llm_request(c, prompt, ANSWER_TOKENS))),
        (None, Some(bin)) => Ok(
            ModelCall::Agent { openclaw_bin: bin, agent_id, prompt },
        ),
        (None, None) => Err(otherwise),
    }
}

fn call_model(
    config: &Option<DirectLlmConfig<String>>,
    openclaw_bin: &Option<String>,
    agent_id: &str,
    prompt: &str,
    otherwise: &str,
) -> (r: Result<ModelCall<String, Json>, String>)
    ensures
        call_outcome(r) == model_call(
            opt_config_view(*config),
            json::opt_view(*openclaw_bin),
            agent_id@,
            prompt@,
            otherwise@,
        ),
{
    if config.is_some() {
        match call_direct_llm(config, prompt) {
            Ok(request) => Ok(ModelCall::Direct(request)),
            Err(e) => Err(e),
        }
    } else {
        match openclaw_bin {
            Some(bin) => Ok(
                ModelCall::Agent {
                    openclaw_bin: bin.clone(),
                    agent_id: agent_id.to_owned(),
                    prompt: prompt.to_owned(),
                },
            ),
            None => Err(otherwise.to_owned()),
        }
    }
}

/// Why a decision cannot be asked for.
pub const NO_TRANSPORT: &'static str = "no LLM transport configured";

/// The call that asks for a decision.
pub fn ask_model(
    config: &Option<DirectLlmConfig<String>>,
    openclaw_bin: &Option<String>,
    agent_id: &str,
    prompt: &str,
) -> (r: Result<ModelCall<String, Json>, String>)
    ensures
        call_outcome(r) == model_call(
            opt_config_view(*config),
            json::opt_view(*openclaw_bin),
            agent_id@,
            prompt@,
            NO_TRANSPORT@,
        ),
{
    call_model(config, openclaw_bin, agent_id, prompt, NO_TRANSPORT)
}

/// The prompt that asks once more, and for nothing but JSON.
pub open spec fn normalization_prompt(
    original_prompt: Seq<char>,
    previous_response: Seq<char>,
) -> Seq<char> {
    "The previous response was invalid or missing `Challenge answer: <digits>.` in reasoning.\n\nOriginal task and challenge:\n"@
        + original_prompt + "\n\nPrevious response:\n"@ + previous_response + NORMALIZATION_END@
}

/// What an answer has to be that is asked for once more.
pub const NORMALIZATION_END: &'static str =
    "\n\nReturn exactly one raw JSON object now. For submit, reasoning must include `Challenge answer: <digits>.` Do not add markdown, prose, or explanations. If the trade is not strong enough, return {\"action\":\"skip\",\"reasoning\":\"<brief market reason>\"}.";

/// Why a decision cannot be asked for once more.
pub const NO_NORMALIZER: &'static str = "no LLM transport available for normalization";

/// The call that asks the model once more, with its task and what it answered,
/// and for nothing but JSON.
pub fn normalize_llm_decision(
    original_prompt: &str,
    previous_response: &str,
    config: &Option<DirectLlmConfig<String>>,
    openclaw_bin: &Option<String>,
    agent_id: &str,
) -> (r: Result<ModelCall<String, Json>, String>)
    ensures
        call_outcome(r) == model_call(
            opt_config_view(*config),
            json::opt_view(*openclaw_bin),
            agent_id@,
            normalization_prompt(original_prompt@, previous_response@),
            NO_NORMALIZER@,
        ),
{
    let mut prompt =
        "The previous response was invalid or missing `Challenge answer: <digits>.` in reasoning.\n\nOriginal task and challenge:\n".to_owned();
    prompt.append(original_prompt);
    prompt.append("\n\nPrevious response:\n");
    prompt.append(previous_response);
    prompt.append(NORMALIZATION_END);
    call_model(config, openclaw_bin, agent_id, prompt.as_str(), NO_NORMALIZER)
}

// ── Replies of an endpoint ──────────────────────────────────────────────

/// The text of the first item from `from` on that has one.
pub open spec fn first_text(items: Seq<JsonView>, from: int) -> Option<Seq<char>>
    decreases items.len() - from,
{
    if from >= items.len() {
        None
    } else {
        match items[from].text_at("text"@) {
            Some(s) => Some(s),
            None => first_text(items, from + 1),
        }
    }
}

/// The text in a list of content items.
pub open spec fn content_text(resp: JsonView) -> Option<Seq<char>> {
    match resp.items_at("content"@) {
        Some(items) => first_text(items, 0),
        None => None,
    }
}

/// The text of the first choice.
pub open spec fn choice_text(resp: JsonView) -> Option<Seq<char>> {
    match resp.items_at("choices"@) {
        Some(choices) => if choices.len() > 0 {
            match choices[0].get("message"@) {
                Some(message) => message.text_at("content"@),
                None => None,
            }
        } else {
            None
        },
        None => None,
    }
}

/// The text that a reply carries, in either of two forms.
pub open spec fn llm_text(resp: JsonView) -> Option<Seq<char>> {
    match content_text(resp) {
        Some(s) => Some(s),
        None => choice_text(resp),
    }
}

fn content_text_of(resp: &Json) -> (r: Option<String>)
    ensures
        json::opt_view(r) == content_text(resp@),
{
    match resp.array_at("content") {
        None => None,
        Some(items) => {
            let ghost all = json::trees(items@);
            let mut i: usize = 0;
            while i < items.len()
                invariant
                    i <= items@.len(),
                    all == json::trees(items@),
                    content_text(resp@) == first_text(all, i as int),
                decreases items@.len() - i,
            {
                assert(all[i as int] == items@[i as int]@);
                if let Some(s) = items[i].str_at("text") {
                    return Some(s.clone());
                }
                i = i + 1;
            }
            None
        },
    }
}

fn choice_text_of(resp: &Json) -> (r: Option<String>)
    ensures
        json::opt_view(r) == choice_text(resp@),
{
    match resp.array_at("choices") {
        Some(choices) => {
            if choices.len() == 0 {
                return None;
            }
            let ghost all = json::trees(choices@);
            assert(all[0] == choices@[0]@);
            match choices[0].get("message") {
                Some(message) => match message.str_at("content") {
                    Some(s) => Some(s.clone()),
                    None => None,
                },
                None => None,
            }
        },
        None => None,
    }
}

/// The text that a reply carries: the first text among its content items, or
/// else the message of its first choice.
pub fn extract_llm_text(resp: &Json) -> (r: Option<String>)
    ensures
        json::opt_view(r) == llm_text(resp@),
{
    match content_text_of(resp) {
        Some(s) => Some(s),
        None => choice_text_of(resp),
    }
}

/// How a request to an endpoint went.
pub enum HttpOutcome<S, J> {
    /// The client could not be set up.
    NoClient(S),
    /// The request could not be sent.
    NotSent,
    /// The endpoint answered with an error status.
    BadStatus,
    /// The answer is no JSON.
    NotJson,
    /// The answer.
    Answer(J),
}

/// An outcome as a mathematical value.
pub open spec fn http_view(outcome: HttpOutcome<String, Json>) -> HttpOutcome<Seq<char>, JsonView> {
    match outcome {
        HttpOutcome::NoClient(e) => HttpOutcome::NoClient(e@),
        HttpOutcome::NotSent => HttpOutcome::NotSent,
        HttpOutcome::BadStatus => HttpOutcome::BadStatus,
        HttpOutcome::NotJson => HttpOutcome::NotJson,
        HttpOutcome::Answer(j) => HttpOutcome::Answer(j@),
    }
}

/// The reply of an endpoint, or why there is none.
pub open spec fn http_reply(outcome: HttpOutcome<Seq<char>, JsonView>) -> Result<
    Seq<char>,
    Seq<char>,
> {
    match outcome {
        HttpOutcome::NoClient(e) => Err(e),
        HttpOutcome::NotSent => Err("direct LLM request failed"@),
        HttpOutcome::BadStatus => Err("direct LLM returned error status"@),
        HttpOutcome::NotJson => Err("direct LLM returned invalid JSON"@),
        HttpOutcome::Answer(resp) => match llm_text(resp) {
            Some(s) => Ok(s),
            None => Err("direct LLM response did not contain text content"@),
        },
    }
}

/// A reply, or why there is none, as a mathematical value.
pub open spec fn reply_view(reply: Result<String, String>) -> Result<Seq<char>, Seq<char>> {
    match reply {
        Ok(s) => Ok(s@),
        Err(e) => Err(e@),
    }
}

/// The reply of an endpoint, or why there is none.
pub fn llm_reply(outcome: HttpOutcome<String, Json>) -> (r: Result<String, String>)
    ensures
        reply_view(r) == http_reply(http_view(outcome)),
{
    match outcome {
        HttpOutcome::NoClient(e) => Err(e),
        HttpOutcome::NotSent => Err("direct LLM request failed".to_owned()),
        HttpOutcome::BadStatus => Err("direct LLM returned error status".to_owned()),
        HttpOutcome::NotJson => Err("direct LLM returned invalid JSON".to_owned()),
        HttpOutcome::Answer(resp) => match extract_llm_text(&resp) {
            Some(s) => Ok(s),
            None => Err("direct LLM response did not contain text content".to_owned()),
        },
    }
}

// ── What is asked and what is read ──────────────────────────────────────

/// The body of a request names the model, tells it in a first message to
/// return nothing but a JSON object, hands it the prompt in a second one, and
/// asks for a temperature of 0.20, a limit on the tokens and a JSON object.
pub proof fn requests_hold_the_prompt(model: Seq<char>, prompt: Seq<char>, max_tokens: u32)
    ensures
        ({
            let body = body_tree(model, prompt, max_tokens);
            let messages = body.items_at("messages"@)->0;
            &&& body.text_at("model"@) == Some(model)
            &&& body.items_at("messages"@) is Some
            &&& messages.len() == 2
            &&& messages[0].text_at("role"@) == Some("system"@)
            &&& messages[0].text_at("content"@) == Some(
                "Return only one raw JSON object. No markdown. No prose."@,
            )
            &&& messages[1].text_at("role"@) == Some("user"@)
            &&& messages[1].text_at("content"@) == Some(prompt)
            &&& body.unsigned_at("max_tokens"@) == Some(max_tokens as u64)
            &&& exists|bits: u64|
                body.get("temperature"@) == Some(json::double_tree(Double { bits }))
                    && #[trigger] double::is_hundredths(bits, 20)
            &&& body.object_at("response_format"@).text_at("type"@) == Some("json_object"@)
        }),
{
    reveal_strlit("model");
    reveal_strlit("messages");
    reveal_strlit("temperature");
    reveal_strlit("max_tokens");
    reveal_strlit("response_format");
    reveal_strlit("role");
    reveal_strlit("content");
    assert("model"@.len() == 5 && "messages"@.len() == 8 && "temperature"@.len() == 11
        && "max_tokens"@.len() == 10 && "response_format"@.len() == 15 && "role"@.len() == 4
        && "content"@.len() == 7);
    let body = body_tree(model, prompt, max_tokens);
    let members = body->Object_0;
    json::members_are_found(members, "model"@, 0);
    json::members_are_found(members, "messages"@, 1);
    json::members_are_found(members, "temperature"@, 2);
    json::members_are_found(members, "max_tokens"@, 3);
    json::members_are_found(members, "response_format"@, 4);
    let wish = seq![("type"@, JsonView::Str("json_object"@))];
    json::members_are_found(wish, "type"@, 0);
    lemma_message("system"@, SYSTEM@);
    lemma_message("user"@, prompt);
    double::thresholds_are_hundredths();
    assert(double::is_hundredths(double::D020, 20));
}

proof fn lemma_message(role: Seq<char>, content: Seq<char>)
    ensures
        message_tree(role, content).text_at("role"@) == Some(role),
        message_tree(role, content).text_at("content"@) == Some(content),
{
    reveal_strlit("role");
    reveal_strlit("content");
    assert("role"@.len() == 4 && "content"@.len() == 7);
    let members = message_tree(role, content)->Object_0;
    json::members_are_found(members, "role"@, 0);
    json::members_are_found(members, "content"@, 1);
}

/// An endpoint takes a URL, a model and a key; the key of its own goes before
/// the shared one.
pub proof fn endpoints_take_three_settings(
    own_key: Option<Seq<char>>,
    shared_key: Option<Seq<char>>,
    base_url: Option<Seq<char>>,
    model: Option<Seq<char>>,
)
    ensures
        endpoint(own_key, shared_key, base_url, model) is Some <==> (own_key is Some || shared_key
            is Some) && base_url is Some && model is Some,
        endpoint(own_key, shared_key, base_url, model) matches Some(config) ==> {
            &&& Some(config.base_url) == base_url
            &&& Some(config.model) == model
            &&& own_key is Some ==> Some(config.api_key) == own_key
            &&& own_key is None ==> Some(config.api_key) == shared_key
        },
{
}

/// A second question holds the task and the answer that it is about, in this
/// order.
pub proof fn second_question_holds_the_first(task: Seq<char>, answer: Seq<char>)
    ensures
        text::has(
            normalization_prompt(task, answer),
            "Original task and challenge:\n"@ + task + "\n\nPrevious response:\n"@ + answer
                + "\n\nReturn exactly one raw JSON object now."@,
        ),
{
    let start = "The previous response was invalid or missing `Challenge answer: <digits>.` in reasoning.\n\nOriginal task and challenge:\n"@;
    let head = "Original task and challenge:\n"@;
    let tail = "\n\nReturn exactly one raw JSON object now."@;
    reveal_strlit(
        "The previous response was invalid or missing `Challenge answer: <digits>.` in reasoning.\n\nOriginal task and challenge:\n",
    );
    reveal_strlit("Original task and challenge:\n");
    reveal_strlit("\n\nReturn exactly one raw JSON object now.");
    reveal_strlit(
        "\n\nReturn exactly one raw JSON object now. For submit, reasoning must include `Challenge answer: <digits>.` Do not add markdown, prose, or explanations. If the trade is not strong enough, return {\"action\":\"skip\",\"reasoning\":\"<brief market reason>\"}.",
    );
    let n = start.len() - head.len();
    assert(start.skip(n) =~= head);
    assert(NORMALIZATION_END@.take(tail.len() as int) =~= tail);
    let rest = NORMALIZATION_END@.skip(tail.len() as int);
    let pattern = head + task + "\n\nPrevious response:\n"@ + answer + tail;
    let whole = normalization_prompt(task, answer);
    assert(start =~= start.take(n) + head);
    assert(NORMALIZATION_END@ =~= tail + rest);
    assert(whole =~= start.take(n) + pattern + rest);
    assert(whole.subrange(n, n + pattern.len()) =~= pattern);
    assert(text::occurs_at(whole, pattern, n));
}

/// The text of a reply is the first text among its content items, or else the
/// message of its first choice, and there is none where there is neither.
pub proof fn replies_are_read_in_two_forms(resp: JsonView, i: int)
    ensures
        ({
            let items = resp.items_at("content"@)->0;
            let listed = resp.items_at("content"@) is Some;
            let choices = resp.items_at("choices"@)->0;
            let chosen = resp.items_at("choices"@) is Some && choices.len() > 0;
            let without = !listed || forall|j: int|
                0 <= j < items.len() ==> (#[trigger] items[j]).text_at("text"@) is None;
            &&& listed && 0 <= i < items.len() && (forall|j: int|
                0 <= j < i ==> (#[trigger] items[j]).text_at("text"@) is None) ==> (
            items[i].text_at("text"@) matches Some(s) ==> llm_text(resp) == Some(s))
            &&& without && chosen ==> (choices[0].object_at("message"@).text_at(
                "content"@,
            ) matches Some(s) ==> llm_text(resp) == Some(s))
            &&& without && !chosen ==> llm_text(resp) is None
            &&& without && chosen && choices[0].object_at("message"@).text_at("content"@) is None
                ==> llm_text(resp) is None
        }),
{
    assert(json::lookup(Seq::empty(), "content"@) is None);
    if let Some(items) = resp.items_at("content"@) {
        lemma_first_text(items, 0, i);
    }
}

proof fn lemma_first_text(items: Seq<JsonView>, from: int, i: int)
    requires
        0 <= from,
    ensures
        from <= i < items.len() && (forall|j: int|
            from <= j < i ==> (#[trigger] items[j]).text_at("text"@) is None) && items[i].text_at(
            "text"@,
        ) is Some ==> first_text(items, from) == items[i].text_at("text"@),
        (forall|j: int| from <= j < items.len() ==> (#[trigger] items[j]).text_at("text"@) is None)
            ==> first_text(items, from) is None,
    decreases items.len() - from,
{
    if from < items.len() {
        lemma_first_text(items, from + 1, i);
    }
}

/// A reply is the text of the endpoint's answer, and without one the error
/// says what went wrong.
pub proof fn failed_requests_are_told(outcome: HttpOutcome<Seq<char>, JsonView>)
    ensures
        outcome matches HttpOutcome::NoClient(e) ==> http_reply(outcome) == Err::<
            Seq<char>,
            Seq<char>,
        >(e),
        outcome is NotSent ==> http_reply(outcome) == Err::<Seq<char>, Seq<char>>(
            "direct LLM request failed"@,
        ),
        outcome is BadStatus ==> http_reply(outcome) == Err::<Seq<char>, Seq<char>>(
            "direct LLM returned error status"@,
        ),
        outcome is NotJson ==> http_reply(outcome) == Err::<Seq<char>, Seq<char>>(
            "direct LLM returned invalid JSON"@,
        ),
        outcome matches HttpOutcome::Answer(resp) ==> match llm_text(resp) {
            Some(s) => http_reply(outcome) == Ok::<Seq<char>, Seq<char>>(s),
            None => http_reply(outcome) == Err::<Seq<char>, Seq<char>>(
                "direct LLM response did not contain text content"@,
            ),
        },
{
}

} // verus!
