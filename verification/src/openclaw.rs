//! The openclaw program: where it may be found, what it is called with, and
//! what its output says.
use crate::json;
use crate::llm;
use crate::text;
use vstd::prelude::*;
use vstd::slice::slice_subrange;
use vstd::string::StringExecFns;

verus! {

// ── Finding the program ─────────────────────────────────────────────────

/// The parts of a text between the places where a character stands.
pub open spec fn parts(source: Seq<char>, separator: char) -> Seq<Seq<char>>
    decreases source.len(),
    via parts_shrink
{
    match text::find_char(source, separator) {
        Some(at) => seq![source.take(at)] + parts(source.skip(at + 1), separator),
        None => seq![source],
    }
}

#[via_fn]
proof fn parts_shrink(source: Seq<char>, separator: char) {
    text::find_char_found(source, separator);
}

/// The directories that a search path lists, separated by colons.
pub fn path_directories(path: &str) -> (r: Vec<String>)
    ensures
        text::strings(r@) == parts(path@, ':'),
{
    let chars = text::chars_of(path);
    let all: &[char] = chars.as_slice();
    let mut out: Vec<String> = Vec::new();
    let mut start: usize = 0;
    assert(all@.skip(0) =~= path@);
    assert(text::strings(out@) + parts(path@, ':') =~= parts(path@, ':'));
    loop
        invariant
            start <= all@.len(),
            all@ == path@,
            text::strings(out@) + parts(all@.skip(start as int), ':') == parts(path@, ':'),
        decreases all@.len() - start,
    {
        let rest = slice_subrange(all, start, all.len());
        let ghost before = out@;
        proof {
            assert(rest@ =~= all@.skip(start as int));
            text::find_char_found(rest@, ':');
        }
        match text::find_char_in(rest, ':') {
            None => {
                out.push(text::string_of(rest));
                assert(text::strings(out@) =~= text::strings(before) + seq![rest@]);
                return out;
            },
            Some(at) => {
                let part = text::string_of(slice_subrange(rest, 0, at));
                out.push(part);
                proof {
                    assert(part@ =~= rest@.take(at as int));
                    assert(rest@.skip(at + 1) =~= all@.skip(start + at + 1));
                    assert(text::strings(out@) =~= text::strings(before) + seq![part@]);
                    assert(text::strings(before) + (seq![part@] + parts(rest@.skip(at + 1), ':'))
                        =~= text::strings(out@) + parts(rest@.skip(at + 1), ':'));
                }
                start = start + at + 1;
            },
        }
    }
}

/// The names that the program may have on the search path, in the order in
/// which they are looked for.
pub open spec fn program_names() -> Seq<Seq<char>> {
    seq!["openclaw"@, "openclaw.mjs"@, "openclaw.cmd"@]
}

/// The files that the program may be, in the order in which they are looked
/// for.
pub open spec fn program_files(home: Seq<char>) -> Seq<Seq<char>> {
    seq![
        home + "/.local/bin/openclaw"@,
        home + "/.npm-global/bin/openclaw"@,
        "/usr/local/bin/openclaw"@,
    ]
}

/// The names that the program may have on the search path.
pub fn openclaw_names() -> (r: Vec<String>)
    ensures
        text::strings(r@) == program_names(),
{
    let r: Vec<String> = vec![
        "openclaw".to_owned(),
        "openclaw.mjs".to_owned(),
        "openclaw.cmd".to_owned(),
    ];
    assert(text::strings(r@) =~= program_names());
    r
}

/// The files that the program may be, given the home directory.
pub fn openclaw_files(home: &str) -> (r: Vec<String>)
    ensures
        text::strings(r@) == program_files(home@),
{
    let mut local = home.to_owned();
    local.append("/.local/bin/openclaw");
    let mut global = home.to_owned();
    global.append("/.npm-global/bin/openclaw");
    let r: Vec<String> = vec![local, global, "/usr/local/bin/openclaw".to_owned()];
    assert(text::strings(r@) =~= program_files(home@));
    r
}

/// The first item that is present, from the position `from` on.
pub open spec fn first_present(
    items: Seq<Seq<char>>,
    present: Seq<bool>,
    from: int,
) -> Option<Seq<char>>
    decreases items.len() - from,
{
    if from >= items.len() || from >= present.len() {
        None
    } else if present[from] {
        Some(items[from])
    } else {
        first_present(items, present, from + 1)
    }
}

fn first_present_of(items: &Vec<String>, present: &Vec<bool>) -> (r: Option<String>)
    ensures
        json::opt_view(r) == first_present(text::strings(items@), present@, 0),
{
    let ghost all = text::strings(items@);
    let mut i: usize = 0;
    while i < items.len() && i < present.len()
        invariant
            i <= items@.len(),
            i <= present@.len(),
            all == text::strings(items@),
            first_present(all, present@, 0) == first_present(all, present@, i as int),
        decreases items@.len() - i,
    {
        if present[i] {
            return Some(items[i].clone());
        }
        i = i + 1;
    }
    None
}

/// Where the program is, given which of its names are on the search path and
/// which of its files exist. A name on the search path goes first.
pub fn detect_openclaw(home: &str, on_path: &Vec<bool>, files: &Vec<bool>) -> (r: Option<String>)
    ensures
        json::opt_view(r) == match first_present(program_names(), on_path@, 0) {
            Some(name) => Some(name),
            None => first_present(program_files(home@), files@, 0),
        },
        on_path@.len() == 3 && files@.len() == 3 ==> json::opt_view(r) == (if on_path@[0] {
            Some("openclaw"@)
        } else if on_path@[1] {
            Some("openclaw.mjs"@)
        } else if on_path@[2] {
            Some("openclaw.cmd"@)
        } else if files@[0] {
            Some(home@ + "/.local/bin/openclaw"@)
        } else if files@[1] {
            Some(home@ + "/.npm-global/bin/openclaw"@)
        } else if files@[2] {
            Some("/usr/local/bin/openclaw"@)
        } else {
            None
        }),
{
    proof {
        reveal_with_fuel(first_present, 4);
    }
    match first_present_of(&openclaw_names(), on_path) {
        Some(name) => Some(name),
        None => first_present_of(&openclaw_files(home), files),
    }
}

// ── Agents ──────────────────────────────────────────────────────────────

/// The command that makes an agent.
pub open spec fn agent_creation(home: Option<Seq<char>>, agent_id: Seq<char>) -> Seq<Seq<char>> {
    let base = match home {
        Some(h) => h,
        None => "/tmp"@,
    };
    seq![
        "agents"@,
        "add"@,
        agent_id,
        "--workspace"@,
        base + "/.openclaw/workspace-"@ + agent_id,
        "--non-interactive"@,
    ]
}

/// The command that makes the agent, unless the list of agents names it.
pub fn ensure_agent(listing: Option<&String>, home: Option<&String>, agent_id: &str) -> (r: Option<
    Vec<String>,
>)
    ensures
        r is None == (json::text_view(listing) matches Some(list) && text::has(list, agent_id@)),
        r matches Some(args) ==> text::strings(args@) == agent_creation(
            json::text_view(home),
            agent_id@,
        ),
{
    if let Some(list) = listing {
        if text::contains(list.as_str(), agent_id) {
            return None;
        }
    }
    let mut workspace = match home {
        Some(h) => h.clone(),
        None => "/tmp".to_owned(),
    };
    workspace.append("/.openclaw/workspace-");
    workspace.append(agent_id);
    let args: Vec<String> = vec![
        "agents".to_owned(),
        "add".to_owned(),
        agent_id.to_owned(),
        "--workspace".to_owned(),
        workspace,
        "--non-interactive".to_owned(),
    ];
    assert(text::strings(args@) =~= agent_creation(json::text_view(home), agent_id@));
    Some(args)
}

// ── Asking an agent ─────────────────────────────────────────────────────

/// The command that empties the sessions of an agent.
pub open spec fn purge_command(agent_id: Seq<char>) -> Seq<Seq<char>> {
    seq!["sessions"@, "purge"@, "--agent"@, agent_id, "--yes"@]
}

/// The command that cleans the sessions of an agent up, for a version of the
/// program that cannot purge them.
pub open spec fn cleanup_command(agent_id: Seq<char>) -> Seq<Seq<char>> {
    seq!["sessions"@, "cleanup"@, "--agent"@, agent_id]
}

/// The command that puts a prompt to an agent.
pub open spec fn question_command(agent_id: Seq<char>, prompt: Seq<char>) -> Seq<Seq<char>> {
    seq![
        "agent"@,
        "--agent"@,
        agent_id,
        "--message"@,
        prompt,
        "--thinking"@,
        "high"@,
        "--timeout"@,
        "180"@,
    ]
}

/// The command that empties the sessions of an agent before it is asked.
pub fn openclaw_purge(agent_id: &str) -> (r: Vec<String>)
    ensures
        text::strings(r@) == purge_command(agent_id@),
{
    let r: Vec<String> = vec![
        "sessions".to_owned(),
        "purge".to_owned(),
        "--agent".to_owned(),
        agent_id.to_owned(),
        "--yes".to_owned(),
    ];
    assert(text::strings(r@) =~= purge_command(agent_id@));
    r
}

/// The command that cleans up where a purge did not succeed. The session
/// directory of the agent is then emptied as well.
pub fn openclaw_cleanup(purged: bool, agent_id: &str) -> (r: Option<Vec<String>>)
    ensures
        r is None == purged,
        r matches Some(args) ==> text::strings(args@) == cleanup_command(agent_id@),
{
    if purged {
        None
    } else {
        let args: Vec<String> = vec![
            "sessions".to_owned(),
            "cleanup".to_owned(),
            "--agent".to_owned(),
            agent_id.to_owned(),
        ];
        assert(text::strings(args@) =~= cleanup_command(agent_id@));
        Some(args)
    }
}

/// The command that puts a prompt to an agent, with deep thinking and three
/// minutes of time.
pub fn openclaw_question(agent_id: &str, prompt: &str) -> (r: Vec<String>)
    ensures
        text::strings(r@) == question_command(agent_id@, prompt@),
{
    let r: Vec<String> = vec![
        "agent".to_owned(),
        "--agent".to_owned(),
        agent_id.to_owned(),
        "--message".to_owned(),
        prompt.to_owned(),
        "--thinking".to_owned(),
        "high".to_owned(),
        "--timeout".to_owned(),
        "180".to_owned(),
    ];
    assert(text::strings(r@) =~= question_command(agent_id@, prompt@));
    r
}

/// How the program ended that was asked.
pub enum AgentOutcome<S> {
    /// The file for the prompt could not be made.
    NoPromptFile,
    /// The file for the prompt could not be written or read.
    PromptFile(S),
    /// The program could not be started.
    NotStarted,
    /// The program ended.
    Ended { success: bool, code: Option<i32>, stdout: S, stderr: S },
}

/// An outcome as a mathematical value.
pub open spec fn agent_view(outcome: AgentOutcome<String>) -> AgentOutcome<Seq<char>> {
    match outcome {
        AgentOutcome::NoPromptFile => AgentOutcome::NoPromptFile,
        AgentOutcome::PromptFile(e) => AgentOutcome::PromptFile(e@),
        AgentOutcome::NotStarted => AgentOutcome::NotStarted,
        AgentOutcome::Ended { success, code, stdout, stderr } => AgentOutcome::Ended {
            success,
            code,
            stdout: stdout@,
            stderr: stderr@,
        },
    }
}

/// Why the program failed.
pub open spec fn failure(code: Option<i32>, stderr: Seq<char>) -> Seq<char> {
    (if text::has(stderr, "rate limit"@) || text::has(stderr, "429"@) {
        "OpenClaw rate limited (exit "@
    } else {
        "openclaw failed (exit "@
    }) + text::signed_decimal(
        match code {
            Some(n) => n as int,
            None => -1,
        },
    ) + "): "@ + text::trim(stderr)
}

/// What both outputs of the program say.
pub open spec fn combined(stdout: Seq<char>, stderr: Seq<char>) -> Seq<char> {
    text::trim(stdout + "\n"@ + stderr)
}

/// The reply of an agent, or why there is none.
pub open spec fn agent_reply(openclaw_bin: Seq<char>, outcome: AgentOutcome<Seq<char>>) -> Result<
    Seq<char>,
    Seq<char>,
> {
    match outcome {
        AgentOutcome::NoPromptFile => Err("failed to create temp prompt file"@),
        AgentOutcome::PromptFile(e) => Err(e),
        AgentOutcome::NotStarted => Err("failed to execute openclaw at "@ + openclaw_bin),
        AgentOutcome::Ended { success, code, stdout, stderr } => if !success {
            Err(failure(code, stderr))
        } else if text::trim(combined(stdout, stderr)).len() == 0 {
            Err("openclaw returned empty response"@)
        } else {
            Ok(combined(stdout, stderr))
        },
    }
}

fn failure_of(code: Option<i32>, stderr: &str) -> (r: String)
    ensures
        r@ == failure(code, stderr@),
{
    let mut out = if text::contains(stderr, "rate limit") || text::contains(stderr, "429") {
        "OpenClaw rate limited (exit ".to_owned()
    } else {
        "openclaw failed (exit ".to_owned()
    };
    let number: i32 = match code {
        Some(n) => n,
        None => -1,
    };
    out.append(text::signed_decimal_of(number as i64).as_str());
    out.append("): ");
    let chars = text::chars_of(stderr);
    out.append(text::string_of(text::trim_of(chars.as_slice())).as_str());
    out
}

/// The reply of an agent: what the program wrote to both its outputs, or why
/// there is none.
pub fn openclaw_reply(openclaw_bin: &str, outcome: AgentOutcome<String>) -> (r: Result<
    String,
    String,
>)
    ensures
        llm::reply_view(r) == agent_reply(openclaw_bin@, agent_view(outcome)),
{
    match outcome {
        AgentOutcome::NoPromptFile => Err("failed to create temp prompt file".to_owned()),
        AgentOutcome::PromptFile(e) => Err(e),
        AgentOutcome::NotStarted => {
            let mut e = "failed to execute openclaw at ".to_owned();
            e.append(openclaw_bin);
            Err(e)
        },
        AgentOutcome::Ended { success, code, stdout, stderr } => {
            if !success {
                return Err(failure_of(code, stderr.as_str()));
            }
            let mut both = stdout;
            both.append("\n");
            both.append(stderr.as_str());
            let chars = text::chars_of(both.as_str());
            let words = text::trim_of(chars.as_slice());
            if text::trim_of(words).len() == 0 {
                Err("openclaw returned empty response".to_owned())
            } else {
                Ok(text::string_of(words))
            }
        },
    }
}

/// The parts of a text are what stands between its separators: the first part
/// of a text around a separator is what stands before the first one, and the
/// others are the parts of what stands behind it. A text without a separator
/// is one part.
pub proof fn parts_are_between_separators(front: Seq<char>, separator: char, back: Seq<char>)
    requires
        !front.contains(separator),
    ensures
        parts(front + seq![separator] + back, separator) == seq![front] + parts(back, separator),
        parts(front, separator) == seq![front],
{
    let whole = front + seq![separator] + back;
    let at = front.len() as int;
    text::find_char_is_first(front, separator);
    text::find_char_is_first(whole, separator);
    assert(whole[at] == separator);
    assert forall|j: int| 0 <= j < at implies whole[j] != separator by {
        assert(whole[j] == front[j]);
    }
    assert(text::find_char(whole, separator) == Some(at));
    assert(whole.take(at) =~= front);
    assert(whole.skip(at + 1) =~= back);
}

/// The program is looked for under its names on the search path first, then in
/// its files, in order: the first that is present is taken, and none where
/// none is.
pub proof fn first_present_is_taken(items: Seq<Seq<char>>, present: Seq<bool>, i: int)
    requires
        items.len() == present.len(),
    ensures
        0 <= i < items.len() && present[i] && (forall|j: int| 0 <= j < i ==> !#[trigger] present[j])
            ==> first_present(items, present, 0) == Some(items[i]),
        (forall|j: int| 0 <= j < items.len() ==> !#[trigger] present[j]) ==> first_present(
            items,
            present,
            0,
        ) is None,
{
    lemma_first_present(items, present, 0, i);
}

proof fn lemma_first_present(items: Seq<Seq<char>>, present: Seq<bool>, from: int, i: int)
    requires
        items.len() == present.len(),
        0 <= from,
    ensures
        from <= i < items.len() && present[i] && (forall|j: int|
            from <= j < i ==> !#[trigger] present[j]) ==> first_present(items, present, from)
            == Some(items[i]),
        (forall|j: int| from <= j < items.len() ==> !#[trigger] present[j]) ==> first_present(
            items,
            present,
            from,
        ) is None,
    decreases items.len() - from,
{
    if from < items.len() {
        lemma_first_present(items, present, from + 1, i);
        if !present[from] {
            assert(first_present(items, present, from) == first_present(items, present, from + 1));
        }
    }
}

/// The commands for an agent name it: its sessions are purged without a
/// question, or else cleaned up, the prompt is put to it with high thinking
/// and 180 seconds of time, and it is made, in a workspace of its own below
/// the home directory, or below `/tmp` where there is none.
pub proof fn commands_name_the_agent(
    home: Option<Seq<char>>,
    agent_id: Seq<char>,
    prompt: Seq<char>,
)
    ensures
        purge_command(agent_id) == seq!["sessions"@, "purge"@, "--agent"@, agent_id, "--yes"@],
        cleanup_command(agent_id) == seq!["sessions"@, "cleanup"@, "--agent"@, agent_id],
        question_command(agent_id, prompt) == seq![
            "agent"@,
            "--agent"@,
            agent_id,
            "--message"@,
            prompt,
            "--thinking"@,
            "high"@,
            "--timeout"@,
            "180"@,
        ],
        agent_creation(home, agent_id).len() == 6,
        agent_creation(home, agent_id)[2] == agent_id,
        home matches Some(h) ==> agent_creation(home, agent_id)[4] == h
            + "/.openclaw/workspace-"@ + agent_id,
        home is None ==> agent_creation(home, agent_id)[4] == "/tmp"@ + "/.openclaw/workspace-"@
            + agent_id,
        agent_creation(home, agent_id)[0] == "agents"@,
        agent_creation(home, agent_id)[1] == "add"@,
        agent_creation(home, agent_id)[3] == "--workspace"@,
        agent_creation(home, agent_id)[5] == "--non-interactive"@,
{
}

/// The program is looked for by three names on the search path, and in three
/// files, two of them below the home directory.
pub proof fn program_has_three_names_and_files(home: Seq<char>)
    ensures
        program_names() == seq!["openclaw"@, "openclaw.mjs"@, "openclaw.cmd"@],
        program_files(home).len() == 3,
        program_files(home)[0] == home + "/.local/bin/openclaw"@,
        program_files(home)[1] == home + "/.npm-global/bin/openclaw"@,
        program_files(home)[2] == "/usr/local/bin/openclaw"@,
{
}

/// The reply of an agent that ended well is what stands in its two outputs,
/// trimmed, and nothing is no reply. An agent that failed is told with its
/// exit code, -1 where it has none, and with what it said, and a rate limit is
/// told apart.
pub proof fn replies_of_agents_are_read(
    bin: Seq<char>,
    code: Option<i32>,
    stdout: Seq<char>,
    stderr: Seq<char>,
)
    ensures
        ({
            let both = text::trim(stdout + "\n"@ + stderr);
            let well = agent_reply(
                bin,
                AgentOutcome::Ended { success: true, code, stdout, stderr },
            );
            let badly = agent_reply(
                bin,
                AgentOutcome::Ended { success: false, code, stdout, stderr },
            );
            let limited = text::has(stderr, "rate limit"@) || text::has(stderr, "429"@);
            let rest = text::signed_decimal(
                match code {
                    Some(n) => n as int,
                    None => -1,
                },
            ) + "): "@ + text::trim(stderr);
            &&& text::trim(both).len() > 0 ==> well == Ok::<Seq<char>, Seq<char>>(both)
            &&& text::trim(both).len() == 0 ==> well == Err::<Seq<char>, Seq<char>>(
                "openclaw returned empty response"@,
            )
            &&& limited ==> badly == Err::<Seq<char>, Seq<char>>(
                "OpenClaw rate limited (exit "@ + rest,
            )
            &&& !limited ==> badly == Err::<Seq<char>, Seq<char>>("openclaw failed (exit "@ + rest)
            &&& agent_reply(bin, AgentOutcome::NotStarted) == Err::<Seq<char>, Seq<char>>(
                "failed to execute openclaw at "@ + bin,
            )
            &&& agent_reply(bin, AgentOutcome::NoPromptFile) == Err::<Seq<char>, Seq<char>>(
                "failed to create temp prompt file"@,
            )
            &&& agent_reply(bin, AgentOutcome::PromptFile(stderr)) == Err::<Seq<char>, Seq<char>>(
                stderr,
            )
        }),
{
    let number = text::signed_decimal(
        match code {
            Some(n) => n as int,
            None => -1,
        },
    );
    let said = text::trim(stderr);
    assert("OpenClaw rate limited (exit "@ + number + "): "@ + said
        =~= "OpenClaw rate limited (exit "@ + (number + "): "@ + said));
    assert("openclaw failed (exit "@ + number + "): "@ + said =~= "openclaw failed (exit "@ + (
    number + "): "@ + said));
}

} // verus!
