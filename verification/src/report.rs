//! Reports: what a command tells its caller, for a person to read and for an
//! agent to act on.
use crate::json;
use crate::json::Json;
use crate::json::JsonView;
use vstd::prelude::*;

verus! {

/// One of the things that a user can choose. `S` is the type of texts.
#[derive(Debug)]
pub struct Choice<S> {
    pub key: S,
    pub label: S,
    pub description: S,
    pub command: Option<S>,
}

/// A choice as a mathematical value.
pub open spec fn choice_view(choice: Choice<String>) -> Choice<Seq<char>> {
    Choice {
        key: choice.key@,
        label: choice.label@,
        description: choice.description@,
        command: json::opt_view(choice.command),
    }
}

/// A list of choices as mathematical values.
pub open spec fn choice_views(list: Seq<Choice<String>>) -> Seq<Choice<Seq<char>>> {
    list.map_values(|choice: Choice<String>| choice_view(choice))
}

/// What an agent is to do next. `S` is the type of texts, `C` that of lists of
/// choices.
#[derive(Debug)]
pub struct Internal<S, C> {
    pub next_action: S,
    pub next_command: Option<S>,
    pub wait_seconds: Option<u64>,
    pub progress: Option<S>,
    pub options: Option<C>,
}

/// What an agent is to do next, as a mathematical value.
pub open spec fn internal_view(internal: Internal<String, Vec<Choice<String>>>) -> Internal<
    Seq<char>,
    Seq<Choice<Seq<char>>>,
> {
    Internal {
        next_action: internal.next_action@,
        next_command: json::opt_view(internal.next_command),
        wait_seconds: internal.wait_seconds,
        progress: json::opt_view(internal.progress),
        options: match internal.options {
            Some(list) => Some(choice_views(list@)),
            None => None,
        },
    }
}

/// What a command tells its caller. `J` is the type of JSON values.
#[derive(Debug)]
pub enum Report<S, J, C> {
    Success { message: S, data: J, internal: Internal<S, C> },
    Failure {
        message: S,
        code: S,
        category: S,
        /// Whether the same command may succeed later.
        retryable: bool,
        suggestion: S,
        debug: J,
        internal: Internal<S, C>,
    },
}

/// A report as a mathematical value.
pub open spec fn report_view(report: Report<String, Json, Vec<Choice<String>>>) -> Report<
    Seq<char>,
    JsonView,
    Seq<Choice<Seq<char>>>,
> {
    match report {
        Report::Success { message, data, internal } => Report::Success {
            message: message@,
            data: data@,
            internal: internal_view(internal),
        },
        Report::Failure {
            message,
            code,
            category,
            retryable,
            suggestion,
            debug,
            internal,
        } => Report::Failure {
            message: message@,
            code: code@,
            category: category@,
            retryable,
            suggestion: suggestion@,
            debug: debug@,
            internal: internal_view(internal),
        },
    }
}

/// What to do next: an action, a command, and where things stand.
pub open spec fn guide(
    next_action: Seq<char>,
    next_command: Seq<char>,
    wait_seconds: Option<u64>,
    progress: Option<Seq<char>>,
) -> Internal<Seq<char>, Seq<Choice<Seq<char>>>> {
    Internal {
        next_action,
        next_command: Some(next_command),
        wait_seconds,
        progress,
        options: None,
    }
}

pub(crate) fn guide_of(
    next_action: &str,
    next_command: &str,
    wait_seconds: Option<u64>,
    progress: Option<&str>,
) -> (r: Internal<String, Vec<Choice<String>>>)
    ensures
        internal_view(r) == guide(
            next_action@,
            next_command@,
            wait_seconds,
            match progress {
                Some(p) => Some(p@),
                None => None,
            },
        ),
{
    Internal {
        next_action: next_action.to_owned(),
        next_command: Some(next_command.to_owned()),
        wait_seconds,
        progress: match progress {
            Some(p) => Some(p.to_owned()),
            None => None,
        },
        options: None,
    }
}

} // verus!
