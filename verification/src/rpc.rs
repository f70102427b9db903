//! The request handling of the test-control endpoint: a JSON-RPC 2.0
//! line protocol through which a test driver reads the published view tree
//! and queues commands for the application.
//!
//! `handle_line` reads a request line's fields with serde_json and
//! `handle_request` decides the reply and the command to queue.
use vstd::prelude::*;

use crate::models::opt_text;
use crate::text::same_text;

verus! {

/// A command queued for the application by the test driver.
#[derive(Debug)]
pub enum TestCommand {
    SelectRepo(usize),
    ToggleRepo(usize),
    SelectSubmodule { repo_index: usize, submodule_index: usize },
    SetTab(String),
    SetLogView(String),
}

/// A command, with its texts as character sequences.
pub enum TestCommandView {
    SelectRepo(usize),
    ToggleRepo(usize),
    SelectSubmodule { repo_index: usize, submodule_index: usize },
    SetTab(Seq<char>),
    SetLogView(Seq<char>),
}

impl View for TestCommand {
    type V = TestCommandView;

    open spec fn view(&self) -> TestCommandView {
        match self {
            TestCommand::SelectRepo(i) => TestCommandView::SelectRepo(*i),
            TestCommand::ToggleRepo(i) => TestCommandView::ToggleRepo(*i),
            TestCommand::SelectSubmodule { repo_index, submodule_index } => TestCommandView::SelectSubmodule {
                repo_index: *repo_index,
                submodule_index: *submodule_index,
            },
            TestCommand::SetTab(t) => TestCommandView::SetTab(t@),
            TestCommand::SetLogView(v) => TestCommandView::SetLogView(v@),
        }
    }
}

/// What a decoded request carries: whether it has an `id`, its `method`
/// when that is a string, `params.index` when that is an unsigned integer
/// and `params.tab` when that is a string.
pub struct RpcRequest {
    pub has_id: bool,
    pub method: Option<String>,
    pub index: Option<u64>,
    pub tab: Option<String>,
}

/// How a request is answered.
pub enum RpcOutcome {
    /// A notification (no `id`): nothing is sent back.
    Silent,
    /// The reply carries the most recently published view tree.
    ViewTree,
    /// The command is queued and the reply's result is `"ok"`.
    Queued(TestCommand),
    /// An error reply with this code and message.
    Failure(i64, String),
}

pub enum RpcOutcomeView {
    Silent,
    ViewTree,
    Queued(TestCommandView),
    Failure(int, Seq<char>),
}

impl View for RpcOutcome {
    type V = RpcOutcomeView;

    open spec fn view(&self) -> RpcOutcomeView {
        match self {
            RpcOutcome::Silent => RpcOutcomeView::Silent,
            RpcOutcome::ViewTree => RpcOutcomeView::ViewTree,
            RpcOutcome::Queued(c) => RpcOutcomeView::Queued(c@),
            RpcOutcome::Failure(code, message) => RpcOutcomeView::Failure(*code as int, message@),
        }
    }
}

pub const PARSE_ERROR: i64 = -32700;
pub const INVALID_REQUEST: i64 = -32600;
pub const METHOD_NOT_FOUND: i64 = -32601;
pub const INVALID_PARAMS: i64 = -32602;

/// The fields of a decoded request as plain values: whether it has an `id`,
/// its `method`, `params.index` and `params.tab`.
pub open spec fn request_fields(request: Option<RpcRequest>) -> Option<(bool, Option<Seq<char>>, Option<u64>, Option<Seq<char>>)> {
    match request {
        None => None,
        Some(r) => Some((r.has_id, opt_text(r.method), r.index, opt_text(r.tab))),
    }
}

/// The answer to a request with these fields; `None` for a line that is
/// not JSON.
pub open spec fn fields_outcome(fields: Option<(bool, Option<Seq<char>>, Option<u64>, Option<Seq<char>>)>) -> RpcOutcomeView {
    match fields {
        None => RpcOutcomeView::Failure(PARSE_ERROR as int, "Parse error"@),
        Some((has_id, method, index, tab)) => if !has_id {
            RpcOutcomeView::Silent
        } else {
            match method {
                None => RpcOutcomeView::Failure(INVALID_REQUEST as int, "Invalid Request"@),
                Some(m) => if m == "get_view_tree"@ {
                    RpcOutcomeView::ViewTree
                } else if m == "select_repo"@ {
                    match index {
                        Some(i) => RpcOutcomeView::Queued(TestCommandView::SelectRepo(i as usize)),
                        None => RpcOutcomeView::Failure(INVALID_PARAMS as int, "Missing params.index"@),
                    }
                } else if m == "set_tab"@ {
                    match tab {
                        Some(t) => RpcOutcomeView::Queued(TestCommandView::SetTab(t)),
                        None => RpcOutcomeView::Failure(INVALID_PARAMS as int, "Missing params.tab"@),
                    }
                } else {
                    RpcOutcomeView::Failure(METHOD_NOT_FOUND as int, "Method not found"@)
                },
            }
        },
    }
}

/// The answer to a decoded request: `None` when the line is not JSON.
pub open spec fn rpc_outcome(request: Option<RpcRequest>) -> RpcOutcomeView {
    fields_outcome(request_fields(request))
}

/// What serde_json reads from a request line: `None` when the line is not
/// JSON; else whether the value has an `id`, its `method` when that is a
/// string, `params.index` when that is an unsigned integer that fits `u64`,
/// and `params.tab` when that is a string.
pub uninterp spec fn json_request(line: Seq<char>) -> Option<(bool, Option<Seq<char>>, Option<u64>, Option<Seq<char>>)>;

/// `serde_json::from_str::<serde_json::Value>` on the line, then the
/// value's `id`, `method`, `params.index` and `params.tab` read with
/// `Value::get`, `as_str` and `as_u64`. What it reads is left to the name.
#[verifier::external_body]
fn decode_request(line: &str) -> (request: Option<RpcRequest>)
    ensures
        request_fields(request) == json_request(line@),
{
    let value: serde_json::Value = serde_json::from_str(line).ok()?;
    let params = value.get("params");
    Some(RpcRequest {
        has_id: value.get("id").is_some(),
        method: value.get("method").and_then(|m| m.as_str()).map(String::from),
        index: params.and_then(|p| p.get("index")).and_then(|i| i.as_u64()),
        tab: params.and_then(|p| p.get("tab")).and_then(|t| t.as_str()).map(String::from),
    })
}

/// Decides how a raw request line is answered and which command it queues.
pub fn handle_line(line: &str) -> (outcome: RpcOutcome)
    ensures
        outcome@ == fields_outcome(json_request(line@)),
{
    handle_request(decode_request(line))
}

fn failure(code: i64, message: &str) -> (outcome: RpcOutcome)
    ensures
        outcome@ == RpcOutcomeView::Failure(code as int, message@),
{
    let mut text = String::new();
    crate::text::push_str(&mut text, message);
    assert(text@ =~= message@);
    RpcOutcome::Failure(code, text)
}

/// Decides how a request line is answered and which command it queues.
pub fn handle_request(request: Option<RpcRequest>) -> (outcome: RpcOutcome)
    ensures
        outcome@ == rpc_outcome(request),
{
    let r = match request {
        None => return failure(PARSE_ERROR, "Parse error"),
        Some(r) => r,
    };
    if !r.has_id {
        return RpcOutcome::Silent;
    }
    let method = match r.method {
        None => return failure(INVALID_REQUEST, "Invalid Request"),
        Some(m) => m,
    };
    if same_text(method.as_str(), "get_view_tree") {
        RpcOutcome::ViewTree
    } else if same_text(method.as_str(), "select_repo") {
        match r.index {
            Some(i) => RpcOutcome::Queued(TestCommand::SelectRepo(i as usize)),
            None => failure(INVALID_PARAMS, "Missing params.index"),
        }
    } else if same_text(method.as_str(), "set_tab") {
        match r.tab {
            Some(t) => RpcOutcome::Queued(TestCommand::SetTab(t)),
            None => failure(INVALID_PARAMS, "Missing params.tab"),
        }
    } else {
        failure(METHOD_NOT_FOUND, "Method not found")
    }
}

/// A request without an `id` is a notification and gets no reply; every
/// other line, including one that is not JSON, gets exactly one reply.
pub proof fn only_notifications_go_unanswered(request: Option<RpcRequest>)
    ensures
        (rpc_outcome(request) is Silent) == (request matches Some(r) && !r.has_id),
{
}

/// Only `select_repo` and `set_tab` queue a command for the application.
pub proof fn only_two_methods_queue_commands(request: Option<RpcRequest>)
    ensures
        rpc_outcome(request) is Queued ==> (request matches Some(r) && r.has_id && (r.method matches Some(m) && (m@
            == "select_repo"@ || m@ == "set_tab"@))),
{
}

} // verus!
