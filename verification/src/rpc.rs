//! The decisions of the JSON-RPC 2.0 server: which reply a request gets, and
//! when the server stops. Reading requests, reading the ledger and writing
//! replies are the caller's.
use vstd::prelude::*;
use vstd::string::*;

use crate::entry::LedgerEntry;
use crate::rank::{hot_repos, is_hot_repos_of};
use crate::error::LedgerError;
use crate::report::{is_report_at, is_report_now, report, report_at, rows_view, ReportRow};
use crate::select::opt_view;
use crate::stats::{aggregate_fits, RepoStats};
use crate::text::{text_eq, trim_text, trimmed};

verus! {

/// A request line, as far as the server reads it.
pub struct RpcRequest {
    /// The request's `id`, as JSON text (`null` when it has none).
    pub id: String,
    /// The `method`, empty when it is absent or not a string.
    pub method: String,
    /// `params.repo`, when it is a string.
    pub repo: Option<String>,
    /// `params.since`, when it is an unsigned integer.
    pub since: Option<u64>,
    /// `params.top`, when it is an unsigned integer.
    pub top: Option<u64>,
}

/// What a successful reply carries.
pub enum RpcResult {
    ServerInfo { name: String, version: String },
    Null,
    Report(Vec<ReportRow>),
    HotRepos(Vec<(String, RepoStats)>),
}

/// The body of a reply: a result or an error.
pub enum RpcBody {
    Result(RpcResult),
    Error { code: i64, message: String },
}

/// A reply to one request, echoing its `id` (as JSON text).
pub struct RpcResponse {
    pub id: String,
    pub body: RpcBody,
}

/// A question about the ledger that a request asks.
pub enum LedgerQuery {
    Report { repo: Option<String>, since: Option<u64> },
    HotRepos { top: u64 },
}

/// What the server does with one request.
pub enum RpcStep {
    /// Write the reply and read the next request.
    Reply(RpcResponse),
    /// Write the reply and stop.
    Finish(RpcResponse),
    /// Read the ledger, answer the query, write the answer under `id`.
    Consult { id: String, query: LedgerQuery },
}

/// How many repositories `careen/hot-repos` lists when `top` is not given.
pub const DEFAULT_TOP: u64 = 10;

/// The JSON-RPC code for a request line that is not JSON.
pub const PARSE_ERROR: i64 = -32700;

/// The JSON-RPC code for an unknown method.
pub const METHOD_NOT_FOUND: i64 = -32601;

/// The reply to a line that is not JSON: error `-32700`, id `null`.
pub fn parse_error_response() -> (r: RpcResponse)
    ensures
        r.id@ == "null"@,
        r.body matches RpcBody::Error { code, message } && code == PARSE_ERROR && message@
            == "Parse error"@,
{
    RpcResponse {
        id: String::from_str("null"),
        body: RpcBody::Error { code: PARSE_ERROR, message: String::from_str("Parse error") },
    }
}

/// What the server does with `req`, `version` being the version it reports.
pub open spec fn is_step_for(s: RpcStep, req: RpcRequest, version: Seq<char>) -> bool {
    if req.method@ == "initialize"@ {
        match s {
            RpcStep::Reply(resp) => resp.id@ == req.id@ && match resp.body {
                RpcBody::Result(RpcResult::ServerInfo { name, version: v }) => name@
                    == "careen-ledger"@ && v@ == version,
                _ => false,
            },
            _ => false,
        }
    } else if req.method@ == "shutdown"@ {
        match s {
            RpcStep::Finish(resp) => resp.id@ == req.id@ && resp.body is Result && resp.body->Result_0 is Null,
            _ => false,
        }
    } else if req.method@ == "careen/report"@ {
        match s {
            RpcStep::Consult { id, query: LedgerQuery::Report { repo, since } } => id@ == req.id@
                && repo == req.repo && since == req.since,
            _ => false,
        }
    } else if req.method@ == "careen/hot-repos"@ {
        match s {
            RpcStep::Consult { id, query: LedgerQuery::HotRepos { top } } => id@ == req.id@ && top
                == match req.top {
                Some(t) => t,
                None => DEFAULT_TOP,
            },
            _ => false,
        }
    } else {
        match s {
            RpcStep::Reply(resp) => resp.id@ == req.id@ && match resp.body {
                RpcBody::Error { code, message } => code == METHOD_NOT_FOUND && message@
                    == "Method not found"@,
                _ => false,
            },
            _ => false,
        }
    }
}

/// Decides what to do with one request.
pub fn plan_request(req: RpcRequest, version: &str) -> (r: RpcStep)
    ensures
        is_step_for(r, req, version@),
{
    let ghost original = req;
    let RpcRequest { id, method, repo, since, top } = req;
    if text_eq(method.as_str(), "initialize") {
        RpcStep::Reply(
            RpcResponse {
                id,
                body: RpcBody::Result(
                    RpcResult::ServerInfo {
                        name: String::from_str("careen-ledger"),
                        version: String::from_str(version),
                    },
                ),
            },
        )
    } else if text_eq(method.as_str(), "shutdown") {
        RpcStep::Finish(RpcResponse { id, body: RpcBody::Result(RpcResult::Null) })
    } else if text_eq(method.as_str(), "careen/report") {
        RpcStep::Consult { id, query: LedgerQuery::Report { repo, since } }
    } else if text_eq(method.as_str(), "careen/hot-repos") {
        let top = match top {
            Some(t) => t,
            None => DEFAULT_TOP,
        };
        RpcStep::Consult { id, query: LedgerQuery::HotRepos { top } }
    } else {
        RpcStep::Reply(
            RpcResponse {
                id,
                body: RpcBody::Error {
                    code: METHOD_NOT_FOUND,
                    message: String::from_str("Method not found"),
                },
            },
        )
    }
}

/// The view of an optional owned text.
pub open spec fn opt_string_view(t: Option<String>) -> Option<Seq<char>> {
    match t {
        Some(s) => Some(s@),
        None => None,
    }
}

/// The report rows a reply carries, as a report result: `None` when the
/// reply is a success that carries no report.
pub open spec fn reply_rows(r: Result<RpcResponse, LedgerError>) -> Option<
    Result<Seq<ReportRow>, LedgerError>,
> {
    match r {
        Ok(resp) => match resp.body {
            RpcBody::Result(RpcResult::Report(rows)) => Some(Ok(rows@)),
            _ => None,
        },
        Err(e) => Some(Err(e)),
    }
}

/// Answers the hot-repos query: the ranking over `entries`.
fn answer_hot_repos(id: String, top: u64, entries: &Vec<LedgerEntry>) -> (r: Result<
    RpcResponse,
    LedgerError,
>)
    ensures
        r matches Ok(resp) ==> resp.id == id,
        r is Ok <==> aggregate_fits(entries@),
        r matches Ok(resp) ==> (resp.body matches RpcBody::Result(RpcResult::HotRepos(v))
            && is_hot_repos_of(v@, entries@, top)),
        r matches Err(e) ==> e == LedgerError::TotalsOverflow,
{
    let ranked = hot_repos(entries, top)?;
    Ok(RpcResponse { id, body: RpcBody::Result(RpcResult::HotRepos(ranked)) })
}

/// Wraps a report result into a reply under `id`.
fn report_reply(id: String, outcome: Result<Vec<ReportRow>, LedgerError>) -> (r: Result<
    RpcResponse,
    LedgerError,
>)
    ensures
        r matches Ok(resp) ==> resp.id == id,
        reply_rows(r) == Some(rows_view(outcome)),
{
    match outcome {
        Ok(rows) => Ok(RpcResponse { id, body: RpcBody::Result(RpcResult::Report(rows)) }),
        Err(e) => Err(e),
    }
}

/// The name of an optional owned text, borrowed.
fn borrow_name(repo: &Option<String>) -> (r: Option<&str>)
    ensures
        opt_view(r) == opt_string_view(*repo),
{
    match repo {
        Some(s) => Some(s.as_str()),
        None => None,
    }
}

/// Answers a ledger query over `entries` under the request id `id`, with the
/// clock reading `(secs, nanos)` for a report's `since` bound.
pub fn answer_query_at(
    id: String,
    query: LedgerQuery,
    entries: Vec<LedgerEntry>,
    secs: i64,
    nanos: u32,
) -> (r: Result<RpcResponse, LedgerError>)
    ensures
        r matches Ok(resp) ==> resp.id == id,
        query matches LedgerQuery::HotRepos { top } ==> {
            &&& r is Ok <==> aggregate_fits(entries@)
            &&& r matches Ok(resp) ==> (resp.body matches RpcBody::Result(RpcResult::HotRepos(v))
                && is_hot_repos_of(v@, entries@, top))
            &&& r matches Err(e) ==> e == LedgerError::TotalsOverflow
        },
        query matches LedgerQuery::Report { repo, since } ==> (reply_rows(r) matches Some(out)
            && is_report_at(out, entries@, opt_string_view(repo), since, secs, nanos)),
{
    match query {
        LedgerQuery::HotRepos { top } => answer_hot_repos(id, top, &entries),
        LedgerQuery::Report { repo, since } => {
            let name = borrow_name(&repo);
            report_reply(id, report_at(entries, name, since, secs, nanos))
        },
    }
}

/// Answers a ledger query over `entries` under the request id `id`; a
/// report with a `since` bound reads the clock.
pub fn answer_query(id: String, query: LedgerQuery, entries: Vec<LedgerEntry>) -> (r: Result<
    RpcResponse,
    LedgerError,
>)
    ensures
        r matches Ok(resp) ==> resp.id == id,
        query matches LedgerQuery::HotRepos { top } ==> {
            &&& r is Ok <==> aggregate_fits(entries@)
            &&& r matches Ok(resp) ==> (resp.body matches RpcBody::Result(RpcResult::HotRepos(v))
                && is_hot_repos_of(v@, entries@, top))
            &&& r matches Err(e) ==> e == LedgerError::TotalsOverflow
        },
        query matches LedgerQuery::Report { repo, since } ==> (reply_rows(r) matches Some(out)
            && is_report_now(out, entries@, opt_string_view(repo), since)),
{
    match query {
        LedgerQuery::HotRepos { top } => answer_hot_repos(id, top, &entries),
        LedgerQuery::Report { repo, since } => {
            let name = borrow_name(&repo);
            report_reply(id, report(entries, name, since))
        },
    }
}

/// What the server reads of a request: its `id` as JSON text, its `method`,
/// and `params.repo`, `params.since` and `params.top`.
pub open spec fn request_view(q: RpcRequest) -> (
    Seq<char>,
    Seq<char>,
    Option<Seq<char>>,
    Option<u64>,
    Option<u64>,
) {
    (q.id@, q.method@, opt_string_view(q.repo), q.since, q.top)
}

/// The request that a line of JSON text holds, as `request_view` reads it;
/// `None` when the line is not JSON.
pub uninterp spec fn json_rpc_request(line: Seq<char>) -> Option<
    (Seq<char>, Seq<char>, Option<Seq<char>>, Option<u64>, Option<u64>),
>;

/// Parses the line with serde_json's `from_str` into a `serde_json::Value`
/// and picks the request's fields: `id` written back as JSON text (`null`
/// when absent), `method` when it is a string (else empty), and
/// `params.repo` as a string, `params.since` and `params.top` as unsigned
/// integers. The contract claims only that the result is `json_rpc_request`
/// of the line: how JSON is parsed is serde_json's and is not stated.
#[verifier::external_body]
pub(crate) fn parse_request_line(line: &str) -> (r: Option<RpcRequest>)
    ensures
        r is Some <==> json_rpc_request(line@) is Some,
        r matches Some(q) ==> json_rpc_request(line@) == Some(request_view(q)),
{
    let req: serde_json::Value = serde_json::from_str(line).ok()?;
    let params = req.get("params");
    Some(RpcRequest {
        id: req.get("id").cloned().unwrap_or(serde_json::Value::Null).to_string(),
        method: req.get("method").and_then(|m| m.as_str()).unwrap_or("").to_string(),
        repo: params.and_then(|p| p.get("repo")).and_then(|t| t.as_str()).map(|t| t.to_string()),
        since: params.and_then(|p| p.get("since")).and_then(|n| n.as_u64()),
        top: params.and_then(|p| p.get("top")).and_then(|n| n.as_u64()),
    })
}

/// `resp` is the reply to a line that is not JSON.
pub open spec fn is_parse_error_reply(resp: RpcResponse) -> bool {
    &&& resp.id@ == "null"@
    &&& resp.body matches RpcBody::Error { code, message } && code == PARSE_ERROR && message@
        == "Parse error"@
}

/// What the server does with one line read from its input, `version` being
/// the version it reports: nothing for a line of white space; the parse
/// error reply for a line that is not JSON; otherwise the step for the
/// request the line holds.
pub fn serve_line(line: &str, version: &str) -> (r: Option<RpcStep>)
    ensures
        r is None <==> trimmed(line@).len() == 0,
        r matches Some(step) ==> match json_rpc_request(trimmed(line@)) {
            None => step matches RpcStep::Reply(resp) && is_parse_error_reply(resp),
            Some(v) => exists|q: RpcRequest|
                #![trigger is_step_for(step, q, version@)]
                request_view(q) == v && is_step_for(step, q, version@),
        },
{
    let text = trim_text(line);
    if text.unicode_len() == 0 {
        return None;
    }
    match parse_request_line(text) {
        None => Some(RpcStep::Reply(parse_error_response())),
        Some(req) => {
            let ghost q = req;
            let step = plan_request(req, version);
            assert(is_step_for(step, q, version@));
            Some(step)
        },
    }
}

} // verus!
