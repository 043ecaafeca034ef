use careen_ledger::entry::{record_sweep, sweep_entry_at};
use careen_ledger::error::LedgerError;
use careen_ledger::rpc::{answer_query, answer_query_at, serve_line, parse_error_response, plan_request, LedgerQuery, RpcBody, RpcRequest, RpcResult, RpcStep};

fn request(method: &str) -> RpcRequest {
    RpcRequest { id: "7".to_string(), method: method.to_string(), repo: None, since: None, top: None }
}

#[test]
fn initialize_reports_name_and_version() {
    match plan_request(request("initialize"), "1.2.3") {
        RpcStep::Reply(resp) => {
            assert_eq!(resp.id, "7");
            match resp.body {
                RpcBody::Result(RpcResult::ServerInfo { name, version }) => {
                    assert_eq!(name, "careen-ledger");
                    assert_eq!(version, "1.2.3");
                }
                _ => panic!("expected server info"),
            }
        }
        _ => panic!("expected a reply"),
    }
}

#[test]
fn shutdown_finishes() {
    match plan_request(request("shutdown"), "0") {
        RpcStep::Finish(resp) => assert!(matches!(resp.body, RpcBody::Result(RpcResult::Null))),
        _ => panic!("expected finish"),
    }
}

#[test]
fn unknown_method_and_parse_error() {
    match plan_request(request("careen/nope"), "0") {
        RpcStep::Reply(resp) => match resp.body {
            RpcBody::Error { code, message } => {
                assert_eq!(code, -32601);
                assert_eq!(message, "Method not found");
            }
            _ => panic!("expected error"),
        },
        _ => panic!("expected a reply"),
    }
    let resp = parse_error_response();
    assert_eq!(resp.id, "null");
    match resp.body {
        RpcBody::Error { code, message } => {
            assert_eq!(code, -32700);
            assert_eq!(message, "Parse error");
        }
        _ => panic!("expected error"),
    }
}

#[test]
fn hot_repos_defaults_to_ten_and_report_passes_params() {
    match plan_request(request("careen/hot-repos"), "0") {
        RpcStep::Consult { id, query: LedgerQuery::HotRepos { top } } => {
            assert_eq!(id, "7");
            assert_eq!(top, 10);
        }
        _ => panic!("expected a ledger query"),
    }
    let mut req = request("careen/report");
    req.repo = Some("r".to_string());
    req.since = Some(3);
    match plan_request(req, "0") {
        RpcStep::Consult { query: LedgerQuery::Report { repo, since }, .. } => {
            assert_eq!(repo.as_deref(), Some("r"));
            assert_eq!(since, Some(3));
        }
        _ => panic!("expected a ledger query"),
    }
}

#[test]
fn answers_report_and_hot_repos() {
    let entries = vec![record_sweep("b", "/b", 2).expect("clock"), record_sweep("a", "/a", 1).expect("clock")];
    let resp = answer_query("1".to_string(), LedgerQuery::Report { repo: None, since: None }, entries).expect("answer");
    match resp.body {
        RpcBody::Result(RpcResult::Report(rows)) => {
            assert_eq!(rows.len(), 2);
            assert_eq!(rows[0].repo, "a");
        }
        _ => panic!("expected a report"),
    }
    let entries = vec![record_sweep("b", "/b", 2).expect("clock"), record_sweep("a", "/a", 1).expect("clock")];
    let resp = answer_query("1".to_string(), LedgerQuery::HotRepos { top: 1 }, entries).expect("answer");
    match resp.body {
        RpcBody::Result(RpcResult::HotRepos(v)) => assert_eq!(v.len(), 1),
        _ => panic!("expected hot repos"),
    }
}

#[test]
fn answers_report_with_a_window_at_a_reading() {
    // 2024-05-08T00:00:00Z
    let now: i64 = 1_715_126_400;
    let entries = vec![
        sweep_entry_at("2024-04-01T00:00:00+00:00".to_string(), "old", "/o", 1),
        sweep_entry_at("2024-05-06T00:00:00+00:00".to_string(), "new", "/n", 2),
    ];
    let q = LedgerQuery::Report { repo: None, since: Some(7) };
    let resp = answer_query_at("7".to_string(), q, entries.clone(), now, 0).expect("answer");
    assert_eq!(resp.id, "7");
    match resp.body {
        RpcBody::Result(RpcResult::Report(rows)) => {
            assert_eq!(rows.len(), 1);
            assert_eq!(rows[0].repo, "new");
        }
        _ => panic!("expected a report"),
    }
    let q = LedgerQuery::Report { repo: None, since: Some(u64::MAX / 2) };
    assert_eq!(answer_query_at("8".to_string(), q, entries.clone(), now, 0).err(), Some(LedgerError::SinceOutOfRange));
    let q = LedgerQuery::Report { repo: None, since: Some(u64::MAX / 2) };
    assert_eq!(answer_query("9".to_string(), q, entries).err(), Some(LedgerError::SinceOutOfRange));
}

#[test]
fn serve_line_steps() {
    assert!(serve_line("   \t", "1.2.3").is_none());
    assert!(serve_line("\u{a0}", "1.2.3").is_none());
    match serve_line("not json", "1.2.3") {
        Some(RpcStep::Reply(resp)) => {
            assert_eq!(resp.id, "null");
            match resp.body {
                RpcBody::Error { code, message } => {
                    assert_eq!(code, -32700);
                    assert_eq!(message, "Parse error");
                }
                _ => panic!("expected an error"),
            }
        }
        _ => panic!("expected a reply"),
    }
    match serve_line("  {\"jsonrpc\":\"2.0\",\"id\":1,\"method\":\"initialize\"}  ", "1.2.3") {
        Some(RpcStep::Reply(resp)) => {
            assert_eq!(resp.id, "1");
            match resp.body {
                RpcBody::Result(RpcResult::ServerInfo { name, version }) => {
                    assert_eq!(name, "careen-ledger");
                    assert_eq!(version, "1.2.3");
                }
                _ => panic!("expected server info"),
            }
        }
        _ => panic!("expected a reply"),
    }
    match serve_line("{\"id\":\"x\",\"method\":\"shutdown\"}", "1") {
        Some(RpcStep::Finish(resp)) => assert_eq!(resp.id, "\"x\""),
        _ => panic!("expected finish"),
    }
    match serve_line("{\"id\":2,\"method\":\"careen/report\",\"params\":{\"repo\":\"r\",\"since\":3}}", "1") {
        Some(RpcStep::Consult { id, query: LedgerQuery::Report { repo, since } }) => {
            assert_eq!(id, "2");
            assert_eq!(repo.as_deref(), Some("r"));
            assert_eq!(since, Some(3));
        }
        _ => panic!("expected a report query"),
    }
    match serve_line("{\"method\":\"careen/hot-repos\"}", "1") {
        Some(RpcStep::Consult { id, query: LedgerQuery::HotRepos { top } }) => {
            assert_eq!(id, "null");
            assert_eq!(top, 10);
        }
        _ => panic!("expected a hot-repos query"),
    }
    match serve_line("{\"id\":3,\"method\":7}", "1") {
        Some(RpcStep::Reply(resp)) => match resp.body {
            RpcBody::Error { code, .. } => assert_eq!(code, -32601),
            _ => panic!("expected an error"),
        },
        _ => panic!("expected a reply"),
    }
}
