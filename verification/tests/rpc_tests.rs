use git_master::rpc::{handle_line, handle_request, RpcOutcome, RpcRequest, TestCommand};

fn request(method: Option<&str>, index: Option<u64>, tab: Option<&str>) -> RpcRequest {
    RpcRequest {
        has_id: true,
        method: method.map(str::to_string),
        index,
        tab: tab.map(str::to_string),
    }
}

fn failure(outcome: RpcOutcome) -> (i64, String) {
    match outcome {
        RpcOutcome::Failure(code, message) => (code, message),
        _ => panic!("expected an error reply"),
    }
}

#[test]
fn malformed_lines_get_a_parse_error() {
    assert_eq!(failure(handle_request(None)), (-32700, "Parse error".to_string()));
}

#[test]
fn notifications_get_no_reply() {
    let mut r = request(Some("select_repo"), Some(1), None);
    r.has_id = false;
    assert!(matches!(handle_request(Some(r)), RpcOutcome::Silent));
}

#[test]
fn view_tree_requests_are_answered_with_the_tree() {
    assert!(matches!(
        handle_request(Some(request(Some("get_view_tree"), None, None))),
        RpcOutcome::ViewTree
    ));
}

#[test]
fn select_repo_queues_the_index() {
    match handle_request(Some(request(Some("select_repo"), Some(2), None))) {
        RpcOutcome::Queued(TestCommand::SelectRepo(2)) => {}
        other => panic!("unexpected {:?}", matches!(other, RpcOutcome::Silent)),
    }
    assert_eq!(
        failure(handle_request(Some(request(Some("select_repo"), None, Some("log"))))),
        (-32602, "Missing params.index".to_string())
    );
}

#[test]
fn set_tab_queues_the_tab() {
    match handle_request(Some(request(Some("set_tab"), None, Some("log")))) {
        RpcOutcome::Queued(TestCommand::SetTab(tab)) => assert_eq!(tab, "log"),
        _ => panic!("expected a queued tab"),
    }
    assert_eq!(
        failure(handle_request(Some(request(Some("set_tab"), Some(1), None)))),
        (-32602, "Missing params.tab".to_string())
    );
}

#[test]
fn unknown_or_missing_methods_are_errors() {
    assert_eq!(
        failure(handle_request(Some(request(Some("quit"), None, None)))),
        (-32601, "Method not found".to_string())
    );
    assert_eq!(
        failure(handle_request(Some(request(None, Some(1), None)))),
        (-32600, "Invalid Request".to_string())
    );
}

#[test]
fn raw_lines_are_read_and_answered() {
    let line = r#"{"jsonrpc":"2.0","id":7,"method":"select_repo","params":{"index":2}}"#;
    assert!(matches!(handle_line(line), RpcOutcome::Queued(TestCommand::SelectRepo(2))));
    let line = r#"{"jsonrpc":"2.0","id":"a","method":"set_tab","params":{"tab":"Log"}}"#;
    assert!(matches!(handle_line(line), RpcOutcome::Queued(TestCommand::SetTab(t)) if t == "Log"));
    assert!(matches!(handle_line(r#"{"id":1,"method":"get_view_tree"}"#), RpcOutcome::ViewTree));
    assert!(matches!(handle_line(r#"{"method":"select_repo","params":{"index":1}}"#), RpcOutcome::Silent));
    assert_eq!(failure(handle_line("not json")), (-32700, "Parse error".to_string()));
    assert_eq!(failure(handle_line(r#"{"id":1}"#)), (-32600, "Invalid Request".to_string()));
    assert_eq!(
        failure(handle_line(r#"{"id":1,"method":"select_repo","params":{"index":-1}}"#)),
        (-32602, "Missing params.index".to_string())
    );
    assert_eq!(failure(handle_line(r#"{"id":1,"method":"quit"}"#)), (-32601, "Method not found".to_string()));
}
