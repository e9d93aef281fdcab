use hirsel::tool_args::{parse_i64_str, ArgValue, ShepherdToolProvider, ToolArgs};
use hirsel::tool_dispatch::{
    plan_tool_call, route_call, route_not_found, route_request, RouteCall, RouteRequest, ShepherdTool, ToolRefusal, ToolStep,
};

fn args(entries: Vec<(&str, ArgValue)>) -> ToolArgs {
    ToolArgs { entries: entries.into_iter().map(|(k, v)| (k.to_string(), v)).collect() }
}

#[test]
fn tool_args_parse_whole_numbers_as_str_parse_does() {
    assert_eq!(parse_i64_str("42"), Some(42));
    assert_eq!(parse_i64_str("+7"), Some(7));
    assert_eq!(parse_i64_str("-15"), Some(-15));
    assert_eq!(parse_i64_str("9223372036854775807"), Some(i64::MAX));
    assert_eq!(parse_i64_str("-9223372036854775808"), Some(i64::MIN));
    assert_eq!(parse_i64_str("9223372036854775808"), None);
    assert_eq!(parse_i64_str("-9223372036854775809"), None);
    assert_eq!(parse_i64_str("123456789012345678901234"), None);
    assert_eq!(parse_i64_str(""), None);
    assert_eq!(parse_i64_str("-"), None);
    assert_eq!(parse_i64_str("+"), None);
    assert_eq!(parse_i64_str(" 5"), None);
    assert_eq!(parse_i64_str("5x"), None);
    assert_eq!(parse_i64_str("--5"), None);
    for s in ["0", "-0", "+0012", "-42", "1000000"] {
        assert_eq!(parse_i64_str(s), s.parse::<i64>().ok());
    }
}

#[test]
fn tool_args_arg_i64_reads_numbers_and_strings() {
    let a = args(vec![
        ("n", ArgValue::Int(-3)),
        ("big", ArgValue::BigUInt(u64::MAX)),
        ("s", ArgValue::Text("12".to_string())),
        ("bad", ArgValue::Text("x".to_string())),
        ("b", ArgValue::Bool(true)),
        ("f", ArgValue::Other),
    ]);
    assert_eq!(ShepherdToolProvider::arg_i64(&a, "n"), Some(-3));
    assert_eq!(ShepherdToolProvider::arg_i64(&a, "big"), Some(-1));
    assert_eq!(ShepherdToolProvider::arg_i64(&a, "s"), Some(12));
    assert_eq!(ShepherdToolProvider::arg_i64(&a, "bad"), None);
    assert_eq!(ShepherdToolProvider::arg_i64(&a, "b"), None);
    assert_eq!(ShepherdToolProvider::arg_i64(&a, "f"), None);
    assert_eq!(ShepherdToolProvider::arg_i64(&a, "missing"), None);
}

#[test]
fn tool_args_project_id_falls_back_to_the_scope() {
    let scoped = ShepherdToolProvider::new(Some(9), None);
    let free = ShepherdToolProvider::new(None, Some("/w".to_string()));
    let named = args(vec![("project_id", ArgValue::Text("4".to_string()))]);
    let none = args(vec![]);
    assert_eq!(scoped.resolve_project_id(&named), Ok(4));
    assert_eq!(scoped.resolve_project_id(&none), Ok(9));
    assert_eq!(free.resolve_project_id(&named), Ok(4));
    assert_eq!(free.resolve_project_id(&none), Err("project_id is required outside project scope".to_string()));
}

#[test]
fn tool_args_strings_and_lists() {
    let a = args(vec![
        ("title", ArgValue::Text("  Fix it  ".to_string())),
        ("blank", ArgValue::Text("   ".to_string())),
        ("count", ArgValue::Int(2)),
        (
            "ids",
            ArgValue::List(vec![Some(" a ".to_string()), None, Some("".to_string()), Some("b".to_string())]),
        ),
    ]);
    assert_eq!(ShepherdToolProvider::string_arg(&a, "title"), Ok("  Fix it  ".to_string()));
    assert_eq!(ShepherdToolProvider::string_arg(&a, "count"), Err("count is required".to_string()));
    assert_eq!(ShepherdToolProvider::string_arg(&a, "name"), Err("name is required".to_string()));
    assert_eq!(ShepherdToolProvider::trimmed_string(&a, "title"), Some("Fix it".to_string()));
    assert_eq!(ShepherdToolProvider::trimmed_string(&a, "blank"), None);
    assert_eq!(ShepherdToolProvider::trimmed_string(&a, "count"), None);
    assert_eq!(
        ShepherdToolProvider::string_list_arg(&a, "ids"),
        Some(vec!["a".to_string(), "b".to_string()])
    );
    assert_eq!(ShepherdToolProvider::string_list_arg(&a, "title"), None);
    assert_eq!(ShepherdToolProvider::string_list_arg(&a, "missing"), None);
}

#[test]
fn tool_calls_start_on_the_project_or_the_route() {
    let scoped = ShepherdToolProvider::new(Some(3), None);
    let free = ShepherdToolProvider::new(None, None);
    let none = args(vec![]);
    match plan_tool_call(&scoped, "list_routes", &none) {
        ToolStep::OnProject(t, p) => {
            assert_eq!(t, ShepherdTool::ListRoutes);
            assert_eq!(p, 3);
        }
        other => panic!("unexpected {:?}", other),
    }
    match plan_tool_call(&scoped, "delivery_retry", &none) {
        ToolStep::OnRoute(Some(t), 3) => assert_eq!(t, ShepherdTool::DeliveryRetry),
        other => panic!("unexpected {:?}", other),
    }
    match plan_tool_call(&scoped, "no_such_tool", &none) {
        ToolStep::OnRoute(None, 3) => {}
        other => panic!("unexpected {:?}", other),
    }
    match plan_tool_call(&free, "list_routes", &none) {
        ToolStep::Refuse(ToolRefusal::Error(m)) => assert_eq!(m, "project_id is required outside project scope"),
        other => panic!("unexpected {:?}", other),
    }
    assert_eq!(ShepherdTool::from_name("shepherd_resolve_worker_concern"), Some(ShepherdTool::ShepherdResolveWorkerConcern));
    assert_eq!(ShepherdTool::from_name("fork_route"), Some(ShepherdTool::ForkRoute));
    assert_eq!(ShepherdTool::ForkRoute.as_str(), "fork_route");
    assert!(!ShepherdTool::UpdateProjectRetainedContext.needs_route());
    assert!(ShepherdTool::GetRouteWorkTree.needs_route());
}

#[test]
fn tool_calls_on_a_route_take_their_parameters() {
    let empty = args(vec![]);
    match route_call(None, "frobnicate", &empty) {
        Err(ToolRefusal::Error(m)) => assert_eq!(m, "Unknown tool: frobnicate"),
        other => panic!("unexpected {:?}", other),
    }
    match route_call(Some(ShepherdTool::DeliveryValidateTarget), "delivery_validate_target", &empty) {
        Err(ToolRefusal::Message(m)) => assert_eq!(m, "Missing required parameter: target_branch"),
        other => panic!("unexpected {:?}", other),
    }
    let target = args(vec![
        ("target_branch", ArgValue::Text(" main ".to_string())),
        ("remote_url", ArgValue::Text("  ".to_string())),
    ]);
    match route_call(Some(ShepherdTool::DeliveryValidateTarget), "delivery_validate_target", &target) {
        Ok(RouteCall::ValidateTarget { target_branch, remote_url }) => {
            assert_eq!(target_branch, "main");
            assert_eq!(remote_url, None);
        }
        other => panic!("unexpected {:?}", other),
    }
    match route_call(Some(ShepherdTool::DeliveryRetry), "delivery_retry", &empty) {
        Err(ToolRefusal::Message(m)) => assert_eq!(m, "Missing required parameter: delivery_id"),
        other => panic!("unexpected {:?}", other),
    }
    let id = args(vec![("delivery_id", ArgValue::Text("17".to_string()))]);
    match route_call(Some(ShepherdTool::DeliveryGetAttempts), "delivery_get_attempts", &id) {
        Ok(RouteCall::GetAttempts { delivery_id }) => assert_eq!(delivery_id, 17),
        other => panic!("unexpected {:?}", other),
    }
    match route_call(Some(ShepherdTool::DeliveryComplete), "delivery_complete", &id) {
        Err(ToolRefusal::Message(m)) => assert_eq!(m, "Missing required parameter: action"),
        other => panic!("unexpected {:?}", other),
    }
    let done = args(vec![
        ("delivery_id", ArgValue::Int(5)),
        ("action", ArgValue::Text("merged".to_string())),
        ("summary", ArgValue::Text(" shipped ".to_string())),
    ]);
    match route_call(Some(ShepherdTool::DeliveryComplete), "delivery_complete", &done) {
        Ok(RouteCall::Complete { delivery_id, action, summary, remote_url }) => {
            assert_eq!(delivery_id, 5);
            assert_eq!(action, "merged");
            assert_eq!(summary.as_deref(), Some("shipped"));
            assert_eq!(remote_url, None);
        }
        other => panic!("unexpected {:?}", other),
    }
    match route_call(Some(ShepherdTool::ReadWorkItem), "read_work_item", &empty) {
        Ok(RouteCall::Run(t)) => assert_eq!(t, ShepherdTool::ReadWorkItem),
        other => panic!("unexpected {:?}", other),
    }
}

#[test]
fn tool_catalog_offers_workspace_tools_only_with_a_workspace() {
    let with = ShepherdToolProvider::new(Some(1), Some("/w".to_string())).definitions();
    let without = ShepherdToolProvider::new(Some(1), None).definitions();
    assert_eq!(with.len(), 36);
    assert_eq!(without.len(), 33);
    let names: Vec<&str> = with.iter().map(|d| d.name.as_str()).collect();
    assert_eq!(&names[..6], &["list_routes", "fork_route", "select_route", "archive_route", "sync_project", "list_workspace"]);
    assert_eq!(names[35], "apply_patch_work_item");
    assert!(!without.iter().any(|d| d.name == "grep_workspace"));
    for d in &with {
        assert!(d.enabled && d.injected);
        assert!(!d.description.is_empty());
        assert_eq!(ShepherdTool::from_name(&d.name).map(|t| t.as_str()), Some(d.name.as_str()));
    }
    let fork = &with[1];
    let ps: Vec<(&str, &str, bool)> = fork.params.iter().map(|p| (p.name.as_str(), p.kind.as_str(), p.required)).collect();
    assert_eq!(ps, vec![("name", "str", true), ("parent_route_name", "str", false), ("project_id", "int", false)]);
    let tree = with.iter().find(|d| d.name == "get_route_work_tree").unwrap();
    let ps: Vec<(&str, bool)> = tree.params.iter().map(|p| (p.name.as_str(), p.required)).collect();
    assert_eq!(ps, vec![("project_id", false), ("route_name", false)]);
    let patch = with.iter().find(|d| d.name == "apply_patch_work_item").unwrap();
    assert_eq!(patch.returns, "EditResult");
    assert_eq!(with[0].returns, "dict");
}

#[test]
fn tool_args_edit_takes_text_and_a_non_blank_source() {
    let a = args(vec![
        ("html", ArgValue::Text("<p>x</p>".to_string())),
        ("source", ArgValue::Text(" shepherd ".to_string())),
    ]);
    assert_eq!(
        ShepherdToolProvider::edit_args(&a, "html"),
        Ok(("<p>x</p>".to_string(), Some(" shepherd ".to_string())))
    );
    let blank = args(vec![("markdown", ArgValue::Text("# m".to_string())), ("source", ArgValue::Text("  ".to_string()))]);
    assert_eq!(ShepherdToolProvider::edit_args(&blank, "markdown"), Ok(("# m".to_string(), None)));
    assert_eq!(ShepherdToolProvider::edit_args(&blank, "html"), Err("html is required".to_string()));
}

#[test]
fn tool_args_required_node_id() {
    let a = args(vec![("node_id", ArgValue::Text(" n-1 ".to_string())), ("blank", ArgValue::Text(" ".to_string()))]);
    assert_eq!(ShepherdToolProvider::required_trimmed(&a, "node_id"), Ok("n-1".to_string()));
    assert_eq!(
        ShepherdToolProvider::required_trimmed(&a, "blank"),
        Err("Missing required parameter: blank".to_string())
    );
    assert_eq!(
        ShepherdToolProvider::required_trimmed(&a, "item_id"),
        Err("Missing required parameter: item_id".to_string())
    );
}

#[test]
fn tool_calls_name_their_route() {
    let by_name = args(vec![("route_name", ArgValue::Text(" main ".to_string())), ("route_id", ArgValue::Int(4))]);
    match route_request(&by_name) {
        RouteRequest::ByName(n) => assert_eq!(n, "main"),
        other => panic!("unexpected {:?}", other),
    }
    let by_id = args(vec![("route_name", ArgValue::Text("  ".to_string())), ("route_id", ArgValue::Text("4".to_string()))]);
    match route_request(&by_id) {
        RouteRequest::ById(id) => assert_eq!(id, 4),
        other => panic!("unexpected {:?}", other),
    }
    match route_request(&args(vec![])) {
        RouteRequest::Selected => {}
        other => panic!("unexpected {:?}", other),
    }
    assert_eq!(route_not_found("x"), "Route 'x' not found");
}
