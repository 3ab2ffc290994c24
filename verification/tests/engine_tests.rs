use flowt::config::{NodeConfig, NodeKind, StringMap, TriggerConfig, WorkflowConfig};
use flowt::engine::commands::shell_outcome;
use flowt::engine::expression::{Expression, Operator, Term};
use flowt::engine::retry::{should_retry, timed_out, timeout_secs};
use flowt::engine::run::{final_status, NodeAction};
use flowt::engine::{Engine, EngineError, NodeResult, NodeStatus, RunStatus, WorkflowRun};

fn node(id: &str, kind: NodeKind, when: Option<&str>, depends_on: &[&str]) -> NodeConfig {
    NodeConfig {
        id: id.to_string(),
        kind,
        when: when.map(|w| w.to_string()),
        retry: None,
        timeout: None,
        depends_on: depends_on.iter().map(|d| d.to_string()).collect(),
    }
}

fn log(message: &str) -> NodeKind {
    NodeKind::Log { message: message.to_string() }
}

fn shell(cmd: &str, env: StringMap) -> NodeKind {
    NodeKind::Shell { cmd: cmd.to_string(), env }
}

fn workflow(name: &str, description: &str, nodes: Vec<NodeConfig>) -> WorkflowConfig {
    WorkflowConfig {
        name: name.to_string(),
        description: description.to_string(),
        enabled: true,
        triggers: vec![TriggerConfig::Manual],
        nodes,
    }
}

/// Runs a workflow with the engine's plan, performing shell work with `shell_result`
/// (exit success, stdout) and treating HTTP as a failure; returns the run and the actions.
fn run_simulated(
    engine: &Engine,
    wf: WorkflowConfig,
    shell_result: &dyn Fn(&str, &StringMap) -> (bool, String),
) -> (WorkflowRun, Vec<String>) {
    let env = StringMap::new();
    let mut progress = engine.begin_run(wf).expect("no cycle");
    let mut clock: i64 = 1_000;
    let mut actions = Vec::new();
    while let Some((_, action)) = progress.plan_next(engine, &env) {
        let started: i64 = clock;
        clock += 10;
        let (status, output) = match action {
            NodeAction::Skip { reason } => {
                actions.push("skip".to_string());
                (NodeStatus::Skipped, reason)
            }
            NodeAction::Complete { status, output } => {
                actions.push("complete".to_string());
                (status, output)
            }
            NodeAction::Shell { cmd, env } => {
                actions.push(format!("shell {}", cmd));
                let (ok, out) = shell_result(&cmd, &env);
                shell_outcome(ok, &out, "", if ok { "exit status: 0" } else { "exit status: 1" })
            }
            NodeAction::Http { .. } => {
                actions.push("http".to_string());
                (NodeStatus::Failed("no network".to_string()), String::new())
            }
        };
        assert!(progress.record_outcome(status, output, None, started, clock));
        clock += 1;
    }
    (progress.finish(clock), actions)
}

fn find<'a>(run: &'a WorkflowRun, id: &str) -> &'a NodeResult {
    run.node_results.iter().find(|r| r.node_id == id).unwrap()
}

#[test]
fn test_workflow_run_creation() {
    let run = WorkflowRun::new("test_workflow");

    assert_eq!(run.workflow_name, "test_workflow");
    assert_eq!(run.status, RunStatus::Running);
    assert!(run.node_results.is_empty());
    assert!(run.finished_at.is_none());
    assert!(!run.id.is_empty());
}

#[test]
fn test_engine_creation() {
    let engine = Engine::new();
    assert!(engine.runs.is_empty());
}

#[test]
fn test_node_status_equality() {
    assert_eq!(NodeStatus::Pending, NodeStatus::Pending);
    assert_eq!(NodeStatus::Running, NodeStatus::Running);
    assert_eq!(NodeStatus::Success, NodeStatus::Success);
    assert_eq!(NodeStatus::Skipped, NodeStatus::Skipped);
    assert_eq!(
        NodeStatus::Failed("error".to_string()),
        NodeStatus::Failed("error".to_string())
    );
    assert_ne!(
        NodeStatus::Failed("error1".to_string()),
        NodeStatus::Failed("error2".to_string())
    );
}

#[test]
fn test_run_status_equality() {
    assert_eq!(RunStatus::Running, RunStatus::Running);
    assert_eq!(RunStatus::Success, RunStatus::Success);
    assert_eq!(RunStatus::Failed, RunStatus::Failed);
    assert_ne!(RunStatus::Running, RunStatus::Success);
}

#[test]
fn test_node_result_creation() {
    let now: i64 = flowt::clock::now_nanos();
    let result = NodeResult {
        node_id: "test_node".to_string(),
        status: NodeStatus::Success,
        output: "test output".to_string(),
        response_data: None,
        started_at: now,
        finished_at: Some(now),
    };

    assert_eq!(result.node_id, "test_node");
    assert_eq!(result.status, NodeStatus::Success);
    assert_eq!(result.output, "test output");
    assert!(result.response_data.is_none());
    assert_eq!(result.started_at, now);
    assert_eq!(result.finished_at, Some(now));
}

#[test]
fn run_id_is_low_bits_of_millis_in_hex() {
    let run = WorkflowRun::new_at("w", 0x12345678, 42);
    assert_eq!(run.id, "345678");
    assert_eq!(run.started_at, 42);
    let run = WorkflowRun::new_at("w", 0, 7);
    assert_eq!(run.id, "0");
}

#[test]
fn test_engine_topological_sort_simple() {
    let engine = Engine::new();
    let nodes = vec![
        node("node1", log("First"), None, &[]),
        node("node2", log("Second"), None, &["node1"]),
    ];

    let result = engine.topological_sort(&nodes);
    assert!(result.is_ok());

    let order = result.unwrap();
    assert_eq!(order.len(), 2);
    assert_eq!(order[0], "node1");
    assert_eq!(order[1], "node2");
}

#[test]
fn test_engine_topological_sort_complex() {
    let engine = Engine::new();
    let nodes = vec![
        node("setup", log("Setup"), None, &[]),
        node("task1", log("Task 1"), None, &["setup"]),
        node("task2", log("Task 2"), None, &["setup"]),
        node("cleanup", log("Cleanup"), None, &["task1", "task2"]),
    ];

    let result = engine.topological_sort(&nodes);
    assert!(result.is_ok());

    let order = result.unwrap();
    assert_eq!(order.len(), 4);
    assert_eq!(order[0], "setup");
    assert_eq!(order[3], "cleanup");

    let setup_index = order.iter().position(|x| x == "setup").unwrap();
    let task1_index = order.iter().position(|x| x == "task1").unwrap();
    let task2_index = order.iter().position(|x| x == "task2").unwrap();
    let cleanup_index = order.iter().position(|x| x == "cleanup").unwrap();

    assert!(task1_index > setup_index);
    assert!(task2_index > setup_index);
    assert!(cleanup_index > task1_index);
    assert!(cleanup_index > task2_index);
}

#[test]
fn test_engine_topological_sort_circular_dependency() {
    let engine = Engine::new();
    let nodes = vec![
        node("node1", log("First"), None, &["node2"]),
        node("node2", log("Second"), None, &["node1"]),
    ];

    let result = engine.topological_sort(&nodes);
    assert!(result.is_err());
    let err = result.unwrap_err();
    assert_eq!(err, EngineError::CircularDependency);
    assert!(err.message().contains("Circular dependency"));
}

#[test]
fn topological_sort_of_a_self_dependency_is_a_cycle() {
    let engine = Engine::new();
    let nodes = vec![node("a", log("A"), None, &["a"])];
    assert!(engine.topological_sort(&nodes).is_err());
}

#[test]
fn topological_sort_ignores_unknown_dependencies() {
    let engine = Engine::new();
    let nodes = vec![node("a", log("A"), None, &["not_a_node"])];
    assert_eq!(engine.topological_sort(&nodes).unwrap(), vec!["a".to_string()]);
}

#[test]
fn test_workflow_execution_log_node() {
    let engine = Engine::new();
    let wf = workflow(
        "test_log_workflow",
        "Test workflow with log node",
        vec![node("log_hello", log("Hello from test!"), None, &[])],
    );

    let (run, _) = run_simulated(&engine, wf, &|_, _| (true, String::new()));
    assert_eq!(run.workflow_name, "test_log_workflow");
    assert_eq!(run.status, RunStatus::Success);
    assert!(run.finished_at.is_some());
    assert_eq!(run.node_results.len(), 1);

    let node_result = &run.node_results[0];
    assert_eq!(node_result.node_id, "log_hello");
    assert_eq!(node_result.status, NodeStatus::Success);
    assert_eq!(node_result.output, "Hello from test!");
    assert!(node_result.finished_at.is_some());
}

#[test]
fn test_workflow_execution_with_dependencies() {
    let engine = Engine::new();
    let wf = workflow(
        "test_dependency_workflow",
        "Test workflow with dependencies",
        vec![
            node("second", log("Second task depends on first"), None, &["first"]),
            node("first", log("First task"), None, &[]),
        ],
    );

    let (run, _) = run_simulated(&engine, wf, &|_, _| (true, String::new()));
    assert_eq!(run.status, RunStatus::Success);
    assert_eq!(run.node_results.len(), 2);
    let first_result = find(&run, "first");
    let second_result = find(&run, "second");
    assert_eq!(first_result.status, NodeStatus::Success);
    assert_eq!(second_result.status, NodeStatus::Success);
    assert!(first_result.finished_at.unwrap() <= second_result.started_at);
}

#[test]
fn test_workflow_execution_failed_dependency_skips() {
    let engine = Engine::new();
    let wf = workflow(
        "test_failed_dependency",
        "Test workflow where dependency fails",
        vec![
            node("failing_task", shell("exit 1", StringMap::new()), None, &[]),
            node("dependent_task", log("This should be skipped"), None, &["failing_task"]),
        ],
    );

    let (run, actions) = run_simulated(&engine, wf, &|_, _| (false, String::new()));
    assert_eq!(actions, vec!["shell exit 1".to_string(), "skip".to_string()]);
    assert_eq!(run.status, RunStatus::Failed);
    assert_eq!(run.node_results.len(), 2);

    let failing_result = find(&run, "failing_task");
    let dependent_result = find(&run, "dependent_task");
    assert!(matches!(failing_result.status, NodeStatus::Failed(_)));
    assert_eq!(
        failing_result.status,
        NodeStatus::Failed("Exit exit status: 1".to_string())
    );
    assert_eq!(dependent_result.status, NodeStatus::Skipped);
    assert_eq!(dependent_result.output, "Skipped due to failed dependencies");
}

#[test]
fn skipped_dependency_skips_its_dependents_too() {
    let engine = Engine::new();
    let wf = workflow(
        "chain",
        "",
        vec![
            node("a", shell("exit 1", StringMap::new()), None, &[]),
            node("b", log("b"), None, &["a"]),
            node("c", log("c"), None, &["b"]),
        ],
    );
    let (run, _) = run_simulated(&engine, wf, &|_, _| (false, String::new()));
    assert_eq!(find(&run, "b").status, NodeStatus::Skipped);
    assert_eq!(find(&run, "c").status, NodeStatus::Skipped);
    assert_eq!(find(&run, "c").output, "Skipped due to failed dependencies");
}

#[test]
fn test_workflow_execution_shell_with_env() {
    let engine = Engine::new();
    let env = StringMap::from_pairs(vec![("TEST_VAR".to_string(), "test_value".to_string())]);
    let wf = workflow(
        "test_env_workflow",
        "Test workflow with environment variables",
        vec![node("env_test", shell("echo $TEST_VAR", env), None, &[])],
    );

    let (run, actions) = run_simulated(&engine, wf, &|cmd, env| {
        assert_eq!(cmd, "echo $TEST_VAR");
        (true, format!("{}\n", env.get("TEST_VAR").cloned().unwrap_or_default()))
    });
    assert_eq!(actions, vec!["shell echo $TEST_VAR".to_string()]);
    let node_result = &run.node_results[0];
    assert_eq!(node_result.status, NodeStatus::Success);
    assert_eq!(node_result.output.trim(), "test_value");
}

#[test]
fn test_workflow_execution_when_condition() {
    let engine = Engine::new();
    let wf = workflow(
        "test_when_condition_workflow",
        "Test workflow with 'when' conditions",
        vec![
            node("first", log("Always runs"), None, &[]),
            node("second", log("Runs because first succeeded"), Some("first == success"), &["first"]),
            node("third", log("Is skipped because first did not fail"), Some("first == failed"), &["first"]),
        ],
    );

    let (run, _) = run_simulated(&engine, wf, &|_, _| (true, String::new()));
    assert_eq!(run.status, RunStatus::Success);
    assert_eq!(run.node_results.len(), 3);
    assert_eq!(find(&run, "first").status, NodeStatus::Success);
    assert_eq!(find(&run, "second").status, NodeStatus::Success);
    assert_eq!(find(&run, "third").status, NodeStatus::Skipped);
    assert_eq!(find(&run, "third").output, "Skipped: condition not met");
}

#[test]
fn readable_condition_overrides_failed_dependency() {
    let engine = Engine::new();
    let wf = workflow(
        "recover",
        "",
        vec![
            node("build", shell("make", StringMap::new()), None, &[]),
            node("notify", log("build broke"), Some("build == failed"), &["build"]),
        ],
    );
    let (run, _) = run_simulated(&engine, wf, &|_, _| (false, String::new()));
    assert_eq!(find(&run, "notify").status, NodeStatus::Success);
    assert_eq!(find(&run, "notify").output, "build broke");
    assert_eq!(run.status, RunStatus::Failed);
}

#[test]
fn log_messages_are_interpolated_from_earlier_steps() {
    let engine = Engine::new();
    let wf = workflow(
        "interp",
        "",
        vec![
            node("greet", shell("echo hi", StringMap::new()), None, &[]),
            node("say", log("got ${steps.greet.output} (${steps.greet.status})"), None, &["greet"]),
        ],
    );
    let (run, _) = run_simulated(&engine, wf, &|_, _| (true, "hi\n".to_string()));
    assert_eq!(find(&run, "say").output, "got hi (Success)");
}

#[test]
fn begin_run_refuses_a_cycle() {
    let engine = Engine::new();
    let wf = workflow("cyc", "", vec![node("a", log("a"), None, &["b"]), node("b", log("b"), None, &["a"])]);
    assert!(matches!(engine.begin_run(wf), Err(EngineError::CircularDependency)));
}

fn result(id: &str, status: NodeStatus) -> NodeResult {
    NodeResult {
        node_id: id.to_string(),
        status,
        output: String::new(),
        response_data: None,
        started_at: 0,
        finished_at: Some(1),
    }
}

#[test]
fn final_status_fails_exactly_when_a_node_failed() {
    assert_eq!(final_status(&[]), RunStatus::Success);
    assert_eq!(
        final_status(&[result("a", NodeStatus::Success), result("b", NodeStatus::Skipped)]),
        RunStatus::Success
    );
    assert_eq!(
        final_status(&[
            result("a", NodeStatus::Success),
            result("b", NodeStatus::Failed("x".to_string())),
            result("c", NodeStatus::Skipped),
        ]),
        RunStatus::Failed
    );
}

#[test]
fn conditions_parse_and_evaluate() {
    let e = Expression::parse("build == success").unwrap();
    assert_eq!(e.left, Term::Variable("build".to_string()));
    assert_eq!(e.op, Operator::Equals);
    assert_eq!(e.right, Term::Value("success".to_string()));
    let e2 = Expression::parse("  steps.build   !=  FAILED ").unwrap();
    assert_eq!(e2.op, Operator::NotEquals);
    assert!(Expression::parse("always").is_none());
    assert!(Expression::parse("a = b").is_none());
    assert!(Expression::parse("a == b c").is_none());

    let ctx = vec![result("build", NodeStatus::Success)];
    assert!(e.evaluate(&ctx));
    assert!(e2.evaluate(&ctx));
    assert!(!Expression::parse("build == failed").unwrap().evaluate(&ctx));
    assert!(!Expression::parse("other == success").unwrap().evaluate(&ctx));
}

#[test]
fn shell_outcome_trims_and_reports_the_exit_status() {
    let (status, output) = shell_outcome(true, "  hello\n", "", "exit status: 0");
    assert_eq!(status, NodeStatus::Success);
    assert_eq!(output, "hello");
    let (status, output) = shell_outcome(false, "out\n", "err\n", "exit status: 2");
    assert_eq!(status, NodeStatus::Failed("Exit exit status: 2".to_string()));
    assert_eq!(output, "out\nerr");
}

#[test]
fn updating_a_run_replaces_it_by_id() {
    let mut engine = Engine::new();
    engine.add_run(WorkflowRun::new_at("a", 1, 10));
    engine.add_run(WorkflowRun::new_at("b", 2, 20));
    let mut newer = WorkflowRun::new_at("a", 1, 10);
    newer.status = RunStatus::Success;
    engine.update_run(newer);
    assert_eq!(engine.runs.len(), 2);
    assert_eq!(engine.runs[0].status, RunStatus::Success);
    engine.update_run(WorkflowRun::new_at("c", 3, 30));
    assert_eq!(engine.runs.len(), 3);
    assert_eq!(engine.runs[2].id, "3");
    engine.load_history(vec![WorkflowRun::new_at("a", 1, 10), WorkflowRun::new_at("d", 4, 40)]);
    assert_eq!(engine.runs.len(), 4);
    assert_eq!(engine.runs[0].status, RunStatus::Success);
    assert_eq!(engine.runs[3].id, "4");
}

#[test]
fn curl_commands_carry_the_request() {
    let headers = StringMap::from_pairs(vec![("Content-Type".to_string(), "application/json".to_string())]);
    let cmd = flowt::engine::commands::curl_command(
        "/tmp/cache",
        "abc",
        "post",
        "https://api.example.com",
        &headers,
        &Some("{\"a\":1}".to_string()),
    );
    assert_eq!(
        cmd,
        "curl -s -o /tmp/cache/flowt_abc -w '%{http_code}' -X POST -H 'Content-Type: application/json' -d '{\"a\":1}' 'https://api.example.com'"
    );
    let plain = flowt::engine::commands::curl_command("/c", "1", "get", "http://x", &StringMap::new(), &None);
    assert_eq!(plain, "curl -s -o /c/flowt_1 -w '%{http_code}' -X GET 'http://x'");
}

#[test]
fn http_outcomes_compare_the_status_code() {
    use_http_outcome();
}

fn use_http_outcome() {
    use_case(NodeStatus::Success, " 200\n", None, NodeStatus::Success, "HTTP 200");
    use_case(NodeStatus::Success, "404", Some(200), NodeStatus::Failed("Expected 200, got 404".to_string()), "HTTP 404");
    use_case(NodeStatus::Success, "201", Some(201), NodeStatus::Success, "HTTP 201");
    use_case(NodeStatus::Success, "garbage", None, NodeStatus::Failed("Expected 200, got 0".to_string()), "HTTP 0");
    use_case(NodeStatus::Failed("Exit exit status: 6".to_string()), "", None, NodeStatus::Failed("Exit exit status: 6".to_string()), "");
}

fn use_case(shell: NodeStatus, output: &str, expect: Option<u16>, status: NodeStatus, text: &str) {
    let (s, o) = flowt::engine::commands::http_outcome(shell, output.to_string(), expect);
    assert_eq!(s, status);
    assert_eq!(o, text);
}

#[test]
fn topological_sort_takes_the_first_ready_node() {
    let engine = Engine::new();
    let nodes = vec![
        node("b", log("B"), None, &["a"]),
        node("c", log("C"), None, &[]),
        node("a", log("A"), None, &[]),
    ];
    assert_eq!(engine.topological_sort(&nodes).unwrap(), vec!["c".to_string(), "a".to_string(), "b".to_string()]);
}

fn attempts_made(retry: Option<u32>, outcomes: &[NodeStatus]) -> (usize, NodeStatus) {
    let mut attempt: u32 = 1;
    loop {
        let status = outcomes[(attempt - 1) as usize].clone();
        if !should_retry(retry, attempt, &status) {
            return (attempt as usize, status);
        }
        attempt += 1;
    }
}

#[test]
fn timeouts_are_read_with_their_unit() {
    assert_eq!(timeout_secs("60s"), Some(60));
    assert_eq!(timeout_secs("30s"), Some(30));
    assert_eq!(timeout_secs("5m"), Some(300));
    assert_eq!(timeout_secs("2h"), Some(7200));
    assert_eq!(timeout_secs("60"), None);
    assert_eq!(timeout_secs("s"), None);
    assert_eq!(timeout_secs("1.5s"), None);
    assert_eq!(timeout_secs(""), None);
    assert_eq!(timeout_secs("99999999999999999999s"), None);
}

#[test]
fn failed_attempts_are_retried_up_to_the_limit() {
    let fail = || NodeStatus::Failed("boom".to_string());
    // Two failures, then success, with retry: 3: three attempts, ending in success.
    let outcomes = vec![fail(), fail(), NodeStatus::Success, fail()];
    assert_eq!(attempts_made(Some(3), &outcomes), (3, NodeStatus::Success));
    // Always failing with retry: 3: four attempts, ending failed.
    let failing = vec![fail(), fail(), fail(), fail(), fail()];
    assert_eq!(attempts_made(Some(3), &failing), (4, fail()));
    // No retry: one attempt.
    assert_eq!(attempts_made(None, &failing), (1, fail()));
    assert!(!should_retry(Some(3), 1, &NodeStatus::Success));
    assert!(!should_retry(Some(3), 4, &fail()));
    assert!(should_retry(Some(3), 3, &fail()));
}

#[test]
fn a_timed_out_attempt_fails() {
    let (status, output) = timed_out("60s");
    assert_eq!(status, NodeStatus::Failed("Timed out after 60s".to_string()));
    assert_eq!(output, "");
}

#[test]
fn runs_at_different_milliseconds_have_different_ids() {
    let a = WorkflowRun::new_at("w", 1_700_000_000_000, 0);
    let b = WorkflowRun::new_at("w", 1_700_000_000_001, 0);
    let c = WorkflowRun::new_at("w", 1_700_000_000_000 + 0x1000000, 0);
    assert_ne!(a.id, b.id);
    assert_eq!(a.id, c.id);
    assert_eq!(a.id, format!("{:x}", 1_700_000_000_000u64 & 0xFFFFFF));
    let now = WorkflowRun::new("w");
    let millis = now.started_at / 1_000_000;
    assert_eq!(now.id, format!("{:x}", (millis as u64) & 0xFFFFFF));
}
