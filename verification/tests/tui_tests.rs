use flowt::tui::engine_check_due;
use flowt::config::{NodeConfig, NodeKind, StringMap, TriggerConfig, WorkflowConfig};
use flowt::describe::{configuration_of, description_lines, join_texts};
use flowt::engine::{NodeResult, NodeStatus, RunStatus, WorkflowRun};
use flowt::tui::{
    disabled_message, logs_owner, manual_trigger_message, push_log, run_outcome_log, runs_for_workflow,
    toggled_message, trigger_choice, AppView, FocusedPanel, Key, KeyOutcome, LogEntry, LogLevel,
    NodeDetailPanel, RunOrScheduled, RunOrigin, SelectionInfo, TriggerChoice, UiState,
};
use flowt::view::{
    format_duration, log_line, node_detail_help_items, node_item, results_lines, run_details, run_item,
    scheduled_item, workflow_item, workflows_help_items, Piece, Tone,
};

fn info(workflows: usize, runs: usize, nodes: Option<usize>) -> SelectionInfo {
    SelectionInfo { workflow_count: workflows, run_count: runs, selected_run_nodes: nodes }
}

fn text(line: &[Piece]) -> String {
    line.iter().map(|p| p.text.as_str()).collect()
}

fn texts(lines: &[Vec<Piece>]) -> Vec<String> {
    lines.iter().map(|l| text(l)).collect()
}

fn wf(name: &str, enabled: bool, triggers: Vec<TriggerConfig>, nodes: Vec<NodeConfig>) -> WorkflowConfig {
    WorkflowConfig { name: name.to_string(), description: String::new(), enabled, triggers, nodes }
}

fn result(id: &str, status: NodeStatus, output: &str, started: i64, finished: Option<i64>) -> NodeResult {
    NodeResult { node_id: id.to_string(), status, output: output.to_string(), response_data: None, started_at: started, finished_at: finished }
}

#[test]
fn keys_move_within_the_lists() {
    let mut s = UiState::new();
    let i = info(2, 3, Some(2));
    assert_eq!(s.handle_key(Key::Down, i), KeyOutcome::Continue);
    assert_eq!(s.selected_workflow, 1);
    s.handle_key(Key::Down, i);
    assert_eq!(s.selected_workflow, 1);
    s.handle_key(Key::Char('k'), i);
    assert_eq!(s.selected_workflow, 0);
    s.handle_key(Key::Up, i);
    assert_eq!(s.selected_workflow, 0);
    s.handle_key(Key::Tab, i);
    assert_eq!(s.focused_panel, FocusedPanel::Runs);
    s.handle_key(Key::Char('j'), i);
    s.handle_key(Key::Char('j'), i);
    s.handle_key(Key::Char('j'), i);
    assert_eq!(s.selected_run, 2);
}

#[test]
fn tab_three_times_comes_back() {
    let mut s = UiState::new();
    let i = info(1, 1, None);
    s.handle_key(Key::Tab, i);
    s.handle_key(Key::Tab, i);
    assert_eq!(s.focused_panel, FocusedPanel::NodeResults);
    s.handle_key(Key::Right, i);
    assert_eq!(s.focused_panel, FocusedPanel::Workflows);
    s.handle_key(Key::Left, i);
    assert_eq!(s.focused_panel, FocusedPanel::NodeResults);
}

#[test]
fn enter_opens_node_detail_and_escape_returns() {
    let mut s = UiState::new();
    let i = info(1, 1, Some(3));
    assert_eq!(s.handle_key(Key::Enter, i), KeyOutcome::ToggleEnabled);
    s.handle_key(Key::Tab, i);
    assert_eq!(s.handle_key(Key::Enter, i), KeyOutcome::Continue);
    assert_eq!(s.current_view, AppView::NodeDetail);
    s.handle_key(Key::Down, i);
    s.handle_key(Key::Down, i);
    s.handle_key(Key::Down, i);
    assert_eq!(s.selected_node, 2);
    s.handle_key(Key::Tab, i);
    assert_eq!(s.node_detail_focused_panel, NodeDetailPanel::NodeContent);
    s.handle_key(Key::Esc, i);
    assert_eq!(s.current_view, AppView::Workflows);
    assert_eq!(s.selected_node, 0);
    assert_eq!(s.node_detail_focused_panel, NodeDetailPanel::NodeList);
}

#[test]
fn screens_and_actions_by_key() {
    let mut s = UiState::new();
    let i = info(1, 0, None);
    assert_eq!(s.handle_key(Key::Char('t'), i), KeyOutcome::Trigger);
    assert_eq!(s.handle_key(Key::Char('e'), i), KeyOutcome::Edit);
    s.handle_key(Key::Char('l'), i);
    assert_eq!(s.current_view, AppView::Logs);
    assert_eq!(s.handle_key(Key::Char('t'), i), KeyOutcome::Continue);
    s.handle_key(Key::PageDown, i);
    assert_eq!(s.log_scroll, 10);
    s.handle_key(Key::End, i);
    assert_eq!(s.log_scroll, 1000);
    s.handle_key(Key::Char('w'), i);
    assert_eq!(s.current_view, AppView::Workflows);
    assert_eq!(s.log_scroll, 0);
    s.handle_key(Key::Char('?'), i);
    assert_eq!(s.current_view, AppView::Help);
    s.handle_key(Key::Esc, i);
    s.handle_key(Key::Char('d'), i);
    assert_eq!(s.current_view, AppView::Description);
    let before = s;
    assert_eq!(s.handle_key(Key::Char('q'), i), KeyOutcome::Quit);
    assert_eq!(s, before);
}

#[test]
fn runs_list_puts_the_schedule_first_then_newest_runs() {
    let runs = vec![
        WorkflowRun::new_at("a", 1, 100),
        WorkflowRun::new_at("b", 2, 300),
        WorkflowRun::new_at("a", 3, 200),
        WorkflowRun::new_at("a", 4, 200),
    ];
    let list = runs_for_workflow(&runs, "a", Some(999));
    assert_eq!(list.len(), 4);
    match &list[0] {
        RunOrScheduled::ScheduledRun { workflow_name, next_run } => {
            assert_eq!(workflow_name, "a");
            assert_eq!(*next_run, 999);
        }
        _ => panic!("scheduled entry first"),
    }
    let idx: Vec<usize> = list[1..]
        .iter()
        .map(|e| match e {
            RunOrScheduled::ActualRun(k) => *k,
            _ => panic!("runs after the schedule"),
        })
        .collect();
    assert_eq!(idx, vec![2, 3, 0]);
    assert!(runs_for_workflow(&runs, "c", None).is_empty());
}

#[test]
fn durations_are_written_by_their_largest_unit() {
    assert_eq!(format_duration(-1), "overdue");
    assert_eq!(format_duration(0), "0s");
    assert_eq!(format_duration(59), "59s");
    assert_eq!(format_duration(61), "1m 1s");
    assert_eq!(format_duration(3600), "1h 0m");
    assert_eq!(format_duration(3 * 3600 + 25 * 60 + 7), "3h 25m");
    assert_eq!(format_duration(86400 + 2 * 3600 + 3 * 60 + 4), "1d 2h 3m");
}

#[test]
fn help_bars_shrink_with_the_terminal() {
    assert_eq!(workflows_help_items(130).len(), 10);
    assert_eq!(workflows_help_items(125).len(), 9);
    assert_eq!(workflows_help_items(100)[0], " ↑/↓ nav ");
    assert_eq!(workflows_help_items(60), vec![" ↑/↓ nav ", "| ←/→ panel ", "| Enter details ", "| ? help ", "| q quit "]);
    assert_eq!(workflows_help_items(20), vec![" ↑/↓ ", "| ←/→ ", "| ? help ", "| q quit "]);
    assert_eq!(node_detail_help_items(140)[0], " ←/→ switch panel ");
    assert_eq!(node_detail_help_items(89), vec![" ←/→ ", "| ↑/↓ ", "| Esc back ", "| q quit "]);
}

#[test]
fn list_entries_show_status_and_names() {
    let w = wf("deploy", true, vec![TriggerConfig::Cron { schedule: "0 * * * * *".to_string() }], vec![]);
    let item = workflow_item(&w);
    assert_eq!(text(&item), "● deploy (cron)");
    assert_eq!(item[0].tone, Tone::Green);
    let off = wf("idle", false, vec![], vec![]);
    assert_eq!(text(&workflow_item(&off)), "○ idle (none)");

    let mut run = WorkflowRun::new_at("deploy", 0xabc, 0);
    run.status = RunStatus::Failed;
    let line = run_item(&run, "01/02 03:04:05");
    assert_eq!(text(&line), "✘ #abc 01/02 03:04:05");
    assert_eq!(line[0].tone, Tone::Red);
    assert_eq!(text(&scheduled_item("01/02 03:04:05")), "🕐 next 01/02 03:04:05");

    let r = result("build", NodeStatus::Skipped, "", 0, None);
    assert_eq!(text(&node_item(0, &r)), " 1. - build");
    assert_eq!(text(&node_item(11, &r)), "12. - build");

    let e = LogEntry { timestamp: 0, level: LogLevel::Warning, message: "careful".to_string() };
    let l = log_line(&e, "01/02 03:04:05");
    assert_eq!(text(&l), "01/02 03:04:05 WARN careful");
    assert_eq!(l[1].tone, Tone::Yellow);
}

#[test]
fn run_details_lay_out_each_node() {
    let mut run = WorkflowRun::new_at("wf", 0x10, 0);
    run.node_results.push(result("fetch", NodeStatus::Success, "line1\nline2\nline3", 0, Some(2_500_000)));
    run.node_results.push(result("report", NodeStatus::Failed("boom".to_string()), "", 3_000_000, Some(3_000_000)));
    run.node_results.push(result("later", NodeStatus::Skipped, "", 0, None));
    let lines = texts(&run_details(&run));
    assert_eq!(lines[0], "Workflow: wf");
    assert_eq!(lines[1], "Run ID:   #10");
    assert_eq!(lines[2], "Started:  00:00:00");
    assert_eq!(lines[4], "Execution Graph:");
    let body: Vec<&str> = lines[6..].iter().map(|s| s.as_str()).collect();
    assert_eq!(
        body,
        vec![
            " ┌─ 1. ✔ fetch",
            " │  ├─ Duration: 2ms",
            " │  ├─ Output:",
            " │  │      line1",
            " │  │   └─ [...]",
            " │",
            "      │",
            "      ↓",
            " ┌─ 2. ✘ report",
            " │  ├─ Duration: 0ms",
            " │  └─ Error: boom",
            "      │",
            "      ↓",
            " ┌─ 3. - later",
            " │  ├─ Skipped: Dependencies not met",
            " │",
            "",
            " └─ Graph Summary:",
            "    Progress: 3/3 nodes completed",
            "    Results:  1 ✔ · 1 ✘ · 1 -",
        ]
    );
}

#[test]
fn results_panel_notes_missing_workflows_and_runs() {
    let none = texts(&results_lines("/w", 0, &[], &[], 0, 0, ""));
    assert_eq!(none[1], "No workflows found.");
    assert_eq!(none[4], "/w directory.");
    let no_runs = texts(&results_lines("/w", 1, &[], &[], 0, 0, ""));
    assert_eq!(no_runs, vec!["", "No runs for this workflow yet.", "", "Press 't' to trigger the workflow."]);
    let entries = vec![RunOrScheduled::ScheduledRun { workflow_name: "wf".to_string(), next_run: 90_500_000_000 }];
    let sched = texts(&results_lines("/w", 1, &entries, &[], 0, 0, "2024-01-01 00:01:30"));
    assert_eq!(sched[1], "Workflow: wf");
    assert_eq!(sched[3], "Status: Scheduled");
    assert_eq!(sched[5], "Next Run: 2024-01-01 00:01:30");
    assert_eq!(sched[7], "In: 1m 30s");
    assert!(results_lines("/w", 1, &entries, &[], 5, 0, "").is_empty());
}

#[test]
fn description_screen_describes_the_selected_workflow() {
    let mut env = StringMap::new();
    env.insert("DEBUG".to_string(), "true".to_string());
    env.insert("OUTPUT_DIR".to_string(), "/tmp/output".to_string());
    let nodes = vec![
        NodeConfig {
            id: "http_node".to_string(),
            kind: NodeKind::Http {
                url: "https://api.example.com".to_string(),
                method: "POST".to_string(),
                headers: StringMap::new(),
                body: None,
                expect_status: Some(201),
            },
            when: Some("always".to_string()),
            retry: Some(3),
            timeout: Some("30s".to_string()),
            depends_on: vec![],
        },
        NodeConfig {
            id: "shell_node".to_string(),
            kind: NodeKind::Shell { cmd: "echo hi".to_string(), env },
            when: None,
            retry: None,
            timeout: None,
            depends_on: vec!["http_node".to_string(), "other".to_string()],
        },
    ];
    let mut w = wf("roundtrip_test", true, vec![TriggerConfig::Manual, TriggerConfig::Cron { schedule: "0 9 * * *".to_string() }], nodes);
    w.description = "Line one\r\nLine two\n".to_string();
    assert_eq!(configuration_of(&w), "Manual trigger, Cron: 0 9 * * * | 2 nodes");
    let lines = texts(&description_lines(&[w], 0));
    assert_eq!(lines[1], "Workflow: roundtrip_test");
    assert_eq!(lines[3], "Configuration: Manual trigger, Cron: 0 9 * * * | 2 nodes");
    assert_eq!(lines[7], "Line one");
    assert_eq!(lines[8], "Line two");
    assert_eq!(lines[10], "Nodes:");
    let rest: Vec<&str> = lines[12..].iter().map(|s| s.as_str()).collect();
    assert_eq!(
        rest,
        vec![
            "  1. http_node (HTTP)",
            "     Action: POST https://api.example.com",
            "     Expect: Status 201",
            "     Options: retry: 3, timeout: 30s, when: always",
            "",
            "  2. shell_node (Shell)",
            "     Command: echo hi",
            "     Env vars: DEBUG, OUTPUT_DIR",
            "     Depends on: http_node, other",
            "",
        ]
    );
    let empty = texts(&description_lines(&[], 0));
    assert_eq!(empty[1], "Workflow: No workflow selected");
    assert_eq!(empty[3], "Configuration: ");
    assert_eq!(empty[7], "Please select a workflow first.");
    assert_eq!(empty.len(), 8);
    let bare = wf("bare", true, vec![], vec![]);
    assert_eq!(configuration_of(&bare), "No triggers configured | No nodes configured");
    let bare_lines = texts(&description_lines(&[bare], 0));
    assert_eq!(bare_lines[7], "No description provided");
    assert_eq!(bare_lines.last().unwrap(), "  No nodes configured");
}

#[test]
fn joining_texts() {
    let parts = vec!["a".to_string(), "b".to_string(), "c".to_string()];
    assert_eq!(join_texts(&parts, ", "), "a, b, c");
    assert_eq!(join_texts(&[], ", "), "");
    assert_eq!(join_texts(&parts[..1], ", "), "a");
}

#[test]
fn logs_keep_the_last_thousand() {
    let mut logs = Vec::new();
    let mut k: i64 = 0;
    while k < 1005 {
        push_log(&mut logs, LogEntry { timestamp: k, level: LogLevel::Info, message: format!("{}", k) });
        k += 1;
    }
    assert_eq!(logs.len(), 1000);
    assert_eq!(logs[0].timestamp, 5);
    assert_eq!(logs[999].timestamp, 1004);
}

#[test]
fn triggering_needs_an_enabled_selection() {
    let ws = vec![wf("on", true, vec![], vec![]), wf("off", false, vec![], vec![])];
    assert_eq!(trigger_choice(&ws, 0), TriggerChoice::Run);
    assert_eq!(trigger_choice(&ws, 1), TriggerChoice::Disabled);
    assert_eq!(trigger_choice(&ws, 2), TriggerChoice::NothingSelected);
    assert_eq!(trigger_choice(&[], 0), TriggerChoice::NothingSelected);
    assert_eq!(logs_owner(&ws, 1), "off");
    assert_eq!(logs_owner(&ws, 7), "System");
}

#[test]
fn messages_name_the_workflow() {
    assert_eq!(manual_trigger_message("w"), "Manually triggered workflow: w");
    assert_eq!(disabled_message("w"), "Workflow 'w' is disabled");
    assert_eq!(toggled_message("w", true), "Workflow w disabled");
    assert_eq!(toggled_message("w", false), "Workflow w enabled");
    let (level, m) = run_outcome_log(RunOrigin::Manual, "w", &Ok(RunStatus::Success)).unwrap();
    assert_eq!(level, LogLevel::Info);
    assert_eq!(m, "Manual workflow completed successfully: w");
    let (level, m) = run_outcome_log(RunOrigin::Cron, "w", &Err("boom".to_string())).unwrap();
    assert_eq!(level, LogLevel::Error);
    assert_eq!(m, "Cron workflow error w: boom");
    assert_eq!(run_outcome_log(RunOrigin::Cron, "w", &Ok(RunStatus::Failed)).unwrap().1, "Cron workflow failed: w");
    assert!(run_outcome_log(RunOrigin::Manual, "w", &Ok(RunStatus::Running)).is_none());
}

#[test]
fn list_command_shows_the_execution_graph() {
    let nodes = vec![
        NodeConfig { id: "setup".to_string(), kind: NodeKind::Log { message: "s".to_string() }, when: None, retry: None, timeout: None, depends_on: vec![] },
        NodeConfig {
            id: "deploy".to_string(),
            kind: NodeKind::Log { message: "d".to_string() },
            when: None,
            retry: None,
            timeout: None,
            depends_on: vec!["setup".to_string(), "build".to_string()],
        },
    ];
    let mut w = wf("alpha", true, vec![], nodes);
    w.description = "Deploys".to_string();
    assert_eq!(
        flowt::describe::workflow_listing(&w),
        vec![
            "  alpha — 2 nodes",
            "    Deploys",
            "    Execution graph:",
            "      ├─ setup (entry point)",
            "      └─ deploy → depends on: setup, build",
            "",
        ]
    );
    let bare = wf("beta", true, vec![], vec![]);
    assert_eq!(flowt::describe::workflow_listing(&bare), vec!["  beta — 0 nodes", "    Execution graph:", ""]);
}

#[test]
fn enabled_manual_workflows_start_on_launch() {
    let ws = vec![
        wf("a", true, vec![TriggerConfig::Manual], vec![]),
        wf("b", false, vec![TriggerConfig::Manual], vec![]),
        wf("c", true, vec![TriggerConfig::Cron { schedule: "0 * * * * *".to_string() }], vec![]),
        wf("d", true, vec![TriggerConfig::Cron { schedule: "x".to_string() }, TriggerConfig::Manual], vec![]),
    ];
    assert_eq!(flowt::describe::launch_runs(&ws), vec![0, 3]);
}

#[test]
fn run_report_and_console_lines() {
    let mut run = WorkflowRun::new_at("wf", 1, 0);
    run.node_results.push(result("a", NodeStatus::Success, "ok", 0, Some(1)));
    run.node_results.push(result("b", NodeStatus::Failed("x".to_string()), "bad", 0, Some(1)));
    run.node_results.push(result("c", NodeStatus::Skipped, "Skipped due to failed dependencies", 0, Some(1)));
    assert_eq!(
        flowt::view::run_report(&run),
        vec!["  ✔ [a] ok", "  ✘ [b] bad", "  - [c] Skipped due to failed dependencies"]
    );
    let e = LogEntry { timestamp: 3_723_000_000_000, level: LogLevel::Error, message: "boom".to_string() };
    assert_eq!(flowt::view::console_log_line("wf", &e), "\x1b[31m[wf]\x1b[0m \x1b[90m01:02:03\x1b[0m boom");
}

#[test]
fn node_detail_shows_error_output_and_response() {
    let mut r = result("fetch", NodeStatus::Failed("first\nsecond".to_string()), "out1\nout2\n", 1_000_000, Some(4_500_000));
    r.response_data = Some(flowt::json::JsonValue::Null);
    let lines = texts(&flowt::view::node_detail_lines(&r, "S", "F", Some("{\n  \"a\": 1\n}")));
    assert_eq!(
        lines,
        vec![
            "Node: fetch",
            "Status: Failed",
            "Started: S",
            "Finished: F",
            "Duration: 3ms",
            "",
            "Error: ",
            "  first",
            "  second",
            "",
            "Shell Output:",
            "───────────────────",
            "out1",
            "out2",
            "",
            "API Response:",
            "───────────────────",
            "{",
            "  \"a\": 1",
            "}",
        ]
    );
    let plain = result("p", NodeStatus::Running, "", 0, None);
    let lines = texts(&flowt::view::node_detail_lines(&plain, "S", "F", None));
    assert_eq!(lines, vec!["Node: p", "Status: Running", "Started: S", ""]);
    let mut broken = result("q", NodeStatus::Success, "", 0, None);
    broken.response_data = Some(flowt::json::JsonValue::Bool(true));
    let lines = texts(&flowt::view::node_detail_lines(&broken, "S", "F", None));
    assert_eq!(lines.last().unwrap(), "Failed to format JSON");
}

#[test]
fn header_names_the_mode() {
    assert_eq!(text(&flowt::view::status_header(true)), "🔗 Connected to Flowt service • Jobs running by other instances");
    assert_eq!(text(&flowt::view::status_header(false)), "⚡ TUI Engine Mode • Jobs active in this session");
}

#[test]
fn a_sequence_of_keys_keeps_selection_and_turns_panels() {
    let mut s = UiState::new();
    let i = info(3, 2, None);
    for key in [Key::Down, Key::Down, Key::Down, Key::Char('j'), Key::Up, Key::Down, Key::Down] {
        s.handle_key(key, i);
        assert!(s.selected_workflow < 3);
    }
    assert_eq!(s.selected_workflow, 2);
    // Two steps right and four left: net two left, from Workflows to Runs.
    for key in [Key::Tab, Key::Right, Key::Left, Key::Left, Key::Left, Key::Left] {
        s.handle_key(key, i);
    }
    assert_eq!(s.focused_panel, FocusedPanel::Runs);
    assert_eq!(s.current_view, AppView::Workflows);
}

#[test]
fn a_connected_dashboard_checks_the_engine_every_two_seconds() {
    assert!(engine_check_due(true, 2000));
    assert!(!engine_check_due(true, 1999));
    assert!(!engine_check_due(false, 5000));
}
