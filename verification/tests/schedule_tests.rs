use flowt::config::{NodeConfig, NodeKind, TriggerConfig, WorkflowConfig};
use flowt::schedule::{cron_schedules_of, cron_tick, cron_tick_at, due_at, first_time, trigger_next_times, has_manual_trigger, is_schedulable, next_scheduled_run, CronCheck, CronEvent, FiredSchedule};

fn wf(name: &str, enabled: bool, triggers: Vec<TriggerConfig>, with_node: bool) -> WorkflowConfig {
    let nodes = if with_node {
        vec![NodeConfig {
            id: "n".to_string(),
            kind: NodeKind::Log { message: "m".to_string() },
            when: None,
            retry: None,
            timeout: None,
            depends_on: vec![],
        }]
    } else {
        vec![]
    };
    WorkflowConfig { name: name.to_string(), description: String::new(), enabled, triggers, nodes }
}

fn cron(s: &str) -> TriggerConfig {
    TriggerConfig::Cron { schedule: s.to_string() }
}

const SECOND: i64 = 1_000_000_000;

#[test]
fn due_once_its_time_has_come() {
    // 2023-11-14 22:13:20 UTC
    let t: i64 = 1_700_000_000 * SECOND;
    match due_at("backup", Some(t), t + SECOND / 2) {
        CronCheck::Due { key, fire_at } => {
            assert_eq!(key, "backup_202311142213");
            assert_eq!(fire_at, t);
        }
        other => panic!("expected due, got {:?}", other),
    }
    assert!(matches!(due_at("backup", Some(t), t - 1), CronCheck::NotDue));
    assert!(matches!(due_at("backup", Some(t), t), CronCheck::Due { .. }));
    assert!(matches!(due_at("backup", Some(t), t + 5 * SECOND), CronCheck::Due { .. }));
    assert!(matches!(due_at("backup", None, t), CronCheck::NotDue));
}

#[test]
fn a_firing_runs_once() {
    let mut fired = FiredSchedule::new();
    let now: i64 = 1_000 * SECOND;
    assert!(fired.claim("w_1".to_string(), now, now));
    assert!(!fired.claim("w_1".to_string(), now, now + SECOND));
    assert!(fired.claim("w_2".to_string(), now + 60 * SECOND, now + 60 * SECOND));
    assert_eq!(fired.entries.len(), 2);
    // Two minutes later the old firings are forgotten when a new one is recorded.
    assert!(fired.claim("w_3".to_string(), now + 200 * SECOND, now + 200 * SECOND));
    assert_eq!(fired.entries.len(), 1);
    assert_eq!(fired.entries[0].0, "w_3");
}

#[test]
fn invalid_expressions_are_reported() {
    let ws = vec![
        wf("bad", true, vec![cron("not a cron"), TriggerConfig::Manual], true),
        wf("disabled", false, vec![cron("also bad")], true),
        wf("empty", true, vec![cron("still bad")], false),
    ];
    let mut fired = FiredSchedule::new();
    let events = cron_tick(&ws, &mut fired, 0);
    assert_eq!(events.len(), 1);
    match &events[0] {
        CronEvent::Invalid { index, message } => {
            assert_eq!(*index, 0);
            assert_eq!(message, "Invalid cron schedule: not a cron for workflow: bad");
        }
        other => panic!("expected an invalid report, got {:?}", other),
    }
}

#[test]
fn a_schedule_every_second_is_due_now() {
    let ws = vec![wf("tick", true, vec![cron("* * * * * *")], true)];
    let mut fired = FiredSchedule::new();
    let mut events = Vec::new();
    let mut attempts: u32 = 0;
    while events.is_empty() && attempts < 5 {
        let now: i64 = flowt::clock::now_nanos();
        events = cron_tick(&ws, &mut fired, now);
        attempts += 1;
    }
    assert_eq!(events.len(), 1);
    match &events[0] {
        CronEvent::Start { index, message } => {
            assert_eq!(*index, 0);
            assert_eq!(message, "Cron triggered workflow: tick");
        }
        other => panic!("expected a start, got {:?}", other),
    }
    assert!(next_scheduled_run(&ws[0], flowt::clock::now_nanos()).is_some());
}

#[test]
fn triggers_of_a_workflow() {
    let w = wf("w", true, vec![TriggerConfig::Manual, cron("0 9 * * * *"), cron("x")], true);
    assert_eq!(cron_schedules_of(&w), vec!["0 9 * * * *".to_string(), "x".to_string()]);
    assert!(has_manual_trigger(&w));
    assert!(is_schedulable(&w));
    assert!(!is_schedulable(&wf("w", false, vec![], true)));
    assert!(!is_schedulable(&wf("w", true, vec![], false)));
    assert!(next_scheduled_run(&wf("w", true, vec![cron("bad")], true), 0).is_none());
    assert!(next_scheduled_run(&wf("w", true, vec![TriggerConfig::Manual], true), 0).is_none());
}

#[test]
fn first_present_time_is_taken() {
    assert_eq!(first_time(&[None, Some(5), Some(3)]), Some(5));
    assert_eq!(first_time(&[Some(7)]), Some(7));
    assert_eq!(first_time(&[None, None]), None);
    assert_eq!(first_time(&[]), None);
}

#[test]
fn next_times_only_for_parsing_cron_triggers() {
    let w = wf("w", true, vec![TriggerConfig::Manual, cron("bad"), cron("* * * * * *")], true);
    // 2023-11-14 22:13:20.5 UTC
    let t: i64 = 1_700_000_000 * SECOND + SECOND / 2;
    let times = trigger_next_times(&w, t);
    assert_eq!(times, vec![None, None, Some(1_700_000_001 * SECOND)]);
    assert_eq!(next_scheduled_run(&w, t), Some(1_700_000_001 * SECOND));
    // Every hour on the hour: the next is 23:00:00.
    let hourly = wf("h", true, vec![TriggerConfig::Manual, cron("0 0 * * * *"), cron("* * * * * *")], true);
    assert_eq!(next_scheduled_run(&hourly, t), Some(1_700_002_800 * SECOND));
}

#[test]
fn tick_starts_due_triggers_once() {
    // 2023-11-14 22:13:20 UTC
    let t: i64 = 1_700_000_000 * SECOND;
    let ws = vec![
        wf("a", true, vec![cron("0 * * * * *"), TriggerConfig::Manual], true),
        wf("b", true, vec![cron("0 * * * * *")], true),
        wf("c", false, vec![cron("0 * * * * *")], true),
        wf("d", true, vec![cron("nope")], true),
    ];
    // a is due now; b's next time is two seconds away; c is disabled.
    let next = vec![vec![Some(t), None], vec![Some(t + 2 * SECOND)], vec![Some(t)], vec![None]];
    let mut fired = FiredSchedule::new();
    let events = cron_tick_at(&ws, &next, &mut fired, t);
    assert_eq!(events.len(), 2);
    match &events[0] {
        CronEvent::Start { index, message } => {
            assert_eq!(*index, 0);
            assert_eq!(message, "Cron triggered workflow: a");
        }
        other => panic!("expected a start, got {:?}", other),
    }
    match &events[1] {
        CronEvent::Invalid { index, message } => {
            assert_eq!(*index, 3);
            assert_eq!(message, "Invalid cron schedule: nope for workflow: d");
        }
        other => panic!("expected an invalid report, got {:?}", other),
    }
    assert_eq!(fired.entries.len(), 1);
    assert_eq!(fired.entries[0].0, "a_202311142213");
    // The same firing, a moment later, is not started again.
    let again = cron_tick_at(&ws, &next, &mut fired, t + SECOND / 2);
    assert_eq!(again.len(), 1);
    assert!(matches!(&again[0], CronEvent::Invalid { index: 3, .. }));
}

#[test]
fn utc_text_agrees_with_chrono() {
    let instants: Vec<i64> = vec![
        0,
        -1,
        1,
        999_999_999,
        -1_000_000_000,
        1_700_000_000 * SECOND,
        951_782_400 * SECOND,          // 2000-02-29
        951_868_799 * SECOND + 5,      // 2000-02-29 23:59:59
        -2_203_891_200 * SECOND,       // 1900-03-01
        -2_208_988_800 * SECOND - 1,   // 1899-12-31 23:59:59
        4_107_542_400 * SECOND,        // 2100-03-01
        i64::MIN,
        i64::MAX,
        1_234_567_890_123_456_789,
        -1_234_567_890_123_456_789,
    ];
    for n in instants {
        let t = chrono::DateTime::from_timestamp_nanos(n);
        assert_eq!(flowt::clock::minute_stamp_text(n), t.format("%Y%m%d%H%M").to_string(), "at {}", n);
        assert_eq!(flowt::clock::clock_text_of(n), t.format("%H:%M:%S").to_string(), "at {}", n);
    }
}

#[test]
fn a_firing_between_two_looks_is_started() {
    // 2023-11-14 22:14:00 UTC, a whole minute.
    let minute: i64 = 1_700_000_040 * SECOND;
    let ws = vec![wf("m", true, vec![cron("0 * * * * *")], true)];
    let mut fired = FiredSchedule::new();
    fired.last_look = Some(minute - 5 * SECOND);
    // The look comes three seconds late: the firing at the minute is still started.
    let events = cron_tick(&ws, &mut fired, minute + 3 * SECOND);
    assert_eq!(events.len(), 1);
    assert!(matches!(&events[0], CronEvent::Start { index: 0, .. }));
    assert_eq!(fired.last_look, Some(minute + 3 * SECOND));
    assert_eq!(fired.entries[0].0, "m_202311142214");
    // The next look finds nothing new.
    let later = cron_tick(&ws, &mut fired, minute + 5 * SECOND);
    assert!(later.is_empty());
}
