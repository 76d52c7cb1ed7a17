use codex_tui::app::App;
use codex_tui::app_event::LoopTimerTriggerSource;
use codex_tui::idle_triggers::IdleTriggerToArm;
use codex_tui::loop_book::LoopContextMode;
use codex_tui::loop_book::LoopExecutionSettings;
use codex_tui::loop_book::LoopMode;
use codex_tui::loop_book::LoopResponseMode;
use codex_tui::loop_book::LoopSchedule;
use codex_tui::loop_book::LoopSecurityMode;
use codex_tui::loop_book::LoopTimer;
use codex_tui::loop_book::LoopTriggerBinding;
use codex_tui::loop_book::LoopTriggerKind;
use codex_tui::turn_phases::LoopTriggerQueueEntry;

fn five_minutes() -> LoopSchedule {
    LoopSchedule::Interval { display: "5m".to_string(), seconds: 300 }
}

fn idle_timer(id: &str, enabled: bool, bindings: Vec<LoopTriggerBinding>) -> LoopTimer {
    LoopTimer {
        id: id.to_string(),
        mode: LoopMode::Persistent,
        prompt: "review recent work".to_string(),
        action: None,
        context_mode: LoopContextMode::Persistent,
        response_mode: LoopResponseMode::Assistant,
        security_mode: LoopSecurityMode::Inherited,
        execution: LoopExecutionSettings { cwd: None, writable_roots: Vec::new() },
        schedule: five_minutes(),
        trigger_bindings: bindings,
        enabled,
        rollout_path: None,
        created_at_unix_seconds: 1,
        last_scheduled_at_unix_seconds: None,
        last_completed_at_unix_seconds: None,
    }
}

fn idle_binding(id: &str, enabled: bool) -> LoopTriggerBinding {
    LoopTriggerBinding { id: id.to_string(), enabled, kind: LoopTriggerKind::Idle { after: five_minutes() } }
}

fn entry(loop_id: &str, binding_id: &str) -> LoopTriggerQueueEntry {
    LoopTriggerQueueEntry { loop_id: loop_id.to_string(), binding_id: binding_id.to_string() }
}

fn delay_seconds(schedule: &LoopSchedule) -> i64 {
    match schedule {
        LoopSchedule::Interval { seconds, .. } => *seconds as i64,
        LoopSchedule::Cron { .. } => panic!("interval expected"),
    }
}

#[test]
fn arm_idle_triggers_tracks_due_time_until_canceled() {
    let mut app = App::new(Some("main".to_string()));
    app.loop_timers.timers.insert(idle_timer("idle-review", true, vec![idle_binding("trigger-1", true)]));
    let entries = vec![entry("idle-review", "trigger-1")];
    let completed_at: i64 = 1_775_124_000;

    let (cancelled, to_arm) = app.arm_idle_triggers_for_primary_round(&entries);
    assert!(cancelled.is_empty());
    assert_eq!(
        to_arm,
        vec![IdleTriggerToArm { loop_id: "idle-review".to_string(), binding_id: "trigger-1".to_string(), after: five_minutes() }]
    );
    for arm in &to_arm {
        let due = completed_at.saturating_add(delay_seconds(&arm.after));
        assert!(!app.schedule_idle_trigger(&arm.loop_id, &arm.binding_id, due));
    }

    assert_eq!(app.loop_timers.idle_due_at.get("idle-review:trigger-1"), Some(completed_at.saturating_add(300)));
    assert_eq!(app.loop_timers.idle_scheduler_tasks.keys_with_prefix("").len(), 1);

    app.cancel_primary_idle_triggers();

    assert_eq!(app.loop_timers.idle_due_at.get("idle-review:trigger-1"), None);
    assert!(app.loop_timers.idle_scheduler_tasks.keys_with_prefix("").is_empty());
}

#[test]
fn arming_skips_loops_and_triggers_that_are_off_or_not_idle() {
    let mut app = App::new(Some("main".to_string()));
    app.loop_timers.timers.insert(idle_timer("a", true, vec![
        idle_binding("i1", true),
        idle_binding("i2", false),
        LoopTriggerBinding { id: "t1".to_string(), enabled: true, kind: LoopTriggerKind::AfterTurn },
    ]));
    app.loop_timers.timers.insert(idle_timer("off", false, vec![idle_binding("i1", true)]));
    app.loop_timers.timers.insert(idle_timer("b", true, vec![idle_binding("i1", true)]));
    let entries = vec![
        entry("b", "i1"),
        entry("a", "i2"),
        entry("a", "t1"),
        entry("off", "i1"),
        entry("gone", "i1"),
        entry("a", "missing"),
        entry("a", "i1"),
    ];
    let all: Vec<(String, String)> = app
        .idle_triggers_to_arm(&entries, None)
        .into_iter()
        .map(|a| (a.loop_id, a.binding_id))
        .collect();
    assert_eq!(all, vec![("b".to_string(), "i1".to_string()), ("a".to_string(), "i1".to_string())]);
    let only_a: Vec<String> = app
        .arm_idle_triggers_for_loop_from_now(&entries, "a")
        .into_iter()
        .map(|a| a.binding_id)
        .collect();
    assert_eq!(only_a, vec!["i1".to_string()]);
}

#[test]
fn rescheduling_replaces_the_wait_and_reports_the_old_one() {
    let mut app = App::new(None);
    assert!(!app.schedule_idle_trigger("loop", "b1", 100));
    assert!(app.schedule_idle_trigger("loop", "b1", 250));
    assert_eq!(app.loop_timers.idle_due_at.get("loop:b1"), Some(250));
    assert_eq!(app.loop_timers.idle_scheduler_tasks.keys_with_prefix("loop:").len(), 1);

    assert!(!app.schedule_loop_timer("timer-1"));
    assert!(app.schedule_loop_timer("timer-1"));
    assert!(app.stop_loop_timer_scheduler("timer-1"));
}

#[test]
fn due_idle_triggers_fire_once_in_queue_order() {
    let mut app = App::new(Some("main".to_string()));
    app.loop_timers.timers.insert(idle_timer("a", true, vec![idle_binding("i1", true)]));
    app.loop_timers.timers.insert(idle_timer("b", true, vec![idle_binding("i1", true)]));
    app.loop_timers.timers.insert(idle_timer("later", true, vec![idle_binding("i1", true)]));
    let entries = vec![entry("b", "i1"), entry("later", "i1"), entry("a", "i1")];
    app.schedule_idle_trigger("a", "i1", 1_000);
    app.schedule_idle_trigger("b", "i1", 900);
    app.schedule_idle_trigger("later", "i1", 2_000);

    let due = app.trigger_due_idle_phase(&entries, 1_000);
    assert_eq!(due, vec!["b".to_string(), "a".to_string()]);
    assert_eq!(app.loop_timers.idle_due_at.get("a:i1"), None);
    assert_eq!(app.loop_timers.idle_due_at.get("b:i1"), None);
    assert_eq!(app.loop_timers.idle_due_at.get("later:i1"), Some(2_000));
    assert_eq!(app.loop_timers.idle_scheduler_tasks.keys_with_prefix("").len(), 1);

    assert!(app.trigger_due_idle_phase(&entries, 1_000).is_empty());
    assert_eq!(app.trigger_due_idle_phase(&entries, 2_000), vec!["later".to_string()]);
}

#[test]
fn disabled_idle_trigger_is_not_taken_even_when_due() {
    let mut app = App::new(Some("main".to_string()));
    app.loop_timers.timers.insert(idle_timer("a", true, vec![idle_binding("i1", false)]));
    app.schedule_idle_trigger("a", "i1", 10);
    assert!(app.trigger_due_idle_phase(&vec![entry("a", "i1")], 100).is_empty());
    assert_eq!(app.loop_timers.idle_due_at.get("a:i1"), Some(10));
}

#[test]
fn due_timer_phase_runs_enabled_loops_due_and_not_yet_scheduled() {
    let mut app = App::new(Some("main".to_string()));
    let mut fresh = idle_timer("fresh", true, Vec::new());
    fresh.last_scheduled_at_unix_seconds = Some(500);
    let mut already = idle_timer("already", true, Vec::new());
    already.last_scheduled_at_unix_seconds = Some(1_000);
    app.loop_timers.timers.insert(fresh);
    app.loop_timers.timers.insert(already);
    app.loop_timers.timers.insert(idle_timer("off", false, Vec::new()));
    app.loop_timers.timers.insert(idle_timer("never", true, Vec::new()));
    app.loop_timers.timers.insert(idle_timer("later", true, Vec::new()));
    let entries = vec![
        entry("later", "t"),
        entry("fresh", "t"),
        entry("already", "t"),
        entry("off", "t"),
        entry("gone", "t"),
        entry("never", "t"),
    ];
    let dues = vec![Some(1_500), Some(800), Some(900), Some(100), Some(100), Some(1_000)];
    assert_eq!(app.trigger_due_timer_phase(&entries, &dues, 1_000), vec!["fresh".to_string(), "never".to_string()]);
    let no_dues = vec![None, None, None, None, None, None];
    assert!(app.trigger_due_timer_phase(&entries, &no_dues, 1_000).is_empty());
}

#[test]
fn loop_timer_trigger_routes_by_source() {
    let mut app = App::new(Some("main".to_string()));
    app.loop_timers.timers.insert(idle_timer("a", true, vec![idle_binding("i1", true)]));
    app.schedule_idle_trigger("a", "i1", 50);
    let timer_entries = vec![entry("a", "t")];
    let timer_dues = vec![Some(40)];
    let idle_entries = vec![entry("a", "i1")];

    let manual = app.trigger_loop_timer("a".to_string(), 60, LoopTimerTriggerSource::Manual, &timer_entries, &timer_dues, &idle_entries);
    assert_eq!(manual.loop_ids, vec!["a".to_string()]);
    assert!(manual.update_timer_schedule);
    assert_eq!(app.loop_timers.idle_due_at.get("a:i1"), Some(50));

    let timer = app.trigger_loop_timer(String::new(), 60, LoopTimerTriggerSource::ScheduledTimer, &timer_entries, &timer_dues, &idle_entries);
    assert_eq!(timer.loop_ids, vec!["a".to_string()]);
    assert!(timer.update_timer_schedule);

    let idle = app.trigger_loop_timer(String::new(), 60, LoopTimerTriggerSource::ScheduledIdle, &timer_entries, &timer_dues, &idle_entries);
    assert_eq!(idle.loop_ids, vec!["a".to_string()]);
    assert!(!idle.update_timer_schedule);
    assert_eq!(app.loop_timers.idle_due_at.get("a:i1"), None);
}
