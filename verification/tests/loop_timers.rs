use codex_tui::after_turn::AfterTurnDrain;
use codex_tui::after_turn::AfterTurnRound;
use codex_tui::after_turn::LoopMirroredUserTurn;
use codex_tui::after_turn::LoopReplySource;
use codex_tui::app::App;
use codex_tui::app_event::AppEvent;
use codex_tui::app_event::LoopTimerTriggerSource;
use codex_tui::history::HistoryNotice;
use codex_tui::loop_book::LoopContextMode;
use codex_tui::loop_book::LoopExecutionSettings;
use codex_tui::loop_book::LoopMode;
use codex_tui::loop_book::LoopResponseMode;
use codex_tui::loop_book::LoopSchedule;
use codex_tui::loop_book::LoopSecurityMode;
use codex_tui::loop_book::LoopTimer;
use codex_tui::loop_book::LoopTriggerBinding;
use codex_tui::loop_book::LoopTriggerKind;
use codex_tui::loop_timers::due_for_loaded_timer;
use codex_tui::loop_timers::loop_info_cell;
use codex_tui::loop_timers::loop_timer_actions_params;
use codex_tui::loop_timers::loop_timer_trigger_plan;
use codex_tui::loop_timers::loop_turn_result;
use codex_tui::loop_timers::note_loop_agent_message;
use codex_tui::loop_timers::scheduled_trigger_label;
use codex_tui::loop_timers::LoopTimerActionsView;
use codex_tui::loop_timers::LoopTimerTexts;
use codex_tui::loop_timers::LoopTimerTriggerPlan;
use codex_tui::loop_timers::TaskKeys;
use codex_tui::selection::PopupHint;

fn interval(display: &str, seconds: u64) -> LoopSchedule {
    LoopSchedule::Interval { display: display.to_string(), seconds }
}

fn binding(id: &str, enabled: bool, kind: LoopTriggerKind) -> LoopTriggerBinding {
    LoopTriggerBinding { id: id.to_string(), enabled, kind }
}

fn timer(id: &str, context_mode: LoopContextMode, enabled: bool) -> LoopTimer {
    LoopTimer {
        id: id.to_string(),
        mode: LoopMode::Persistent,
        prompt: "check the build".to_string(),
        action: Some("then report".to_string()),
        context_mode,
        response_mode: LoopResponseMode::Assistant,
        security_mode: LoopSecurityMode::Inherited,
        execution: LoopExecutionSettings { cwd: None, writable_roots: Vec::new() },
        schedule: interval("1h", 3600),
        trigger_bindings: vec![binding("trigger-1", true, LoopTriggerKind::Timer { schedule: interval("1h", 3600) })],
        enabled,
        rollout_path: None,
        created_at_unix_seconds: 10,
        last_scheduled_at_unix_seconds: None,
        last_completed_at_unix_seconds: None,
    }
}

fn texts(timer_schedule: Option<LoopSchedule>) -> LoopTimerTexts {
    LoopTimerTexts {
        descriptor: "Nightly review".to_string(),
        timer_schedule,
        context_mode_title: "Persistent".to_string(),
        response_mode_title: "Assistant".to_string(),
        security_mode_title: "Inherited".to_string(),
        execution_summary: "gpt-5 · high".to_string(),
    }
}

#[test]
fn timer_actions_menu_lists_every_action_for_the_timer() {
    let params = loop_timer_actions_params(&timer("timer-1", LoopContextMode::Persistent, true), &texts(Some(interval("every 1h", 3600))), 1_700_000_000);
    assert_eq!(params.view_id.as_deref(), Some("fork-loop-timer-actions-panel"));
    assert_eq!(params.title.as_deref(), Some("Loop Manager"));
    assert_eq!(params.subtitle.as_deref(), Some("Nightly review · every 1h"));
    assert_eq!(params.footer_hint, Some(PopupHint::Standard));
    assert_eq!(params.on_cancel, Some(AppEvent::OpenLoopTimersPanel));
    assert!(!params.is_searchable);
    let names: Vec<&str> = params.items.iter().map(|item| item.name.as_str()).collect();
    assert_eq!(
        names,
        vec![
            "Run Now",
            "Edit Prompt",
            "Triggers",
            "Edit Action",
            "Context Mode",
            "Response Mode",
            "Security Mode",
            "Execution Settings",
            "Disable",
            "Delete",
        ]
    );
    assert!(params.items.iter().all(|item| item.dismiss_on_select));
    assert_eq!(
        params.items[0].actions,
        vec![AppEvent::TriggerLoopTimer {
            timer_id: "timer-1".to_string(),
            scheduled_for_unix_seconds: 1_700_000_000,
            source: LoopTimerTriggerSource::Manual,
        }]
    );
    assert_eq!(
        params.items[4].description.as_deref(),
        Some("Currently Persistent. Adjust whether this loop runs embedded, ephemeral, or persistent.")
    );
    assert_eq!(params.items[7].description.as_deref(), Some("gpt-5 · high"));
    assert_eq!(params.items[8].actions, vec![AppEvent::DisableLoopTimer { timer_id: "timer-1".to_string() }]);
    assert_eq!(params.items[9].actions, vec![AppEvent::DeleteLoopTimer { timer_id: "timer-1".to_string() }]);
}

#[test]
fn disabled_timer_offers_enable() {
    let params = loop_timer_actions_params(&timer("timer-1", LoopContextMode::Ephemeral, false), &texts(None), 5);
    assert_eq!(params.items[8].name, "Enable");
    assert_eq!(params.items[8].description.as_deref(), Some("Resume future scheduled executions."));
    assert_eq!(params.items[8].actions, vec![AppEvent::EnableLoopTimer { timer_id: "timer-1".to_string() }]);
    assert_eq!(params.subtitle.as_deref(), Some("Nightly review · no scheduled trigger"));
}

#[test]
fn opening_actions_of_a_missing_timer_reports_it() {
    let mut app = App::new(None);
    assert_eq!(
        app.open_loop_timer_actions("timer-1", &texts(None), 0),
        LoopTimerActionsView::Missing { error: "That loop timer no longer exists.".to_string() }
    );
    app.loop_timers.timers.insert(timer("timer-1", LoopContextMode::Persistent, true));
    let expected = loop_timer_actions_params(&timer("timer-1", LoopContextMode::Persistent, true), &texts(None), 9);
    match app.open_loop_timer_actions("timer-1", &texts(None), 9) {
        LoopTimerActionsView::Show(params) => assert_eq!(params, expected),
        other => panic!("unexpected view: {other:?}"),
    }
}

#[test]
fn trigger_label_prefers_schedule_then_idle_delay() {
    let mut t = timer("t", LoopContextMode::Ephemeral, true);
    assert_eq!(scheduled_trigger_label(&t, Some(&interval("every 5m", 300))), "every 5m");
    assert_eq!(scheduled_trigger_label(&t, None), "no scheduled trigger");
    t.trigger_bindings.push(binding("b2", false, LoopTriggerKind::Idle { after: interval("5m", 300) }));
    t.trigger_bindings.push(binding("b3", true, LoopTriggerKind::Idle { after: interval("10m", 600) }));
    assert_eq!(scheduled_trigger_label(&t, None), "idle 10m");
    assert_eq!(t.effective_idle_after(), Some(interval("10m", 600)));
}

#[test]
fn trigger_plan_follows_the_context_mode() {
    assert_eq!(loop_timer_trigger_plan(None, false), LoopTimerTriggerPlan::Ignore);
    let embed = timer("loop-7", LoopContextMode::Embed, true);
    assert_eq!(loop_timer_trigger_plan(Some(&embed), true), LoopTimerTriggerPlan::AlreadyRunning);
    assert_eq!(
        loop_timer_trigger_plan(Some(&embed), false),
        LoopTimerTriggerPlan::SubmitToPrimary(LoopMirroredUserTurn {
            text: "check the build".to_string(),
            source: LoopReplySource { loop_id: "loop-7".to_string(), action: Some("then report".to_string()) },
        })
    );
    assert_eq!(
        loop_timer_trigger_plan(Some(&timer("l", LoopContextMode::Ephemeral, true)), false),
        LoopTimerTriggerPlan::StartThread { persistent: false }
    );
    assert_eq!(
        loop_timer_trigger_plan(Some(&timer("l", LoopContextMode::Persistent, true)), false),
        LoopTimerTriggerPlan::StartThread { persistent: true }
    );
}

#[test]
fn triggering_now_records_the_schedule_time() {
    let mut app = App::new(None);
    assert_eq!(app.trigger_loop_timer_now("gone", 100, true, Some(200)).plan, LoopTimerTriggerPlan::Ignore);
    app.loop_timers.timers.insert(timer("loop-7", LoopContextMode::Persistent, true));
    let manual = app.trigger_loop_timer_now("loop-7", 100, false, Some(200));
    assert_eq!(manual.plan, LoopTimerTriggerPlan::StartThread { persistent: true });
    assert_eq!(manual.rescheduled_for, None);
    assert_eq!(app.loop_timers.timers.get("loop-7").unwrap().last_scheduled_at_unix_seconds, None);
    app.note_loop_timer_run_started("loop-7".to_string());
    let scheduled = app.trigger_loop_timer_now("loop-7", 120, true, Some(3_720));
    assert_eq!(scheduled.plan, LoopTimerTriggerPlan::AlreadyRunning);
    assert_eq!(scheduled.rescheduled_for, Some(3_720));
    assert!(!scheduled.abort_previous);
    assert_eq!(app.loop_timers.timers.get("loop-7").unwrap().last_scheduled_at_unix_seconds, Some(120));
    assert!(app.stop_loop_timer_run("loop-7"));
    let again = app.trigger_loop_timer_now("loop-7", 3_720, true, Some(7_320));
    assert_eq!(again.plan, LoopTimerTriggerPlan::StartThread { persistent: true });
    assert!(again.abort_previous);
    assert!(app.stop_loop_timer_scheduler("loop-7"));
}

#[test]
fn triggering_a_disabled_timer_does_not_rearm_it() {
    let mut app = App::new(None);
    app.loop_timers.timers.insert(timer("off", LoopContextMode::Persistent, false));
    let r = app.trigger_loop_timer_now("off", 100, true, Some(200));
    assert_eq!(r.rescheduled_for, None);
    assert!(!app.stop_loop_timer_scheduler("off"));
}

#[test]
fn loop_turn_result_prefers_the_turn_message_and_trims_it() {
    assert_eq!(
        loop_turn_result(Some("  done \n".to_string()), Some("streamed".to_string())),
        Some("done".to_string())
    );
    assert_eq!(loop_turn_result(None, Some(" streamed ".to_string())), Some("streamed".to_string()));
    assert_eq!(loop_turn_result(Some("   ".to_string()), Some("streamed".to_string())), None);
    assert_eq!(loop_turn_result(None, None), None);
}

#[test]
fn blank_agent_messages_do_not_replace_the_last_one() {
    let mut last = None;
    note_loop_agent_message(&mut last, "first".to_string());
    assert_eq!(last.as_deref(), Some("first"));
    note_loop_agent_message(&mut last, " \n ".to_string());
    assert_eq!(last.as_deref(), Some("first"));
    note_loop_agent_message(&mut last, " second ".to_string());
    assert_eq!(last.as_deref(), Some(" second "));
}

#[test]
fn task_keys_hold_each_key_once() {
    let mut keys = TaskKeys::new();
    keys.insert("a:1".to_string());
    keys.insert("a:1".to_string());
    keys.insert("b:1".to_string());
    let mut with_a = keys.keys_with_prefix("a:");
    with_a.sort();
    assert_eq!(with_a, vec!["a:1".to_string()]);
    assert!(keys.remove("a:1"));
    assert!(!keys.remove("a:1"));
    assert_eq!(keys.drain(), vec!["b:1".to_string()]);
    assert!(keys.drain().is_empty());
}

#[test]
fn after_turn_progress_names_the_current_loop() {
    let mut app = App::new(None);
    app.loop_timers.after_turn_scheduler.note_turn_complete(Some("reply".to_string()));
    let _ = app.loop_timers.after_turn_scheduler.next_action();
    assert_eq!(
        app.loop_timers.after_turn_scheduler.status_label().as_deref(),
        Some("after-turn queue (running) · 0 round(s) · 0 follow-up(s)")
    );
    app.note_primary_after_turn_round_progress("Nightly review".to_string());
    assert_eq!(app.loop_timers.after_turn_scheduler.status_label().as_deref(), Some("Nightly review"));
    app.note_loop_timer_run_started("t1".to_string());
    app.note_loop_timer_run_started("t2".to_string());
    app.note_loop_timer_run_started("t1".to_string());
    let (stopped, mut runs) = app.stop_active_loop_runs();
    assert_eq!(stopped, 3);
    runs.sort();
    assert_eq!(runs, vec!["t1".to_string(), "t2".to_string()]);
    assert!(!app.stop_loop_timer_run("t1"));
    assert_eq!(app.loop_timers.after_turn_scheduler.status_label(), None);
    assert_eq!(app.stop_after_turn_round_task(), 0);
}

#[test]
fn overdue_scheduled_run_starts_at_once() {
    let on = timer("t", LoopContextMode::Ephemeral, true);
    let off = timer("t", LoopContextMode::Ephemeral, false);
    assert_eq!(due_for_loaded_timer(&on, Some(1_774_776_516), Some(1_774_778_000), 1_774_777_938), Some(1_774_776_516));
    assert_eq!(due_for_loaded_timer(&on, Some(1_774_778_100), Some(1_774_778_000), 1_774_777_938), Some(1_774_778_000));
    assert_eq!(due_for_loaded_timer(&on, None, Some(7), 5), Some(7));
    assert_eq!(due_for_loaded_timer(&off, Some(1), Some(7), 5), None);
}

#[test]
fn loop_reply_hint_names_the_action_when_present() {
    let with_action = LoopReplySource { loop_id: "loop-7".to_string(), action: Some(" ship it ".to_string()) };
    assert_eq!(with_action.hint("ship it"), "loop-7 · ship it");
    let blank = LoopReplySource { loop_id: "loop-7".to_string(), action: Some("   ".to_string()) };
    assert_eq!(blank.hint("ignored"), "loop-7");
    assert_eq!(
        loop_info_cell(&with_action, "ship it"),
        HistoryNotice::Info { message: "Loop agent reply".to_string(), hint: Some("loop-7 · ship it".to_string()) }
    );
}

#[test]
fn create_trigger_menu_offers_each_kind() {
    let params = App::new(None).open_create_loop_trigger_menu("loop-7".to_string());
    assert_eq!(params.view_id.as_deref(), Some("fork-loop-trigger-create-panel"));
    assert_eq!(params.subtitle.as_deref(), Some("Add Trigger · loop-7"));
    let names: Vec<&str> = params.items.iter().map(|item| item.name.as_str()).collect();
    assert_eq!(names, vec!["Timer Trigger", "Idle", "Before Turn", "After Turn"]);
    assert_eq!(params.items[2].actions, vec![AppEvent::AddLoopBeforeTurnTrigger { timer_id: "loop-7".to_string() }]);
    assert_eq!(params.on_cancel, Some(AppEvent::OpenLoopTimerTriggers { timer_id: "loop-7".to_string() }));
}

#[test]
fn execution_panel_offers_resets_only_for_overrides() {
    let mut app = App::new(None);
    let empty = app.loop_execution_panel_params("t", "Nightly", "cwd: session", Some(1));
    assert!(empty.items.is_empty());
    assert_eq!(empty.view_id, None);
    let mut t = timer("t", LoopContextMode::Persistent, true);
    t.execution.cwd = Some("/work".to_string());
    app.loop_timers.timers.insert(t);
    let params = app.loop_execution_panel_params("t", "Nightly", "cwd: /work", Some(1));
    assert_eq!(params.view_id.as_deref(), Some("fork-loop-execution-panel"));
    assert_eq!(params.title.as_deref(), Some("Loop Execution"));
    assert_eq!(params.subtitle.as_deref(), Some("Execution settings · Nightly"));
    assert_eq!(params.initial_selected_idx, Some(1));
    let names: Vec<&str> = params.items.iter().map(|item| item.name.as_str()).collect();
    assert_eq!(
        names,
        vec!["Working Directory", "Use Session Working Directory", "Writable Directories", "Use Session Writable Scope"]
    );
    assert_eq!(params.items[0].description.as_deref(), Some("cwd: /work"));
    assert!(!params.items[1].is_disabled);
    assert!(params.items[3].is_disabled);
    assert_eq!(params.items[1].actions, vec![AppEvent::ResetLoopTimerCwd { timer_id: "t".to_string() }]);
    assert_eq!(params.on_cancel, Some(AppEvent::OpenLoopTimerActions { timer_id: "t".to_string() }));
}

#[test]
fn empty_after_turn_config_clears_background_loop_status() {
    let mut app = App::new(Some("thread-main".to_string()));
    let drained = app.handle_primary_thread_turn_complete_for_loops(Some("done".to_string()), false);
    assert_eq!(drained, AfterTurnDrain::Idle);
    assert_eq!(app.loop_timers.after_turn_scheduler.status_label(), None);
}

#[test]
fn turn_complete_starts_round_when_after_turn_loops_exist() {
    let mut app = App::new(Some("thread-main".to_string()));
    let drained = app.handle_primary_thread_turn_complete_for_loops(Some("done".to_string()), true);
    assert_eq!(
        drained,
        AfterTurnDrain::StartRound(AfterTurnRound { last_agent_message: Some("done".to_string()) })
    );
    assert_eq!(
        app.loop_timers.after_turn_scheduler.status_label(),
        Some("after-turn queue (running) · 0 round(s) · 0 follow-up(s)".to_string())
    );
    // A second turn while the round runs only queues.
    let again = app.handle_primary_thread_turn_complete_for_loops(None, true);
    assert_eq!(again, AfterTurnDrain::Idle);
    assert_eq!(
        app.loop_timers.after_turn_scheduler.status_label(),
        Some("after-turn queue (running) · 1 round(s) · 0 follow-up(s)".to_string())
    );
}

#[test]
fn turn_complete_without_primary_thread_clears_queue() {
    let mut app = App::new(None);
    let drained = app.handle_primary_thread_turn_complete_for_loops(Some("done".to_string()), true);
    assert_eq!(drained, AfterTurnDrain::Cleared);
    assert_eq!(app.loop_timers.after_turn_scheduler.status_label(), None);
}

#[test]
fn turn_error_hands_out_next_followup() {
    let mut app = App::new(Some("thread-main".to_string()));
    let first = LoopMirroredUserTurn {
        source: LoopReplySource::new("loop-a".to_string(), None),
        text: "first".to_string(),
    };
    let second = LoopMirroredUserTurn {
        source: LoopReplySource::new("loop-b".to_string(), None),
        text: "second".to_string(),
    };
    app.loop_timers.after_turn_scheduler.push_followups(vec![first.duplicate(), second.duplicate()]);
    assert_eq!(app.note_primary_thread_error_for_loops(false), AfterTurnDrain::SubmitFollowup(first));
    assert_eq!(app.note_primary_thread_error_for_loops(false), AfterTurnDrain::SubmitFollowup(second));
    assert_eq!(app.note_primary_thread_error_for_loops(false), AfterTurnDrain::Idle);
}

#[test]
fn stopping_a_loop_run_forgets_it() {
    let mut app = App::new(None);
    app.note_loop_timer_run_started("t1".to_string());
    assert!(app.stop_loop_timer_run("t1"));
    assert!(!app.stop_loop_timer_run("t1"));
    assert_eq!(app.stop_active_loop_runs(), (0, Vec::new()));
}
