use codex_tui::after_turn::AfterTurnLoopOutput;
use codex_tui::after_turn::AfterTurnLoopUpdate;
use codex_tui::after_turn::AfterTurnRoundResult;
use codex_tui::after_turn::AfterTurnSchedulerAction;
use codex_tui::after_turn::LoopMirroredUserTurn;
use codex_tui::after_turn::LoopReplySource;
use codex_tui::app::App;
use codex_tui::loop_book::LoopContextMode;
use codex_tui::loop_book::LoopExecutionSettings;
use codex_tui::loop_book::LoopMode;
use codex_tui::loop_book::LoopResponseMode;
use codex_tui::loop_book::LoopSchedule;
use codex_tui::loop_book::LoopSecurityMode;
use codex_tui::loop_book::LoopTimer;
use codex_tui::loop_book::LoopTriggerBinding;
use codex_tui::loop_book::LoopTriggerKind;
use codex_tui::loop_editing::loop_upsert_message;
use codex_tui::loop_editing::LoopEdit;
use codex_tui::loop_editing::LoopModeDefaults;
use codex_tui::loop_editing::LoopTimerDraft;
use codex_tui::loop_editing::LoopTimerSwitch;
use codex_tui::loop_editing::LoopUpsertKind;
use codex_tui::loop_timers::idle_binding_task_key;

const DEFAULTS: LoopModeDefaults =
    LoopModeDefaults { response_mode: LoopResponseMode::Assistant, security_mode: LoopSecurityMode::Inherited };

fn interval(display: &str, seconds: u64) -> LoopSchedule {
    LoopSchedule::Interval { display: display.to_string(), seconds }
}

fn binding(id: &str, enabled: bool, kind: LoopTriggerKind) -> LoopTriggerBinding {
    LoopTriggerBinding { id: id.to_string(), enabled, kind }
}

fn timer(id: &str) -> LoopTimer {
    LoopTimer {
        id: id.to_string(),
        mode: LoopMode::Persistent,
        prompt: "check status".to_string(),
        action: Some("notify".to_string()),
        context_mode: LoopContextMode::Persistent,
        response_mode: LoopResponseMode::User,
        security_mode: LoopSecurityMode::Inherited,
        execution: LoopExecutionSettings { cwd: Some("/work".to_string()), writable_roots: vec!["/work/out".to_string()] },
        schedule: interval("5m", 300),
        trigger_bindings: vec![
            binding("binding-1", true, LoopTriggerKind::Timer { schedule: interval("5m", 300) }),
            binding("binding-2", true, LoopTriggerKind::Idle { after: interval("10m", 600) }),
        ],
        enabled: true,
        rollout_path: Some("/rollouts/a.jsonl".to_string()),
        created_at_unix_seconds: 1,
        last_scheduled_at_unix_seconds: Some(1_774_776_216),
        last_completed_at_unix_seconds: Some(5),
    }
}

fn app_with(timers: Vec<LoopTimer>) -> App {
    let mut app = App::new(Some("thread-main".to_string()));
    for t in timers {
        app.loop_timers.timers.insert(t);
    }
    app
}

fn stored(app: &App, id: &str) -> LoopTimer {
    app.loop_timers.timers.get(id).expect("timer").duplicate()
}

#[test]
fn prompt_edits_trim_and_refuse_blank_prompts() {
    let mut app = app_with(vec![timer("a")]);
    assert_eq!(
        app.save_loop_timer_prompt("a", "   ".to_string()),
        LoopEdit::Refused { message: "Loop prompt cannot be empty.".to_string() }
    );
    assert_eq!(app.save_loop_timer_prompt("gone", "x".to_string()), LoopEdit::TimerMissing);
    assert_eq!(app.save_loop_timer_prompt("a", "  watch CI \n".to_string()), LoopEdit::Saved);
    assert_eq!(stored(&app, "a").prompt, "watch CI");
    assert_eq!(app.open_loop_timer_prompt_editor("a").as_deref(), Some("watch CI"));
    assert_eq!(app.open_loop_timer_prompt_editor("gone"), None);
}

#[test]
fn blank_action_clears_the_action() {
    let mut app = app_with(vec![timer("a")]);
    assert_eq!(app.open_loop_timer_action_editor("a").as_deref(), Some("notify"));
    assert_eq!(app.save_loop_timer_action("a", "  ".to_string()), LoopEdit::Saved);
    assert_eq!(stored(&app, "a").action, None);
    assert_eq!(app.open_loop_timer_action_editor("a").as_deref(), Some(""));
    assert_eq!(app.save_loop_timer_action("a", " ping ".to_string()), LoopEdit::Saved);
    assert_eq!(stored(&app, "a").action.as_deref(), Some("ping"));
}

#[test]
fn embedded_loops_answer_as_the_assistant() {
    let mut app = app_with(vec![timer("a")]);
    assert_eq!(app.save_loop_timer_context_mode("a", LoopContextMode::Embed), LoopEdit::Saved);
    let t = stored(&app, "a");
    assert_eq!(t.context_mode, LoopContextMode::Embed);
    assert_eq!(t.response_mode, LoopResponseMode::Assistant);
    assert_eq!(app.save_loop_timer_response_mode("a", LoopResponseMode::User), LoopEdit::Saved);
    assert_eq!(stored(&app, "a").response_mode, LoopResponseMode::Assistant);
    assert_eq!(app.save_loop_timer_context_mode("a", LoopContextMode::Ephemeral), LoopEdit::Saved);
    assert_eq!(app.save_loop_timer_response_mode("a", LoopResponseMode::User), LoopEdit::Saved);
    assert_eq!(stored(&app, "a").response_mode, LoopResponseMode::User);
    assert_eq!(app.save_loop_timer_security_mode("a", LoopSecurityMode::SpecifiedDirectory), LoopEdit::Saved);
    assert_eq!(stored(&app, "a").security_mode, LoopSecurityMode::SpecifiedDirectory);
    assert_eq!(app.save_loop_timer_security_mode("gone", LoopSecurityMode::Inherited), LoopEdit::TimerMissing);
}

#[test]
fn execution_settings_are_set_and_reset() {
    let mut app = app_with(vec![timer("a")]);
    assert_eq!(
        app.save_loop_timer_cwd("a", Err("no such directory".to_string())),
        LoopEdit::Refused { message: "Failed to update `/loop` working directory: no such directory".to_string() }
    );
    assert_eq!(app.save_loop_timer_cwd("a", Ok("/other".to_string())), LoopEdit::Saved);
    assert_eq!(stored(&app, "a").execution.cwd.as_deref(), Some("/other"));
    assert_eq!(
        app.save_loop_writable_roots("a", Err("bad".to_string())),
        LoopEdit::Refused { message: "Failed to update `/loop` writable directories: bad".to_string() }
    );
    assert_eq!(app.save_loop_writable_roots("a", Ok(vec!["/x".to_string(), "/y".to_string()])), LoopEdit::Saved);
    assert_eq!(stored(&app, "a").execution.writable_roots, vec!["/x".to_string(), "/y".to_string()]);
    assert_eq!(app.reset_loop_timer_cwd("a"), LoopEdit::Saved);
    assert_eq!(app.reset_loop_writable_roots("a"), LoopEdit::Saved);
    let t = stored(&app, "a");
    assert_eq!(t.execution.cwd, None);
    assert!(t.execution.writable_roots.is_empty());
    assert_eq!(app.reset_loop_timer_cwd("gone"), LoopEdit::TimerMissing);
}

#[test]
fn trigger_bindings_are_switched_and_deleted() {
    let mut app = app_with(vec![timer("a")]);
    let five = Some(interval("5m", 300));
    assert_eq!(app.set_loop_trigger_binding_enabled("gone", "binding-1", false, None).edit, LoopEdit::TimerMissing);
    assert_eq!(app.set_loop_trigger_binding_enabled("a", "nope", false, None).edit, LoopEdit::BindingMissing);
    assert_eq!(app.set_loop_trigger_binding_enabled("a", "binding-2", false, five).edit, LoopEdit::Saved);
    let t = stored(&app, "a");
    assert!(t.trigger_bindings[0].enabled);
    assert!(!t.trigger_bindings[1].enabled);
    assert_eq!(t.effective_idle_after(), None);
    assert_eq!(t.schedule, interval("5m", 300));
    assert_eq!(app.delete_loop_trigger_binding("a", "binding-1", None).edit, LoopEdit::Saved);
    let t = stored(&app, "a");
    assert_eq!(t.trigger_bindings.len(), 1);
    assert_eq!(t.trigger_bindings[0].id, "binding-2");
    assert_eq!(t.schedule, interval("5m", 300));
    assert_eq!(app.delete_loop_trigger_binding("gone", "binding-1", None).edit, LoopEdit::TimerMissing);
}

#[test]
fn switching_off_the_timer_trigger_moves_the_schedule_to_the_idle_delay() {
    let mut app = app_with(vec![timer("a")]);
    app.loop_timers.idle_scheduler_tasks.insert(idle_binding_task_key("a", "binding-2"));
    app.loop_timers.idle_scheduler_tasks.insert(idle_binding_task_key("ab", "binding-2"));
    let change = app.set_loop_trigger_binding_enabled("a", "binding-1", false, None);
    assert_eq!(change.edit, LoopEdit::Saved);
    assert_eq!(change.cancelled_idle, vec!["a:binding-2".to_string()]);
    assert_eq!(stored(&app, "a").schedule, interval("10m", 600));
    assert!(app.loop_timers.idle_scheduler_tasks.remove("ab:binding-2"));
    let missing = app.set_loop_trigger_binding_enabled("a", "nope", true, None);
    assert!(missing.cancelled_idle.is_empty());
}

#[test]
fn normalizing_after_a_trigger_change_takes_the_primary_trigger() {
    let mut app = app_with(vec![timer("a")]);
    app.loop_timers.idle_scheduler_tasks.insert(idle_binding_task_key("a", "binding-2"));
    app.loop_timers.idle_scheduler_tasks.insert(idle_binding_task_key("ab", "binding-2"));
    let change = app.delete_loop_trigger_binding("a", "binding-1", None);
    assert_eq!(change.edit, LoopEdit::Saved);
    assert_eq!(change.cancelled_idle, vec!["a:binding-2".to_string()]);
    assert_eq!(stored(&app, "a").schedule, interval("10m", 600));
    let _ = app.normalize_loop_after_trigger_change("a", Some(interval("2h", 7200)));
    assert_eq!(stored(&app, "a").schedule, interval("2h", 7200));
    assert!(app.loop_timers.idle_scheduler_tasks.remove("ab:binding-2"));
}

#[test]
fn switching_a_timer_off_stops_its_tasks() {
    let mut app = app_with(vec![timer("a")]);
    app.loop_timers.scheduler_tasks.insert("a".to_string());
    app.loop_timers.idle_scheduler_tasks.insert(idle_binding_task_key("a", "binding-2"));
    assert_eq!(app.set_loop_timer_enabled("gone", false), LoopTimerSwitch::Missing);
    assert_eq!(
        app.set_loop_timer_enabled("a", false),
        LoopTimerSwitch::Disabled { scheduler_stopped: true, idle_cancelled: vec!["a:binding-2".to_string()] }
    );
    assert!(!stored(&app, "a").enabled);
    assert_eq!(app.set_loop_timer_enabled("a", true), LoopTimerSwitch::Enabled);
    assert!(stored(&app, "a").enabled);
    let removal = app.delete_loop_timer("a");
    assert!(!removal.scheduler_stopped);
    assert!(removal.idle_cancelled.is_empty());
    assert!(app.loop_timers.timers.get("a").is_none());
    assert_eq!(app.loop_timers.timers.len(), 0);
}

#[test]
fn upsert_creates_a_one_shot_loop_with_a_random_id() {
    let mut app = App::new(None);
    let report = app
        .upsert_loop_timer(
            None,
            " check status ".to_string(),
            LoopTriggerKind::Timer { schedule: interval("5m", 300) },
            None,
            None,
            1_000,
            DEFAULTS,
        )
        .expect("created");
    assert_eq!(report.timer_id.len(), 36);
    assert_eq!(report.kind, LoopUpsertKind::OneShot { prefix: None });
    assert_eq!(report.context_mode, LoopContextMode::Ephemeral);
    assert_eq!(loop_upsert_message(&report, "ephemeral"), "Created ephemeral `/loop`: 5m -> check status");
    let t = stored(&app, &report.timer_id);
    assert_eq!(t.mode, LoopMode::OneShot);
    assert_eq!(t.prompt, "check status");
    assert_eq!(t.schedule, interval("5m", 300));
    assert_eq!(t.trigger_bindings, vec![binding("trigger-1", true, LoopTriggerKind::Timer { schedule: interval("5m", 300) })]);
    assert_eq!(t.created_at_unix_seconds, 1_000);
    assert!(t.enabled);
}

#[test]
fn upsert_updates_a_persistent_loop_and_keeps_its_history() {
    let mut app = app_with(vec![timer("a")]);
    let report = app
        .upsert_loop_timer(Some("a".to_string()), "watch CI".to_string(), LoopTriggerKind::AfterTurn, None, None, 2_000, DEFAULTS)
        .expect("updated");
    assert_eq!(report.kind, LoopUpsertKind::Updated);
    assert_eq!(loop_upsert_message(&report, "persistent"), "Updated persistent `/loop a`: after turn -> watch CI");
    let t = stored(&app, "a");
    assert_eq!(t.mode, LoopMode::Persistent);
    assert_eq!(t.context_mode, LoopContextMode::Persistent);
    assert_eq!(t.response_mode, LoopResponseMode::User);
    assert_eq!(t.action.as_deref(), Some("notify"));
    assert_eq!(t.rollout_path.as_deref(), Some("/rollouts/a.jsonl"));
    assert_eq!(t.created_at_unix_seconds, 1);
    assert_eq!(t.last_scheduled_at_unix_seconds, None);
    assert_eq!(t.last_completed_at_unix_seconds, Some(5));
    assert_eq!(t.schedule, interval("1h", 3600));
    assert_eq!(t.execution.cwd.as_deref(), Some("/work"));
    let created = app
        .upsert_loop_timer(
            Some("b".to_string()),
            "idle check".to_string(),
            LoopTriggerKind::Idle { after: interval("10m", 600) },
            None,
            Some("ignored for loops that stay".to_string()),
            3_000,
            DEFAULTS,
        )
        .expect("created");
    assert_eq!(created.kind, LoopUpsertKind::Created);
    assert_eq!(loop_upsert_message(&created, "persistent"), "Created persistent `/loop b`: idle 10m -> idle check");
    assert_eq!(app.loop_timers.timers.len(), 2);
}

#[test]
fn upsert_applies_a_draft_and_checks_its_directories() {
    let mut app = App::new(None);
    let draft = |roots: Option<Result<Vec<String>, String>>| LoopTimerDraft {
        context_mode: LoopContextMode::Embed,
        response_mode: LoopResponseMode::User,
        security_mode: LoopSecurityMode::SpecifiedDirectory,
        writable_roots: roots,
    };
    let kind = || LoopTriggerKind::BeforeTurn;
    assert_eq!(
        app.upsert_loop_timer(None, "  ".to_string(), kind(), None, None, 0, DEFAULTS),
        Err("expected a prompt.".to_string())
    );
    assert_eq!(
        app.upsert_loop_timer(None, "p".to_string(), kind(), Some(draft(None)), None, 0, DEFAULTS),
        Err("specified_directory requires writable directories.".to_string())
    );
    assert_eq!(
        app.upsert_loop_timer(None, "p".to_string(), kind(), Some(draft(Some(Err("bad path".to_string())))), None, 0, DEFAULTS),
        Err("specified_directory requires valid writable directories: bad path".to_string())
    );
    assert_eq!(
        app.upsert_loop_timer(None, "p".to_string(), kind(), Some(draft(Some(Ok(Vec::new())))), None, 0, DEFAULTS),
        Err("specified_directory requires at least one writable directory.".to_string())
    );
    assert_eq!(app.loop_timers.timers.len(), 0);
    let report = app
        .upsert_loop_timer(
            None,
            "p".to_string(),
            kind(),
            Some(draft(Some(Ok(vec!["/out".to_string()])))),
            Some("Created loop agent".to_string()),
            0,
            DEFAULTS,
        )
        .expect("created");
    assert_eq!(loop_upsert_message(&report, "embed"), "Created loop agent: before turn -> p");
    let t = stored(&app, &report.timer_id);
    assert_eq!(t.context_mode, LoopContextMode::Embed);
    assert_eq!(t.response_mode, LoopResponseMode::Assistant);
    assert_eq!(t.security_mode, LoopSecurityMode::SpecifiedDirectory);
    assert_eq!(t.execution.writable_roots, vec!["/out".to_string()]);
}

#[test]
fn finished_run_goes_back_as_the_response_mode_says() {
    let mut user_mode = app_with(vec![timer("a")]);
    let done = user_mode.finish_loop_timer("a", Ok(Some("  latest answer only \n".to_string())), 80, true, LoopResponseMode::Assistant);
    assert_eq!(done.error, None);
    assert_eq!(done.mirrored_reply, None);
    assert_eq!(
        done.followup_user_turn,
        Some(LoopMirroredUserTurn {
            text: "latest answer only".to_string(),
            source: LoopReplySource { loop_id: "a".to_string(), action: Some("notify".to_string()) },
        })
    );
    assert_eq!(stored(&user_mode, "a").last_completed_at_unix_seconds, Some(80));

    let mut assistant = app_with(vec![LoopTimer { response_mode: LoopResponseMode::Assistant, ..timer("a") }]);
    let done = assistant.finish_loop_timer("a", Ok(Some("latest answer only".to_string())), 81, false, LoopResponseMode::User);
    assert_eq!(
        done.mirrored_reply,
        Some((LoopReplySource { loop_id: "a".to_string(), action: Some("notify".to_string()) }, "latest answer only".to_string()))
    );
    assert!(!done.show_mirrored);
    assert_eq!(done.followup_user_turn, None);

    let failed = assistant.finish_loop_timer("a", Err("boom".to_string()), 82, true, LoopResponseMode::User);
    assert_eq!(failed.error.as_deref(), Some("A `/loop` run failed: boom"));
    assert_eq!(failed.mirrored_reply, None);

    let mut no_primary = App::new(None);
    no_primary.loop_timers.timers.insert(timer("a"));
    let quiet = no_primary.finish_loop_timer("a", Ok(Some("x".to_string())), 83, true, LoopResponseMode::User);
    assert_eq!(quiet.followup_user_turn, None);
    assert_eq!(quiet.error, None);
}

#[test]
fn completion_and_rollout_are_recorded() {
    let mut app = app_with(vec![timer("a")]);
    assert!(app.note_loop_timer_completed("a", 99));
    assert!(!app.note_loop_timer_completed("gone", 99));
    assert_eq!(stored(&app, "a").last_completed_at_unix_seconds, Some(99));
    assert!(app.set_loop_timer_rollout_path("a", None));
    assert_eq!(stored(&app, "a").rollout_path, None);
}

#[test]
fn new_idle_trigger_editor_starts_from_the_current_delay() {
    let app = app_with(vec![timer("a")]);
    assert_eq!(app.open_new_loop_idle_trigger_after_editor("a").as_deref(), Some("10m"));
    assert_eq!(app.open_new_loop_idle_trigger_after_editor("gone"), None);
}

#[test]
fn switching_off_and_on_gives_back_the_timer() {
    let mut app = app_with(vec![timer("a"), timer("b")]);
    let before = stored(&app, "a");
    let _ = app.set_loop_timer_enabled("a", false);
    let _ = app.set_loop_timer_enabled("a", true);
    assert_eq!(stored(&app, "a"), before);
    assert_eq!(app.loop_timers.timers.len(), 2);
}

#[test]
fn the_book_reads_back_what_was_written() {
    let mut app = app_with(vec![timer("a"), timer("b")]);
    let replacement = LoopTimer { prompt: "new prompt".to_string(), ..timer("a") };
    app.loop_timers.timers.insert(replacement.duplicate());
    assert_eq!(app.loop_timers.timers.len(), 2);
    assert_eq!(stored(&app, "a"), replacement);
    assert_eq!(stored(&app, "b"), timer("b"));
    assert_eq!(app.loop_timers.timers.position("b"), Some(1));
    let removed = app.loop_timers.timers.remove("a");
    assert_eq!(removed, Some(replacement));
    assert!(app.loop_timers.timers.get("a").is_none());
    assert_eq!(stored(&app, "b"), timer("b"));
    assert_eq!(app.loop_timers.timers.remove("a"), None);
}

#[test]
fn binding_schedule_edits_move_the_timer_schedule() {
    let mut app = app_with(vec![timer("a")]);
    assert_eq!(
        app.save_loop_trigger_binding_schedule("a", "binding-1", Err("bad schedule".to_string()), None).edit,
        LoopEdit::Refused { message: "Failed to update loop trigger: bad schedule".to_string() }
    );
    assert_eq!(app.save_loop_trigger_binding_schedule("gone", "binding-1", Ok(interval("1m", 60)), None).edit, LoopEdit::TimerMissing);
    assert_eq!(app.save_loop_trigger_binding_schedule("a", "nope", Ok(interval("1m", 60)), None).edit, LoopEdit::BindingMissing);
    assert_eq!(
        app.save_loop_trigger_binding_schedule("a", "binding-1", Ok(interval("1m", 60)), Some(interval("1m", 60))).edit,
        LoopEdit::Saved
    );
    let t = stored(&app, "a");
    assert_eq!(t.schedule, interval("1m", 60));
    assert_eq!(t.trigger_bindings[0].kind, LoopTriggerKind::Timer { schedule: interval("1m", 60) });
    assert_eq!(
        app.save_loop_trigger_binding_idle_after("a", "binding-2", Ok(interval("30m", 1800)), Some(interval("1m", 60))).edit,
        LoopEdit::Saved
    );
    let t = stored(&app, "a");
    assert_eq!(t.schedule, interval("1m", 60));
    assert_eq!(t.trigger_bindings[1].kind, LoopTriggerKind::Idle { after: interval("30m", 1800) });
    assert_eq!(t.effective_idle_after(), Some(interval("30m", 1800)));
}

fn output(loop_id: &str, response_mode: LoopResponseMode, message: Option<&str>, rollout: Option<&str>, at: Option<i64>) -> AfterTurnLoopOutput {
    AfterTurnLoopOutput {
        loop_id: loop_id.to_string(),
        response_mode,
        message: message.map(|m| m.to_string()),
        action: Some("act".to_string()),
        update: AfterTurnLoopUpdate {
            loop_id: loop_id.to_string(),
            rollout_path: rollout.map(|r| r.to_string()),
            last_completed_at_unix_seconds: at,
        },
    }
}

#[test]
fn finished_after_turn_round_routes_answers_and_updates_persistent_loops() {
    let mut app = app_with(vec![timer("a"), LoopTimer { context_mode: LoopContextMode::Ephemeral, ..timer("b") }]);
    app.loop_timers.after_turn_scheduler.note_turn_complete(Some("reply".to_string()));
    let _ = app.loop_timers.after_turn_scheduler.next_action();
    let report = app.finish_primary_after_turn_round(Ok(AfterTurnRoundResult {
        outputs: vec![
            output("a", LoopResponseMode::User, Some("do X"), Some("/r2"), Some(50)),
            output("b", LoopResponseMode::Assistant, Some("info"), Some("/ignored"), Some(60)),
            output("c", LoopResponseMode::Assistant, None, None, None),
        ],
        errors: vec!["e1".to_string()],
    }));
    assert_eq!(report.errors, vec!["e1".to_string()]);
    assert_eq!(
        report.mirrored,
        vec![(LoopReplySource { loop_id: "b".to_string(), action: Some("act".to_string()) }, "info".to_string())]
    );
    assert!(report.persist);
    let a = stored(&app, "a");
    assert_eq!(a.rollout_path.as_deref(), Some("/r2"));
    assert_eq!(a.last_completed_at_unix_seconds, Some(50));
    assert_eq!(stored(&app, "b").rollout_path.as_deref(), Some("/rollouts/a.jsonl"));
    assert_eq!(
        app.loop_timers.after_turn_scheduler.next_action(),
        AfterTurnSchedulerAction::SubmitFollowup(LoopMirroredUserTurn {
            text: "do X".to_string(),
            source: LoopReplySource { loop_id: "a".to_string(), action: Some("act".to_string()) },
        })
    );
}

#[test]
fn failed_after_turn_round_reports_the_queue_error() {
    let mut app = app_with(vec![timer("a")]);
    let report = app.finish_primary_after_turn_round(Err("lost".to_string()));
    assert_eq!(report.errors, vec!["After-turn loop queue failed: lost".to_string()]);
    assert!(!report.persist);
    let mut headless = App::new(None);
    headless.loop_timers.after_turn_scheduler.note_turn_complete(None);
    let report = headless.finish_primary_after_turn_round(Err("lost".to_string()));
    assert!(report.errors.is_empty());
    assert_eq!(headless.loop_timers.after_turn_scheduler.status_label(), None);
}

#[test]
fn finish_loop_timer_only_replays_prompt_and_latest_answer() {
    let mut app = App::new(Some("thread-main".to_string()));
    let completion =
        app.finish_loop_timer("timer-1", Ok(Some("latest answer only".to_string())), 0, true, LoopResponseMode::Assistant);
    assert_eq!(
        completion.mirrored_reply,
        Some((LoopReplySource { loop_id: "timer-1".to_string(), action: None }, "latest answer only".to_string()))
    );
    assert!(completion.show_mirrored);
    assert_eq!(completion.followup_user_turn, None);
}

#[test]
fn finish_loop_timer_can_replay_only_latest_answer() {
    let mut app = App::new(Some("thread-main".to_string()));
    let completion =
        app.finish_loop_timer("timer-1", Ok(Some("latest answer only".to_string())), 0, true, LoopResponseMode::Assistant);
    let (source, text) = completion.mirrored_reply.expect("mirrored answer");
    assert_eq!(text, "latest answer only");
    assert!(!text.contains("/loop"));
    assert_eq!(source.loop_id, "timer-1");
    assert_eq!(completion.followup_user_turn, None);
}

#[test]
fn finish_loop_timer_user_mode_returns_pure_followup_message() {
    let mut app = App::new(Some("thread-main".to_string()));
    app.loop_timers.timers.insert(LoopTimer {
        id: "timer-1".to_string(),
        mode: LoopMode::Persistent,
        prompt: "check status".to_string(),
        action: Some("summarize it".to_string()),
        context_mode: LoopContextMode::Persistent,
        response_mode: LoopResponseMode::User,
        security_mode: LoopSecurityMode::Inherited,
        execution: LoopExecutionSettings { cwd: None, writable_roots: Vec::new() },
        schedule: interval("5m", 300),
        trigger_bindings: Vec::new(),
        enabled: true,
        rollout_path: None,
        created_at_unix_seconds: 1,
        last_scheduled_at_unix_seconds: None,
        last_completed_at_unix_seconds: None,
    });
    let completion =
        app.finish_loop_timer("timer-1", Ok(Some("latest answer only".to_string())), 0, true, LoopResponseMode::Assistant);
    assert_eq!(completion.mirrored_reply, None);
    assert_eq!(
        completion.followup_user_turn,
        Some(LoopMirroredUserTurn {
            text: "latest answer only".to_string(),
            source: LoopReplySource::new("timer-1".to_string(), Some("summarize it".to_string())),
        })
    );
}

#[test]
fn add_loop_trigger_appends_a_new_kind_and_refuses_a_repeat() {
    let mut app = app_with(vec![timer("a")]);
    let before = app.loop_timers.timers.get("a").unwrap().trigger_bindings.len();
    assert_eq!(
        app.add_loop_trigger("a", LoopTriggerKind::AfterTurn, "trigger-9".to_string(), None).edit,
        LoopEdit::Saved
    );
    let t = app.loop_timers.timers.get("a").unwrap();
    assert_eq!(t.trigger_bindings.len(), before + 1);
    assert_eq!(
        t.trigger_bindings.last(),
        Some(&LoopTriggerBinding { id: "trigger-9".to_string(), enabled: true, kind: LoopTriggerKind::AfterTurn })
    );
    assert_eq!(
        app.add_loop_trigger("a", LoopTriggerKind::AfterTurn, "trigger-10".to_string(), None).edit,
        LoopEdit::Refused { message: "That trigger already exists for this loop.".to_string() }
    );
    assert_eq!(app.loop_timers.timers.get("a").unwrap().trigger_bindings.len(), before + 1);
    assert_eq!(
        app.add_loop_trigger("missing", LoopTriggerKind::BeforeTurn, "trigger-1".to_string(), None).edit,
        LoopEdit::TimerMissing
    );
    assert_eq!(codex_tui::loop_editing::loop_missing_message(), "That loop no longer exists.");
}

#[test]
fn add_loop_trigger_compares_schedules_by_value() {
    let mut app = app_with(vec![timer("a")]);
    let kind = |d: &str, s: u64| LoopTriggerKind::Idle { after: interval(d, s) };
    assert!(matches!(app.add_loop_trigger("a", kind("10m", 600), "i0".to_string(), None).edit, LoopEdit::Refused { .. }));
    assert_eq!(app.add_loop_trigger("a", kind("15m", 900), "i1".to_string(), None).edit, LoopEdit::Saved);
    assert_eq!(app.add_loop_trigger("a", kind("20m", 1200), "i2".to_string(), None).edit, LoopEdit::Saved);
    assert!(matches!(app.add_loop_trigger("a", kind("15m", 900), "i3".to_string(), None).edit, LoopEdit::Refused { .. }));
    assert!(LoopTriggerKind::BeforeTurn.same_as(&LoopTriggerKind::BeforeTurn));
    assert!(!kind("10m", 600).same_as(&kind("10m", 601)));
    assert!(!kind("10m", 600).same_as(&LoopTriggerKind::Timer { schedule: interval("10m", 600) }));
}

#[test]
fn timer_ids_are_listed_in_id_order() {
    let app = app_with(vec![timer("b"), timer("a"), timer("c")]);
    assert_eq!(
        app.loop_timers.timers.timer_ids_in_order(),
        vec!["a".to_string(), "b".to_string(), "c".to_string()]
    );
}
