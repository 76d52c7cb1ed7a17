use codex_tui::after_turn::AfterTurnLoopOutput;
use codex_tui::after_turn::AfterTurnLoopUpdate;
use codex_tui::after_turn::LoopReplySource;
use codex_tui::app::App;
use codex_tui::loop_book::LoopContextMode;
use codex_tui::loop_book::LoopExecutionSettings;
use codex_tui::loop_book::LoopMode;
use codex_tui::loop_book::LoopResponseMode;
use codex_tui::loop_book::LoopSchedule;
use codex_tui::loop_book::LoopSecurityMode;
use codex_tui::loop_book::LoopTimer;
use codex_tui::loop_book::LoopTimerBook;
use codex_tui::loop_book::LoopTriggerBinding;
use codex_tui::loop_book::LoopTriggerKind;
use codex_tui::turn_phases::after_turn_run_output;
use codex_tui::turn_phases::augment_primary_user_turn_with_before_turn_loops;
use codex_tui::turn_phases::embedded_after_turn_output;
use codex_tui::turn_phases::embedded_hook_output;
use codex_tui::turn_phases::hook_run_output;
use codex_tui::turn_phases::loop_failure_message;
use codex_tui::turn_phases::ordered_trigger_timers_for_phase;
use codex_tui::turn_phases::user_text_from_inputs;
use codex_tui::turn_phases::BeforeTurnCell;
use codex_tui::turn_phases::InlineLoopRun;
use codex_tui::turn_phases::LoopHookOutput;
use codex_tui::turn_phases::LoopTriggerPhase;
use codex_tui::turn_phases::LoopTriggerQueueEntry;
use codex_tui::turn_phases::UserInputItem;

fn interval(display: &str, seconds: u64) -> LoopSchedule {
    LoopSchedule::Interval { display: display.to_string(), seconds }
}

fn binding(id: &str, enabled: bool, kind: LoopTriggerKind) -> LoopTriggerBinding {
    LoopTriggerBinding { id: id.to_string(), enabled, kind }
}

fn timer(id: &str, context_mode: LoopContextMode, enabled: bool, bindings: Vec<LoopTriggerBinding>) -> LoopTimer {
    LoopTimer {
        id: id.to_string(),
        mode: LoopMode::Persistent,
        prompt: format!("prompt of {id}"),
        action: Some("then report".to_string()),
        context_mode,
        response_mode: LoopResponseMode::Assistant,
        security_mode: LoopSecurityMode::Inherited,
        execution: LoopExecutionSettings { cwd: None, writable_roots: Vec::new() },
        schedule: interval("1h", 3600),
        trigger_bindings: bindings,
        enabled,
        rollout_path: None,
        created_at_unix_seconds: 10,
        last_scheduled_at_unix_seconds: None,
        last_completed_at_unix_seconds: None,
    }
}

fn entry(loop_id: &str, binding_id: &str) -> LoopTriggerQueueEntry {
    LoopTriggerQueueEntry { loop_id: loop_id.to_string(), binding_id: binding_id.to_string() }
}

fn text(t: &str) -> UserInputItem {
    UserInputItem::Text { text: t.to_string() }
}

#[test]
fn phase_timers_follow_queue_order_and_skip_what_does_not_run() {
    let mut book = LoopTimerBook::new();
    book.insert(timer("a", LoopContextMode::Persistent, true, vec![binding("after", true, LoopTriggerKind::AfterTurn)]));
    book.insert(timer("b", LoopContextMode::Embed, true, vec![
        binding("before", true, LoopTriggerKind::BeforeTurn),
        binding("after", true, LoopTriggerKind::AfterTurn),
    ]));
    book.insert(timer("off", LoopContextMode::Persistent, false, vec![binding("after", true, LoopTriggerKind::AfterTurn)]));
    book.insert(timer("c", LoopContextMode::Persistent, true, vec![binding("after", false, LoopTriggerKind::AfterTurn)]));
    let entries = vec![
        entry("b", "after"),
        entry("missing", "after"),
        entry("off", "after"),
        entry("c", "after"),
        entry("b", "before"),
        entry("a", "gone"),
        entry("a", "after"),
    ];
    let timers = ordered_trigger_timers_for_phase(&entries, &book, LoopTriggerPhase::AfterTurn);
    let ids: Vec<&str> = timers.iter().map(|t| t.id.as_str()).collect();
    assert_eq!(ids, vec!["b", "a"]);
    let before = ordered_trigger_timers_for_phase(&entries, &book, LoopTriggerPhase::BeforeTurn);
    let ids: Vec<&str> = before.iter().map(|t| t.id.as_str()).collect();
    assert_eq!(ids, vec!["b"]);
    assert!(ordered_trigger_timers_for_phase(&Vec::new(), &book, LoopTriggerPhase::AfterTurn).is_empty());
}

#[test]
fn trigger_kinds_map_to_their_phase() {
    assert_eq!(LoopTriggerKind::Timer { schedule: interval("5m", 300) }.phase(), LoopTriggerPhase::Timer);
    assert_eq!(LoopTriggerKind::Idle { after: interval("5m", 300) }.phase(), LoopTriggerPhase::Idle);
    assert_eq!(LoopTriggerKind::BeforeTurn.phase(), LoopTriggerPhase::BeforeTurn);
    assert_eq!(LoopTriggerKind::AfterTurn.phase(), LoopTriggerPhase::AfterTurn);
}

#[test]
fn embedded_loop_hands_its_prompt_over_as_user_message() {
    let embed = timer("e", LoopContextMode::Embed, true, Vec::new());
    assert_eq!(
        embedded_hook_output(&embed),
        Some(LoopHookOutput {
            loop_id: "e".to_string(),
            response_mode: LoopResponseMode::User,
            message: Some("prompt of e".to_string()),
            action: Some("then report".to_string()),
        })
    );
    assert_eq!(embedded_hook_output(&timer("p", LoopContextMode::Persistent, true, Vec::new())), None);
    assert_eq!(
        embedded_after_turn_output(&embed),
        Some(AfterTurnLoopOutput {
            loop_id: "e".to_string(),
            response_mode: LoopResponseMode::User,
            message: Some("prompt of e".to_string()),
            action: Some("then report".to_string()),
            update: AfterTurnLoopUpdate { loop_id: "e".to_string(), rollout_path: None, last_completed_at_unix_seconds: None },
        })
    );
    assert_eq!(embedded_after_turn_output(&timer("x", LoopContextMode::Ephemeral, true, Vec::new())), None);
}

#[test]
fn run_outputs_carry_reply_or_failure() {
    let t = timer("p", LoopContextMode::Persistent, true, Vec::new());
    assert_eq!(
        hook_run_output(&t, Ok(Some("looks fine".to_string())), "Before Turn"),
        Ok(LoopHookOutput {
            loop_id: "p".to_string(),
            response_mode: LoopResponseMode::Assistant,
            message: Some("looks fine".to_string()),
            action: Some("then report".to_string()),
        })
    );
    assert_eq!(
        hook_run_output(&t, Err("timed out".to_string()), "Before Turn"),
        Err("Loop `p` failed during Before Turn: timed out".to_string())
    );
    assert_eq!(
        after_turn_run_output(
            &t,
            Ok(InlineLoopRun { message: None, rollout_path: Some("/tmp/r.jsonl".to_string()), last_completed_at_unix_seconds: Some(42) }),
            "After Turn"
        ),
        Ok(AfterTurnLoopOutput {
            loop_id: "p".to_string(),
            response_mode: LoopResponseMode::Assistant,
            message: None,
            action: Some("then report".to_string()),
            update: AfterTurnLoopUpdate {
                loop_id: "p".to_string(),
                rollout_path: Some("/tmp/r.jsonl".to_string()),
                last_completed_at_unix_seconds: Some(42),
            },
        })
    );
    assert_eq!(
        after_turn_run_output(&t, Err("boom".to_string()), "After Turn"),
        Err("Loop `p` failed during After Turn: boom".to_string())
    );
    assert_eq!(loop_failure_message("x", "Timer", "e"), "Loop `x` failed during Timer: e");
}

#[test]
fn user_text_joins_text_items_with_blank_lines() {
    assert_eq!(user_text_from_inputs(&vec![text("one"), UserInputItem::Other, text("two")]), "one\n\ntwo");
    assert_eq!(user_text_from_inputs(&vec![UserInputItem::Other]), "");
    assert_eq!(user_text_from_inputs(&Vec::new()), "");
}

#[test]
fn before_turn_loops_run_only_on_the_shown_main_thread_with_text() {
    let app = App::new(Some("main".to_string()));
    let items = vec![text("fix the bug")];
    assert_eq!(app.before_turn_loop_input(Some("main"), &items), Some("fix the bug".to_string()));
    assert_eq!(app.before_turn_loop_input(Some("other"), &items), None);
    assert_eq!(app.before_turn_loop_input(None, &items), None);
    assert_eq!(app.before_turn_loop_input(Some("main"), &vec![text("   "), UserInputItem::Other]), None);
    let headless = App::new(None);
    assert_eq!(headless.before_turn_loop_input(Some("main"), &items), None);
}

#[test]
fn before_turn_outputs_extend_turn_and_history() {
    let outputs = vec![
        LoopHookOutput {
            loop_id: "a".to_string(),
            response_mode: LoopResponseMode::Assistant,
            message: Some("assistant note".to_string()),
            action: None,
        },
        LoopHookOutput {
            loop_id: "b".to_string(),
            response_mode: LoopResponseMode::User,
            message: Some("user note".to_string()),
            action: Some("act".to_string()),
        },
        LoopHookOutput { loop_id: "c".to_string(), response_mode: LoopResponseMode::User, message: None, action: None },
    ];
    let (items, cells) = augment_primary_user_turn_with_before_turn_loops(vec![text("fix the bug"), UserInputItem::Other], &outputs);
    assert_eq!(items, vec![text("fix the bug"), UserInputItem::Other, text("user note")]);
    assert_eq!(
        cells,
        vec![
            BeforeTurnCell::LoopInfo(LoopReplySource::new("a".to_string(), None)),
            BeforeTurnCell::AssistantMessage("assistant note".to_string()),
            BeforeTurnCell::LoopInfo(LoopReplySource::new("b".to_string(), Some("act".to_string()))),
        ]
    );
}
