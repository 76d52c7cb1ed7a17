use codex_tui::app::App;
use codex_tui::app_event::AppEvent;
use codex_tui::loop_book::LoopContextMode;
use codex_tui::loop_book::LoopExecutionSettings;
use codex_tui::loop_book::LoopMode;
use codex_tui::loop_book::LoopResponseMode;
use codex_tui::loop_book::LoopSchedule;
use codex_tui::loop_book::LoopSecurityMode;
use codex_tui::loop_book::LoopTimer;
use codex_tui::loop_book::LoopTriggerBinding;
use codex_tui::loop_book::LoopTriggerKind;
use codex_tui::loop_panels::loop_status_label;
use codex_tui::loop_panels::loop_timer_selection_item;
use codex_tui::loop_panels::loop_timer_triggers_panel_params;
use codex_tui::loop_panels::LoopItemTexts;
use codex_tui::loop_panels::LoopTriggerBindingActionsView;
use codex_tui::loop_panels::LoopTriggerQueueEntryView;
use codex_tui::turn_phases::LoopTriggerPhase;
use codex_tui::loop_timers::LoopTimerTexts;
use codex_tui::selection::PopupHint;

fn interval(display: &str, seconds: u64) -> LoopSchedule {
    LoopSchedule::Interval { display: display.to_string(), seconds }
}

fn binding(id: &str, enabled: bool, kind: LoopTriggerKind) -> LoopTriggerBinding {
    LoopTriggerBinding { id: id.to_string(), enabled, kind }
}

fn timer(id: &str, bindings: Vec<LoopTriggerBinding>) -> LoopTimer {
    LoopTimer {
        id: id.to_string(),
        mode: LoopMode::Persistent,
        prompt: "check the build".to_string(),
        action: None,
        context_mode: LoopContextMode::Persistent,
        response_mode: LoopResponseMode::Assistant,
        security_mode: LoopSecurityMode::Inherited,
        execution: LoopExecutionSettings { cwd: None, writable_roots: Vec::new() },
        schedule: interval("1h", 3600),
        trigger_bindings: bindings,
        enabled: true,
        rollout_path: None,
        created_at_unix_seconds: 10,
        last_scheduled_at_unix_seconds: None,
        last_completed_at_unix_seconds: None,
    }
}

fn texts(timer_schedule: Option<LoopSchedule>) -> LoopTimerTexts {
    LoopTimerTexts {
        descriptor: "Persistent loop".to_string(),
        timer_schedule,
        context_mode_title: "Persistent".to_string(),
        response_mode_title: "Assistant".to_string(),
        security_mode_title: "Inherited".to_string(),
        execution_summary: "session defaults".to_string(),
    }
}

fn item_texts() -> LoopItemTexts {
    LoopItemTexts {
        name: "review".to_string(),
        prompt_prefix: "check the build".to_string(),
        last_completed: "2024-01-02 03:04".to_string(),
    }
}

fn app_with(t: LoopTimer) -> App {
    let mut app = App::new(Some("thread-main".to_string()));
    app.loop_timers.timers.insert(t);
    app
}

#[test]
fn create_loop_menu_offers_each_context_mode() {
    let app = App::new(None);
    let params = app.open_create_loop_timer_menu();
    assert_eq!(params.view_id.as_deref(), Some("fork-loop-create-panel"));
    assert_eq!(params.subtitle.as_deref(), Some("Create loop agent"));
    assert_eq!(params.on_cancel, Some(AppEvent::OpenLoopTimersPanel));
    let names: Vec<&str> = params.items.iter().map(|i| i.name.as_str()).collect();
    assert_eq!(names, vec!["Embed", "Ephemeral", "Persistent"]);
    assert_eq!(
        params.items[1].actions,
        vec![AppEvent::StartCreateLoopDraft { context_mode: LoopContextMode::Ephemeral }]
    );
    assert!(params.items.iter().all(|i| i.dismiss_on_select));
}

#[test]
fn timer_binding_actions_edit_schedule_then_switch_and_delete() {
    let app = app_with(timer("review", vec![binding("t1", true, LoopTriggerKind::Timer { schedule: interval("every 5m", 300) })]));
    let view = app.open_loop_trigger_binding_actions("review".to_string(), "t1".to_string(), "Timer every 5m");
    let LoopTriggerBindingActionsView::Show(params) = view else {
        panic!("expected the menu");
    };
    assert_eq!(params.view_id.as_deref(), Some("fork-loop-trigger-actions-panel"));
    assert_eq!(params.subtitle.as_deref(), Some("Trigger · Timer every 5m"));
    assert_eq!(params.footer_hint, Some(PopupHint::Standard));
    assert_eq!(params.on_cancel, Some(AppEvent::OpenLoopTimerTriggers { timer_id: "review".to_string() }));
    let names: Vec<&str> = params.items.iter().map(|i| i.name.as_str()).collect();
    assert_eq!(names, vec!["Edit Schedule", "Disable", "Delete"]);
    assert_eq!(params.items[0].description.as_deref(), Some("Current schedule: every 5m"));
    assert_eq!(
        params.items[0].actions,
        vec![AppEvent::OpenEditLoopTriggerBindingSchedule { timer_id: "review".to_string(), binding_id: "t1".to_string() }]
    );
    assert_eq!(
        params.items[2].actions,
        vec![AppEvent::DeleteLoopTriggerBinding { timer_id: "review".to_string(), binding_id: "t1".to_string() }]
    );
}

#[test]
fn idle_binding_actions_edit_duration_and_enable_when_off() {
    let app = app_with(timer("review", vec![binding("i1", false, LoopTriggerKind::Idle { after: interval("10m", 600) })]));
    let LoopTriggerBindingActionsView::Show(params) =
        app.open_loop_trigger_binding_actions("review".to_string(), "i1".to_string(), "Idle 10m")
    else {
        panic!("expected the menu");
    };
    let names: Vec<&str> = params.items.iter().map(|i| i.name.as_str()).collect();
    assert_eq!(names, vec!["Edit Idle Duration", "Enable", "Delete"]);
    assert_eq!(params.items[0].description.as_deref(), Some("Current idle duration: 10m"));
    assert_eq!(
        params.items[1].actions,
        vec![AppEvent::EnableLoopTriggerBinding { timer_id: "review".to_string(), binding_id: "i1".to_string() }]
    );
}

#[test]
fn turn_binding_actions_have_no_editor() {
    let app = app_with(timer("review", vec![binding("b1", true, LoopTriggerKind::BeforeTurn)]));
    let LoopTriggerBindingActionsView::Show(params) =
        app.open_loop_trigger_binding_actions("review".to_string(), "b1".to_string(), "Before Turn")
    else {
        panic!("expected the menu");
    };
    let names: Vec<&str> = params.items.iter().map(|i| i.name.as_str()).collect();
    assert_eq!(names, vec!["Disable", "Delete"]);
}

#[test]
fn binding_actions_fall_back_when_loop_or_trigger_is_gone() {
    let app = app_with(timer("review", vec![binding("b1", true, LoopTriggerKind::AfterTurn)]));
    assert_eq!(
        app.open_loop_trigger_binding_actions("missing".to_string(), "b1".to_string(), "After Turn"),
        LoopTriggerBindingActionsView::TimersPanel
    );
    assert_eq!(
        app.open_loop_trigger_binding_actions("review".to_string(), "gone".to_string(), "After Turn"),
        LoopTriggerBindingActionsView::TriggersPanel { timer_id: "review".to_string() }
    );
}

#[test]
fn timer_selection_item_describes_the_loop() {
    let mut t = timer("review", vec![
        binding("t1", true, LoopTriggerKind::Timer { schedule: interval("every 5m", 300) }),
        binding("b1", true, LoopTriggerKind::BeforeTurn),
    ]);
    let item = loop_timer_selection_item(&t, &texts(Some(interval("every 5m", 300))), &item_texts(), false);
    assert_eq!(item.name, "review");
    assert_eq!(
        item.description.as_deref(),
        Some("Persistent loop · every 5m · 2 trigger(s) · check the build · Assistant")
    );
    assert_eq!(item.actions, vec![AppEvent::OpenLoopTimerActions { timer_id: "review".to_string() }]);

    t.action = Some("  then report ".to_string());
    t.enabled = false;
    t.last_completed_at_unix_seconds = Some(1_704_164_640);
    let item = loop_timer_selection_item(&t, &texts(None), &item_texts(), true);
    assert_eq!(
        item.description.as_deref(),
        Some("Persistent loop · no scheduled trigger · 2 trigger(s) · check the build · Assistant · has action · running now · disabled · last completed 2024-01-02 03:04")
    );
}

#[test]
fn blank_action_is_not_noted() {
    let mut t = timer("review", Vec::new());
    t.action = Some("   ".to_string());
    let item = loop_timer_selection_item(&t, &texts(None), &item_texts(), false);
    assert_eq!(
        item.description.as_deref(),
        Some("Persistent loop · no scheduled trigger · 0 trigger(s) · check the build · Assistant")
    );
}

#[test]
fn status_label_names_loop_trigger_and_prompt() {
    let t = timer("review", vec![binding("i1", true, LoopTriggerKind::Idle { after: interval("10m", 600) })]);
    assert_eq!(loop_status_label(&t, &texts(None), &item_texts()), "review (idle 10m) · check the build");
    assert_eq!(
        loop_status_label(&t, &texts(Some(interval("every 1h", 3600))), &item_texts()),
        "review (every 1h) · check the build"
    );
}

#[test]
fn triggers_panel_lists_add_then_each_trigger() {
    let t = timer("review", vec![
        binding("t1", true, LoopTriggerKind::Timer { schedule: interval("every 5m", 300) }),
        binding("i1", false, LoopTriggerKind::Idle { after: interval("10m", 600) }),
        binding("b1", true, LoopTriggerKind::BeforeTurn),
        binding("a1", true, LoopTriggerKind::AfterTurn),
    ]);
    let names = vec!["Timer".to_string(), "Idle".to_string(), "Before".to_string(), "After".to_string()];
    let params = loop_timer_triggers_panel_params(&t, "review", &names);
    assert_eq!(params.view_id.as_deref(), Some("fork-loop-trigger-bindings-panel"));
    assert_eq!(params.subtitle.as_deref(), Some("Triggers · review"));
    assert_eq!(params.on_cancel, Some(AppEvent::OpenLoopTimerActions { timer_id: "review".to_string() }));
    let names: Vec<&str> = params.items.iter().map(|i| i.name.as_str()).collect();
    assert_eq!(names, vec!["Add Trigger", "Timer", "Idle", "Before", "After"]);
    assert_eq!(params.items[0].actions, vec![AppEvent::OpenCreateLoopTriggerMenu { timer_id: "review".to_string() }]);
    let descriptions: Vec<&str> = params.items.iter().map(|i| i.description.as_deref().unwrap_or("")).collect();
    assert_eq!(
        descriptions,
        vec![
            "Attach a timer, idle, before-turn, or after-turn trigger to this loop.",
            "Timer trigger · every 5m",
            "Idle trigger · 10m",
            "Runs before a main-thread user turn is submitted.",
            "Runs after the assistant final response completes.",
        ]
    );
    assert!(!params.items[1].is_disabled);
    assert!(params.items[2].is_disabled);
    assert_eq!(
        params.items[2].actions,
        vec![AppEvent::OpenLoopTriggerBindingActions { timer_id: "review".to_string(), binding_id: "i1".to_string() }]
    );
}

#[test]
fn queue_entry_actions_move_or_open_the_loop() {
    let app = app_with(timer("review", vec![binding("a1", true, LoopTriggerKind::AfterTurn)]));
    let view = app.open_loop_trigger_queue_entry_actions(
        LoopTriggerPhase::AfterTurn,
        "review".to_string(),
        "a1".to_string(),
        "review",
        "After Turn",
    );
    let LoopTriggerQueueEntryView::Show(params) = view else {
        panic!("expected the menu");
    };
    assert_eq!(params.subtitle.as_deref(), Some("Trigger Queue · review / After Turn"));
    assert_eq!(params.on_cancel, Some(AppEvent::OpenLoopTriggerQueuePhase { phase: LoopTriggerPhase::AfterTurn }));
    let names: Vec<&str> = params.items.iter().map(|i| i.name.as_str()).collect();
    assert_eq!(names, vec!["Move Up", "Move Down", "Open Loop"]);
    assert_eq!(
        params.items[1].actions,
        vec![AppEvent::MoveLoopTriggerQueueEntry {
            phase: LoopTriggerPhase::AfterTurn,
            loop_id: "review".to_string(),
            binding_id: "a1".to_string(),
            move_up: false,
        }]
    );
    assert_eq!(params.items[2].actions, vec![AppEvent::OpenLoopTimerActions { timer_id: "review".to_string() }]);
    assert_eq!(
        app.open_loop_trigger_queue_entry_actions(LoopTriggerPhase::Idle, "review".to_string(), "gone".to_string(), "review", "x"),
        LoopTriggerQueueEntryView::PhasePanel(LoopTriggerPhase::Idle)
    );
    assert_eq!(
        app.open_loop_trigger_queue_entry_actions(LoopTriggerPhase::Timer, "gone".to_string(), "a1".to_string(), "x", "y"),
        LoopTriggerQueueEntryView::PhasePanel(LoopTriggerPhase::Timer)
    );
}
