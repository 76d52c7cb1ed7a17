use codex_tui::after_turn::AfterTurnRound;
use codex_tui::after_turn::AfterTurnSchedulerAction;
use codex_tui::after_turn::AfterTurnSchedulerState;
use codex_tui::after_turn::LoopMirroredUserTurn;
use codex_tui::after_turn::LoopReplySource;

fn followup(label: &str) -> LoopMirroredUserTurn {
    LoopMirroredUserTurn {
        text: label.to_string(),
        source: LoopReplySource::new(format!("loop-{label}"), None),
    }
}

#[test]
fn after_turn_round_waits_for_a_then_b_before_starting_next_round() {
    let mut scheduler = AfterTurnSchedulerState::default();
    scheduler.note_turn_complete(Some("seed".to_string()));

    assert_eq!(
        scheduler.next_action(),
        AfterTurnSchedulerAction::RunRound(AfterTurnRound {
            last_agent_message: Some("seed".to_string()),
        })
    );
    scheduler.note_round_completed();

    scheduler.push_followups(vec![followup("A"), followup("B")]);

    assert_eq!(
        scheduler.next_action(),
        AfterTurnSchedulerAction::SubmitFollowup(followup("A"))
    );
    scheduler.note_turn_complete(Some("after A".to_string()));

    assert_eq!(
        scheduler.next_action(),
        AfterTurnSchedulerAction::SubmitFollowup(followup("B"))
    );
    scheduler.note_turn_complete(Some("after B".to_string()));

    assert_eq!(
        scheduler.next_action(),
        AfterTurnSchedulerAction::RunRound(AfterTurnRound {
            last_agent_message: Some("after A".to_string()),
        })
    );
    scheduler.note_round_completed();
    scheduler.push_followups(vec![followup("A"), followup("B")]);

    assert_eq!(
        scheduler.next_action(),
        AfterTurnSchedulerAction::SubmitFollowup(followup("A"))
    );
    scheduler.note_turn_complete(Some("after A again".to_string()));

    assert_eq!(
        scheduler.next_action(),
        AfterTurnSchedulerAction::SubmitFollowup(followup("B"))
    );
    scheduler.note_turn_complete(Some("after B again".to_string()));

    assert_eq!(
        scheduler.next_action(),
        AfterTurnSchedulerAction::RunRound(AfterTurnRound {
            last_agent_message: Some("after B".to_string()),
        })
    );
}

#[test]
fn followup_error_releases_scheduler_for_remaining_work() {
    let mut scheduler = AfterTurnSchedulerState::default();
    scheduler.push_followups(vec![followup("a"), followup("b")]);

    assert_eq!(
        scheduler.next_action(),
        AfterTurnSchedulerAction::SubmitFollowup(followup("a"))
    );

    scheduler.note_turn_error();

    assert_eq!(
        scheduler.next_action(),
        AfterTurnSchedulerAction::SubmitFollowup(followup("b"))
    );
}

#[test]
fn status_label_is_empty_only_when_idle() {
    let mut scheduler = AfterTurnSchedulerState::default();
    assert_eq!(scheduler.status_label(), None);
    scheduler.note_turn_complete(None);
    assert_eq!(
        scheduler.status_label(),
        Some("after-turn queue (queued) · 1 round(s) · 0 follow-up(s)".to_string())
    );
    assert_eq!(
        scheduler.next_action(),
        AfterTurnSchedulerAction::RunRound(AfterTurnRound { last_agent_message: None })
    );
    assert_eq!(
        scheduler.status_label(),
        Some("after-turn queue (running) · 0 round(s) · 0 follow-up(s)".to_string())
    );
    scheduler.note_round_progress("nightly".to_string());
    assert_eq!(scheduler.status_label(), Some("nightly".to_string()));
    scheduler.note_round_completed();
    assert_eq!(scheduler.status_label(), None);
}

#[test]
fn busy_scheduler_hands_out_nothing() {
    let mut scheduler = AfterTurnSchedulerState::default();
    scheduler.push_followups(vec![followup("a")]);
    scheduler.note_turn_complete(Some("x".to_string()));
    assert_eq!(
        scheduler.next_action(),
        AfterTurnSchedulerAction::SubmitFollowup(followup("a"))
    );
    assert_eq!(scheduler.next_action(), AfterTurnSchedulerAction::Idle);
    scheduler.clear();
    assert_eq!(scheduler.next_action(), AfterTurnSchedulerAction::Idle);
    assert_eq!(scheduler.status_label(), None);
}
