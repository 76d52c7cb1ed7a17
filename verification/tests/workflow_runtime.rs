use codex_tui::workflow_definition::LoadedWorkflowJob;
use codex_tui::workflow_definition::TurnStatus;
use codex_tui::workflow_definition::WorkflowContextStrategy;
use codex_tui::workflow_definition::WorkflowDuration;
use codex_tui::workflow_definition::WorkflowExecutionStrategy;
use codex_tui::workflow_definition::WorkflowJobConfig;
use codex_tui::workflow_definition::WorkflowResponseMode;
use codex_tui::workflow_definition::WorkflowStep;
use codex_tui::workflow_history::workflow_info_cell;
use codex_tui::workflow_history::workflow_prompt_prefix;
use codex_tui::workflow_history::WorkflowReplySource;
use codex_tui::history::HistoryNotice;
use codex_tui::workflow_runtime::build_workflow_prompt_input;
use codex_tui::workflow_runtime::embedded_job_result;
use codex_tui::workflow_runtime::last_agent_message_for_turn_items;
use codex_tui::workflow_runtime::manual_workflow_job_trigger_id;
use codex_tui::workflow_runtime::plan_workflow_job_runs;
use codex_tui::workflow_runtime::retry_backoff_delay;
use codex_tui::workflow_runtime::should_retry_selected_model_capacity_error;
use codex_tui::workflow_runtime::should_retry_workflow_timeout;
use codex_tui::workflow_runtime::thread_start_strategy;
use codex_tui::workflow_runtime::update_last_workflow_agent_message;
use codex_tui::workflow_runtime::workflow_job_source;
use codex_tui::workflow_runtime::workflow_run_error_message;
use codex_tui::workflow_runtime::workflow_step_timeout;
use codex_tui::workflow_runtime::BackgroundWorkflowRunTarget;
use codex_tui::workflow_runtime::OwnedWorkflowPhaseContext;
use codex_tui::workflow_runtime::WorkflowDisabledJobBehavior;
use codex_tui::workflow_runtime::WorkflowJobOutputs;
use codex_tui::workflow_runtime::WorkflowOutputDelivery;
use codex_tui::workflow_runtime::WorkflowPhaseContext;
use codex_tui::workflow_runtime::workflow_command_result;
use codex_tui::workflow_runtime::workflow_prompt_outcome;
use codex_tui::workflow_runtime::workflow_compaction_timeout;
use codex_tui::workflow_runtime::workflow_command_timeout;
use codex_tui::workflow_runtime::workflow_prompt_timeout;
use codex_tui::workflow_runtime::WorkflowTurnNotification;
use codex_tui::workflow_runtime::WorkflowTurnRead;
use codex_tui::workflow_runtime::WorkflowTurnReader;
use codex_tui::workflow_runtime::WorkflowTurnRecord;
use codex_tui::workflow_runtime::WorkflowTurnState;
use codex_tui::workflow_runtime::WorkflowRunError;
use codex_tui::workflow_runtime::WorkflowStepRetryState;
use codex_tui::workflow_runtime::WorkflowThreadStartStrategy;
use codex_tui::workflow_runtime::WorkflowTriggerOverlapBehavior;
use codex_tui::workflow_runtime::WorkflowTurnItem;

fn loaded(name: &str, enabled: bool, needs: &[&str], index: usize) -> LoadedWorkflowJob {
    LoadedWorkflowJob {
        name: name.to_string(),
        workflow_name: "director".to_string(),
        workflow_path: "/w.yaml".to_string(),
        definition_index: index,
        config: WorkflowJobConfig {
            enabled,
            needs: needs.iter().map(|n| n.to_string()).collect(),
            context_strategy: WorkflowContextStrategy::ThreadAuto,
            execution_strategy: WorkflowExecutionStrategy::InheritSession,
            response: WorkflowResponseMode::User,
            steps: vec![WorkflowStep::Prompt { prompt: "p".to_string(), retry: None, timeout: None }],
        },
    }
}

fn strings(v: &[&str]) -> Vec<String> {
    v.iter().map(|s| s.to_string()).collect()
}

#[test]
fn workflow_reply_source_hint_prefers_action_when_present() {
    let source = WorkflowReplySource::new(
        "director/review:summary".to_string(),
        Some("summarize it".to_string()),
    );
    assert_eq!(
        source.hint(),
        "director/review:summary · summarize it".to_string()
    );
}

#[test]
fn reply_hint_and_prefix() {
    let blank = WorkflowReplySource::new("wf".to_string(), Some("   ".to_string()));
    assert_eq!(blank.hint(), "wf");
    let long = "x".repeat(50);
    assert_eq!(workflow_prompt_prefix(&long), format!("{}...", "x".repeat(48)));
    assert_eq!(workflow_prompt_prefix(&"y".repeat(48)), "y".repeat(48));
    assert_eq!(
        workflow_info_cell(&WorkflowReplySource::new("wf".to_string(), None)),
        HistoryNotice::Info { message: "Workflow reply".to_string(), hint: Some("wf".to_string()) }
    );
}

#[test]
fn manual_job_run_ignores_disabled_root_flag_in_plan() {
    let jobs = vec![loaded("notify", false, &[], 0)];
    let plan = plan_workflow_job_runs(
        &jobs,
        &strings(&["notify"]),
        &strings(&["notify"]),
        WorkflowDisabledJobBehavior::RunRootJobs,
        "director",
        "job:notify",
    );
    assert_eq!(plan.runs, strings(&["notify"]));
    assert_eq!(plan.failure, None);
}

#[test]
fn trigger_run_fails_when_all_target_jobs_are_disabled_in_plan() {
    let jobs = vec![loaded("notify", false, &[], 0)];
    let plan = plan_workflow_job_runs(
        &jobs,
        &strings(&["notify"]),
        &strings(&["notify"]),
        WorkflowDisabledJobBehavior::Skip,
        "director",
        "review_backlog",
    );
    assert!(plan.runs.is_empty());
    assert_eq!(
        plan.failure.as_deref(),
        Some("workflow `director/review_backlog` did not run any enabled jobs")
    );
}

#[test]
fn skipped_needs_skip_their_dependents() {
    let jobs = vec![
        loaded("build", false, &[], 0),
        loaded("test", true, &["build"], 1),
        loaded("notes", true, &[], 2),
    ];
    let plan = plan_workflow_job_runs(
        &jobs,
        &strings(&["build", "test", "notes"]),
        &strings(&["test", "notes"]),
        WorkflowDisabledJobBehavior::Skip,
        "director",
        "t",
    );
    assert_eq!(plan.runs, strings(&["notes"]));
    assert_eq!(plan.failure, None);
    let missing = plan_workflow_job_runs(
        &jobs,
        &strings(&["notes", "ghost", "test"]),
        &strings(&["notes"]),
        WorkflowDisabledJobBehavior::Skip,
        "director",
        "t",
    );
    assert_eq!(missing.runs, strings(&["notes"]));
    assert_eq!(missing.failure.as_deref(), Some("workflow job `ghost` does not exist"));
}

#[test]
fn capacity_error_is_retried_once_after_attempts_run_out() {
    let capacity = WorkflowRunError::Failed(
        "stream error: Selected model is at capacity. Please try a different model.".to_string(),
    );
    assert!(should_retry_selected_model_capacity_error(&capacity));
    let mut state = WorkflowStepRetryState::new();
    assert!(state.after_failure(1, &capacity));
    assert_eq!(state.attempt, 2);
    assert!(state.used_capacity_retry);
    assert!(!state.after_failure(1, &capacity));
    assert_eq!(state.attempt, 2);
}

#[test]
fn timeout_is_retried_once_and_cancellation_never() {
    let timeout = WorkflowRunError::TimedOut("timed out".to_string());
    assert!(should_retry_workflow_timeout(&timeout));
    let mut state = WorkflowStepRetryState::new();
    assert!(state.after_failure(2, &timeout));
    assert!(!state.used_timeout_retry);
    assert!(state.after_failure(2, &timeout));
    assert!(state.used_timeout_retry);
    assert!(!state.after_failure(2, &timeout));
    let mut fresh = WorkflowStepRetryState::new();
    assert!(!fresh.after_failure(5, &WorkflowRunError::Cancelled));
    let plain = WorkflowRunError::Failed("boom".to_string());
    let mut once = WorkflowStepRetryState::new();
    assert!(!once.after_failure(1, &plain));
}

#[test]
fn retry_backoff_doubles_up_to_eight_seconds() {
    let secs: Vec<u64> = (0..6).map(|a| retry_backoff_delay(a).secs).collect();
    assert_eq!(secs, vec![1, 1, 2, 4, 8, 8]);
    assert_eq!(retry_backoff_delay(u32::MAX), WorkflowDuration { secs: 8, nanos: 0 });
}

#[test]
fn prompt_input_joins_nonblank_sections() {
    let outputs = strings(&["first", "second"]);
    let input = build_workflow_prompt_input(
        "director",
        "review",
        "summary",
        "Summarize.",
        WorkflowPhaseContext { current_user_turn: Some("  fix the bug \n"), last_assistant_message: Some("   ") },
        &outputs,
    );
    assert_eq!(
        input,
        "Workflow: director\nTrigger: review\nJob: summary\n\nCurrent main-thread user turn:\nfix the bug\n\nPrevious workflow step outputs:\nfirst\n\nsecond\n\nCurrent workflow prompt:\nSummarize."
    );
    let bare = build_workflow_prompt_input(
        "w",
        "t",
        "j",
        "p",
        WorkflowPhaseContext { current_user_turn: None, last_assistant_message: Some("done") },
        &[],
    );
    assert_eq!(
        bare,
        "Workflow: w\nTrigger: t\nJob: j\n\nLatest main-thread assistant response:\ndone\n\nCurrent workflow prompt:\np"
    );
}

#[test]
fn embedded_jobs_deliver_their_first_prompt() {
    let mut job = loaded("inline", true, &[], 0);
    job.config.context_strategy = WorkflowContextStrategy::EmbedCompact;
    job.config.steps = vec![
        WorkflowStep::Prompt { prompt: "first".to_string(), retry: None, timeout: None },
        WorkflowStep::Prompt { prompt: "second".to_string(), retry: None, timeout: None },
    ];
    let result = embedded_job_result("director", "t", &job).unwrap();
    assert_eq!(result.delivery, WorkflowOutputDelivery::MainThreadCompactInput);
    assert_eq!(result.message.as_deref(), Some("first"));
    assert_eq!(workflow_job_source(&result), "director/t:inline");
    job.config.context_strategy = WorkflowContextStrategy::Embed;
    job.config.steps = vec![WorkflowStep::Run { run: "ls".to_string(), retry: None, timeout: None }];
    let err = embedded_job_result("director", "t", &job).unwrap_err();
    assert_eq!(
        workflow_run_error_message(err),
        "workflow `director` job `inline` uses `context_strategy: embed` but has no prompt step"
    );
}

#[test]
fn thread_jobs_report_last_prompt_or_joined_outputs() {
    let job = loaded("notify", true, &[], 0);
    let mut outputs = WorkflowJobOutputs::new();
    let run = WorkflowStep::Run { run: "ls".to_string(), retry: None, timeout: None };
    outputs.record(&run, "listing".to_string());
    outputs.record(&run, "more".to_string());
    let result = outputs.into_result("director", "t", &job);
    assert_eq!(result.message.as_deref(), Some("listing\n\nmore"));
    assert_eq!(result.delivery, WorkflowOutputDelivery::UserFollowup);

    let mut outputs = WorkflowJobOutputs::new();
    outputs.record(&WorkflowStep::Prompt { prompt: "p".to_string(), retry: None, timeout: None }, "answer".to_string());
    outputs.record(&run, "after".to_string());
    assert_eq!(outputs.into_result("director", "t", &job).message.as_deref(), Some("answer"));
    assert_eq!(WorkflowJobOutputs::new().into_result("d", "t", &job).message, None);
}

#[test]
fn run_targets_and_ids() {
    let target = BackgroundWorkflowRunTarget::Trigger {
        workflow_name: "director".to_string(),
        trigger_id: "review".to_string(),
        phase_context: OwnedWorkflowPhaseContext { current_user_turn: None, last_assistant_message: None },
        overlap_behavior: WorkflowTriggerOverlapBehavior::Queue,
    };
    assert_eq!(target.label(), "director · review");
    assert_eq!(target.started_message(), "Workflow trigger started");
    let job = BackgroundWorkflowRunTarget::Job { workflow_name: "d".to_string(), job_name: "j".to_string() };
    assert_eq!(job.slot_key(), "j");
    assert_eq!(job.failed_message(), "Workflow job failed");
    assert_eq!(manual_workflow_job_trigger_id("notify"), "job:notify");
    assert_eq!(thread_start_strategy(WorkflowContextStrategy::ThreadForkCompact), WorkflowThreadStartStrategy::ForkCompact);
    assert_eq!(WorkflowThreadStartStrategy::Fork.as_str(), "fork");
    assert_eq!(workflow_run_error_message(WorkflowRunError::Cancelled), "workflow run cancelled");
}

#[test]
fn step_timeout_errors_name_the_job() {
    let step = WorkflowStep::Run { run: "x".to_string(), retry: None, timeout: Some("soon".to_string()) };
    match workflow_step_timeout("director", "notify", &step) {
        Err(WorkflowRunError::Failed(m)) => {
            assert!(m.starts_with("workflow `director` job `notify` has invalid run step timeout: invalid step timeout `soon`: "), "{m}")
        }
        other => panic!("unexpected {other:?}"),
    }
    let ok = WorkflowStep::Run { run: "x".to_string(), retry: None, timeout: None };
    assert_eq!(workflow_step_timeout("d", "j", &ok), Ok(WorkflowDuration { secs: 30, nanos: 0 }));
}

#[test]
fn agent_messages_of_turns() {
    let items = vec![
        WorkflowTurnItem::AgentMessage("  first ".to_string()),
        WorkflowTurnItem::AgentMessage(" last ".to_string()),
    ];
    assert_eq!(last_agent_message_for_turn_items(&items), Some("last".to_string()));
    let trailing = vec![WorkflowTurnItem::AgentMessage("x".to_string()), WorkflowTurnItem::Other];
    assert_eq!(last_agent_message_for_turn_items(&trailing), None);
    let mut last = Some("kept".to_string());
    update_last_workflow_agent_message(&mut last, &WorkflowTurnItem::AgentMessage("   ".to_string()));
    assert_eq!(last.as_deref(), Some("kept"));
    update_last_workflow_agent_message(&mut last, &WorkflowTurnItem::AgentMessage(" new ".to_string()));
    assert_eq!(last.as_deref(), Some("new"));
}

#[test]
fn read_turn_uses_forwarded_notifications_for_ephemeral_threads() {
    let mut reader = WorkflowTurnReader::new("thr_workflow".to_string(), "turn-1".to_string());
    let none = reader.on_notification(WorkflowTurnNotification::ItemCompleted {
        thread_id: "thr_workflow".to_string(),
        turn_id: "turn-1".to_string(),
        item: WorkflowTurnItem::AgentMessage("workflow reply".to_string()),
    });
    assert_eq!(none, None);
    let state = reader.on_notification(WorkflowTurnNotification::TurnCompleted {
        thread_id: "thr_workflow".to_string(),
        turn: WorkflowTurnRecord { id: "turn-1".to_string(), status: TurnStatus::Completed, error: None, items: Vec::new() },
    });
    assert_eq!(
        state,
        Some(WorkflowTurnState {
            status: TurnStatus::Completed,
            error: None,
            last_agent_message: Some("workflow reply".to_string()),
        })
    );
}

#[test]
fn turn_reader_waits_through_include_turns_errors_and_unfinished_turns() {
    let mut reader = WorkflowTurnReader::new("thr".to_string(), "turn-2".to_string());
    assert_eq!(
        reader.on_read_error("thread/read failed: includeTurns is unavailable before first user message"),
        WorkflowTurnRead::Wait
    );
    assert_eq!(reader.on_read_error("ephemeral threads do not support includeTurns"), WorkflowTurnRead::Wait);
    assert_eq!(
        reader.on_read_error("connection closed"),
        WorkflowTurnRead::Failed("failed to read workflow turn `turn-2`: connection closed".to_string())
    );
    let other_thread = reader.on_notification(WorkflowTurnNotification::ItemCompleted {
        thread_id: "elsewhere".to_string(),
        turn_id: "turn-2".to_string(),
        item: WorkflowTurnItem::AgentMessage("not ours".to_string()),
    });
    assert_eq!(other_thread, None);
    assert_eq!(reader.last_agent_message, None);
    let record = |status: TurnStatus, items: Vec<WorkflowTurnItem>| WorkflowTurnRecord {
        id: "turn-2".to_string(),
        status,
        error: None,
        items,
    };
    assert_eq!(reader.on_read_turns(Vec::new()), WorkflowTurnRead::Wait);
    assert_eq!(
        reader.on_read_turns(vec![record(TurnStatus::InProgress, vec![WorkflowTurnItem::AgentMessage(" draft ".to_string())])]),
        WorkflowTurnRead::Wait
    );
    assert_eq!(reader.last_agent_message.as_deref(), Some("draft"));
    assert_eq!(
        reader.on_read_turns(vec![record(TurnStatus::Failed, vec![WorkflowTurnItem::Other])]),
        WorkflowTurnRead::Done(WorkflowTurnState {
            status: TurnStatus::Failed,
            error: None,
            last_agent_message: Some("draft".to_string()),
        })
    );
}

#[test]
fn timeouts_name_the_time_that_ran_out() {
    let second = WorkflowDuration { secs: 1, nanos: 0 };
    assert_eq!(workflow_prompt_timeout(second), WorkflowRunError::TimedOut("workflow prompt timed out after 1s".to_string()));
    assert_eq!(
        workflow_command_timeout("cargo test", WorkflowDuration { secs: 9420, nanos: 0 }),
        WorkflowRunError::TimedOut("workflow command `cargo test` timed out after 2h 37m".to_string())
    );
    assert_eq!(
        workflow_compaction_timeout(WorkflowDuration { secs: 0, nanos: 32_000_000 }),
        "workflow thread compaction timed out after 32ms"
    );
    assert_eq!(
        workflow_compaction_timeout(WorkflowDuration { secs: 2 * 31_557_600 + 86_400 + 61, nanos: 1_001_001 }),
        "workflow thread compaction timed out after 2years 1day 1m 1s 1ms 1us 1ns"
    );
    assert_eq!(workflow_compaction_timeout(WorkflowDuration { secs: 0, nanos: 0 }), "workflow thread compaction timed out after 0s");
}

#[test]
fn prompt_outcome_follows_the_turn_status() {
    let state = |status: TurnStatus, error: Option<&str>| WorkflowTurnState {
        status,
        error: error.map(|e| e.to_string()),
        last_agent_message: Some("done".to_string()),
    };
    assert_eq!(workflow_prompt_outcome(state(TurnStatus::Completed, None)), Some(Ok(Some("done".to_string()))));
    assert_eq!(workflow_prompt_outcome(state(TurnStatus::Interrupted, None)), Some(Err(WorkflowRunError::Cancelled)));
    assert_eq!(
        workflow_prompt_outcome(state(TurnStatus::Failed, None)),
        Some(Err(WorkflowRunError::Failed("workflow prompt turn failed".to_string())))
    );
    assert_eq!(
        workflow_prompt_outcome(state(TurnStatus::Failed, Some("model overloaded"))),
        Some(Err(WorkflowRunError::Failed("model overloaded".to_string())))
    );
    assert_eq!(workflow_prompt_outcome(state(TurnStatus::InProgress, None)), None);
}

#[test]
fn command_results_join_outputs_and_name_failures() {
    assert_eq!(workflow_command_result("ls", true, "exit status: 0", "a\nb\n", ""), Ok(Some("a\nb".to_string())));
    assert_eq!(workflow_command_result("ls", true, "exit status: 0", "out", "warn"), Ok(Some("out\nwarn".to_string())));
    assert_eq!(workflow_command_result("ls", true, "exit status: 0", "out\n", "warn\n"), Ok(Some("out\nwarn".to_string())));
    assert_eq!(workflow_command_result("ls", true, "exit status: 0", "  ", ""), Ok(None));
    assert_eq!(
        workflow_command_result("make", false, "exit status: 2", "", "boom\n"),
        Err(WorkflowRunError::Failed("workflow command `make` failed with status exit status: 2: boom".to_string()))
    );
    assert_eq!(
        workflow_command_result("make", false, "exit status: 2", "", ""),
        Err(WorkflowRunError::Failed("workflow command `make` failed with status exit status: 2".to_string()))
    );
}
