use codex_tui::app::App;
use codex_tui::app::background_run_outcome;
use codex_tui::app::background_workflow_run_spec;
use codex_tui::workflow_runtime::WorkflowDisabledJobBehavior;
use codex_tui::workflow_runtime::WorkflowRunError;
use codex_tui::app::WorkflowResultStep;
use codex_tui::workflow_definition::WorkflowExecutionStrategy;
use codex_tui::workflow_runtime::BackgroundWorkflowRunOutcome;
use codex_tui::workflow_runtime::WorkflowJobRunResult;
use codex_tui::workflow_runtime::WorkflowOutputDelivery;
use codex_tui::app::TriggerRunDispatch;
use codex_tui::app::WorkflowFollowup;
use codex_tui::history::HistoryNotice;
use codex_tui::loop_timers::idle_binding_task_key;
use codex_tui::loop_timers::starts_with;
use codex_tui::workflow_definition::LoadedWorkflowFile;
use codex_tui::workflow_definition::LoadedWorkflowRegistry;
use codex_tui::workflow_definition::LoadedWorkflowTrigger;
use codex_tui::workflow_definition::WorkflowTriggerKind;
use codex_tui::workflow_history::WorkflowReplySource;
use codex_tui::workflow_runtime::BackgroundWorkflowRunTarget;
use codex_tui::workflow_runtime::OwnedWorkflowPhaseContext;
use codex_tui::workflow_runtime::WorkflowPhaseContext;
use codex_tui::workflow_runtime::WorkflowTriggerOverlapBehavior;
use codex_tui::workflow_scheduler::WorkflowSchedulerState;

fn empty_context() -> OwnedWorkflowPhaseContext {
    OwnedWorkflowPhaseContext { current_user_turn: None, last_assistant_message: None }
}

fn job_target(w: &str, j: &str) -> BackgroundWorkflowRunTarget {
    BackgroundWorkflowRunTarget::Job { workflow_name: w.to_string(), job_name: j.to_string() }
}

#[test]
fn run_ids_count_up_per_scheduler() {
    let mut scheduler = WorkflowSchedulerState::new();
    assert_eq!(scheduler.next_background_run_id("director", "review"), "director/review#1");
    assert_eq!(scheduler.next_background_run_id("director", "notify"), "director/notify#2");
}

#[test]
fn registered_runs_are_taken_back_and_labelled_in_order() {
    let mut scheduler = WorkflowSchedulerState::new();
    scheduler.register_background_workflow_run("b#1".to_string(), job_target("zeta", "run"));
    scheduler.register_background_workflow_run("a#2".to_string(), job_target("alpha", "run"));
    scheduler.register_background_workflow_run("c#3".to_string(), job_target("mid", "run"));
    assert_eq!(
        scheduler.background_workflow_labels(),
        vec!["alpha · run".to_string(), "mid · run".to_string(), "zeta · run".to_string()]
    );
    assert!(!scheduler.has_running_trigger_run());
    assert_eq!(scheduler.take_background_workflow_run("a#2"), Some(job_target("alpha", "run")));
    assert_eq!(scheduler.take_background_workflow_run("a#2"), None);
    scheduler.register_background_workflow_run("b#1".to_string(), job_target("beta", "run"));
    assert_eq!(
        scheduler.background_workflow_labels(),
        vec!["beta · run".to_string(), "mid · run".to_string()]
    );
    let stopped = scheduler.stop_active_workflow_runs();
    assert_eq!(stopped.len(), 2);
    assert!(scheduler.background_workflow_labels().is_empty());
}

#[test]
fn trigger_runs_queue_behind_a_running_trigger() {
    let mut app = App::new(Some("thread-1".to_string()));
    let first = app.queue_or_start_trigger_run(
        "director".to_string(),
        "review".to_string(),
        empty_context(),
        WorkflowTriggerOverlapBehavior::Queue,
    );
    assert_eq!(first, TriggerRunDispatch::Started("director/review#1".to_string()));
    assert!(app.workflow_scheduler.has_running_trigger_run());
    assert!(app.workflow_scheduler.has_active_trigger_run("director", "review"));

    let second = app.queue_or_start_trigger_run(
        "director".to_string(),
        "notify".to_string(),
        empty_context(),
        WorkflowTriggerOverlapBehavior::Queue,
    );
    assert_eq!(second, TriggerRunDispatch::Queued);
    assert_eq!(app.workflow_scheduler.queued_trigger_labels(), vec!["director · notify".to_string()]);

    let skipped = app.queue_or_start_trigger_run(
        "director".to_string(),
        "notify".to_string(),
        empty_context(),
        WorkflowTriggerOverlapBehavior::Skip,
    );
    assert_eq!(skipped, TriggerRunDispatch::Skipped);
    assert_eq!(app.dispatch_next_queued_trigger_run(), None);

    app.workflow_scheduler.take_background_workflow_run("director/review#1");
    assert_eq!(app.dispatch_next_queued_trigger_run(), Some("director/notify#2".to_string()));
    assert!(app.workflow_scheduler.queued_trigger_labels().is_empty());
    assert!(app.workflow_scheduler.has_active_trigger_run("director", "notify"));
}

fn registry() -> LoadedWorkflowRegistry {
    LoadedWorkflowRegistry {
        files: vec![LoadedWorkflowFile {
            name: "director".to_string(),
            source_path: "/w.yaml".to_string(),
            triggers: vec![
                LoadedWorkflowTrigger {
                    id: "review".to_string(),
                    enabled: true,
                    jobs: vec!["notify".to_string()],
                    kind: WorkflowTriggerKind::Manual,
                },
                LoadedWorkflowTrigger {
                    id: "triage".to_string(),
                    enabled: false,
                    jobs: vec!["notify".to_string()],
                    kind: WorkflowTriggerKind::Manual,
                },
                LoadedWorkflowTrigger {
                    id: "watch".to_string(),
                    enabled: true,
                    jobs: vec!["notify".to_string()],
                    kind: WorkflowTriggerKind::FileWatch,
                },
            ],
        }],
        jobs: Vec::new(),
    }
}

fn info(message: &str, hint: &str) -> HistoryNotice {
    HistoryNotice::Info { message: message.to_string(), hint: Some(hint.to_string()) }
}

#[test]
fn manual_trigger_requests_report_what_happened() {
    let mut app = App::new(Some("t".to_string()));
    let reg = Ok(registry());
    let missing = app.start_manual_workflow_trigger_run(&reg, "other".to_string(), "x".to_string());
    assert_eq!(
        missing.notice,
        HistoryNotice::Error { message: "Workflow trigger failed: workflow `other` does not exist".to_string() }
    );
    let unknown = app.start_manual_workflow_trigger_run(&reg, "director".to_string(), "x".to_string());
    assert_eq!(
        unknown.notice,
        HistoryNotice::Error { message: "Workflow trigger failed: trigger `director/x` does not exist".to_string() }
    );
    let disabled = app.start_manual_workflow_trigger_run(&reg, "director".to_string(), "triage".to_string());
    assert_eq!(
        disabled.notice,
        HistoryNotice::Error {
            message: "Workflow trigger failed: workflow trigger `director/triage` is disabled".to_string()
        }
    );
    let broken = app.start_manual_workflow_trigger_run(&Err("bad yaml".to_string()), "director".to_string(), "review".to_string());
    assert_eq!(
        broken.notice,
        HistoryNotice::Error { message: "Workflow trigger failed: failed to load workflows: bad yaml".to_string() }
    );
    let started = app.start_manual_workflow_trigger_run(&reg, "director".to_string(), "review".to_string());
    assert_eq!(started.notice, info("Workflow trigger started", "director · review"));
    assert_eq!(started.started_run.as_deref(), Some("director/review#1"));
    let queued = app.start_manual_workflow_trigger_run(&reg, "director".to_string(), "review".to_string());
    assert_eq!(queued.notice, info("Workflow trigger queued", "director · review"));
    assert_eq!(queued.started_run, None);
}

#[test]
fn manual_jobs_start_at_once() {
    let mut app = App::new(None);
    let a = app.start_manual_workflow_job_run("director".to_string(), "notify".to_string());
    assert_eq!(a.notice, info("Workflow job started", "director · notify"));
    assert_eq!(a.started_run.as_deref(), Some("director/notify#1"));
    let b = app.start_manual_workflow_job_run("director".to_string(), "notify".to_string());
    assert_eq!(b.started_run.as_deref(), Some("director/notify#2"));
    assert!(!app.workflow_scheduler.has_running_trigger_run());
}

#[test]
fn scheduled_and_file_watch_triggers() {
    let mut app = App::new(Some("t".to_string()));
    let scheduled = app.start_scheduled_workflow_trigger_run(
        "director".to_string(),
        "nightly".to_string(),
        WorkflowPhaseContext { current_user_turn: Some("hi"), last_assistant_message: None },
    );
    assert_eq!(scheduled.notice, info("Workflow trigger started", "director · nightly"));
    let watch = app.start_file_watch_workflow_trigger_run("director".to_string(), "nightly".to_string());
    assert!(watch.is_none());
    let other = app.start_file_watch_workflow_trigger_run("director".to_string(), "watch".to_string());
    assert_eq!(other.unwrap().notice, info("Workflow trigger queued", "director · watch"));
    let again = app.start_file_watch_workflow_trigger_run("director".to_string(), "watch".to_string());
    assert!(again.is_none());
}

#[test]
fn file_changes_run_enabled_file_watch_triggers() {
    let mut without_thread = App::new(None);
    assert_eq!(without_thread.handle_workspace_file_changes_for_workflows(&Ok(registry()), 3), Ok(Vec::new()));
    let mut app = App::new(Some("t".to_string()));
    assert_eq!(app.handle_workspace_file_changes_for_workflows(&Ok(registry()), 0), Ok(Vec::new()));
    assert_eq!(
        app.handle_workspace_file_changes_for_workflows(&Err("bad".to_string()), 1),
        Err("Workflow file_watch failed: failed to load workflows: bad".to_string())
    );
    let cells = app.handle_workspace_file_changes_for_workflows(&Ok(registry()), 2).unwrap();
    assert_eq!(cells.len(), 1);
    assert_eq!(cells[0].notice, info("Workflow trigger started", "director · watch"));
    let again = app.handle_workspace_file_changes_for_workflows(&Ok(registry()), 2).unwrap();
    assert!(again.is_empty());
}

#[test]
fn followups_to_the_main_thread() {
    let source = WorkflowReplySource::new("director/review:summary".to_string(), None);
    let without = App::new(None);
    assert_eq!(
        without.queue_workflow_followup_to_primary("text", &source, None),
        WorkflowFollowup::MissingPrimaryThread {
            error: "Failed to find the main thread for background follow-up.".to_string()
        }
    );
    let app = App::new(Some("thread-9".to_string()));
    assert_eq!(app.queue_workflow_followup_to_primary("  \n ", &source, Some("thread-9")), WorkflowFollowup::Empty);
    assert_eq!(
        app.queue_workflow_followup_to_primary("  do it \n", &source, Some("thread-9")),
        WorkflowFollowup::Submit {
            thread_id: "thread-9".to_string(),
            text: "do it".to_string(),
            notice: info("Workflow reply", "director/review:summary"),
            shown: true,
        }
    );
    assert_eq!(
        app.queue_workflow_followup_to_primary("do it", &source, Some("other")),
        WorkflowFollowup::Submit {
            thread_id: "thread-9".to_string(),
            text: "do it".to_string(),
            notice: info("Workflow reply", "director/review:summary"),
            shown: false,
        }
    );
}

#[test]
fn idle_trigger_tasks_are_cancelled_per_loop() {
    let mut app = App::new(None);
    assert_eq!(idle_binding_task_key("loop-a", "b1"), "loop-a:b1");
    app.loop_timers.idle_scheduler_tasks.insert(idle_binding_task_key("loop-a", "b1"));
    app.loop_timers.idle_scheduler_tasks.insert(idle_binding_task_key("loop-a", "b2"));
    app.loop_timers.idle_scheduler_tasks.insert(idle_binding_task_key("loop-ab", "b1"));
    app.loop_timers.idle_due_at.insert(idle_binding_task_key("loop-a", "b1"), 1_700_000_300);
    app.loop_timers.scheduler_tasks.insert("loop-a".to_string());
    assert_eq!(app.loop_timers.idle_due_at.get("loop-a:b1"), Some(1_700_000_300));
    let mut cancelled = app.cancel_idle_triggers_for_loop("loop-a");
    assert_eq!(app.loop_timers.idle_due_at.get("loop-a:b1"), None);
    cancelled.sort();
    assert_eq!(cancelled, vec!["loop-a:b1".to_string(), "loop-a:b2".to_string()]);
    assert!(!app.stop_idle_trigger_scheduler("loop-a:b1"));
    assert!(app.stop_loop_timer_scheduler("loop-a"));
    assert!(!app.stop_loop_timer_scheduler("loop-a"));
    let rest = app.cancel_primary_idle_triggers();
    assert_eq!(rest, vec!["loop-ab:b1".to_string()]);
    app.note_loop_timer_run_started("loop-a".to_string());
    let (timers, idle, runs) = app.stop_all_loop_timer_tasks();
    assert!(timers.is_empty() && idle.is_empty());
    assert_eq!(runs, vec!["loop-a".to_string()]);
    let (_, _, runs) = app.stop_all_loop_timer_tasks();
    assert!(runs.is_empty());
    assert!(starts_with("loop-a:b1", "loop-a:"));
    assert!(!starts_with("loop", "loop-a:"));
}

fn job_result(job: &str, delivery: WorkflowOutputDelivery, message: Option<&str>) -> WorkflowJobRunResult {
    WorkflowJobRunResult {
        delivery,
        execution_strategy: WorkflowExecutionStrategy::InheritSession,
        workflow_name: "director".to_string(),
        trigger_id: "review".to_string(),
        job_name: job.to_string(),
        message: message.map(|m| m.to_string()),
    }
}

#[test]
fn finished_trigger_run_reports_its_jobs_and_starts_the_next_trigger() {
    let mut app = App::new(Some("thread-1".to_string()));
    let first = app.queue_or_start_trigger_run("director".to_string(), "review".to_string(), empty_context(), WorkflowTriggerOverlapBehavior::Queue);
    assert_eq!(first, TriggerRunDispatch::Started("director/review#1".to_string()));
    let _ = app.queue_or_start_trigger_run("director".to_string(), "notify".to_string(), empty_context(), WorkflowTriggerOverlapBehavior::Queue);
    assert_eq!(app.finish_background_workflow_run("nope#9", BackgroundWorkflowRunOutcome::Cancelled), None);
    let finish = app
        .finish_background_workflow_run(
            "director/review#1",
            BackgroundWorkflowRunOutcome::Completed(vec![
                job_result("summary", WorkflowOutputDelivery::AssistantCell, Some("all green")),
                job_result("notify", WorkflowOutputDelivery::UserFollowup, Some("  ping the team  ")),
                job_result("compact", WorkflowOutputDelivery::MainThreadCompactInput, Some("fold it in")),
                job_result("quiet", WorkflowOutputDelivery::MainThreadInput, Some("   ")),
            ]),
        )
        .expect("known run");
    let source = |job: &str| format!("director/review:{job}");
    assert_eq!(
        finish.steps,
        vec![
            WorkflowResultStep::Notice(info("Workflow trigger completed", &source("summary"))),
            WorkflowResultStep::AssistantReply("all green".to_string()),
            WorkflowResultStep::Notice(info("Workflow trigger completed", &source("notify"))),
            WorkflowResultStep::SubmitFollowup {
                thread_id: "thread-1".to_string(),
                text: "ping the team".to_string(),
                notice: info("Workflow reply", &source("notify")),
            },
            WorkflowResultStep::Notice(info("Workflow trigger completed", &source("compact"))),
            WorkflowResultStep::CompactFollowup {
                text: "fold it in".to_string(),
                source: WorkflowReplySource { workflow_id: source("compact"), action: None },
                execution_strategy: WorkflowExecutionStrategy::InheritSession,
            },
            WorkflowResultStep::Notice(info("Workflow trigger completed", &source("quiet"))),
        ]
    );
    assert_eq!(finish.next_trigger_run, Some("director/notify#2".to_string()));
}

#[test]
fn finished_job_runs_report_stops_and_failures() {
    let mut app = App::new(Some("thread-1".to_string()));
    let started = app.start_manual_workflow_job_run("director".to_string(), "notify".to_string());
    let run_id = started.started_run.expect("run id");
    let finish = app.finish_background_workflow_run(&run_id, BackgroundWorkflowRunOutcome::Cancelled).expect("known run");
    assert_eq!(finish.steps, vec![WorkflowResultStep::Notice(info("Workflow job stopped", "director · notify"))]);
    assert_eq!(finish.next_trigger_run, None);
    let started = app.start_manual_workflow_job_run("director".to_string(), "notify".to_string());
    let run_id = started.started_run.expect("run id");
    let finish = app
        .finish_background_workflow_run(&run_id, BackgroundWorkflowRunOutcome::Failed("timed out".to_string()))
        .expect("known run");
    assert_eq!(
        finish.steps,
        vec![WorkflowResultStep::Notice(HistoryNotice::Error { message: "Workflow job failed: timed out".to_string() })]
    );
    let mut headless = App::new(None);
    let started = headless.start_manual_workflow_job_run("director".to_string(), "notify".to_string());
    let finish = headless
        .finish_background_workflow_run(&started.started_run.expect("run id"), BackgroundWorkflowRunOutcome::Cancelled)
        .expect("known run");
    assert!(finish.steps.is_empty());
}

#[test]
fn background_run_specs_follow_the_target() {
    let reg = registry();
    let trigger = BackgroundWorkflowRunTarget::Trigger {
        workflow_name: "director".to_string(),
        trigger_id: "review".to_string(),
        phase_context: OwnedWorkflowPhaseContext { current_user_turn: Some("hi".to_string()), last_assistant_message: None },
        overlap_behavior: WorkflowTriggerOverlapBehavior::Queue,
    };
    let spec = background_workflow_run_spec(&reg, &trigger).expect("spec");
    assert_eq!(spec.workflow_name, "director");
    assert_eq!(spec.trigger_id, "review");
    assert_eq!(spec.root_jobs, vec!["notify".to_string()]);
    assert_eq!(spec.phase_context.current_user_turn.as_deref(), Some("hi"));
    assert_eq!(spec.disabled_job_behavior, WorkflowDisabledJobBehavior::Skip);
    let disabled = BackgroundWorkflowRunTarget::Trigger {
        workflow_name: "director".to_string(),
        trigger_id: "triage".to_string(),
        phase_context: empty_context(),
        overlap_behavior: WorkflowTriggerOverlapBehavior::Queue,
    };
    assert_eq!(
        background_workflow_run_spec(&reg, &disabled),
        Err(WorkflowRunError::Failed("workflow trigger `director/triage` is disabled".to_string()))
    );
    assert_eq!(
        background_workflow_run_spec(&reg, &job_target("director", "notify")),
        Err(WorkflowRunError::Failed("workflow job `notify` does not exist".to_string()))
    );
    assert_eq!(
        background_run_outcome(Err(WorkflowRunError::TimedOut("slow".to_string()))),
        BackgroundWorkflowRunOutcome::Failed("slow".to_string())
    );
    assert_eq!(background_run_outcome(Err(WorkflowRunError::Cancelled)), BackgroundWorkflowRunOutcome::Cancelled);
    assert_eq!(background_run_outcome(Ok(Vec::new())), BackgroundWorkflowRunOutcome::Completed(Vec::new()));
}
