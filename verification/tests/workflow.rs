use codex_tui::text::path_join;
use codex_tui::workflow_definition::jobs_are_unique;
use codex_tui::workflow_definition::ordered_jobs_for_roots;
use codex_tui::workflow_definition::workflow_dir;
use codex_tui::workflow_definition::pop_next_job;
use codex_tui::workflow_definition::LoadedWorkflowRegistry;
use codex_tui::workflow_definition::WorkflowContextStrategy;
use codex_tui::workflow_definition::WorkflowDefinitionError;
use codex_tui::workflow_definition::WorkflowDuration;
use codex_tui::workflow_definition::WorkflowExecutionStrategy;
use codex_tui::workflow_definition::WorkflowJobConfig;
use codex_tui::workflow_definition::WorkflowResponseMode;
use codex_tui::workflow_definition::WorkflowStep;
use codex_tui::workflow_definition::WorkflowTriggerKind;
use codex_tui::workflow_definition::WorkflowAfterTurnCondition;
use codex_tui::workflow_definition::TurnStatus;
use codex_tui::workflow_registry::build_workflow_registry;
use codex_tui::workflow_registry::ParsedWorkflowFile;
use codex_tui::workflow_registry::WorkflowFile;
use codex_tui::workflow_registry::WorkflowJobEntry;
use codex_tui::workflow_registry::WorkflowTriggerConfig;
use std::collections::VecDeque;

fn prompt(text: &str) -> WorkflowStep {
    WorkflowStep::Prompt { prompt: text.to_string(), retry: None, timeout: None }
}

fn job(name: &str, needs: &[&str], enabled: bool, context: WorkflowContextStrategy) -> WorkflowJobEntry {
    WorkflowJobEntry {
        name: name.to_string(),
        config: WorkflowJobConfig {
            enabled,
            needs: needs.iter().map(|n| n.to_string()).collect(),
            context_strategy: context,
            execution_strategy: WorkflowExecutionStrategy::InheritSession,
            response: WorkflowResponseMode::Assistant,
            steps: vec![prompt(&format!("do {name}"))],
        },
    }
}

fn trigger(id: Option<&str>, jobs: &[&str], kind: WorkflowTriggerKind) -> WorkflowTriggerConfig {
    WorkflowTriggerConfig {
        id: id.map(|i| i.to_string()),
        enabled: true,
        jobs: jobs.iter().map(|j| j.to_string()).collect(),
        kind,
    }
}

fn file(name: &str, triggers: Vec<WorkflowTriggerConfig>, jobs: Vec<WorkflowJobEntry>) -> ParsedWorkflowFile {
    ParsedWorkflowFile {
        path: format!("/repo/.codex/workflows/{name}.yaml"),
        file: WorkflowFile { name: name.to_string(), triggers, jobs },
    }
}

fn registry(files: Vec<ParsedWorkflowFile>) -> LoadedWorkflowRegistry {
    build_workflow_registry(files).expect("valid workflows")
}

fn strings(v: &[&str]) -> Vec<String> {
    v.iter().map(|s| s.to_string()).collect()
}

#[test]
fn workflow_step_timeout_uses_default_when_unset() {
    let step = WorkflowStep::Prompt {
        prompt: "summarize".to_string(),
        retry: None,
        timeout: None,
    };

    assert_eq!(
        step.timeout(WorkflowDuration { secs: 30, nanos: 0 }).unwrap(),
        WorkflowDuration { secs: 30, nanos: 0 }
    );
}

#[test]
fn step_timeout_parses_humantime_text() {
    let step = WorkflowStep::Run {
        run: "make".to_string(),
        retry: Some(2),
        timeout: Some("2m 5s".to_string()),
    };
    assert_eq!(
        step.timeout(WorkflowDuration { secs: 30, nanos: 0 }),
        Ok(WorkflowDuration { secs: 125, nanos: 0 })
    );
    assert_eq!(step.retry_attempts(), 2);
    assert_eq!(step.kind(), "run");
    let bad = WorkflowStep::Prompt {
        prompt: "x".to_string(),
        retry: None,
        timeout: Some("not-a-duration".to_string()),
    };
    let err = bad.timeout(WorkflowDuration { secs: 30, nanos: 0 }).unwrap_err();
    assert!(err.starts_with("invalid step timeout `not-a-duration`: "), "{err}");
    assert_eq!(bad.retry_attempts(), 1);
}

#[test]
fn registry_rejects_invalid_step_timeout_with_file_and_job() {
    let mut entry = job("notify", &[], true, WorkflowContextStrategy::ThreadAuto);
    entry.config.steps = vec![WorkflowStep::Prompt {
        prompt: "summarize the changes".to_string(),
        retry: None,
        timeout: Some("not-a-duration".to_string()),
    }];
    let err = build_workflow_registry(vec![file("director", Vec::new(), vec![entry])]).unwrap_err();
    let message = err.to_string();
    assert!(matches!(err, WorkflowDefinitionError::Invalid(_)));
    assert!(
        message.contains(
            "workflow `director` job `notify` in `/repo/.codex/workflows/director.yaml` has invalid prompt step timeout"
        ),
        "unexpected error message: {message}"
    );
    assert!(message.contains("invalid step timeout `not-a-duration`"), "{message}");
}

#[test]
fn registry_rejects_before_turn_embed_compact() {
    let err = build_workflow_registry(vec![file(
        "director",
        vec![trigger(Some("followup"), &["notify"], WorkflowTriggerKind::BeforeTurn)],
        vec![job("notify", &[], true, WorkflowContextStrategy::EmbedCompact)],
    )])
    .unwrap_err();
    let message = err.to_string();
    assert!(
        message.contains(
            "workflow `director` trigger `followup` cannot use job `notify` with `context_strategy: embed_compact`"
        ),
        "unexpected error message: {message}"
    );
    assert!(message.contains("before_turn workflows cannot compact the main thread inline"));
}

#[test]
fn registry_keeps_after_turn_condition_and_numbers_triggers() {
    let reg = registry(vec![file(
        " director ",
        vec![
            trigger(None, &["notify"], WorkflowTriggerKind::AfterTurn {
                condition: WorkflowAfterTurnCondition::TurnSucceeded,
            }),
            trigger(Some("manual"), &["notify"], WorkflowTriggerKind::Manual),
        ],
        vec![job("notify", &[], true, WorkflowContextStrategy::ThreadAuto)],
    )]);
    assert_eq!(reg.files[0].name, "director");
    assert_eq!(reg.files[0].triggers[0].id, "trigger-1");
    assert_eq!(reg.files[0].triggers[1].id, "manual");
    assert_eq!(
        reg.files[0].triggers[0].kind,
        WorkflowTriggerKind::AfterTurn { condition: WorkflowAfterTurnCondition::TurnSucceeded }
    );
    assert_eq!(reg.jobs[0].workflow_name, "director");
    assert!(WorkflowAfterTurnCondition::TurnSucceeded.matches_turn_status(&TurnStatus::Completed));
    assert!(!WorkflowAfterTurnCondition::TurnSucceeded.matches_turn_status(&TurnStatus::Failed));
    assert!(WorkflowAfterTurnCondition::TurnFinished.matches_turn_status(&TurnStatus::Failed));
    assert!(!WorkflowAfterTurnCondition::TurnFinished.matches_turn_status(&TurnStatus::Interrupted));
}

#[test]
fn registry_rejects_duplicate_jobs_and_missing_references() {
    let dup = build_workflow_registry(vec![
        file("a", Vec::new(), vec![job("shared", &[], true, WorkflowContextStrategy::ThreadNew)]),
        file("b", Vec::new(), vec![job("shared", &[], true, WorkflowContextStrategy::ThreadNew)]),
    ]);
    assert!(dup.is_err());
    let missing = build_workflow_registry(vec![file(
        "a",
        vec![trigger(Some("t"), &["ghost"], WorkflowTriggerKind::Manual)],
        vec![job("real", &[], true, WorkflowContextStrategy::ThreadNew)],
    )])
    .unwrap_err();
    assert_eq!(
        missing.to_string(),
        "workflow `a` trigger `t` in `/repo/.codex/workflows/a.yaml` references missing job `ghost`"
    );
}

fn diamond() -> LoadedWorkflowRegistry {
    registry(vec![file(
        "director",
        Vec::new(),
        vec![
            job("report", &["lint", "test"], true, WorkflowContextStrategy::ThreadAuto),
            job("test", &["build"], true, WorkflowContextStrategy::ThreadAuto),
            job("lint", &["build"], true, WorkflowContextStrategy::ThreadAuto),
            job("build", &[], true, WorkflowContextStrategy::ThreadAuto),
            job("unrelated", &[], true, WorkflowContextStrategy::ThreadAuto),
        ],
    )])
}

#[test]
fn ordered_jobs_put_needs_first_and_prefer_definition_order() {
    let reg = diamond();
    let order = ordered_jobs_for_roots(&reg, &strings(&["report"])).unwrap();
    assert_eq!(order, strings(&["build", "test", "lint", "report"]));
    let order = ordered_jobs_for_roots(&reg, &strings(&["lint", "unrelated"])).unwrap();
    assert_eq!(order, strings(&["build", "lint", "unrelated"]));
}

#[test]
fn ordered_jobs_reject_missing_roots_and_cycles() {
    let reg = diamond();
    let err = ordered_jobs_for_roots(&reg, &strings(&["nope"])).unwrap_err();
    assert_eq!(err.to_string(), "workflow execution root references missing job `nope`");
    let cyclic = LoadedWorkflowRegistry {
        files: Vec::new(),
        jobs: {
            let mut r = registry(vec![file(
                "c",
                Vec::new(),
                vec![
                    job("a", &[], true, WorkflowContextStrategy::ThreadAuto),
                    job("b", &[], true, WorkflowContextStrategy::ThreadAuto),
                ],
            )]);
            r.jobs[0].config.needs = strings(&["b"]);
            r.jobs[1].config.needs = strings(&["a"]);
            r.jobs
        },
    };
    let err = ordered_jobs_for_roots(&cyclic, &strings(&["a"])).unwrap_err();
    assert_eq!(err.to_string(), "workflow job selection contains a cyclic dependency graph");
}

#[test]
fn pop_next_job_takes_the_earliest_defined_ready_job() {
    let reg = diamond();
    let mut ready: VecDeque<String> = VecDeque::from(strings(&["unrelated", "ghost", "lint", "test"]));
    assert_eq!(pop_next_job(&mut ready, &reg), Some("test".to_string()));
    assert_eq!(ready, VecDeque::from(strings(&["unrelated", "ghost", "lint"])));
    let mut none: VecDeque<String> = VecDeque::from(strings(&["ghost"]));
    assert_eq!(pop_next_job(&mut none, &reg), None);
    assert_eq!(none.len(), 1);
}

#[test]
fn context_strategies_have_file_names() {
    assert_eq!(WorkflowContextStrategy::EmbedCompact.as_str(), "embed_compact");
    assert_eq!(WorkflowContextStrategy::ThreadForkCompact.as_str(), "thread_fork_compact");
    assert_eq!(WorkflowExecutionStrategy::OverrideYolo.as_str(), "override_yolo");
    assert!(codex_tui::workflow_definition::default_true());
}

#[test]
fn workflow_files_live_under_the_codex_directory() {
    assert_eq!(workflow_dir("/repo"), "/repo/.codex/workflows");
    assert_eq!(workflow_dir("/repo/"), "/repo/.codex/workflows");
    assert_eq!(workflow_dir(""), ".codex/workflows");
    assert_eq!(path_join("a/", "b"), "a/b");
    assert_eq!(path_join("a", "b"), "a/b");
}

#[test]
fn registry_jobs_are_unique_and_a_duplicate_is_seen() {
    let reg = registry(vec![file(
        "director",
        vec![trigger(None, &["plan"], WorkflowTriggerKind::Manual)],
        vec![
            job("plan", &[], true, WorkflowContextStrategy::ThreadNew),
            job("review", &["plan"], true, WorkflowContextStrategy::ThreadNew),
        ],
    )]);
    assert!(jobs_are_unique(&reg.jobs));
    let mut jobs = reg.jobs;
    jobs[1].name = "plan".to_string();
    assert!(!jobs_are_unique(&jobs));
    jobs[1].name = "review".to_string();
    jobs[1].definition_index = jobs[0].definition_index;
    assert!(!jobs_are_unique(&jobs));
}

#[test]
fn step_timeout_refuses_texts_too_large_for_a_duration() {
    use_duration_check();
}

fn use_duration_check() {
    let huge = WorkflowStep::Prompt {
        prompt: "x".to_string(),
        retry: None,
        timeout: Some("18446744073709551615s 1000ms".to_string()),
    };
    let err = huge.timeout(WorkflowDuration { secs: 30, nanos: 0 }).unwrap_err();
    assert_eq!(
        err,
        "invalid step timeout `18446744073709551615s 1000ms`: number is too large or cannot be represented without a lack of precision (values below 1ns are not supported)"
    );
    assert!(codex_tui::workflow_definition::duration_text_fits("2h 30m"));
    assert!(codex_tui::workflow_definition::duration_text_fits("1.5y"));
    assert!(codex_tui::workflow_definition::duration_text_fits("18446744073709551615s"));
    assert!(codex_tui::workflow_definition::duration_text_fits("600000000000s"));
    assert!(codex_tui::workflow_definition::duration_text_fits("5 x 99999999999999999999y"));
    assert!(!codex_tui::workflow_definition::duration_text_fits("600000000000y"));
    assert!(!codex_tui::workflow_definition::duration_text_fits("1h 18446744073709551615s"));
    assert!(!codex_tui::workflow_definition::duration_text_fits("99999999999999999999999ns"));
}

#[test]
fn step_timeout_takes_large_texts_that_fit_a_duration() {
    let long = WorkflowStep::Run {
        run: "make".to_string(),
        retry: None,
        timeout: Some("600000000000s".to_string()),
    };
    assert_eq!(
        long.timeout(WorkflowDuration { secs: 30, nanos: 0 }).unwrap(),
        WorkflowDuration { secs: 600_000_000_000, nanos: 0 }
    );
    let most = WorkflowStep::Run {
        run: "make".to_string(),
        retry: None,
        timeout: Some("18446744073709551615s".to_string()),
    };
    assert_eq!(
        most.timeout(WorkflowDuration { secs: 30, nanos: 0 }).unwrap(),
        WorkflowDuration { secs: u64::MAX, nanos: 0 }
    );
    let years = WorkflowStep::Run {
        run: "make".to_string(),
        retry: None,
        timeout: Some("600000000000y".to_string()),
    };
    assert_eq!(
        years.timeout(WorkflowDuration { secs: 30, nanos: 0 }).unwrap_err(),
        "invalid step timeout `600000000000y`: number is too large or cannot be represented without a lack of precision (values below 1ns are not supported)"
    );
}

#[test]
fn workflow_file_names_keep_yaml_files_sorted() {
    let names = vec![
        "b.yaml".to_string(),
        "notes.txt".to_string(),
        ".yaml".to_string(),
        "a.yaml".to_string(),
        "c.yml".to_string(),
        "x.y.yaml".to_string(),
    ];
    assert_eq!(
        codex_tui::workflow_registry::workflow_file_names(names),
        vec!["a.yaml".to_string(), "b.yaml".to_string(), "x.y.yaml".to_string()]
    );
}

#[test]
fn registry_rejects_a_job_needing_an_undefined_job() {
    let err = build_workflow_registry(vec![file(
        "director",
        Vec::new(),
        vec![job("review", &["plan"], true, WorkflowContextStrategy::ThreadNew)],
    )])
    .unwrap_err();
    assert_eq!(
        err.to_string(),
        "workflow `director` job `review` references missing dependency `plan`"
    );
}

#[test]
fn registry_rejects_a_job_key_used_twice() {
    let err = build_workflow_registry(vec![
        file("director", Vec::new(), vec![job("plan", &[], true, WorkflowContextStrategy::ThreadNew)]),
        file("editor", Vec::new(), vec![job(" plan ", &[], true, WorkflowContextStrategy::ThreadNew)]),
    ])
    .unwrap_err();
    assert_eq!(
        err.to_string(),
        "duplicate job name `plan` detected while loading `/repo/.codex/workflows/editor.yaml`"
    );
}

#[test]
fn before_turn_check_names_the_first_compacting_job_in_run_order() {
    let err = build_workflow_registry(vec![file(
        "director",
        vec![trigger(Some("followup"), &["z-last"], WorkflowTriggerKind::BeforeTurn)],
        vec![
            job("z-last", &["b-first"], true, WorkflowContextStrategy::EmbedCompact),
            job("b-first", &[], true, WorkflowContextStrategy::EmbedCompact),
        ],
    )])
    .unwrap_err();
    assert_eq!(
        err.to_string(),
        "workflow `director` trigger `followup` cannot use job `b-first` with `context_strategy: embed_compact` because before_turn workflows cannot compact the main thread inline"
    );
    let cyclic = build_workflow_registry(vec![file(
        "director",
        vec![trigger(Some("followup"), &["a"], WorkflowTriggerKind::BeforeTurn)],
        vec![
            job("a", &["b"], true, WorkflowContextStrategy::EmbedCompact),
            job("b", &["a"], true, WorkflowContextStrategy::EmbedCompact),
        ],
    )])
    .unwrap_err();
    assert_eq!(cyclic.to_string(), "workflow job selection contains a cyclic dependency graph");
}

#[test]
fn registry_reports_the_first_file_that_is_invalid_on_its_own() {
    let mut stepless = job("x", &[], true, WorkflowContextStrategy::ThreadNew);
    stepless.config.steps = Vec::new();
    let err = build_workflow_registry(vec![
        file("a", Vec::new(), vec![stepless]),
        file("", Vec::new(), vec![job("y", &[], true, WorkflowContextStrategy::ThreadNew)]),
    ])
    .unwrap_err();
    assert_eq!(
        err.to_string(),
        "workflow `a` job `x` in `/repo/.codex/workflows/a.yaml` must define at least one step"
    );
    let err = build_workflow_registry(vec![file(
        "director",
        vec![trigger(Some("followup"), &["notify"], WorkflowTriggerKind::BeforeTurn)],
        vec![job("notify", &["gone"], true, WorkflowContextStrategy::EmbedCompact)],
    )])
    .unwrap_err();
    assert_eq!(err.to_string(), "workflow `director` job `notify` references missing dependency `gone`");
}
