use codex_tui::app::App;
use codex_tui::app_event::AppEvent;
use codex_tui::app_event::WorkflowControlsDestination;
use codex_tui::app_event::WorkflowJobEditableField;
use codex_tui::history::HistoryNotice;
use codex_tui::selection::PopupHint;
use codex_tui::thread_menu::jump_to_message_panel_params;
use codex_tui::thread_menu::thread_panel_params;
use codex_tui::thread_menu::JumpTarget;
use codex_tui::workflow_controls::workflow_back_item;
use codex_tui::workflow_controls::workflow_controls_actions;
use codex_tui::workflow_controls::workflow_controls_selection_item;
use codex_tui::workflow_controls::workflow_error_popup_params;
use codex_tui::workflow_controls::workflow_menu_popup_params;
use codex_tui::workflow_controls::WorkflowControlsAction;
use codex_tui::workflow_controls::WorkflowControlsItem;
use codex_tui::workflow_controls::WorkflowControlsMenu;

#[test]
fn thread_panel_disables_mutations_while_task_running() {
    let params = thread_panel_params(true, None);

    assert_eq!(params.items[0].is_disabled, true);
    assert_eq!(params.items[1].is_disabled, false);
    assert_eq!(params.items[2].is_disabled, true);
}

#[test]
fn thread_panel_items_and_events() {
    let params = thread_panel_params(false, Some(1));
    assert_eq!(params.view_id.as_deref(), Some("thread-actions"));
    assert_eq!(params.title.as_deref(), Some("Thread"));
    assert_eq!(params.footer_hint, Some(PopupHint::Standard));
    assert_eq!(params.initial_selected_idx, Some(1));
    assert_eq!(params.items.len(), 3);
    assert_eq!(params.items[0].name, "Fork Current Session");
    assert_eq!(params.items[0].actions, vec![AppEvent::ForkCurrentSession]);
    assert_eq!(params.items[0].disabled_reason, None);
    assert_eq!(params.items[1].actions, vec![AppEvent::OpenJumpToMessagePanel]);
    assert!(!params.items[1].dismiss_on_select);
    assert_eq!(params.items[2].actions, vec![AppEvent::UndoLastUserMessage]);
    let running = thread_panel_params(true, None);
    assert_eq!(
        running.items[2].disabled_reason.as_deref(),
        Some("Wait for the current task to finish before undoing a turn.")
    );
}

#[test]
fn jump_panel_counts_targets() {
    let empty = jump_to_message_panel_params(Vec::new(), None);
    assert_eq!(
        empty.subtitle.as_deref(),
        Some("No committed transcript entries are available yet.")
    );
    assert_eq!(empty.items.len(), 1);
    assert_eq!(empty.items[0].name, "Nothing to jump to yet");
    assert!(empty.items[0].is_disabled);

    let one = jump_to_message_panel_params(
        vec![JumpTarget {
            cell_index: 4,
            title: "You".to_string(),
            preview: "How do I keep the retry chain intact?".to_string(),
            search_value: "you how do i keep".to_string(),
        }],
        Some(0),
    );
    assert_eq!(one.subtitle.as_deref(), Some("1 committed transcript entry is available."));
    assert_eq!(one.items[0].actions, vec![AppEvent::JumpToTranscriptCell { cell_index: 4 }]);
    assert_eq!(one.items[0].search_value.as_deref(), Some("you how do i keep"));
    assert!(one.items[0].dismiss_on_select);

    let two = jump_to_message_panel_params(
        vec![
            JumpTarget {
                cell_index: 0,
                title: "a".to_string(),
                preview: "p".to_string(),
                search_value: "s".to_string(),
            },
            JumpTarget {
                cell_index: 1,
                title: "b".to_string(),
                preview: "q".to_string(),
                search_value: "t".to_string(),
            },
        ],
        None,
    );
    assert_eq!(two.subtitle.as_deref(), Some("2 committed transcript entries are available."));
    assert_eq!(two.items[1].name, "b");
    assert!(two.is_searchable);
}

fn item(name: &str, action: Option<WorkflowControlsAction>) -> WorkflowControlsItem {
    WorkflowControlsItem {
        name: name.to_string(),
        description: Some(format!("{name} description")),
        selected_description: None,
        is_disabled: false,
        search_value: Some(name.to_lowercase()),
        action,
    }
}

#[test]
fn workflow_menu_items_send_their_actions() {
    let menu = WorkflowControlsMenu {
        title: "Workflows".to_string(),
        subtitle: "director".to_string(),
        search_placeholder: "Type to search".to_string(),
        items: vec![
            item("Run Now", Some(WorkflowControlsAction::StartManualWorkflowJob {
                workflow_name: "director".to_string(),
                job_name: "notify".to_string(),
            })),
            item("Steps", Some(WorkflowControlsAction::EditWorkflowJobField {
                workflow_path: "/w/manual.yaml".to_string(),
                job_name: "notify".to_string(),
                field: WorkflowJobEditableField::Steps,
            })),
            item("Note", None),
        ],
    };
    let params = workflow_menu_popup_params(menu, Some(0));
    assert_eq!(params.view_id.as_deref(), Some("workflow-controls"));
    assert_eq!(params.title.as_deref(), Some("Workflows"));
    assert_eq!(params.search_placeholder.as_deref(), Some("Type to search"));
    assert_eq!(params.items.len(), 3);
    assert_eq!(
        params.items[0].actions,
        vec![AppEvent::StartManualWorkflowJob {
            workflow_name: "director".to_string(),
            job_name: "notify".to_string(),
        }]
    );
    assert_eq!(
        params.items[1].actions,
        vec![AppEvent::EditWorkflowJobField {
            workflow_path: "/w/manual.yaml".to_string(),
            job_name: "notify".to_string(),
            field: WorkflowJobEditableField::Steps,
        }]
    );
    assert!(params.items[2].actions.is_empty());
    assert!(!params.items[0].dismiss_on_select);
    assert_eq!(params.items[1].search_value.as_deref(), Some("steps"));
}

#[test]
fn workflow_controls_actions_map_each_action_to_its_event() {
    assert_eq!(workflow_controls_actions(None), Vec::new());
    assert_eq!(
        workflow_controls_actions(Some(WorkflowControlsAction::ShowBackgroundTasks)),
        vec![AppEvent::ShowWorkflowBackgroundTasks]
    );
    assert_eq!(
        workflow_controls_actions(Some(WorkflowControlsAction::OpenDestination(
            WorkflowControlsDestination::Jobs { workflow_path: "/w.yaml".to_string() }
        ))),
        vec![AppEvent::OpenWorkflowControlView {
            destination: WorkflowControlsDestination::Jobs { workflow_path: "/w.yaml".to_string() }
        }]
    );
    let selected = workflow_controls_selection_item(item("Create", Some(WorkflowControlsAction::CreateDefaultWorkflowTemplate)));
    assert_eq!(selected.actions, vec![AppEvent::CreateDefaultWorkflowTemplate]);
    assert_eq!(selected.name, "Create");
}

#[test]
fn workflow_error_popup_shows_back_and_error() {
    let params = workflow_error_popup_params(
        "Workflow Jobs",
        "Failed to load workflow jobs.",
        "bad yaml".to_string(),
        workflow_back_item(WorkflowControlsDestination::Root),
        None,
    );
    assert_eq!(params.items.len(), 2);
    assert_eq!(params.items[0].name, "Back");
    assert_eq!(
        params.items[0].actions,
        vec![AppEvent::OpenWorkflowControlView { destination: WorkflowControlsDestination::Root }]
    );
    assert_eq!(params.items[1].name, "Workflow Error");
    assert_eq!(params.items[1].description.as_deref(), Some("bad yaml"));
    assert!(params.items[1].is_disabled);
    assert_eq!(params.search_placeholder.as_deref(), Some("Type to search workflow actions"));
}

#[test]
fn workflow_popups_report_load_errors_with_their_titles() {
    let app = App::new(None);
    let params = app.workflow_job_popup_params(Err("missing job".to_string()), Some(0));
    assert_eq!(params.title.as_deref(), Some("Workflow Job"));
    assert_eq!(params.subtitle.as_deref(), Some("Failed to load workflow job."));
    assert_eq!(params.items[1].description.as_deref(), Some("missing job"));
    let params = app.workflow_trigger_type_popup_params(Err("x".to_string()), None);
    assert_eq!(params.subtitle.as_deref(), Some("Failed to load workflow trigger type picker."));
    let params = app.workflow_file_popup_params(
        Ok(WorkflowControlsMenu {
            title: "Workflow".to_string(),
            subtitle: "manual.yaml".to_string(),
            search_placeholder: "Search".to_string(),
            items: Vec::new(),
        }),
        Some(0),
    );
    assert_eq!(params.subtitle.as_deref(), Some("manual.yaml"));
}

#[test]
fn toggling_a_job_reports_and_reopens_it() {
    let app = App::new(None);
    let update = app.toggle_workflow_job_enabled_from_ui(
        "/w.yaml".to_string(),
        "notify".to_string(),
        Ok(false),
    );
    assert_eq!(
        update.notice,
        HistoryNotice::Info { message: "Disabled workflow job `notify`.".to_string(), hint: None }
    );
    assert_eq!(
        update.reopen,
        Some(WorkflowControlsDestination::Job {
            workflow_path: "/w.yaml".to_string(),
            job_name: "notify".to_string()
        })
    );
    let failed = app.toggle_workflow_trigger_enabled_from_ui(
        "/w.yaml".to_string(),
        "t".to_string(),
        Err("no such trigger".to_string()),
    );
    assert_eq!(failed.notice, HistoryNotice::Error { message: "no such trigger".to_string() });
    assert_eq!(failed.reopen, None);
}

#[test]
fn cycling_a_job_mode_reports_the_new_mode_and_reopens_the_job() {
    let app = App::new(None);
    let update = app.cycle_workflow_job_context_from_ui(
        "/w.yaml".to_string(),
        "notify".to_string(),
        Ok("embedded".to_string()),
    );
    assert_eq!(
        update.notice,
        HistoryNotice::Info { message: "Workflow job `notify` now uses embedded context.".to_string(), hint: None }
    );
    assert_eq!(
        update.reopen,
        Some(WorkflowControlsDestination::Job { workflow_path: "/w.yaml".to_string(), job_name: "notify".to_string() })
    );
    let update = app.cycle_workflow_job_response_from_ui(
        "/w.yaml".to_string(),
        "notify".to_string(),
        Ok("user".to_string()),
    );
    assert_eq!(
        update.notice,
        HistoryNotice::Info { message: "Workflow job `notify` now delivers a user response.".to_string(), hint: None }
    );
    let failed = app.cycle_workflow_job_response_from_ui("/w.yaml".to_string(), "notify".to_string(), Err("boom".to_string()));
    assert_eq!(failed.notice, HistoryNotice::Error { message: "boom".to_string() });
    assert_eq!(failed.reopen, None);
}

#[test]
fn switching_a_trigger_type_reopens_it_under_its_new_id() {
    let app = App::new(None);
    let update = app.set_workflow_trigger_type_from_ui(
        "/w.yaml".to_string(),
        "before turn".to_string(),
        Ok("followup".to_string()),
    );
    assert_eq!(
        update.notice,
        HistoryNotice::Info { message: "Workflow trigger `followup` now uses before turn.".to_string(), hint: None }
    );
    assert_eq!(
        update.reopen,
        Some(WorkflowControlsDestination::ManualTrigger {
            workflow_path: "/w.yaml".to_string(),
            trigger_id: "followup".to_string()
        })
    );
}
