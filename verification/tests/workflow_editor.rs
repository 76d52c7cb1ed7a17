use codex_tui::app_event::WorkflowJobEditableField;
use codex_tui::workflow_definition::WorkflowResponseMode;
use codex_tui::workflow_editor::cycle_job_context;
use codex_tui::workflow_editor::cycle_job_response;
use codex_tui::workflow_editor::job_field_seed;
use codex_tui::workflow_editor::toggle_job_enabled;
use codex_tui::workflow_editor::write_job_field;
use codex_tui::workflow_editor::WorkflowContextMode;

const PATH: &str = "/w/.codex/workflows/workflow.yaml";

fn workflow_text() -> String {
    r#"name: director

triggers:
  - type: manual
    id: review
    jobs: [notify]

jobs:
  notify:
    response: assistant
    steps:
      - prompt: |
          send an update
"#
    .to_string()
}

#[test]
fn toggle_job_enabled_writes_explicit_bool() {
    let (disabled, enabled) = toggle_job_enabled(&workflow_text(), PATH, "notify").unwrap();
    assert!(!enabled);
    assert!(disabled.contains("enabled: false"));
    let (enabled_text, enabled_again) = toggle_job_enabled(&disabled, PATH, "notify").unwrap();
    assert!(enabled_again);
    assert!(enabled_text.contains("enabled: true"));
    assert!(enabled_text.contains("name: director"));
    assert!(enabled_text.contains("send an update"));
}

#[test]
fn cycle_job_context_and_response_round_trip() {
    let (text, context) = cycle_job_context(&workflow_text(), PATH, "notify").unwrap();
    assert_eq!(context, WorkflowContextMode::Embed);
    assert!(text.contains("context: embed"));
    let (text, response) = cycle_job_response(&text, PATH, "notify").unwrap();
    assert_eq!(response, WorkflowResponseMode::User);
    assert!(text.contains("response: user"));
    let (_, back) = cycle_job_context(&text, PATH, "notify").unwrap();
    assert_eq!(back, WorkflowContextMode::Ephemeral);
}

#[test]
fn edit_needs_and_steps_fields_round_trip() {
    let text = write_job_field(&workflow_text(), PATH, "notify", WorkflowJobEditableField::Needs, "- prepare\n- publish\n").unwrap();
    let text = write_job_field(
        &text,
        PATH,
        "notify",
        WorkflowJobEditableField::Steps,
        "- prompt: |\n    summarize the changes\n- run: cargo test -p codex-tui\n",
    )
    .unwrap();
    assert_eq!(job_field_seed(&text, PATH, "notify", WorkflowJobEditableField::Needs).unwrap(), "- prepare\n- publish");
    let steps = job_field_seed(&text, PATH, "notify", WorkflowJobEditableField::Steps).unwrap();
    assert!(steps.contains("summarize the changes"));
    assert!(steps.contains("cargo test -p codex-tui"));
}

#[test]
fn editor_errors_name_what_is_missing() {
    assert_eq!(
        toggle_job_enabled("- a\n- b\n", PATH, "notify").unwrap_err(),
        "workflow file root must be a YAML mapping"
    );
    assert_eq!(
        toggle_job_enabled("name: x\n", PATH, "notify").unwrap_err(),
        "workflow file does not define a `jobs` mapping"
    );
    assert_eq!(
        cycle_job_response(&workflow_text(), PATH, "missing").unwrap_err(),
        "workflow job `missing` does not exist"
    );
    let err = toggle_job_enabled("jobs: [unclosed", PATH, "notify").unwrap_err();
    assert!(err.starts_with("failed to parse workflow file `/w/.codex/workflows/workflow.yaml`: "), "{err}");
    assert!(write_job_field(&workflow_text(), PATH, "notify", WorkflowJobEditableField::Needs, "key: value").is_err());
}

#[test]
fn blank_field_text_writes_an_empty_list_and_missing_needs_seed_empty() {
    assert_eq!(job_field_seed(&workflow_text(), PATH, "notify", WorkflowJobEditableField::Needs).unwrap(), "[]");
    let text = write_job_field(&workflow_text(), PATH, "notify", WorkflowJobEditableField::Needs, "   ").unwrap();
    assert_eq!(job_field_seed(&text, PATH, "notify", WorkflowJobEditableField::Needs).unwrap(), "[]");
    let (_, enabled) = toggle_job_enabled("jobs:\n  a:\n    enabled: nope\n", PATH, "a").unwrap();
    assert!(!enabled);
}
