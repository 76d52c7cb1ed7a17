//! The workflow controls popups: menus of workflow files, jobs and triggers,
//! and the events their items send.
use vstd::prelude::*;
use vstd::string::*;
use crate::app_event::{
    AppEvent, WorkflowControlsDestination, WorkflowJobEditableField, WorkflowTriggerEditableField,
    WorkflowTriggerType,
};
use crate::selection::{
    PopupHint, SelectionItem, SelectionItemView, SelectionViewParams, SelectionViewParamsView,
    item_views, lemma_item_views_push, single_action,
};
use crate::text::opt_view;
use crate::app::App;
use crate::history::{HistoryNotice, is_info, is_error};
use crate::text::concat3;

verus! {

/// What choosing a workflow controls item does.
#[derive(Debug, PartialEq, Eq)]
pub enum WorkflowControlsAction {
    ShowBackgroundTasks,
    CreateDefaultWorkflowTemplate,
    EditWorkflowFile { workflow_path: String, reopen: WorkflowControlsDestination },
    OpenDestination(WorkflowControlsDestination),
    StartManualWorkflowTrigger { workflow_name: String, trigger_id: String },
    StartManualWorkflowJob { workflow_name: String, job_name: String },
    ToggleWorkflowTriggerEnabled { workflow_path: String, trigger_id: String },
    ToggleWorkflowJobEnabled { workflow_path: String, job_name: String },
    SetWorkflowTriggerType { workflow_path: String, trigger_id: String, trigger_type: WorkflowTriggerType },
    CycleWorkflowJobContext { workflow_path: String, job_name: String },
    CycleWorkflowJobResponse { workflow_path: String, job_name: String },
    EditWorkflowJobField { workflow_path: String, job_name: String, field: WorkflowJobEditableField },
    EditWorkflowTriggerField { workflow_path: String, trigger_id: String, field: WorkflowTriggerEditableField },
}

/// One entry of a workflow controls menu.
#[derive(Debug, PartialEq, Eq)]
pub struct WorkflowControlsItem {
    pub name: String,
    pub description: Option<String>,
    pub selected_description: Option<String>,
    pub is_disabled: bool,
    pub search_value: Option<String>,
    pub action: Option<WorkflowControlsAction>,
}

/// A workflow controls menu.
#[derive(Debug, PartialEq, Eq)]
pub struct WorkflowControlsMenu {
    pub title: String,
    pub subtitle: String,
    pub search_placeholder: String,
    pub items: Vec<WorkflowControlsItem>,
}

/// The event an action sends.
pub open spec fn action_event(a: WorkflowControlsAction) -> AppEvent {
    match a {
        WorkflowControlsAction::ShowBackgroundTasks => AppEvent::ShowWorkflowBackgroundTasks,
        WorkflowControlsAction::CreateDefaultWorkflowTemplate => AppEvent::CreateDefaultWorkflowTemplate,
        WorkflowControlsAction::EditWorkflowFile { workflow_path, reopen } => AppEvent::EditWorkflowFile { workflow_path, reopen },
        WorkflowControlsAction::OpenDestination(destination) => AppEvent::OpenWorkflowControlView { destination },
        WorkflowControlsAction::StartManualWorkflowTrigger { workflow_name, trigger_id } =>
            AppEvent::StartManualWorkflowTrigger { workflow_name, trigger_id },
        WorkflowControlsAction::StartManualWorkflowJob { workflow_name, job_name } =>
            AppEvent::StartManualWorkflowJob { workflow_name, job_name },
        WorkflowControlsAction::ToggleWorkflowTriggerEnabled { workflow_path, trigger_id } =>
            AppEvent::ToggleWorkflowTriggerEnabled { workflow_path, trigger_id },
        WorkflowControlsAction::ToggleWorkflowJobEnabled { workflow_path, job_name } =>
            AppEvent::ToggleWorkflowJobEnabled { workflow_path, job_name },
        WorkflowControlsAction::SetWorkflowTriggerType { workflow_path, trigger_id, trigger_type } =>
            AppEvent::SetWorkflowTriggerType { workflow_path, trigger_id, trigger_type },
        WorkflowControlsAction::CycleWorkflowJobContext { workflow_path, job_name } =>
            AppEvent::CycleWorkflowJobContext { workflow_path, job_name },
        WorkflowControlsAction::CycleWorkflowJobResponse { workflow_path, job_name } =>
            AppEvent::CycleWorkflowJobResponse { workflow_path, job_name },
        WorkflowControlsAction::EditWorkflowJobField { workflow_path, job_name, field } =>
            AppEvent::EditWorkflowJobField { workflow_path, job_name, field },
        WorkflowControlsAction::EditWorkflowTriggerField { workflow_path, trigger_id, field } =>
            AppEvent::EditWorkflowTriggerField { workflow_path, trigger_id, field },
    }
}

/// The events an item sends: its action's event, or none.
pub open spec fn actions_spec(action: Option<WorkflowControlsAction>) -> Seq<AppEvent> {
    match action {
        Some(a) => seq![action_event(a)],
        None => seq![],
    }
}

/// Each action sends exactly one event: the event of the same name, with
/// the action's fields; an item without an action sends none.
pub proof fn lemma_action_sends_its_event(action: Option<WorkflowControlsAction>)
    ensures
        action is None ==> actions_spec(action) == Seq::<AppEvent>::empty(),
        action is Some ==> actions_spec(action).len() == 1,
        action matches Some(WorkflowControlsAction::ShowBackgroundTasks) ==> actions_spec(action)[0]
            == AppEvent::ShowWorkflowBackgroundTasks,
        action matches Some(WorkflowControlsAction::CreateDefaultWorkflowTemplate) ==> actions_spec(action)[0]
            == AppEvent::CreateDefaultWorkflowTemplate,
        action matches Some(WorkflowControlsAction::EditWorkflowFile { workflow_path, reopen })
            ==> actions_spec(action)[0] == (AppEvent::EditWorkflowFile { workflow_path, reopen }),
        action matches Some(WorkflowControlsAction::OpenDestination(destination))
            ==> actions_spec(action)[0] == (AppEvent::OpenWorkflowControlView { destination }),
        action matches Some(WorkflowControlsAction::StartManualWorkflowTrigger { workflow_name, trigger_id })
            ==> actions_spec(action)[0] == (AppEvent::StartManualWorkflowTrigger { workflow_name, trigger_id }),
        action matches Some(WorkflowControlsAction::StartManualWorkflowJob { workflow_name, job_name })
            ==> actions_spec(action)[0] == (AppEvent::StartManualWorkflowJob { workflow_name, job_name }),
        action matches Some(WorkflowControlsAction::ToggleWorkflowTriggerEnabled { workflow_path, trigger_id })
            ==> actions_spec(action)[0] == (AppEvent::ToggleWorkflowTriggerEnabled { workflow_path, trigger_id }),
        action matches Some(WorkflowControlsAction::ToggleWorkflowJobEnabled { workflow_path, job_name })
            ==> actions_spec(action)[0] == (AppEvent::ToggleWorkflowJobEnabled { workflow_path, job_name }),
        action matches Some(WorkflowControlsAction::SetWorkflowTriggerType { workflow_path, trigger_id, trigger_type })
            ==> actions_spec(action)[0] == (AppEvent::SetWorkflowTriggerType { workflow_path, trigger_id, trigger_type }),
        action matches Some(WorkflowControlsAction::CycleWorkflowJobContext { workflow_path, job_name })
            ==> actions_spec(action)[0] == (AppEvent::CycleWorkflowJobContext { workflow_path, job_name }),
        action matches Some(WorkflowControlsAction::CycleWorkflowJobResponse { workflow_path, job_name })
            ==> actions_spec(action)[0] == (AppEvent::CycleWorkflowJobResponse { workflow_path, job_name }),
        action matches Some(WorkflowControlsAction::EditWorkflowJobField { workflow_path, job_name, field })
            ==> actions_spec(action)[0] == (AppEvent::EditWorkflowJobField { workflow_path, job_name, field }),
        action matches Some(WorkflowControlsAction::EditWorkflowTriggerField { workflow_path, trigger_id, field })
            ==> actions_spec(action)[0] == (AppEvent::EditWorkflowTriggerField { workflow_path, trigger_id, field }),
{
}

/// The events an item with `action` sends.
pub fn workflow_controls_actions(action: Option<WorkflowControlsAction>) -> (r: Vec<AppEvent>)
    ensures
        r@ == actions_spec(action),
{
    match action {
        Some(a) => {
            let e = match a {
                WorkflowControlsAction::ShowBackgroundTasks => AppEvent::ShowWorkflowBackgroundTasks,
                WorkflowControlsAction::CreateDefaultWorkflowTemplate => AppEvent::CreateDefaultWorkflowTemplate,
                WorkflowControlsAction::EditWorkflowFile { workflow_path, reopen } => AppEvent::EditWorkflowFile {
                    workflow_path,
                    reopen,
                },
                WorkflowControlsAction::OpenDestination(destination) => AppEvent::OpenWorkflowControlView { destination },
                WorkflowControlsAction::StartManualWorkflowTrigger { workflow_name, trigger_id } =>
                    AppEvent::StartManualWorkflowTrigger { workflow_name, trigger_id },
                WorkflowControlsAction::StartManualWorkflowJob { workflow_name, job_name } =>
                    AppEvent::StartManualWorkflowJob { workflow_name, job_name },
                WorkflowControlsAction::ToggleWorkflowTriggerEnabled { workflow_path, trigger_id } =>
                    AppEvent::ToggleWorkflowTriggerEnabled { workflow_path, trigger_id },
                WorkflowControlsAction::ToggleWorkflowJobEnabled { workflow_path, job_name } =>
                    AppEvent::ToggleWorkflowJobEnabled { workflow_path, job_name },
                WorkflowControlsAction::SetWorkflowTriggerType { workflow_path, trigger_id, trigger_type } =>
                    AppEvent::SetWorkflowTriggerType { workflow_path, trigger_id, trigger_type },
                WorkflowControlsAction::CycleWorkflowJobContext { workflow_path, job_name } =>
                    AppEvent::CycleWorkflowJobContext { workflow_path, job_name },
                WorkflowControlsAction::CycleWorkflowJobResponse { workflow_path, job_name } =>
                    AppEvent::CycleWorkflowJobResponse { workflow_path, job_name },
                WorkflowControlsAction::EditWorkflowJobField { workflow_path, job_name, field } =>
                    AppEvent::EditWorkflowJobField { workflow_path, job_name, field },
                WorkflowControlsAction::EditWorkflowTriggerField { workflow_path, trigger_id, field } =>
                    AppEvent::EditWorkflowTriggerField { workflow_path, trigger_id, field },
            };
            single_action(e)
        },
        None => {
            let v: Vec<AppEvent> = Vec::new();
            assert(v@ =~= Seq::<AppEvent>::empty());
            v
        },
    }
}

/// The selection item of a menu entry.
pub open spec fn controls_item_view(item: WorkflowControlsItem) -> SelectionItemView {
    SelectionItemView {
        name: item.name@,
        description: opt_view(item.description),
        selected_description: opt_view(item.selected_description),
        is_current: false,
        is_disabled: item.is_disabled,
        disabled_reason: None,
        actions: actions_spec(item.action),
        dismiss_on_select: false,
        search_value: opt_view(item.search_value),
    }
}

/// The selection item of a menu entry; it keeps the popup open when chosen.
pub fn workflow_controls_selection_item(item: WorkflowControlsItem) -> (r: SelectionItem)
    ensures
        r@ == controls_item_view(item),
{
    SelectionItem {
        name: item.name,
        description: item.description,
        selected_description: item.selected_description,
        is_current: false,
        is_disabled: item.is_disabled,
        disabled_reason: None,
        actions: workflow_controls_actions(item.action),
        dismiss_on_select: false,
        search_value: item.search_value,
    }
}

/// A workflow controls popup showing `menu`.
pub fn workflow_menu_popup_params(menu: WorkflowControlsMenu, initial_selected_idx: Option<usize>) -> (r:
    SelectionViewParams)
    ensures
        r@ == (SelectionViewParamsView {
            view_id: Some("workflow-controls"@),
            title: Some(menu.title@),
            subtitle: Some(menu.subtitle@),
            footer_hint: Some(PopupHint::Standard),
            items: menu.items@.map_values(|i: WorkflowControlsItem| controls_item_view(i)),
            is_searchable: true,
            search_placeholder: Some(menu.search_placeholder@),
            initial_selected_idx,
            on_cancel: None,
        }),
{
    let ghost entries = menu.items@;
    let WorkflowControlsMenu { title, subtitle, search_placeholder, items: mut rest } = menu;
    let mut items: Vec<SelectionItem> = Vec::new();
    let mut taken: usize = 0;
    let total = rest.len();
    assert(entries.subrange(0, entries.len() as int) =~= entries);
    while rest.len() > 0
        invariant
            taken + rest@.len() == entries.len(),
            entries.len() == total,
            rest@ == entries.subrange(taken as int, entries.len() as int),
            item_views(items@) == entries.take(taken as int).map_values(|i: WorkflowControlsItem| controls_item_view(i)),
        decreases rest@.len(),
    {
        assert(taken < entries.len());
        let entry = rest.remove(0);
        assert(entry == entries[taken as int]);
        assert(rest@ =~= entries.subrange(taken + 1, entries.len() as int));
        let item = workflow_controls_selection_item(entry);
        proof {
            lemma_item_views_push(items@, item);
            assert(entries.take(taken + 1).map_values(|i: WorkflowControlsItem| controls_item_view(i))
                =~= entries.take(taken as int).map_values(|i: WorkflowControlsItem| controls_item_view(i)).push(controls_item_view(entries[taken as int])));
        }
        items.push(item);
        taken = taken + 1;
    }
    assert(entries.take(taken as int) =~= entries);
    SelectionViewParams {
        view_id: Some(String::from_str("workflow-controls")),
        title: Some(title),
        subtitle: Some(subtitle),
        footer_hint: Some(PopupHint::Standard),
        items,
        is_searchable: true,
        search_placeholder: Some(search_placeholder),
        initial_selected_idx,
        on_cancel: None,
    }
}

/// The item that returns to `destination`.
pub fn workflow_back_item(destination: WorkflowControlsDestination) -> (r: SelectionItem)
    ensures
        r@ == (SelectionItemView {
            name: "Back"@,
            description: Some("Return to the previous workflow menu."@),
            selected_description: Some("Return to the previous workflow menu."@),
            is_current: false,
            is_disabled: false,
            disabled_reason: None,
            actions: seq![AppEvent::OpenWorkflowControlView { destination }],
            dismiss_on_select: false,
            search_value: None,
        }),
{
    SelectionItem {
        name: String::from_str("Back"),
        description: Some(String::from_str("Return to the previous workflow menu.")),
        selected_description: Some(String::from_str("Return to the previous workflow menu.")),
        is_current: false,
        is_disabled: false,
        disabled_reason: None,
        actions: single_action(AppEvent::OpenWorkflowControlView { destination }),
        dismiss_on_select: false,
        search_value: None,
    }
}

/// The disabled item that shows a workflow error.
pub open spec fn error_item_view(err: Seq<char>) -> SelectionItemView {
    SelectionItemView {
        name: "Workflow Error"@,
        description: Some(err),
        selected_description: Some("Fix the workflow YAML, then reopen this menu."@),
        is_current: false,
        is_disabled: true,
        disabled_reason: None,
        actions: seq![],
        dismiss_on_select: false,
        search_value: None,
    }
}

/// A workflow controls popup that reports `err` under a way back.
pub fn workflow_error_popup_params(
    title: &str,
    subtitle: &str,
    err: String,
    back_item: SelectionItem,
    initial_selected_idx: Option<usize>,
) -> (r: SelectionViewParams)
    ensures
        r@ == (SelectionViewParamsView {
            view_id: Some("workflow-controls"@),
            title: Some(title@),
            subtitle: Some(subtitle@),
            footer_hint: Some(PopupHint::Standard),
            items: seq![back_item@, error_item_view(err@)],
            is_searchable: true,
            search_placeholder: Some("Type to search workflow actions"@),
            initial_selected_idx,
            on_cancel: None,
        }),
{
    let mut items: Vec<SelectionItem> = Vec::new();
    proof {
        lemma_item_views_push(items@, back_item);
    }
    items.push(back_item);
    let mut error_item = SelectionItem::named(String::from_str("Workflow Error"));
    error_item.description = Some(err);
    error_item.selected_description = Some(String::from_str("Fix the workflow YAML, then reopen this menu."));
    error_item.is_disabled = true;
    proof {
        assert(error_item@.actions =~= Seq::<AppEvent>::empty());
        lemma_item_views_push(items@, error_item);
    }
    items.push(error_item);
    proof {
        assert(item_views(items@) =~= seq![back_item@, error_item_view(err@)]);
    }
    SelectionViewParams {
        view_id: Some(String::from_str("workflow-controls")),
        title: Some(String::from_str(title)),
        subtitle: Some(String::from_str(subtitle)),
        footer_hint: Some(PopupHint::Standard),
        items,
        is_searchable: true,
        search_placeholder: Some(String::from_str("Type to search workflow actions")),
        initial_selected_idx,
        on_cancel: None,
    }
}


/// The back item to the root menu.
pub open spec fn back_to_root_view() -> SelectionItemView {
    SelectionItemView {
        name: "Back"@,
        description: Some("Return to the previous workflow menu."@),
        selected_description: Some("Return to the previous workflow menu."@),
        is_current: false,
        is_disabled: false,
        disabled_reason: None,
        actions: seq![AppEvent::OpenWorkflowControlView { destination: WorkflowControlsDestination::Root }],
        dismiss_on_select: false,
        search_value: None,
    }
}

/// The popup for a menu that loaded, or the error popup with this title and
/// subtitle and a way back to the root menu.
pub open spec fn menu_or_error_view(
    menu: Result<WorkflowControlsMenu, String>,
    title: Seq<char>,
    subtitle: Seq<char>,
    initial_selected_idx: Option<usize>,
) -> SelectionViewParamsView {
    match menu {
        Ok(m) => SelectionViewParamsView {
            view_id: Some("workflow-controls"@),
            title: Some(m.title@),
            subtitle: Some(m.subtitle@),
            footer_hint: Some(PopupHint::Standard),
            items: m.items@.map_values(|i: WorkflowControlsItem| controls_item_view(i)),
            is_searchable: true,
            search_placeholder: Some(m.search_placeholder@),
            initial_selected_idx,
            on_cancel: None,
        },
        Err(e) => SelectionViewParamsView {
            view_id: Some("workflow-controls"@),
            title: Some(title),
            subtitle: Some(subtitle),
            footer_hint: Some(PopupHint::Standard),
            items: seq![back_to_root_view(), error_item_view(e@)],
            is_searchable: true,
            search_placeholder: Some("Type to search workflow actions"@),
            initial_selected_idx,
            on_cancel: None,
        },
    }
}

/// The popup for a menu that loaded, or its error.
fn menu_or_error(
    menu: Result<WorkflowControlsMenu, String>,
    title: &str,
    subtitle: &str,
    initial_selected_idx: Option<usize>,
) -> (r: SelectionViewParams)
    ensures
        r@ == menu_or_error_view(menu, title@, subtitle@, initial_selected_idx),
{
    match menu {
        Ok(m) => workflow_menu_popup_params(m, initial_selected_idx),
        Err(e) => workflow_error_popup_params(
            title,
            subtitle,
            e,
            workflow_back_item(WorkflowControlsDestination::Root),
            initial_selected_idx,
        ),
    }
}

impl App {
    /// The root workflow menu's popup.
    pub fn workflow_root_popup_params(&self, menu: WorkflowControlsMenu, initial_selected_idx: Option<usize>) -> (r:
        SelectionViewParams)
        ensures
            r@ == menu_or_error_view(Ok(menu), Seq::empty(), Seq::empty(), initial_selected_idx),
    {
        workflow_menu_popup_params(menu, initial_selected_idx)
    }

    /// The popup of a workflow file's menu.
    pub fn workflow_file_popup_params(&self, menu: Result<WorkflowControlsMenu, String>, initial_selected_idx: Option<usize>) -> (r:
        SelectionViewParams)
        ensures
            r@ == menu_or_error_view(menu, "Workflow"@, "Failed to open workflow file."@, initial_selected_idx),
    {
        menu_or_error(menu, "Workflow", "Failed to open workflow file.", initial_selected_idx)
    }

    /// The popup of a workflow's jobs.
    pub fn workflow_jobs_popup_params(&self, menu: Result<WorkflowControlsMenu, String>, initial_selected_idx: Option<usize>) -> (r:
        SelectionViewParams)
        ensures
            r@ == menu_or_error_view(menu, "Workflow Jobs"@, "Failed to load workflow jobs."@, initial_selected_idx),
    {
        menu_or_error(menu, "Workflow Jobs", "Failed to load workflow jobs.", initial_selected_idx)
    }

    /// The popup of a workflow's manual triggers.
    pub fn workflow_manual_triggers_popup_params(
        &self,
        menu: Result<WorkflowControlsMenu, String>,
        initial_selected_idx: Option<usize>,
    ) -> (r: SelectionViewParams)
        ensures
            r@ == menu_or_error_view(menu, "Workflow Triggers"@, "Failed to load workflow triggers."@, initial_selected_idx),
    {
        menu_or_error(menu, "Workflow Triggers", "Failed to load workflow triggers.", initial_selected_idx)
    }

    /// The popup of one manual trigger.
    pub fn workflow_manual_trigger_popup_params(
        &self,
        menu: Result<WorkflowControlsMenu, String>,
        initial_selected_idx: Option<usize>,
    ) -> (r: SelectionViewParams)
        ensures
            r@ == menu_or_error_view(menu, "Workflow Trigger"@, "Failed to load workflow trigger."@, initial_selected_idx),
    {
        menu_or_error(menu, "Workflow Trigger", "Failed to load workflow trigger.", initial_selected_idx)
    }

    /// The popup that picks a trigger's type.
    pub fn workflow_trigger_type_popup_params(
        &self,
        menu: Result<WorkflowControlsMenu, String>,
        initial_selected_idx: Option<usize>,
    ) -> (r: SelectionViewParams)
        ensures
            r@ == menu_or_error_view(menu, "Trigger Type"@, "Failed to load workflow trigger type picker."@, initial_selected_idx),
    {
        menu_or_error(menu, "Trigger Type", "Failed to load workflow trigger type picker.", initial_selected_idx)
    }

    /// The popup of one job.
    pub fn workflow_job_popup_params(&self, menu: Result<WorkflowControlsMenu, String>, initial_selected_idx: Option<usize>) -> (r:
        SelectionViewParams)
        ensures
            r@ == menu_or_error_view(menu, "Workflow Job"@, "Failed to load workflow job."@, initial_selected_idx),
    {
        menu_or_error(menu, "Workflow Job", "Failed to load workflow job.", initial_selected_idx)
    }
}


/// What a workflow menu edit shows, and the menu it reopens, if any.
#[derive(Debug, PartialEq, Eq)]
pub struct WorkflowUiUpdate {
    pub notice: HistoryNotice,
    pub reopen: Option<WorkflowControlsDestination>,
}

impl App {
    /// After toggling a job's `enabled` flag in its file: says which way it
    /// went and reopens the job's menu, or shows the error.
    pub fn toggle_workflow_job_enabled_from_ui(
        &self,
        workflow_path: String,
        job_name: String,
        toggled: Result<bool, String>,
    ) -> (r: WorkflowUiUpdate)
        ensures
            match toggled {
                Ok(enabled) => is_info(
                    r.notice,
                    (if enabled { "Enabled"@ } else { "Disabled"@ }) + " workflow job `"@ + job_name@ + "`."@,
                    None,
                ) && r.reopen == Some(WorkflowControlsDestination::Job { workflow_path, job_name }),
                Err(e) => is_error(r.notice, e@) && r.reopen is None,
            },
    {
        match toggled {
            Ok(enabled) => {
                let message = concat3(
                    if enabled { "Enabled" } else { "Disabled" },
                    " workflow job `",
                    job_name.as_str(),
                );
                let mut message = message;
                message.append("`.");
                WorkflowUiUpdate {
                    notice: HistoryNotice::Info { message, hint: None },
                    reopen: Some(WorkflowControlsDestination::Job { workflow_path, job_name }),
                }
            },
            Err(e) => WorkflowUiUpdate { notice: HistoryNotice::Error { message: e }, reopen: None },
        }
    }

    /// After switching a trigger's type in its file: names the trigger by
    /// the id it now has (`Ok`) and the type's label `type_label`, and
    /// reopens the trigger's menu under that id, or shows the error.
    pub fn set_workflow_trigger_type_from_ui(
        &self,
        workflow_path: String,
        type_label: String,
        switched: Result<String, String>,
    ) -> (r: WorkflowUiUpdate)
        ensures
            match switched {
                Ok(next_id) => is_info(
                    r.notice,
                    "Workflow trigger `"@ + next_id@ + "` now uses "@ + type_label@ + "."@,
                    None,
                ) && r.reopen == Some(WorkflowControlsDestination::ManualTrigger { workflow_path, trigger_id: next_id }),
                Err(e) => is_error(r.notice, e@) && r.reopen is None,
            },
    {
        match switched {
            Ok(next_id) => {
                let mut message = concat3("Workflow trigger `", next_id.as_str(), "` now uses ");
                message.append(type_label.as_str());
                message.append(".");
                WorkflowUiUpdate {
                    notice: HistoryNotice::Info { message, hint: None },
                    reopen: Some(WorkflowControlsDestination::ManualTrigger { workflow_path, trigger_id: next_id }),
                }
            },
            Err(e) => WorkflowUiUpdate { notice: HistoryNotice::Error { message: e }, reopen: None },
        }
    }

    /// After cycling a job's context mode in its file: names the label of the
    /// mode it now has (`Ok`) and reopens the job's menu, or shows the error.
    pub fn cycle_workflow_job_context_from_ui(
        &self,
        workflow_path: String,
        job_name: String,
        cycled: Result<String, String>,
    ) -> (r: WorkflowUiUpdate)
        ensures
            match cycled {
                Ok(label) => is_info(
                    r.notice,
                    "Workflow job `"@ + job_name@ + "` now uses "@ + label@ + " context."@,
                    None,
                ) && r.reopen == Some(WorkflowControlsDestination::Job { workflow_path, job_name }),
                Err(e) => is_error(r.notice, e@) && r.reopen is None,
            },
    {
        match cycled {
            Ok(label) => {
                let mut message = concat3("Workflow job `", job_name.as_str(), "` now uses ");
                message.append(label.as_str());
                message.append(" context.");
                WorkflowUiUpdate {
                    notice: HistoryNotice::Info { message, hint: None },
                    reopen: Some(WorkflowControlsDestination::Job { workflow_path, job_name }),
                }
            },
            Err(e) => WorkflowUiUpdate { notice: HistoryNotice::Error { message: e }, reopen: None },
        }
    }

    /// After cycling a job's response mode in its file: names the label of
    /// the mode it now has (`Ok`) and reopens the job's menu, or shows the
    /// error.
    pub fn cycle_workflow_job_response_from_ui(
        &self,
        workflow_path: String,
        job_name: String,
        cycled: Result<String, String>,
    ) -> (r: WorkflowUiUpdate)
        ensures
            match cycled {
                Ok(label) => is_info(
                    r.notice,
                    "Workflow job `"@ + job_name@ + "` now delivers a "@ + label@ + " response."@,
                    None,
                ) && r.reopen == Some(WorkflowControlsDestination::Job { workflow_path, job_name }),
                Err(e) => is_error(r.notice, e@) && r.reopen is None,
            },
    {
        match cycled {
            Ok(label) => {
                let mut message = concat3("Workflow job `", job_name.as_str(), "` now delivers a ");
                message.append(label.as_str());
                message.append(" response.");
                WorkflowUiUpdate {
                    notice: HistoryNotice::Info { message, hint: None },
                    reopen: Some(WorkflowControlsDestination::Job { workflow_path, job_name }),
                }
            },
            Err(e) => WorkflowUiUpdate { notice: HistoryNotice::Error { message: e }, reopen: None },
        }
    }

    /// After toggling a trigger's `enabled` flag in its file: says which way
    /// it went and reopens the trigger's menu, or shows the error.
    pub fn toggle_workflow_trigger_enabled_from_ui(
        &self,
        workflow_path: String,
        trigger_id: String,
        toggled: Result<bool, String>,
    ) -> (r: WorkflowUiUpdate)
        ensures
            match toggled {
                Ok(enabled) => is_info(
                    r.notice,
                    (if enabled { "Enabled"@ } else { "Disabled"@ }) + " workflow trigger `"@ + trigger_id@ + "`."@,
                    None,
                ) && r.reopen == Some(WorkflowControlsDestination::ManualTrigger { workflow_path, trigger_id }),
                Err(e) => is_error(r.notice, e@) && r.reopen is None,
            },
    {
        match toggled {
            Ok(enabled) => {
                let mut message = concat3(
                    if enabled { "Enabled" } else { "Disabled" },
                    " workflow trigger `",
                    trigger_id.as_str(),
                );
                message.append("`.");
                WorkflowUiUpdate {
                    notice: HistoryNotice::Info { message, hint: None },
                    reopen: Some(WorkflowControlsDestination::ManualTrigger { workflow_path, trigger_id }),
                }
            },
            Err(e) => WorkflowUiUpdate { notice: HistoryNotice::Error { message: e }, reopen: None },
        }
    }
}

} // verus!
