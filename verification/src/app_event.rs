//! The events that the UI's popups send when an item is chosen, and the
//! values they carry.
use vstd::prelude::*;
use crate::loop_book::LoopContextMode;
use crate::turn_phases::LoopTriggerPhase;

verus! {

/// Which realtime audio device a selection applies to.
#[derive(Debug, Clone, Copy, PartialEq, Eq)]
pub enum RealtimeAudioDeviceKind {
    Microphone,
    Speaker,
}

impl RealtimeAudioDeviceKind {
    /// Capitalised name shown as a popup title.
    pub fn title(self) -> (r: &'static str)
        ensures
            r@ == (match self {
                RealtimeAudioDeviceKind::Microphone => "Microphone"@,
                RealtimeAudioDeviceKind::Speaker => "Speaker"@,
            }),
    {
        match self {
            RealtimeAudioDeviceKind::Microphone => "Microphone",
            RealtimeAudioDeviceKind::Speaker => "Speaker",
        }
    }

    /// Lower-case noun used inside sentences.
    pub fn noun(self) -> (r: &'static str)
        ensures
            r@ == (match self {
                RealtimeAudioDeviceKind::Microphone => "microphone"@,
                RealtimeAudioDeviceKind::Speaker => "speaker"@,
            }),
    {
        match self {
            RealtimeAudioDeviceKind::Microphone => "microphone",
            RealtimeAudioDeviceKind::Speaker => "speaker",
        }
    }
}


/// The runtime profile a switch targets: the root configuration, or a named profile.
#[derive(Debug, Clone, PartialEq, Eq)]
pub enum RuntimeProfileTarget {
    Default,
    Named(String),
}

/// A menu of the workflow controls.
#[derive(Debug, Clone, PartialEq, Eq)]
pub enum WorkflowControlsDestination {
    Root,
    File { workflow_path: String },
    Jobs { workflow_path: String },
    Job { workflow_path: String, job_name: String },
    ManualTriggers { workflow_path: String },
    ManualTrigger { workflow_path: String, trigger_id: String },
    TriggerType { workflow_path: String, trigger_id: String },
}

/// The kind a trigger can be switched to.
#[derive(Debug, Clone, Copy, PartialEq, Eq)]
pub enum WorkflowTriggerType {
    Manual,
    BeforeTurn,
    AfterTurn,
    FileWatch,
    Idle,
    Interval,
    Cron,
}

/// A job setting edited in the external editor.
#[derive(Debug, Clone, Copy, PartialEq, Eq)]
pub enum WorkflowJobEditableField {
    Needs,
    Steps,
}

/// A trigger setting edited in the external editor.
#[derive(Debug, Clone, Copy, PartialEq, Eq)]
pub enum WorkflowTriggerEditableField {
    Id,
    Jobs,
    After,
    Every,
    Cron,
}

/// What made a loop timer run.
#[derive(Debug, Clone, Copy, PartialEq, Eq)]
pub enum LoopTimerTriggerSource {
    ScheduledTimer,
    ScheduledIdle,
    Manual,
}

/// The events that selection items send when chosen.
#[derive(Debug, Clone, PartialEq, Eq)]
pub enum AppEvent {
    ForkCurrentSession,
    OpenJumpToMessagePanel,
    UndoLastUserMessage,
    JumpToTranscriptCell { cell_index: usize },
    EditProfileFallbackConfig,
    SwitchRuntimeProfile { target: RuntimeProfileTarget },
    OpenWorkflowControlView { destination: WorkflowControlsDestination },
    ShowWorkflowBackgroundTasks,
    CreateDefaultWorkflowTemplate,
    EditWorkflowFile { workflow_path: String, reopen: WorkflowControlsDestination },
    StartManualWorkflowTrigger { workflow_name: String, trigger_id: String },
    StartManualWorkflowJob { workflow_name: String, job_name: String },
    ToggleWorkflowTriggerEnabled { workflow_path: String, trigger_id: String },
    ToggleWorkflowJobEnabled { workflow_path: String, job_name: String },
    SetWorkflowTriggerType {
        workflow_path: String,
        trigger_id: String,
        trigger_type: WorkflowTriggerType,
    },
    CycleWorkflowJobContext { workflow_path: String, job_name: String },
    CycleWorkflowJobResponse { workflow_path: String, job_name: String },
    EditWorkflowJobField { workflow_path: String, job_name: String, field: WorkflowJobEditableField },
    EditWorkflowTriggerField {
        workflow_path: String,
        trigger_id: String,
        field: WorkflowTriggerEditableField,
    },
    OpenLoopTimersPanel,
    TriggerLoopTimer { timer_id: String, scheduled_for_unix_seconds: i64, source: LoopTimerTriggerSource },
    OpenEditLoopTimerPrompt { timer_id: String },
    OpenLoopTimerTriggers { timer_id: String },
    OpenEditLoopTimerAction { timer_id: String },
    OpenEditLoopTimerContextMode { timer_id: String },
    OpenEditLoopTimerResponseMode { timer_id: String },
    OpenEditLoopTimerSecurityMode { timer_id: String },
    OpenLoopExecutionPanel { timer_id: String },
    EnableLoopTimer { timer_id: String },
    DisableLoopTimer { timer_id: String },
    DeleteLoopTimer { timer_id: String },
    OpenCreateLoopTimerTriggerSchedule { timer_id: String },
    OpenCreateLoopIdleTriggerAfter { timer_id: String },
    AddLoopBeforeTurnTrigger { timer_id: String },
    AddLoopAfterTurnTrigger { timer_id: String },
    OpenLoopTimerActions { timer_id: String },
    OpenEditLoopTimerCwd { timer_id: String },
    ResetLoopTimerCwd { timer_id: String },
    OpenEditLoopWritableRoots { timer_id: String },
    ResetLoopWritableRoots { timer_id: String },
    OpenLoopTriggerQueuesPanel,
    OpenCreateLoopTimerMenu,
    StartCreateLoopDraft { context_mode: LoopContextMode },
    OpenEditLoopTriggerBindingIdleAfter { timer_id: String, binding_id: String },
    OpenEditLoopTriggerBindingSchedule { timer_id: String, binding_id: String },
    OpenLoopTriggerBindingActions { timer_id: String, binding_id: String },
    OpenCreateLoopTriggerMenu { timer_id: String },
    OpenLoopTriggerQueuePhase { phase: LoopTriggerPhase },
    MoveLoopTriggerQueueEntry { phase: LoopTriggerPhase, loop_id: String, binding_id: String, move_up: bool },
    EnableLoopTriggerBinding { timer_id: String, binding_id: String },
    DisableLoopTriggerBinding { timer_id: String, binding_id: String },
    DeleteLoopTriggerBinding { timer_id: String, binding_id: String },
}

} // verus!
