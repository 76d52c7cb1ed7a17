//! Verified core logic of the terminal UI's workflow, loop and profile panels.

pub mod app_event;
pub mod selection;
pub mod thread_menu;
pub mod profile_management;
pub mod workflow_controls;
pub mod app;
pub mod loop_timers;
pub mod loop_book;
pub mod loop_editing;
pub mod loop_panels;
pub mod turn_phases;
pub mod idle_triggers;
pub mod workflow_editor;
pub mod text;
pub mod after_turn;
pub mod seq_facts;
pub mod workflow_definition;
pub mod workflow_registry;
pub mod workflow_runtime;
pub mod history;
pub mod workflow_history;
pub mod workflow_scheduler;

pub use app_event::RealtimeAudioDeviceKind;
