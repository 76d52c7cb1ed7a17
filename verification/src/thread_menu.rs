//! The thread panel and the jump-to-message panel.
use vstd::prelude::*;
use vstd::string::*;
use crate::app_event::AppEvent;
use crate::selection::{
    PopupHint, SelectionItem, SelectionItemView, SelectionViewParams, SelectionViewParamsView,
    item_views, lemma_item_views_push, single_action,
};
use crate::text::{decimal_seq, decimal_string};

verus! {

/// A committed transcript entry that the jump panel can open.
#[derive(Debug, PartialEq, Eq)]
pub struct JumpTarget {
    pub cell_index: usize,
    pub title: String,
    pub preview: String,
    pub search_value: String,
}

/// The items of the thread panel: fork, jump, undo; forking and undoing
/// wait while a task runs.
pub open spec fn thread_panel_items(task_running: bool) -> Seq<SelectionItemView> {
    seq![
        SelectionItemView {
            name: "Fork Current Session"@,
            description: Some("Create a new thread from the current session state."@),
            selected_description: Some("Fork the current thread into a new session and continue there."@),
            is_current: false,
            is_disabled: task_running,
            disabled_reason: if task_running {
                Some("Wait for the current task to finish before forking."@)
            } else {
                None
            },
            actions: seq![AppEvent::ForkCurrentSession],
            dismiss_on_select: true,
            search_value: None,
        },
        SelectionItemView {
            name: "Jump To Message"@,
            description: Some("Search committed transcript entries and open the transcript overlay."@),
            selected_description: Some("Search the current transcript and jump directly to a committed entry."@),
            is_current: false,
            is_disabled: false,
            disabled_reason: None,
            actions: seq![AppEvent::OpenJumpToMessagePanel],
            dismiss_on_select: false,
            search_value: None,
        },
        SelectionItemView {
            name: "Undo Last User Message"@,
            description: Some("Restore the last sent input and roll back one turn."@),
            selected_description: Some("Restore the latest user input to the composer and rewind one committed turn."@),
            is_current: false,
            is_disabled: task_running,
            disabled_reason: if task_running {
                Some("Wait for the current task to finish before undoing a turn."@)
            } else {
                None
            },
            actions: seq![AppEvent::UndoLastUserMessage],
            dismiss_on_select: true,
            search_value: None,
        },
    ]
}

/// The thread panel.
pub fn thread_panel_params(task_running: bool, initial_selected_idx: Option<usize>) -> (r: SelectionViewParams)
    ensures
        r@ == (SelectionViewParamsView {
            view_id: Some("thread-actions"@),
            title: Some("Thread"@),
            subtitle: Some("Fork, rewind, or jump within the current conversation."@),
            footer_hint: Some(PopupHint::Standard),
            items: thread_panel_items(task_running),
            is_searchable: false,
            search_placeholder: None,
            initial_selected_idx,
            on_cancel: None,
        }),
{
    let mut items: Vec<SelectionItem> = Vec::new();
    let fork = SelectionItem {
        name: String::from_str("Fork Current Session"),
        description: Some(String::from_str("Create a new thread from the current session state.")),
        selected_description: Some(String::from_str("Fork the current thread into a new session and continue there.")),
        is_current: false,
        is_disabled: task_running,
        disabled_reason: if task_running {
            Some(String::from_str("Wait for the current task to finish before forking."))
        } else {
            None
        },
        actions: single_action(AppEvent::ForkCurrentSession),
        dismiss_on_select: true,
        search_value: None,
    };
    proof {
        lemma_item_views_push(items@, fork);
    }
    items.push(fork);
    let jump = SelectionItem {
        name: String::from_str("Jump To Message"),
        description: Some(String::from_str("Search committed transcript entries and open the transcript overlay.")),
        selected_description: Some(String::from_str("Search the current transcript and jump directly to a committed entry.")),
        is_current: false,
        is_disabled: false,
        disabled_reason: None,
        actions: single_action(AppEvent::OpenJumpToMessagePanel),
        dismiss_on_select: false,
        search_value: None,
    };
    proof {
        lemma_item_views_push(items@, jump);
    }
    items.push(jump);
    let undo = SelectionItem {
        name: String::from_str("Undo Last User Message"),
        description: Some(String::from_str("Restore the last sent input and roll back one turn.")),
        selected_description: Some(String::from_str("Restore the latest user input to the composer and rewind one committed turn.")),
        is_current: false,
        is_disabled: task_running,
        disabled_reason: if task_running {
            Some(String::from_str("Wait for the current task to finish before undoing a turn."))
        } else {
            None
        },
        actions: single_action(AppEvent::UndoLastUserMessage),
        dismiss_on_select: true,
        search_value: None,
    };
    proof {
        lemma_item_views_push(items@, undo);
    }
    items.push(undo);
    proof {
        assert(item_views(items@) =~= thread_panel_items(task_running));
    }
    SelectionViewParams {
        view_id: Some(String::from_str("thread-actions")),
        title: Some(String::from_str("Thread")),
        subtitle: Some(String::from_str("Fork, rewind, or jump within the current conversation.")),
        footer_hint: Some(PopupHint::Standard),
        items,
        is_searchable: false,
        search_placeholder: None,
        initial_selected_idx,
        on_cancel: None,
    }
}

/// The item for a jump target: its title, its preview, a jump to its cell.
pub open spec fn jump_item(t: JumpTarget) -> SelectionItemView {
    SelectionItemView {
        name: t.title@,
        description: Some(t.preview@),
        selected_description: None,
        is_current: false,
        is_disabled: false,
        disabled_reason: None,
        actions: seq![AppEvent::JumpToTranscriptCell { cell_index: t.cell_index }],
        dismiss_on_select: true,
        search_value: Some(t.search_value@),
    }
}

/// The subtitle of the jump panel for `n` targets.
pub open spec fn jump_subtitle(n: nat) -> Seq<char> {
    if n == 0 {
        "No committed transcript entries are available yet."@
    } else if n == 1 {
        decimal_seq(n) + " committed transcript entry is available."@
    } else {
        decimal_seq(n) + " committed transcript entries are available."@
    }
}

/// The jump-to-message panel over the committed transcript entries.
pub fn jump_to_message_panel_params(targets: Vec<JumpTarget>, initial_selected_idx: Option<usize>) -> (r:
    SelectionViewParams)
    ensures
        r@.view_id == Some("jump-to-message"@),
        r@.title == Some("Jump To Message"@),
        r@.subtitle == Some(jump_subtitle(targets@.len())),
        r@.footer_hint == Some(PopupHint::Standard),
        r@.items == (if targets@.len() == 0 {
            seq![SelectionItemView {
                name: "Nothing to jump to yet"@,
                description: Some("Send a message or wait for a response before using Jump To Message."@),
                selected_description: None,
                is_current: false,
                is_disabled: true,
                disabled_reason: None,
                actions: seq![],
                dismiss_on_select: false,
                search_value: None,
            }]
        } else {
            targets@.map_values(|t: JumpTarget| jump_item(t))
        }),
        r@.is_searchable,
        r@.search_placeholder == Some("Type to search committed transcript"@),
        r@.initial_selected_idx == initial_selected_idx,
        r@.on_cancel is None,
{
    let n = targets.len();
    let subtitle = if n == 0 {
        String::from_str("No committed transcript entries are available yet.")
    } else {
        let mut s = decimal_string(n as u128);
        if n == 1 {
            s.append(" committed transcript entry is available.");
        } else {
            s.append(" committed transcript entries are available.");
        }
        s
    };
    let ghost tv = targets@;
    let mut items: Vec<SelectionItem> = Vec::new();
    if n == 0 {
        let mut empty = SelectionItem::named(String::from_str("Nothing to jump to yet"));
        empty.description = Some(String::from_str("Send a message or wait for a response before using Jump To Message."));
        empty.is_disabled = true;
        proof {
            assert(empty@.actions =~= Seq::<AppEvent>::empty());
            lemma_item_views_push(items@, empty);
            assert(item_views(items@) =~= Seq::<SelectionItemView>::empty());
        }
        items.push(empty);
    } else {
        let mut rest = targets;
        let mut taken: usize = 0;
        while rest.len() > 0
            invariant
                taken + rest@.len() == tv.len(),
                tv.len() <= usize::MAX,
                rest@ == tv.subrange(taken as int, tv.len() as int),
                item_views(items@) == tv.take(taken as int).map_values(|t: JumpTarget| jump_item(t)),
            decreases rest@.len(),
        {
            let t = rest.remove(0);
            proof {
                assert(t == tv[taken as int]);
            }
            let item = SelectionItem {
                name: t.title,
                description: Some(t.preview),
                selected_description: None,
                is_current: false,
                is_disabled: false,
                disabled_reason: None,
                actions: single_action(AppEvent::JumpToTranscriptCell { cell_index: t.cell_index }),
                dismiss_on_select: true,
                search_value: Some(t.search_value),
            };
            proof {
                lemma_item_views_push(items@, item);
                assert(tv.take(taken + 1).map_values(|t: JumpTarget| jump_item(t)) =~= tv.take(taken as int).map_values(|t: JumpTarget| jump_item(t)).push(jump_item(tv[taken as int])));
            }
            items.push(item);
            taken = taken + 1;
        }
        proof {
            assert(tv.take(taken as int) =~= tv);
        }
    }
    SelectionViewParams {
        view_id: Some(String::from_str("jump-to-message")),
        title: Some(String::from_str("Jump To Message")),
        subtitle: Some(subtitle),
        footer_hint: Some(PopupHint::Standard),
        items,
        is_searchable: true,
        search_placeholder: Some(String::from_str("Type to search committed transcript")),
        initial_selected_idx,
        on_cancel: None,
    }
}

} // verus!
