//! The Loop Manager's menus for creating a loop and for acting on one of a
//! loop's triggers, and how a loop shows in the timers panel and the status
//! line.
use vstd::prelude::*;
use vstd::string::*;
use crate::app::App;
use crate::app_event::AppEvent;
use crate::loop_book::{
    binding_pos, binding_views, has_timer, timer_at, LoopContextMode, LoopTriggerBinding, LoopTriggerBindingView,
    LoopTriggerKind, LoopTriggerKindView,
};
use crate::loop_editing::find_binding;
use crate::loop_book::{LoopTimer, LoopTimerView};
use crate::loop_timers::{action_item, make_action_item, scheduled_trigger_label, texts_trigger_label, LoopTimerTexts};
use crate::selection::{
    item_views, lemma_item_views_push, PopupHint, SelectionItem, SelectionItemView, SelectionViewParams,
    SelectionViewParamsView,
};
use crate::turn_phases::LoopTriggerPhase;
use crate::text::{concat2, concat3, decimal_seq, decimal_string, is_blank_seq, join_seq, join_strings, lemma_views_push, trim_str, views};

verus! {

/// The items of the menu that creates a loop agent: one per context mode.
pub open spec fn create_loop_items() -> Seq<SelectionItemView> {
    seq![
        action_item("Embed"@, "Submit the loop prompt directly into the main thread."@,
            AppEvent::StartCreateLoopDraft { context_mode: LoopContextMode::Embed }),
        action_item("Ephemeral"@,
            "Fork compacted main-thread context into a hidden thread and discard it after each trigger."@,
            AppEvent::StartCreateLoopDraft { context_mode: LoopContextMode::Ephemeral }),
        action_item("Persistent"@,
            "Fork compacted main-thread context once, then keep a hidden thread with its own retained rollout."@,
            AppEvent::StartCreateLoopDraft { context_mode: LoopContextMode::Persistent }),
    ]
}

/// The items of the actions menu of trigger `binding_id` of loop
/// `timer_id`, whose binding reads `b`: its schedule or idle delay to edit,
/// where it has one, then a switch and a delete.
pub open spec fn binding_action_items(timer_id: String, binding_id: String, b: LoopTriggerBindingView) -> Seq<SelectionItemView> {
    let edit: Seq<SelectionItemView> = match b.kind {
        LoopTriggerKindView::Timer { schedule } => seq![action_item("Edit Schedule"@,
            "Current schedule: "@ + schedule.display(),
            AppEvent::OpenEditLoopTriggerBindingSchedule { timer_id, binding_id })],
        LoopTriggerKindView::Idle { after } => seq![action_item("Edit Idle Duration"@,
            "Current idle duration: "@ + after.display(),
            AppEvent::OpenEditLoopTriggerBindingIdleAfter { timer_id, binding_id })],
        _ => Seq::empty(),
    };
    let switch = if b.enabled {
        action_item("Disable"@, "Keep the trigger binding but stop using it."@,
            AppEvent::DisableLoopTriggerBinding { timer_id, binding_id })
    } else {
        action_item("Enable"@, "Use this trigger binding again."@,
            AppEvent::EnableLoopTriggerBinding { timer_id, binding_id })
    };
    edit + seq![switch, action_item("Delete"@, "Remove this trigger from the loop."@,
        AppEvent::DeleteLoopTriggerBinding { timer_id, binding_id })]
}

/// What opening the actions of one trigger of a loop shows.
#[derive(Debug, PartialEq, Eq)]
pub enum LoopTriggerBindingActionsView {
    /// The loop is gone: the timers panel.
    TimersPanel,
    /// The loop has no such trigger: the loop's triggers panel.
    TriggersPanel { timer_id: String },
    Show(SelectionViewParams),
}

impl App {
    /// The menu that creates a loop agent, one item per context mode;
    /// closing it returns to the timers panel.
    pub fn open_create_loop_timer_menu(&self) -> (r: SelectionViewParams)
        ensures
            r@ == (SelectionViewParamsView {
                view_id: Some("fork-loop-create-panel"@),
                title: Some("Loop Manager"@),
                subtitle: Some("Create loop agent"@),
                footer_hint: Some(PopupHint::Standard),
                items: create_loop_items(),
                is_searchable: false,
                search_placeholder: None,
                initial_selected_idx: None,
                on_cancel: Some(AppEvent::OpenLoopTimersPanel),
            }),
    {
        let mut items: Vec<SelectionItem> = Vec::new();
        let it = make_action_item("Embed", String::from_str("Submit the loop prompt directly into the main thread."),
            AppEvent::StartCreateLoopDraft { context_mode: LoopContextMode::Embed });
        proof { lemma_item_views_push(items@, it); }
        items.push(it);
        let it = make_action_item("Ephemeral",
            String::from_str("Fork compacted main-thread context into a hidden thread and discard it after each trigger."),
            AppEvent::StartCreateLoopDraft { context_mode: LoopContextMode::Ephemeral });
        proof { lemma_item_views_push(items@, it); }
        items.push(it);
        let it = make_action_item("Persistent",
            String::from_str("Fork compacted main-thread context once, then keep a hidden thread with its own retained rollout."),
            AppEvent::StartCreateLoopDraft { context_mode: LoopContextMode::Persistent });
        proof { lemma_item_views_push(items@, it); }
        items.push(it);
        proof {
            assert(item_views(items@) =~= create_loop_items());
        }
        SelectionViewParams {
            view_id: Some(String::from_str("fork-loop-create-panel")),
            title: Some(String::from_str("Loop Manager")),
            subtitle: Some(String::from_str("Create loop agent")),
            footer_hint: Some(PopupHint::Standard),
            items,
            is_searchable: false,
            search_placeholder: None,
            initial_selected_idx: None,
            on_cancel: Some(AppEvent::OpenLoopTimersPanel),
        }
    }

    /// The actions menu of trigger `binding_id` of loop `timer_id`, which the
    /// loop settings call `binding_name`; closing it returns to the loop's
    /// triggers. A loop or a trigger that is gone sends back to the panel
    /// above it.
    pub fn open_loop_trigger_binding_actions(&self, timer_id: String, binding_id: String, binding_name: &str)
        -> (r: LoopTriggerBindingActionsView)
        requires
            self.wf(),
        ensures
            !has_timer(self.loop_timers.timers@, timer_id@) ==> r == LoopTriggerBindingActionsView::TimersPanel,
            has_timer(self.loop_timers.timers@, timer_id@) ==> ({
                let bs = timer_at(self.loop_timers.timers@, timer_id@).trigger_bindings;
                let k = binding_pos(bs, binding_id@);
                if k < 0 {
                    r == LoopTriggerBindingActionsView::TriggersPanel { timer_id }
                } else {
                    &&& r is Show
                    &&& r->Show_0@ == (SelectionViewParamsView {
                        view_id: Some("fork-loop-trigger-actions-panel"@),
                        title: Some("Loop Manager"@),
                        subtitle: Some("Trigger · "@ + binding_name@),
                        footer_hint: Some(PopupHint::Standard),
                        items: binding_action_items(timer_id, binding_id, bs[k]),
                        is_searchable: false,
                        search_placeholder: None,
                        initial_selected_idx: None,
                        on_cancel: Some(AppEvent::OpenLoopTimerTriggers { timer_id }),
                    })
                }
            }),
    {
        let t = match self.loop_timers.timers.get(timer_id.as_str()) {
            Some(t) => t,
            None => return LoopTriggerBindingActionsView::TimersPanel,
        };
        let k = find_binding(&t.trigger_bindings, binding_id.as_str());
        if k >= t.trigger_bindings.len() {
            return LoopTriggerBindingActionsView::TriggersPanel { timer_id };
        }
        let binding = &t.trigger_bindings[k];
        let ghost b = binding@;
        proof {
            assert(binding_views(t.trigger_bindings@)[k as int] == b);
        }
        let mut items: Vec<SelectionItem> = Vec::new();
        match &binding.kind {
            LoopTriggerKind::Timer { schedule } => {
                let it = make_action_item("Edit Schedule", concat2("Current schedule: ", schedule.display()),
                    AppEvent::OpenEditLoopTriggerBindingSchedule { timer_id: timer_id.clone(), binding_id: binding_id.clone() });
                proof { lemma_item_views_push(items@, it); }
                items.push(it);
            },
            LoopTriggerKind::Idle { after } => {
                let it = make_action_item("Edit Idle Duration", concat2("Current idle duration: ", after.display()),
                    AppEvent::OpenEditLoopTriggerBindingIdleAfter { timer_id: timer_id.clone(), binding_id: binding_id.clone() });
                proof { lemma_item_views_push(items@, it); }
                items.push(it);
            },
            _ => {},
        }
        let it = if binding.enabled {
            make_action_item("Disable", String::from_str("Keep the trigger binding but stop using it."),
                AppEvent::DisableLoopTriggerBinding { timer_id: timer_id.clone(), binding_id: binding_id.clone() })
        } else {
            make_action_item("Enable", String::from_str("Use this trigger binding again."),
                AppEvent::EnableLoopTriggerBinding { timer_id: timer_id.clone(), binding_id: binding_id.clone() })
        };
        proof { lemma_item_views_push(items@, it); }
        items.push(it);
        let it = make_action_item("Delete", String::from_str("Remove this trigger from the loop."),
            AppEvent::DeleteLoopTriggerBinding { timer_id: timer_id.clone(), binding_id: binding_id.clone() });
        proof { lemma_item_views_push(items@, it); }
        items.push(it);
        proof {
            assert(item_views(items@) =~= binding_action_items(timer_id, binding_id, b));
        }
        LoopTriggerBindingActionsView::Show(SelectionViewParams {
            view_id: Some(String::from_str("fork-loop-trigger-actions-panel")),
            title: Some(String::from_str("Loop Manager")),
            subtitle: Some(concat2("Trigger · ", binding_name)),
            footer_hint: Some(PopupHint::Standard),
            items,
            is_searchable: false,
            search_placeholder: None,
            initial_selected_idx: None,
            on_cancel: Some(AppEvent::OpenLoopTimerTriggers { timer_id }),
        })
    }
}

/// How the loop settings name a loop in lists: its name, the start of its
/// prompt, and when it last completed, as text.
pub struct LoopItemTexts {
    pub name: String,
    pub prompt_prefix: String,
    pub last_completed: String,
}

/// The parts of the description of loop `t` in the timers panel, with the
/// texts `x` and `y`: what it is, its scheduled trigger, how many triggers it
/// has, the start of its prompt and its response mode, then notes on its
/// action, a run in flight, its switch and its last completion.
pub open spec fn loop_item_parts(t: LoopTimerView, x: LoopTimerTexts, y: LoopItemTexts, is_running: bool) -> Seq<Seq<char>> {
    let base = seq![
        x.descriptor@,
        texts_trigger_label(t, x),
        decimal_seq(t.trigger_bindings.len()) + " trigger(s)"@,
        y.prompt_prefix@,
        x.response_mode_title@,
    ];
    let with_action = match t.action {
        Some(a) => if !is_blank_seq(a) {
            base.push("has action"@)
        } else {
            base
        },
        None => base,
    };
    let with_running = if is_running {
        with_action.push("running now"@)
    } else {
        with_action
    };
    let with_switch = if !t.enabled {
        with_running.push("disabled"@)
    } else {
        with_running
    };
    if t.last_completed_at_unix_seconds is Some {
        with_switch.push("last completed "@ + y.last_completed@)
    } else {
        with_switch
    }
}

/// The item of loop `timer` in the timers panel, with the texts `texts` and
/// `item_texts`; `is_running` says whether a run of it is in flight. Choosing
/// it opens the loop's actions.
pub fn loop_timer_selection_item(timer: &LoopTimer, texts: &LoopTimerTexts, item_texts: &LoopItemTexts, is_running: bool)
    -> (r: SelectionItem)
    ensures
        r@ == action_item(item_texts.name@, join_seq(loop_item_parts(timer@, *texts, *item_texts, is_running), " · "@),
            AppEvent::OpenLoopTimerActions { timer_id: timer.id }),
{
    let mut parts: Vec<String> = Vec::new();
    let ghost t = timer@;
    let s = texts.descriptor.clone();
    proof { lemma_views_push(parts@, s); }
    parts.push(s);
    let s = scheduled_trigger_label(timer, match &texts.timer_schedule {
        Some(x) => Some(x),
        None => None,
    });
    proof { lemma_views_push(parts@, s); }
    parts.push(s);
    let n = decimal_string(timer.trigger_bindings.len() as u128);
    let s = concat2(n.as_str(), " trigger(s)");
    proof { lemma_views_push(parts@, s); }
    parts.push(s);
    let s = item_texts.prompt_prefix.clone();
    proof { lemma_views_push(parts@, s); }
    parts.push(s);
    let s = texts.response_mode_title.clone();
    proof { lemma_views_push(parts@, s); }
    parts.push(s);
    proof {
        assert(views(parts@) =~= seq![
            texts.descriptor@,
            texts_trigger_label(t, *texts),
            decimal_seq(t.trigger_bindings.len()) + " trigger(s)"@,
            item_texts.prompt_prefix@,
            texts.response_mode_title@,
        ]);
    }
    match &timer.action {
        Some(a) => {
            if trim_str(a.as_str()).unicode_len() != 0 {
                let s = String::from_str("has action");
                proof { lemma_views_push(parts@, s); }
                parts.push(s);
            }
        },
        None => {},
    }
    if is_running {
        let s = String::from_str("running now");
        proof { lemma_views_push(parts@, s); }
        parts.push(s);
    }
    if !timer.enabled {
        let s = String::from_str("disabled");
        proof { lemma_views_push(parts@, s); }
        parts.push(s);
    }
    if timer.last_completed_at_unix_seconds.is_some() {
        let s = concat2("last completed ", item_texts.last_completed.as_str());
        proof { lemma_views_push(parts@, s); }
        parts.push(s);
    }
    proof {
        assert(views(parts@) =~= loop_item_parts(t, *texts, *item_texts, is_running));
    }
    let description = join_strings(parts.as_slice(), " · ");
    make_action_item(item_texts.name.as_str(), description, AppEvent::OpenLoopTimerActions { timer_id: timer.id.clone() })
}

/// How loop `timer` shows in the status line while it runs: its name, its
/// scheduled trigger in brackets, and the start of its prompt.
pub fn loop_status_label(timer: &LoopTimer, texts: &LoopTimerTexts, item_texts: &LoopItemTexts) -> (r: String)
    ensures
        r@ == item_texts.name@ + " ("@ + texts_trigger_label(timer@, *texts) + ") · "@ + item_texts.prompt_prefix@,
{
    let label = scheduled_trigger_label(timer, match &texts.timer_schedule {
        Some(x) => Some(x),
        None => None,
    });
    let head = concat3(item_texts.name.as_str(), " (", label.as_str());
    concat3(head.as_str(), ") · ", item_texts.prompt_prefix.as_str())
}

/// How a trigger of kind `k` is described in a loop's triggers panel.
pub open spec fn trigger_kind_description(k: LoopTriggerKindView) -> Seq<char> {
    match k {
        LoopTriggerKindView::Timer { schedule } => "Timer trigger · "@ + schedule.display(),
        LoopTriggerKindView::Idle { after } => "Idle trigger · "@ + after.display(),
        LoopTriggerKindView::BeforeTurn => "Runs before a main-thread user turn is submitted."@,
        LoopTriggerKindView::AfterTurn => "Runs after the assistant final response completes."@,
    }
}

/// How a trigger of kind `kind` is described in a loop's triggers panel.
fn trigger_description(kind: &LoopTriggerKind) -> (r: String)
    ensures
        r@ == trigger_kind_description(kind@),
{
    match kind {
        LoopTriggerKind::Timer { schedule } => concat2("Timer trigger · ", schedule.display()),
        LoopTriggerKind::Idle { after } => concat2("Idle trigger · ", after.display()),
        LoopTriggerKind::BeforeTurn => String::from_str("Runs before a main-thread user turn is submitted."),
        LoopTriggerKind::AfterTurn => String::from_str("Runs after the assistant final response completes."),
    }
}

/// The item of trigger `b`, named `name`, of loop `timer_id`: switched off
/// with the trigger, it opens the trigger's actions.
pub open spec fn binding_item(timer_id: String, b: LoopTriggerBinding, name: Seq<char>) -> SelectionItemView {
    SelectionItemView {
        is_disabled: !b.enabled,
        ..action_item(name, trigger_kind_description(b.kind@),
            AppEvent::OpenLoopTriggerBindingActions { timer_id, binding_id: b.id })
    }
}

/// The items of the triggers panel of `timer`, whose triggers are named
/// `names`: one that adds a trigger, then one per trigger, in order.
pub open spec fn triggers_panel_items(timer: LoopTimer, names: Seq<String>) -> Seq<SelectionItemView> {
    seq![action_item("Add Trigger"@, "Attach a timer, idle, before-turn, or after-turn trigger to this loop."@,
        AppEvent::OpenCreateLoopTriggerMenu { timer_id: timer.id })]
        + Seq::new(timer.trigger_bindings@.len(), |i: int| binding_item(timer.id, timer.trigger_bindings@[i], names[i]@))
}

/// The triggers panel of loop `timer`, which the loop settings call
/// `item_name` and whose triggers they call `binding_names`, in order;
/// closing it returns to the loop's actions.
pub fn loop_timer_triggers_panel_params(timer: &LoopTimer, item_name: &str, binding_names: &Vec<String>)
    -> (r: SelectionViewParams)
    requires
        binding_names.len() == timer.trigger_bindings.len(),
    ensures
        r@ == (SelectionViewParamsView {
            view_id: Some("fork-loop-trigger-bindings-panel"@),
            title: Some("Loop Manager"@),
            subtitle: Some("Triggers · "@ + item_name@),
            footer_hint: Some(PopupHint::Standard),
            items: triggers_panel_items(*timer, binding_names@),
            is_searchable: false,
            search_placeholder: None,
            initial_selected_idx: None,
            on_cancel: Some(AppEvent::OpenLoopTimerActions { timer_id: timer.id }),
        }),
{
    let mut items: Vec<SelectionItem> = Vec::new();
    let it = make_action_item("Add Trigger",
        String::from_str("Attach a timer, idle, before-turn, or after-turn trigger to this loop."),
        AppEvent::OpenCreateLoopTriggerMenu { timer_id: timer.id.clone() });
    proof { lemma_item_views_push(items@, it); }
    items.push(it);
    let ghost head = item_views(items@);
    let mut i: usize = 0;
    while i < timer.trigger_bindings.len()
        invariant
            i <= timer.trigger_bindings.len(),
            binding_names.len() == timer.trigger_bindings.len(),
            item_views(items@) == head + Seq::new(i as nat, |j: int| binding_item(timer.id, timer.trigger_bindings@[j], binding_names@[j]@)),
        decreases timer.trigger_bindings.len() - i,
    {
        let b = &timer.trigger_bindings[i];
        let mut it = make_action_item(binding_names[i].as_str(), trigger_description(&b.kind),
            AppEvent::OpenLoopTriggerBindingActions { timer_id: timer.id.clone(), binding_id: b.id.clone() });
        it.is_disabled = !b.enabled;
        proof {
            lemma_item_views_push(items@, it);
            assert(it@ == binding_item(timer.id, timer.trigger_bindings@[i as int], binding_names@[i as int]@));
            assert(head + Seq::new((i + 1) as nat, |j: int| binding_item(timer.id, timer.trigger_bindings@[j], binding_names@[j]@))
                =~= (head + Seq::new(i as nat, |j: int| binding_item(timer.id, timer.trigger_bindings@[j], binding_names@[j]@))).push(it@));
        }
        items.push(it);
        i = i + 1;
    }
    proof {
        assert(item_views(items@) =~= triggers_panel_items(*timer, binding_names@));
    }
    SelectionViewParams {
        view_id: Some(String::from_str("fork-loop-trigger-bindings-panel")),
        title: Some(String::from_str("Loop Manager")),
        subtitle: Some(concat2("Triggers · ", item_name)),
        footer_hint: Some(PopupHint::Standard),
        items,
        is_searchable: false,
        search_placeholder: None,
        initial_selected_idx: None,
        on_cancel: Some(AppEvent::OpenLoopTimerActions { timer_id: timer.id.clone() }),
    }
}

/// The items of the actions menu of the entry of trigger `binding_id` of
/// loop `loop_id` in the queue of `phase`: move it up, move it down, or open
/// the loop.
pub open spec fn queue_entry_items(phase: LoopTriggerPhase, loop_id: String, binding_id: String) -> Seq<SelectionItemView> {
    seq![
        action_item("Move Up"@, "Run this trigger earlier within the queue."@,
            AppEvent::MoveLoopTriggerQueueEntry { phase, loop_id, binding_id, move_up: true }),
        action_item("Move Down"@, "Run this trigger later within the queue."@,
            AppEvent::MoveLoopTriggerQueueEntry { phase, loop_id, binding_id, move_up: false }),
        action_item("Open Loop"@, "Jump back to this loop's configuration and triggers."@,
            AppEvent::OpenLoopTimerActions { timer_id: loop_id }),
    ]
}

/// What opening the actions of an entry of a trigger queue shows.
#[derive(Debug, PartialEq, Eq)]
pub enum LoopTriggerQueueEntryView {
    /// The loop or its trigger is gone: the queue of the phase.
    PhasePanel(LoopTriggerPhase),
    Show(SelectionViewParams),
}

impl App {
    /// The actions menu of the entry of trigger `binding_id` of loop
    /// `loop_id` in the queue of `phase`; the loop settings call the loop
    /// `loop_name` and the trigger `binding_name`. Closing it returns to the
    /// queue; a loop or trigger that is gone shows the queue instead.
    pub fn open_loop_trigger_queue_entry_actions(
        &self,
        phase: LoopTriggerPhase,
        loop_id: String,
        binding_id: String,
        loop_name: &str,
        binding_name: &str,
    ) -> (r: LoopTriggerQueueEntryView)
        requires
            self.wf(),
        ensures
            ({
                let s = self.loop_timers.timers@;
                if !has_timer(s, loop_id@) || binding_pos(timer_at(s, loop_id@).trigger_bindings, binding_id@) < 0 {
                    r == LoopTriggerQueueEntryView::PhasePanel(phase)
                } else {
                    &&& r is Show
                    &&& r->Show_0@ == (SelectionViewParamsView {
                        view_id: Some("fork-loop-trigger-actions-panel"@),
                        title: Some("Loop Manager"@),
                        subtitle: Some("Trigger Queue · "@ + loop_name@ + " / "@ + binding_name@),
                        footer_hint: Some(PopupHint::Standard),
                        items: queue_entry_items(phase, loop_id, binding_id),
                        is_searchable: false,
                        search_placeholder: None,
                        initial_selected_idx: None,
                        on_cancel: Some(AppEvent::OpenLoopTriggerQueuePhase { phase }),
                    })
                }
            }),
    {
        let t = match self.loop_timers.timers.get(loop_id.as_str()) {
            Some(t) => t,
            None => return LoopTriggerQueueEntryView::PhasePanel(phase),
        };
        let k = find_binding(&t.trigger_bindings, binding_id.as_str());
        if k >= t.trigger_bindings.len() {
            return LoopTriggerQueueEntryView::PhasePanel(phase);
        }
        let mut items: Vec<SelectionItem> = Vec::new();
        let it = make_action_item("Move Up", String::from_str("Run this trigger earlier within the queue."),
            AppEvent::MoveLoopTriggerQueueEntry { phase, loop_id: loop_id.clone(), binding_id: binding_id.clone(), move_up: true });
        proof { lemma_item_views_push(items@, it); }
        items.push(it);
        let it = make_action_item("Move Down", String::from_str("Run this trigger later within the queue."),
            AppEvent::MoveLoopTriggerQueueEntry { phase, loop_id: loop_id.clone(), binding_id: binding_id.clone(), move_up: false });
        proof { lemma_item_views_push(items@, it); }
        items.push(it);
        let it = make_action_item("Open Loop", String::from_str("Jump back to this loop's configuration and triggers."),
            AppEvent::OpenLoopTimerActions { timer_id: loop_id.clone() });
        proof { lemma_item_views_push(items@, it); }
        items.push(it);
        proof {
            assert(item_views(items@) =~= queue_entry_items(phase, loop_id, binding_id));
        }
        let head = concat3("Trigger Queue · ", loop_name, " / ");
        LoopTriggerQueueEntryView::Show(SelectionViewParams {
            view_id: Some(String::from_str("fork-loop-trigger-actions-panel")),
            title: Some(String::from_str("Loop Manager")),
            subtitle: Some(concat2(head.as_str(), binding_name)),
            footer_hint: Some(PopupHint::Standard),
            items,
            is_searchable: false,
            search_placeholder: None,
            initial_selected_idx: None,
            on_cancel: Some(AppEvent::OpenLoopTriggerQueuePhase { phase }),
        })
    }
}

} // verus!
