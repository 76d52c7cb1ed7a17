//! The loops that run at a phase of the main thread's work: which of a
//! phase's queued triggers run, what each loop gives back, and how a user
//! turn takes in what the before-turn loops gave.
use vstd::prelude::*;
use vstd::string::*;
use crate::after_turn::{AfterTurnLoopOutput, AfterTurnLoopUpdate, LoopReplySource};
use crate::loop_book::{
    binding_pos, binding_views, has_timer, timer_at, timer_views, LoopContextMode, LoopResponseMode, LoopTimer,
    LoopTimerBook, LoopTimerView, LoopTriggerKind, LoopTriggerKindView,
};
use crate::loop_editing::find_binding;
use crate::app::App;
use crate::text::{clone_opt_string, is_blank_seq, join_seq, join_strings, lemma_views_push, trim_str, views};

verus! {

/// The phase of the main thread's work that a trigger runs in.
#[derive(Debug, Clone, Copy, PartialEq, Eq, Structural)]
pub enum LoopTriggerPhase {
    Timer,
    Idle,
    BeforeTurn,
    AfterTurn,
}

/// The phase that triggers of kind `k` run in.
pub open spec fn kind_phase(k: LoopTriggerKindView) -> LoopTriggerPhase {
    match k {
        LoopTriggerKindView::Timer { .. } => LoopTriggerPhase::Timer,
        LoopTriggerKindView::Idle { .. } => LoopTriggerPhase::Idle,
        LoopTriggerKindView::BeforeTurn => LoopTriggerPhase::BeforeTurn,
        LoopTriggerKindView::AfterTurn => LoopTriggerPhase::AfterTurn,
    }
}

impl LoopTriggerKind {
    /// The phase that triggers of this kind run in.
    pub fn phase(&self) -> (r: LoopTriggerPhase)
        ensures
            r == kind_phase(self@),
    {
        match self {
            LoopTriggerKind::Timer { .. } => LoopTriggerPhase::Timer,
            LoopTriggerKind::Idle { .. } => LoopTriggerPhase::Idle,
            LoopTriggerKind::BeforeTurn => LoopTriggerPhase::BeforeTurn,
            LoopTriggerKind::AfterTurn => LoopTriggerPhase::AfterTurn,
        }
    }
}

/// One entry of a phase's trigger queue: a loop and one of its triggers.
#[derive(Debug, PartialEq, Eq)]
pub struct LoopTriggerQueueEntry {
    pub loop_id: String,
    pub binding_id: String,
}

/// Whether entry `e` runs in `phase`: its loop exists and is on, and the
/// loop's first trigger with the entry's id is on and of that phase.
pub open spec fn entry_runs(e: LoopTriggerQueueEntry, book: Seq<LoopTimerView>, phase: LoopTriggerPhase) -> bool {
    &&& has_timer(book, e.loop_id@)
    &&& {
        let t = timer_at(book, e.loop_id@);
        let k = binding_pos(t.trigger_bindings, e.binding_id@);
        &&& t.enabled
        &&& k >= 0
        &&& t.trigger_bindings[k].enabled
        &&& kind_phase(t.trigger_bindings[k].kind) == phase
    }
}

/// The loops that the queue `entries` runs in `phase`, in queue order.
pub open spec fn phase_timers(entries: Seq<LoopTriggerQueueEntry>, book: Seq<LoopTimerView>, phase: LoopTriggerPhase)
    -> Seq<LoopTimerView>
    decreases entries.len(),
{
    if entries.len() == 0 {
        Seq::empty()
    } else {
        let rest = phase_timers(entries.drop_last(), book, phase);
        if entry_runs(entries.last(), book, phase) {
            rest.push(timer_at(book, entries.last().loop_id@))
        } else {
            rest
        }
    }
}

/// The loops that the queue `entries` of `phase` runs, in queue order: an
/// entry whose loop or trigger is gone or off, or whose trigger belongs to
/// another phase, is passed over.
pub fn ordered_trigger_timers_for_phase(
    entries: &Vec<LoopTriggerQueueEntry>,
    timers: &LoopTimerBook,
    phase: LoopTriggerPhase,
) -> (r: Vec<LoopTimer>)
    requires
        timers.wf(),
    ensures
        timer_views(r@) == phase_timers(entries@, timers@, phase),
{
    let mut r: Vec<LoopTimer> = Vec::new();
    let mut i: usize = 0;
    while i < entries.len()
        invariant
            i <= entries.len(),
            timers.wf(),
            timer_views(r@) == phase_timers(entries@.take(i as int), timers@, phase),
        decreases entries.len() - i,
    {
        let e = &entries[i];
        proof {
            assert(entries@.take(i + 1).drop_last() =~= entries@.take(i as int));
            assert(entries@.take(i + 1).last() == *e);
        }
        match timers.get(e.loop_id.as_str()) {
            Some(t) => {
                let k = find_binding(&t.trigger_bindings, e.binding_id.as_str());
                proof {
                    if k < t.trigger_bindings.len() {
                        assert(binding_views(t.trigger_bindings@)[k as int] == t.trigger_bindings@[k as int]@);
                    }
                }
                if t.enabled && k < t.trigger_bindings.len() && t.trigger_bindings[k].enabled
                    && t.trigger_bindings[k].kind.phase() == phase {
                    let c = t.duplicate();
                    let ghost before = r@;
                    r.push(c);
                    proof {
                        assert(timer_views(r@) =~= timer_views(before).push(c@));
                    }
                }
            },
            None => {},
        }
        i = i + 1;
    }
    proof {
        assert(entries@.take(entries@.len() as int) =~= entries@);
    }
    r
}

/// A phase runs only loops that are on, each through a trigger of its own
/// that is on and belongs to that phase.
pub proof fn lemma_phase_runs_only_enabled_loops(entries: Seq<LoopTriggerQueueEntry>, book: Seq<LoopTimerView>, phase: LoopTriggerPhase)
    ensures
        forall|i: int| 0 <= i < phase_timers(entries, book, phase).len() ==> {
            let t = #[trigger] phase_timers(entries, book, phase)[i];
            &&& t.enabled
            &&& exists|k: int| 0 <= k < t.trigger_bindings.len() && #[trigger] t.trigger_bindings[k].enabled
                && kind_phase(t.trigger_bindings[k].kind) == phase
        },
    decreases entries.len(),
{
    if entries.len() > 0 {
        lemma_phase_runs_only_enabled_loops(entries.drop_last(), book, phase);
        let rest = phase_timers(entries.drop_last(), book, phase);
        let e = entries.last();
        if entry_runs(e, book, phase) {
            let t = timer_at(book, e.loop_id@);
            let k = binding_pos(t.trigger_bindings, e.binding_id@);
            crate::loop_book::lemma_binding_pos_in_range(t.trigger_bindings, e.binding_id@);
            assert(t.trigger_bindings[k].enabled);
            assert forall|i: int| 0 <= i < rest.push(t).len() implies {
                let u = #[trigger] rest.push(t)[i];
                &&& u.enabled
                &&& exists|k: int| 0 <= k < u.trigger_bindings.len() && #[trigger] u.trigger_bindings[k].enabled
                    && kind_phase(u.trigger_bindings[k].kind) == phase
            } by {
                if i < rest.len() {
                    assert(rest.push(t)[i] == rest[i]);
                }
            }
        }
    }
}

/// What one loop gave back to a phase of the main thread's turn.
#[derive(Debug, PartialEq, Eq)]
pub struct LoopHookOutput {
    pub loop_id: String,
    pub response_mode: LoopResponseMode,
    pub message: Option<String>,
    pub action: Option<String>,
}

/// The error a phase shows for a loop that failed.
pub open spec fn loop_failure_text(loop_id: Seq<char>, phase_title: Seq<char>, err: Seq<char>) -> Seq<char> {
    "Loop `"@ + loop_id + "` failed during "@ + phase_title + ": "@ + err
}

/// The error shown when loop `loop_id` failed during the phase called
/// `phase_title`.
pub fn loop_failure_message(loop_id: &str, phase_title: &str, err: &str) -> (r: String)
    ensures
        r@ == loop_failure_text(loop_id@, phase_title@, err@),
{
    let mut s = String::from_str("Loop `");
    s.append(loop_id);
    s.append("` failed during ");
    s.append(phase_title);
    s.append(": ");
    s.append(err);
    s
}

/// What an embedded loop gives a turn phase without running: its prompt, as
/// a user message; `None` for a loop that runs in a thread of its own.
pub fn embedded_hook_output(timer: &LoopTimer) -> (r: Option<LoopHookOutput>)
    ensures
        r is Some <==> timer.context_mode == LoopContextMode::Embed,
        r matches Some(o) ==> o == (LoopHookOutput {
            loop_id: timer.id,
            response_mode: LoopResponseMode::User,
            message: Some(timer.prompt),
            action: timer.action,
        }),
{
    match timer.context_mode {
        LoopContextMode::Embed => Some(LoopHookOutput {
            loop_id: timer.id.clone(),
            response_mode: LoopResponseMode::User,
            message: Some(timer.prompt.clone()),
            action: clone_opt_string(&timer.action),
        }),
        _ => None,
    }
}

/// What a loop that ran in a thread of its own gives a turn phase: the reply
/// `result` brought, answered in the loop's response mode, or the error to
/// show when it failed during the phase called `phase_title`.
pub fn hook_run_output(timer: &LoopTimer, result: Result<Option<String>, String>, phase_title: &str)
    -> (r: Result<LoopHookOutput, String>)
    ensures
        match result {
            Ok(message) => r == Ok::<LoopHookOutput, String>(LoopHookOutput {
                loop_id: timer.id,
                response_mode: timer.response_mode,
                message,
                action: timer.action,
            }),
            Err(e) => r is Err && r->Err_0@ == loop_failure_text(timer.id@, phase_title@, e@),
        },
{
    match result {
        Ok(message) => Ok(LoopHookOutput {
            loop_id: timer.id.clone(),
            response_mode: timer.response_mode,
            message,
            action: clone_opt_string(&timer.action),
        }),
        Err(e) => Err(loop_failure_message(timer.id.as_str(), phase_title, e.as_str())),
    }
}

/// What running a loop in a thread of its own brought back: its reply, the
/// thread it keeps, and when it completed.
#[derive(Debug, PartialEq, Eq)]
pub struct InlineLoopRun {
    pub message: Option<String>,
    pub rollout_path: Option<String>,
    pub last_completed_at_unix_seconds: Option<i64>,
}

/// What an embedded loop gives an after-turn round without running: its
/// prompt, as a user message, with nothing of the loop to update; `None` for
/// a loop that runs in a thread of its own.
pub fn embedded_after_turn_output(timer: &LoopTimer) -> (r: Option<AfterTurnLoopOutput>)
    ensures
        r is Some <==> timer.context_mode == LoopContextMode::Embed,
        r matches Some(o) ==> o == (AfterTurnLoopOutput {
            loop_id: timer.id,
            response_mode: LoopResponseMode::User,
            message: Some(timer.prompt),
            action: timer.action,
            update: AfterTurnLoopUpdate { loop_id: timer.id, rollout_path: None, last_completed_at_unix_seconds: None },
        }),
{
    match timer.context_mode {
        LoopContextMode::Embed => Some(AfterTurnLoopOutput {
            loop_id: timer.id.clone(),
            response_mode: LoopResponseMode::User,
            message: Some(timer.prompt.clone()),
            action: clone_opt_string(&timer.action),
            update: AfterTurnLoopUpdate {
                loop_id: timer.id.clone(),
                rollout_path: None,
                last_completed_at_unix_seconds: None,
            },
        }),
        _ => None,
    }
}

/// What a loop that ran in a thread of its own gives an after-turn round:
/// its reply in the loop's response mode, with the thread it keeps and when
/// it completed, or the error to show when it failed during the phase called
/// `phase_title`.
pub fn after_turn_run_output(timer: &LoopTimer, result: Result<InlineLoopRun, String>, phase_title: &str)
    -> (r: Result<AfterTurnLoopOutput, String>)
    ensures
        match result {
            Ok(run) => r == Ok::<AfterTurnLoopOutput, String>(AfterTurnLoopOutput {
                loop_id: timer.id,
                response_mode: timer.response_mode,
                message: run.message,
                action: timer.action,
                update: AfterTurnLoopUpdate {
                    loop_id: timer.id,
                    rollout_path: run.rollout_path,
                    last_completed_at_unix_seconds: run.last_completed_at_unix_seconds,
                },
            }),
            Err(e) => r is Err && r->Err_0@ == loop_failure_text(timer.id@, phase_title@, e@),
        },
{
    match result {
        Ok(run) => Ok(AfterTurnLoopOutput {
            loop_id: timer.id.clone(),
            response_mode: timer.response_mode,
            message: run.message,
            action: clone_opt_string(&timer.action),
            update: AfterTurnLoopUpdate {
                loop_id: timer.id.clone(),
                rollout_path: run.rollout_path,
                last_completed_at_unix_seconds: run.last_completed_at_unix_seconds,
            },
        }),
        Err(e) => Err(loop_failure_message(timer.id.as_str(), phase_title, e.as_str())),
    }
}

/// An item of a user turn as the loops read it: the text of a text item.
#[derive(Debug, PartialEq, Eq)]
pub enum UserInputItem {
    Text { text: String },
    Other,
}

/// The texts of the text items of `items`, in order.
pub open spec fn input_texts(items: Seq<UserInputItem>) -> Seq<Seq<char>>
    decreases items.len(),
{
    if items.len() == 0 {
        Seq::empty()
    } else {
        let rest = input_texts(items.drop_last());
        match items.last() {
            UserInputItem::Text { text } => rest.push(text@),
            UserInputItem::Other => rest,
        }
    }
}

/// The text of a user turn: its text items, a blank line between each two.
pub fn user_text_from_inputs(items: &Vec<UserInputItem>) -> (r: String)
    ensures
        r@ == join_seq(input_texts(items@), "\n\n"@),
{
    let mut texts: Vec<String> = Vec::new();
    let mut i: usize = 0;
    while i < items.len()
        invariant
            i <= items.len(),
            views(texts@) == input_texts(items@.take(i as int)),
        decreases items.len() - i,
    {
        proof {
            assert(items@.take(i + 1).drop_last() =~= items@.take(i as int));
            assert(items@.take(i + 1).last() == items@[i as int]);
        }
        match &items[i] {
            UserInputItem::Text { text } => {
                let t = text.clone();
                proof { lemma_views_push(texts@, t); }
                texts.push(t);
            },
            UserInputItem::Other => {},
        }
        i = i + 1;
    }
    proof {
        assert(items@.take(items@.len() as int) =~= items@);
    }
    join_strings(texts.as_slice(), "\n\n")
}

impl App {
    /// The text that the main thread's before-turn loops run on for a user
    /// turn of `items` while `active_thread_id` is shown: none when there is
    /// no main thread, when another thread is shown, or when the turn's text
    /// is blank.
    pub fn before_turn_loop_input(&self, active_thread_id: Option<&str>, items: &Vec<UserInputItem>) -> (r: Option<String>)
        ensures
            r is Some <==> ({
                &&& self.primary_thread_id is Some
                &&& active_thread_id is Some
                &&& active_thread_id->0@ == self.primary_thread_id->0@
                &&& !is_blank_seq(join_seq(input_texts(items@), "\n\n"@))
            }),
            r matches Some(text) ==> text@ == join_seq(input_texts(items@), "\n\n"@),
    {
        let primary = match &self.primary_thread_id {
            Some(p) => p,
            None => return None,
        };
        let active = match active_thread_id {
            Some(a) => a,
            None => return None,
        };
        if !crate::text::str_eq(active, primary.as_str()) {
            return None;
        }
        let text = user_text_from_inputs(items);
        if trim_str(text.as_str()).unicode_len() == 0 {
            return None;
        }
        Some(text)
    }
}

/// A history entry that the before-turn loops add to the main thread.
#[derive(Debug, PartialEq, Eq)]
pub enum BeforeTurnCell {
    /// The mark of a loop reply.
    LoopInfo(LoopReplySource),
    /// A loop's reply, shown as the assistant's.
    AssistantMessage(String),
}

/// The history entries that output `o` adds: none without a reply; else the
/// mark of its loop, followed by the reply where it is the assistant's.
pub open spec fn output_cells(o: LoopHookOutput) -> Seq<BeforeTurnCell> {
    match o.message {
        None => Seq::empty(),
        Some(m) => {
            let source = LoopReplySource { loop_id: o.loop_id, action: o.action };
            match o.response_mode {
                LoopResponseMode::Assistant => seq![BeforeTurnCell::LoopInfo(source), BeforeTurnCell::AssistantMessage(m)],
                LoopResponseMode::User => seq![BeforeTurnCell::LoopInfo(source)],
            }
        },
    }
}

/// The text that output `o` adds to the user turn: its reply, where it is
/// the user's.
pub open spec fn output_texts(o: LoopHookOutput) -> Seq<String> {
    match o.message {
        Some(m) => match o.response_mode {
            LoopResponseMode::User => seq![m],
            LoopResponseMode::Assistant => Seq::empty(),
        },
        None => Seq::empty(),
    }
}

/// The history entries of `outputs`, in order.
pub open spec fn before_turn_cells(outputs: Seq<LoopHookOutput>) -> Seq<BeforeTurnCell>
    decreases outputs.len(),
{
    if outputs.len() == 0 {
        Seq::empty()
    } else {
        before_turn_cells(outputs.drop_last()) + output_cells(outputs.last())
    }
}

/// The texts that `outputs` add to the user turn, in order.
pub open spec fn before_turn_texts(outputs: Seq<LoopHookOutput>) -> Seq<String>
    decreases outputs.len(),
{
    if outputs.len() == 0 {
        Seq::empty()
    } else {
        before_turn_texts(outputs.drop_last()) + output_texts(outputs.last())
    }
}

/// The text item of `text`.
pub open spec fn text_item(text: String) -> UserInputItem {
    UserInputItem::Text { text }
}

/// A user turn of `items` after its before-turn loops gave `outputs`: the
/// replies meant for the user follow the turn's own items, in order, and the
/// history entries to add to the main thread, in order.
pub fn augment_primary_user_turn_with_before_turn_loops(items: Vec<UserInputItem>, outputs: &Vec<LoopHookOutput>)
    -> (r: (Vec<UserInputItem>, Vec<BeforeTurnCell>))
    ensures
        r.0@ == items@ + before_turn_texts(outputs@).map_values(|t: String| text_item(t)),
        r.1@ == before_turn_cells(outputs@),
{
    let mut items = items;
    let ghost start = items@;
    let mut cells: Vec<BeforeTurnCell> = Vec::new();
    let mut i: usize = 0;
    while i < outputs.len()
        invariant
            i <= outputs.len(),
            items@ == start + before_turn_texts(outputs@.take(i as int)).map_values(|t: String| text_item(t)),
            cells@ == before_turn_cells(outputs@.take(i as int)),
        decreases outputs.len() - i,
    {
        let ghost pre = outputs@.take(i as int);
        let ghost o = outputs@[i as int];
        proof {
            assert(outputs@.take(i + 1).drop_last() =~= pre);
            assert(outputs@.take(i + 1).last() == o);
        }
        let ghost items_before = items@;
        let ghost cells_before = cells@;
        let out = &outputs[i];
        match &out.message {
            Some(m) => {
                let source = LoopReplySource::new(out.loop_id.clone(), clone_opt_string(&out.action));
                cells.push(BeforeTurnCell::LoopInfo(source));
                match out.response_mode {
                    LoopResponseMode::Assistant => {
                        cells.push(BeforeTurnCell::AssistantMessage(m.clone()));
                    },
                    LoopResponseMode::User => {
                        items.push(UserInputItem::Text { text: m.clone() });
                    },
                }
            },
            None => {},
        }
        proof {
            assert(cells@ =~= cells_before + output_cells(o));
            assert(before_turn_texts(outputs@.take(i + 1)) == before_turn_texts(pre) + output_texts(o));
            assert((before_turn_texts(pre) + output_texts(o)).map_values(|t: String| text_item(t))
                =~= before_turn_texts(pre).map_values(|t: String| text_item(t)) + output_texts(o).map_values(|t: String| text_item(t)));
            assert(items@ =~= items_before + output_texts(o).map_values(|t: String| text_item(t)));
        }
        i = i + 1;
    }
    proof {
        assert(outputs@.take(outputs@.len() as int) =~= outputs@);
    }
    (items, cells)
}

} // verus!
