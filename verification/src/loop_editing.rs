//! The edits that the loop panels make to the workspace's loop timers.
use vstd::prelude::*;
use vstd::string::*;
use crate::app::App;
use crate::loop_book::{
    binding_pos, binding_views, has_timer, ids_unique, lemma_binding_pos, lemma_replace_keeps_ids,
    lemma_timer_pos, primary_scheduled_trigger, primary_scheduled_trigger_spec, put_timer, timer_at,
    timer_pos, without_binding, LoopContextMode, LoopExecutionSettings, LoopExecutionSettingsView,
    LoopMode, LoopResponseMode, LoopSchedule, LoopScheduleView, LoopSecurityMode, LoopTimer,
    LoopTimerView, LoopTriggerBinding, LoopTriggerBindingView, LoopTriggerKind, LoopTriggerKindView,
};
use crate::loop_timers::{
    has_prefix, loop_timer_trigger_plan, loop_turn_result, loop_turn_result_spec, trigger_plan_spec,
    LoopTimerTriggerPlan,
};
use crate::after_turn::{
    AfterTurnLoopOutput, AfterTurnRoundResult, AfterTurnSchedulerView, LoopMirroredUserTurn,
    LoopReplySource,
};
use crate::text::{concat2, copy_opt_string, opt_view, trim_seq, trim_str, views};

verus! {

/// What an edit of a loop timer came to.
#[derive(Debug, PartialEq, Eq)]
pub enum LoopEdit {
    /// No timer has the id: nothing changed. The timers panel follows,
    /// after `loop_timer_missing_message` where the edit came from one of
    /// the timer's editors or menus.
    TimerMissing,
    /// The timer has no binding with the id: its triggers panel is shown again.
    BindingMissing,
    /// The input was refused with this message; nothing changed.
    Refused { message: String },
    /// The timer was changed, to be saved.
    Saved,
}

/// The error shown when an edited timer is gone.
pub open spec fn timer_missing_message() -> Seq<char> {
    "That loop timer no longer exists."@
}

/// The error shown when an edited timer is gone.
pub fn loop_timer_missing_message() -> (r: String)
    ensures
        r@ == timer_missing_message(),
{
    String::from_str("That loop timer no longer exists.")
}

/// The error shown when a loop whose triggers are being changed is gone.
pub fn loop_missing_message() -> (r: String)
    ensures
        r@ == "That loop no longer exists."@,
{
    String::from_str("That loop no longer exists.")
}

/// The timers `s` with the timer `id` replaced by `t`.
pub open spec fn replace_timer(s: Seq<LoopTimerView>, id: Seq<char>, t: LoopTimerView) -> Seq<LoopTimerView> {
    s.update(timer_pos(s, id), t)
}

/// `b` is `a` but for its loop timers.
pub open spec fn only_timers_differ(a: App, b: App) -> bool {
    &&& b.primary_thread_id == a.primary_thread_id
    &&& b.workflow_scheduler == a.workflow_scheduler
    &&& b.loop_timers.scheduler_tasks == a.loop_timers.scheduler_tasks
    &&& b.loop_timers.idle_scheduler_tasks == a.loop_timers.idle_scheduler_tasks
    &&& b.loop_timers.idle_due_at == a.loop_timers.idle_due_at
    &&& b.loop_timers.after_turn_scheduler == a.loop_timers.after_turn_scheduler
    &&& b.loop_timers.active_runs == a.loop_timers.active_runs
}

/// What an edit that only needs the timer to exist leaves behind: nothing
/// changed where it is missing, else the timer `id` replaced by `edited`.
pub open spec fn edited_timers(
    old_app: App,
    new_app: App,
    id: Seq<char>,
    r: LoopEdit,
    edited: LoopTimerView,
) -> bool {
    let s = old_app.loop_timers.timers@;
    &&& only_timers_differ(old_app, new_app)
    &&& match r {
        LoopEdit::TimerMissing => !has_timer(s, id) && new_app.loop_timers.timers@ == s,
        LoopEdit::Saved => has_timer(s, id) && new_app.loop_timers.timers@ == replace_timer(s, id, edited),
        _ => false,
    }
}

/// What changing the kind of binding `binding_id` of timer `id` to `kind`,
/// and the timer's schedule to `schedule`, leaves behind.
pub open spec fn binding_edit(
    s: Seq<LoopTimerView>,
    s2: Seq<LoopTimerView>,
    id: Seq<char>,
    binding_id: Seq<char>,
    r: LoopEdit,
    kind: LoopTriggerKindView,
    schedule: LoopScheduleView,
) -> bool {
    let t = timer_at(s, id);
    let k = binding_pos(t.trigger_bindings, binding_id);
    match r {
        LoopEdit::TimerMissing => !has_timer(s, id) && s2 == s,
        LoopEdit::BindingMissing => has_timer(s, id) && k < 0 && s2 == s,
        LoopEdit::Saved => has_timer(s, id) && k >= 0 && s2 == replace_timer(
            s,
            id,
            LoopTimerView {
                trigger_bindings: t.trigger_bindings.update(k, LoopTriggerBindingView { kind, ..t.trigger_bindings[k] }),
                schedule,
                ..t
            },
        ),
        _ => false,
    }
}

/// The position of the first of `bindings` with the id `id`, or their
/// number when none has it.
pub(crate) fn find_binding(bindings: &Vec<LoopTriggerBinding>, id: &str) -> (k: usize)
    ensures
        k <= bindings@.len(),
        binding_pos(binding_views(bindings@), id@) == (if k < bindings@.len() {
            k as int
        } else {
            -1
        }),
{
    let ghost bs = binding_views(bindings@);
    let mut k: usize = 0;
    while k < bindings.len()
        invariant
            bs == binding_views(bindings@),
            k <= bs.len(),
            forall|j: int| 0 <= j < k ==> #[trigger] bs[j].id != id@,
        ensures
            k <= bs.len(),
            k < bs.len() ==> bs[k as int].id == id@,
        decreases bs.len() - k,
    {
        proof {
            assert(bs[k as int] == bindings@[k as int]@);
        }
        if crate::text::str_eq(bindings[k].id.as_str(), id) {
            break;
        }
        k = k + 1;
    }
    proof {
        lemma_binding_pos(bs, id@, k as int);
    }
    k
}

/// A trimmed copy of `s`.
fn trimmed(s: &str) -> (r: String)
    ensures
        r@ == trim_seq(s@),
{
    String::from_str(trim_str(s))
}

impl App {
    /// Takes out the loop timer at `i`, for `restore_loop_timer` to put back.
    fn take_loop_timer(&mut self, i: usize) -> (t: LoopTimer)
        requires
            old(self).wf(),
            i < old(self).loop_timers.timers@.len(),
        ensures
            final(self).wf(),
            only_timers_differ(*old(self), *final(self)),
            t@ == old(self).loop_timers.timers@[i as int],
            final(self).loop_timers.timers@ == old(self).loop_timers.timers@.remove(i as int),
            !has_timer(final(self).loop_timers.timers@, t@.id),
    {
        self.loop_timers.timers.take(i)
    }

    /// Puts the loop timer `t` back at `i`.
    fn restore_loop_timer(&mut self, i: usize, t: LoopTimer)
        requires
            old(self).wf(),
            i <= old(self).loop_timers.timers@.len(),
            !has_timer(old(self).loop_timers.timers@, t@.id),
        ensures
            final(self).wf(),
            only_timers_differ(*old(self), *final(self)),
            final(self).loop_timers.timers@ == old(self).loop_timers.timers@.insert(i as int, t@),
    {
        self.loop_timers.timers.restore(i, t)
    }

    /// Replaces the prompt of loop timer `timer_id` by `prompt`, trimmed;
    /// an empty prompt is refused. The timer's actions follow.
    pub fn save_loop_timer_prompt(&mut self, timer_id: &str, prompt: String) -> (r: LoopEdit)
        requires
            old(self).wf(),
        ensures
            final(self).wf(),
            trim_seq(prompt@).len() == 0 ==> (r matches LoopEdit::Refused { message }
                && message@ == "Loop prompt cannot be empty."@) && *final(self) == *old(self),
            trim_seq(prompt@).len() > 0 ==> edited_timers(*old(self), *final(self), timer_id@, r,
                LoopTimerView { prompt: trim_seq(prompt@), ..timer_at(old(self).loop_timers.timers@, timer_id@) }),
    {
        let prompt = trimmed(prompt.as_str());
        if prompt.unicode_len() == 0 {
            return LoopEdit::Refused { message: String::from_str("Loop prompt cannot be empty.") };
        }
        match self.loop_timers.timers.position(timer_id) {
            None => LoopEdit::TimerMissing,
            Some(i) => {
                let mut t = self.take_loop_timer(i);
                t.prompt = prompt;
                self.restore_loop_timer(i, t);
                proof {
                    assert(self.loop_timers.timers@ =~= old(self).loop_timers.timers@.update(i as int, t@));
                }
                LoopEdit::Saved
            },
        }
    }

    /// Replaces the action text of loop timer `timer_id` by `action`,
    /// trimmed; a blank action removes it. The timer's actions follow.
    pub fn save_loop_timer_action(&mut self, timer_id: &str, action: String) -> (r: LoopEdit)
        requires
            old(self).wf(),
        ensures
            final(self).wf(),
            edited_timers(*old(self), *final(self), timer_id@, r, LoopTimerView {
                action: if trim_seq(action@).len() > 0 {
                    Some(trim_seq(action@))
                } else {
                    None
                },
                ..timer_at(old(self).loop_timers.timers@, timer_id@)
            }),
    {
        match self.loop_timers.timers.position(timer_id) {
            None => LoopEdit::TimerMissing,
            Some(i) => {
                let mut t = self.take_loop_timer(i);
                let action = trimmed(action.as_str());
                t.action = if action.unicode_len() > 0 {
                    Some(action)
                } else {
                    None
                };
                self.restore_loop_timer(i, t);
                proof {
                    assert(self.loop_timers.timers@ =~= old(self).loop_timers.timers@.update(i as int, t@));
                }
                LoopEdit::Saved
            },
        }
    }

    /// Sets where loop timer `timer_id` runs; an embedded loop answers as
    /// the assistant. The timer's actions follow.
    pub fn save_loop_timer_context_mode(&mut self, timer_id: &str, context_mode: LoopContextMode) -> (r: LoopEdit)
        requires
            old(self).wf(),
        ensures
            final(self).wf(),
            edited_timers(*old(self), *final(self), timer_id@, r, LoopTimerView {
                context_mode,
                response_mode: if context_mode == LoopContextMode::Embed {
                    LoopResponseMode::Assistant
                } else {
                    timer_at(old(self).loop_timers.timers@, timer_id@).response_mode
                },
                ..timer_at(old(self).loop_timers.timers@, timer_id@)
            }),
    {
        match self.loop_timers.timers.position(timer_id) {
            None => LoopEdit::TimerMissing,
            Some(i) => {
                let mut t = self.take_loop_timer(i);
                t.context_mode = context_mode;
                if context_mode == LoopContextMode::Embed {
                    t.response_mode = LoopResponseMode::Assistant;
                }
                self.restore_loop_timer(i, t);
                proof {
                    assert(self.loop_timers.timers@ =~= old(self).loop_timers.timers@.update(i as int, t@));
                }
                LoopEdit::Saved
            },
        }
    }

    /// Sets how loop timer `timer_id` answers; an embedded loop keeps
    /// answering as the assistant. The timer's actions follow.
    pub fn save_loop_timer_response_mode(&mut self, timer_id: &str, response_mode: LoopResponseMode) -> (r: LoopEdit)
        requires
            old(self).wf(),
        ensures
            final(self).wf(),
            edited_timers(*old(self), *final(self), timer_id@, r, LoopTimerView {
                response_mode: if timer_at(old(self).loop_timers.timers@, timer_id@).context_mode == LoopContextMode::Embed {
                    LoopResponseMode::Assistant
                } else {
                    response_mode
                },
                ..timer_at(old(self).loop_timers.timers@, timer_id@)
            }),
    {
        match self.loop_timers.timers.position(timer_id) {
            None => LoopEdit::TimerMissing,
            Some(i) => {
                let mut t = self.take_loop_timer(i);
                t.response_mode = if t.context_mode == LoopContextMode::Embed {
                    LoopResponseMode::Assistant
                } else {
                    response_mode
                };
                self.restore_loop_timer(i, t);
                proof {
                    assert(self.loop_timers.timers@ =~= old(self).loop_timers.timers@.update(i as int, t@));
                }
                LoopEdit::Saved
            },
        }
    }

    /// Sets where loop timer `timer_id` may write. The timer's actions follow.
    pub fn save_loop_timer_security_mode(&mut self, timer_id: &str, security_mode: LoopSecurityMode) -> (r: LoopEdit)
        requires
            old(self).wf(),
        ensures
            final(self).wf(),
            edited_timers(*old(self), *final(self), timer_id@, r, LoopTimerView {
                security_mode,
                ..timer_at(old(self).loop_timers.timers@, timer_id@)
            }),
    {
        match self.loop_timers.timers.position(timer_id) {
            None => LoopEdit::TimerMissing,
            Some(i) => {
                let mut t = self.take_loop_timer(i);
                t.security_mode = security_mode;
                self.restore_loop_timer(i, t);
                proof {
                    assert(self.loop_timers.timers@ =~= old(self).loop_timers.timers@.update(i as int, t@));
                }
                LoopEdit::Saved
            },
        }
    }

    /// Sets the writable directories of loop timer `timer_id` to `parsed`,
    /// the directories the editor's text gave; a text that did not parse is
    /// refused with its error. The execution panel follows.
    pub fn save_loop_writable_roots(&mut self, timer_id: &str, parsed: Result<Vec<String>, String>) -> (r: LoopEdit)
        requires
            old(self).wf(),
        ensures
            final(self).wf(),
            match parsed {
                Err(e) => (r matches LoopEdit::Refused { message }
                    && message@ == "Failed to update `/loop` writable directories: "@ + e@) && *final(self) == *old(self),
                Ok(roots) => edited_timers(*old(self), *final(self), timer_id@, r, LoopTimerView {
                    execution: crate::loop_book::LoopExecutionSettingsView {
                        writable_roots: views(roots@),
                        ..timer_at(old(self).loop_timers.timers@, timer_id@).execution
                    },
                    ..timer_at(old(self).loop_timers.timers@, timer_id@)
                }),
            },
    {
        let roots = match parsed {
            Err(e) => {
                return LoopEdit::Refused { message: concat2("Failed to update `/loop` writable directories: ", e.as_str()) };
            },
            Ok(roots) => roots,
        };
        match self.loop_timers.timers.position(timer_id) {
            None => LoopEdit::TimerMissing,
            Some(i) => {
                let mut t = self.take_loop_timer(i);
                t.execution.writable_roots = roots;
                self.restore_loop_timer(i, t);
                proof {
                    assert(self.loop_timers.timers@ =~= old(self).loop_timers.timers@.update(i as int, t@));
                }
                LoopEdit::Saved
            },
        }
    }

    /// Sets the working directory of loop timer `timer_id` to `parsed`,
    /// the directory the editor's text gave; a text that did not parse is
    /// refused with its error. The execution panel follows.
    pub fn save_loop_timer_cwd(&mut self, timer_id: &str, parsed: Result<String, String>) -> (r: LoopEdit)
        requires
            old(self).wf(),
        ensures
            final(self).wf(),
            match parsed {
                Err(e) => (r matches LoopEdit::Refused { message }
                    && message@ == "Failed to update `/loop` working directory: "@ + e@) && *final(self) == *old(self),
                Ok(cwd) => edited_timers(*old(self), *final(self), timer_id@, r, LoopTimerView {
                    execution: crate::loop_book::LoopExecutionSettingsView {
                        cwd: Some(cwd@),
                        ..timer_at(old(self).loop_timers.timers@, timer_id@).execution
                    },
                    ..timer_at(old(self).loop_timers.timers@, timer_id@)
                }),
            },
    {
        let cwd = match parsed {
            Err(e) => {
                return LoopEdit::Refused { message: concat2("Failed to update `/loop` working directory: ", e.as_str()) };
            },
            Ok(cwd) => cwd,
        };
        match self.loop_timers.timers.position(timer_id) {
            None => LoopEdit::TimerMissing,
            Some(i) => {
                let mut t = self.take_loop_timer(i);
                t.execution.cwd = Some(cwd);
                self.restore_loop_timer(i, t);
                proof {
                    assert(self.loop_timers.timers@ =~= old(self).loop_timers.timers@.update(i as int, t@));
                }
                LoopEdit::Saved
            },
        }
    }

    /// Drops the working directory of loop timer `timer_id`, which then runs
    /// where the workspace does. The execution panel follows.
    pub fn reset_loop_timer_cwd(&mut self, timer_id: &str) -> (r: LoopEdit)
        requires
            old(self).wf(),
        ensures
            final(self).wf(),
            edited_timers(*old(self), *final(self), timer_id@, r, LoopTimerView {
                execution: crate::loop_book::LoopExecutionSettingsView {
                    cwd: None,
                    ..timer_at(old(self).loop_timers.timers@, timer_id@).execution
                },
                ..timer_at(old(self).loop_timers.timers@, timer_id@)
            }),
    {
        match self.loop_timers.timers.position(timer_id) {
            None => LoopEdit::TimerMissing,
            Some(i) => {
                let mut t = self.take_loop_timer(i);
                t.execution.cwd = None;
                self.restore_loop_timer(i, t);
                proof {
                    assert(self.loop_timers.timers@ =~= old(self).loop_timers.timers@.update(i as int, t@));
                }
                LoopEdit::Saved
            },
        }
    }

    /// Drops every writable directory of loop timer `timer_id`. The
    /// execution panel follows.
    pub fn reset_loop_writable_roots(&mut self, timer_id: &str) -> (r: LoopEdit)
        requires
            old(self).wf(),
        ensures
            final(self).wf(),
            edited_timers(*old(self), *final(self), timer_id@, r, LoopTimerView {
                execution: crate::loop_book::LoopExecutionSettingsView {
                    writable_roots: Seq::empty(),
                    ..timer_at(old(self).loop_timers.timers@, timer_id@).execution
                },
                ..timer_at(old(self).loop_timers.timers@, timer_id@)
            }),
    {
        match self.loop_timers.timers.position(timer_id) {
            None => LoopEdit::TimerMissing,
            Some(i) => {
                let mut t = self.take_loop_timer(i);
                t.execution.writable_roots.clear();
                self.restore_loop_timer(i, t);
                proof {
                    assert(views(t.execution.writable_roots@) =~= Seq::<Seq<char>>::empty());
                    assert(self.loop_timers.timers@ =~= old(self).loop_timers.timers@.update(i as int, t@));
                }
                LoopEdit::Saved
            },
        }
    }

    /// The text that the prompt editor of loop timer `timer_id` opens with:
    /// its prompt; `None` when the timer is gone.
    pub fn open_loop_timer_prompt_editor(&self, timer_id: &str) -> (r: Option<String>)
        requires
            self.wf(),
        ensures
            opt_view(r) == (if has_timer(self.loop_timers.timers@, timer_id@) {
                Some(timer_at(self.loop_timers.timers@, timer_id@).prompt)
            } else {
                None
            }),
    {
        match self.loop_timers.timers.get(timer_id) {
            Some(t) => Some(t.prompt.clone()),
            None => None,
        }
    }

    /// The text that the action editor of loop timer `timer_id` opens with:
    /// its action, or nothing; `None` when the timer is gone.
    pub fn open_loop_timer_action_editor(&self, timer_id: &str) -> (r: Option<String>)
        requires
            self.wf(),
        ensures
            opt_view(r) == (if has_timer(self.loop_timers.timers@, timer_id@) {
                Some(match timer_at(self.loop_timers.timers@, timer_id@).action {
                    Some(a) => a,
                    None => Seq::empty(),
                })
            } else {
                None
            }),
    {
        match self.loop_timers.timers.get(timer_id) {
            Some(t) => match &t.action {
                Some(a) => Some(a.clone()),
                None => {
                    let e = String::new();
                    proof {
                        assert(e@ =~= Seq::<char>::empty());
                    }
                    Some(e)
                },
            },
            None => None,
        }
    }

    /// Adds a trigger of kind `kind` to loop timer `timer_id`, switched on,
    /// with the id `new_binding_id`; a loop that already has a trigger of
    /// that kind is refused.
    fn attach_loop_trigger(&mut self, timer_id: &str, kind: LoopTriggerKind, new_binding_id: String) -> (r: LoopEdit)
        requires
            old(self).wf(),
        ensures
            final(self).wf(),
            only_timers_differ(*old(self), *final(self)),
            ({
                let s = old(self).loop_timers.timers@;
                let t = timer_at(s, timer_id@);
                let taken = exists|j: int| 0 <= j < t.trigger_bindings.len() && #[trigger] t.trigger_bindings[j].kind == kind@;
                if !has_timer(s, timer_id@) {
                    r == LoopEdit::TimerMissing && final(self).loop_timers.timers@ == s
                } else if taken {
                    &&& r is Refused
                    &&& r->message@ == "That trigger already exists for this loop."@
                    &&& final(self).loop_timers.timers@ == s
                } else {
                    &&& r == LoopEdit::Saved
                    &&& final(self).loop_timers.timers@ == replace_timer(s, timer_id@, LoopTimerView {
                        trigger_bindings: t.trigger_bindings.push(
                            LoopTriggerBindingView { id: new_binding_id@, enabled: true, kind: kind@ },
                        ),
                        ..t
                    })
                }
            }),
    {
        let i = match self.loop_timers.timers.position(timer_id) {
            None => {
                return LoopEdit::TimerMissing;
            },
            Some(i) => i,
        };
        let ghost bs = self.loop_timers.timers@[i as int].trigger_bindings;
        let mut t = self.take_loop_timer(i);
        let mut k: usize = 0;
        let mut taken = false;
        while k < t.trigger_bindings.len()
            invariant_except_break
                !taken,
            invariant
                bs == binding_views(t.trigger_bindings@),
                k <= bs.len(),
                forall|j: int| 0 <= j < k ==> #[trigger] bs[j].kind != kind@,
            ensures
                taken ==> k < bs.len() && bs[k as int].kind == kind@,
                !taken ==> forall|j: int| 0 <= j < bs.len() ==> #[trigger] bs[j].kind != kind@,
            decreases bs.len() - k,
        {
            proof {
                assert(bs[k as int] == t.trigger_bindings@[k as int]@);
            }
            if t.trigger_bindings[k].kind.same_as(&kind) {
                taken = true;
                break;
            }
            k = k + 1;
        }
        if taken {
            self.restore_loop_timer(i, t);
            proof {
                assert(self.loop_timers.timers@ =~= old(self).loop_timers.timers@);
            }
            return LoopEdit::Refused { message: String::from_str("That trigger already exists for this loop.") };
        }
        let b = LoopTriggerBinding { id: new_binding_id, enabled: true, kind };
        let ghost bv = b@;
        t.trigger_bindings.push(b);
        proof {
            assert(binding_views(t.trigger_bindings@) =~= bs.push(bv));
        }
        self.restore_loop_timer(i, t);
        proof {
            assert(self.loop_timers.timers@ =~= old(self).loop_timers.timers@.update(i as int, t@));
        }
        LoopEdit::Saved
    }

    /// Switches the binding `binding_id` of loop timer `timer_id` on or off
    /// (the first binding with that id).
    fn switch_loop_trigger_binding(&mut self, timer_id: &str, binding_id: &str, enabled: bool) -> (r: LoopEdit)
        requires
            old(self).wf(),
        ensures
            final(self).wf(),
            only_timers_differ(*old(self), *final(self)),
            ({
                let s = old(self).loop_timers.timers@;
                let t = timer_at(s, timer_id@);
                let k = binding_pos(t.trigger_bindings, binding_id@);
                match r {
                    LoopEdit::TimerMissing => !has_timer(s, timer_id@) && final(self).loop_timers.timers@ == s,
                    LoopEdit::BindingMissing => has_timer(s, timer_id@) && k < 0 && final(self).loop_timers.timers@ == s,
                    LoopEdit::Saved => has_timer(s, timer_id@) && k >= 0 && final(self).loop_timers.timers@ == replace_timer(
                        s,
                        timer_id@,
                        LoopTimerView {
                            trigger_bindings: t.trigger_bindings.update(
                                k,
                                LoopTriggerBindingView { enabled, ..t.trigger_bindings[k] },
                            ),
                            ..t
                        },
                    ),
                    _ => false,
                }
            }),
    {
        let i = match self.loop_timers.timers.position(timer_id) {
            None => {
                return LoopEdit::TimerMissing;
            },
            Some(i) => i,
        };
        let ghost bs = self.loop_timers.timers@[i as int].trigger_bindings;
        let mut t = self.take_loop_timer(i);
        let k = find_binding(&t.trigger_bindings, binding_id);
        if k == t.trigger_bindings.len() {
            self.restore_loop_timer(i, t);
            proof {
                assert(self.loop_timers.timers@ =~= old(self).loop_timers.timers@);
            }
            return LoopEdit::BindingMissing;
        }
        let mut b = t.trigger_bindings.remove(k);
        b.enabled = enabled;
        t.trigger_bindings.insert(k, b);
        proof {
            assert(binding_views(t.trigger_bindings@) =~= bs.update(k as int, LoopTriggerBindingView { enabled, ..bs[k as int] }));
        }
        self.restore_loop_timer(i, t);
        proof {
            assert(self.loop_timers.timers@ =~= old(self).loop_timers.timers@.update(i as int, t@));
        }
        LoopEdit::Saved
    }

    /// Points the binding `binding_id` of loop timer `timer_id` (the first
    /// with that id) at `parsed`, the schedule its editor's text gave, which
    /// becomes the timer's schedule too; a text that did not parse is
    /// refused with its error.
    fn point_binding_schedule(
        &mut self,
        timer_id: &str,
        binding_id: &str,
        parsed: Result<LoopSchedule, String>,
    ) -> (r: LoopEdit)
        requires
            old(self).wf(),
        ensures
            final(self).wf(),
            only_timers_differ(*old(self), *final(self)),
            match parsed {
                Err(e) => (r matches LoopEdit::Refused { message } && message@ == "Failed to update loop trigger: "@ + e@)
                    && final(self).loop_timers.timers@ == old(self).loop_timers.timers@,
                Ok(schedule) => binding_edit(old(self).loop_timers.timers@, final(self).loop_timers.timers@, timer_id@,
                    binding_id@, r, LoopTriggerKindView::Timer { schedule: schedule@ }, schedule@),
            },
    {
        match parsed {
            Err(e) => LoopEdit::Refused { message: concat2("Failed to update loop trigger: ", e.as_str()) },
            Ok(schedule) => {
                let kind = LoopTriggerKind::Timer { schedule: schedule.duplicate() };
                self.set_loop_trigger_binding_kind(timer_id, binding_id, kind, schedule)
            },
        }
    }

    /// Points the idle binding `binding_id` of loop timer `timer_id` (the
    /// first with that id) at `parsed`, the delay its editor's text gave,
    /// which becomes the timer's schedule too; a text that did not parse is
    /// refused with its error.
    fn point_binding_idle_after(
        &mut self,
        timer_id: &str,
        binding_id: &str,
        parsed: Result<LoopSchedule, String>,
    ) -> (r: LoopEdit)
        requires
            old(self).wf(),
        ensures
            final(self).wf(),
            only_timers_differ(*old(self), *final(self)),
            match parsed {
                Err(e) => (r matches LoopEdit::Refused { message } && message@ == "Failed to update loop trigger: "@ + e@)
                    && final(self).loop_timers.timers@ == old(self).loop_timers.timers@,
                Ok(after) => binding_edit(old(self).loop_timers.timers@, final(self).loop_timers.timers@, timer_id@,
                    binding_id@, r, LoopTriggerKindView::Idle { after: after@ }, after@),
            },
    {
        match parsed {
            Err(e) => LoopEdit::Refused { message: concat2("Failed to update loop trigger: ", e.as_str()) },
            Ok(after) => {
                let kind = LoopTriggerKind::Idle { after: after.duplicate() };
                self.set_loop_trigger_binding_kind(timer_id, binding_id, kind, after)
            },
        }
    }

    /// Gives the binding `binding_id` of loop timer `timer_id` the kind
    /// `kind`, and the timer the schedule `schedule`.
    fn set_loop_trigger_binding_kind(
        &mut self,
        timer_id: &str,
        binding_id: &str,
        kind: LoopTriggerKind,
        schedule: LoopSchedule,
    ) -> (r: LoopEdit)
        requires
            old(self).wf(),
        ensures
            final(self).wf(),
            only_timers_differ(*old(self), *final(self)),
            binding_edit(old(self).loop_timers.timers@, final(self).loop_timers.timers@, timer_id@, binding_id@, r,
                kind@, schedule@),
    {
        let i = match self.loop_timers.timers.position(timer_id) {
            None => {
                return LoopEdit::TimerMissing;
            },
            Some(i) => i,
        };
        let ghost bs = self.loop_timers.timers@[i as int].trigger_bindings;
        let mut t = self.take_loop_timer(i);
        let k = find_binding(&t.trigger_bindings, binding_id);
        if k == t.trigger_bindings.len() {
            self.restore_loop_timer(i, t);
            proof {
                assert(self.loop_timers.timers@ =~= old(self).loop_timers.timers@);
            }
            return LoopEdit::BindingMissing;
        }
        let ghost kv = kind@;
        let mut b = t.trigger_bindings.remove(k);
        b.kind = kind;
        t.trigger_bindings.insert(k, b);
        t.schedule = schedule;
        proof {
            assert(binding_views(t.trigger_bindings@) =~= bs.update(k as int, LoopTriggerBindingView { kind: kv, ..bs[k as int] }));
        }
        self.restore_loop_timer(i, t);
        proof {
            assert(self.loop_timers.timers@ =~= old(self).loop_timers.timers@.update(i as int, t@));
        }
        LoopEdit::Saved
    }

    /// Drops every binding `binding_id` of loop timer `timer_id`.
    fn drop_loop_trigger_binding(&mut self, timer_id: &str, binding_id: &str) -> (r: LoopEdit)
        requires
            old(self).wf(),
        ensures
            final(self).wf(),
            edited_timers(*old(self), *final(self), timer_id@, r, LoopTimerView {
                trigger_bindings: without_binding(timer_at(old(self).loop_timers.timers@, timer_id@).trigger_bindings, binding_id@),
                ..timer_at(old(self).loop_timers.timers@, timer_id@)
            }),
    {
        let i = match self.loop_timers.timers.position(timer_id) {
            None => {
                return LoopEdit::TimerMissing;
            },
            Some(i) => i,
        };
        let ghost bs = self.loop_timers.timers@[i as int].trigger_bindings;
        let mut t = self.take_loop_timer(i);
        let mut kept: Vec<LoopTriggerBinding> = Vec::new();
        let mut k: usize = 0;
        while k < t.trigger_bindings.len()
            invariant
                bs == binding_views(t.trigger_bindings@),
                k <= bs.len(),
                binding_views(kept@) == without_binding(bs.take(k as int), binding_id@),
            decreases bs.len() - k,
        {
            let ghost before = kept@;
            proof {
                assert(bs[k as int] == t.trigger_bindings@[k as int]@);
                assert(bs.take(k + 1).drop_last() =~= bs.take(k as int));
                assert(bs.take(k + 1).last() == bs[k as int]);
            }
            if !crate::text::str_eq(t.trigger_bindings[k].id.as_str(), binding_id) {
                let b = t.trigger_bindings[k].duplicate();
                kept.push(b);
                proof {
                    assert(binding_views(kept@) =~= binding_views(before).push(b@));
                }
            }
            k = k + 1;
        }
        proof {
            assert(bs.take(k as int) =~= bs);
        }
        t.trigger_bindings = kept;
        self.restore_loop_timer(i, t);
        proof {
            assert(self.loop_timers.timers@ =~= old(self).loop_timers.timers@.update(i as int, t@));
        }
        LoopEdit::Saved
    }

    /// After a trigger of loop timer `timer_id` changed: its schedule becomes
    /// its primary scheduled trigger, given `timer_schedule`, the schedule of
    /// its timer triggers, where there is one; and its idle-trigger waits
    /// stop, for the caller to abort and arm again. Returns their keys.
    pub fn normalize_loop_after_trigger_change(&mut self, timer_id: &str, timer_schedule: Option<LoopSchedule>) -> (r: Vec<String>)
        requires
            old(self).wf(),
        ensures
            final(self).wf(),
            final(self).primary_thread_id == old(self).primary_thread_id,
            final(self).workflow_scheduler == old(self).workflow_scheduler,
            final(self).loop_timers.scheduler_tasks == old(self).loop_timers.scheduler_tasks,
            final(self).loop_timers.after_turn_scheduler == old(self).loop_timers.after_turn_scheduler,
            ({
                let s = old(self).loop_timers.timers@;
                let t = timer_at(s, timer_id@);
                let p = primary_scheduled_trigger_spec(t, match timer_schedule {
                    Some(x) => Some(x@),
                    None => None,
                });
                final(self).loop_timers.timers@ == (if has_timer(s, timer_id@) && p is Some {
                    replace_timer(s, timer_id@, LoopTimerView { schedule: p->0, ..t })
                } else {
                    s
                })
            }),
            views(r@).to_set() == old(self).loop_timers.idle_scheduler_tasks.keys().filter(
                |k: Seq<char>| has_prefix(k, timer_id@ + ":"@),
            ),
            final(self).loop_timers.idle_scheduler_tasks.keys() == old(self).loop_timers.idle_scheduler_tasks.keys().difference(
                views(r@).to_set(),
            ),
            final(self).loop_timers.idle_due_at.keys() == old(self).loop_timers.idle_due_at.keys().difference(
                views(r@).to_set(),
            ),
    {
        match self.loop_timers.timers.position(timer_id) {
            None => {},
            Some(i) => {
                let mut t = self.take_loop_timer(i);
                let ghost tv = t@;
                match primary_scheduled_trigger(&t, timer_schedule) {
                    Some(schedule) => {
                        t.schedule = schedule;
                    },
                    None => {},
                }
                self.restore_loop_timer(i, t);
                proof {
                    if t@ == tv {
                        assert(self.loop_timers.timers@ =~= old(self).loop_timers.timers@);
                    } else {
                        assert(self.loop_timers.timers@ =~= old(self).loop_timers.timers@.update(i as int, t@));
                    }
                }
            },
        }
        self.cancel_idle_triggers_for_loop(timer_id)
    }

    /// Switches loop timer `timer_id` on or off. Switched off, its
    /// scheduler and its idle-trigger waits stop.
    pub fn set_loop_timer_enabled(&mut self, timer_id: &str, enabled: bool) -> (r: LoopTimerSwitch)
        requires
            old(self).wf(),
        ensures
            final(self).wf(),
            final(self).primary_thread_id == old(self).primary_thread_id,
            final(self).workflow_scheduler == old(self).workflow_scheduler,
            final(self).loop_timers.after_turn_scheduler == old(self).loop_timers.after_turn_scheduler,
            ({
                let s = old(self).loop_timers.timers@;
                let lt = old(self).loop_timers;
                match r {
                    LoopTimerSwitch::Missing => !has_timer(s, timer_id@) && *final(self) == *old(self),
                    LoopTimerSwitch::Enabled => has_timer(s, timer_id@) && enabled
                        && final(self).loop_timers.timers@ == replace_timer(s, timer_id@, LoopTimerView { enabled: true, ..timer_at(s, timer_id@) })
                        && final(self).loop_timers.scheduler_tasks == lt.scheduler_tasks
                        && final(self).loop_timers.idle_scheduler_tasks == lt.idle_scheduler_tasks
                        && final(self).loop_timers.idle_due_at == lt.idle_due_at,
                    LoopTimerSwitch::Disabled { scheduler_stopped, idle_cancelled } => has_timer(s, timer_id@) && !enabled
                        && final(self).loop_timers.timers@ == replace_timer(s, timer_id@, LoopTimerView { enabled: false, ..timer_at(s, timer_id@) })
                        && scheduler_stopped == lt.scheduler_tasks.keys().contains(timer_id@)
                        && final(self).loop_timers.scheduler_tasks.keys() == lt.scheduler_tasks.keys().remove(timer_id@)
                        && views(idle_cancelled@).to_set() == lt.idle_scheduler_tasks.keys().filter(
                            |k: Seq<char>| has_prefix(k, timer_id@ + ":"@),
                        )
                        && final(self).loop_timers.idle_scheduler_tasks.keys() == lt.idle_scheduler_tasks.keys().difference(
                            views(idle_cancelled@).to_set(),
                        )
                        && final(self).loop_timers.idle_due_at.keys() == lt.idle_due_at.keys().difference(
                            views(idle_cancelled@).to_set(),
                        ),
                }
            }),
    {
        let i = match self.loop_timers.timers.position(timer_id) {
            None => {
                return LoopTimerSwitch::Missing;
            },
            Some(i) => i,
        };
        let mut t = self.take_loop_timer(i);
        t.enabled = enabled;
        self.restore_loop_timer(i, t);
        proof {
            assert(self.loop_timers.timers@ =~= old(self).loop_timers.timers@.update(i as int, t@));
        }
        if enabled {
            LoopTimerSwitch::Enabled
        } else {
            let scheduler_stopped = self.stop_loop_timer_scheduler(timer_id);
            let idle_cancelled = self.cancel_idle_triggers_for_loop(timer_id);
            LoopTimerSwitch::Disabled { scheduler_stopped, idle_cancelled }
        }
    }

    /// Deletes loop timer `timer_id`: its scheduler and idle-trigger waits
    /// stop, for the caller to abort along with its run, and it leaves the
    /// book.
    pub fn delete_loop_timer(&mut self, timer_id: &str) -> (r: LoopTimerRemoval)
        requires
            old(self).wf(),
        ensures
            final(self).wf(),
            final(self).primary_thread_id == old(self).primary_thread_id,
            final(self).workflow_scheduler == old(self).workflow_scheduler,
            final(self).loop_timers.after_turn_scheduler == old(self).loop_timers.after_turn_scheduler,
            ({
                let s = old(self).loop_timers.timers@;
                let lt = old(self).loop_timers;
                &&& final(self).loop_timers.timers@ == (if has_timer(s, timer_id@) {
                    s.remove(timer_pos(s, timer_id@))
                } else {
                    s
                })
                &&& r.scheduler_stopped == lt.scheduler_tasks.keys().contains(timer_id@)
                &&& final(self).loop_timers.scheduler_tasks.keys() == lt.scheduler_tasks.keys().remove(timer_id@)
                &&& views(r.idle_cancelled@).to_set() == lt.idle_scheduler_tasks.keys().filter(
                    |k: Seq<char>| has_prefix(k, timer_id@ + ":"@),
                )
                &&& final(self).loop_timers.idle_scheduler_tasks.keys() == lt.idle_scheduler_tasks.keys().difference(
                    views(r.idle_cancelled@).to_set(),
                )
                &&& final(self).loop_timers.idle_due_at.keys() == lt.idle_due_at.keys().difference(
                    views(r.idle_cancelled@).to_set(),
                )
            }),
    {
        let scheduler_stopped = self.stop_loop_timer_scheduler(timer_id);
        let idle_cancelled = self.cancel_idle_triggers_for_loop(timer_id);
        let _ = self.loop_timers.timers.remove(timer_id);
        LoopTimerRemoval { scheduler_stopped, idle_cancelled }
    }
}

/// What switching a loop timer came to.
#[derive(Debug, PartialEq, Eq)]
pub enum LoopTimerSwitch {
    /// No timer has the id: nothing changed.
    Missing,
    /// Switched on: the caller schedules its next run and arms its idle
    /// triggers.
    Enabled,
    /// Switched off: whether a scheduler of it was stopped, and the keys of
    /// its idle-trigger waits that were stopped.
    Disabled { scheduler_stopped: bool, idle_cancelled: Vec<String> },
}

/// The tasks that deleting a loop timer stopped.
#[derive(Debug, PartialEq, Eq)]
pub struct LoopTimerRemoval {
    pub scheduler_stopped: bool,
    pub idle_cancelled: Vec<String>,
}

/// A lower-case hexadecimal digit.
pub open spec fn is_lower_hex_digit(c: char) -> bool {
    (0x30 <= c as u32 <= 0x39) || (0x61 <= c as u32 <= 0x66)
}

/// The text of a random UUID in its hyphenated lower-case form.
pub open spec fn is_v4_uuid_text(s: Seq<char>) -> bool {
    &&& s.len() == 36
    &&& forall|i: int|
        0 <= i < 36 ==> (if i == 8 || i == 13 || i == 18 || i == 23 {
            #[trigger] s[i] == '-'
        } else {
            is_lower_hex_digit(s[i])
        })
    &&& s[14] == '4'
}

/// A fresh random id for a one-shot loop: `uuid::Uuid::new_v4`, shown
/// with `Display`, which writes the hyphenated lower-case form. Claimed:
/// 36 characters, hyphens at 8, 13, 18 and 23, the version digit `4` at 14,
/// lower-case hexadecimal digits elsewhere; which digits is chance. The
/// call panics when the system gives no random bytes, which no clause can
/// rule out.
#[verifier::external_body]
fn new_loop_timer_id() -> (r: String)
    ensures
        is_v4_uuid_text(r@),
{
    uuid::Uuid::new_v4().to_string()
}

/// The settings a creation form gives a new loop, with the writable
/// directories its text parsed to (`None` when it gave none).
#[derive(Debug, PartialEq, Eq)]
pub struct LoopTimerDraft {
    pub context_mode: LoopContextMode,
    pub response_mode: LoopResponseMode,
    pub security_mode: LoopSecurityMode,
    pub writable_roots: Option<Result<Vec<String>, String>>,
}

/// The writable directories of a draft as their contents read.
pub open spec fn draft_roots_view(d: LoopTimerDraft) -> Option<Result<Seq<Seq<char>>, Seq<char>>> {
    match d.writable_roots {
        None => None,
        Some(Ok(v)) => Some(Ok(views(v@))),
        Some(Err(e)) => Some(Err(e@)),
    }
}

/// The modes a loop takes where neither an earlier timer nor a form sets
/// them: the defaults of the loop settings.
#[derive(Debug, Clone, Copy, PartialEq, Eq, Structural)]
pub struct LoopModeDefaults {
    pub response_mode: LoopResponseMode,
    pub security_mode: LoopSecurityMode,
}

/// Why a loop cannot be created or updated from `prompt` and `draft`, if
/// it cannot.
pub open spec fn upsert_error(prompt: Seq<char>, draft: Option<LoopTimerDraft>) -> Option<Seq<char>> {
    if trim_seq(prompt).len() == 0 {
        Some("expected a prompt."@)
    } else {
        match draft {
            Some(d) => if d.security_mode == LoopSecurityMode::SpecifiedDirectory {
                match draft_roots_view(d) {
                    None => Some("specified_directory requires writable directories."@),
                    Some(Err(e)) => Some("specified_directory requires valid writable directories: "@ + e),
                    Some(Ok(roots)) => if roots.len() == 0 {
                        Some("specified_directory requires at least one writable directory."@)
                    } else {
                        None
                    },
                }
            } else {
                None
            },
            None => None,
        }
    }
}

/// The schedule that a loop's first trigger gives it; turn triggers keep
/// an hourly one.
pub open spec fn schedule_for_trigger(kind: LoopTriggerKindView) -> LoopScheduleView {
    match kind {
        LoopTriggerKindView::Timer { schedule } => schedule,
        LoopTriggerKindView::Idle { after } => after,
        _ => LoopScheduleView::Interval { display: "1h"@, seconds: 3600 },
    }
}

/// How a trigger reads in the report of a new loop.
pub open spec fn trigger_summary_spec(kind: LoopTriggerKindView) -> Seq<char> {
    match kind {
        LoopTriggerKindView::Timer { schedule } => schedule.display(),
        LoopTriggerKindView::Idle { after } => "idle "@ + after.display(),
        LoopTriggerKindView::BeforeTurn => "before turn"@,
        LoopTriggerKindView::AfterTurn => "after turn"@,
    }
}

/// A loop with an id given stays; one without runs once.
pub open spec fn upsert_mode(has_id: bool) -> LoopMode {
    if has_id {
        LoopMode::Persistent
    } else {
        LoopMode::OneShot
    }
}

/// The timer that creating or updating the loop `timer_id` makes, where
/// `existing` is the timer that had that id and no error stands.
pub open spec fn upserted_timer(
    timer_id: Seq<char>,
    mode: LoopMode,
    prompt: Seq<char>,
    kind: LoopTriggerKindView,
    existing: Option<LoopTimerView>,
    draft: Option<LoopTimerDraft>,
    defaults: LoopModeDefaults,
    now_unix_seconds: i64,
) -> LoopTimerView {
    let base_execution = match existing {
        Some(t) => t.execution,
        None => LoopExecutionSettingsView { cwd: None, writable_roots: Seq::empty() },
    };
    let (context_mode, response_mode, security_mode, execution) = match draft {
        Some(d) => (
            d.context_mode,
            d.response_mode,
            d.security_mode,
            if d.security_mode == LoopSecurityMode::SpecifiedDirectory {
                match draft_roots_view(d) {
                    Some(Ok(roots)) => LoopExecutionSettingsView { writable_roots: roots, ..base_execution },
                    _ => base_execution,
                }
            } else {
                base_execution
            },
        ),
        None => match existing {
            Some(t) => (t.context_mode, t.response_mode, t.security_mode, base_execution),
            None => (
                if mode == LoopMode::Persistent {
                    LoopContextMode::Persistent
                } else {
                    LoopContextMode::Ephemeral
                },
                defaults.response_mode,
                defaults.security_mode,
                base_execution,
            ),
        },
    };
    LoopTimerView {
        id: timer_id,
        mode,
        prompt: trim_seq(prompt),
        action: match existing {
            Some(t) => t.action,
            None => None,
        },
        context_mode,
        response_mode: if context_mode == LoopContextMode::Embed {
            LoopResponseMode::Assistant
        } else {
            response_mode
        },
        security_mode,
        execution,
        schedule: schedule_for_trigger(kind),
        trigger_bindings: seq![LoopTriggerBindingView { id: "trigger-1"@, enabled: true, kind }],
        enabled: true,
        rollout_path: match existing {
            Some(t) => t.rollout_path,
            None => None,
        },
        created_at_unix_seconds: match existing {
            Some(t) => t.created_at_unix_seconds,
            None => now_unix_seconds,
        },
        last_scheduled_at_unix_seconds: None,
        last_completed_at_unix_seconds: match existing {
            Some(t) => t.last_completed_at_unix_seconds,
            None => None,
        },
    }
}

/// How a created or updated loop is reported.
#[derive(Debug, PartialEq, Eq)]
pub enum LoopUpsertKind {
    /// A one-shot loop, reported under `prefix` where one was given.
    OneShot { prefix: Option<String> },
    /// A new loop that stays.
    Created,
    /// A loop that stays, replacing the one with its id.
    Updated,
}

/// What creating or updating a loop reports.
#[derive(Debug, PartialEq, Eq)]
pub struct LoopUpsertReport {
    pub timer_id: String,
    pub kind: LoopUpsertKind,
    pub context_mode: LoopContextMode,
    pub trigger_summary: String,
    pub prompt: String,
}

/// The report message of a created or updated loop, given the title of
/// its context mode in lower case.
pub open spec fn upsert_message_spec(r: LoopUpsertReport, context_title: Seq<char>) -> Seq<char> {
    let tail = r.trigger_summary@ + " -> "@ + r.prompt@;
    match r.kind {
        LoopUpsertKind::OneShot { prefix: Some(p) } => p@ + ": "@ + tail,
        LoopUpsertKind::OneShot { prefix: None } => "Created "@ + context_title + " `/loop`: "@ + tail,
        LoopUpsertKind::Created => "Created "@ + context_title + " `/loop "@ + r.timer_id@ + "`: "@ + tail,
        LoopUpsertKind::Updated => "Updated "@ + context_title + " `/loop "@ + r.timer_id@ + "`: "@ + tail,
    }
}

/// The report message of a created or updated loop, given the title of
/// its context mode in lower case.
pub fn loop_upsert_message(report: &LoopUpsertReport, context_title: &str) -> (r: String)
    ensures
        r@ == upsert_message_spec(*report, context_title@),
{
    let mut m = match &report.kind {
        LoopUpsertKind::OneShot { prefix: Some(p) } => concat2(p.as_str(), ": "),
        LoopUpsertKind::OneShot { prefix: None } => {
            let mut m = concat2("Created ", context_title);
            m.append(" `/loop`: ");
            m
        },
        LoopUpsertKind::Created => {
            let mut m = concat2("Created ", context_title);
            m.append(" `/loop ");
            m.append(report.timer_id.as_str());
            m.append("`: ");
            m
        },
        LoopUpsertKind::Updated => {
            let mut m = concat2("Updated ", context_title);
            m.append(" `/loop ");
            m.append(report.timer_id.as_str());
            m.append("`: ");
            m
        },
    };
    m.append(report.trigger_summary.as_str());
    m.append(" -> ");
    m.append(report.prompt.as_str());
    proof {
        let tail = report.trigger_summary@ + " -> "@ + report.prompt@;
        assert(m@ =~= upsert_message_spec(*report, context_title@));
    }
    m
}

/// How a trigger reads in the report of a new loop.
fn trigger_summary(kind: &LoopTriggerKind) -> (r: String)
    ensures
        r@ == trigger_summary_spec(kind@),
{
    match kind {
        LoopTriggerKind::Timer { schedule } => String::from_str(schedule.display()),
        LoopTriggerKind::Idle { after } => concat2("idle ", after.display()),
        LoopTriggerKind::BeforeTurn => String::from_str("before turn"),
        LoopTriggerKind::AfterTurn => String::from_str("after turn"),
    }
}

/// The schedule that a loop's first trigger gives it.
fn schedule_from_trigger(kind: &LoopTriggerKind) -> (r: LoopSchedule)
    ensures
        r@ == schedule_for_trigger(kind@),
{
    match kind {
        LoopTriggerKind::Timer { schedule } => schedule.duplicate(),
        LoopTriggerKind::Idle { after } => after.duplicate(),
        _ => LoopSchedule::Interval { display: String::from_str("1h"), seconds: 3600 },
    }
}

/// The error that stops a loop from being made from `prompt` and `draft`.
fn check_upsert(prompt: &str, draft: &Option<LoopTimerDraft>) -> (r: Option<String>)
    ensures
        opt_view(r) == upsert_error(prompt@, *draft),
{
    if trim_str(prompt).unicode_len() == 0 {
        return Some(String::from_str("expected a prompt."));
    }
    match draft {
        Some(d) => {
            if d.security_mode == LoopSecurityMode::SpecifiedDirectory {
                match &d.writable_roots {
                    None => Some(String::from_str("specified_directory requires writable directories.")),
                    Some(Err(e)) => Some(concat2("specified_directory requires valid writable directories: ", e.as_str())),
                    Some(Ok(roots)) => {
                        if roots.len() == 0 {
                            Some(String::from_str("specified_directory requires at least one writable directory."))
                        } else {
                            None
                        }
                    },
                }
            } else {
                None
            }
        },
        None => None,
    }
}

impl App {
    /// Creates loop `id`, or a one-shot loop under a fresh id when `id` is
    /// `None`, or updates the loop with that id: its prompt (trimmed), its
    /// one trigger, and the settings of `draft` where a creation form gave
    /// them; the rest it keeps from the loop it replaces. Refused, with the
    /// reason, for a blank prompt, or for a form that restricts writes to
    /// directories it does not name validly.
    pub fn upsert_loop_timer(
        &mut self,
        id: Option<String>,
        prompt: String,
        trigger_kind: LoopTriggerKind,
        draft: Option<LoopTimerDraft>,
        message_prefix: Option<String>,
        now_unix_seconds: i64,
        defaults: LoopModeDefaults,
    ) -> (r: Result<LoopUpsertReport, String>)
        requires
            old(self).wf(),
        ensures
            final(self).wf(),
            only_timers_differ(*old(self), *final(self)),
            match r {
                Err(e) => upsert_error(prompt@, draft) == Some(e@) && *final(self) == *old(self),
                Ok(rep) => {
                    let s = old(self).loop_timers.timers@;
                    let tid = rep.timer_id@;
                    let existing = if has_timer(s, tid) {
                        Some(timer_at(s, tid))
                    } else {
                        None
                    };
                    let t = upserted_timer(tid, upsert_mode(id is Some), prompt@, trigger_kind@, existing, draft, defaults, now_unix_seconds);
                    &&& upsert_error(prompt@, draft) is None
                    &&& match id {
                        Some(i) => tid == i@,
                        None => is_v4_uuid_text(tid),
                    }
                    &&& final(self).loop_timers.timers@ == put_timer(s, t)
                    &&& rep.context_mode == t.context_mode
                    &&& rep.trigger_summary@ == trigger_summary_spec(trigger_kind@)
                    &&& rep.prompt@ == trim_seq(prompt@)
                    &&& match rep.kind {
                        LoopUpsertKind::OneShot { prefix } => id is None && opt_view(prefix) == opt_view(message_prefix),
                        LoopUpsertKind::Created => id is Some && !has_timer(s, tid),
                        LoopUpsertKind::Updated => id is Some && has_timer(s, tid),
                    }
                },
            },
    {
        match check_upsert(prompt.as_str(), &draft) {
            Some(e) => {
                return Err(e);
            },
            None => {},
        }
        let prompt_text = trimmed(prompt.as_str());
        let mode = if id.is_some() {
            LoopMode::Persistent
        } else {
            LoopMode::OneShot
        };
        let has_id = id.is_some();
        let timer_id = match id {
            Some(i) => i,
            None => new_loop_timer_id(),
        };
        let ghost s = self.loop_timers.timers@;
        let (action, rollout_path, created_at, last_completed, mut execution, mut context_mode, mut response_mode, mut security_mode, existed) =
            match self.loop_timers.timers.get(timer_id.as_str()) {
                Some(t) => (
                    copy_opt_string(&t.action),
                    copy_opt_string(&t.rollout_path),
                    t.created_at_unix_seconds,
                    t.last_completed_at_unix_seconds,
                    t.execution.duplicate(),
                    t.context_mode,
                    t.response_mode,
                    t.security_mode,
                    true,
                ),
                None => (
                    None,
                    None,
                    now_unix_seconds,
                    None,
                    LoopExecutionSettings::new(),
                    if has_id {
                        LoopContextMode::Persistent
                    } else {
                        LoopContextMode::Ephemeral
                    },
                    defaults.response_mode,
                    defaults.security_mode,
                    false,
                ),
            };
        proof {
            if !existed {
                assert(execution@.writable_roots =~= Seq::<Seq<char>>::empty());
            }
        }
        let ghost base_execution = execution@;
        match draft {
            Some(d) => {
                context_mode = d.context_mode;
                response_mode = d.response_mode;
                security_mode = d.security_mode;
                if d.security_mode == LoopSecurityMode::SpecifiedDirectory {
                    match d.writable_roots {
                        Some(Ok(roots)) => {
                            execution.writable_roots = roots;
                        },
                        _ => {},
                    }
                }
            },
            None => {},
        }
        if context_mode == LoopContextMode::Embed {
            response_mode = LoopResponseMode::Assistant;
        }
        let binding = LoopTriggerBinding { id: String::from_str("trigger-1"), enabled: true, kind: trigger_kind.duplicate() };
        let mut bindings: Vec<LoopTriggerBinding> = Vec::new();
        bindings.push(binding);
        let timer = LoopTimer {
            id: timer_id.clone(),
            mode,
            prompt: prompt_text.clone(),
            action,
            context_mode,
            response_mode,
            security_mode,
            execution,
            schedule: schedule_from_trigger(&trigger_kind),
            trigger_bindings: bindings,
            enabled: true,
            rollout_path,
            created_at_unix_seconds: created_at,
            last_scheduled_at_unix_seconds: None,
            last_completed_at_unix_seconds: last_completed,
        };
        proof {
            reveal_strlit("trigger-1");
            let existing = if has_timer(s, timer_id@) {
                Some(timer_at(s, timer_id@))
            } else {
                None
            };
            assert(binding_views(timer.trigger_bindings@) =~= seq![
                LoopTriggerBindingView { id: "trigger-1"@, enabled: true, kind: trigger_kind@ },
            ]);
            let u = upserted_timer(timer_id@, mode, prompt@, trigger_kind@, existing, draft, defaults, now_unix_seconds);
            assert(existed == has_timer(s, timer_id@));
            assert(existed ==> base_execution == timer_at(s, timer_id@).execution);
            assert(!existed ==> base_execution == LoopExecutionSettingsView { cwd: None, writable_roots: Seq::empty() });
            assert(timer@ == u);
        }
        self.loop_timers.timers.insert(timer);
        let kind = if !has_id {
            LoopUpsertKind::OneShot { prefix: message_prefix }
        } else if existed {
            LoopUpsertKind::Updated
        } else {
            LoopUpsertKind::Created
        };
        Ok(LoopUpsertReport {
            timer_id,
            kind,
            context_mode,
            trigger_summary: trigger_summary(&trigger_kind),
            prompt: prompt_text,
        })
    }
}

/// What triggering a loop timer now does: what runs, and, where the timer
/// moved its schedule on, when its scheduler is armed again (and whether an
/// earlier scheduler is to be aborted).
#[derive(Debug, PartialEq, Eq)]
pub struct LoopTimerTrigger {
    pub plan: LoopTimerTriggerPlan,
    pub rescheduled_for: Option<i64>,
    pub abort_previous: bool,
}

impl App {
    /// Runs loop timer `timer_id` now, for the time it was scheduled for:
    /// where `update_timer_schedule`, the timer records that time and, while
    /// it is on, its scheduler is armed again for `next_due_unix_seconds`,
    /// the next due time its schedule gives from now, where there is one;
    /// then what runs is decided, by whether a run of it is in flight. A
    /// timer that is gone runs nothing.
    pub fn trigger_loop_timer_now(
        &mut self,
        timer_id: &str,
        scheduled_for_unix_seconds: i64,
        update_timer_schedule: bool,
        next_due_unix_seconds: Option<i64>,
    ) -> (r: LoopTimerTrigger)
        requires
            old(self).wf(),
        ensures
            final(self).wf(),
            final(self).loop_timers.active_runs == old(self).loop_timers.active_runs,
            final(self).primary_thread_id == old(self).primary_thread_id,
            final(self).workflow_scheduler == old(self).workflow_scheduler,
            final(self).loop_timers.idle_scheduler_tasks == old(self).loop_timers.idle_scheduler_tasks,
            final(self).loop_timers.idle_due_at == old(self).loop_timers.idle_due_at,
            final(self).loop_timers.after_turn_scheduler == old(self).loop_timers.after_turn_scheduler,
            ({
                let s = old(self).loop_timers.timers@;
                let t = timer_at(s, timer_id@);
                let rescheduled = has_timer(s, timer_id@) && update_timer_schedule && t.enabled && next_due_unix_seconds is Some;
                &&& if !has_timer(s, timer_id@) {
                    r.plan is Ignore && final(self).loop_timers.timers@ == s
                } else {
                    &&& trigger_plan_spec(t, old(self).loop_timers.active_runs.keys().contains(timer_id@), r.plan)
                    &&& final(self).loop_timers.timers@ == (if update_timer_schedule {
                        replace_timer(s, timer_id@, LoopTimerView { last_scheduled_at_unix_seconds: Some(scheduled_for_unix_seconds), ..t })
                    } else {
                        s
                    })
                }
                &&& r.rescheduled_for == (if rescheduled {
                    next_due_unix_seconds
                } else {
                    None
                })
                &&& if rescheduled {
                    &&& r.abort_previous == old(self).loop_timers.scheduler_tasks.keys().contains(timer_id@)
                    &&& final(self).loop_timers.scheduler_tasks.keys() == old(self).loop_timers.scheduler_tasks.keys().insert(timer_id@)
                } else {
                    !r.abort_previous && final(self).loop_timers.scheduler_tasks == old(self).loop_timers.scheduler_tasks
                }
            }),
    {
        let run_active = self.loop_timers.active_runs.contains(timer_id);
        let i = match self.loop_timers.timers.position(timer_id) {
            None => {
                return LoopTimerTrigger { plan: loop_timer_trigger_plan(None, run_active), rescheduled_for: None, abort_previous: false };
            },
            Some(i) => i,
        };
        let mut t = self.take_loop_timer(i);
        if update_timer_schedule {
            t.last_scheduled_at_unix_seconds = Some(scheduled_for_unix_seconds);
        }
        let enabled = t.enabled;
        let plan = loop_timer_trigger_plan(Some(&t), run_active);
        self.restore_loop_timer(i, t);
        proof {
            if update_timer_schedule {
                assert(self.loop_timers.timers@ =~= old(self).loop_timers.timers@.update(i as int, t@));
            } else {
                assert(self.loop_timers.timers@ =~= old(self).loop_timers.timers@);
            }
        }
        if update_timer_schedule && enabled && next_due_unix_seconds.is_some() {
            let abort_previous = self.schedule_loop_timer(timer_id);
            LoopTimerTrigger { plan, rescheduled_for: next_due_unix_seconds, abort_previous }
        } else {
            LoopTimerTrigger { plan, rescheduled_for: None, abort_previous: false }
        }
    }

    /// Records that loop timer `timer_id` completed a run at `now_unix_seconds`;
    /// returns whether the timer is still there.
    pub fn note_loop_timer_completed(&mut self, timer_id: &str, now_unix_seconds: i64) -> (r: bool)
        requires
            old(self).wf(),
        ensures
            final(self).wf(),
            only_timers_differ(*old(self), *final(self)),
            r == has_timer(old(self).loop_timers.timers@, timer_id@),
            final(self).loop_timers.timers@ == (if r {
                replace_timer(old(self).loop_timers.timers@, timer_id@, LoopTimerView {
                    last_completed_at_unix_seconds: Some(now_unix_seconds),
                    ..timer_at(old(self).loop_timers.timers@, timer_id@)
                })
            } else {
                old(self).loop_timers.timers@
            }),
    {
        match self.loop_timers.timers.position(timer_id) {
            None => false,
            Some(i) => {
                let mut t = self.take_loop_timer(i);
                t.last_completed_at_unix_seconds = Some(now_unix_seconds);
                self.restore_loop_timer(i, t);
                proof {
                    assert(self.loop_timers.timers@ =~= old(self).loop_timers.timers@.update(i as int, t@));
                }
                true
            },
        }
    }

    /// Records the thread that persistent loop timer `timer_id` keeps across
    /// runs; returns whether the timer is still there.
    pub fn set_loop_timer_rollout_path(&mut self, timer_id: &str, rollout_path: Option<String>) -> (r: bool)
        requires
            old(self).wf(),
        ensures
            final(self).wf(),
            only_timers_differ(*old(self), *final(self)),
            r == has_timer(old(self).loop_timers.timers@, timer_id@),
            final(self).loop_timers.timers@ == (if r {
                replace_timer(old(self).loop_timers.timers@, timer_id@, LoopTimerView {
                    rollout_path: opt_view(rollout_path),
                    ..timer_at(old(self).loop_timers.timers@, timer_id@)
                })
            } else {
                old(self).loop_timers.timers@
            }),
    {
        match self.loop_timers.timers.position(timer_id) {
            None => false,
            Some(i) => {
                let mut t = self.take_loop_timer(i);
                t.rollout_path = rollout_path;
                self.restore_loop_timer(i, t);
                proof {
                    assert(self.loop_timers.timers@ =~= old(self).loop_timers.timers@.update(i as int, t@));
                }
                true
            },
        }
    }
}

/// What a finished loop run leaves for the main thread.
#[derive(Debug, PartialEq, Eq)]
pub struct LoopTimerCompletion {
    /// The error shown for a failed run.
    pub error: Option<String>,
    /// The answer that goes into the main thread's history as an assistant
    /// message, under an info line that names its source.
    pub mirrored_reply: Option<(LoopReplySource, String)>,
    /// Whether the main thread is the one on screen, so that the mirrored
    /// answer shows at once.
    pub show_mirrored: bool,
    /// The answer, as a user turn for the main thread.
    pub followup_user_turn: Option<LoopMirroredUserTurn>,
}

impl App {
    /// A run of loop timer `timer_id` finished with `result` (its answer,
    /// or an error) at `now_unix_seconds`: the timer records the time, and
    /// the answer, trimmed and where not blank, goes back to the main
    /// thread as the timer's response mode says (`default_response_mode`
    /// for a timer that is gone): mirrored as an assistant message, or as a
    /// user turn. Nothing goes back without a main thread.
    pub fn finish_loop_timer(
        &mut self,
        timer_id: &str,
        result: Result<Option<String>, String>,
        now_unix_seconds: i64,
        primary_thread_active: bool,
        default_response_mode: LoopResponseMode,
    ) -> (r: LoopTimerCompletion)
        requires
            old(self).wf(),
        ensures
            final(self).wf(),
            only_timers_differ(*old(self), *final(self)),
            ({
                let s = old(self).loop_timers.timers@;
                let found = has_timer(s, timer_id@);
                let t = timer_at(s, timer_id@);
                let response_mode = if found {
                    t.response_mode
                } else {
                    default_response_mode
                };
                let action = if found {
                    t.action
                } else {
                    None
                };
                &&& final(self).loop_timers.timers@ == (if found {
                    replace_timer(s, timer_id@, LoopTimerView { last_completed_at_unix_seconds: Some(now_unix_seconds), ..t })
                } else {
                    s
                })
                &&& match result {
                    Err(e) => opt_view(r.error) == Some("A `/loop` run failed: "@ + e@) && r.mirrored_reply is None
                        && !r.show_mirrored && r.followup_user_turn is None,
                    Ok(message) => {
                        let answer = loop_turn_result_spec(opt_view(message), None);
                        &&& r.error is None
                        &&& if old(self).primary_thread_id is None {
                            r.mirrored_reply is None && !r.show_mirrored && r.followup_user_turn is None
                        } else {
                            &&& r.show_mirrored == primary_thread_active
                            &&& match r.followup_user_turn {
                                Some(turn) => response_mode == LoopResponseMode::User && answer == Some(turn.text@)
                                    && turn.source.loop_id@ == timer_id@ && opt_view(turn.source.action) == action,
                                None => response_mode != LoopResponseMode::User || answer is None,
                            }
                            &&& match r.mirrored_reply {
                                Some((src, text)) => response_mode == LoopResponseMode::Assistant && answer == Some(text@)
                                    && src.loop_id@ == timer_id@ && opt_view(src.action) == action,
                                None => response_mode != LoopResponseMode::Assistant || answer is None,
                            }
                        }
                    },
                }
            }),
    {
        let (response_mode, action) = match self.loop_timers.timers.get(timer_id) {
            Some(t) => (t.response_mode, copy_opt_string(&t.action)),
            None => (default_response_mode, None),
        };
        let _ = self.note_loop_timer_completed(timer_id, now_unix_seconds);
        match result {
            Err(e) => LoopTimerCompletion {
                error: Some(concat2("A `/loop` run failed: ", e.as_str())),
                mirrored_reply: None,
                show_mirrored: false,
                followup_user_turn: None,
            },
            Ok(message) => {
                if self.primary_thread_id.is_none() {
                    return LoopTimerCompletion { error: None, mirrored_reply: None, show_mirrored: false, followup_user_turn: None };
                }
                let answer = loop_turn_result(message, None);
                let mut followup_user_turn = None;
                let mut mirrored_reply = None;
                match answer {
                    Some(text) => {
                        let source = LoopReplySource::new(String::from_str(timer_id), action);
                        if response_mode == LoopResponseMode::User {
                            followup_user_turn = Some(LoopMirroredUserTurn { text, source });
                        } else {
                            mirrored_reply = Some((source, text));
                        }
                    },
                    None => {},
                }
                LoopTimerCompletion { error: None, mirrored_reply, show_mirrored: primary_thread_active, followup_user_turn }
            },
        }
    }
}

/// Switching an enabled loop timer off and on again, as
/// `set_loop_timer_enabled` does, gives back the timers as they were.
pub proof fn lemma_disable_then_enable_restores(s: Seq<LoopTimerView>, id: Seq<char>)
    requires
        ids_unique(s),
        has_timer(s, id),
        timer_at(s, id).enabled,
    ensures
        ({
            let s1 = replace_timer(s, id, LoopTimerView { enabled: false, ..timer_at(s, id) });
            replace_timer(s1, id, LoopTimerView { enabled: true, ..timer_at(s1, id) }) == s
        }),
{
    let t = timer_at(s, id);
    let p = timer_pos(s, id);
    let s1 = replace_timer(s, id, LoopTimerView { enabled: false, ..t });
    lemma_replace_keeps_ids(s, id, LoopTimerView { enabled: false, ..t }, id);
    lemma_timer_pos(s1, p);
    assert(s1[p].id == id);
    let s2 = replace_timer(s1, id, LoopTimerView { enabled: true, ..timer_at(s1, id) });
    assert(s2 =~= s);
}

/// What one output of an after-turn round changes of the timers: a
/// persistent loop takes the thread and completion time its run reported.
pub open spec fn apply_round_update(s: Seq<LoopTimerView>, o: AfterTurnLoopOutput) -> Seq<LoopTimerView> {
    if has_timer(s, o.loop_id@) && timer_at(s, o.loop_id@).context_mode == LoopContextMode::Persistent {
        replace_timer(s, o.loop_id@, LoopTimerView {
            rollout_path: opt_view(o.update.rollout_path),
            last_completed_at_unix_seconds: o.update.last_completed_at_unix_seconds,
            ..timer_at(s, o.loop_id@)
        })
    } else {
        s
    }
}

/// What the outputs `outs` of an after-turn round, in order, change of the
/// timers.
pub open spec fn apply_round_updates(s: Seq<LoopTimerView>, outs: Seq<AfterTurnLoopOutput>) -> Seq<LoopTimerView>
    decreases outs.len(),
{
    if outs.len() == 0 {
        s
    } else {
        apply_round_update(apply_round_updates(s, outs.drop_last()), outs.last())
    }
}

/// Some output of the round belongs to a persistent loop, so that loop
/// state is to be saved.
pub open spec fn round_persists(s: Seq<LoopTimerView>, outs: Seq<AfterTurnLoopOutput>) -> bool {
    exists|i: int| 0 <= i < outs.len() && has_timer(s, #[trigger] outs[i].loop_id@)
        && timer_at(s, outs[i].loop_id@).context_mode == LoopContextMode::Persistent
}

/// The answers of the round that go back as assistant messages, with
/// their sources, in order.
pub open spec fn round_replies(outs: Seq<AfterTurnLoopOutput>) -> Seq<(LoopReplySource, String)>
    decreases outs.len(),
{
    if outs.len() == 0 {
        Seq::empty()
    } else {
        let rest = round_replies(outs.drop_last());
        let o = outs.last();
        if o.response_mode == LoopResponseMode::Assistant && o.message is Some {
            rest.push((LoopReplySource { loop_id: o.loop_id, action: o.action }, o.message->0))
        } else {
            rest
        }
    }
}

/// The answers of the round that go back as user turns, in order.
pub open spec fn round_followups(outs: Seq<AfterTurnLoopOutput>) -> Seq<LoopMirroredUserTurn>
    decreases outs.len(),
{
    if outs.len() == 0 {
        Seq::empty()
    } else {
        let rest = round_followups(outs.drop_last());
        let o = outs.last();
        if o.response_mode == LoopResponseMode::User && o.message is Some {
            rest.push(LoopMirroredUserTurn {
                text: o.message->0,
                source: LoopReplySource { loop_id: o.loop_id, action: o.action },
            })
        } else {
            rest
        }
    }
}

/// The updates of a round keep the ids of the timers, and their context
/// modes.
pub proof fn lemma_round_updates_keep_modes(s: Seq<LoopTimerView>, outs: Seq<AfterTurnLoopOutput>, id: Seq<char>)
    requires
        ids_unique(s),
    ensures
        ids_unique(apply_round_updates(s, outs)),
        has_timer(apply_round_updates(s, outs), id) == has_timer(s, id),
        has_timer(s, id) ==> timer_at(apply_round_updates(s, outs), id).context_mode == timer_at(s, id).context_mode,
    decreases outs.len(),
{
    if outs.len() > 0 {
        let s1 = apply_round_updates(s, outs.drop_last());
        lemma_round_updates_keep_modes(s, outs.drop_last(), id);
        let o = outs.last();
        if has_timer(s1, o.loop_id@) && timer_at(s1, o.loop_id@).context_mode == LoopContextMode::Persistent {
            let t = LoopTimerView {
                rollout_path: opt_view(o.update.rollout_path),
                last_completed_at_unix_seconds: o.update.last_completed_at_unix_seconds,
                ..timer_at(s1, o.loop_id@)
            };
            let p = timer_pos(s1, o.loop_id@);
            assert(s1[p].id == o.loop_id@);
            lemma_replace_keeps_ids(s1, o.loop_id@, t, id);
            if has_timer(s1, id) {
                let q = timer_pos(s1, id);
                assert(s1[q].id == id);
                let s2 = s1.update(p, t);
                lemma_timer_pos(s2, q);
                lemma_timer_pos(s1, q);
            }
        }
    }
}

/// What finishing an after-turn round reports.
#[derive(Debug, PartialEq, Eq)]
pub struct AfterTurnRoundReport {
    /// Errors to show: those of the round's loops, or the round's own.
    pub errors: Vec<String>,
    /// Answers that go into the main thread's history as assistant
    /// messages, under info lines that name their sources.
    pub mirrored: Vec<(LoopReplySource, String)>,
    /// Whether loop state changed and is to be saved.
    pub persist: bool,
}

impl App {
    /// Applies one output of an after-turn round to the timers; returns
    /// whether it belonged to a persistent loop.
    fn apply_after_turn_update(&mut self, o: &AfterTurnLoopOutput) -> (r: bool)
        requires
            old(self).wf(),
        ensures
            final(self).wf(),
            only_timers_differ(*old(self), *final(self)),
            final(self).loop_timers.timers@ == apply_round_update(old(self).loop_timers.timers@, *o),
            r == (has_timer(old(self).loop_timers.timers@, o.loop_id@)
                && timer_at(old(self).loop_timers.timers@, o.loop_id@).context_mode == LoopContextMode::Persistent),
    {
        match self.loop_timers.timers.position(o.loop_id.as_str()) {
            None => false,
            Some(i) => {
                let mut t = self.take_loop_timer(i);
                if t.context_mode != LoopContextMode::Persistent {
                    self.restore_loop_timer(i, t);
                    proof {
                        assert(self.loop_timers.timers@ =~= old(self).loop_timers.timers@);
                    }
                    return false;
                }
                t.rollout_path = copy_opt_string(&o.update.rollout_path);
                t.last_completed_at_unix_seconds = o.update.last_completed_at_unix_seconds;
                self.restore_loop_timer(i, t);
                proof {
                    assert(self.loop_timers.timers@ =~= old(self).loop_timers.timers@.update(i as int, t@));
                }
                true
            },
        }
    }

    /// An after-turn round finished with `result`: the round is no longer
    /// in flight; persistent loops take the thread and completion time
    /// their runs reported; answers go back as the loops' response modes
    /// say, user turns being queued behind the follow-ups already waiting.
    /// Without a main thread, the after-turn queue is dropped instead.
    pub fn finish_primary_after_turn_round(&mut self, result: Result<AfterTurnRoundResult, String>) -> (r: AfterTurnRoundReport)
        requires
            old(self).wf(),
        ensures
            final(self).wf(),
            final(self).primary_thread_id == old(self).primary_thread_id,
            final(self).workflow_scheduler == old(self).workflow_scheduler,
            final(self).loop_timers.scheduler_tasks == old(self).loop_timers.scheduler_tasks,
            final(self).loop_timers.idle_scheduler_tasks == old(self).loop_timers.idle_scheduler_tasks,
            final(self).loop_timers.idle_due_at == old(self).loop_timers.idle_due_at,
            ({
                let s = old(self).loop_timers.timers@;
                let q = old(self).loop_timers.after_turn_scheduler@;
                let q1 = AfterTurnSchedulerView { round_in_flight: false, current_loop_label: None, ..q };
                let q2 = final(self).loop_timers.after_turn_scheduler@;
                if old(self).primary_thread_id is None {
                    &&& q2.is_idle() && q2.current_loop_label is None
                    &&& final(self).loop_timers.timers@ == s
                    &&& r.errors@.len() == 0 && r.mirrored@.len() == 0 && !r.persist
                } else {
                    match result {
                        Err(e) => {
                            &&& views(r.errors@) == seq!["After-turn loop queue failed: "@ + e@]
                            &&& r.mirrored@.len() == 0 && !r.persist
                            &&& final(self).loop_timers.timers@ == s
                            &&& q2 == q1
                        },
                        Ok(res) => {
                            &&& views(r.errors@) == views(res.errors@)
                            &&& r.mirrored@ == round_replies(res.outputs@)
                            &&& r.persist == round_persists(s, res.outputs@)
                            &&& final(self).loop_timers.timers@ == apply_round_updates(s, res.outputs@)
                            &&& q2 == (AfterTurnSchedulerView {
                                pending_followups: q1.pending_followups + round_followups(res.outputs@),
                                ..q1
                            })
                        },
                    }
                }
            }),
    {
        self.loop_timers.after_turn_scheduler.note_round_completed();
        if self.primary_thread_id.is_none() {
            self.loop_timers.after_turn_scheduler.clear();
            return AfterTurnRoundReport { errors: Vec::new(), mirrored: Vec::new(), persist: false };
        }
        match result {
            Err(e) => {
                let mut errors: Vec<String> = Vec::new();
                errors.push(concat2("After-turn loop queue failed: ", e.as_str()));
                proof {
                    assert(views(errors@) =~= seq!["After-turn loop queue failed: "@ + e@]);
                }
                AfterTurnRoundReport { errors, mirrored: Vec::new(), persist: false }
            },
            Ok(res) => {
                let ghost s = old(self).loop_timers.timers@;
                let ghost all = res.outputs@;
                let AfterTurnRoundResult { outputs, errors } = res;
                let mut rest = outputs;
                let mut mirrored: Vec<(LoopReplySource, String)> = Vec::new();
                let mut followups: Vec<LoopMirroredUserTurn> = Vec::new();
                let mut persist = false;
                let mut i: usize = 0;
                let total = rest.len();
                let ghost q1 = self.loop_timers.after_turn_scheduler@;
                while rest.len() > 0
                    invariant
                        self.wf(),
                        total == all.len(),
                        self.primary_thread_id == old(self).primary_thread_id,
                        self.workflow_scheduler == old(self).workflow_scheduler,
                        self.loop_timers.scheduler_tasks == old(self).loop_timers.scheduler_tasks,
                        self.loop_timers.idle_scheduler_tasks == old(self).loop_timers.idle_scheduler_tasks,
                        self.loop_timers.idle_due_at == old(self).loop_timers.idle_due_at,
                        ids_unique(s),
                        s == old(self).loop_timers.timers@,
                        self.loop_timers.after_turn_scheduler@ == q1,
                        q1.at_most_one_in_flight(),
                        rest@ == all.skip(i as int),
                        i <= all.len(),
                        self.loop_timers.timers@ == apply_round_updates(s, all.take(i as int)),
                        mirrored@ == round_replies(all.take(i as int)),
                        followups@ == round_followups(all.take(i as int)),
                        persist == round_persists(s, all.take(i as int)),
                    decreases rest@.len(),
                {
                    let o = rest.remove(0);
                    proof {
                        assert(o == all[i as int]);
                        assert(all.take(i + 1).drop_last() =~= all.take(i as int));
                        assert(all.take(i + 1).last() == o);
                        lemma_round_updates_keep_modes(s, all.take(i as int), o.loop_id@);
                    }
                    let hit = self.apply_after_turn_update(&o);
                    proof {
                        let pre = all.take(i as int);
                        let post = all.take(i + 1);
                        if hit {
                            assert(post[i as int] == o);
                            assert(round_persists(s, post));
                        } else if round_persists(s, post) {
                            let j = choose|j: int| 0 <= j < post.len() && has_timer(s, #[trigger] post[j].loop_id@)
                                && timer_at(s, post[j].loop_id@).context_mode == LoopContextMode::Persistent;
                            if j < i {
                                assert(post[j] == pre[j]);
                                assert(round_persists(s, pre));
                            }
                        }
                        if round_persists(s, pre) {
                            let j = choose|j: int| 0 <= j < pre.len() && has_timer(s, #[trigger] pre[j].loop_id@)
                                && timer_at(s, pre[j].loop_id@).context_mode == LoopContextMode::Persistent;
                            assert(post[j] == pre[j]);
                            assert(round_persists(s, post));
                        }
                    }
                    persist = persist || hit;
                    let AfterTurnLoopOutput { loop_id, response_mode, message, action, update: _ } = o;
                    match message {
                        Some(m) => {
                            let source = LoopReplySource { loop_id, action };
                            if response_mode == LoopResponseMode::Assistant {
                                mirrored.push((source, m));
                            } else {
                                followups.push(LoopMirroredUserTurn { text: m, source });
                            }
                        },
                        None => {},
                    }
                    proof {
                        assert(rest@ =~= all.skip(i + 1));
                    }
                    i = i + 1;
                }
                proof {
                    assert(all.take(i as int) =~= all);
                }
                self.loop_timers.after_turn_scheduler.push_followups(followups);
                AfterTurnRoundReport { errors, mirrored, persist }
            },
        }
    }
}

/// `t` with its schedule settled: its primary scheduled trigger, given
/// `timer_schedule`, the schedule of its timer triggers, where it has one.
pub open spec fn settle_schedule(t: LoopTimerView, timer_schedule: Option<LoopScheduleView>) -> LoopTimerView {
    match primary_scheduled_trigger_spec(t, timer_schedule) {
        Some(p) => LoopTimerView { schedule: p, ..t },
        None => t,
    }
}

/// The view of an optional schedule.
pub open spec fn schedule_opt_view(s: Option<LoopSchedule>) -> Option<LoopScheduleView> {
    match s {
        Some(x) => Some(x@),
        None => None,
    }
}

/// Replacing the timer `id` by `e` and then settling its schedule is
/// replacing it by `e` with its schedule settled.
proof fn lemma_settle_after_edit(s: Seq<LoopTimerView>, id: Seq<char>, e: LoopTimerView, ts: Option<LoopScheduleView>)
    requires
        ids_unique(s),
        has_timer(s, id),
        e.id == id,
    ensures
        ids_unique(replace_timer(s, id, e)),
        has_timer(replace_timer(s, id, e), id),
        timer_at(replace_timer(s, id, e), id) == e,
        ({
            let mid = replace_timer(s, id, e);
            let p = primary_scheduled_trigger_spec(e, ts);
            (if p is Some {
                replace_timer(mid, id, LoopTimerView { schedule: p->0, ..e })
            } else {
                mid
            }) == replace_timer(s, id, settle_schedule(e, ts))
        }),
{
    lemma_replace_keeps_ids(s, id, e, id);
    let pos = timer_pos(s, id);
    let mid = replace_timer(s, id, e);
    assert(mid[pos].id == id);
    lemma_timer_pos(mid, pos);
    let p = primary_scheduled_trigger_spec(e, ts);
    if p is Some {
        assert(replace_timer(mid, id, LoopTimerView { schedule: p->0, ..e }) =~= replace_timer(s, id, settle_schedule(e, ts)));
    }
}

/// What a change of a loop's triggers did: the edit, and the keys of the
/// loop's idle-trigger waits that stopped, for the caller to abort and arm
/// again from the loop's idle queue.
#[derive(Debug, PartialEq, Eq)]
pub struct LoopTriggerChange {
    pub edit: LoopEdit,
    pub cancelled_idle: Vec<String>,
}

/// What a change of the triggers of loop `id`, into `edited` where it is
/// saved, leaves behind: a saved change puts `edited` in place with its
/// schedule settled and stops the loop's idle-trigger waits; any other
/// outcome changes nothing.
pub open spec fn trigger_change_done(
    a: App,
    b: App,
    id: Seq<char>,
    r: LoopTriggerChange,
    edited: LoopTimerView,
    timer_schedule: Option<LoopScheduleView>,
) -> bool {
    let s = a.loop_timers.timers@;
    &&& b.primary_thread_id == a.primary_thread_id
    &&& b.workflow_scheduler == a.workflow_scheduler
    &&& b.loop_timers.scheduler_tasks == a.loop_timers.scheduler_tasks
    &&& b.loop_timers.after_turn_scheduler == a.loop_timers.after_turn_scheduler
    &&& if r.edit == LoopEdit::Saved {
        &&& has_timer(s, id)
        &&& b.loop_timers.timers@ == replace_timer(s, id, settle_schedule(edited, timer_schedule))
        &&& views(r.cancelled_idle@).to_set() == a.loop_timers.idle_scheduler_tasks.keys().filter(
            |k: Seq<char>| has_prefix(k, id + ":"@),
        )
        &&& b.loop_timers.idle_scheduler_tasks.keys() == a.loop_timers.idle_scheduler_tasks.keys().difference(
            views(r.cancelled_idle@).to_set(),
        )
        &&& b.loop_timers.idle_due_at.keys() == a.loop_timers.idle_due_at.keys().difference(
            views(r.cancelled_idle@).to_set(),
        )
    } else {
        &&& b.loop_timers.timers@ == s
        &&& r.cancelled_idle@.len() == 0
        &&& b.loop_timers.idle_scheduler_tasks == a.loop_timers.idle_scheduler_tasks
        &&& b.loop_timers.idle_due_at == a.loop_timers.idle_due_at
    }
}

impl App {
    /// Settles loop `timer_id` after a saved change of its triggers.
    fn settle_trigger_change(&mut self, timer_id: &str, edit: LoopEdit, timer_schedule: Option<LoopSchedule>)
        -> (r: LoopTriggerChange)
        requires
            old(self).wf(),
        ensures
            final(self).wf(),
            r.edit == edit,
            edit == LoopEdit::Saved ==> ({
                let s = old(self).loop_timers.timers@;
                let p = primary_scheduled_trigger_spec(timer_at(s, timer_id@), schedule_opt_view(timer_schedule));
                &&& final(self).loop_timers.timers@ == (if has_timer(s, timer_id@) && p is Some {
                    replace_timer(s, timer_id@, LoopTimerView { schedule: p->0, ..timer_at(s, timer_id@) })
                } else {
                    s
                })
                &&& views(r.cancelled_idle@).to_set() == old(self).loop_timers.idle_scheduler_tasks.keys().filter(
                    |k: Seq<char>| has_prefix(k, timer_id@ + ":"@),
                )
                &&& final(self).loop_timers.idle_scheduler_tasks.keys() == old(self).loop_timers.idle_scheduler_tasks.keys().difference(
                    views(r.cancelled_idle@).to_set(),
                )
                &&& final(self).loop_timers.idle_due_at.keys() == old(self).loop_timers.idle_due_at.keys().difference(
                    views(r.cancelled_idle@).to_set(),
                )
            }),
            edit != LoopEdit::Saved ==> *final(self) == *old(self) && r.cancelled_idle@.len() == 0,
            final(self).primary_thread_id == old(self).primary_thread_id,
            final(self).workflow_scheduler == old(self).workflow_scheduler,
            final(self).loop_timers.scheduler_tasks == old(self).loop_timers.scheduler_tasks,
            final(self).loop_timers.after_turn_scheduler == old(self).loop_timers.after_turn_scheduler,
    {
        let saved = match edit {
            LoopEdit::Saved => true,
            _ => false,
        };
        if saved {
            let cancelled = self.normalize_loop_after_trigger_change(timer_id, timer_schedule);
            LoopTriggerChange { edit, cancelled_idle: cancelled }
        } else {
            LoopTriggerChange { edit, cancelled_idle: Vec::new() }
        }
    }

    /// Switches the trigger `binding_id` of loop timer `timer_id` on or off
    /// (the first trigger with that id), then settles the loop: its schedule
    /// becomes its primary scheduled trigger, given `timer_schedule`, the
    /// schedule of its timer triggers after the change, where there is one,
    /// and its idle-trigger waits stop, to be armed again. The caller then
    /// shows the loop's triggers panel (the timers panel where it is gone).
    pub fn set_loop_trigger_binding_enabled(
        &mut self,
        timer_id: &str,
        binding_id: &str,
        enabled: bool,
        timer_schedule: Option<LoopSchedule>,
    ) -> (r: LoopTriggerChange)
        requires
            old(self).wf(),
        ensures
            final(self).wf(),
            ({
                let s = old(self).loop_timers.timers@;
                let t = timer_at(s, timer_id@);
                let k = binding_pos(t.trigger_bindings, binding_id@);
                &&& r.edit == (if !has_timer(s, timer_id@) {
                    LoopEdit::TimerMissing
                } else if k < 0 {
                    LoopEdit::BindingMissing
                } else {
                    LoopEdit::Saved
                })
                &&& trigger_change_done(*old(self), *final(self), timer_id@, r, LoopTimerView {
                    trigger_bindings: t.trigger_bindings.update(k, LoopTriggerBindingView { enabled, ..t.trigger_bindings[k] }),
                    ..t
                }, schedule_opt_view(timer_schedule))
            }),
    {
        let ghost s = self.loop_timers.timers@;
        let ghost t = timer_at(s, timer_id@);
        let ghost k = binding_pos(t.trigger_bindings, binding_id@);
        let ghost e = LoopTimerView {
            trigger_bindings: t.trigger_bindings.update(k, LoopTriggerBindingView { enabled, ..t.trigger_bindings[k] }),
            ..t
        };
        let edit = self.switch_loop_trigger_binding(timer_id, binding_id, enabled);
        proof {
            if edit == LoopEdit::Saved {
                lemma_settle_after_edit(s, timer_id@, e, schedule_opt_view(timer_schedule));
            }
        }
        self.settle_trigger_change(timer_id, edit, timer_schedule)
    }

    /// Drops every trigger `binding_id` of loop timer `timer_id`, then
    /// settles the loop as `set_loop_trigger_binding_enabled` does, given
    /// `timer_schedule`, the schedule of its timer triggers after the change.
    pub fn delete_loop_trigger_binding(&mut self, timer_id: &str, binding_id: &str, timer_schedule: Option<LoopSchedule>)
        -> (r: LoopTriggerChange)
        requires
            old(self).wf(),
        ensures
            final(self).wf(),
            ({
                let s = old(self).loop_timers.timers@;
                let t = timer_at(s, timer_id@);
                &&& r.edit == (if !has_timer(s, timer_id@) {
                    LoopEdit::TimerMissing
                } else {
                    LoopEdit::Saved
                })
                &&& trigger_change_done(*old(self), *final(self), timer_id@, r, LoopTimerView {
                    trigger_bindings: without_binding(t.trigger_bindings, binding_id@),
                    ..t
                }, schedule_opt_view(timer_schedule))
            }),
    {
        let ghost s = self.loop_timers.timers@;
        let ghost t = timer_at(s, timer_id@);
        let ghost e = LoopTimerView { trigger_bindings: without_binding(t.trigger_bindings, binding_id@), ..t };
        let edit = self.drop_loop_trigger_binding(timer_id, binding_id);
        proof {
            if edit == LoopEdit::Saved {
                lemma_settle_after_edit(s, timer_id@, e, schedule_opt_view(timer_schedule));
            }
        }
        self.settle_trigger_change(timer_id, edit, timer_schedule)
    }

    /// Adds a trigger of kind `kind` to loop timer `timer_id`, switched on,
    /// with the id `new_binding_id` (the next free binding id, as the loop
    /// settings give it), then settles the loop as
    /// `set_loop_trigger_binding_enabled` does, given `timer_schedule`, the
    /// schedule of its timer triggers after the change. A loop that already
    /// has a trigger of that kind is refused; where the loop is gone the
    /// caller shows `loop_missing_message`, then the timers panel.
    pub fn add_loop_trigger(
        &mut self,
        timer_id: &str,
        kind: LoopTriggerKind,
        new_binding_id: String,
        timer_schedule: Option<LoopSchedule>,
    ) -> (r: LoopTriggerChange)
        requires
            old(self).wf(),
        ensures
            final(self).wf(),
            ({
                let s = old(self).loop_timers.timers@;
                let t = timer_at(s, timer_id@);
                let taken = exists|j: int| 0 <= j < t.trigger_bindings.len() && #[trigger] t.trigger_bindings[j].kind == kind@;
                &&& if !has_timer(s, timer_id@) {
                    r.edit == LoopEdit::TimerMissing
                } else if taken {
                    r.edit is Refused && r.edit->message@ == "That trigger already exists for this loop."@
                } else {
                    r.edit == LoopEdit::Saved
                }
                &&& trigger_change_done(*old(self), *final(self), timer_id@, r, LoopTimerView {
                    trigger_bindings: t.trigger_bindings.push(
                        LoopTriggerBindingView { id: new_binding_id@, enabled: true, kind: kind@ },
                    ),
                    ..t
                }, schedule_opt_view(timer_schedule))
            }),
    {
        let ghost s = self.loop_timers.timers@;
        let ghost t = timer_at(s, timer_id@);
        let ghost e = LoopTimerView {
            trigger_bindings: t.trigger_bindings.push(LoopTriggerBindingView { id: new_binding_id@, enabled: true, kind: kind@ }),
            ..t
        };
        let edit = self.attach_loop_trigger(timer_id, kind, new_binding_id);
        proof {
            if edit == LoopEdit::Saved {
                lemma_settle_after_edit(s, timer_id@, e, schedule_opt_view(timer_schedule));
            }
        }
        self.settle_trigger_change(timer_id, edit, timer_schedule)
    }
}

/// Timer `t` with its binding `binding_id` (the first with that id) of kind
/// `kind` and its schedule `schedule`.
pub open spec fn rebound_timer(t: LoopTimerView, binding_id: Seq<char>, kind: LoopTriggerKindView, schedule: LoopScheduleView) -> LoopTimerView {
    let k = binding_pos(t.trigger_bindings, binding_id);
    LoopTimerView {
        trigger_bindings: t.trigger_bindings.update(k, LoopTriggerBindingView { kind, ..t.trigger_bindings[k] }),
        schedule,
        ..t
    }
}

/// `t` with binding `binding_id` pointed at the timer schedule `parsed`
/// gave, where it parsed.
pub open spec fn rebound_schedule_timer(t: LoopTimerView, binding_id: Seq<char>, parsed: Result<LoopSchedule, String>) -> LoopTimerView {
    match parsed {
        Ok(x) => rebound_timer(t, binding_id, LoopTriggerKindView::Timer { schedule: x@ }, x@),
        Err(_) => t,
    }
}

/// `t` with binding `binding_id` pointed at the idle delay `parsed` gave,
/// where it parsed.
pub open spec fn rebound_idle_timer(t: LoopTimerView, binding_id: Seq<char>, parsed: Result<LoopSchedule, String>) -> LoopTimerView {
    match parsed {
        Ok(x) => rebound_timer(t, binding_id, LoopTriggerKindView::Idle { after: x@ }, x@),
        Err(_) => t,
    }
}

/// The outcome of pointing a binding of loop `id` at a parsed schedule.
pub open spec fn rebind_outcome(s: Seq<LoopTimerView>, id: Seq<char>, binding_id: Seq<char>, parsed: Result<LoopSchedule, String>, r: LoopEdit) -> bool {
    match parsed {
        Err(e) => r is Refused && r->message@ == "Failed to update loop trigger: "@ + e@,
        Ok(_) => r == (if !has_timer(s, id) {
            LoopEdit::TimerMissing
        } else if binding_pos(timer_at(s, id).trigger_bindings, binding_id) < 0 {
            LoopEdit::BindingMissing
        } else {
            LoopEdit::Saved
        }),
    }
}

impl App {
    /// Points the trigger `binding_id` of loop timer `timer_id` (the first
    /// with that id) at `parsed`, the schedule its editor's text gave, which
    /// becomes the loop's schedule too, then settles the loop as
    /// `set_loop_trigger_binding_enabled` does, given `timer_schedule`, the
    /// schedule of its timer triggers after the change; a text that did not
    /// parse is refused with its error.
    pub fn save_loop_trigger_binding_schedule(
        &mut self,
        timer_id: &str,
        binding_id: &str,
        parsed: Result<LoopSchedule, String>,
        timer_schedule: Option<LoopSchedule>,
    ) -> (r: LoopTriggerChange)
        requires
            old(self).wf(),
        ensures
            final(self).wf(),
            rebind_outcome(old(self).loop_timers.timers@, timer_id@, binding_id@, parsed, r.edit),
            trigger_change_done(*old(self), *final(self), timer_id@, r,
                rebound_schedule_timer(timer_at(old(self).loop_timers.timers@, timer_id@), binding_id@, parsed),
                schedule_opt_view(timer_schedule)),
    {
        let ghost s = self.loop_timers.timers@;
        let ghost e = rebound_schedule_timer(timer_at(s, timer_id@), binding_id@, parsed);
        let edit = self.point_binding_schedule(timer_id, binding_id, parsed);
        proof {
            if edit == LoopEdit::Saved {
                lemma_settle_after_edit(s, timer_id@, e, schedule_opt_view(timer_schedule));
            }
        }
        self.settle_trigger_change(timer_id, edit, timer_schedule)
    }

    /// Points the idle trigger `binding_id` of loop timer `timer_id` (the
    /// first with that id) at `parsed`, the delay its editor's text gave,
    /// which becomes the loop's schedule too, then settles the loop as
    /// `set_loop_trigger_binding_enabled` does, given `timer_schedule`, the
    /// schedule of its timer triggers after the change; a text that did not
    /// parse is refused with its error.
    pub fn save_loop_trigger_binding_idle_after(
        &mut self,
        timer_id: &str,
        binding_id: &str,
        parsed: Result<LoopSchedule, String>,
        timer_schedule: Option<LoopSchedule>,
    ) -> (r: LoopTriggerChange)
        requires
            old(self).wf(),
        ensures
            final(self).wf(),
            rebind_outcome(old(self).loop_timers.timers@, timer_id@, binding_id@, parsed, r.edit),
            trigger_change_done(*old(self), *final(self), timer_id@, r,
                rebound_idle_timer(timer_at(old(self).loop_timers.timers@, timer_id@), binding_id@, parsed),
                schedule_opt_view(timer_schedule)),
    {
        let ghost s = self.loop_timers.timers@;
        let ghost e = rebound_idle_timer(timer_at(s, timer_id@), binding_id@, parsed);
        let edit = self.point_binding_idle_after(timer_id, binding_id, parsed);
        proof {
            if edit == LoopEdit::Saved {
                lemma_settle_after_edit(s, timer_id@, e, schedule_opt_view(timer_schedule));
            }
        }
        self.settle_trigger_change(timer_id, edit, timer_schedule)
    }
}

} // verus!
