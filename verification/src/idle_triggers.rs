//! Arming the waits of idle triggers and of timers, and taking the idle
//! triggers that have come due.
use vstd::prelude::*;
use vstd::string::*;
use crate::app::App;
use crate::loop_book::{binding_pos, binding_views, has_timer, timer_at, LoopSchedule, LoopScheduleView, LoopTimerView, LoopTriggerKind, LoopTriggerKindView};
use crate::loop_editing::find_binding;
use crate::loop_timers::{idle_binding_task_key, IdleDueTimes};
use crate::seq_facts::lemma_push_contains;
use crate::text::{lemma_views_push, str_eq, views};
use crate::turn_phases::LoopTriggerQueueEntry;
use crate::app_event::LoopTimerTriggerSource;

verus! {

/// The key of the wait of trigger `binding_id` of loop `loop_id`.
pub open spec fn task_key(loop_id: Seq<char>, binding_id: Seq<char>) -> Seq<char> {
    loop_id + ":"@ + binding_id
}

impl App {
    /// Arms the wait of trigger `binding_id` of loop `loop_id`, due at
    /// `due_at_unix_seconds`, in place of any wait it had; returns whether
    /// there was one, for the caller to abort.
    pub fn schedule_idle_trigger(&mut self, loop_id: &str, binding_id: &str, due_at_unix_seconds: i64) -> (r: bool)
        requires
            old(self).loop_timers.wf(),
        ensures
            final(self).loop_timers.wf(),
            r == old(self).loop_timers.idle_scheduler_tasks.keys().contains(task_key(loop_id@, binding_id@)),
            final(self).loop_timers.idle_scheduler_tasks.keys()
                == old(self).loop_timers.idle_scheduler_tasks.keys().insert(task_key(loop_id@, binding_id@)),
            final(self).loop_timers.idle_due_at.keys()
                == old(self).loop_timers.idle_due_at.keys().insert(task_key(loop_id@, binding_id@)),
            final(self).loop_timers.idle_due_at.due_at(task_key(loop_id@, binding_id@)) == Some(due_at_unix_seconds),
            forall|k: Seq<char>| k != task_key(loop_id@, binding_id@)
                ==> #[trigger] final(self).loop_timers.idle_due_at.due_at(k) == old(self).loop_timers.idle_due_at.due_at(k),
            final(self).loop_timers.scheduler_tasks == old(self).loop_timers.scheduler_tasks,
            final(self).loop_timers.timers == old(self).loop_timers.timers,
            final(self).loop_timers.after_turn_scheduler == old(self).loop_timers.after_turn_scheduler,
            final(self).primary_thread_id == old(self).primary_thread_id,
            final(self).workflow_scheduler == old(self).workflow_scheduler,
    {
        let key = idle_binding_task_key(loop_id, binding_id);
        let had = self.stop_idle_trigger_scheduler(key.as_str());
        let ghost mid = self.loop_timers.idle_due_at;
        self.loop_timers.idle_due_at.insert(key.clone(), due_at_unix_seconds);
        self.loop_timers.idle_scheduler_tasks.insert(key);
        proof {
            assert(self.loop_timers.idle_due_at.keys() =~= old(self).loop_timers.idle_due_at.keys().insert(
                task_key(loop_id@, binding_id@),
            ));
            assert(self.loop_timers.idle_scheduler_tasks.keys() =~= old(self).loop_timers.idle_scheduler_tasks.keys().insert(
                task_key(loop_id@, binding_id@),
            ));
            assert forall|k: Seq<char>| k != task_key(loop_id@, binding_id@) implies
                #[trigger] self.loop_timers.idle_due_at.due_at(k) == old(self).loop_timers.idle_due_at.due_at(k) by {
                assert(mid.due_at(k) == old(self).loop_timers.idle_due_at.due_at(k));
            }
        }
        had
    }

    /// Arms the scheduler of timer `timer_id`, in place of any it had;
    /// returns whether there was one, for the caller to abort.
    pub fn schedule_loop_timer(&mut self, timer_id: &str) -> (r: bool)
        requires
            old(self).loop_timers.wf(),
        ensures
            final(self).loop_timers.wf(),
            r == old(self).loop_timers.scheduler_tasks.keys().contains(timer_id@),
            final(self).loop_timers.scheduler_tasks.keys() == old(self).loop_timers.scheduler_tasks.keys().insert(timer_id@),
            final(self).loop_timers.idle_scheduler_tasks == old(self).loop_timers.idle_scheduler_tasks,
            final(self).loop_timers.idle_due_at == old(self).loop_timers.idle_due_at,
            final(self).loop_timers.timers == old(self).loop_timers.timers,
            final(self).loop_timers.after_turn_scheduler == old(self).loop_timers.after_turn_scheduler,
            final(self).loop_timers.active_runs == old(self).loop_timers.active_runs,
            final(self).primary_thread_id == old(self).primary_thread_id,
            final(self).workflow_scheduler == old(self).workflow_scheduler,
    {
        let had = self.stop_loop_timer_scheduler(timer_id);
        self.loop_timers.scheduler_tasks.insert(String::from_str(timer_id));
        proof {
            assert(self.loop_timers.scheduler_tasks.keys() =~= old(self).loop_timers.scheduler_tasks.keys().insert(timer_id@));
        }
        had
    }
}

/// An idle trigger to arm: the loop, the trigger, and its delay.
#[derive(Debug, PartialEq, Eq)]
pub struct IdleTriggerToArm {
    pub loop_id: String,
    pub binding_id: String,
    pub after: LoopSchedule,
}

/// The delay of the trigger that entry `e` names, where that trigger is an
/// idle one that is on, of a loop that exists and is on.
pub open spec fn entry_idle_after(e: LoopTriggerQueueEntry, book: Seq<LoopTimerView>) -> Option<LoopScheduleView> {
    if !has_timer(book, e.loop_id@) {
        None
    } else {
        let t = timer_at(book, e.loop_id@);
        let k = binding_pos(t.trigger_bindings, e.binding_id@);
        if k < 0 || !t.enabled || !t.trigger_bindings[k].enabled {
            None
        } else {
            match t.trigger_bindings[k].kind {
                LoopTriggerKindView::Idle { after } => Some(after),
                _ => None,
            }
        }
    }
}

/// The idle triggers that the queue `entries` arms, in queue order, each as
/// its loop, its trigger and its delay; only those of loop `only` where that
/// is given.
pub open spec fn idle_arms(entries: Seq<LoopTriggerQueueEntry>, book: Seq<LoopTimerView>, only: Option<Seq<char>>)
    -> Seq<(Seq<char>, Seq<char>, LoopScheduleView)>
    decreases entries.len(),
{
    if entries.len() == 0 {
        Seq::empty()
    } else {
        let rest = idle_arms(entries.drop_last(), book, only);
        let e = entries.last();
        let wanted = match only {
            Some(l) => e.loop_id@ == l,
            None => true,
        };
        match entry_idle_after(e, book) {
            Some(after) => if wanted {
                rest.push((e.loop_id@, e.binding_id@, after))
            } else {
                rest
            },
            None => rest,
        }
    }
}

/// The views of `v`.
pub open spec fn arm_views(v: Seq<IdleTriggerToArm>) -> Seq<(Seq<char>, Seq<char>, LoopScheduleView)> {
    v.map_values(|a: IdleTriggerToArm| (a.loop_id@, a.binding_id@, a.after@))
}

impl App {
    /// The idle triggers that the idle queue `entries` arms, in queue order,
    /// with their delays; only those of loop `only_loop_id` where that is
    /// given. An entry whose loop or trigger is gone or off, or whose trigger
    /// is not an idle one, arms nothing.
    pub fn idle_triggers_to_arm(&self, entries: &Vec<LoopTriggerQueueEntry>, only_loop_id: Option<&str>)
        -> (r: Vec<IdleTriggerToArm>)
        requires
            self.loop_timers.wf(),
        ensures
            arm_views(r@) == idle_arms(entries@, self.loop_timers.timers@, match only_loop_id {
                Some(l) => Some(l@),
                None => None,
            }),
    {
        let ghost only: Option<Seq<char>> = match only_loop_id {
            Some(l) => Some(l@),
            None => None,
        };
        let mut r: Vec<IdleTriggerToArm> = Vec::new();
        let mut i: usize = 0;
        while i < entries.len()
            invariant
                i <= entries.len(),
                self.loop_timers.wf(),
                only == match only_loop_id {
                    Some(l) => Some(l@),
                    None => None::<Seq<char>>,
                },
                arm_views(r@) == idle_arms(entries@.take(i as int), self.loop_timers.timers@, only),
            decreases entries.len() - i,
        {
            let e = &entries[i];
            proof {
                assert(entries@.take(i + 1).drop_last() =~= entries@.take(i as int));
                assert(entries@.take(i + 1).last() == *e);
            }
            let wanted = match only_loop_id {
                Some(l) => str_eq(e.loop_id.as_str(), l),
                None => true,
            };
            if wanted {
                match self.loop_timers.timers.get(e.loop_id.as_str()) {
                    Some(t) => {
                        let k = find_binding(&t.trigger_bindings, e.binding_id.as_str());
                        proof {
                            if k < t.trigger_bindings.len() {
                                assert(binding_views(t.trigger_bindings@)[k as int] == t.trigger_bindings@[k as int]@);
                            }
                        }
                        if k < t.trigger_bindings.len() && t.enabled && t.trigger_bindings[k].enabled {
                            match &t.trigger_bindings[k].kind {
                                LoopTriggerKind::Idle { after } => {
                                    let a = IdleTriggerToArm {
                                        loop_id: e.loop_id.clone(),
                                        binding_id: e.binding_id.clone(),
                                        after: after.duplicate(),
                                    };
                                    let ghost before = r@;
                                    r.push(a);
                                    proof {
                                        assert(arm_views(r@) =~= arm_views(before).push((a.loop_id@, a.binding_id@, a.after@)));
                                    }
                                },
                                _ => {},
                            }
                        }
                    },
                    None => {},
                }
            }
            i = i + 1;
        }
        proof {
            assert(entries@.take(entries@.len() as int) =~= entries@);
        }
        r
    }

    /// A round of the main thread completed: every idle wait is dropped, and
    /// the idle triggers that the idle queue `entries` arms are returned, for
    /// the caller to arm from the completion time. Returns the dropped waits'
    /// keys too, for the caller to abort.
    pub fn arm_idle_triggers_for_primary_round(&mut self, entries: &Vec<LoopTriggerQueueEntry>)
        -> (r: (Vec<String>, Vec<IdleTriggerToArm>))
        requires
            old(self).loop_timers.wf(),
        ensures
            final(self).loop_timers.wf(),
            views(r.0@).to_set() == old(self).loop_timers.idle_scheduler_tasks.keys(),
            final(self).loop_timers.idle_scheduler_tasks.keys().is_empty(),
            arm_views(r.1@) == idle_arms(entries@, old(self).loop_timers.timers@, None),
            final(self).loop_timers.timers == old(self).loop_timers.timers,
            final(self).loop_timers.scheduler_tasks == old(self).loop_timers.scheduler_tasks,
    {
        let cancelled = self.cancel_primary_idle_triggers();
        let to_arm = self.idle_triggers_to_arm(entries, None);
        (cancelled, to_arm)
    }

    /// A run of loop `loop_id` started: the idle triggers of that loop that
    /// the idle queue `entries` arms, for the caller to arm from the start.
    pub fn arm_idle_triggers_for_loop_from_now(&self, entries: &Vec<LoopTriggerQueueEntry>, loop_id: &str)
        -> (r: Vec<IdleTriggerToArm>)
        requires
            self.loop_timers.wf(),
        ensures
            arm_views(r@) == idle_arms(entries@, self.loop_timers.timers@, Some(loop_id@)),
    {
        self.idle_triggers_to_arm(entries, Some(loop_id))
    }
}

/// Whether entry `e` of the idle queue is due by `at`: its loop and its idle
/// trigger exist and are on, and the trigger's wait is due by then.
pub open spec fn entry_idle_due(e: LoopTriggerQueueEntry, book: Seq<LoopTimerView>, dues: IdleDueTimes, at: i64) -> bool {
    &&& entry_idle_after(e, book) is Some
    &&& dues.due_at(task_key(e.loop_id@, e.binding_id@)) matches Some(d)
    &&& d <= at
}

/// The entries of the idle queue `entries` that are due by `at`, in order.
pub open spec fn due_idle_entries(entries: Seq<LoopTriggerQueueEntry>, book: Seq<LoopTimerView>, dues: IdleDueTimes, at: i64)
    -> Seq<LoopTriggerQueueEntry>
    decreases entries.len(),
{
    if entries.len() == 0 {
        Seq::empty()
    } else {
        let rest = due_idle_entries(entries.drop_last(), book, dues, at);
        if entry_idle_due(entries.last(), book, dues, at) {
            rest.push(entries.last())
        } else {
            rest
        }
    }
}

/// The keys of the waits of `entries`.
pub open spec fn entry_keys(entries: Seq<LoopTriggerQueueEntry>) -> Seq<Seq<char>> {
    entries.map_values(|e: LoopTriggerQueueEntry| task_key(e.loop_id@, e.binding_id@))
}

/// The loops of `entries`.
pub open spec fn entry_loops(entries: Seq<LoopTriggerQueueEntry>) -> Seq<Seq<char>> {
    entries.map_values(|e: LoopTriggerQueueEntry| e.loop_id@)
}

impl App {
    /// The idle triggers of the idle queue `entries` that are due by
    /// `scheduled_for_unix_seconds`: their waits are dropped, and their loops
    /// are returned in queue order, for the caller to run.
    pub fn trigger_due_idle_phase(&mut self, entries: &Vec<LoopTriggerQueueEntry>, scheduled_for_unix_seconds: i64)
        -> (r: Vec<String>)
        requires
            old(self).loop_timers.wf(),
        ensures
            final(self).loop_timers.wf(),
            views(r@) == entry_loops(due_idle_entries(entries@, old(self).loop_timers.timers@,
                old(self).loop_timers.idle_due_at, scheduled_for_unix_seconds)),
            final(self).loop_timers.idle_due_at.keys() == old(self).loop_timers.idle_due_at.keys().difference(
                entry_keys(due_idle_entries(entries@, old(self).loop_timers.timers@, old(self).loop_timers.idle_due_at,
                    scheduled_for_unix_seconds)).to_set(),
            ),
            final(self).loop_timers.idle_scheduler_tasks.keys() == old(self).loop_timers.idle_scheduler_tasks.keys().difference(
                entry_keys(due_idle_entries(entries@, old(self).loop_timers.timers@, old(self).loop_timers.idle_due_at,
                    scheduled_for_unix_seconds)).to_set(),
            ),
            forall|k: Seq<char>| #[trigger] final(self).loop_timers.idle_due_at.due_at(k) is Some
                ==> final(self).loop_timers.idle_due_at.due_at(k) == old(self).loop_timers.idle_due_at.due_at(k),
            final(self).loop_timers.timers == old(self).loop_timers.timers,
            final(self).loop_timers.scheduler_tasks == old(self).loop_timers.scheduler_tasks,
            final(self).loop_timers.after_turn_scheduler == old(self).loop_timers.after_turn_scheduler,
            final(self).primary_thread_id == old(self).primary_thread_id,
    {
        let ghost due = due_idle_entries(entries@, self.loop_timers.timers@, self.loop_timers.idle_due_at,
            scheduled_for_unix_seconds);
        let mut loops: Vec<String> = Vec::new();
        let mut keys: Vec<String> = Vec::new();
        let mut i: usize = 0;
        while i < entries.len()
            invariant
                i <= entries.len(),
                self.loop_timers.wf(),
                self.loop_timers == old(self).loop_timers,
                views(loops@) == entry_loops(due_idle_entries(entries@.take(i as int), self.loop_timers.timers@,
                    self.loop_timers.idle_due_at, scheduled_for_unix_seconds)),
                views(keys@) == entry_keys(due_idle_entries(entries@.take(i as int), self.loop_timers.timers@,
                    self.loop_timers.idle_due_at, scheduled_for_unix_seconds)),
            decreases entries.len() - i,
        {
            let e = &entries[i];
            let ghost pre = due_idle_entries(entries@.take(i as int), self.loop_timers.timers@,
                self.loop_timers.idle_due_at, scheduled_for_unix_seconds);
            proof {
                assert(entries@.take(i + 1).drop_last() =~= entries@.take(i as int));
                assert(entries@.take(i + 1).last() == *e);
            }
            let key = idle_binding_task_key(e.loop_id.as_str(), e.binding_id.as_str());
            let mut is_due = false;
            match self.loop_timers.timers.get(e.loop_id.as_str()) {
                Some(t) => {
                    let k = find_binding(&t.trigger_bindings, e.binding_id.as_str());
                    proof {
                        if k < t.trigger_bindings.len() {
                            assert(binding_views(t.trigger_bindings@)[k as int] == t.trigger_bindings@[k as int]@);
                        }
                    }
                    if k < t.trigger_bindings.len() && t.enabled && t.trigger_bindings[k].enabled {
                        match &t.trigger_bindings[k].kind {
                            LoopTriggerKind::Idle { .. } => {
                                match self.loop_timers.idle_due_at.get(key.as_str()) {
                                    Some(d) => {
                                        is_due = d <= scheduled_for_unix_seconds;
                                    },
                                    None => {},
                                }
                            },
                            _ => {},
                        }
                    }
                },
                None => {},
            }
            proof {
                assert(is_due == entry_idle_due(*e, self.loop_timers.timers@, self.loop_timers.idle_due_at,
                    scheduled_for_unix_seconds));
            }
            if is_due {
                let l = e.loop_id.clone();
                proof {
                    lemma_views_push(loops@, l);
                    lemma_views_push(keys@, key);
                    assert(entry_loops(pre.push(*e)) =~= entry_loops(pre).push(e.loop_id@));
                    assert(entry_keys(pre.push(*e)) =~= entry_keys(pre).push(task_key(e.loop_id@, e.binding_id@)));
                }
                loops.push(l);
                keys.push(key);
            }
            i = i + 1;
        }
        proof {
            assert(entries@.take(entries@.len() as int) =~= entries@);
        }
        let ghost all_keys = views(keys@);
        let mut j: usize = 0;
        while j < keys.len()
            invariant
                j <= keys.len(),
                all_keys == views(keys@),
                self.loop_timers.wf(),
                self.loop_timers.idle_due_at.keys() == old(self).loop_timers.idle_due_at.keys().difference(
                    all_keys.take(j as int).to_set(),
                ),
                self.loop_timers.idle_scheduler_tasks.keys() == old(self).loop_timers.idle_scheduler_tasks.keys().difference(
                    all_keys.take(j as int).to_set(),
                ),
                forall|k: Seq<char>| #[trigger] self.loop_timers.idle_due_at.due_at(k) is Some
                    ==> self.loop_timers.idle_due_at.due_at(k) == old(self).loop_timers.idle_due_at.due_at(k),
                self.loop_timers.timers == old(self).loop_timers.timers,
                self.loop_timers.scheduler_tasks == old(self).loop_timers.scheduler_tasks,
                self.loop_timers.after_turn_scheduler == old(self).loop_timers.after_turn_scheduler,
                self.primary_thread_id == old(self).primary_thread_id,
            decreases keys.len() - j,
        {
            let ghost k = all_keys[j as int];
            assert(k == keys@[j as int]@);
            let ghost mid = self.loop_timers.idle_due_at;
            let _ = self.stop_idle_trigger_scheduler(keys[j].as_str());
            proof {
                assert forall|q: Seq<char>| #[trigger] self.loop_timers.idle_due_at.due_at(q) is Some
                    implies self.loop_timers.idle_due_at.due_at(q) == old(self).loop_timers.idle_due_at.due_at(q) by {
                    if q == k {
                        self.loop_timers.idle_due_at.lemma_keys_have_due_times();
                        assert(!self.loop_timers.idle_due_at.keys().contains(q));
                    } else {
                        assert(self.loop_timers.idle_due_at.due_at(q) == mid.due_at(q));
                        assert(mid.due_at(q) is Some);
                        assert(mid.due_at(q) == old(self).loop_timers.idle_due_at.due_at(q));
                    }
                }
                assert(all_keys.take(j + 1) =~= all_keys.take(j as int).push(k));
                lemma_push_contains(all_keys.take(j as int), k);
                assert(self.loop_timers.idle_due_at.keys() =~= old(self).loop_timers.idle_due_at.keys().difference(
                    all_keys.take(j + 1).to_set(),
                ));
                assert(self.loop_timers.idle_scheduler_tasks.keys() =~= old(self).loop_timers.idle_scheduler_tasks.keys().difference(
                    all_keys.take(j + 1).to_set(),
                ));
            }
            j = j + 1;
        }
        proof {
            assert(all_keys.take(keys.len() as int) =~= all_keys);
        }
        loops
    }
}

/// A due entry's wait is among the waits that taking the due entries drops.
proof fn lemma_due_entry_key_taken(entries: Seq<LoopTriggerQueueEntry>, book: Seq<LoopTimerView>, dues: IdleDueTimes, at: i64, i: int)
    requires
        0 <= i < entries.len(),
        entry_idle_due(entries[i], book, dues, at),
    ensures
        entry_keys(due_idle_entries(entries, book, dues, at)).contains(task_key(entries[i].loop_id@, entries[i].binding_id@)),
    decreases entries.len(),
{
    let rest = due_idle_entries(entries.drop_last(), book, dues, at);
    let key = task_key(entries[i].loop_id@, entries[i].binding_id@);
    if i == entries.len() - 1 {
        let all = rest.push(entries.last());
        assert(entry_keys(all)[rest.len() as int] == key);
    } else {
        assert(entries.drop_last()[i] == entries[i]);
        lemma_due_entry_key_taken(entries.drop_last(), book, dues, at, i);
        let j = choose|j: int| 0 <= j < entry_keys(rest).len() && entry_keys(rest)[j] == key;
        if entry_idle_due(entries.last(), book, dues, at) {
            assert(entry_keys(rest.push(entries.last()))[j] == key);
        }
    }
}

/// Where no entry is due, none is taken.
proof fn lemma_no_due_entries(entries: Seq<LoopTriggerQueueEntry>, book: Seq<LoopTimerView>, dues: IdleDueTimes, at: i64)
    requires
        forall|i: int| 0 <= i < entries.len() ==> !entry_idle_due(#[trigger] entries[i], book, dues, at),
    ensures
        due_idle_entries(entries, book, dues, at).len() == 0,
    decreases entries.len(),
{
    if entries.len() > 0 {
        assert forall|i: int| 0 <= i < entries.drop_last().len() implies
            !entry_idle_due(#[trigger] entries.drop_last()[i], book, dues, at) by {
            assert(entries.drop_last()[i] == entries[i]);
        }
        lemma_no_due_entries(entries.drop_last(), book, dues, at);
        assert(!entry_idle_due(entries[entries.len() - 1], book, dues, at));
    }
}

/// Due idle triggers fire once: once the due entries of a queue have been
/// taken at `at` (their waits dropped, the other waits kept as they were),
/// taking again at `at` finds none.
pub proof fn lemma_due_idle_triggers_fire_once(
    entries: Seq<LoopTriggerQueueEntry>,
    book: Seq<LoopTimerView>,
    before: IdleDueTimes,
    after: IdleDueTimes,
    at: i64,
)
    requires
        after.wf(),
        after.keys() == before.keys().difference(entry_keys(due_idle_entries(entries, book, before, at)).to_set()),
        forall|k: Seq<char>| #[trigger] after.due_at(k) is Some ==> after.due_at(k) == before.due_at(k),
    ensures
        due_idle_entries(entries, book, after, at).len() == 0,
{
    assert forall|i: int| 0 <= i < entries.len() implies !entry_idle_due(#[trigger] entries[i], book, after, at) by {
        let e = entries[i];
        let key = task_key(e.loop_id@, e.binding_id@);
        if entry_idle_due(e, book, after, at) {
            after.lemma_keys_have_due_times();
            assert(after.due_at(key) is Some);
            assert(after.keys().contains(key));
            assert(entry_idle_due(e, book, before, at));
            lemma_due_entry_key_taken(entries, book, before, at, i);
            assert(entry_keys(due_idle_entries(entries, book, before, at)).to_set().contains(key));
        }
    }
    lemma_no_due_entries(entries, book, after, at);
}

/// The loops of the timer queue `entries` that are due by `at`, in queue
/// order, where `dues[i]` is the due time that the schedule of the loop of
/// `entries[i]` gives from when it was last scheduled: the loop exists and is
/// on, was last scheduled before `at` (never counts as zero), and is due by
/// then.
pub open spec fn due_timer_loops(entries: Seq<LoopTriggerQueueEntry>, dues: Seq<Option<i64>>, book: Seq<LoopTimerView>, at: i64)
    -> Seq<Seq<char>>
    decreases entries.len(),
{
    if entries.len() == 0 {
        Seq::empty()
    } else {
        let rest = due_timer_loops(entries.drop_last(), dues.drop_last(), book, at);
        let e = entries.last();
        let due = {
            &&& has_timer(book, e.loop_id@)
            &&& timer_at(book, e.loop_id@).enabled
            &&& match timer_at(book, e.loop_id@).last_scheduled_at_unix_seconds {
                Some(s) => s < at,
                None => 0 < at,
            }
            &&& dues.last() matches Some(d)
            &&& d <= at
        };
        if due {
            rest.push(timer_at(book, e.loop_id@).id)
        } else {
            rest
        }
    }
}

/// The loops that a trigger of a loop timer runs now, and whether each run
/// moves the loop's schedule on.
#[derive(Debug, PartialEq, Eq)]
pub struct LoopTriggerBatch {
    pub loop_ids: Vec<String>,
    pub update_timer_schedule: bool,
}

impl App {
    /// The loops of the timer queue `entries` that are due by
    /// `scheduled_for_unix_seconds`, in queue order; `dues[i]` is the due
    /// time that the schedule of the loop of `entries[i]` gives from when it
    /// was last scheduled, where it has one.
    pub fn trigger_due_timer_phase(&self, entries: &Vec<LoopTriggerQueueEntry>, dues: &Vec<Option<i64>>, scheduled_for_unix_seconds: i64)
        -> (r: Vec<String>)
        requires
            self.loop_timers.wf(),
            dues.len() == entries.len(),
        ensures
            views(r@) == due_timer_loops(entries@, dues@, self.loop_timers.timers@, scheduled_for_unix_seconds),
    {
        let mut r: Vec<String> = Vec::new();
        let mut i: usize = 0;
        while i < entries.len()
            invariant
                i <= entries.len(),
                dues.len() == entries.len(),
                self.loop_timers.wf(),
                views(r@) == due_timer_loops(entries@.take(i as int), dues@.take(i as int), self.loop_timers.timers@,
                    scheduled_for_unix_seconds),
            decreases entries.len() - i,
        {
            let e = &entries[i];
            proof {
                assert(entries@.take(i + 1).drop_last() =~= entries@.take(i as int));
                assert(entries@.take(i + 1).last() == *e);
                assert(dues@.take(i + 1).drop_last() =~= dues@.take(i as int));
                assert(dues@.take(i + 1).last() == dues@[i as int]);
            }
            match self.loop_timers.timers.get(e.loop_id.as_str()) {
                Some(t) => {
                    let last = match t.last_scheduled_at_unix_seconds {
                        Some(s) => s,
                        None => 0,
                    };
                    if t.enabled && last < scheduled_for_unix_seconds {
                        match dues[i] {
                            Some(d) => {
                                if d <= scheduled_for_unix_seconds {
                                    let id = t.id.clone();
                                    proof {
                                        lemma_views_push(r@, id);
                                    }
                                    r.push(id);
                                }
                            },
                            None => {},
                        }
                    }
                },
                None => {},
            }
            i = i + 1;
        }
        proof {
            assert(entries@.take(entries@.len() as int) =~= entries@);
            assert(dues@.take(dues@.len() as int) =~= dues@);
        }
        r
    }

    /// A loop timer fired from `source`: a timer wait runs the timer queue's
    /// due loops and an idle wait the idle queue's (whose waits are dropped),
    /// each due by `scheduled_for_unix_seconds`; a manual trigger runs loop
    /// `timer_id`. The timer queue is `timer_entries`, with `timer_dues` as in
    /// `trigger_due_timer_phase`, and the idle queue `idle_entries`. Only an
    /// idle trigger leaves the loops' schedules where they are.
    pub fn trigger_loop_timer(
        &mut self,
        timer_id: String,
        scheduled_for_unix_seconds: i64,
        source: LoopTimerTriggerSource,
        timer_entries: &Vec<LoopTriggerQueueEntry>,
        timer_dues: &Vec<Option<i64>>,
        idle_entries: &Vec<LoopTriggerQueueEntry>,
    ) -> (r: LoopTriggerBatch)
        requires
            old(self).loop_timers.wf(),
            timer_dues.len() == timer_entries.len(),
        ensures
            final(self).loop_timers.wf(),
            r.update_timer_schedule == (source != LoopTimerTriggerSource::ScheduledIdle),
            source == LoopTimerTriggerSource::ScheduledTimer ==> {
                &&& views(r.loop_ids@) == due_timer_loops(timer_entries@, timer_dues@, old(self).loop_timers.timers@,
                    scheduled_for_unix_seconds)
                &&& final(self).loop_timers == old(self).loop_timers
            },
            source == LoopTimerTriggerSource::ScheduledIdle ==> {
                &&& views(r.loop_ids@) == entry_loops(due_idle_entries(idle_entries@, old(self).loop_timers.timers@,
                    old(self).loop_timers.idle_due_at, scheduled_for_unix_seconds))
                &&& final(self).loop_timers.idle_due_at.keys() == old(self).loop_timers.idle_due_at.keys().difference(
                    entry_keys(due_idle_entries(idle_entries@, old(self).loop_timers.timers@,
                        old(self).loop_timers.idle_due_at, scheduled_for_unix_seconds)).to_set())
                &&& final(self).loop_timers.idle_scheduler_tasks.keys()
                    == old(self).loop_timers.idle_scheduler_tasks.keys().difference(
                    entry_keys(due_idle_entries(idle_entries@, old(self).loop_timers.timers@,
                        old(self).loop_timers.idle_due_at, scheduled_for_unix_seconds)).to_set())
            },
            source == LoopTimerTriggerSource::Manual ==> {
                &&& r.loop_ids@ == seq![timer_id]
                &&& final(self).loop_timers == old(self).loop_timers
            },
            final(self).loop_timers.timers == old(self).loop_timers.timers,
            final(self).primary_thread_id == old(self).primary_thread_id,
    {
        match source {
            LoopTimerTriggerSource::ScheduledTimer => LoopTriggerBatch {
                loop_ids: self.trigger_due_timer_phase(timer_entries, timer_dues, scheduled_for_unix_seconds),
                update_timer_schedule: true,
            },
            LoopTimerTriggerSource::ScheduledIdle => LoopTriggerBatch {
                loop_ids: self.trigger_due_idle_phase(idle_entries, scheduled_for_unix_seconds),
                update_timer_schedule: false,
            },
            LoopTimerTriggerSource::Manual => {
                let mut ids: Vec<String> = Vec::new();
                ids.push(timer_id);
                LoopTriggerBatch { loop_ids: ids, update_timer_schedule: true }
            },
        }
    }
}

} // verus!
