//! The loop timers' background tasks and which of them stop, the loop
//! panels and menus, what running a timer now does, and what a loop turn
//! answers.
use vstd::prelude::*;
use vstd::string::*;
use crate::after_turn::{
    AfterTurnDrain, AfterTurnRound, AfterTurnSchedulerAction, AfterTurnSchedulerState, AfterTurnSchedulerView,
    LoopMirroredUserTurn, LoopReplySource,
};
use crate::text::{copy_opt_string, opt_view, trim_seq, trim_str};
use crate::app::App;
use crate::history::{is_info, HistoryNotice};
use crate::text::{views, concat2, concat3, str_eq, lemma_views_push};
use crate::seq_facts::{lemma_push_contains, lemma_remove_unique};
use crate::loop_book::{
    first_idle_after, has_timer, timer_at, LoopContextMode, LoopExecutionSettingsView, LoopSchedule, LoopScheduleView, LoopTimer, LoopTimerBook,
    LoopTimerView,
};
use crate::app_event::{AppEvent, LoopTimerTriggerSource};
use crate::selection::{
    PopupHint, SelectionItem, SelectionItemView, SelectionViewParams, SelectionViewParamsView,
    item_views, lemma_item_views_push, single_action,
};

verus! {

/// The key of the task that waits for an idle trigger: `loop:binding`.
pub fn idle_binding_task_key(loop_id: &str, binding_id: &str) -> (r: String)
    ensures
        r@ == loop_id@ + ":"@ + binding_id@,
{
    concat3(loop_id, ":", binding_id)
}

/// A set of task keys, each held once.
pub struct TaskKeys {
    keys: Vec<String>,
}

/// `s` starts with `p`.
pub open spec fn has_prefix(s: Seq<char>, p: Seq<char>) -> bool {
    p.len() <= s.len() && s.subrange(0, p.len() as int) == p
}

impl TaskKeys {
    /// The keys, in the order they were added.
    pub closed spec fn key_seq(&self) -> Seq<Seq<char>> {
        views(self.keys@)
    }

    /// The keys.
    pub open spec fn keys(&self) -> Set<Seq<char>> {
        self.key_seq().to_set()
    }

    /// No key is held twice.
    pub open spec fn wf(&self) -> bool {
        self.key_seq().no_duplicates()
    }

    /// No keys.
    pub fn new() -> (r: Self)
        ensures
            r.wf(),
            r.keys().is_empty(),
    {
        let r = TaskKeys { keys: Vec::new() };
        assert(r.keys() =~= Set::<Seq<char>>::empty());
        r
    }

    /// Adds `key`; adding a key already there changes nothing.
    #[verifier::loop_isolation(false)]
    pub fn insert(&mut self, key: String)
        requires
            old(self).wf(),
        ensures
            final(self).wf(),
            final(self).keys() == old(self).keys().insert(key@),
    {
        let mut i: usize = 0;
        while i < self.keys.len()
            invariant
                i <= self.keys@.len(),
                self.keys@ == old(self).keys@,
                forall|j: int| 0 <= j < i ==> self.keys@[j]@ != key@,
            decreases self.keys@.len() - i,
        {
            if str_eq(self.keys[i].as_str(), key.as_str()) {
                proof {
                    assert(self.key_seq()[i as int] == key@);
                    assert(self.key_seq().contains(key@));
                    assert(self.keys() =~= self.keys().insert(key@));
                }
                return;
            }
            i = i + 1;
        }
        let ghost old_seq = self.key_seq();
        proof {
            assert(!old_seq.contains(key@)) by {
                if old_seq.contains(key@) {
                    let j = choose|j: int| 0 <= j < old_seq.len() && old_seq[j] == key@;
                    assert(self.keys@[j]@ == key@);
                }
            }
            lemma_views_push(self.keys@, key);
            lemma_push_contains(old_seq, key@);
        }
        self.keys.push(key);
        proof {
            assert(self.key_seq() == old_seq.push(key@));
            assert forall|a: int, b: int| 0 <= a < b < self.key_seq().len() implies self.key_seq()[a] != self.key_seq()[b] by {
                if b == old_seq.len() {
                    assert(old_seq.contains(old_seq[a]));
                } else {
                    assert(old_seq[a] != old_seq[b]);
                }
            }
            assert(self.keys() =~= old(self).keys().insert(key@));
        }
    }

    /// Removes `key`; returns whether it was there.
    #[verifier::loop_isolation(false)]
    pub fn remove(&mut self, key: &str) -> (r: bool)
        requires
            old(self).wf(),
        ensures
            final(self).wf(),
            r == old(self).keys().contains(key@),
            final(self).keys() == old(self).keys().remove(key@),
    {
        let mut i: usize = 0;
        while i < self.keys.len()
            invariant
                i <= self.keys@.len(),
                self.keys@ == old(self).keys@,
                forall|j: int| 0 <= j < i ==> self.keys@[j]@ != key@,
            decreases self.keys@.len() - i,
        {
            if str_eq(self.keys[i].as_str(), key) {
                let ghost old_seq = self.key_seq();
                assert(old_seq[i as int] == key@);
                assert(old_seq.contains(key@));
                self.keys.remove(i);
                proof {
                    assert(self.key_seq() =~= old_seq.remove(i as int));
                    lemma_remove_unique(old_seq, i as int);
                    assert(self.keys() =~= old(self).keys().remove(key@));
                }
                return true;
            }
            i = i + 1;
        }
        proof {
            assert(!self.key_seq().contains(key@)) by {
                if self.key_seq().contains(key@) {
                    let j = choose|j: int| 0 <= j < self.key_seq().len() && self.key_seq()[j] == key@;
                    assert(self.keys@[j]@ == key@);
                }
            }
            assert(self.keys() =~= old(self).keys().remove(key@));
        }
        false
    }

    /// The keys that start with `prefix`, in the order they were added.
    pub fn keys_with_prefix(&self, prefix: &str) -> (r: Vec<String>)
        requires
            self.wf(),
        ensures
            views(r@).to_set() == self.keys().filter(|k: Seq<char>| has_prefix(k, prefix@)),
    {
        let mut out: Vec<String> = Vec::new();
        let mut i: usize = 0;
        while i < self.keys.len()
            invariant
                self.wf(),
                i <= self.keys@.len(),
                forall|k: Seq<char>| #[trigger] views(out@).contains(k) <==> (self.key_seq().take(i as int).contains(k) && has_prefix(k, prefix@)),
            decreases self.keys@.len() - i,
        {
            let key = &self.keys[i];
            let ghost kv = self.key_seq()[i as int];
            let ghost before = self.key_seq().take(i as int);
            let ghost after = self.key_seq().take(i + 1);
            assert(kv == key@);
            assert(after =~= before.push(kv));
            proof {
                lemma_push_contains(before, kv);
            }
            let ghost old_out = views(out@);
            if starts_with(key.as_str(), prefix) {
                proof {
                    lemma_views_push(out@, *key);
                }
                out.push(key.clone());
                proof {
                    assert(views(out@) == old_out.push(kv));
                    lemma_push_contains(old_out, kv);
                }
            }
            i = i + 1;
        }
        proof {
            assert(self.key_seq().take(i as int) =~= self.key_seq());
            assert(views(out@).to_set() =~= self.keys().filter(|k: Seq<char>| has_prefix(k, prefix@)));
        }
        out
    }

    /// Whether `key` is held.
    pub fn contains(&self, key: &str) -> (r: bool)
        ensures
            r == self.keys().contains(key@),
    {
        let mut i: usize = 0;
        while i < self.keys.len()
            invariant
                i <= self.keys@.len(),
                forall|j: int| 0 <= j < i ==> self.keys@[j]@ != key@,
            decreases self.keys@.len() - i,
        {
            if str_eq(self.keys[i].as_str(), key) {
                assert(self.key_seq()[i as int] == key@);
                return true;
            }
            i = i + 1;
        }
        proof {
            if self.key_seq().contains(key@) {
                let j = choose|j: int| 0 <= j < self.key_seq().len() && self.key_seq()[j] == key@;
                assert(self.keys@[j]@ == key@);
            }
        }
        false
    }

    /// Removes every key and returns them.
    pub fn drain(&mut self) -> (r: Vec<String>)
        requires
            old(self).wf(),
        ensures
            final(self).wf(),
            final(self).keys().is_empty(),
            views(r@).no_duplicates(),
            views(r@).to_set() == old(self).keys(),
    {
        let mut out: Vec<String> = Vec::new();
        std::mem::swap(&mut out, &mut self.keys);
        assert(self.keys() =~= Set::<Seq<char>>::empty());
        out
    }
}

/// When each waiting idle trigger is due, in Unix seconds, by task key;
/// each key held once.
pub struct IdleDueTimes {
    keys: Vec<String>,
    dues: Vec<i64>,
}

impl IdleDueTimes {
    /// The keys, in the order they were added.
    pub closed spec fn key_seq(&self) -> Seq<Seq<char>> {
        views(self.keys@)
    }

    /// The keys.
    pub open spec fn keys(&self) -> Set<Seq<char>> {
        self.key_seq().to_set()
    }

    /// No key is held twice, and each has a due time.
    pub closed spec fn wf(&self) -> bool {
        &&& self.key_seq().no_duplicates()
        &&& self.keys@.len() == self.dues@.len()
    }

    /// When the trigger `key` is due, where it waits.
    pub closed spec fn due_at(&self, key: Seq<char>) -> Option<i64> {
        if self.key_seq().contains(key) {
            Some(self.dues@[choose|i: int| 0 <= i < self.key_seq().len() && self.key_seq()[i] == key])
        } else {
            None
        }
    }

    /// The due time at position `i` is the one found by its key.
    proof fn lemma_due_at_index(&self, i: int)
        requires
            self.wf(),
            0 <= i < self.keys@.len(),
        ensures
            self.key_seq()[i] == self.keys@[i]@,
            self.due_at(self.keys@[i]@) == Some(self.dues@[i]),
    {
        let k = self.keys@[i]@;
        assert(self.key_seq()[i] == k);
        assert(self.key_seq().contains(k));
        let c = choose|c: int| 0 <= c < self.key_seq().len() && self.key_seq()[c] == k;
        assert(0 <= c < self.key_seq().len() && self.key_seq()[c] == k);
        if c != i {
            assert(self.key_seq()[c] != self.key_seq()[i]);
        }
    }

    /// A key is held exactly when it has a due time.
    pub proof fn lemma_keys_have_due_times(&self)
        requires
            self.wf(),
        ensures
            forall|k: Seq<char>| #[trigger] self.keys().contains(k) <==> self.due_at(k) is Some,
    {
    }

    /// No due times.
    pub fn new() -> (r: Self)
        ensures
            r.wf(),
            r.keys().is_empty(),
    {
        let r = IdleDueTimes { keys: Vec::new(), dues: Vec::new() };
        assert(r.keys() =~= Set::<Seq<char>>::empty());
        r
    }

    /// The position of `key`, or the number of keys when it is not held.
    fn find(&self, key: &str) -> (i: usize)
        requires
            self.wf(),
        ensures
            i <= self.keys@.len(),
            i < self.keys@.len() ==> self.keys@[i as int]@ == key@,
            i == self.keys@.len() ==> !self.keys().contains(key@),
    {
        let mut i: usize = 0;
        while i < self.keys.len()
            invariant
                i <= self.keys@.len(),
                forall|j: int| 0 <= j < i ==> self.keys@[j]@ != key@,
            decreases self.keys@.len() - i,
        {
            if str_eq(self.keys[i].as_str(), key) {
                return i;
            }
            i = i + 1;
        }
        proof {
            if self.key_seq().contains(key@) {
                let j = choose|j: int| 0 <= j < self.key_seq().len() && self.key_seq()[j] == key@;
                assert(self.keys@[j]@ == key@);
            }
        }
        i
    }

    /// When the trigger `key` is due, where it waits.
    pub fn get(&self, key: &str) -> (r: Option<i64>)
        requires
            self.wf(),
        ensures
            r == self.due_at(key@),
    {
        let i = self.find(key);
        if i < self.keys.len() {
            proof {
                self.lemma_due_at_index(i as int);
            }
            Some(self.dues[i])
        } else {
            None
        }
    }

    /// Records that the trigger `key` is due at `due`, in place of any due
    /// time it had.
    pub fn insert(&mut self, key: String, due: i64)
        requires
            old(self).wf(),
        ensures
            final(self).wf(),
            final(self).keys() == old(self).keys().insert(key@),
            final(self).due_at(key@) == Some(due),
            forall|k: Seq<char>| k != key@ ==> #[trigger] final(self).due_at(k) == old(self).due_at(k),
    {
        let i = self.find(key.as_str());
        if i < self.keys.len() {
            self.dues.set(i, due);
            proof {
                assert(self.key_seq() == old(self).key_seq());
                assert(old(self).key_seq().contains(key@)) by {
                    assert(old(self).key_seq()[i as int] == key@);
                }
                assert(self.keys() =~= old(self).keys().insert(key@));
                self.lemma_due_at_index(i as int);
                assert forall|k: Seq<char>| k != key@ implies #[trigger] self.due_at(k) == old(self).due_at(k) by {
                    if self.key_seq().contains(k) {
                        let j = choose|j: int| 0 <= j < self.key_seq().len() && self.key_seq()[j] == k;
                        self.lemma_due_at_index(j);
                        old(self).lemma_due_at_index(j);
                    }
                }
            }
        } else {
            let ghost old_seq = self.key_seq();
            proof {
                lemma_views_push(self.keys@, key);
                lemma_push_contains(old_seq, key@);
            }
            let n = self.keys.len();
            self.keys.push(key);
            self.dues.push(due);
            proof {
                assert(self.key_seq() == old_seq.push(self.keys@[n as int]@));
                assert forall|a: int, b: int| 0 <= a < b < self.key_seq().len() implies self.key_seq()[a] != self.key_seq()[b] by {
                    if b == old_seq.len() {
                        assert(old_seq.contains(old_seq[a]));
                    } else {
                        assert(old_seq[a] != old_seq[b]);
                    }
                }
                assert(self.keys() =~= old(self).keys().insert(self.keys@[n as int]@));
                self.lemma_due_at_index(n as int);
                assert forall|k: Seq<char>| k != self.keys@[n as int]@ implies #[trigger] self.due_at(k) == old(self).due_at(k) by {
                    if self.key_seq().contains(k) {
                        let j = choose|j: int| 0 <= j < self.key_seq().len() && self.key_seq()[j] == k;
                        self.lemma_due_at_index(j);
                        assert(j < n);
                        old(self).lemma_due_at_index(j);
                    } else {
                        assert(!old_seq.contains(k));
                    }
                }
            }
        }
    }

    /// Forgets when the trigger `key` is due; returns whether it was held.
    pub fn remove(&mut self, key: &str) -> (r: bool)
        requires
            old(self).wf(),
        ensures
            final(self).wf(),
            r == old(self).keys().contains(key@),
            final(self).keys() == old(self).keys().remove(key@),
            final(self).due_at(key@) is None,
            forall|k: Seq<char>| k != key@ ==> #[trigger] final(self).due_at(k) == old(self).due_at(k),
    {
        let i = self.find(key);
        if i < self.keys.len() {
            let ghost old_seq = self.key_seq();
            let ghost old_dues = self.dues@;
            assert(old_seq[i as int] == key@);
            assert(old_seq.contains(key@));
            self.keys.remove(i);
            self.dues.remove(i);
            proof {
                assert(self.key_seq() =~= old_seq.remove(i as int));
                lemma_remove_unique(old_seq, i as int);
                assert(self.keys() =~= old(self).keys().remove(key@));
                assert forall|k: Seq<char>| k != key@ implies #[trigger] self.due_at(k) == old(self).due_at(k) by {
                    if self.key_seq().contains(k) {
                        let j = choose|j: int| 0 <= j < self.key_seq().len() && self.key_seq()[j] == k;
                        self.lemma_due_at_index(j);
                        let j0 = if j < i { j } else { j + 1 };
                        assert(old_seq[j0] == k);
                        assert(old_dues[j0] == self.dues@[j]);
                        old(self).lemma_due_at_index(j0);
                    } else {
                        if old_seq.contains(k) {
                            assert(old_seq.remove(i as int).contains(k));
                        }
                    }
                }
            }
            true
        } else {
            proof {
                assert(self.keys() =~= old(self).keys().remove(key@));
            }
            false
        }
    }

    /// Forgets every due time.
    pub fn clear(&mut self)
        requires
            old(self).wf(),
        ensures
            final(self).wf(),
            final(self).keys().is_empty(),
    {
        self.keys = Vec::new();
        self.dues = Vec::new();
        assert(self.keys() =~= Set::<Seq<char>>::empty());
    }
}

/// Whether `s` starts with `prefix`.
pub fn starts_with(s: &str, prefix: &str) -> (r: bool)
    ensures
        r == has_prefix(s@, prefix@),
{
    let n = prefix.unicode_len();
    if n > s.unicode_len() {
        return false;
    }
    let mut i: usize = 0;
    while i < n
        invariant
            n == prefix@.len(),
            n <= s@.len(),
            i <= n,
            forall|k: int| 0 <= k < i ==> s@[k] == prefix@[k],
        decreases n - i,
    {
        if s.get_char(i) != prefix.get_char(i) {
            return false;
        }
        i = i + 1;
    }
    assert(s@.subrange(0, n as int) =~= prefix@);
    true
}

/// The loop timers' tasks: the schedulers of timers, the waits of idle
/// triggers, and the after-turn rounds of the main thread.
pub struct LoopTimersState {
    pub scheduler_tasks: TaskKeys,
    pub idle_scheduler_tasks: TaskKeys,
    pub idle_due_at: IdleDueTimes,
    pub after_turn_scheduler: AfterTurnSchedulerState,
    pub timers: LoopTimerBook,
    /// The loop runs in flight, by timer id.
    pub active_runs: TaskKeys,
}

impl LoopTimersState {
    /// Each task set holds each key once, and the after-turn rounds keep at
    /// most one piece of work in flight.
    pub open spec fn wf(&self) -> bool {
        &&& self.scheduler_tasks.wf()
        &&& self.idle_scheduler_tasks.wf()
        &&& self.idle_due_at.wf()
        &&& self.after_turn_scheduler@.at_most_one_in_flight()
        &&& self.timers.wf()
        &&& self.active_runs.wf()
    }
}

impl App {
    /// Stops the scheduler of timer `timer_id`; returns whether there was
    /// one, for the caller to abort.
    pub fn stop_loop_timer_scheduler(&mut self, timer_id: &str) -> (r: bool)
        requires
            old(self).loop_timers.wf(),
        ensures
            final(self).loop_timers.wf(),
            r == old(self).loop_timers.scheduler_tasks.keys().contains(timer_id@),
            final(self).loop_timers.scheduler_tasks.keys() == old(self).loop_timers.scheduler_tasks.keys().remove(timer_id@),
            final(self).loop_timers.idle_scheduler_tasks == old(self).loop_timers.idle_scheduler_tasks,
            final(self).loop_timers.idle_due_at == old(self).loop_timers.idle_due_at,
            final(self).loop_timers.after_turn_scheduler == old(self).loop_timers.after_turn_scheduler,
            final(self).loop_timers.timers == old(self).loop_timers.timers,
            final(self).loop_timers.active_runs == old(self).loop_timers.active_runs,
            final(self).primary_thread_id == old(self).primary_thread_id,
            final(self).workflow_scheduler == old(self).workflow_scheduler,
    {
        self.loop_timers.scheduler_tasks.remove(timer_id)
    }

    /// Stops the wait of the idle trigger `task_key` and forgets when it was
    /// due; returns whether there was a wait, for the caller to abort.
    pub fn stop_idle_trigger_scheduler(&mut self, task_key: &str) -> (r: bool)
        requires
            old(self).loop_timers.wf(),
        ensures
            final(self).loop_timers.wf(),
            r == old(self).loop_timers.idle_scheduler_tasks.keys().contains(task_key@),
            final(self).loop_timers.idle_scheduler_tasks.keys() == old(self).loop_timers.idle_scheduler_tasks.keys().remove(task_key@),
            final(self).loop_timers.idle_due_at.keys() == old(self).loop_timers.idle_due_at.keys().remove(task_key@),
            forall|k: Seq<char>| k != task_key@
                ==> #[trigger] final(self).loop_timers.idle_due_at.due_at(k) == old(self).loop_timers.idle_due_at.due_at(k),
            final(self).loop_timers.scheduler_tasks == old(self).loop_timers.scheduler_tasks,
            final(self).loop_timers.after_turn_scheduler == old(self).loop_timers.after_turn_scheduler,
            final(self).loop_timers.timers == old(self).loop_timers.timers,
            final(self).primary_thread_id == old(self).primary_thread_id,
            final(self).workflow_scheduler == old(self).workflow_scheduler,
    {
        self.loop_timers.idle_due_at.remove(task_key);
        self.loop_timers.idle_scheduler_tasks.remove(task_key)
    }

    /// Stops every idle-trigger wait; returns their keys, for the caller to abort.
    pub fn cancel_primary_idle_triggers(&mut self) -> (r: Vec<String>)
        requires
            old(self).loop_timers.wf(),
        ensures
            final(self).loop_timers.wf(),
            views(r@).to_set() == old(self).loop_timers.idle_scheduler_tasks.keys(),
            final(self).loop_timers.idle_scheduler_tasks.keys().is_empty(),
            final(self).loop_timers.idle_due_at.keys() == old(self).loop_timers.idle_due_at.keys().difference(
                old(self).loop_timers.idle_scheduler_tasks.keys(),
            ),
            final(self).loop_timers.scheduler_tasks == old(self).loop_timers.scheduler_tasks,
            final(self).loop_timers.timers == old(self).loop_timers.timers,
    {
        let keys = self.loop_timers.idle_scheduler_tasks.drain();
        self.forget_idle_due(&keys);
        proof {
            assert(self.loop_timers.idle_due_at.keys() =~= old(self).loop_timers.idle_due_at.keys().difference(
                old(self).loop_timers.idle_scheduler_tasks.keys(),
            ));
        }
        keys
    }

    /// Stops the idle-trigger waits of loop `loop_id` (keys `loop_id:…`);
    /// returns their keys, for the caller to abort.
    pub fn cancel_idle_triggers_for_loop(&mut self, loop_id: &str) -> (r: Vec<String>)
        requires
            old(self).loop_timers.wf(),
        ensures
            final(self).loop_timers.wf(),
            views(r@).to_set() == old(self).loop_timers.idle_scheduler_tasks.keys().filter(
                |k: Seq<char>| has_prefix(k, loop_id@ + ":"@),
            ),
            final(self).loop_timers.idle_scheduler_tasks.keys() == old(self).loop_timers.idle_scheduler_tasks.keys().difference(
                views(r@).to_set(),
            ),
            final(self).loop_timers.idle_due_at.keys() == old(self).loop_timers.idle_due_at.keys().difference(
                views(r@).to_set(),
            ),
            final(self).loop_timers.scheduler_tasks == old(self).loop_timers.scheduler_tasks,
            final(self).loop_timers.after_turn_scheduler == old(self).loop_timers.after_turn_scheduler,
            final(self).loop_timers.timers == old(self).loop_timers.timers,
            final(self).primary_thread_id == old(self).primary_thread_id,
            final(self).workflow_scheduler == old(self).workflow_scheduler,
    {
        let prefix = concat2(loop_id, ":");
        let keys = self.loop_timers.idle_scheduler_tasks.keys_with_prefix(prefix.as_str());
        let ghost removed = views(keys@).to_set();
        let mut i: usize = 0;
        while i < keys.len()
            invariant
                self.loop_timers.wf(),
                i <= keys@.len(),
                removed == views(keys@).to_set(),
                self.loop_timers.scheduler_tasks == old(self).loop_timers.scheduler_tasks,
                self.loop_timers.after_turn_scheduler == old(self).loop_timers.after_turn_scheduler,
                self.loop_timers.timers == old(self).loop_timers.timers,
                self.primary_thread_id == old(self).primary_thread_id,
                self.workflow_scheduler == old(self).workflow_scheduler,
                self.loop_timers.idle_scheduler_tasks.keys() == old(self).loop_timers.idle_scheduler_tasks.keys().difference(
                    views(keys@).take(i as int).to_set(),
                ),
                self.loop_timers.idle_due_at.keys() == old(self).loop_timers.idle_due_at.keys().difference(
                    views(keys@).take(i as int).to_set(),
                ),
            decreases keys@.len() - i,
        {
            let ghost k = views(keys@)[i as int];
            assert(k == keys@[i as int]@);
            self.stop_idle_trigger_scheduler(keys[i].as_str());
            proof {
                assert(views(keys@).take(i + 1) =~= views(keys@).take(i as int).push(k));
                lemma_push_contains(views(keys@).take(i as int), k);
                assert(self.loop_timers.idle_scheduler_tasks.keys() =~= old(self).loop_timers.idle_scheduler_tasks.keys().difference(
                    views(keys@).take(i + 1).to_set(),
                ));
                assert(self.loop_timers.idle_due_at.keys() =~= old(self).loop_timers.idle_due_at.keys().difference(
                    views(keys@).take(i + 1).to_set(),
                ));
            }
            i = i + 1;
        }
        assert(views(keys@).take(i as int) =~= views(keys@));
        keys
    }

    /// Forgets when each of `keys` was due.
    fn forget_idle_due(&mut self, keys: &Vec<String>)
        requires
            old(self).loop_timers.wf(),
        ensures
            final(self).loop_timers.wf(),
            final(self).loop_timers.idle_due_at.keys() == old(self).loop_timers.idle_due_at.keys().difference(views(keys@).to_set()),
            final(self).loop_timers.idle_scheduler_tasks == old(self).loop_timers.idle_scheduler_tasks,
            final(self).loop_timers.scheduler_tasks == old(self).loop_timers.scheduler_tasks,
            final(self).loop_timers.after_turn_scheduler == old(self).loop_timers.after_turn_scheduler,
            final(self).loop_timers.timers == old(self).loop_timers.timers,
            final(self).primary_thread_id == old(self).primary_thread_id,
    {
        let mut i: usize = 0;
        while i < keys.len()
            invariant
                self.loop_timers.wf(),
                i <= keys@.len(),
                self.loop_timers.idle_due_at.keys() == old(self).loop_timers.idle_due_at.keys().difference(views(keys@).take(i as int).to_set()),
                self.loop_timers.idle_scheduler_tasks == old(self).loop_timers.idle_scheduler_tasks,
                self.loop_timers.scheduler_tasks == old(self).loop_timers.scheduler_tasks,
                self.loop_timers.after_turn_scheduler == old(self).loop_timers.after_turn_scheduler,
                self.loop_timers.timers == old(self).loop_timers.timers,
                self.primary_thread_id == old(self).primary_thread_id,
            decreases keys@.len() - i,
        {
            let ghost k = views(keys@)[i as int];
            assert(k == keys@[i as int]@);
            self.loop_timers.idle_due_at.remove(keys[i].as_str());
            proof {
                assert(views(keys@).take(i + 1) =~= views(keys@).take(i as int).push(k));
                lemma_push_contains(views(keys@).take(i as int), k);
                assert(self.loop_timers.idle_due_at.keys() =~= old(self).loop_timers.idle_due_at.keys().difference(
                    views(keys@).take(i + 1).to_set(),
                ));
            }
            i = i + 1;
        }
        assert(views(keys@).take(i as int) =~= views(keys@));
    }

    /// Stops every timer scheduler, idle-trigger wait, loop run and
    /// after-turn round and forgets every due time; returns the timers', the
    /// waits' and the runs' keys, for the caller to abort.
    pub fn stop_all_loop_timer_tasks(&mut self) -> (r: (Vec<String>, Vec<String>, Vec<String>))
        requires
            old(self).loop_timers.wf(),
        ensures
            final(self).loop_timers.wf(),
            views(r.0@).to_set() == old(self).loop_timers.scheduler_tasks.keys(),
            views(r.1@).to_set() == old(self).loop_timers.idle_scheduler_tasks.keys(),
            views(r.2@).to_set() == old(self).loop_timers.active_runs.keys(),
            final(self).loop_timers.scheduler_tasks.keys().is_empty(),
            final(self).loop_timers.idle_scheduler_tasks.keys().is_empty(),
            final(self).loop_timers.idle_due_at.keys().is_empty(),
            final(self).loop_timers.active_runs.keys().is_empty(),
            final(self).loop_timers.after_turn_scheduler@.is_idle(),
            final(self).loop_timers.after_turn_scheduler@.current_loop_label is None,
            final(self).loop_timers.timers == old(self).loop_timers.timers,
            final(self).primary_thread_id == old(self).primary_thread_id,
            final(self).workflow_scheduler == old(self).workflow_scheduler,
    {
        let timers = self.loop_timers.scheduler_tasks.drain();
        let idle = self.loop_timers.idle_scheduler_tasks.drain();
        self.loop_timers.idle_due_at.clear();
        let runs = self.loop_timers.active_runs.drain();
        self.loop_timers.after_turn_scheduler.clear();
        (timers, idle, runs)
    }

    /// A run of the timer `timer_id` started.
    pub fn note_loop_timer_run_started(&mut self, timer_id: String)
        requires
            old(self).loop_timers.wf(),
        ensures
            final(self).loop_timers.wf(),
            final(self).loop_timers.active_runs.keys() == old(self).loop_timers.active_runs.keys().insert(timer_id@),
            final(self).loop_timers.scheduler_tasks == old(self).loop_timers.scheduler_tasks,
            final(self).loop_timers.idle_scheduler_tasks == old(self).loop_timers.idle_scheduler_tasks,
            final(self).loop_timers.idle_due_at == old(self).loop_timers.idle_due_at,
            final(self).loop_timers.after_turn_scheduler == old(self).loop_timers.after_turn_scheduler,
            final(self).loop_timers.timers == old(self).loop_timers.timers,
            final(self).primary_thread_id == old(self).primary_thread_id,
            final(self).workflow_scheduler == old(self).workflow_scheduler,
    {
        self.loop_timers.active_runs.insert(timer_id);
    }

    /// Stops the run of the timer `timer_id`; returns whether one was in
    /// flight, for the caller to shut down.
    pub fn stop_loop_timer_run(&mut self, timer_id: &str) -> (r: bool)
        requires
            old(self).loop_timers.wf(),
        ensures
            final(self).loop_timers.wf(),
            r == old(self).loop_timers.active_runs.keys().contains(timer_id@),
            final(self).loop_timers.active_runs.keys() == old(self).loop_timers.active_runs.keys().remove(timer_id@),
            final(self).loop_timers.scheduler_tasks == old(self).loop_timers.scheduler_tasks,
            final(self).loop_timers.idle_scheduler_tasks == old(self).loop_timers.idle_scheduler_tasks,
            final(self).loop_timers.idle_due_at == old(self).loop_timers.idle_due_at,
            final(self).loop_timers.after_turn_scheduler == old(self).loop_timers.after_turn_scheduler,
            final(self).loop_timers.timers == old(self).loop_timers.timers,
            final(self).primary_thread_id == old(self).primary_thread_id,
            final(self).workflow_scheduler == old(self).workflow_scheduler,
    {
        self.loop_timers.active_runs.remove(timer_id)
    }

    /// The running after-turn round moved on to the loop called `loop_label`.
    pub fn note_primary_after_turn_round_progress(&mut self, loop_label: String)
        requires
            old(self).loop_timers.wf(),
        ensures
            final(self).loop_timers.wf(),
            final(self).loop_timers.after_turn_scheduler@ == (crate::after_turn::AfterTurnSchedulerView {
                current_loop_label: Some(loop_label@),
                ..old(self).loop_timers.after_turn_scheduler@
            }),
    {
        self.loop_timers.after_turn_scheduler.note_round_progress(loop_label);
    }
}


/// What the scheduled-trigger label of a timer is made from: the display of
/// its schedule, and of its idle delay.
pub open spec fn trigger_label_spec(schedule: Option<Seq<char>>, idle_after: Option<Seq<char>>) -> Seq<char> {
    match schedule {
        Some(s) => s,
        None => match idle_after {
            Some(a) => "idle "@ + a,
            None => "no scheduled trigger"@,
        },
    }
}

/// The display of a schedule, where there is one.
pub open spec fn schedule_display_opt(s: Option<LoopScheduleView>) -> Option<Seq<char>> {
    match s {
        Some(x) => Some(x.display()),
        None => None,
    }
}

/// The label of `timer`'s scheduled trigger, given `timer_schedule`, the
/// schedule of its timer triggers: that schedule, else the delay of its
/// first enabled idle trigger, else a note that it has none.
pub fn scheduled_trigger_label(timer: &LoopTimer, timer_schedule: Option<&LoopSchedule>) -> (r: String)
    ensures
        r@ == trigger_label_spec(
            match timer_schedule {
                Some(s) => Some(s@.display()),
                None => None,
            },
            schedule_display_opt(first_idle_after(timer@.trigger_bindings)),
        ),
{
    match timer_schedule {
        Some(s) => String::from_str(s.display()),
        None => match timer.effective_idle_after() {
            Some(a) => concat2("idle ", a.display()),
            None => String::from_str("no scheduled trigger"),
        },
    }
}

/// What the loop settings compute for a timer's actions menu: its
/// descriptor, the schedule of its timer triggers, the titles of its modes
/// and its execution summary.
#[derive(Debug, PartialEq, Eq)]
pub struct LoopTimerTexts {
    pub descriptor: String,
    pub timer_schedule: Option<LoopSchedule>,
    pub context_mode_title: String,
    pub response_mode_title: String,
    pub security_mode_title: String,
    pub execution_summary: String,
}

/// The scheduled-trigger label of `t` with the texts `x`.
pub open spec fn texts_trigger_label(t: LoopTimerView, x: LoopTimerTexts) -> Seq<char> {
    trigger_label_spec(
        match x.timer_schedule {
            Some(s) => Some(s@.display()),
            None => None,
        },
        schedule_display_opt(first_idle_after(t.trigger_bindings)),
    )
}

/// An item of the timer actions menu: a name, a description, one event,
/// closing the menu when chosen.
pub open spec fn action_item(name: Seq<char>, description: Seq<char>, event: AppEvent) -> SelectionItemView {
    SelectionItemView {
        name,
        description: Some(description),
        selected_description: None,
        is_current: false,
        is_disabled: false,
        disabled_reason: None,
        actions: seq![event],
        dismiss_on_select: true,
        search_value: None,
    }
}

/// The items of a timer's actions menu.
pub open spec fn loop_timer_action_items(t: LoopTimer, x: LoopTimerTexts, now_unix_seconds: i64) -> Seq<SelectionItemView> {
    let id = t.id;
    seq![
        action_item("Run Now"@, "Trigger this loop immediately."@, AppEvent::TriggerLoopTimer {
            timer_id: id,
            scheduled_for_unix_seconds: now_unix_seconds,
            source: LoopTimerTriggerSource::Manual,
        }),
        action_item("Edit Prompt"@, "Update the task this loop should stay aligned to."@,
            AppEvent::OpenEditLoopTimerPrompt { timer_id: id }),
        action_item("Triggers"@, "Add, remove, or edit trigger bindings for this loop."@,
            AppEvent::OpenLoopTimerTriggers { timer_id: id }),
        action_item("Edit Action"@, "Set optional text appended when this loop emits a user message."@,
            AppEvent::OpenEditLoopTimerAction { timer_id: id }),
        action_item("Context Mode"@, "Currently "@ + x.context_mode_title@
            + ". Adjust whether this loop runs embedded, ephemeral, or persistent."@,
            AppEvent::OpenEditLoopTimerContextMode { timer_id: id }),
        action_item("Response Mode"@, "Currently "@ + x.response_mode_title@
            + ". Adjust how this loop feeds back into the main thread."@,
            AppEvent::OpenEditLoopTimerResponseMode { timer_id: id }),
        action_item("Security Mode"@, "Currently "@ + x.security_mode_title@
            + ". Adjust whether writes inherit the parent thread or are restricted to configured directories."@,
            AppEvent::OpenEditLoopTimerSecurityMode { timer_id: id }),
        action_item("Execution Settings"@, x.execution_summary@, AppEvent::OpenLoopExecutionPanel { timer_id: id }),
        if t.enabled {
            action_item("Disable"@, "Stop future scheduled executions."@, AppEvent::DisableLoopTimer { timer_id: id })
        } else {
            action_item("Enable"@, "Resume future scheduled executions."@, AppEvent::EnableLoopTimer { timer_id: id })
        },
        action_item("Delete"@, "Remove this timer from the current workspace."@, AppEvent::DeleteLoopTimer { timer_id: id }),
    ]
}

/// An item of the timer actions menu.
pub(crate) fn make_action_item(name: &str, description: String, event: AppEvent) -> (r: SelectionItem)
    ensures
        r@ == action_item(name@, description@, event),
{
    SelectionItem {
        name: String::from_str(name),
        description: Some(description),
        selected_description: None,
        is_current: false,
        is_disabled: false,
        disabled_reason: None,
        actions: single_action(event),
        dismiss_on_select: true,
        search_value: None,
    }
}

/// The actions menu of a loop timer: run it now, edit it, switch it on or
/// off, delete it. Closing the menu returns to the timers panel.
pub fn loop_timer_actions_params(timer: &LoopTimer, texts: &LoopTimerTexts, now_unix_seconds: i64) -> (r: SelectionViewParams)
    ensures
        r@ == (SelectionViewParamsView {
            view_id: Some("fork-loop-timer-actions-panel"@),
            title: Some("Loop Manager"@),
            subtitle: Some(texts.descriptor@ + " · "@ + texts_trigger_label(timer@, *texts)),
            footer_hint: Some(PopupHint::Standard),
            items: loop_timer_action_items(*timer, *texts, now_unix_seconds),
            is_searchable: false,
            search_placeholder: None,
            initial_selected_idx: None,
            on_cancel: Some(AppEvent::OpenLoopTimersPanel),
        }),
{
    let id = &timer.id;
    let mut items: Vec<SelectionItem> = Vec::new();
    let it = make_action_item("Run Now", String::from_str("Trigger this loop immediately."), AppEvent::TriggerLoopTimer {
        timer_id: id.clone(),
        scheduled_for_unix_seconds: now_unix_seconds,
        source: LoopTimerTriggerSource::Manual,
    });
    proof { lemma_item_views_push(items@, it); }
    items.push(it);
    let it = make_action_item("Edit Prompt", String::from_str("Update the task this loop should stay aligned to."),
        AppEvent::OpenEditLoopTimerPrompt { timer_id: id.clone() });
    proof { lemma_item_views_push(items@, it); }
    items.push(it);
    let it = make_action_item("Triggers", String::from_str("Add, remove, or edit trigger bindings for this loop."),
        AppEvent::OpenLoopTimerTriggers { timer_id: id.clone() });
    proof { lemma_item_views_push(items@, it); }
    items.push(it);
    let it = make_action_item("Edit Action", String::from_str("Set optional text appended when this loop emits a user message."),
        AppEvent::OpenEditLoopTimerAction { timer_id: id.clone() });
    proof { lemma_item_views_push(items@, it); }
    items.push(it);
    let it = make_action_item("Context Mode", concat3("Currently ", texts.context_mode_title.as_str(),
        ". Adjust whether this loop runs embedded, ephemeral, or persistent."),
        AppEvent::OpenEditLoopTimerContextMode { timer_id: id.clone() });
    proof { lemma_item_views_push(items@, it); }
    items.push(it);
    let it = make_action_item("Response Mode", concat3("Currently ", texts.response_mode_title.as_str(),
        ". Adjust how this loop feeds back into the main thread."),
        AppEvent::OpenEditLoopTimerResponseMode { timer_id: id.clone() });
    proof { lemma_item_views_push(items@, it); }
    items.push(it);
    let it = make_action_item("Security Mode", concat3("Currently ", texts.security_mode_title.as_str(),
        ". Adjust whether writes inherit the parent thread or are restricted to configured directories."),
        AppEvent::OpenEditLoopTimerSecurityMode { timer_id: id.clone() });
    proof { lemma_item_views_push(items@, it); }
    items.push(it);
    let it = make_action_item("Execution Settings", texts.execution_summary.clone(),
        AppEvent::OpenLoopExecutionPanel { timer_id: id.clone() });
    proof { lemma_item_views_push(items@, it); }
    items.push(it);
    let it = if timer.enabled {
        make_action_item("Disable", String::from_str("Stop future scheduled executions."), AppEvent::DisableLoopTimer { timer_id: id.clone() })
    } else {
        make_action_item("Enable", String::from_str("Resume future scheduled executions."), AppEvent::EnableLoopTimer { timer_id: id.clone() })
    };
    proof { lemma_item_views_push(items@, it); }
    items.push(it);
    let it = make_action_item("Delete", String::from_str("Remove this timer from the current workspace."),
        AppEvent::DeleteLoopTimer { timer_id: id.clone() });
    proof { lemma_item_views_push(items@, it); }
    items.push(it);
    proof {
        assert(item_views(items@) =~= loop_timer_action_items(*timer, *texts, now_unix_seconds));
    }
    let label = scheduled_trigger_label(timer, match &texts.timer_schedule {
        Some(x) => Some(x),
        None => None,
    });
    SelectionViewParams {
        view_id: Some(String::from_str("fork-loop-timer-actions-panel")),
        title: Some(String::from_str("Loop Manager")),
        subtitle: Some(concat3(texts.descriptor.as_str(), " · ", label.as_str())),
        footer_hint: Some(PopupHint::Standard),
        items,
        is_searchable: false,
        search_placeholder: None,
        initial_selected_idx: None,
        on_cancel: Some(AppEvent::OpenLoopTimersPanel),
    }
}

/// What opening a timer's actions shows.
#[derive(Debug, PartialEq, Eq)]
pub enum LoopTimerActionsView {
    /// The timer is gone: this error, then the timers panel.
    Missing { error: String },
    Show(SelectionViewParams),
}

impl App {
    /// Opens the actions menu of loop timer `timer_id`, given the texts the
    /// loop settings compute for it, or reports that it no longer exists.
    pub fn open_loop_timer_actions(&self, timer_id: &str, texts: &LoopTimerTexts, now_unix_seconds: i64) -> (r: LoopTimerActionsView)
        requires
            self.wf(),
        ensures
            if !has_timer(self.loop_timers.timers@, timer_id@) {
                r matches LoopTimerActionsView::Missing { error } && error@ == "That loop timer no longer exists."@
            } else {
                r matches LoopTimerActionsView::Show(p) && p@ == (SelectionViewParamsView {
                    view_id: Some("fork-loop-timer-actions-panel"@),
                    title: Some("Loop Manager"@),
                    subtitle: Some(texts.descriptor@ + " · "@ + texts_trigger_label(timer_at(self.loop_timers.timers@, timer_id@), *texts)),
                    footer_hint: Some(PopupHint::Standard),
                    items: loop_timer_action_items(self.loop_timers.timers.stored(timer_id@), *texts, now_unix_seconds),
                    is_searchable: false,
                    search_placeholder: None,
                    initial_selected_idx: None,
                    on_cancel: Some(AppEvent::OpenLoopTimersPanel),
                })
            },
    {
        match self.loop_timers.timers.get(timer_id) {
            None => LoopTimerActionsView::Missing { error: String::from_str("That loop timer no longer exists.") },
            Some(t) => LoopTimerActionsView::Show(loop_timer_actions_params(t, texts, now_unix_seconds)),
        }
    }
}

/// What running a loop timer now does.
#[derive(Debug, PartialEq, Eq)]
pub enum LoopTimerTriggerPlan {
    /// The timer is gone: nothing.
    Ignore,
    /// A run of it is in flight: only the status is refreshed.
    AlreadyRunning,
    /// An embedded loop sends its prompt to the main thread.
    SubmitToPrimary(LoopMirroredUserTurn),
    /// Other loops start a thread of their own; a persistent one keeps it.
    StartThread { persistent: bool },
}

/// What running the loop `t` now does, `run_active` telling whether a run
/// of it is in flight.
pub open spec fn trigger_plan_spec(t: LoopTimerView, run_active: bool, r: LoopTimerTriggerPlan) -> bool {
    if run_active {
        r is AlreadyRunning
    } else if t.context_mode == LoopContextMode::Embed {
        r matches LoopTimerTriggerPlan::SubmitToPrimary(turn) && turn.text@ == t.prompt && turn.source.loop_id@ == t.id
            && opt_view(turn.source.action) == t.action
    } else {
        r == LoopTimerTriggerPlan::StartThread { persistent: t.context_mode == LoopContextMode::Persistent }
    }
}

/// Decides what running a loop timer now does.
pub fn loop_timer_trigger_plan(timer: Option<&LoopTimer>, run_active: bool) -> (r: LoopTimerTriggerPlan)
    ensures
        match timer {
            None => r is Ignore,
            Some(t) => trigger_plan_spec(t@, run_active, r),
        },
{
    match timer {
        None => LoopTimerTriggerPlan::Ignore,
        Some(t) => {
            if run_active {
                return LoopTimerTriggerPlan::AlreadyRunning;
            }
            match t.context_mode {
                LoopContextMode::Embed => LoopTimerTriggerPlan::SubmitToPrimary(LoopMirroredUserTurn {
                    text: t.prompt.clone(),
                    source: LoopReplySource { loop_id: t.id.clone(), action: copy_opt_string(&t.action) },
                }),
                LoopContextMode::Ephemeral => LoopTimerTriggerPlan::StartThread { persistent: false },
                LoopContextMode::Persistent => LoopTimerTriggerPlan::StartThread { persistent: true },
            }
        },
    }
}

/// The answer of a finished loop turn: the turn's own last message, else
/// the last one seen streaming, trimmed, and none when blank.
pub open spec fn loop_turn_result_spec(turn_message: Option<Seq<char>>, streamed: Option<Seq<char>>) -> Option<Seq<char>> {
    let picked = match turn_message {
        Some(m) => Some(m),
        None => streamed,
    };
    match picked {
        Some(m) => if trim_seq(m).len() > 0 {
            Some(trim_seq(m))
        } else {
            None
        },
        None => None,
    }
}

/// The answer of a finished loop turn.
pub fn loop_turn_result(turn_message: Option<String>, streamed: Option<String>) -> (r: Option<String>)
    ensures
        opt_view(r) == loop_turn_result_spec(opt_view(turn_message), opt_view(streamed)),
{
    let picked = match turn_message {
        Some(m) => Some(m),
        None => streamed,
    };
    match picked {
        Some(m) => {
            let t = trim_str(m.as_str());
            if t.unicode_len() > 0 {
                Some(String::from_str(t))
            } else {
                None
            }
        },
        None => None,
    }
}

/// Keeps the latest agent message of a running loop turn that is not blank.
pub fn note_loop_agent_message(last: &mut Option<String>, text: String)
    ensures
        opt_view(*final(last)) == (if trim_seq(text@).len() > 0 {
            Some(text@)
        } else {
            opt_view(*old(last))
        }),
{
    if trim_str(text.as_str()).unicode_len() > 0 {
        *last = Some(text);
    }
}

/// The hint beside a loop reply: the loop id, then ` · ` and the short
/// form of the loop's action, `action_prefix`, where the trimmed action is
/// not blank.
pub open spec fn loop_reply_hint_spec(loop_id: Seq<char>, action: Option<Seq<char>>, action_prefix: Seq<char>) -> Seq<char> {
    match action {
        Some(a) => if trim_seq(a).len() > 0 {
            loop_id + " · "@ + action_prefix
        } else {
            loop_id
        },
        None => loop_id,
    }
}

impl LoopReplySource {
    /// The hint beside a reply of this loop, given the short form of its
    /// trimmed action.
    pub fn hint(&self, action_prefix: &str) -> (r: String)
        ensures
            r@ == loop_reply_hint_spec(self.loop_id@, opt_view(self.action), action_prefix@),
    {
        match &self.action {
            Some(a) => {
                if trim_str(a.as_str()).unicode_len() > 0 {
                    concat3(self.loop_id.as_str(), " · ", action_prefix)
                } else {
                    self.loop_id.clone()
                }
            },
            None => self.loop_id.clone(),
        }
    }
}

/// The history entry that marks a loop reply, given the short form of the
/// loop's trimmed action.
pub fn loop_info_cell(source: &LoopReplySource, action_prefix: &str) -> (r: HistoryNotice)
    ensures
        is_info(r, "Loop agent reply"@, Some(loop_reply_hint_spec(source.loop_id@, opt_view(source.action), action_prefix@))),
{
    HistoryNotice::Info { message: String::from_str("Loop agent reply"), hint: Some(source.hint(action_prefix)) }
}

/// When a timer loaded from disk is next due: never while it is off; at
/// `scheduled_due`, the due time its schedule gives from when it was last
/// scheduled, where that has passed by `now_unix_seconds`, so that an
/// overdue run starts at once; else at `next_due`, its next due time from now.
pub open spec fn due_for_loaded_timer_spec(enabled: bool, scheduled_due: Option<i64>, next_due: Option<i64>, now_unix_seconds: i64) -> Option<i64> {
    if !enabled {
        None
    } else {
        match scheduled_due {
            Some(d) => if d <= now_unix_seconds {
                Some(d)
            } else {
                next_due
            },
            None => next_due,
        }
    }
}

/// When `timer`, loaded from disk, is next due.
pub fn due_for_loaded_timer(timer: &LoopTimer, scheduled_due: Option<i64>, next_due: Option<i64>, now_unix_seconds: i64) -> (r: Option<i64>)
    ensures
        r == due_for_loaded_timer_spec(timer.enabled, scheduled_due, next_due, now_unix_seconds),
{
    if !timer.enabled {
        return None;
    }
    match scheduled_due {
        Some(due) => {
            if due <= now_unix_seconds {
                return Some(due);
            }
        },
        None => {},
    }
    next_due
}

impl App {
    /// Stops the after-turn rounds: their queue empties. Returns 1 when
    /// there was work queued or running, else 0.
    pub fn stop_after_turn_round_task(&mut self) -> (r: usize)
        requires
            old(self).wf(),
        ensures
            final(self).wf(),
            r == (if old(self).loop_timers.after_turn_scheduler@.status() is Some {
                1usize
            } else {
                0usize
            }),
            final(self).loop_timers.after_turn_scheduler@.is_idle(),
            final(self).loop_timers.after_turn_scheduler@.current_loop_label is None,
            final(self).primary_thread_id == old(self).primary_thread_id,
            final(self).workflow_scheduler == old(self).workflow_scheduler,
            final(self).loop_timers.scheduler_tasks == old(self).loop_timers.scheduler_tasks,
            final(self).loop_timers.idle_scheduler_tasks == old(self).loop_timers.idle_scheduler_tasks,
            final(self).loop_timers.idle_due_at == old(self).loop_timers.idle_due_at,
            final(self).loop_timers.timers == old(self).loop_timers.timers,
            final(self).loop_timers.active_runs == old(self).loop_timers.active_runs,
    {
        let had_work = self.loop_timers.after_turn_scheduler.status_label().is_some();
        self.loop_timers.after_turn_scheduler.clear();
        if had_work {
            1
        } else {
            0
        }
    }

    /// Stops the loop runs in flight and the after-turn rounds; returns how
    /// many were stopped, and the timer ids of the runs, for the caller to
    /// shut down.
    pub fn stop_active_loop_runs(&mut self) -> (r: (usize, Vec<String>))
        requires
            old(self).wf(),
            old(self).loop_timers.active_runs.keys().len() < usize::MAX,
        ensures
            final(self).wf(),
            r.0 == old(self).loop_timers.active_runs.keys().len() + (if old(self).loop_timers.after_turn_scheduler@.status() is Some {
                1int
            } else {
                0int
            }),
            views(r.1@).to_set() == old(self).loop_timers.active_runs.keys(),
            final(self).loop_timers.active_runs.keys().is_empty(),
            final(self).loop_timers.after_turn_scheduler@.is_idle(),
            final(self).loop_timers.after_turn_scheduler@.current_loop_label is None,
            final(self).loop_timers.timers == old(self).loop_timers.timers,
            final(self).loop_timers.scheduler_tasks == old(self).loop_timers.scheduler_tasks,
            final(self).loop_timers.idle_scheduler_tasks == old(self).loop_timers.idle_scheduler_tasks,
            final(self).loop_timers.idle_due_at == old(self).loop_timers.idle_due_at,
            final(self).primary_thread_id == old(self).primary_thread_id,
            final(self).workflow_scheduler == old(self).workflow_scheduler,
    {
        let runs = self.loop_timers.active_runs.drain();
        proof {
            views(runs@).unique_seq_to_set();
        }
        let count = runs.len() + self.stop_after_turn_round_task();
        (count, runs)
    }
}

impl App {
    /// Drives the after-turn queue of the main thread until something has to
    /// run: with no main thread it empties the queue; a round whose phase has
    /// no loops (`has_after_turn_loops` false) completes at once.
    pub fn drain_primary_after_turn_scheduler(&mut self, has_after_turn_loops: bool) -> (r: AfterTurnDrain)
        requires
            old(self).wf(),
        ensures
            final(self).wf(),
            old(self).primary_thread_id is None ==> {
                &&& r == AfterTurnDrain::Cleared
                &&& final(self).loop_timers.after_turn_scheduler@.is_idle()
                &&& final(self).loop_timers.after_turn_scheduler@.current_loop_label is None
            },
            old(self).primary_thread_id is Some ==> (r, final(self).loop_timers.after_turn_scheduler@)
                == old(self).loop_timers.after_turn_scheduler@.drain_spec(has_after_turn_loops),
            final(self).primary_thread_id == old(self).primary_thread_id,
            final(self).workflow_scheduler == old(self).workflow_scheduler,
            final(self).loop_timers.scheduler_tasks == old(self).loop_timers.scheduler_tasks,
            final(self).loop_timers.idle_scheduler_tasks == old(self).loop_timers.idle_scheduler_tasks,
            final(self).loop_timers.idle_due_at == old(self).loop_timers.idle_due_at,
            final(self).loop_timers.timers == old(self).loop_timers.timers,
    {
        if self.primary_thread_id.is_none() {
            self.loop_timers.after_turn_scheduler.clear();
            return AfterTurnDrain::Cleared;
        }
        loop
            invariant
                self.wf(),
                self.primary_thread_id is Some,
                self.primary_thread_id == old(self).primary_thread_id,
                self.workflow_scheduler == old(self).workflow_scheduler,
                self.loop_timers.scheduler_tasks == old(self).loop_timers.scheduler_tasks,
                self.loop_timers.idle_scheduler_tasks == old(self).loop_timers.idle_scheduler_tasks,
                self.loop_timers.idle_due_at == old(self).loop_timers.idle_due_at,
                self.loop_timers.timers == old(self).loop_timers.timers,
                self.loop_timers.after_turn_scheduler@.drain_spec(has_after_turn_loops)
                    == old(self).loop_timers.after_turn_scheduler@.drain_spec(has_after_turn_loops),
            decreases self.loop_timers.after_turn_scheduler@.pending_rounds.len(),
        {
            match self.loop_timers.after_turn_scheduler.next_action() {
                AfterTurnSchedulerAction::RunRound(round) => {
                    if has_after_turn_loops {
                        return AfterTurnDrain::StartRound(round);
                    }
                    self.loop_timers.after_turn_scheduler.note_round_completed();
                },
                AfterTurnSchedulerAction::SubmitFollowup(followup) => {
                    return AfterTurnDrain::SubmitFollowup(followup);
                },
                AfterTurnSchedulerAction::Idle => {
                    return AfterTurnDrain::Idle;
                },
            }
        }
    }

    /// The main thread's turn finished: queue a round seeded with its last
    /// agent message, release the follow-up in flight, and drive the queue.
    pub fn handle_primary_thread_turn_complete_for_loops(
        &mut self,
        last_agent_message: Option<String>,
        has_after_turn_loops: bool,
    ) -> (r: AfterTurnDrain)
        requires
            old(self).wf(),
        ensures
            final(self).wf(),
            old(self).primary_thread_id is None ==> r == AfterTurnDrain::Cleared
                && final(self).loop_timers.after_turn_scheduler@.is_idle(),
            old(self).primary_thread_id is Some ==> (r, final(self).loop_timers.after_turn_scheduler@)
                == (AfterTurnSchedulerView {
                    pending_rounds: old(self).loop_timers.after_turn_scheduler@.pending_rounds.push(
                        AfterTurnRound { last_agent_message },
                    ),
                    in_flight_followup: None,
                    ..old(self).loop_timers.after_turn_scheduler@
                }).drain_spec(has_after_turn_loops),
            final(self).primary_thread_id == old(self).primary_thread_id,
            final(self).loop_timers.timers == old(self).loop_timers.timers,
    {
        self.loop_timers.after_turn_scheduler.note_turn_complete(last_agent_message);
        self.drain_primary_after_turn_scheduler(has_after_turn_loops)
    }

    /// The main thread's turn failed: release the follow-up in flight and
    /// drive the queue.
    pub fn note_primary_thread_error_for_loops(&mut self, has_after_turn_loops: bool) -> (r: AfterTurnDrain)
        requires
            old(self).wf(),
        ensures
            final(self).wf(),
            old(self).primary_thread_id is None ==> r == AfterTurnDrain::Cleared
                && final(self).loop_timers.after_turn_scheduler@.is_idle(),
            old(self).primary_thread_id is Some ==> (r, final(self).loop_timers.after_turn_scheduler@)
                == (AfterTurnSchedulerView {
                    in_flight_followup: None,
                    ..old(self).loop_timers.after_turn_scheduler@
                }).drain_spec(has_after_turn_loops),
            final(self).primary_thread_id == old(self).primary_thread_id,
            final(self).loop_timers.timers == old(self).loop_timers.timers,
    {
        self.loop_timers.after_turn_scheduler.note_turn_error();
        self.drain_primary_after_turn_scheduler(has_after_turn_loops)
    }
}

/// The items of the menu that adds a trigger to loop `id`.
pub open spec fn create_trigger_items(id: String) -> Seq<SelectionItemView> {
    seq![
        action_item("Timer Trigger"@, "Run this loop on an interval or cron schedule."@,
            AppEvent::OpenCreateLoopTimerTriggerSchedule { timer_id: id }),
        action_item("Idle"@, "Run this loop after the main thread stays idle for a configured duration."@,
            AppEvent::OpenCreateLoopIdleTriggerAfter { timer_id: id }),
        action_item("Before Turn"@, "Run this loop before the next main-thread user turn is submitted."@,
            AppEvent::AddLoopBeforeTurnTrigger { timer_id: id }),
        action_item("After Turn"@, "Run this loop after the assistant final response completes."@,
            AppEvent::AddLoopAfterTurnTrigger { timer_id: id }),
    ]
}

impl App {
    /// The menu that adds a trigger to loop `timer_id`: a timer, an idle
    /// delay, or a turn of the main thread. Closing it returns to the loop's
    /// triggers.
    pub fn open_create_loop_trigger_menu(&self, timer_id: String) -> (r: SelectionViewParams)
        ensures
            r@ == (SelectionViewParamsView {
                view_id: Some("fork-loop-trigger-create-panel"@),
                title: Some("Loop Manager"@),
                subtitle: Some("Add Trigger · "@ + timer_id@),
                footer_hint: Some(PopupHint::Standard),
                items: create_trigger_items(timer_id),
                is_searchable: false,
                search_placeholder: None,
                initial_selected_idx: None,
                on_cancel: Some(AppEvent::OpenLoopTimerTriggers { timer_id }),
            }),
    {
        let mut items: Vec<SelectionItem> = Vec::new();
        let it = make_action_item("Timer Trigger", String::from_str("Run this loop on an interval or cron schedule."),
            AppEvent::OpenCreateLoopTimerTriggerSchedule { timer_id: timer_id.clone() });
        proof { lemma_item_views_push(items@, it); }
        items.push(it);
        let it = make_action_item("Idle", String::from_str("Run this loop after the main thread stays idle for a configured duration."),
            AppEvent::OpenCreateLoopIdleTriggerAfter { timer_id: timer_id.clone() });
        proof { lemma_item_views_push(items@, it); }
        items.push(it);
        let it = make_action_item("Before Turn", String::from_str("Run this loop before the next main-thread user turn is submitted."),
            AppEvent::AddLoopBeforeTurnTrigger { timer_id: timer_id.clone() });
        proof { lemma_item_views_push(items@, it); }
        items.push(it);
        let it = make_action_item("After Turn", String::from_str("Run this loop after the assistant final response completes."),
            AppEvent::AddLoopAfterTurnTrigger { timer_id: timer_id.clone() });
        proof { lemma_item_views_push(items@, it); }
        items.push(it);
        proof {
            assert(item_views(items@) =~= create_trigger_items(timer_id));
        }
        let subtitle = concat2("Add Trigger · ", timer_id.as_str());
        SelectionViewParams {
            view_id: Some(String::from_str("fork-loop-trigger-create-panel")),
            title: Some(String::from_str("Loop Manager")),
            subtitle: Some(subtitle),
            footer_hint: Some(PopupHint::Standard),
            items,
            is_searchable: false,
            search_placeholder: None,
            initial_selected_idx: None,
            on_cancel: Some(AppEvent::OpenLoopTimerTriggers { timer_id }),
        }
    }

    /// The text that the editor of a new idle trigger of loop `timer_id`
    /// opens with: the delay of the loop's first enabled idle trigger, or
    /// nothing; `None` when the loop is gone.
    pub fn open_new_loop_idle_trigger_after_editor(&self, timer_id: &str) -> (r: Option<String>)
        requires
            self.wf(),
        ensures
            opt_view(r) == (if has_timer(self.loop_timers.timers@, timer_id@) {
                Some(match first_idle_after(timer_at(self.loop_timers.timers@, timer_id@).trigger_bindings) {
                    Some(a) => a.display(),
                    None => Seq::empty(),
                })
            } else {
                None
            }),
    {
        match self.loop_timers.timers.get(timer_id) {
            None => None,
            Some(t) => match t.effective_idle_after() {
                Some(a) => Some(String::from_str(a.display())),
                None => {
                    let e = String::new();
                    proof {
                        assert(e@ =~= Seq::<char>::empty());
                    }
                    Some(e)
                },
            },
        }
    }
}

/// An item of the execution panel: a name, a description, one event,
/// switched off where `disabled`, closing the panel when chosen.
pub open spec fn execution_item(name: Seq<char>, description: Seq<char>, disabled: bool, event: AppEvent) -> SelectionItemView {
    SelectionItemView { is_disabled: disabled, ..action_item(name, description, event) }
}

/// The items of the execution panel of loop `id`, whose settings are `e`
/// and read as `summary`.
pub open spec fn execution_items(id: String, e: LoopExecutionSettingsView, summary: Seq<char>) -> Seq<SelectionItemView> {
    seq![
        execution_item("Working Directory"@, summary, false, AppEvent::OpenEditLoopTimerCwd { timer_id: id }),
        execution_item("Use Session Working Directory"@,
            "Clear the per-loop cwd override and inherit the main thread working directory."@,
            e.cwd is None, AppEvent::ResetLoopTimerCwd { timer_id: id }),
        execution_item("Writable Directories"@,
            "Restrict loop file writes to specific directories. Leave empty to inherit the session scope."@,
            false, AppEvent::OpenEditLoopWritableRoots { timer_id: id }),
        execution_item("Use Session Writable Scope"@,
            "Clear the per-loop writable-directory override and inherit the main thread sandbox scope."@,
            e.writable_roots.len() == 0, AppEvent::ResetLoopWritableRoots { timer_id: id }),
    ]
}

/// An item of the execution panel.
fn make_execution_item(name: &str, description: String, disabled: bool, event: AppEvent) -> (r: SelectionItem)
    ensures
        r@ == execution_item(name@, description@, disabled, event),
{
    let mut it = make_action_item(name, description, event);
    it.is_disabled = disabled;
    it
}

impl App {
    /// The execution panel of loop timer `timer_id`: its working directory
    /// and writable directories, to edit or to hand back to the session.
    /// `descriptor` and `execution_summary` are how the loop settings show
    /// the timer and its settings. A timer that is gone gives an empty panel.
    pub fn loop_execution_panel_params(
        &self,
        timer_id: &str,
        descriptor: &str,
        execution_summary: &str,
        initial_selected_idx: Option<usize>,
    ) -> (r: SelectionViewParams)
        requires
            self.wf(),
        ensures
            if !has_timer(self.loop_timers.timers@, timer_id@) {
                r@ == (SelectionViewParamsView {
                    view_id: None,
                    title: None,
                    subtitle: None,
                    footer_hint: None,
                    items: Seq::empty(),
                    is_searchable: false,
                    search_placeholder: None,
                    initial_selected_idx: None,
                    on_cancel: None,
                })
            } else {
                r@ == (SelectionViewParamsView {
                    view_id: Some("fork-loop-execution-panel"@),
                    title: Some("Loop Execution"@),
                    subtitle: Some("Execution settings · "@ + descriptor@),
                    footer_hint: Some(PopupHint::Standard),
                    items: execution_items(
                        self.loop_timers.timers.stored(timer_id@).id,
                        timer_at(self.loop_timers.timers@, timer_id@).execution,
                        execution_summary@,
                    ),
                    is_searchable: false,
                    search_placeholder: None,
                    initial_selected_idx,
                    on_cancel: Some(AppEvent::OpenLoopTimerActions { timer_id: self.loop_timers.timers.stored(timer_id@).id }),
                })
            },
    {
        let t = match self.loop_timers.timers.get(timer_id) {
            None => {
                let r = SelectionViewParams {
                    view_id: None,
                    title: None,
                    subtitle: None,
                    footer_hint: None,
                    items: Vec::new(),
                    is_searchable: false,
                    search_placeholder: None,
                    initial_selected_idx: None,
                    on_cancel: None,
                };
                proof {
                    assert(item_views(r.items@) =~= Seq::<SelectionItemView>::empty());
                }
                return r;
            },
            Some(t) => t,
        };
        let id = &t.id;
        let mut items: Vec<SelectionItem> = Vec::new();
        let it = make_execution_item("Working Directory", String::from_str(execution_summary), false,
            AppEvent::OpenEditLoopTimerCwd { timer_id: id.clone() });
        proof { lemma_item_views_push(items@, it); }
        items.push(it);
        let it = make_execution_item("Use Session Working Directory",
            String::from_str("Clear the per-loop cwd override and inherit the main thread working directory."),
            t.execution.cwd.is_none(), AppEvent::ResetLoopTimerCwd { timer_id: id.clone() });
        proof { lemma_item_views_push(items@, it); }
        items.push(it);
        let it = make_execution_item("Writable Directories",
            String::from_str("Restrict loop file writes to specific directories. Leave empty to inherit the session scope."),
            false, AppEvent::OpenEditLoopWritableRoots { timer_id: id.clone() });
        proof { lemma_item_views_push(items@, it); }
        items.push(it);
        let it = make_execution_item("Use Session Writable Scope",
            String::from_str("Clear the per-loop writable-directory override and inherit the main thread sandbox scope."),
            t.execution.writable_roots.len() == 0, AppEvent::ResetLoopWritableRoots { timer_id: id.clone() });
        proof { lemma_item_views_push(items@, it); }
        items.push(it);
        proof {
            assert(item_views(items@) =~= execution_items(t.id, t@.execution, execution_summary@));
        }
        SelectionViewParams {
            view_id: Some(String::from_str("fork-loop-execution-panel")),
            title: Some(String::from_str("Loop Execution")),
            subtitle: Some(concat2("Execution settings · ", descriptor)),
            footer_hint: Some(PopupHint::Standard),
            items,
            is_searchable: false,
            search_placeholder: None,
            initial_selected_idx,
            on_cancel: Some(AppEvent::OpenLoopTimerActions { timer_id: id.clone() }),
        }
    }
}

} // verus!
