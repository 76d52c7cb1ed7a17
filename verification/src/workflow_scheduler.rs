//! The background workflow runs in flight and the trigger runs waiting for
//! their turn.
use vstd::prelude::*;
use vstd::string::*;
use vstd::multiset::Multiset;
use std::collections::VecDeque;
use crate::text::{
    views, concat2, concat3, decimal_string, decimal_seq, seq_lt, string_lt,
    lemma_seq_lt_trichotomy, lemma_seq_lt_transitive, lemma_views_push, str_eq,
};
use crate::workflow_runtime::{BackgroundWorkflowRunTarget, OwnedWorkflowPhaseContext};

verus! {

broadcast use vstd::seq_lib::group_to_multiset_ensures;

/// A trigger run waiting for the running one to finish.
#[derive(Debug, PartialEq, Eq)]
pub struct QueuedWorkflowTriggerRun {
    pub workflow_name: String,
    pub trigger_id: String,
    pub phase_context: OwnedWorkflowPhaseContext,
}

/// The label of a run: `workflow · slot`.
pub open spec fn target_label(t: BackgroundWorkflowRunTarget) -> Seq<char> {
    t.workflow_name_spec() + " · "@ + t.slot_key_spec()
}

/// The label of a queued trigger run: `workflow · trigger`.
pub open spec fn queued_label(q: QueuedWorkflowTriggerRun) -> Seq<char> {
    q.workflow_name@ + " · "@ + q.trigger_id@
}

/// `s` is in ascending order.
pub open spec fn sorted_strings(s: Seq<Seq<char>>) -> bool {
    forall|i: int, j: int| 0 <= i < j < s.len() ==> !seq_lt(#[trigger] s[j], #[trigger] s[i])
}

/// The runs in flight, keyed by run id, and the trigger runs queued behind
/// them, first come first.
pub struct WorkflowSchedulerState {
    run_ids: Vec<String>,
    run_targets: Vec<BackgroundWorkflowRunTarget>,
    queued_trigger_runs: VecDeque<QueuedWorkflowTriggerRun>,
    next_background_run_id: u64,
}

impl WorkflowSchedulerState {
    /// The run ids in flight.
    pub closed spec fn ids(&self) -> Seq<Seq<char>> {
        views(self.run_ids@)
    }

    /// The targets of the runs in flight, in the order of `ids`.
    pub closed spec fn targets(&self) -> Seq<BackgroundWorkflowRunTarget> {
        self.run_targets@
    }

    /// The queued trigger runs, first come first.
    pub closed spec fn queue(&self) -> Seq<QueuedWorkflowTriggerRun> {
        self.queued_trigger_runs@
    }

    /// The number the last run id carried.
    pub closed spec fn run_counter(&self) -> u64 {
        self.next_background_run_id
    }

    /// Every run id in flight has one target, and no id is there twice.
    pub open spec fn wf(&self) -> bool {
        &&& self.ids().len() == self.targets().len()
        &&& self.ids().no_duplicates()
    }

    /// The runs in flight, keyed by run id.
    pub open spec fn running(&self) -> Map<Seq<char>, BackgroundWorkflowRunTarget> {
        Map::new(
            |k: Seq<char>| self.ids().contains(k),
            |k: Seq<char>| self.targets()[id_index(self.ids(), k)],
        )
    }

    /// The labels of the runs in flight, as a multiset.
    pub open spec fn label_multiset(&self) -> Multiset<Seq<char>> {
        self.targets().map_values(|t: BackgroundWorkflowRunTarget| target_label(t)).to_multiset()
    }

    /// Some run in flight is a trigger run.
    pub open spec fn running_trigger(&self) -> bool {
        exists|k: Seq<char>| #[trigger] self.running().dom().contains(k) && self.running()[k] is Trigger
    }

    /// A run of trigger `workflow_name/trigger_id` is in flight.
    pub open spec fn trigger_active(&self, workflow_name: Seq<char>, trigger_id: Seq<char>) -> bool {
        exists|k: Seq<char>| #[trigger] self.running().dom().contains(k) && is_trigger_run_of(self.running()[k], workflow_name, trigger_id)
    }

    /// A run of trigger `workflow_name/trigger_id` is queued.
    pub open spec fn trigger_queued(&self, workflow_name: Seq<char>, trigger_id: Seq<char>) -> bool {
        exists|j: int| 0 <= j < self.queue().len() && #[trigger] self.queue()[j].workflow_name@ == workflow_name
            && self.queue()[j].trigger_id@ == trigger_id
    }

    /// Nothing in flight, nothing queued, no run id handed out yet.
    pub fn new() -> (r: Self)
        ensures
            r.wf(),
            r.ids().len() == 0,
            r.queue().len() == 0,
            r.run_counter() == 0,
    {
        WorkflowSchedulerState {
            run_ids: Vec::new(),
            run_targets: Vec::new(),
            queued_trigger_runs: VecDeque::new(),
            next_background_run_id: 0,
        }
    }

    /// A fresh run id `workflow/target#n`, counting up (and staying at the
    /// largest count once reached).
    pub fn next_background_run_id(&mut self, workflow_name: &str, target_name: &str) -> (r: String)
        ensures
            final(self).run_counter() == (if old(self).run_counter() == u64::MAX {
                u64::MAX
            } else {
                (old(self).run_counter() + 1) as u64
            }),
            r@ == workflow_name@ + "/"@ + target_name@ + "#"@ + decimal_seq(final(self).run_counter() as nat),
            final(self).ids() == old(self).ids(),
            final(self).targets() == old(self).targets(),
            final(self).queue() == old(self).queue(),
    {
        self.next_background_run_id = self.next_background_run_id.saturating_add(1);
        let mut id = concat3(workflow_name, "/", target_name);
        id.append("#");
        let n = decimal_string(self.next_background_run_id as u128);
        id.append(n.as_str());
        id
    }

    /// Records a run in flight under `run_id`, replacing one recorded under
    /// the same id.
    pub fn register_background_workflow_run(&mut self, run_id: String, target: BackgroundWorkflowRunTarget)
        requires
            old(self).wf(),
        ensures
            final(self).wf(),
            final(self).running() == old(self).running().insert(run_id@, target),
            final(self).label_multiset() == (if old(self).running().dom().contains(run_id@) {
                old(self).label_multiset().remove(target_label(old(self).running()[run_id@])).insert(target_label(target))
            } else {
                old(self).label_multiset().insert(target_label(target))
            }),
            final(self).queue() == old(self).queue(),
            final(self).run_counter() == old(self).run_counter(),
    {
        let ghost old_ids = self.ids();
        let ghost old_targets = self.targets();
        match find_id(&self.run_ids, &run_id) {
            Some(i) => {
                proof {
                    lemma_id_index(old_ids, i as int);
                }
                self.run_targets.set(i, target);
                proof {
                    let f = |t: BackgroundWorkflowRunTarget| target_label(t);
                    assert(self.targets().map_values(f) =~= old_targets.map_values(f).update(i as int, target_label(target)));
                    lemma_update_multiset(old_targets.map_values(f), i as int, target_label(target));
                    assert(self.running() =~= old(self).running().insert(run_id@, target)) by {
                        assert forall|k: Seq<char>| #[trigger] self.ids().contains(k) implies self.targets()[id_index(self.ids(), k)]
                            == old(self).running().insert(run_id@, target)[k] by {
                            let j = choose|j: int| 0 <= j < self.ids().len() && self.ids()[j] == k;
                            lemma_id_index(self.ids(), j);
                            lemma_id_index(old_ids, j);
                        }
                    }
                }
            },
            None => {
                proof {
                    lemma_views_push(self.run_ids@, run_id);
                }
                self.run_ids.push(run_id);
                self.run_targets.push(target);
                proof {
                    let f = |t: BackgroundWorkflowRunTarget| target_label(t);
                    assert(self.targets().map_values(f) =~= old_targets.map_values(f).push(target_label(target)));
                    assert(self.ids() == old_ids.push(run_id@));
                    assert(self.ids().no_duplicates()) by {
                        assert forall|a: int, b: int| 0 <= a < b < self.ids().len() implies self.ids()[a] != self.ids()[b] by {
                            if b == old_ids.len() {
                                assert(old_ids.contains(self.ids()[a]));
                            }
                        }
                    }
                    assert(self.running() =~= old(self).running().insert(run_id@, target)) by {
                        assert forall|k: Seq<char>| #[trigger] self.ids().contains(k) implies self.targets()[id_index(self.ids(), k)]
                            == old(self).running().insert(run_id@, target)[k] by {
                            let j = choose|j: int| 0 <= j < self.ids().len() && self.ids()[j] == k;
                            lemma_id_index(self.ids(), j);
                            if j < old_ids.len() {
                                lemma_id_index(old_ids, j);
                            }
                        }
                        assert forall|k: Seq<char>| #[trigger] self.ids().contains(k) <==> old(self).running().insert(run_id@, target).dom().contains(k) by {
                            if self.ids().contains(k) {
                                let j = choose|j: int| 0 <= j < self.ids().len() && self.ids()[j] == k;
                                if j < old_ids.len() {
                                    assert(old_ids[j] == k);
                                }
                            }
                            if old_ids.contains(k) {
                                let j = choose|j: int| 0 <= j < old_ids.len() && old_ids[j] == k;
                                assert(self.ids()[j] == k);
                            }
                            if k == run_id@ {
                                assert(self.ids()[old_ids.len() as int] == k);
                            }
                        }
                    }
                }
            },
        }
    }

    /// Removes the run recorded under `run_id` and returns its target.
    pub fn take_background_workflow_run(&mut self, run_id: &str) -> (r: Option<BackgroundWorkflowRunTarget>)
        requires
            old(self).wf(),
        ensures
            final(self).wf(),
            match r {
                Some(t) => old(self).running().dom().contains(run_id@) && t == old(self).running()[run_id@]
                    && final(self).label_multiset() == old(self).label_multiset().remove(target_label(t)),
                None => !old(self).running().dom().contains(run_id@) && final(self).label_multiset()
                    == old(self).label_multiset(),
            },
            final(self).running() == old(self).running().remove(run_id@),
            final(self).queue() == old(self).queue(),
            final(self).run_counter() == old(self).run_counter(),
    {
        let ghost old_ids = self.ids();
        let ghost old_targets = self.targets();
        let key = String::from_str(run_id);
        match find_id(&self.run_ids, &key) {
            Some(i) => {
                proof {
                    lemma_id_index(old_ids, i as int);
                }
                let removed_id = self.run_ids.remove(i);
                let t = self.run_targets.remove(i);
                proof {
                    let f = |t: BackgroundWorkflowRunTarget| target_label(t);
                    assert(self.ids() =~= old_ids.remove(i as int));
                    assert(self.targets().map_values(f) =~= old_targets.map_values(f).remove(i as int));
                    assert(self.ids().no_duplicates()) by {
                        assert forall|a: int, b: int| 0 <= a < b < self.ids().len() implies self.ids()[a] != self.ids()[b] by {
                            let a0 = if a < i { a } else { a + 1 };
                            let b0 = if b < i { b } else { b + 1 };
                            assert(self.ids()[a] == old_ids[a0]);
                            assert(self.ids()[b] == old_ids[b0]);
                        }
                    }
                    assert(self.running() =~= old(self).running().remove(run_id@)) by {
                        assert forall|k: Seq<char>| #[trigger] self.ids().contains(k) <==> old(self).running().remove(run_id@).dom().contains(k) by {
                            if self.ids().contains(k) {
                                let j = choose|j: int| 0 <= j < self.ids().len() && self.ids()[j] == k;
                                let j0 = if j < i { j } else { j + 1 };
                                assert(old_ids[j0] == k);
                                assert(j0 != i);
                            }
                            if old_ids.contains(k) && k != run_id@ {
                                let j = choose|j: int| 0 <= j < old_ids.len() && old_ids[j] == k;
                                assert(j != i);
                                let j1 = if j < i { j } else { j - 1 };
                                assert(self.ids()[j1] == k);
                            }
                        }
                        assert forall|k: Seq<char>| #[trigger] self.ids().contains(k) implies self.targets()[id_index(self.ids(), k)]
                            == old(self).running()[k] by {
                            let j = choose|j: int| 0 <= j < self.ids().len() && self.ids()[j] == k;
                            let j0 = if j < i { j } else { j + 1 };
                            assert(old_ids[j0] == k);
                            lemma_id_index(self.ids(), j);
                            lemma_id_index(old_ids, j0);
                        }
                    }
                }
                Some(t)
            },
            None => {
                proof {
                    assert(self.running() =~= old(self).running().remove(run_id@));
                }
                None
            },
        }
    }

    /// The labels of the runs in flight, sorted.
    pub fn background_workflow_labels(&self) -> (r: Vec<String>)
        requires
            self.wf(),
        ensures
            sorted_strings(views(r@)),
            views(r@).to_multiset() == self.label_multiset(),
    {
        let ghost f = |t: BackgroundWorkflowRunTarget| target_label(t);
        let mut labels: Vec<String> = Vec::new();
        let mut i: usize = 0;
        while i < self.run_targets.len()
            invariant
                self.wf(),
                i <= self.run_targets@.len(),
                f == (|t: BackgroundWorkflowRunTarget| target_label(t)),
                sorted_strings(views(labels@)),
                views(labels@).to_multiset() == self.targets().take(i as int).map_values(f).to_multiset(),
            decreases self.run_targets@.len() - i,
        {
            let label = self.run_targets[i].label();
            let ghost before = views(labels@);
            let p = sorted_insert_position(&labels, &label);
            labels.insert(p, label);
            proof {
                assert(views(labels@) =~= before.insert(p as int, label@));
                lemma_insert_sorted(before, p as int, label@);
                assert(self.targets().take(i + 1).map_values(f) =~= self.targets().take(i as int).map_values(f).push(label@));
            }
            i = i + 1;
        }
        proof {
            assert(self.targets().take(i as int) =~= self.targets());
        }
        labels
    }

    /// The labels of the queued trigger runs, first come first.
    pub fn queued_trigger_labels(&self) -> (r: Vec<String>)
        ensures
            views(r@) == self.queue().map_values(|q: QueuedWorkflowTriggerRun| queued_label(q)),
    {
        let mut labels: Vec<String> = Vec::new();
        let mut i: usize = 0;
        while i < self.queued_trigger_runs.len()
            invariant
                i <= self.queue().len(),
                views(labels@) =~= self.queue().take(i as int).map_values(|q: QueuedWorkflowTriggerRun| queued_label(q)),
            decreases self.queue().len() - i,
        {
            let q = &self.queued_trigger_runs[i];
            let label = concat3(q.workflow_name.as_str(), " · ", q.trigger_id.as_str());
            proof {
                lemma_views_push(labels@, label);
            }
            labels.push(label);
            i = i + 1;
        }
        assert(self.queue().take(i as int) =~= self.queue());
        labels
    }

    /// Some run in flight is a trigger run.
    pub fn has_running_trigger_run(&self) -> (r: bool)
        requires
            self.wf(),
        ensures
            r == self.running_trigger(),
    {
        let mut i: usize = 0;
        while i < self.run_targets.len()
            invariant
                self.wf(),
                i <= self.targets().len(),
                forall|j: int| 0 <= j < i ==> !(#[trigger] self.targets()[j] is Trigger),
            decreases self.targets().len() - i,
        {
            match &self.run_targets[i] {
                BackgroundWorkflowRunTarget::Trigger { .. } => {
                    proof {
                        lemma_id_index(self.ids(), i as int);
                        assert(self.running().dom().contains(self.ids()[i as int]));
                    }
                    return true;
                },
                _ => {},
            }
            i = i + 1;
        }
        proof {
            assert forall|k: Seq<char>| #[trigger] self.running().dom().contains(k) implies !(self.running()[k] is Trigger) by {
                let j = choose|j: int| 0 <= j < self.ids().len() && self.ids()[j] == k;
                lemma_id_index(self.ids(), j);
            }
        }
        false
    }

    /// A run of trigger `workflow_name/trigger_id` is in flight.
    pub fn has_active_trigger_run(&self, workflow_name: &str, trigger_id: &str) -> (r: bool)
        requires
            self.wf(),
        ensures
            r == self.trigger_active(workflow_name@, trigger_id@),
    {
        let mut i: usize = 0;
        while i < self.run_targets.len()
            invariant
                self.wf(),
                i <= self.targets().len(),
                forall|j: int| 0 <= j < i ==> !is_trigger_run_of(#[trigger] self.targets()[j], workflow_name@, trigger_id@),
            decreases self.targets().len() - i,
        {
            let hit = match &self.run_targets[i] {
                BackgroundWorkflowRunTarget::Trigger { workflow_name: w, trigger_id: t, .. } =>
                    str_eq(w.as_str(), workflow_name) && str_eq(t.as_str(), trigger_id),
                _ => false,
            };
            if hit {
                proof {
                    lemma_id_index(self.ids(), i as int);
                    assert(self.running().dom().contains(self.ids()[i as int]));
                }
                return true;
            }
            i = i + 1;
        }
        proof {
            assert forall|k: Seq<char>| #[trigger] self.running().dom().contains(k) implies !is_trigger_run_of(self.running()[k], workflow_name@, trigger_id@) by {
                let j = choose|j: int| 0 <= j < self.ids().len() && self.ids()[j] == k;
                lemma_id_index(self.ids(), j);
            }
        }
        false
    }

    /// A run of trigger `workflow_name/trigger_id` is queued.
    pub fn has_queued_trigger_run(&self, workflow_name: &str, trigger_id: &str) -> (r: bool)
        ensures
            r == self.trigger_queued(workflow_name@, trigger_id@),
    {
        let mut i: usize = 0;
        while i < self.queued_trigger_runs.len()
            invariant
                i <= self.queue().len(),
                forall|j: int| 0 <= j < i ==> !(#[trigger] self.queue()[j].workflow_name@ == workflow_name@
                    && self.queue()[j].trigger_id@ == trigger_id@),
            decreases self.queue().len() - i,
        {
            let q = &self.queued_trigger_runs[i];
            if str_eq(q.workflow_name.as_str(), workflow_name) && str_eq(q.trigger_id.as_str(), trigger_id) {
                return true;
            }
            i = i + 1;
        }
        false
    }

    /// Queues a trigger run behind the others.
    pub fn enqueue_trigger_run(&mut self, workflow_name: String, trigger_id: String, phase_context: OwnedWorkflowPhaseContext)
        ensures
            final(self).queue() == old(self).queue().push(QueuedWorkflowTriggerRun { workflow_name, trigger_id, phase_context }),
            final(self).ids() == old(self).ids(),
            final(self).targets() == old(self).targets(),
            final(self).run_counter() == old(self).run_counter(),
    {
        self.queued_trigger_runs.push_back(QueuedWorkflowTriggerRun { workflow_name, trigger_id, phase_context });
    }

    /// Takes the trigger run queued first.
    pub fn dequeue_trigger_run(&mut self) -> (r: Option<QueuedWorkflowTriggerRun>)
        ensures
            match r {
                Some(q) => old(self).queue().len() > 0 && q == old(self).queue()[0] && final(self).queue() == old(self).queue().drop_first(),
                None => old(self).queue().len() == 0 && final(self).queue() == old(self).queue(),
            },
            final(self).ids() == old(self).ids(),
            final(self).targets() == old(self).targets(),
            final(self).run_counter() == old(self).run_counter(),
    {
        self.queued_trigger_runs.pop_front()
    }

    /// Forgets every run in flight and every queued run, and returns the ids
    /// of the runs that were in flight, for the caller to stop.
    pub fn stop_active_workflow_runs(&mut self) -> (r: Vec<String>)
        requires
            old(self).wf(),
        ensures
            views(r@) == old(self).ids(),
            views(r@).to_set() == old(self).running().dom(),
            final(self).wf(),
            final(self).ids().len() == 0,
            final(self).running().dom().is_empty(),
            final(self).queue().len() == 0,
            final(self).run_counter() == old(self).run_counter(),
    {
        let mut ids: Vec<String> = Vec::new();
        std::mem::swap(&mut ids, &mut self.run_ids);
        self.run_targets = Vec::new();
        self.queued_trigger_runs = VecDeque::new();
        proof {
            assert(views(ids@).to_set() =~= old(self).running().dom());
            assert(self.running().dom() =~= Set::empty());
        }
        ids
    }
}

/// `t` is a run of the trigger `workflow_name/trigger_id`.
pub open spec fn is_trigger_run_of(t: BackgroundWorkflowRunTarget, workflow_name: Seq<char>, trigger_id: Seq<char>) -> bool {
    match t {
        BackgroundWorkflowRunTarget::Trigger { workflow_name: w, trigger_id: i, .. } => w@ == workflow_name && i@ == trigger_id,
        _ => false,
    }
}

/// The position of `k` among `ids`.
pub open spec fn id_index(ids: Seq<Seq<char>>, k: Seq<char>) -> int {
    choose|i: int| 0 <= i < ids.len() && #[trigger] ids[i] == k
}

/// Among ids without duplicates, an id's position is where it stands.
proof fn lemma_id_index(ids: Seq<Seq<char>>, i: int)
    requires
        ids.no_duplicates(),
        0 <= i < ids.len(),
    ensures
        id_index(ids, ids[i]) == i,
        ids.contains(ids[i]),
{
    assert(exists|j: int| 0 <= j < ids.len() && #[trigger] ids[j] == ids[i]) by {
        assert(ids[i] == ids[i]);
    }
}

/// Replacing an element replaces it in the multiset.
proof fn lemma_update_multiset<A>(s: Seq<A>, i: int, a: A)
    requires
        0 <= i < s.len(),
    ensures
        s.update(i, a).to_multiset() == s.to_multiset().remove(s[i]).insert(a),
{
    assert(s.update(i, a) =~= s.remove(i).insert(i, a));
    vstd::seq_lib::to_multiset_insert(s.remove(i), i, a);
}

/// Inserting at a sorted position keeps a sorted sequence sorted and adds
/// the element to its multiset.
pub proof fn lemma_insert_sorted(s: Seq<Seq<char>>, p: int, x: Seq<char>)
    requires
        sorted_strings(s),
        0 <= p <= s.len(),
        forall|k: int| 0 <= k < p ==> !seq_lt(x, #[trigger] s[k]),
        p < s.len() ==> seq_lt(x, s[p]),
    ensures
        sorted_strings(s.insert(p, x)),
        s.insert(p, x).to_multiset() == s.to_multiset().insert(x),
{
    let t = s.insert(p, x);
    vstd::seq_lib::to_multiset_insert(s, p, x);
    assert forall|i: int, j: int| 0 <= i < j < t.len() implies !seq_lt(#[trigger] t[j], #[trigger] t[i]) by {
        if i < p && j < p {
            assert(t[i] == s[i] && t[j] == s[j]);
        } else if i < p && j == p {
            lemma_seq_lt_trichotomy(x, s[i]);
        } else if i < p {
            assert(t[j] == s[j - 1] && t[i] == s[i]);
        } else if i == p {
            assert(t[j] == s[j - 1]);
            lemma_seq_lt_trichotomy(s[p], s[j - 1]);
            lemma_seq_lt_trichotomy(x, s[j - 1]);
            if seq_lt(s[p], s[j - 1]) {
                lemma_seq_lt_transitive(x, s[p], s[j - 1]);
            }
        } else {
            assert(t[j] == s[j - 1] && t[i] == s[i - 1]);
        }
    }
}

/// The first position whose entry sorts after `x`.
pub fn sorted_insert_position(v: &Vec<String>, x: &String) -> (p: usize)
    ensures
        p <= v@.len(),
        forall|k: int| 0 <= k < p ==> !seq_lt(x@, #[trigger] views(v@)[k]),
        p < v@.len() ==> seq_lt(x@, views(v@)[p as int]),
{
    let mut i: usize = 0;
    while i < v.len()
        invariant
            i <= v@.len(),
            forall|k: int| 0 <= k < i ==> !seq_lt(x@, #[trigger] views(v@)[k]),
        decreases v@.len() - i,
    {
        assert(views(v@)[i as int] == v@[i as int]@);
        if string_lt(x, &v[i]) {
            return i;
        }
        i = i + 1;
    }
    i
}

/// The index of `id` in `ids`.
fn find_id(ids: &Vec<String>, id: &String) -> (r: Option<usize>)
    ensures
        match r {
            Some(i) => i < ids@.len() && ids@[i as int]@ == id@,
            None => !views(ids@).contains(id@),
        },
{
    let mut i: usize = 0;
    while i < ids.len()
        invariant
            i <= ids@.len(),
            forall|k: int| 0 <= k < i ==> ids@[k]@ != id@,
        decreases ids@.len() - i,
    {
        if ids[i] == *id {
            return Some(i);
        }
        i = i + 1;
    }
    assert forall|k: int| 0 <= k < views(ids@).len() implies views(ids@)[k] != id@ by {
        assert(views(ids@)[k] == ids@[k]@);
    }
    None
}

} // verus!
