//! The loop timers of a workspace, as plain values, and the book that keeps
//! them by id.
use vstd::prelude::*;
use crate::text::{copy_opt_string, opt_view, views};

verus! {

/// Whether a loop runs once or stays until it is deleted.
#[derive(Debug, Clone, Copy, PartialEq, Eq, Structural)]
pub enum LoopMode {
    OneShot,
    Persistent,
}

/// Where a loop's turns run: embedded in the main thread, in a thread of
/// their own each time, or in one thread kept across runs.
#[derive(Debug, Clone, Copy, PartialEq, Eq, Structural)]
pub enum LoopContextMode {
    Embed,
    Ephemeral,
    Persistent,
}

/// How a loop's answer comes back: as an assistant message, or as a user
/// turn of the main thread.
#[derive(Debug, Clone, Copy, PartialEq, Eq, Structural)]
pub enum LoopResponseMode {
    Assistant,
    User,
}

/// Where a loop may write: where its parent thread may, or only in
/// directories of its own.
#[derive(Debug, Clone, Copy, PartialEq, Eq, Structural)]
pub enum LoopSecurityMode {
    Inherited,
    SpecifiedDirectory,
}

/// When a loop runs: every so many seconds, or on a cron expression.
#[derive(Debug, PartialEq, Eq)]
pub enum LoopSchedule {
    Interval { display: String, seconds: u64 },
    Cron { display: String, normalized: String },
}

/// A schedule as its contents read.
pub enum LoopScheduleView {
    Interval { display: Seq<char>, seconds: u64 },
    Cron { display: Seq<char>, normalized: Seq<char> },
}

impl View for LoopSchedule {
    type V = LoopScheduleView;

    open spec fn view(&self) -> LoopScheduleView {
        match self {
            LoopSchedule::Interval { display, seconds } => LoopScheduleView::Interval { display: display@, seconds: *seconds },
            LoopSchedule::Cron { display, normalized } => LoopScheduleView::Cron { display: display@, normalized: normalized@ },
        }
    }
}

impl LoopScheduleView {
    /// The text that shows the schedule.
    pub open spec fn display(self) -> Seq<char> {
        match self {
            LoopScheduleView::Interval { display, .. } => display,
            LoopScheduleView::Cron { display, .. } => display,
        }
    }
}

impl LoopSchedule {
    /// The text that shows the schedule.
    pub fn display(&self) -> (r: &str)
        ensures
            r@ == self@.display(),
    {
        match self {
            LoopSchedule::Interval { display, .. } => display.as_str(),
            LoopSchedule::Cron { display, .. } => display.as_str(),
        }
    }

    /// A copy of this schedule.
    pub fn duplicate(&self) -> (r: Self)
        ensures
            r@ == self@,
    {
        match self {
            LoopSchedule::Interval { display, seconds } => LoopSchedule::Interval { display: display.clone(), seconds: *seconds },
            LoopSchedule::Cron { display, normalized } => LoopSchedule::Cron {
                display: display.clone(),
                normalized: normalized.clone(),
            },
        }
    }
}

/// What starts a loop: a schedule, a quiet spell of the main thread, or a
/// turn of the main thread.
#[derive(Debug, PartialEq, Eq)]
pub enum LoopTriggerKind {
    Timer { schedule: LoopSchedule },
    Idle { after: LoopSchedule },
    BeforeTurn,
    AfterTurn,
}

/// A trigger kind as its contents read.
pub enum LoopTriggerKindView {
    Timer { schedule: LoopScheduleView },
    Idle { after: LoopScheduleView },
    BeforeTurn,
    AfterTurn,
}

impl View for LoopTriggerKind {
    type V = LoopTriggerKindView;

    open spec fn view(&self) -> LoopTriggerKindView {
        match self {
            LoopTriggerKind::Timer { schedule } => LoopTriggerKindView::Timer { schedule: schedule@ },
            LoopTriggerKind::Idle { after } => LoopTriggerKindView::Idle { after: after@ },
            LoopTriggerKind::BeforeTurn => LoopTriggerKindView::BeforeTurn,
            LoopTriggerKind::AfterTurn => LoopTriggerKindView::AfterTurn,
        }
    }
}

impl LoopSchedule {
    /// Whether this schedule reads as `other` does.
    pub fn same_as(&self, other: &LoopSchedule) -> (r: bool)
        ensures
            r == (self@ == other@),
    {
        match (self, other) {
            (LoopSchedule::Interval { display: a, seconds: x }, LoopSchedule::Interval { display: b, seconds: y }) => {
                *x == *y && crate::text::str_eq(a.as_str(), b.as_str())
            },
            (LoopSchedule::Cron { display: a, normalized: x }, LoopSchedule::Cron { display: b, normalized: y }) => {
                crate::text::str_eq(a.as_str(), b.as_str()) && crate::text::str_eq(x.as_str(), y.as_str())
            },
            _ => false,
        }
    }
}

impl LoopTriggerKind {
    /// Whether this trigger kind reads as `other` does.
    pub fn same_as(&self, other: &LoopTriggerKind) -> (r: bool)
        ensures
            r == (self@ == other@),
    {
        match (self, other) {
            (LoopTriggerKind::Timer { schedule: a }, LoopTriggerKind::Timer { schedule: b }) => a.same_as(b),
            (LoopTriggerKind::Idle { after: a }, LoopTriggerKind::Idle { after: b }) => a.same_as(b),
            (LoopTriggerKind::BeforeTurn, LoopTriggerKind::BeforeTurn) => true,
            (LoopTriggerKind::AfterTurn, LoopTriggerKind::AfterTurn) => true,
            _ => false,
        }
    }
}

impl LoopTriggerKind {
    /// A copy of this trigger kind.
    pub fn duplicate(&self) -> (r: Self)
        ensures
            r@ == self@,
    {
        match self {
            LoopTriggerKind::Timer { schedule } => LoopTriggerKind::Timer { schedule: schedule.duplicate() },
            LoopTriggerKind::Idle { after } => LoopTriggerKind::Idle { after: after.duplicate() },
            LoopTriggerKind::BeforeTurn => LoopTriggerKind::BeforeTurn,
            LoopTriggerKind::AfterTurn => LoopTriggerKind::AfterTurn,
        }
    }
}

/// One trigger of a loop, which can be switched off on its own.
#[derive(Debug, PartialEq, Eq)]
pub struct LoopTriggerBinding {
    pub id: String,
    pub enabled: bool,
    pub kind: LoopTriggerKind,
}

/// A trigger binding as its contents read.
pub struct LoopTriggerBindingView {
    pub id: Seq<char>,
    pub enabled: bool,
    pub kind: LoopTriggerKindView,
}

impl View for LoopTriggerBinding {
    type V = LoopTriggerBindingView;

    open spec fn view(&self) -> LoopTriggerBindingView {
        LoopTriggerBindingView { id: self.id@, enabled: self.enabled, kind: self.kind@ }
    }
}

/// The views of `bindings`, in order.
pub open spec fn binding_views(bindings: Seq<LoopTriggerBinding>) -> Seq<LoopTriggerBindingView> {
    bindings.map_values(|b: LoopTriggerBinding| b@)
}

impl LoopTriggerBinding {
    /// A copy of this binding.
    pub fn duplicate(&self) -> (r: Self)
        ensures
            r@ == self@,
    {
        LoopTriggerBinding { id: self.id.clone(), enabled: self.enabled, kind: self.kind.duplicate() }
    }
}

/// A copy of `bindings`.
pub fn duplicate_bindings(bindings: &Vec<LoopTriggerBinding>) -> (r: Vec<LoopTriggerBinding>)
    ensures
        binding_views(r@) == binding_views(bindings@),
{
    let mut r: Vec<LoopTriggerBinding> = Vec::new();
    let mut i: usize = 0;
    while i < bindings.len()
        invariant
            i <= bindings@.len(),
            binding_views(r@) == binding_views(bindings@.take(i as int)),
        decreases bindings@.len() - i,
    {
        let b = bindings[i].duplicate();
        let ghost before = r@;
        r.push(b);
        proof {
            assert(bindings@.take(i as int + 1) == bindings@.take(i as int).push(bindings@[i as int]));
            assert(binding_views(r@) =~= binding_views(before).push(b@));
            assert(binding_views(bindings@.take(i as int + 1)) =~= binding_views(bindings@.take(i as int)).push(
                bindings@[i as int]@,
            ));
        }
        i = i + 1;
    }
    proof {
        assert(bindings@.take(bindings@.len() as int) == bindings@);
    }
    r
}

/// Where a loop works: its own working directory, if any, and the
/// directories it may write to.
#[derive(Debug, PartialEq, Eq)]
pub struct LoopExecutionSettings {
    pub cwd: Option<String>,
    pub writable_roots: Vec<String>,
}

/// Execution settings as their contents read.
pub struct LoopExecutionSettingsView {
    pub cwd: Option<Seq<char>>,
    pub writable_roots: Seq<Seq<char>>,
}

impl View for LoopExecutionSettings {
    type V = LoopExecutionSettingsView;

    open spec fn view(&self) -> LoopExecutionSettingsView {
        LoopExecutionSettingsView { cwd: opt_view(self.cwd), writable_roots: views(self.writable_roots@) }
    }
}

/// A copy of `v`.
pub fn duplicate_strings(v: &Vec<String>) -> (r: Vec<String>)
    ensures
        views(r@) == views(v@),
{
    let mut r: Vec<String> = Vec::new();
    let mut i: usize = 0;
    while i < v.len()
        invariant
            i <= v@.len(),
            views(r@) == views(v@.take(i as int)),
        decreases v@.len() - i,
    {
        let x = v[i].clone();
        let ghost before = r@;
        r.push(x);
        proof {
            assert(v@.take(i as int + 1) == v@.take(i as int).push(v@[i as int]));
            assert(views(r@) =~= views(before).push(x@));
            assert(views(v@.take(i as int + 1)) =~= views(v@.take(i as int)).push(v@[i as int]@));
        }
        i = i + 1;
    }
    proof {
        assert(v@.take(v@.len() as int) == v@);
    }
    r
}

impl LoopExecutionSettings {
    /// No working directory of its own and no writable directories.
    pub fn new() -> (r: Self)
        ensures
            r@.cwd is None,
            r@.writable_roots.len() == 0,
    {
        LoopExecutionSettings { cwd: None, writable_roots: Vec::new() }
    }

    /// A copy of these settings.
    pub fn duplicate(&self) -> (r: Self)
        ensures
            r@ == self@,
    {
        LoopExecutionSettings { cwd: copy_opt_string(&self.cwd), writable_roots: duplicate_strings(&self.writable_roots) }
    }
}

/// A loop timer of the workspace.
#[derive(Debug, PartialEq, Eq)]
pub struct LoopTimer {
    pub id: String,
    pub mode: LoopMode,
    pub prompt: String,
    pub action: Option<String>,
    pub context_mode: LoopContextMode,
    pub response_mode: LoopResponseMode,
    pub security_mode: LoopSecurityMode,
    pub execution: LoopExecutionSettings,
    pub schedule: LoopSchedule,
    pub trigger_bindings: Vec<LoopTriggerBinding>,
    pub enabled: bool,
    pub rollout_path: Option<String>,
    pub created_at_unix_seconds: i64,
    pub last_scheduled_at_unix_seconds: Option<i64>,
    pub last_completed_at_unix_seconds: Option<i64>,
}

/// A loop timer as its contents read.
pub struct LoopTimerView {
    pub id: Seq<char>,
    pub mode: LoopMode,
    pub prompt: Seq<char>,
    pub action: Option<Seq<char>>,
    pub context_mode: LoopContextMode,
    pub response_mode: LoopResponseMode,
    pub security_mode: LoopSecurityMode,
    pub execution: LoopExecutionSettingsView,
    pub schedule: LoopScheduleView,
    pub trigger_bindings: Seq<LoopTriggerBindingView>,
    pub enabled: bool,
    pub rollout_path: Option<Seq<char>>,
    pub created_at_unix_seconds: i64,
    pub last_scheduled_at_unix_seconds: Option<i64>,
    pub last_completed_at_unix_seconds: Option<i64>,
}

impl View for LoopTimer {
    type V = LoopTimerView;

    open spec fn view(&self) -> LoopTimerView {
        LoopTimerView {
            id: self.id@,
            mode: self.mode,
            prompt: self.prompt@,
            action: opt_view(self.action),
            context_mode: self.context_mode,
            response_mode: self.response_mode,
            security_mode: self.security_mode,
            execution: self.execution@,
            schedule: self.schedule@,
            trigger_bindings: binding_views(self.trigger_bindings@),
            enabled: self.enabled,
            rollout_path: opt_view(self.rollout_path),
            created_at_unix_seconds: self.created_at_unix_seconds,
            last_scheduled_at_unix_seconds: self.last_scheduled_at_unix_seconds,
            last_completed_at_unix_seconds: self.last_completed_at_unix_seconds,
        }
    }
}

impl LoopTimer {
    /// A copy of this timer.
    pub fn duplicate(&self) -> (r: Self)
        ensures
            r@ == self@,
    {
        LoopTimer {
            id: self.id.clone(),
            mode: self.mode,
            prompt: self.prompt.clone(),
            action: copy_opt_string(&self.action),
            context_mode: self.context_mode,
            response_mode: self.response_mode,
            security_mode: self.security_mode,
            execution: self.execution.duplicate(),
            schedule: self.schedule.duplicate(),
            trigger_bindings: duplicate_bindings(&self.trigger_bindings),
            enabled: self.enabled,
            rollout_path: copy_opt_string(&self.rollout_path),
            created_at_unix_seconds: self.created_at_unix_seconds,
            last_scheduled_at_unix_seconds: self.last_scheduled_at_unix_seconds,
            last_completed_at_unix_seconds: self.last_completed_at_unix_seconds,
        }
    }
}

/// The views of `timers`, in order.
pub open spec fn timer_views(timers: Seq<LoopTimer>) -> Seq<LoopTimerView> {
    timers.map_values(|t: LoopTimer| t@)
}

/// No two timers share an id.
pub open spec fn ids_unique(s: Seq<LoopTimerView>) -> bool {
    forall|i: int, j: int| 0 <= i < j < s.len() ==> #[trigger] s[i].id != #[trigger] s[j].id
}

/// Some timer has the id `id`.
pub open spec fn has_timer(s: Seq<LoopTimerView>, id: Seq<char>) -> bool {
    exists|i: int| 0 <= i < s.len() && #[trigger] s[i].id == id
}

/// The position of the timer with the id `id`.
pub open spec fn timer_pos(s: Seq<LoopTimerView>, id: Seq<char>) -> int {
    choose|i: int| 0 <= i < s.len() && #[trigger] s[i].id == id
}

/// The timer with the id `id`.
pub open spec fn timer_at(s: Seq<LoopTimerView>, id: Seq<char>) -> LoopTimerView {
    s[timer_pos(s, id)]
}

/// Where ids are unique, the timer at `i` is the one found by its id.
pub proof fn lemma_timer_pos(s: Seq<LoopTimerView>, i: int)
    requires
        ids_unique(s),
        0 <= i < s.len(),
    ensures
        has_timer(s, s[i].id),
        timer_pos(s, s[i].id) == i,
{
    assert(s[i].id == s[i].id);
    let j = timer_pos(s, s[i].id);
    if j != i {
        if j < i {
            assert(s[j].id != s[i].id);
        } else {
            assert(s[i].id != s[j].id);
        }
    }
}

/// Taking a timer out leaves no timer with its id, and the others unique.
pub proof fn lemma_remove_unique(s: Seq<LoopTimerView>, i: int)
    requires
        ids_unique(s),
        0 <= i < s.len(),
    ensures
        ids_unique(s.remove(i)),
        !has_timer(s.remove(i), s[i].id),
{
    let r = s.remove(i);
    assert forall|a: int, b: int| 0 <= a < b < r.len() implies #[trigger] r[a].id != #[trigger] r[b].id by {
        let a2 = if a < i { a } else { a + 1 };
        let b2 = if b < i { b } else { b + 1 };
        assert(r[a] == s[a2]);
        assert(r[b] == s[b2]);
        assert(s[a2].id != s[b2].id);
    }
    if has_timer(r, s[i].id) {
        let k = choose|k: int| 0 <= k < r.len() && #[trigger] r[k].id == s[i].id;
        let k2 = if k < i { k } else { k + 1 };
        assert(r[k] == s[k2]);
        if k2 < i {
            assert(s[k2].id != s[i].id);
        } else {
            assert(s[i].id != s[k2].id);
        }
    }
}

/// Putting a timer with a new id anywhere keeps the ids unique.
pub proof fn lemma_insert_unique(s: Seq<LoopTimerView>, i: int, t: LoopTimerView)
    requires
        ids_unique(s),
        0 <= i <= s.len(),
        !has_timer(s, t.id),
    ensures
        ids_unique(s.insert(i, t)),
{
    let r = s.insert(i, t);
    assert forall|a: int, b: int| 0 <= a < b < r.len() implies #[trigger] r[a].id != #[trigger] r[b].id by {
        if a == i {
            assert(r[b] == s[b - 1]);
            assert(s[b - 1].id == s[b - 1].id);
        } else if b == i {
            assert(r[a] == s[a]);
            assert(s[a].id == s[a].id);
        } else {
            let a2 = if a < i { a } else { a - 1 };
            let b2 = if b < i { b } else { b - 1 };
            assert(r[a] == s[a2]);
            assert(r[b] == s[b2]);
            assert(s[a2].id != s[b2].id);
        }
    }
}

/// `s` with `t` added, or put in the place of the timer with its id.
pub open spec fn put_timer(s: Seq<LoopTimerView>, t: LoopTimerView) -> Seq<LoopTimerView> {
    if has_timer(s, t.id) {
        s.update(timer_pos(s, t.id), t)
    } else {
        s.push(t)
    }
}

/// Reading after a write: once `t` is put into timers with unique ids, the
/// ids stay unique, the timer found under `t`'s id is `t`, and every other
/// id finds what it found before.
pub proof fn lemma_put_then_get(s: Seq<LoopTimerView>, t: LoopTimerView, other: Seq<char>)
    requires
        ids_unique(s),
    ensures
        ids_unique(put_timer(s, t)),
        has_timer(put_timer(s, t), t.id),
        timer_at(put_timer(s, t), t.id) == t,
        other != t.id ==> has_timer(put_timer(s, t), other) == has_timer(s, other),
        other != t.id && has_timer(s, other) ==> timer_at(put_timer(s, t), other) == timer_at(s, other),
{
    let r = put_timer(s, t);
    if has_timer(s, t.id) {
        let p = timer_pos(s, t.id);
        assert(0 <= p < s.len() && s[p].id == t.id);
        assert forall|i: int, j: int| 0 <= i < j < r.len() implies #[trigger] r[i].id != #[trigger] r[j].id by {
            assert(s[i].id != s[j].id);
        }
        lemma_timer_pos(r, p);
        if other != t.id && has_timer(s, other) {
            let q = timer_pos(s, other);
            assert(s[q].id == other);
            assert(r[q] == s[q]);
            lemma_timer_pos(r, q);
            lemma_timer_pos(s, q);
        }
        if other != t.id && has_timer(r, other) {
            let q = timer_pos(r, other);
            assert(r[q].id == other);
            assert(q != p);
            assert(s[q].id == other);
        }
    } else {
        assert forall|i: int, j: int| 0 <= i < j < r.len() implies #[trigger] r[i].id != #[trigger] r[j].id by {
            if j == s.len() {
                assert(r[i] == s[i]);
                if s[i].id == t.id {
                    assert(has_timer(s, t.id));
                }
            } else {
                assert(s[i].id != s[j].id);
            }
        }
        lemma_timer_pos(r, s.len() as int);
        if other != t.id && has_timer(s, other) {
            let q = timer_pos(s, other);
            assert(r[q] == s[q]);
            lemma_timer_pos(r, q);
            lemma_timer_pos(s, q);
        }
        if other != t.id && has_timer(r, other) {
            let q = timer_pos(r, other);
            assert(q != s.len());
            assert(s[q].id == other);
        }
    }
}

/// Removing the timer `id` leaves no timer under that id, keeps the ids
/// unique, and leaves every other id finding what it found before.
pub proof fn lemma_remove_then_get(s: Seq<LoopTimerView>, id: Seq<char>, other: Seq<char>)
    requires
        ids_unique(s),
        has_timer(s, id),
    ensures
        ids_unique(s.remove(timer_pos(s, id))),
        !has_timer(s.remove(timer_pos(s, id)), id),
        other != id ==> has_timer(s.remove(timer_pos(s, id)), other) == has_timer(s, other),
        other != id && has_timer(s, other) ==> timer_at(s.remove(timer_pos(s, id)), other) == timer_at(s, other),
{
    let p = timer_pos(s, id);
    let r = s.remove(p);
    lemma_remove_unique(s, p);
    if other != id && has_timer(s, other) {
        let q = timer_pos(s, other);
        assert(s[q].id == other);
        assert(q != p);
        let q2 = if q < p { q } else { q - 1 };
        assert(r[q2] == s[q]);
        lemma_timer_pos(r, q2);
    }
    if other != id && has_timer(r, other) {
        let q = timer_pos(r, other);
        let q2 = if q < p { q } else { q + 1 };
        assert(r[q] == s[q2]);
    }
}

/// An edit that keeps a timer's id keeps the set of ids: every id finds a
/// timer afterwards exactly when it did before.
pub proof fn lemma_replace_keeps_ids(s: Seq<LoopTimerView>, id: Seq<char>, t: LoopTimerView, other: Seq<char>)
    requires
        ids_unique(s),
        has_timer(s, id),
        t.id == id,
    ensures
        ids_unique(s.update(timer_pos(s, id), t)),
        has_timer(s.update(timer_pos(s, id), t), other) == has_timer(s, other),
        timer_at(s.update(timer_pos(s, id), t), id) == t,
{
    assert(put_timer(s, t) == s.update(timer_pos(s, id), t));
    lemma_put_then_get(s, t, other);
}

/// The loop timers of a workspace, each id at most once, in the order
/// they were first added.
pub struct LoopTimerBook {
    timers: Vec<LoopTimer>,
}

impl View for LoopTimerBook {
    type V = Seq<LoopTimerView>;

    closed spec fn view(&self) -> Seq<LoopTimerView> {
        timer_views(self.timers@)
    }
}

impl LoopTimerBook {
    /// No id is held twice.
    pub open spec fn wf(&self) -> bool {
        ids_unique(self@)
    }

    /// A book without timers.
    pub fn new() -> (r: Self)
        ensures
            r.wf(),
            r@.len() == 0,
    {
        let r = LoopTimerBook { timers: Vec::new() };
        assert(r@ =~= Seq::<LoopTimerView>::empty());
        r
    }

    /// The timer with the id `id`, as it is stored.
    pub closed spec fn stored(&self, id: Seq<char>) -> LoopTimer {
        self.timers@[timer_pos(self@, id)]
    }

    /// The number of timers.
    pub fn len(&self) -> (r: usize)
        ensures
            r == self@.len(),
    {
        self.timers.len()
    }

    /// The timers, in the order they were first added; `timer_ids_in_order`
    /// lists them by id.
    pub fn timers(&self) -> (r: &Vec<LoopTimer>)
        ensures
            timer_views(r@) == self@,
    {
        &self.timers
    }

    /// The ids of the timers, in id order: the order in which the loop
    /// panels list them.
    pub fn timer_ids_in_order(&self) -> (r: Vec<String>)
        ensures
            crate::workflow_scheduler::sorted_strings(views(r@)),
            views(r@).to_multiset() == self@.map_values(|t: LoopTimerView| t.id).to_multiset(),
    {
        let mut ids: Vec<String> = Vec::new();
        let mut i: usize = 0;
        proof {
            assert(views(ids@) =~= self@.map_values(|t: LoopTimerView| t.id).take(0));
        }
        while i < self.timers.len()
            invariant
                i <= self.timers@.len(),
                crate::workflow_scheduler::sorted_strings(views(ids@)),
                views(ids@).to_multiset() == self@.map_values(|t: LoopTimerView| t.id).take(i as int).to_multiset(),
            decreases self.timers@.len() - i,
        {
            let id = self.timers[i].id.clone();
            let ghost before = views(ids@);
            let p = crate::workflow_scheduler::sorted_insert_position(&ids, &id);
            ids.insert(p, id);
            proof {
                assert(views(ids@) =~= before.insert(p as int, id@));
                crate::workflow_scheduler::lemma_insert_sorted(before, p as int, id@);
                broadcast use vstd::seq_lib::group_to_multiset_ensures;
                assert(self@[i as int] == self.timers@[i as int]@);
                assert(self@.map_values(|t: LoopTimerView| t.id).take(i + 1)
                    =~= self@.map_values(|t: LoopTimerView| t.id).take(i as int).push(id@));
            }
            i = i + 1;
        }
        proof {
            assert(self@.map_values(|t: LoopTimerView| t.id).take(i as int) =~= self@.map_values(|t: LoopTimerView| t.id));
        }
        ids
    }

    /// The position of the timer with the id `id`, if there is one.
    pub fn position(&self, id: &str) -> (r: Option<usize>)
        requires
            self.wf(),
        ensures
            match r {
                Some(i) => has_timer(self@, id@) && i == timer_pos(self@, id@),
                None => !has_timer(self@, id@),
            },
    {
        let mut i: usize = 0;
        while i < self.timers.len()
            invariant
                self.wf(),
                i <= self@.len(),
                self@ == timer_views(self.timers@),
                forall|j: int| 0 <= j < i ==> #[trigger] self@[j].id != id@,
            decreases self.timers@.len() - i,
        {
            if crate::text::str_eq(self.timers[i].id.as_str(), id) {
                proof {
                    assert(self@[i as int] == self.timers@[i as int]@);
                    lemma_timer_pos(self@, i as int);
                }
                return Some(i);
            }
            proof {
                assert(self@[i as int] == self.timers@[i as int]@);
            }
            i = i + 1;
        }
        proof {
            if has_timer(self@, id@) {
                let k = choose|k: int| 0 <= k < self@.len() && #[trigger] self@[k].id == id@;
                assert(self@[k].id != id@);
            }
        }
        None
    }

    /// The timer with the id `id`, if there is one.
    pub fn get(&self, id: &str) -> (r: Option<&LoopTimer>)
        requires
            self.wf(),
        ensures
            match r {
                Some(t) => has_timer(self@, id@) && t@ == timer_at(self@, id@) && *t == self.stored(id@),
                None => !has_timer(self@, id@),
            },
    {
        match self.position(id) {
            Some(i) => {
                proof {
                    assert(self@[i as int] == self.timers@[i as int]@);
                }
                Some(&self.timers[i])
            },
            None => None,
        }
    }

    /// Takes out the timer at `i`, for `restore` to put back once edited.
    pub fn take(&mut self, i: usize) -> (t: LoopTimer)
        requires
            old(self).wf(),
            i < old(self)@.len(),
        ensures
            final(self).wf(),
            t@ == old(self)@[i as int],
            final(self)@ == old(self)@.remove(i as int),
            !has_timer(final(self)@, t@.id),
    {
        proof {
            lemma_remove_unique(self@, i as int);
            assert(self@[i as int] == self.timers@[i as int]@);
        }
        let t = self.timers.remove(i);
        proof {
            assert(self@ =~= old(self)@.remove(i as int));
        }
        t
    }

    /// Puts `t` at position `i`; no timer there may have its id.
    pub fn restore(&mut self, i: usize, t: LoopTimer)
        requires
            old(self).wf(),
            i <= old(self)@.len(),
            !has_timer(old(self)@, t@.id),
        ensures
            final(self).wf(),
            final(self)@ == old(self)@.insert(i as int, t@),
    {
        proof {
            lemma_insert_unique(self@, i as int, t@);
        }
        let ghost tv = t@;
        self.timers.insert(i, t);
        proof {
            assert(self@ =~= old(self)@.insert(i as int, tv));
        }
    }

    /// Adds `t`, or puts it in the place of the timer with its id.
    pub fn insert(&mut self, t: LoopTimer)
        requires
            old(self).wf(),
        ensures
            final(self).wf(),
            final(self)@ == put_timer(old(self)@, t@),
    {
        match self.position(t.id.as_str()) {
            Some(i) => {
                let _old = self.take(i);
                self.restore(i, t);
                proof {
                    assert(final(self)@ =~= old(self)@.update(i as int, t@));
                }
            },
            None => {
                let n = self.timers.len();
                proof {
                    assert(n == self@.len());
                }
                self.restore(n, t);
                proof {
                    assert(final(self)@ =~= old(self)@.push(t@));
                }
            },
        }
    }

    /// Removes the timer with the id `id`, and returns it.
    pub fn remove(&mut self, id: &str) -> (r: Option<LoopTimer>)
        requires
            old(self).wf(),
        ensures
            final(self).wf(),
            match r {
                Some(t) => has_timer(old(self)@, id@) && t@ == timer_at(old(self)@, id@)
                    && final(self)@ == old(self)@.remove(timer_pos(old(self)@, id@)),
                None => !has_timer(old(self)@, id@) && final(self)@ == old(self)@,
            },
    {
        match self.position(id) {
            Some(i) => Some(self.take(i)),
            None => None,
        }
    }
}

/// The delay of the first enabled idle trigger among `bs`.
pub open spec fn first_idle_after(bs: Seq<LoopTriggerBindingView>) -> Option<LoopScheduleView>
    decreases bs.len(),
{
    if bs.len() == 0 {
        None
    } else {
        match bs[0].kind {
            LoopTriggerKindView::Idle { after } => if bs[0].enabled {
                Some(after)
            } else {
                first_idle_after(bs.drop_first())
            },
            _ => first_idle_after(bs.drop_first()),
        }
    }
}

/// The first enabled idle trigger among `bs` is at `i`, or there is none
/// and `i` is the end.
pub proof fn lemma_first_idle_after(bs: Seq<LoopTriggerBindingView>, i: int)
    requires
        0 <= i <= bs.len(),
        forall|j: int| 0 <= j < i ==> !(#[trigger] bs[j].kind is Idle && bs[j].enabled),
    ensures
        first_idle_after(bs) == first_idle_after(bs.subrange(i, bs.len() as int)),
    decreases i,
{
    if i > 0 {
        assert(!(bs[0].kind is Idle && bs[0].enabled));
        let rest = bs.drop_first();
        assert forall|j: int| 0 <= j < i - 1 implies !(#[trigger] rest[j].kind is Idle && rest[j].enabled) by {
            assert(rest[j] == bs[j + 1]);
        }
        lemma_first_idle_after(rest, i - 1);
        assert(rest.subrange(i - 1, rest.len() as int) =~= bs.subrange(i, bs.len() as int));
    } else {
        assert(bs.subrange(0, bs.len() as int) =~= bs);
    }
}

/// The position of the first binding with the id `id` among `bs`, or -1.
pub open spec fn binding_pos(bs: Seq<LoopTriggerBindingView>, id: Seq<char>) -> int
    decreases bs.len(),
{
    if bs.len() == 0 {
        -1
    } else if bs[0].id == id {
        0
    } else {
        let p = binding_pos(bs.drop_first(), id);
        if p < 0 {
            -1
        } else {
            p + 1
        }
    }
}

/// No binding before `i` has the id `id`: the first one with it is at `i`
/// when `bs[i]` has it, and there is none when `i` is the end.
pub proof fn lemma_binding_pos(bs: Seq<LoopTriggerBindingView>, id: Seq<char>, i: int)
    requires
        0 <= i <= bs.len(),
        forall|j: int| 0 <= j < i ==> #[trigger] bs[j].id != id,
        i < bs.len() ==> bs[i].id == id,
    ensures
        binding_pos(bs, id) == (if i < bs.len() {
            i
        } else {
            -1
        }),
    decreases i,
{
    if i > 0 {
        assert(bs[0].id != id);
        let rest = bs.drop_first();
        assert forall|j: int| 0 <= j < i - 1 implies #[trigger] rest[j].id != id by {
            assert(rest[j] == bs[j + 1]);
        }
        if i < bs.len() {
            assert(rest[i - 1] == bs[i]);
        }
        lemma_binding_pos(rest, id, i - 1);
    } else if bs.len() == 0 {
    }
}

/// The first binding with the id `id` lies within `bs` and has that id,
/// where there is one.
pub proof fn lemma_binding_pos_in_range(bs: Seq<LoopTriggerBindingView>, id: Seq<char>)
    ensures
        -1 <= binding_pos(bs, id) < bs.len(),
        binding_pos(bs, id) >= 0 ==> bs[binding_pos(bs, id)].id == id,
    decreases bs.len(),
{
    if bs.len() > 0 && bs[0].id != id {
        lemma_binding_pos_in_range(bs.drop_first(), id);
        let p = binding_pos(bs.drop_first(), id);
        if p >= 0 {
            assert(bs.drop_first()[p] == bs[p + 1]);
        }
    }
}

/// `bs` without the bindings that have the id `id`, in order.
pub open spec fn without_binding(bs: Seq<LoopTriggerBindingView>, id: Seq<char>) -> Seq<LoopTriggerBindingView>
    decreases bs.len(),
{
    if bs.len() == 0 {
        bs
    } else {
        let rest = without_binding(bs.drop_last(), id);
        if bs.last().id != id {
            rest.push(bs.last())
        } else {
            rest
        }
    }
}

impl LoopTimer {
    /// The delay of its first enabled idle trigger.
    pub fn effective_idle_after(&self) -> (r: Option<LoopSchedule>)
        ensures
            match r {
                Some(s) => first_idle_after(self@.trigger_bindings) == Some(s@),
                None => first_idle_after(self@.trigger_bindings) is None,
            },
    {
        let ghost bs = self@.trigger_bindings;
        let mut i: usize = 0;
        while i < self.trigger_bindings.len()
            invariant
                bs == binding_views(self.trigger_bindings@),
                i <= bs.len(),
                forall|j: int| 0 <= j < i ==> !(#[trigger] bs[j].kind is Idle && bs[j].enabled),
            decreases bs.len() - i,
        {
            let b = &self.trigger_bindings[i];
            proof {
                assert(bs[i as int] == b@);
            }
            if b.enabled {
                match &b.kind {
                    LoopTriggerKind::Idle { after } => {
                        proof {
                            lemma_first_idle_after(bs, i as int);
                            assert(bs.subrange(i as int, bs.len() as int)[0] == bs[i as int]);
                        }
                        return Some(after.duplicate());
                    },
                    _ => {},
                }
            }
            i = i + 1;
        }
        proof {
            lemma_first_idle_after(bs, i as int);
        }
        None
    }
}

/// The timer's primary scheduled trigger: `timer_schedule`, the schedule
/// of its timer triggers, else the delay of its first enabled idle trigger.
pub open spec fn primary_scheduled_trigger_spec(t: LoopTimerView, timer_schedule: Option<LoopScheduleView>) -> Option<LoopScheduleView> {
    match timer_schedule {
        Some(s) => Some(s),
        None => first_idle_after(t.trigger_bindings),
    }
}

/// The primary scheduled trigger of `timer`, given `timer_schedule`, the
/// schedule of its timer triggers.
pub fn primary_scheduled_trigger(timer: &LoopTimer, timer_schedule: Option<LoopSchedule>) -> (r: Option<LoopSchedule>)
    ensures
        match r {
            Some(s) => primary_scheduled_trigger_spec(timer@, match timer_schedule {
                Some(x) => Some(x@),
                None => None,
            }) == Some(s@),
            None => primary_scheduled_trigger_spec(timer@, match timer_schedule {
                Some(x) => Some(x@),
                None => None,
            }) is None,
        },
{
    match timer_schedule {
        Some(s) => Some(s),
        None => timer.effective_idle_after(),
    }
}

} // verus!
