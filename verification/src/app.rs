//! The application state that the workflow decisions read and change: the
//! main thread, the workflow runs in flight or queued, and the loop timers;
//! and what starting and finishing a workflow run does to it.
use vstd::prelude::*;
use vstd::string::*;
use crate::history::{HistoryNotice, NoticeView, is_info, is_error};
use crate::text::{opt_view, concat2, concat3, trim_seq, trim_str, str_eq, decimal_seq};
use crate::workflow_definition::{LoadedWorkflowRegistry, LoadedWorkflowFile, LoadedWorkflowTrigger, WorkflowTriggerKind};
use crate::workflow_history::{WorkflowReplySource, reply_hint_spec, workflow_info_cell};
use crate::workflow_runtime::{
    BackgroundWorkflowRunOutcome, BackgroundWorkflowRunTarget, OwnedWorkflowPhaseContext, WorkflowJobRunResult,
    WorkflowOutputDelivery, WorkflowPhaseContext, WorkflowTriggerOverlapBehavior, opt_str_view, workflow_job_source,
};
use crate::workflow_definition::{WorkflowExecutionStrategy, find_job, has_job, jobs_unique, nodes};
use crate::workflow_runtime::{
    WorkflowDisabledJobBehavior, WorkflowRunError, job_named, lemma_job_named_at, manual_workflow_job_trigger_id,
};
use crate::loop_book::duplicate_strings;
use crate::text::{copy_opt_string, views};
use crate::workflow_scheduler::{QueuedWorkflowTriggerRun, WorkflowSchedulerState};
use crate::loop_timers::{IdleDueTimes, LoopTimersState, TaskKeys};
use crate::loop_book::LoopTimerBook;
use crate::after_turn::AfterTurnSchedulerState;

verus! {

/// The application state the workflow decisions work on.
pub struct App {
    pub primary_thread_id: Option<String>,
    pub workflow_scheduler: WorkflowSchedulerState,
    pub loop_timers: LoopTimersState,
}

/// What became of a request to run a trigger.
#[derive(Debug, PartialEq, Eq)]
pub enum TriggerRunDispatch {
    /// It started, as the run with this id.
    Started(String),
    Queued,
    Skipped,
}

/// The history entry a workflow start shows, and the run it started, if any.
#[derive(Debug, PartialEq, Eq)]
pub struct WorkflowStartOutcome {
    pub notice: HistoryNotice,
    pub started_run: Option<String>,
}

/// What a workflow reply does to the main thread.
#[derive(Debug, PartialEq, Eq)]
pub enum WorkflowFollowup {
    /// There is no main thread: the error to show.
    MissingPrimaryThread { error: String },
    /// The reply is blank: nothing happens.
    Empty,
    /// The reply is sent to the main thread as a user turn, after the
    /// history entry that marks it.
    /// The entry goes into the main thread's history, and is shown at once
    /// where `shown`: where the main thread is the active one.
    Submit { thread_id: String, text: String, notice: HistoryNotice, shown: bool },
}

/// The scheduler is unchanged.
pub open spec fn same_scheduler(s0: WorkflowSchedulerState, s1: WorkflowSchedulerState) -> bool {
    &&& s1.ids() == s0.ids()
    &&& s1.targets() == s0.targets()
    &&& s1.queue() == s0.queue()
    &&& s1.run_counter() == s0.run_counter()
}

/// The run counter after one more run id.
pub open spec fn next_counter(c: u64) -> u64 {
    if c == u64::MAX {
        u64::MAX
    } else {
        (c + 1) as u64
    }
}

/// `s1` is `s0` with `target` started as run `id`: a fresh id, the run in
/// flight, the queue as it was.
pub open spec fn started_run(s0: WorkflowSchedulerState, s1: WorkflowSchedulerState, id: Seq<char>, target: BackgroundWorkflowRunTarget) -> bool {
    &&& s1.run_counter() == next_counter(s0.run_counter())
    &&& id == target.workflow_name_spec() + "/"@ + target.slot_key_spec() + "#"@ + decimal_seq(s1.run_counter() as nat)
    &&& s1.running() == s0.running().insert(id, target)
    &&& s1.queue() == s0.queue()
}

/// The effect of asking to run a trigger: a `Skip` request is dropped while
/// a run of the same trigger is in flight or queued; otherwise the run is
/// queued while any trigger run is in flight, and started if none is.
pub open spec fn dispatch_post(
    s0: WorkflowSchedulerState,
    s1: WorkflowSchedulerState,
    workflow_name: String,
    trigger_id: String,
    phase_context: OwnedWorkflowPhaseContext,
    overlap_behavior: WorkflowTriggerOverlapBehavior,
    r: TriggerRunDispatch,
) -> bool {
    let skip = overlap_behavior == WorkflowTriggerOverlapBehavior::Skip && (s0.trigger_active(
        workflow_name@,
        trigger_id@,
    ) || s0.trigger_queued(workflow_name@, trigger_id@));
    if skip {
        r is Skipped && same_scheduler(s0, s1)
    } else if s0.running_trigger() {
        &&& r is Queued
        &&& s1.queue() == s0.queue().push(QueuedWorkflowTriggerRun { workflow_name, trigger_id, phase_context })
        &&& s1.ids() == s0.ids()
        &&& s1.targets() == s0.targets()
        &&& s1.run_counter() == s0.run_counter()
    } else {
        r matches TriggerRunDispatch::Started(id) && started_run(
            s0,
            s1,
            id@,
            BackgroundWorkflowRunTarget::Trigger { workflow_name, trigger_id, phase_context, overlap_behavior },
        )
    }
}

/// The history line of a trigger request's outcome.
pub open spec fn dispatch_message(r: TriggerRunDispatch) -> Seq<char> {
    match r {
        TriggerRunDispatch::Started(_) => "Workflow trigger started"@,
        TriggerRunDispatch::Queued => "Workflow trigger queued"@,
        TriggerRunDispatch::Skipped => "Workflow trigger skipped"@,
    }
}

/// The run a dispatch started, if any.
pub open spec fn dispatch_run(r: TriggerRunDispatch) -> Option<Seq<char>> {
    match r {
        TriggerRunDispatch::Started(id) => Some(id@),
        _ => None,
    }
}

/// The first workflow file named `name`.
pub open spec fn first_file_index(files: Seq<LoadedWorkflowFile>, name: Seq<char>) -> int {
    choose|i: int| 0 <= i < files.len() && #[trigger] files[i].name@ == name && forall|j: int| 0 <= j < i ==> files[j].name@ != name
}

/// The first trigger with id `id`.
pub open spec fn first_trigger_index(triggers: Seq<LoadedWorkflowTrigger>, id: Seq<char>) -> int {
    choose|i: int| 0 <= i < triggers.len() && #[trigger] triggers[i].id@ == id && forall|j: int| 0 <= j < i ==> triggers[j].id@ != id
}

/// Some workflow file is named `name`.
pub open spec fn has_file(files: Seq<LoadedWorkflowFile>, name: Seq<char>) -> bool {
    exists|i: int| 0 <= i < files.len() && #[trigger] files[i].name@ == name
}

/// Some trigger has id `id`.
pub open spec fn has_trigger(triggers: Seq<LoadedWorkflowTrigger>, id: Seq<char>) -> bool {
    exists|i: int| 0 <= i < triggers.len() && #[trigger] triggers[i].id@ == id
}

/// Why a manual trigger request fails before it reaches the scheduler, if it does.
pub open spec fn manual_trigger_failure(
    registry: Result<LoadedWorkflowRegistry, String>,
    workflow_name: Seq<char>,
    trigger_id: Seq<char>,
) -> Option<Seq<char>> {
    match registry {
        Err(e) => Some("Workflow trigger failed: failed to load workflows: "@ + e@),
        Ok(reg) => if !has_file(reg.files@, workflow_name) {
            Some("Workflow trigger failed: workflow `"@ + workflow_name + "` does not exist"@)
        } else {
            let f = reg.files@[first_file_index(reg.files@, workflow_name)];
            if !has_trigger(f.triggers@, trigger_id) {
                Some("Workflow trigger failed: trigger `"@ + workflow_name + "/"@ + trigger_id + "` does not exist"@)
            } else if !f.triggers@[first_trigger_index(f.triggers@, trigger_id)].enabled {
                Some("Workflow trigger failed: workflow trigger `"@ + workflow_name + "/"@ + trigger_id + "` is disabled"@)
            } else {
                None
            }
        },
    }
}

/// The index of the first file named `name`.
fn find_file(files: &Vec<LoadedWorkflowFile>, name: &str) -> (r: Option<usize>)
    ensures
        match r {
            Some(i) => has_file(files@, name@) && i == first_file_index(files@, name@) && i < files@.len(),
            None => !has_file(files@, name@),
        },
{
    let mut i: usize = 0;
    while i < files.len()
        invariant
            i <= files@.len(),
            forall|j: int| 0 <= j < i ==> files@[j].name@ != name@,
        decreases files@.len() - i,
    {
        if str_eq(files[i].name.as_str(), name) {
            proof {
                assert(files@[i as int].name@ == name@);
                assert(exists|k: int| 0 <= k < files@.len() && #[trigger] files@[k].name@ == name@
                    && forall|j: int| 0 <= j < k ==> files@[j].name@ != name@);
                let c = first_file_index(files@, name@);
                if c < i {
                    assert(files@[c].name@ != name@);
                } else if c > i {
                    assert(files@[i as int].name@ != name@);
                }
            }
            return Some(i);
        }
        i = i + 1;
    }
    None
}

/// The index of the first trigger with id `id`.
fn find_trigger(triggers: &Vec<LoadedWorkflowTrigger>, id: &str) -> (r: Option<usize>)
    ensures
        match r {
            Some(i) => has_trigger(triggers@, id@) && i == first_trigger_index(triggers@, id@) && i < triggers@.len(),
            None => !has_trigger(triggers@, id@),
        },
{
    let mut i: usize = 0;
    while i < triggers.len()
        invariant
            i <= triggers@.len(),
            forall|j: int| 0 <= j < i ==> triggers@[j].id@ != id@,
        decreases triggers@.len() - i,
    {
        if str_eq(triggers[i].id.as_str(), id) {
            proof {
                assert(triggers@[i as int].id@ == id@);
                assert(exists|k: int| 0 <= k < triggers@.len() && #[trigger] triggers@[k].id@ == id@
                    && forall|j: int| 0 <= j < k ==> triggers@[j].id@ != id@);
                let c = first_trigger_index(triggers@, id@);
                if c < i {
                    assert(triggers@[c].id@ != id@);
                } else if c > i {
                    assert(triggers@[i as int].id@ != id@);
                }
            }
            return Some(i);
        }
        i = i + 1;
    }
    None
}

impl App {
    /// The state's invariant: the workflow scheduler's and the loop tasks'.
    pub open spec fn wf(&self) -> bool {
        self.workflow_scheduler.wf() && self.loop_timers.wf()
    }

    /// A state with the given main thread and no workflow runs.
    pub fn new(primary_thread_id: Option<String>) -> (r: Self)
        ensures
            r.wf(),
            r.primary_thread_id == primary_thread_id,
            r.workflow_scheduler.ids().len() == 0,
            r.workflow_scheduler.queue().len() == 0,
            r.workflow_scheduler.run_counter() == 0,
            r.loop_timers.scheduler_tasks.keys().is_empty(),
            r.loop_timers.idle_scheduler_tasks.keys().is_empty(),
            r.loop_timers.idle_due_at.keys().is_empty(),
            r.loop_timers.after_turn_scheduler@.is_idle(),
            r.loop_timers.timers@.len() == 0,
            r.loop_timers.active_runs.keys().is_empty(),
    {
        App {
            primary_thread_id,
            workflow_scheduler: WorkflowSchedulerState::new(),
            loop_timers: LoopTimersState {
                scheduler_tasks: TaskKeys::new(),
                idle_scheduler_tasks: TaskKeys::new(),
                idle_due_at: IdleDueTimes::new(),
                after_turn_scheduler: AfterTurnSchedulerState::new(),
                timers: LoopTimerBook::new(),
                active_runs: TaskKeys::new(),
            },
        }
    }

    /// Starts a background run of `target` under a fresh run id, which it
    /// returns; the caller runs it.
    pub fn start_background_workflow_run(&mut self, target: BackgroundWorkflowRunTarget) -> (r: String)
        requires
            old(self).wf(),
        ensures
            final(self).wf(),
            final(self).primary_thread_id == old(self).primary_thread_id,
            started_run(old(self).workflow_scheduler, final(self).workflow_scheduler, r@, target),
            final(self).loop_timers == old(self).loop_timers,
    {
        let run_id = self.workflow_scheduler.next_background_run_id(target.workflow_name(), target.slot_key());
        self.workflow_scheduler.register_background_workflow_run(run_id.clone(), target);
        run_id
    }

    /// Runs a trigger now, queues it behind a trigger run in flight, or, for
    /// a request that skips overlaps, drops it while the same trigger is in
    /// flight or queued.
    pub fn queue_or_start_trigger_run(
        &mut self,
        workflow_name: String,
        trigger_id: String,
        phase_context: OwnedWorkflowPhaseContext,
        overlap_behavior: WorkflowTriggerOverlapBehavior,
    ) -> (r: TriggerRunDispatch)
        requires
            old(self).wf(),
        ensures
            final(self).wf(),
            final(self).primary_thread_id == old(self).primary_thread_id,
            dispatch_post(
                old(self).workflow_scheduler,
                final(self).workflow_scheduler,
                workflow_name,
                trigger_id,
                phase_context,
                overlap_behavior,
                r,
            ),
    {
        let skip_overlap = match overlap_behavior {
            WorkflowTriggerOverlapBehavior::Skip => true,
            WorkflowTriggerOverlapBehavior::Queue => false,
        };
        if skip_overlap && (self.workflow_scheduler.has_active_trigger_run(workflow_name.as_str(), trigger_id.as_str())
            || self.workflow_scheduler.has_queued_trigger_run(workflow_name.as_str(), trigger_id.as_str())) {
            return TriggerRunDispatch::Skipped;
        }
        if self.workflow_scheduler.has_running_trigger_run() {
            self.workflow_scheduler.enqueue_trigger_run(workflow_name, trigger_id, phase_context);
            return TriggerRunDispatch::Queued;
        }
        let run_id = self.start_background_workflow_run(
            BackgroundWorkflowRunTarget::Trigger { workflow_name, trigger_id, phase_context, overlap_behavior },
        );
        TriggerRunDispatch::Started(run_id)
    }

    /// Starts the trigger run queued first, unless a trigger run is in
    /// flight; returns the id of the run it started.
    pub fn dispatch_next_queued_trigger_run(&mut self) -> (r: Option<String>)
        requires
            old(self).wf(),
        ensures
            final(self).wf(),
            final(self).primary_thread_id == old(self).primary_thread_id,
            final(self).loop_timers == old(self).loop_timers,
            ({
                let s0 = old(self).workflow_scheduler;
                let s1 = final(self).workflow_scheduler;
                if s0.running_trigger() || s0.queue().len() == 0 {
                    r is None && same_scheduler(s0, s1)
                } else {
                    let q = s0.queue()[0];
                    &&& r is Some
                    &&& s1.run_counter() == next_counter(s0.run_counter())
                    &&& r->0@ == q.workflow_name@ + "/"@ + q.trigger_id@ + "#"@ + decimal_seq(s1.run_counter() as nat)
                    &&& s1.running() == s0.running().insert(r->0@, BackgroundWorkflowRunTarget::Trigger {
                        workflow_name: q.workflow_name,
                        trigger_id: q.trigger_id,
                        phase_context: q.phase_context,
                        overlap_behavior: WorkflowTriggerOverlapBehavior::Queue,
                    })
                    &&& s1.queue() == s0.queue().drop_first()
                }
            }),
    {
        if self.workflow_scheduler.has_running_trigger_run() {
            return None;
        }
        match self.workflow_scheduler.dequeue_trigger_run() {
            None => None,
            Some(next) => {
                let QueuedWorkflowTriggerRun { workflow_name, trigger_id, phase_context } = next;
                let run_id = self.start_background_workflow_run(BackgroundWorkflowRunTarget::Trigger {
                    workflow_name,
                    trigger_id,
                    phase_context,
                    overlap_behavior: WorkflowTriggerOverlapBehavior::Queue,
                });
                Some(run_id)
            },
        }
    }

    /// Handles a request from the workflow menu to run a trigger now: it
    /// fails on a registry that did not load, an unknown workflow or
    /// trigger, or a disabled trigger; otherwise the trigger is queued or
    /// started as `queue_or_start_trigger_run` decides.
    pub fn start_manual_workflow_trigger_run(
        &mut self,
        registry: &Result<LoadedWorkflowRegistry, String>,
        workflow_name: String,
        trigger_id: String,
    ) -> (r: WorkflowStartOutcome)
        requires
            old(self).wf(),
        ensures
            final(self).wf(),
            final(self).primary_thread_id == old(self).primary_thread_id,
            match manual_trigger_failure(*registry, workflow_name@, trigger_id@) {
                Some(m) => is_error(r.notice, m)
                    && r.started_run is None && same_scheduler(old(self).workflow_scheduler, final(self).workflow_scheduler),
                None => exists|d: TriggerRunDispatch| {
                    &&& dispatch_post(
                        old(self).workflow_scheduler,
                        final(self).workflow_scheduler,
                        workflow_name,
                        trigger_id,
                        OwnedWorkflowPhaseContext { current_user_turn: None, last_assistant_message: None },
                        WorkflowTriggerOverlapBehavior::Queue,
                        d,
                    )
                    &&& is_info(r.notice, dispatch_message(d), Some(workflow_name@ + " · "@ + trigger_id@))
                    &&& opt_view(r.started_run) == dispatch_run(d)
                },
            },
    {
        let reg = match registry {
            Err(e) => {
                let message = concat2("Workflow trigger failed: failed to load workflows: ", e.as_str());
                return WorkflowStartOutcome { notice: HistoryNotice::Error { message }, started_run: None };
            },
            Ok(reg) => reg,
        };
        let fi = match find_file(&reg.files, workflow_name.as_str()) {
            Some(fi) => fi,
            None => {
                let message = concat3("Workflow trigger failed: workflow `", workflow_name.as_str(), "` does not exist");
                return WorkflowStartOutcome { notice: HistoryNotice::Error { message }, started_run: None };
            },
        };
        let file = &reg.files[fi];
        let ti = match find_trigger(&file.triggers, trigger_id.as_str()) {
            Some(ti) => ti,
            None => {
                let mut message = concat3("Workflow trigger failed: trigger `", workflow_name.as_str(), "/");
                message.append(trigger_id.as_str());
                message.append("` does not exist");
                return WorkflowStartOutcome { notice: HistoryNotice::Error { message }, started_run: None };
            },
        };
        if !file.triggers[ti].enabled {
            let mut message = concat3("Workflow trigger failed: workflow trigger `", workflow_name.as_str(), "/");
            message.append(trigger_id.as_str());
            message.append("` is disabled");
            return WorkflowStartOutcome { notice: HistoryNotice::Error { message }, started_run: None };
        }
        let label = concat3(workflow_name.as_str(), " · ", trigger_id.as_str());
        let d = self.queue_or_start_trigger_run(
            workflow_name,
            trigger_id,
            OwnedWorkflowPhaseContext { current_user_turn: None, last_assistant_message: None },
            WorkflowTriggerOverlapBehavior::Queue,
        );
        dispatch_outcome(d, label)
    }

    /// Handles a request to run one job now: it starts at once.
    pub fn start_manual_workflow_job_run(&mut self, workflow_name: String, job_name: String) -> (r: WorkflowStartOutcome)
        requires
            old(self).wf(),
        ensures
            final(self).wf(),
            final(self).primary_thread_id == old(self).primary_thread_id,
            r.started_run is Some,
            started_run(
                old(self).workflow_scheduler,
                final(self).workflow_scheduler,
                r.started_run->0@,
                BackgroundWorkflowRunTarget::Job { workflow_name, job_name },
            ),
            is_info(r.notice, "Workflow job started"@, Some(workflow_name@ + " · "@ + job_name@)),
    {
        let label = concat3(workflow_name.as_str(), " · ", job_name.as_str());
        let run_id = self.start_background_workflow_run(BackgroundWorkflowRunTarget::Job { workflow_name, job_name });
        WorkflowStartOutcome {
            notice: HistoryNotice::Info { message: String::from_str("Workflow job started"), hint: Some(label) },
            started_run: Some(run_id),
        }
    }

    /// Handles a scheduled trigger: it is queued or started with the phase's
    /// context, as `queue_or_start_trigger_run` decides.
    pub fn start_scheduled_workflow_trigger_run(
        &mut self,
        workflow_name: String,
        trigger_id: String,
        phase_context: WorkflowPhaseContext<'_>,
    ) -> (r: WorkflowStartOutcome)
        requires
            old(self).wf(),
        ensures
            final(self).wf(),
            final(self).primary_thread_id == old(self).primary_thread_id,
            exists|d: TriggerRunDispatch, ctx: OwnedWorkflowPhaseContext| {
                &&& opt_view(ctx.current_user_turn) == opt_str_view(phase_context.current_user_turn)
                &&& opt_view(ctx.last_assistant_message) == opt_str_view(phase_context.last_assistant_message)
                &&& dispatch_post(
                    old(self).workflow_scheduler,
                    final(self).workflow_scheduler,
                    workflow_name,
                    trigger_id,
                    ctx,
                    WorkflowTriggerOverlapBehavior::Queue,
                    d,
                )
                &&& is_info(r.notice, dispatch_message(d), Some(workflow_name@ + " · "@ + trigger_id@))
                &&& opt_view(r.started_run) == dispatch_run(d)
            },
    {
        let label = concat3(workflow_name.as_str(), " · ", trigger_id.as_str());
        let ctx = OwnedWorkflowPhaseContext::from(phase_context);
        let ghost g = ctx;
        let d = self.queue_or_start_trigger_run(workflow_name, trigger_id, ctx, WorkflowTriggerOverlapBehavior::Queue);
        let ghost gd = d;
        let r = dispatch_outcome(d, label);
        assert(dispatch_post(
            old(self).workflow_scheduler,
            self.workflow_scheduler,
            workflow_name,
            trigger_id,
            g,
            WorkflowTriggerOverlapBehavior::Queue,
            gd,
        ));
        r
    }

    /// Handles a file-watch trigger: like a scheduled one, with an empty
    /// context, except that it is dropped while the same trigger is in
    /// flight or queued, and then shows nothing.
    pub fn start_file_watch_workflow_trigger_run(&mut self, workflow_name: String, trigger_id: String) -> (r: Option<
        WorkflowStartOutcome,
    >)
        requires
            old(self).wf(),
        ensures
            final(self).wf(),
            final(self).primary_thread_id == old(self).primary_thread_id,
            exists|d: TriggerRunDispatch| {
                &&& dispatch_post(
                    old(self).workflow_scheduler,
                    final(self).workflow_scheduler,
                    workflow_name,
                    trigger_id,
                    OwnedWorkflowPhaseContext { current_user_turn: None, last_assistant_message: None },
                    WorkflowTriggerOverlapBehavior::Skip,
                    d,
                )
                &&& match r {
                    None => d is Skipped,
                    Some(o) => !(d is Skipped) && is_info(o.notice, dispatch_message(d), Some(workflow_name@ + " · "@ + trigger_id@))
                        && opt_view(o.started_run) == dispatch_run(d),
                }
            },
    {
        let label = concat3(workflow_name.as_str(), " · ", trigger_id.as_str());
        let d = self.queue_or_start_trigger_run(
            workflow_name,
            trigger_id,
            OwnedWorkflowPhaseContext { current_user_turn: None, last_assistant_message: None },
            WorkflowTriggerOverlapBehavior::Skip,
        );
        let skipped = match d {
            TriggerRunDispatch::Skipped => true,
            _ => false,
        };
        if skipped {
            None
        } else {
            Some(dispatch_outcome(d, label))
        }
    }

    /// What a workflow reply does to the main thread: an error when there is
    /// none, nothing when the reply is blank, otherwise the trimmed reply is
    /// sent after the entry that marks it, which goes into the main thread's
    /// history and is shown at once only while the main thread is the
    /// active one, `active_thread_id`.
    pub fn queue_workflow_followup_to_primary(&self, text: &str, source: &WorkflowReplySource, active_thread_id: Option<&str>)
        -> (r: WorkflowFollowup)
        ensures
            match self.primary_thread_id {
                None => r matches WorkflowFollowup::MissingPrimaryThread { error }
                    && error@ == "Failed to find the main thread for background follow-up."@,
                Some(t) => if trim_seq(text@).len() == 0 {
                    r is Empty
                } else {
                    r matches WorkflowFollowup::Submit { thread_id, text: sent, notice, shown }
                        && thread_id@ == t@ && sent@ == trim_seq(text@)
                        && is_info(notice, "Workflow reply"@, Some(reply_hint_spec(source.workflow_id@, opt_view(source.action))))
                        && shown == (active_thread_id matches Some(a) && a@ == t@)
                },
            },
    {
        match &self.primary_thread_id {
            None => WorkflowFollowup::MissingPrimaryThread {
                error: String::from_str("Failed to find the main thread for background follow-up."),
            },
            Some(t) => {
                let trimmed = trim_str(text);
                if trimmed.unicode_len() == 0 {
                    WorkflowFollowup::Empty
                } else {
                    let shown = match active_thread_id {
                        Some(a) => crate::text::str_eq(a, t.as_str()),
                        None => false,
                    };
                    WorkflowFollowup::Submit {
                        thread_id: t.clone(),
                        text: String::from_str(trimmed),
                        notice: workflow_info_cell(source),
                        shown,
                    }
                }
            },
        }
    }
}

/// What a background run executes: the jobs reachable from `root_jobs`, as
/// workflow `workflow_name` under trigger `trigger_id`, with a context, and
/// with or without the disabled roots.
#[derive(Debug, PartialEq, Eq)]
pub struct WorkflowRunSpec {
    pub workflow_name: String,
    pub trigger_id: String,
    pub root_jobs: Vec<String>,
    pub phase_context: OwnedWorkflowPhaseContext,
    pub disabled_job_behavior: WorkflowDisabledJobBehavior,
}

/// `r` is an error that fails a run with `message`.
pub open spec fn fails_with(r: Result<WorkflowRunSpec, WorkflowRunError>, message: Seq<char>) -> bool {
    r matches Err(WorkflowRunError::Failed(m)) && m@ == message
}

/// What a background run of `target` executes in `registry`: a trigger
/// runs its jobs with its context, skipping disabled ones, once the
/// workflow and the trigger are found and the trigger is enabled; a job
/// runs on its own, under the trigger id `job:<name>`, even when
/// disabled, once it is found in its workflow.
pub fn background_workflow_run_spec(
    registry: &LoadedWorkflowRegistry,
    target: &BackgroundWorkflowRunTarget,
) -> (r: Result<WorkflowRunSpec, WorkflowRunError>)
    requires
        jobs_unique(nodes(registry.jobs@)),
    ensures
        match *target {
            BackgroundWorkflowRunTarget::Trigger { workflow_name, trigger_id, phase_context, .. } => {
                if !has_file(registry.files@, workflow_name@) {
                    fails_with(r, "workflow `"@ + workflow_name@ + "` does not exist"@)
                } else {
                    let f = registry.files@[first_file_index(registry.files@, workflow_name@)];
                    if !has_trigger(f.triggers@, trigger_id@) {
                        fails_with(r, "trigger `"@ + trigger_id@ + "` does not exist"@)
                    } else {
                        let t = f.triggers@[first_trigger_index(f.triggers@, trigger_id@)];
                        if !t.enabled {
                            fails_with(r, "workflow trigger `"@ + workflow_name@ + "/"@ + trigger_id@ + "` is disabled"@)
                        } else {
                            r matches Ok(s) && s.workflow_name@ == workflow_name@ && s.trigger_id@ == trigger_id@
                                && views(s.root_jobs@) == views(t.jobs@)
                                && opt_view(s.phase_context.current_user_turn) == opt_view(phase_context.current_user_turn)
                                && opt_view(s.phase_context.last_assistant_message) == opt_view(phase_context.last_assistant_message)
                                && s.disabled_job_behavior == WorkflowDisabledJobBehavior::Skip
                        }
                    }
                }
            },
            BackgroundWorkflowRunTarget::Job { workflow_name, job_name } => {
                if !has_job(nodes(registry.jobs@), job_name@) {
                    fails_with(r, "workflow job `"@ + job_name@ + "` does not exist"@)
                } else if job_named(registry.jobs@, job_name@).workflow_name@ != workflow_name@ {
                    fails_with(r, "workflow `"@ + workflow_name@ + "` does not define job `"@ + job_name@ + "`"@)
                } else {
                    r matches Ok(s) && s.workflow_name@ == workflow_name@ && s.trigger_id@ == "job:"@ + job_name@
                        && views(s.root_jobs@) == seq![job_name@]
                        && s.phase_context.current_user_turn is None && s.phase_context.last_assistant_message is None
                        && s.disabled_job_behavior == WorkflowDisabledJobBehavior::RunRootJobs
                }
            },
        },
{
    match target {
        BackgroundWorkflowRunTarget::Trigger { workflow_name, trigger_id, phase_context, .. } => {
            let fi = match find_file(&registry.files, workflow_name.as_str()) {
                Some(fi) => fi,
                None => {
                    return Err(WorkflowRunError::Failed(concat3("workflow `", workflow_name.as_str(), "` does not exist")));
                },
            };
            let file = &registry.files[fi];
            let ti = match find_trigger(&file.triggers, trigger_id.as_str()) {
                Some(ti) => ti,
                None => {
                    return Err(WorkflowRunError::Failed(concat3("trigger `", trigger_id.as_str(), "` does not exist")));
                },
            };
            let trigger = &file.triggers[ti];
            if !trigger.enabled {
                let mut m = concat3("workflow trigger `", workflow_name.as_str(), "/");
                m.append(trigger_id.as_str());
                m.append("` is disabled");
                return Err(WorkflowRunError::Failed(m));
            }
            Ok(WorkflowRunSpec {
                workflow_name: workflow_name.clone(),
                trigger_id: trigger_id.clone(),
                root_jobs: duplicate_strings(&trigger.jobs),
                phase_context: OwnedWorkflowPhaseContext {
                    current_user_turn: copy_opt_string(&phase_context.current_user_turn),
                    last_assistant_message: copy_opt_string(&phase_context.last_assistant_message),
                },
                disabled_job_behavior: WorkflowDisabledJobBehavior::Skip,
            })
        },
        BackgroundWorkflowRunTarget::Job { workflow_name, job_name } => {
            let idx = match find_job(&registry.jobs, job_name) {
                Some(i) => i,
                None => {
                    return Err(WorkflowRunError::Failed(concat3("workflow job `", job_name.as_str(), "` does not exist")));
                },
            };
            proof {
                lemma_job_named_at(registry.jobs@, idx as int, job_name@);
            }
            if !str_eq(registry.jobs[idx].workflow_name.as_str(), workflow_name.as_str()) {
                let mut m = concat3("workflow `", workflow_name.as_str(), "` does not define job `");
                m.append(job_name.as_str());
                m.append("`");
                return Err(WorkflowRunError::Failed(m));
            }
            let mut roots: Vec<String> = Vec::new();
            roots.push(job_name.clone());
            proof {
                assert(views(roots@) =~= seq![job_name@]);
            }
            Ok(WorkflowRunSpec {
                workflow_name: workflow_name.clone(),
                trigger_id: manual_workflow_job_trigger_id(job_name.as_str()),
                root_jobs: roots,
                phase_context: OwnedWorkflowPhaseContext { current_user_turn: None, last_assistant_message: None },
                disabled_job_behavior: WorkflowDisabledJobBehavior::RunRootJobs,
            })
        },
    }
}

/// How a background run ended, from what running its jobs returned: a
/// cancellation stops it, another error fails it with its message.
pub fn background_run_outcome(result: Result<Vec<WorkflowJobRunResult>, WorkflowRunError>) -> (r: BackgroundWorkflowRunOutcome)
    ensures
        match result {
            Ok(v) => r == BackgroundWorkflowRunOutcome::Completed(v),
            Err(WorkflowRunError::Cancelled) => r is Cancelled,
            Err(WorkflowRunError::Failed(m)) => r matches BackgroundWorkflowRunOutcome::Failed(x) && x@ == m@,
            Err(WorkflowRunError::TimedOut(m)) => r matches BackgroundWorkflowRunOutcome::Failed(x) && x@ == m@,
        },
{
    match result {
        Ok(v) => BackgroundWorkflowRunOutcome::Completed(v),
        Err(WorkflowRunError::Cancelled) => BackgroundWorkflowRunOutcome::Cancelled,
        Err(e) => BackgroundWorkflowRunOutcome::Failed(crate::workflow_runtime::workflow_run_error_message(e)),
    }
}

/// What a finished background run puts on the main thread, step by step.
#[derive(Debug, PartialEq, Eq)]
pub enum WorkflowResultStep {
    /// A history entry.
    Notice(HistoryNotice),
    /// A job's reply, as an assistant message.
    AssistantReply(String),
    /// A job's reply, for the main thread once it has been compacted.
    CompactFollowup { text: String, source: WorkflowReplySource, execution_strategy: WorkflowExecutionStrategy },
    /// A job's reply, sent to the main thread as a user turn after the
    /// entry that marks it, which goes into the main thread's history (shown
    /// at once where the main thread is the active one).
    SubmitFollowup { thread_id: String, text: String, notice: HistoryNotice },
}

/// A step as its contents read.
pub enum WorkflowResultStepView {
    Notice(NoticeView),
    AssistantReply(Seq<char>),
    CompactFollowup {
        text: Seq<char>,
        source_id: Seq<char>,
        source_action: Option<Seq<char>>,
        execution_strategy: WorkflowExecutionStrategy,
    },
    SubmitFollowup { thread_id: Seq<char>, text: Seq<char>, notice: NoticeView },
}

impl View for WorkflowResultStep {
    type V = WorkflowResultStepView;

    open spec fn view(&self) -> WorkflowResultStepView {
        match self {
            WorkflowResultStep::Notice(n) => WorkflowResultStepView::Notice(n@),
            WorkflowResultStep::AssistantReply(t) => WorkflowResultStepView::AssistantReply(t@),
            WorkflowResultStep::CompactFollowup { text, source, execution_strategy } => WorkflowResultStepView::CompactFollowup {
                text: text@,
                source_id: source.workflow_id@,
                source_action: opt_view(source.action),
                execution_strategy: *execution_strategy,
            },
            WorkflowResultStep::SubmitFollowup { thread_id, text, notice } => WorkflowResultStepView::SubmitFollowup {
                thread_id: thread_id@,
                text: text@,
                notice: notice@,
            },
        }
    }
}

/// The views of `steps`, in order.
pub open spec fn step_views(steps: Seq<WorkflowResultStep>) -> Seq<WorkflowResultStepView> {
    steps.map_values(|s: WorkflowResultStep| s@)
}

/// `workflow/trigger:job` for a job result.
pub open spec fn job_source_spec(r: WorkflowJobRunResult) -> Seq<char> {
    r.workflow_name@ + "/"@ + r.trigger_id@ + ":"@ + r.job_name@
}

/// The steps of one job result: the entry that marks it done, then, for a
/// reply that is not blank, where the reply goes.
pub open spec fn result_step_views(r: WorkflowJobRunResult, completed: Seq<char>, thread_id: Seq<char>) -> Seq<WorkflowResultStepView> {
    let src = job_source_spec(r);
    let done = WorkflowResultStepView::Notice(NoticeView::Info { message: completed, hint: Some(src) });
    match r.message {
        Some(m) => if trim_seq(m@).len() > 0 {
            seq![done, match r.delivery {
                WorkflowOutputDelivery::AssistantCell => WorkflowResultStepView::AssistantReply(m@),
                WorkflowOutputDelivery::MainThreadCompactInput => WorkflowResultStepView::CompactFollowup {
                    text: m@,
                    source_id: src,
                    source_action: None,
                    execution_strategy: r.execution_strategy,
                },
                _ => WorkflowResultStepView::SubmitFollowup {
                    thread_id,
                    text: trim_seq(m@),
                    notice: NoticeView::Info { message: "Workflow reply"@, hint: Some(src) },
                },
            }]
        } else {
            seq![done]
        },
        None => seq![done],
    }
}

/// The steps of the job results `results`, in order.
pub open spec fn results_step_views(results: Seq<WorkflowJobRunResult>, completed: Seq<char>, thread_id: Seq<char>) -> Seq<WorkflowResultStepView>
    decreases results.len(),
{
    if results.len() == 0 {
        Seq::empty()
    } else {
        results_step_views(results.drop_last(), completed, thread_id) + result_step_views(results.last(), completed, thread_id)
    }
}

/// The steps of a finished run of `target` on the main thread `thread_id`.
pub open spec fn run_outcome_step_views(
    outcome: BackgroundWorkflowRunOutcome,
    target: BackgroundWorkflowRunTarget,
    thread_id: Seq<char>,
) -> Seq<WorkflowResultStepView> {
    match outcome {
        BackgroundWorkflowRunOutcome::Completed(results) => results_step_views(
            results@,
            match target {
                BackgroundWorkflowRunTarget::Trigger { .. } => "Workflow trigger completed"@,
                BackgroundWorkflowRunTarget::Job { .. } => "Workflow job completed"@,
            },
            thread_id,
        ),
        BackgroundWorkflowRunOutcome::Cancelled => seq![WorkflowResultStepView::Notice(NoticeView::Info {
            message: match target {
                BackgroundWorkflowRunTarget::Trigger { .. } => "Workflow trigger stopped"@,
                BackgroundWorkflowRunTarget::Job { .. } => "Workflow job stopped"@,
            },
            hint: Some(target.workflow_name_spec() + " · "@ + target.slot_key_spec()),
        })],
        BackgroundWorkflowRunOutcome::Failed(e) => seq![WorkflowResultStepView::Notice(NoticeView::Error {
            message: match target {
                BackgroundWorkflowRunTarget::Trigger { .. } => "Workflow trigger failed"@,
                BackgroundWorkflowRunTarget::Job { .. } => "Workflow job failed"@,
            } + ": "@ + e@,
        })],
    }
}

/// What finishing a background run does.
#[derive(Debug, PartialEq, Eq)]
pub struct WorkflowRunFinish {
    /// What goes on the main thread, in order.
    pub steps: Vec<WorkflowResultStep>,
    /// The queued trigger run started next, when a trigger run finished.
    pub next_trigger_run: Option<String>,
}

impl App {
    /// The steps of one job result on the main thread `thread_id`.
    fn result_steps(&self, r: WorkflowJobRunResult, completed: &str, thread_id: &String, steps: &mut Vec<WorkflowResultStep>)
        requires
            self.primary_thread_id == Some(*thread_id),
        ensures
            step_views(final(steps)@) == step_views(old(steps)@) + result_step_views(r, completed@, thread_id@),
    {
        let ghost rv = r;
        let source_id = workflow_job_source(&r);
        let source = WorkflowReplySource::new(source_id, None);
        let hint = source.hint();
        let ghost before = steps@;
        let done = WorkflowResultStep::Notice(HistoryNotice::Info { message: String::from_str(completed), hint: Some(hint) });
        steps.push(done);
        proof {
            assert(step_views(steps@) =~= step_views(before).push(done@));
        }
        let WorkflowJobRunResult { delivery, execution_strategy, message, .. } = r;
        match message {
            Some(m) => {
                if trim_str(m.as_str()).unicode_len() > 0 {
                    let ghost mid = steps@;
                    let step = match delivery {
                        WorkflowOutputDelivery::AssistantCell => WorkflowResultStep::AssistantReply(m),
                        WorkflowOutputDelivery::MainThreadCompactInput => WorkflowResultStep::CompactFollowup {
                            text: m,
                            source,
                            execution_strategy,
                        },
                        _ => match self.queue_workflow_followup_to_primary(m.as_str(), &source, None) {
                            WorkflowFollowup::Submit { thread_id, text, notice, .. } => WorkflowResultStep::SubmitFollowup {
                                thread_id,
                                text,
                                notice,
                            },
                            _ => {
                                proof {
                                    assert(false);
                                }
                                WorkflowResultStep::AssistantReply(m)
                            },
                        },
                    };
                    steps.push(step);
                    proof {
                        assert(step_views(steps@) =~= step_views(mid).push(step@));
                        assert(step_views(steps@) =~= step_views(before) + result_step_views(rv, completed@, thread_id@));
                    }
                } else {
                    proof {
                        assert(step_views(steps@) =~= step_views(before) + result_step_views(rv, completed@, thread_id@));
                    }
                }
            },
            None => {
                proof {
                    assert(step_views(steps@) =~= step_views(before) + result_step_views(rv, completed@, thread_id@));
                }
            },
        }
    }

    /// A background run finished with `outcome`: it leaves the runs in
    /// flight, the main thread (where there is one) learns how it ended
    /// and receives its jobs' replies, and a finished trigger run lets the
    /// next queued trigger run start. An unknown run id changes nothing.
    pub fn finish_background_workflow_run(&mut self, run_id: &str, outcome: BackgroundWorkflowRunOutcome) -> (r: Option<WorkflowRunFinish>)
        requires
            old(self).wf(),
        ensures
            final(self).wf(),
            final(self).primary_thread_id == old(self).primary_thread_id,
            final(self).loop_timers == old(self).loop_timers,
            ({
                let s0 = old(self).workflow_scheduler;
                let s1 = final(self).workflow_scheduler;
                if !s0.running().dom().contains(run_id@) {
                    r is None && s1.running() == s0.running() && s1.queue() == s0.queue() && s1.run_counter() == s0.run_counter()
                } else {
                    let target = s0.running()[run_id@];
                    &&& r is Some
                    &&& step_views(r->0.steps@) == (match old(self).primary_thread_id {
                        Some(t) => run_outcome_step_views(outcome, target, t@),
                        None => Seq::empty(),
                    })
                    &&& (target is Job ==> r->0.next_trigger_run is None && s1.running() == s0.running().remove(run_id@)
                        && s1.queue() == s0.queue() && s1.run_counter() == s0.run_counter())
                    &&& (target is Trigger ==> {
                        let m = s0.running().remove(run_id@);
                        let running_trigger = exists|k: Seq<char>| #[trigger] m.dom().contains(k) && m[k] is Trigger;
                        if running_trigger || s0.queue().len() == 0 {
                            r->0.next_trigger_run is None && s1.running() == m && s1.queue() == s0.queue()
                                && s1.run_counter() == s0.run_counter()
                        } else {
                            let q = s0.queue()[0];
                            &&& r->0.next_trigger_run is Some
                            &&& s1.run_counter() == next_counter(s0.run_counter())
                            &&& r->0.next_trigger_run->0@ == q.workflow_name@ + "/"@ + q.trigger_id@ + "#"@ + decimal_seq(
                                s1.run_counter() as nat,
                            )
                            &&& s1.running() == m.insert(r->0.next_trigger_run->0@, BackgroundWorkflowRunTarget::Trigger {
                                workflow_name: q.workflow_name,
                                trigger_id: q.trigger_id,
                                phase_context: q.phase_context,
                                overlap_behavior: WorkflowTriggerOverlapBehavior::Queue,
                            })
                            &&& s1.queue() == s0.queue().drop_first()
                        }
                    })
                }
            }),
    {
        let target = match self.workflow_scheduler.take_background_workflow_run(run_id) {
            None => {
                proof {
                    assert(self.workflow_scheduler.running() =~= old(self).workflow_scheduler.running());
                }
                return None;
            },
            Some(t) => t,
        };
        let mut steps: Vec<WorkflowResultStep> = Vec::new();
        let ghost outcome_v = outcome;
        match &self.primary_thread_id {
            None => {},
            Some(t) => {
                let thread_id = t.clone();
                match outcome {
                    BackgroundWorkflowRunOutcome::Completed(results) => {
                        let completed = target.completed_message();
                        let ghost all = results@;
                        let total = results.len();
                        let mut rest = results;
                        let mut i: usize = 0;
                        while rest.len() > 0
                            invariant
                                self.primary_thread_id == Some(thread_id),
                                total == all.len(),
                                rest@ == all.skip(i as int),
                                i <= all.len(),
                                step_views(steps@) == results_step_views(all.take(i as int), completed@, thread_id@),
                            decreases rest@.len(),
                        {
                            let res = rest.remove(0);
                            proof {
                                assert(res == all[i as int]);
                                assert(all.take(i + 1).drop_last() =~= all.take(i as int));
                                assert(all.take(i + 1).last() == res);
                            }
                            self.result_steps(res, completed, &thread_id, &mut steps);
                            proof {
                                assert(rest@ =~= all.skip(i + 1));
                            }
                            i = i + 1;
                        }
                        proof {
                            assert(all.take(i as int) =~= all);
                        }
                    },
                    BackgroundWorkflowRunOutcome::Cancelled => {
                        steps.push(WorkflowResultStep::Notice(HistoryNotice::Info {
                            message: String::from_str(target.stopped_message()),
                            hint: Some(target.label()),
                        }));
                    },
                    BackgroundWorkflowRunOutcome::Failed(e) => {
                        steps.push(WorkflowResultStep::Notice(HistoryNotice::Error {
                            message: concat3(target.failed_message(), ": ", e.as_str()),
                        }));
                    },
                }
            },
        }
        let next_trigger_run = match target {
            BackgroundWorkflowRunTarget::Trigger { .. } => self.dispatch_next_queued_trigger_run(),
            BackgroundWorkflowRunTarget::Job { .. } => None,
        };
        proof {
            if self.primary_thread_id is None {
                assert(step_views(steps@) =~= Seq::<WorkflowResultStepView>::empty());
            } else {
                match outcome_v {
                    BackgroundWorkflowRunOutcome::Completed(_) => {},
                    _ => {
                        assert(step_views(steps@) =~= run_outcome_step_views(outcome_v, target, self.primary_thread_id->0@));
                    },
                }
            }
        }
        Some(WorkflowRunFinish { steps, next_trigger_run })
    }
}

/// The outcome shown for a trigger request.
fn dispatch_outcome(d: TriggerRunDispatch, label: String) -> (r: WorkflowStartOutcome)
    ensures
        is_info(r.notice, dispatch_message(d), Some(label@)),
        opt_view(r.started_run) == dispatch_run(d),
{
    match d {
        TriggerRunDispatch::Started(id) => WorkflowStartOutcome {
            notice: HistoryNotice::Info { message: String::from_str("Workflow trigger started"), hint: Some(label) },
            started_run: Some(id),
        },
        TriggerRunDispatch::Queued => WorkflowStartOutcome {
            notice: HistoryNotice::Info { message: String::from_str("Workflow trigger queued"), hint: Some(label) },
            started_run: None,
        },
        TriggerRunDispatch::Skipped => WorkflowStartOutcome {
            notice: HistoryNotice::Info { message: String::from_str("Workflow trigger skipped"), hint: Some(label) },
            started_run: None,
        },
    }
}


/// The enabled file-watch triggers of `triggers`, as (workflow, trigger id) pairs.
pub open spec fn file_watch_pairs(name: String, triggers: Seq<LoadedWorkflowTrigger>) -> Seq<(String, String)>
    decreases triggers.len(),
{
    if triggers.len() == 0 {
        Seq::empty()
    } else {
        let p = file_watch_pairs(name, triggers.drop_last());
        let t = triggers.last();
        if t.enabled && t.kind is FileWatch {
            p.push((name, t.id))
        } else {
            p
        }
    }
}

/// The enabled file-watch triggers of every workflow file, in order.
pub open spec fn file_watch_triggers(files: Seq<LoadedWorkflowFile>) -> Seq<(String, String)>
    decreases files.len(),
{
    if files.len() == 0 {
        Seq::empty()
    } else {
        file_watch_triggers(files.drop_last()) + file_watch_pairs(files.last().name, files.last().triggers@)
    }
}

/// The entry a file-watch dispatch shows, as (message, hint, started run).
pub open spec fn dispatch_entry(pair: (String, String), d: TriggerRunDispatch) -> (Seq<char>, Seq<char>, Option<Seq<char>>) {
    (dispatch_message(d), pair.0@ + " · "@ + pair.1@, dispatch_run(d))
}

/// The entries of the dispatches that were not skipped, in order.
pub open spec fn visible_entries(pairs: Seq<(String, String)>, ds: Seq<TriggerRunDispatch>) -> Seq<(Seq<char>, Seq<char>, Option<Seq<char>>)>
    decreases pairs.len(),
{
    if pairs.len() == 0 || ds.len() == 0 {
        Seq::empty()
    } else {
        let p = visible_entries(pairs.drop_last(), ds.drop_last());
        if ds.last() is Skipped {
            p
        } else {
            p.push(dispatch_entry(pairs.last(), ds.last()))
        }
    }
}

/// An outcome as (message, hint, started run), for an informational entry.
pub open spec fn outcome_entry(o: WorkflowStartOutcome) -> (Seq<char>, Seq<char>, Option<Seq<char>>) {
    match o.notice {
        HistoryNotice::Info { message, hint } => (message@, match hint {
            Some(h) => h@,
            None => Seq::empty(),
        }, opt_view(o.started_run)),
        HistoryNotice::Error { message } => (message@, Seq::empty(), opt_view(o.started_run)),
    }
}

/// The scheduler went from `states[0]` to the last state through one
/// file-watch dispatch per pair, in order.
pub open spec fn file_watch_steps(
    pairs: Seq<(String, String)>,
    states: Seq<WorkflowSchedulerState>,
    ds: Seq<TriggerRunDispatch>,
) -> bool {
    &&& states.len() == pairs.len() + 1
    &&& ds.len() == pairs.len()
    &&& forall|k: int| 0 <= k < pairs.len() ==> #[trigger] dispatch_post(
        states[k],
        states[k + 1],
        pairs[k].0,
        pairs[k].1,
        OwnedWorkflowPhaseContext { current_user_turn: None, last_assistant_message: None },
        WorkflowTriggerOverlapBehavior::Skip,
        ds[k],
    )
}

impl App {
    /// Handles changed workspace files: with a main thread and at least one
    /// change, every enabled file-watch trigger of the registry is asked to
    /// run, skipping overlaps, in file and trigger order; the entries of
    /// the requests not skipped are returned. A registry that did not load
    /// gives its error.
    pub fn handle_workspace_file_changes_for_workflows(
        &mut self,
        registry: &Result<LoadedWorkflowRegistry, String>,
        changed_path_count: usize,
    ) -> (r: Result<Vec<WorkflowStartOutcome>, String>)
        requires
            old(self).wf(),
        ensures
            final(self).wf(),
            final(self).primary_thread_id == old(self).primary_thread_id,
            (old(self).primary_thread_id is None || changed_path_count == 0) ==> (r matches Ok(v) && v@.len() == 0
                && same_scheduler(old(self).workflow_scheduler, final(self).workflow_scheduler)),
            (old(self).primary_thread_id is Some && changed_path_count > 0) ==> match *registry {
                Err(e) => r matches Err(m) && m@ == "Workflow file_watch failed: failed to load workflows: "@ + e@
                    && same_scheduler(old(self).workflow_scheduler, final(self).workflow_scheduler),
                Ok(reg) => r matches Ok(v) && exists|states: Seq<WorkflowSchedulerState>, ds: Seq<TriggerRunDispatch>| {
                    &&& file_watch_steps(file_watch_triggers(reg.files@), states, ds)
                    &&& states[0] == old(self).workflow_scheduler
                    &&& states.last() == final(self).workflow_scheduler
                    &&& v@.map_values(|o: WorkflowStartOutcome| outcome_entry(o)) == visible_entries(file_watch_triggers(reg.files@), ds)
                },
            },
    {
        if self.primary_thread_id.is_none() || changed_path_count == 0 {
            let v: Vec<WorkflowStartOutcome> = Vec::new();
            return Ok(v);
        }
        let reg = match registry {
            Err(e) => {
                return Err(concat2("Workflow file_watch failed: failed to load workflows: ", e.as_str()));
            },
            Ok(reg) => reg,
        };
        let ghost all = file_watch_triggers(reg.files@);
        let ghost mut states: Seq<WorkflowSchedulerState> = seq![self.workflow_scheduler];
        let ghost mut ds: Seq<TriggerRunDispatch> = Seq::empty();
        let ghost mut pairs: Seq<(String, String)> = Seq::empty();
        let mut visible: Vec<WorkflowStartOutcome> = Vec::new();
        let mut f: usize = 0;
        while f < reg.files.len()
            invariant
                self.wf(),
                self.primary_thread_id == old(self).primary_thread_id,
                f <= reg.files@.len(),
                pairs == file_watch_triggers(reg.files@.take(f as int)),
                file_watch_steps(pairs, states, ds),
                states[0] == old(self).workflow_scheduler,
                states.last() == self.workflow_scheduler,
                visible@.map_values(|o: WorkflowStartOutcome| outcome_entry(o)) == visible_entries(pairs, ds),
            decreases reg.files@.len() - f,
        {
            let file = &reg.files[f];
            let ghost base = pairs;
            let mut t: usize = 0;
            while t < file.triggers.len()
                invariant
                    self.wf(),
                    self.primary_thread_id == old(self).primary_thread_id,
                    t <= file.triggers@.len(),
                    pairs == base + file_watch_pairs(file.name, file.triggers@.take(t as int)),
                    file_watch_steps(pairs, states, ds),
                    states[0] == old(self).workflow_scheduler,
                    states.last() == self.workflow_scheduler,
                    visible@.map_values(|o: WorkflowStartOutcome| outcome_entry(o)) == visible_entries(pairs, ds),
                decreases file.triggers@.len() - t,
            {
                let trigger = &file.triggers[t];
                let is_file_watch = match trigger.kind {
                    WorkflowTriggerKind::FileWatch => true,
                    _ => false,
                };
                proof {
                    assert(file.triggers@.take(t + 1).drop_last() =~= file.triggers@.take(t as int));
                }
                if trigger.enabled && is_file_watch {
                    let ghost s_before = self.workflow_scheduler;
                    let ghost pair = (file.name, trigger.id);
                    let wf_name = file.name.clone();
                    let trig_id = trigger.id.clone();
                    let label = concat3(wf_name.as_str(), " · ", trig_id.as_str());
                    let d = self.queue_or_start_trigger_run(
                        wf_name,
                        trig_id,
                        OwnedWorkflowPhaseContext { current_user_turn: None, last_assistant_message: None },
                        WorkflowTriggerOverlapBehavior::Skip,
                    );
                    let ghost gd = d;
                    let skipped = match d {
                        TriggerRunDispatch::Skipped => true,
                        _ => false,
                    };
                    let ghost old_visible = visible@;
                    if !skipped {
                        let o = dispatch_outcome(d, label);
                        visible.push(o);
                    }
                    proof {
                        let new_pairs = pairs.push(pair);
                        let new_states = states.push(self.workflow_scheduler);
                        let new_ds = ds.push(gd);
                        assert forall|k: int| 0 <= k < new_pairs.len() implies #[trigger] dispatch_post(
                            new_states[k],
                            new_states[k + 1],
                            new_pairs[k].0,
                            new_pairs[k].1,
                            OwnedWorkflowPhaseContext { current_user_turn: None, last_assistant_message: None },
                            WorkflowTriggerOverlapBehavior::Skip,
                            new_ds[k],
                        ) by {
                            if k < pairs.len() {
                                assert(new_states[k] == states[k]);
                                assert(new_states[k + 1] == states[k + 1]);
                                assert(dispatch_post(
                                    states[k],
                                    states[k + 1],
                                    pairs[k].0,
                                    pairs[k].1,
                                    OwnedWorkflowPhaseContext { current_user_turn: None, last_assistant_message: None },
                                    WorkflowTriggerOverlapBehavior::Skip,
                                    ds[k],
                                ));
                            } else {
                                assert(new_states[k] == s_before);
                            }
                        }
                        assert(new_pairs.drop_last() =~= pairs);
                        assert(new_ds.drop_last() =~= ds);
                        assert(visible@.map_values(|o: WorkflowStartOutcome| outcome_entry(o)) =~= visible_entries(new_pairs, new_ds)) by {
                            if !skipped {
                                assert(visible@.map_values(|o: WorkflowStartOutcome| outcome_entry(o)) =~= old_visible.map_values(|o: WorkflowStartOutcome| outcome_entry(o)).push(dispatch_entry(pair, gd)));
                            } else {
                                assert(visible@ == old_visible);
                            }
                        }
                        assert(base + file_watch_pairs(file.name, file.triggers@.take(t + 1)) =~= new_pairs);
                        pairs = new_pairs;
                        states = new_states;
                        ds = new_ds;
                    }
                } else {
                    proof {
                        assert(base + file_watch_pairs(file.name, file.triggers@.take(t + 1)) =~= pairs);
                    }
                }
                t = t + 1;
            }
            proof {
                assert(file.triggers@.take(t as int) =~= file.triggers@);
                assert(reg.files@.take(f + 1).drop_last() =~= reg.files@.take(f as int));
                assert(reg.files@.take(f + 1).last() == reg.files@[f as int]);
            }
            f = f + 1;
        }
        proof {
            assert(reg.files@.take(f as int) =~= reg.files@);
        }
        Ok(visible)
    }
}


/// At most one trigger run is in flight.
pub open spec fn at_most_one_trigger_run(s: WorkflowSchedulerState) -> bool {
    forall|a: Seq<char>, b: Seq<char>|
        #![trigger s.running()[a], s.running()[b]]
        s.running().dom().contains(a) && s.running().dom().contains(b) && s.running()[a] is Trigger
            && s.running()[b] is Trigger ==> a == b
}

/// Trigger runs run one at a time: a request to run a trigger never leaves
/// two trigger runs in flight.
pub proof fn lemma_dispatch_keeps_one_trigger_run(
    s0: WorkflowSchedulerState,
    s1: WorkflowSchedulerState,
    workflow_name: String,
    trigger_id: String,
    phase_context: OwnedWorkflowPhaseContext,
    overlap_behavior: WorkflowTriggerOverlapBehavior,
    r: TriggerRunDispatch,
)
    requires
        at_most_one_trigger_run(s0),
        dispatch_post(s0, s1, workflow_name, trigger_id, phase_context, overlap_behavior, r),
    ensures
        at_most_one_trigger_run(s1),
{
    let skip = overlap_behavior == WorkflowTriggerOverlapBehavior::Skip && (s0.trigger_active(
        workflow_name@,
        trigger_id@,
    ) || s0.trigger_queued(workflow_name@, trigger_id@));
    if skip || s0.running_trigger() {
        assert(s1.running() =~= s0.running());
    } else {
        let id = match r {
            TriggerRunDispatch::Started(i) => i@,
            _ => Seq::empty(),
        };
        assert forall|a: Seq<char>, b: Seq<char>|
            #![trigger s1.running()[a], s1.running()[b]]
            s1.running().dom().contains(a) && s1.running().dom().contains(b) && s1.running()[a] is Trigger
                && s1.running()[b] is Trigger implies a == b by {
            if a != id {
                assert(s0.running().dom().contains(a) && s0.running()[a] is Trigger);
            }
            if b != id {
                assert(s0.running().dom().contains(b) && s0.running()[b] is Trigger);
            }
        }
    }
}

/// What is recorded under a run id is what a later take of that id returns,
/// and the take forgets only that run.
pub proof fn lemma_register_then_take(
    s0: WorkflowSchedulerState,
    s1: WorkflowSchedulerState,
    s2: WorkflowSchedulerState,
    id: Seq<char>,
    target: BackgroundWorkflowRunTarget,
    taken: Option<BackgroundWorkflowRunTarget>,
)
    requires
        s1.running() == s0.running().insert(id, target),
        match taken {
            Some(t) => s1.running().dom().contains(id) && t == s1.running()[id],
            None => !s1.running().dom().contains(id),
        },
        s2.running() == s1.running().remove(id),
    ensures
        taken == Some(target),
        s2.running() == s0.running().remove(id),
{
    assert(s2.running() =~= s0.running().remove(id));
}

/// Queued trigger runs leave the queue in the order they entered it: after
/// queueing `q`, the next dequeue returns the oldest run waiting, which is
/// `q` only when nothing was waiting before.
pub proof fn lemma_queue_is_first_in_first_out(
    s0: WorkflowSchedulerState,
    s1: WorkflowSchedulerState,
    s2: WorkflowSchedulerState,
    q: QueuedWorkflowTriggerRun,
    r: Option<QueuedWorkflowTriggerRun>,
)
    requires
        s1.queue() == s0.queue().push(q),
        match r {
            Some(x) => s1.queue().len() > 0 && x == s1.queue()[0] && s2.queue() == s1.queue().drop_first(),
            None => s1.queue().len() == 0 && s2.queue() == s1.queue(),
        },
    ensures
        s0.queue().len() == 0 ==> r == Some(q) && s2.queue().len() == 0,
        s0.queue().len() > 0 ==> r == Some(s0.queue()[0]) && s2.queue() == s0.queue().drop_first().push(q),
{
    assert(s0.queue().len() > 0 ==> s1.queue().drop_first() =~= s0.queue().drop_first().push(q));
}

} // verus!
