//! The decisions a background workflow run makes: which jobs run, when a
//! failed step is retried, what a job reports, and how runs are labelled.
use vstd::prelude::*;
use vstd::string::*;
use vstd::arithmetic::power2::{pow2, lemma2_to64, lemma_pow2_strictly_increases};
use crate::text::{
    views, opt_view, trim_seq, trim_str, concat2, concat3, contains_text, contains_seq,
    join_strings, join_seq, lemma_views_push,
};
use crate::workflow_definition::{
    WorkflowContextStrategy, WorkflowExecutionStrategy, WorkflowResponseMode, WorkflowStep,
    WorkflowDuration, LoadedWorkflowJob, contains_string, find_job, nodes, jobs_unique, has_job,
    job_node, step_timeout_spec, TurnStatus,
};

verus! {

/// What a scheduled trigger does when a run of it is already active or queued.
#[derive(Debug, Clone, Copy, PartialEq, Eq, Structural)]
pub enum WorkflowTriggerOverlapBehavior {
    Queue,
    Skip,
}

/// The main-thread context a workflow phase runs with.
#[derive(Debug, Default, PartialEq, Eq)]
pub struct OwnedWorkflowPhaseContext {
    pub current_user_turn: Option<String>,
    pub last_assistant_message: Option<String>,
}

/// The main-thread context a workflow phase runs with, borrowed.
#[derive(Debug, Clone, Copy, PartialEq, Eq)]
pub struct WorkflowPhaseContext<'a> {
    pub current_user_turn: Option<&'a str>,
    pub last_assistant_message: Option<&'a str>,
}

/// The view of an optional borrowed string.
pub open spec fn opt_str_view(s: Option<&str>) -> Option<Seq<char>> {
    match s {
        Some(v) => Some(v@),
        None => None,
    }
}

impl OwnedWorkflowPhaseContext {
    /// The context, borrowed.
    pub fn borrowed(&self) -> (r: WorkflowPhaseContext<'_>)
        ensures
            opt_str_view(r.current_user_turn) == opt_view(self.current_user_turn),
            opt_str_view(r.last_assistant_message) == opt_view(self.last_assistant_message),
    {
        WorkflowPhaseContext {
            current_user_turn: match &self.current_user_turn {
                Some(s) => Some(s.as_str()),
                None => None,
            },
            last_assistant_message: match &self.last_assistant_message {
                Some(s) => Some(s.as_str()),
                None => None,
            },
        }
    }

    /// The borrowed context, owned.
    pub fn from(value: WorkflowPhaseContext<'_>) -> (r: Self)
        ensures
            opt_view(r.current_user_turn) == opt_str_view(value.current_user_turn),
            opt_view(r.last_assistant_message) == opt_str_view(value.last_assistant_message),
    {
        OwnedWorkflowPhaseContext {
            current_user_turn: match value.current_user_turn {
                Some(s) => Some(String::from_str(s)),
                None => None,
            },
            last_assistant_message: match value.last_assistant_message {
                Some(s) => Some(String::from_str(s)),
                None => None,
            },
        }
    }
}

/// What a background run runs: a trigger of a workflow, or one of its jobs.
#[derive(Debug, PartialEq, Eq)]
pub enum BackgroundWorkflowRunTarget {
    Trigger {
        workflow_name: String,
        trigger_id: String,
        phase_context: OwnedWorkflowPhaseContext,
        overlap_behavior: WorkflowTriggerOverlapBehavior,
    },
    Job { workflow_name: String, job_name: String },
}

impl BackgroundWorkflowRunTarget {
    /// The workflow the run belongs to.
    pub open spec fn workflow_name_spec(&self) -> Seq<char> {
        match self {
            BackgroundWorkflowRunTarget::Trigger { workflow_name, .. } => workflow_name@,
            BackgroundWorkflowRunTarget::Job { workflow_name, .. } => workflow_name@,
        }
    }

    /// The trigger id or job name the run is for.
    pub open spec fn slot_key_spec(&self) -> Seq<char> {
        match self {
            BackgroundWorkflowRunTarget::Trigger { trigger_id, .. } => trigger_id@,
            BackgroundWorkflowRunTarget::Job { job_name, .. } => job_name@,
        }
    }

    /// The workflow the run belongs to.
    pub fn workflow_name(&self) -> (r: &str)
        ensures
            r@ == self.workflow_name_spec(),
    {
        match self {
            BackgroundWorkflowRunTarget::Trigger { workflow_name, .. } => workflow_name.as_str(),
            BackgroundWorkflowRunTarget::Job { workflow_name, .. } => workflow_name.as_str(),
        }
    }

    /// The trigger id or job name the run is for.
    pub fn slot_key(&self) -> (r: &str)
        ensures
            r@ == self.slot_key_spec(),
    {
        match self {
            BackgroundWorkflowRunTarget::Trigger { trigger_id, .. } => trigger_id.as_str(),
            BackgroundWorkflowRunTarget::Job { job_name, .. } => job_name.as_str(),
        }
    }

    /// `workflow · slot`.
    pub fn label(&self) -> (r: String)
        ensures
            r@ == self.workflow_name_spec() + " · "@ + self.slot_key_spec(),
    {
        concat3(self.workflow_name(), " · ", self.slot_key())
    }

    /// The history line shown when the run starts.
    pub fn started_message(&self) -> (r: &'static str)
        ensures
            r@ == (match self {
                BackgroundWorkflowRunTarget::Trigger { .. } => "Workflow trigger started"@,
                BackgroundWorkflowRunTarget::Job { .. } => "Workflow job started"@,
            }),
    {
        match self {
            BackgroundWorkflowRunTarget::Trigger { .. } => "Workflow trigger started",
            BackgroundWorkflowRunTarget::Job { .. } => "Workflow job started",
        }
    }

    /// The history line shown when the run completes.
    pub fn completed_message(&self) -> (r: &'static str)
        ensures
            r@ == (match self {
                BackgroundWorkflowRunTarget::Trigger { .. } => "Workflow trigger completed"@,
                BackgroundWorkflowRunTarget::Job { .. } => "Workflow job completed"@,
            }),
    {
        match self {
            BackgroundWorkflowRunTarget::Trigger { .. } => "Workflow trigger completed",
            BackgroundWorkflowRunTarget::Job { .. } => "Workflow job completed",
        }
    }

    /// The history line shown when the run is stopped.
    pub fn stopped_message(&self) -> (r: &'static str)
        ensures
            r@ == (match self {
                BackgroundWorkflowRunTarget::Trigger { .. } => "Workflow trigger stopped"@,
                BackgroundWorkflowRunTarget::Job { .. } => "Workflow job stopped"@,
            }),
    {
        match self {
            BackgroundWorkflowRunTarget::Trigger { .. } => "Workflow trigger stopped",
            BackgroundWorkflowRunTarget::Job { .. } => "Workflow job stopped",
        }
    }

    /// The history line shown when the run fails.
    pub fn failed_message(&self) -> (r: &'static str)
        ensures
            r@ == (match self {
                BackgroundWorkflowRunTarget::Trigger { .. } => "Workflow trigger failed"@,
                BackgroundWorkflowRunTarget::Job { .. } => "Workflow job failed"@,
            }),
    {
        match self {
            BackgroundWorkflowRunTarget::Trigger { .. } => "Workflow trigger failed",
            BackgroundWorkflowRunTarget::Job { .. } => "Workflow job failed",
        }
    }
}

/// Where a job's final message goes.
#[derive(Debug, Clone, Copy, PartialEq, Eq, Structural)]
pub enum WorkflowOutputDelivery {
    MainThreadInput,
    MainThreadCompactInput,
    AssistantCell,
    UserFollowup,
}

/// Whether disabled jobs among the roots still run.
#[derive(Debug, Clone, Copy, PartialEq, Eq, Structural)]
pub enum WorkflowDisabledJobBehavior {
    Skip,
    RunRootJobs,
}

/// What a job run produced.
#[derive(Debug, PartialEq, Eq)]
pub struct WorkflowJobRunResult {
    pub delivery: WorkflowOutputDelivery,
    pub execution_strategy: WorkflowExecutionStrategy,
    pub workflow_name: String,
    pub trigger_id: String,
    pub job_name: String,
    pub message: Option<String>,
}

/// How a background workflow run ended: with the results of its jobs, or
/// stopped, or failed with an error.
#[derive(Debug, PartialEq, Eq)]
pub enum BackgroundWorkflowRunOutcome {
    Completed(Vec<WorkflowJobRunResult>),
    Cancelled,
    Failed(String),
}

/// How a workflow thread is started.
#[derive(Debug, Clone, Copy, PartialEq, Eq, Structural)]
pub enum WorkflowThreadStartStrategy {
    Auto,
    New,
    Fork,
    ForkCompact,
}

impl WorkflowThreadStartStrategy {
    /// The strategy's name.
    pub fn as_str(self) -> (r: &'static str)
        ensures
            r@ == (match self {
                WorkflowThreadStartStrategy::Auto => "auto"@,
                WorkflowThreadStartStrategy::New => "new"@,
                WorkflowThreadStartStrategy::Fork => "fork"@,
                WorkflowThreadStartStrategy::ForkCompact => "fork_compact"@,
            }),
    {
        match self {
            WorkflowThreadStartStrategy::Auto => "auto",
            WorkflowThreadStartStrategy::New => "new",
            WorkflowThreadStartStrategy::Fork => "fork",
            WorkflowThreadStartStrategy::ForkCompact => "fork_compact",
        }
    }
}

/// Why a workflow run stopped early.
#[derive(Debug, PartialEq, Eq)]
pub enum WorkflowRunError {
    Failed(String),
    TimedOut(String),
    Cancelled,
}

/// The trigger id under which a single job runs on request.
pub fn manual_workflow_job_trigger_id(job_name: &str) -> (r: String)
    ensures
        r@ == "job:"@ + job_name@,
{
    concat2("job:", job_name)
}

/// `workflow/trigger:job` for a job result.
pub fn workflow_job_source(result: &WorkflowJobRunResult) -> (r: String)
    ensures
        r@ == result.workflow_name@ + "/"@ + result.trigger_id@ + ":"@ + result.job_name@,
{
    let mut s = concat3(result.workflow_name.as_str(), "/", result.trigger_id.as_str());
    s.append(":");
    s.append(result.job_name.as_str());
    s
}

/// The seconds to wait before retry number `attempt`: 2^(attempt-1), between 1 and 8.
pub open spec fn retry_backoff_secs(attempt: u32) -> nat {
    let n: nat = if attempt == 0 { 0 } else { (attempt - 1) as nat };
    if pow2(n) > 8 { 8 } else if pow2(n) < 1 { 1 } else { pow2(n) }
}

/// The delay before retrying after attempt `attempt`.
pub fn retry_backoff_delay(attempt: u32) -> (r: WorkflowDuration)
    ensures
        r.secs == retry_backoff_secs(attempt),
        r.nanos == 0,
{
    proof {
        lemma2_to64();
    }
    let n: u32 = if attempt == 0 { 0 } else { attempt - 1 };
    let secs: u64 = if n == 0 {
        1
    } else if n == 1 {
        2
    } else if n == 2 {
        4
    } else {
        proof {
            if n > 3 {
                lemma_pow2_strictly_increases(3, n as nat);
            }
        }
        8
    };
    WorkflowDuration { secs, nanos: 0 }
}

/// The message the model service sends when the selected model is saturated.
pub open spec fn capacity_error_text() -> Seq<char> {
    "Selected model is at capacity. Please try a different model."@
}

/// A failure caused by model capacity, which earns one extra attempt.
pub fn should_retry_selected_model_capacity_error(error: &WorkflowRunError) -> (r: bool)
    ensures
        r == (match error {
            WorkflowRunError::Failed(m) => contains_seq(m@, capacity_error_text()),
            _ => false,
        }),
{
    match error {
        WorkflowRunError::Failed(message) => contains_text(
            message.as_str(),
            "Selected model is at capacity. Please try a different model.",
        ),
        _ => false,
    }
}

/// A timeout, which earns one extra attempt.
pub fn should_retry_workflow_timeout(error: &WorkflowRunError) -> (r: bool)
    ensures
        r == (error is TimedOut),
{
    match error {
        WorkflowRunError::TimedOut(_) => true,
        _ => false,
    }
}

/// The message an error reports.
pub fn workflow_run_error_message(error: WorkflowRunError) -> (r: String)
    ensures
        r@ == (match error {
            WorkflowRunError::Failed(m) => m@,
            WorkflowRunError::TimedOut(m) => m@,
            WorkflowRunError::Cancelled => "workflow run cancelled"@,
        }),
{
    match error {
        WorkflowRunError::Failed(message) => message,
        WorkflowRunError::TimedOut(message) => message,
        WorkflowRunError::Cancelled => String::from_str("workflow run cancelled"),
    }
}


/// The trimmed text, when something is left after trimming.
pub open spec fn nonblank_trimmed(s: Option<Seq<char>>) -> Option<Seq<char>> {
    match s {
        Some(t) => if trim_seq(t).len() > 0 {
            Some(trim_seq(t))
        } else {
            None
        },
        None => None,
    }
}

/// The sections of a workflow prompt: a header naming the workflow, trigger
/// and job; the main thread's user turn and assistant response where they are
/// not blank; the outputs of earlier steps where there are any; the prompt.
pub open spec fn prompt_sections(
    workflow_name: Seq<char>,
    trigger_id: Seq<char>,
    job_name: Seq<char>,
    prompt: Seq<char>,
    current_user_turn: Option<Seq<char>>,
    last_assistant_message: Option<Seq<char>>,
    step_outputs: Seq<Seq<char>>,
) -> Seq<Seq<char>> {
    let header = "Workflow: "@ + workflow_name + "\nTrigger: "@ + trigger_id + "\nJob: "@ + job_name;
    let s1 = seq![header];
    let s2 = match nonblank_trimmed(current_user_turn) {
        Some(t) => s1.push("Current main-thread user turn:\n"@ + t),
        None => s1,
    };
    let s3 = match nonblank_trimmed(last_assistant_message) {
        Some(t) => s2.push("Latest main-thread assistant response:\n"@ + t),
        None => s2,
    };
    let s4 = if step_outputs.len() > 0 {
        s3.push("Previous workflow step outputs:\n"@ + join_seq(step_outputs, "\n\n"@))
    } else {
        s3
    };
    s4.push("Current workflow prompt:\n"@ + prompt)
}

/// `prefix` followed by the trimmed text, when the trimmed text is not empty.
fn labelled_nonblank(prefix: &str, text: Option<&str>) -> (r: Option<String>)
    ensures
        match nonblank_trimmed(opt_str_view(text)) {
            Some(t) => r matches Some(x) && x@ == prefix@ + t,
            None => r is None,
        },
{
    match text {
        Some(t) => {
            let trimmed = trim_str(t);
            if trimmed.unicode_len() > 0 {
                Some(concat2(prefix, trimmed))
            } else {
                None
            }
        },
        None => None,
    }
}

/// The input sent for a prompt step: its sections joined by blank lines.
pub fn build_workflow_prompt_input(
    workflow_name: &str,
    trigger_id: &str,
    job_name: &str,
    prompt: &str,
    phase_context: WorkflowPhaseContext<'_>,
    step_outputs: &[String],
) -> (r: String)
    ensures
        r@ == join_seq(
            prompt_sections(
                workflow_name@,
                trigger_id@,
                job_name@,
                prompt@,
                opt_str_view(phase_context.current_user_turn),
                opt_str_view(phase_context.last_assistant_message),
                views(step_outputs@),
            ),
            "\n\n"@,
        ),
{
    let mut header = concat3("Workflow: ", workflow_name, "\nTrigger: ");
    header.append(trigger_id);
    header.append("\nJob: ");
    header.append(job_name);
    let mut sections: Vec<String> = Vec::new();
    proof {
        lemma_views_push(sections@, header);
    }
    sections.push(header);
    match labelled_nonblank("Current main-thread user turn:\n", phase_context.current_user_turn) {
        Some(section) => {
            proof {
                lemma_views_push(sections@, section);
            }
            sections.push(section);
        },
        None => {},
    }
    match labelled_nonblank(
        "Latest main-thread assistant response:\n",
        phase_context.last_assistant_message,
    ) {
        Some(section) => {
            proof {
                lemma_views_push(sections@, section);
            }
            sections.push(section);
        },
        None => {},
    }
    if step_outputs.len() > 0 {
        let joined = join_strings(step_outputs, "\n\n");
        let section = concat2("Previous workflow step outputs:\n", joined.as_str());
        proof {
            lemma_views_push(sections@, section);
        }
        sections.push(section);
    }
    let last = concat2("Current workflow prompt:\n", prompt);
    proof {
        lemma_views_push(sections@, last);
    }
    sections.push(last);
    let r = join_strings(sections.as_slice(), "\n\n");
    proof {
        let expected = prompt_sections(
            workflow_name@,
            trigger_id@,
            job_name@,
            prompt@,
            opt_str_view(phase_context.current_user_turn),
            opt_str_view(phase_context.last_assistant_message),
            views(step_outputs@),
        );
        assert(views(sections@) =~= expected);
    }
    r
}


/// The completion record after the given runs and skips, in order: each job
/// name maps to whether its last entry ran.
pub open spec fn completion_map(names: Seq<Seq<char>>, ran: Seq<bool>) -> Map<Seq<char>, bool>
    decreases names.len(),
{
    if names.len() == 0 || ran.len() == 0 {
        Map::empty()
    } else {
        completion_map(names.drop_last(), ran.drop_last()).insert(names.last(), ran.last())
    }
}

/// The job of `jobs` called `name` (the registry keys jobs by name).
pub open spec fn job_named(jobs: Seq<LoadedWorkflowJob>, name: Seq<char>) -> LoadedWorkflowJob {
    jobs[job_index_of(jobs, name)]
}

/// The position in `jobs` of the job called `name`.
pub open spec fn job_index_of(jobs: Seq<LoadedWorkflowJob>, name: Seq<char>) -> int {
    choose|i: int| 0 <= i < jobs.len() && #[trigger] jobs[i].name@ == name
}

/// Some job named in `needs` is recorded as not having run.
pub open spec fn needs_a_skipped_job(needs: Seq<Seq<char>>, completed: Map<Seq<char>, bool>) -> bool {
    exists|d: Seq<char>| needs.contains(d) && completed.contains_key(d) && !completed[d]
}

/// How far planning has come: the completion record, the jobs that run,
/// and the job found missing, where one was.
pub struct JobPlanProgress {
    pub completed: Map<Seq<char>, bool>,
    pub runs: Seq<Seq<char>>,
    pub missing: Option<Seq<char>>,
}

/// Planning of the first `n` jobs of `ordered`. A job that is not defined
/// ends planning. A disabled job is skipped unless it is a root and roots run
/// regardless; so is a job that needs a skipped job. Every other job runs.
pub open spec fn plan_prefix(
    jobs: Seq<LoadedWorkflowJob>,
    ordered: Seq<Seq<char>>,
    roots: Seq<Seq<char>>,
    run_roots: bool,
    n: nat,
) -> JobPlanProgress
    decreases n,
{
    if n == 0 {
        JobPlanProgress { completed: Map::empty(), runs: Seq::empty(), missing: None }
    } else {
        let prev = plan_prefix(jobs, ordered, roots, run_roots, (n - 1) as nat);
        let name = ordered[n - 1];
        if prev.missing is Some {
            prev
        } else if !has_job(nodes(jobs), name) {
            JobPlanProgress { missing: Some(name), ..prev }
        } else {
            let job = job_named(jobs, name);
            let forced = run_roots && roots.contains(name);
            if !job.config.enabled && !forced {
                JobPlanProgress { completed: prev.completed.insert(name, false), ..prev }
            } else if needs_a_skipped_job(views(job.config.needs@), prev.completed) {
                JobPlanProgress { completed: prev.completed.insert(name, false), ..prev }
            } else {
                JobPlanProgress {
                    completed: prev.completed.insert(name, true),
                    runs: prev.runs.push(name),
                    missing: None,
                }
            }
        }
    }
}

/// What planning records of the first `n` jobs of `ordered`: the jobs that
/// run are among them, and, where no job was found missing, each of them is
/// recorded, as run exactly when it runs.
proof fn lemma_plan_prefix_record(
    jobs: Seq<LoadedWorkflowJob>,
    ordered: Seq<Seq<char>>,
    roots: Seq<Seq<char>>,
    run_roots: bool,
    n: nat,
)
    requires
        ordered.no_duplicates(),
        n <= ordered.len(),
    ensures
        forall|x: Seq<char>| #[trigger] plan_prefix(jobs, ordered, roots, run_roots, n).runs.contains(x)
            ==> ordered.take(n as int).contains(x),
        forall|x: Seq<char>| #[trigger] plan_prefix(jobs, ordered, roots, run_roots, n).runs.contains(x)
            ==> has_job(nodes(jobs), x) && (job_named(jobs, x).config.enabled || (run_roots && roots.contains(x))),
        plan_prefix(jobs, ordered, roots, run_roots, n).missing is None ==> forall|k: int| 0 <= k < n ==> {
            let p = plan_prefix(jobs, ordered, roots, run_roots, n);
            &&& p.completed.contains_key(#[trigger] ordered[k])
            &&& (p.completed[ordered[k]] <==> p.runs.contains(ordered[k]))
        },
        forall|a: int, b: int|
            0 <= a < b < n && #[trigger] plan_prefix(jobs, ordered, roots, run_roots, n).runs.contains(ordered[b])
                && views(job_named(jobs, ordered[b]).config.needs@).contains(#[trigger] ordered[a])
                ==> plan_prefix(jobs, ordered, roots, run_roots, n).runs.contains(ordered[a]),
    decreases n,
{
    if n > 0 {
        let m = (n - 1) as nat;
        lemma_plan_prefix_record(jobs, ordered, roots, run_roots, m);
        let prev = plan_prefix(jobs, ordered, roots, run_roots, m);
        let p = plan_prefix(jobs, ordered, roots, run_roots, n);
        let name = ordered[m as int];
        assert(ordered.take(n as int) =~= ordered.take(m as int).push(name));
        assert(!ordered.take(m as int).contains(name)) by {
            if ordered.take(m as int).contains(name) {
                let j = choose|j: int| 0 <= j < m && ordered.take(m as int)[j] == name;
                assert(ordered[j] == ordered[m as int]);
            }
        }
        assert(!prev.runs.contains(name));
        assert forall|k: int| 0 <= k < m implies #[trigger] ordered[k] != name by {
            assert(ordered[k] != ordered[m as int]);
        }
        if p.runs == prev.runs {
            assert forall|a: int, b: int|
                0 <= a < b < n && #[trigger] p.runs.contains(ordered[b])
                    && views(job_named(jobs, ordered[b]).config.needs@).contains(#[trigger] ordered[a])
                    implies p.runs.contains(ordered[a]) by {
                if b == m {
                    assert(prev.runs.contains(name));
                }
            }
        } else {
            assert(prev.missing is None);
            assert(p.runs == prev.runs.push(name));
            assert forall|a: int, b: int|
                0 <= a < b < n && #[trigger] p.runs.contains(ordered[b])
                    && views(job_named(jobs, ordered[b]).config.needs@).contains(#[trigger] ordered[a])
                    implies p.runs.contains(ordered[a]) by {
                let d = ordered[a];
                if b < m {
                    assert(ordered[b] != name);
                    assert(prev.runs.contains(ordered[b]));
                    assert(prev.runs.contains(d));
                } else {
                    assert(prev.completed.contains_key(d));
                    assert(!needs_a_skipped_job(views(job_named(jobs, name).config.needs@), prev.completed));
                    assert(prev.completed[d]);
                    assert(prev.runs.contains(d));
                }
                assert(p.runs.contains(d)) by {
                    let q = prev.runs.index_of(d);
                    assert(p.runs[q] == d);
                }
            }
        }
        assert forall|x: Seq<char>| #[trigger] p.runs.contains(x) implies ordered.take(n as int).contains(x) by {
            if prev.runs.contains(x) {
                let j = choose|j: int| 0 <= j < m && ordered.take(m as int)[j] == x;
                assert(ordered.take(n as int)[j] == x);
            } else {
                assert(x == name);
                assert(ordered.take(n as int)[m as int] == x);
            }
        }
        if p.missing is None {
            assert(prev.missing is None);
            assert forall|k: int| 0 <= k < n implies {
                &&& p.completed.contains_key(#[trigger] ordered[k])
                &&& (p.completed[ordered[k]] <==> p.runs.contains(ordered[k]))
            } by {
                if k < m {
                    assert(ordered[k] != name);
                    assert(prev.completed.contains_key(ordered[k]));
                    if p.runs.contains(ordered[k]) && !prev.runs.contains(ordered[k]) {
                        assert(p.runs == prev.runs.push(name));
                        let q = p.runs.index_of(ordered[k]);
                        if q < prev.runs.len() {
                            assert(prev.runs[q] == ordered[k]);
                        }
                    }
                    if prev.runs.contains(ordered[k]) {
                        let q = prev.runs.index_of(ordered[k]);
                        if p.runs != prev.runs {
                            assert(p.runs[q] == ordered[k]);
                        }
                    }
                } else {
                    if p.runs != prev.runs {
                        assert(p.runs[prev.runs.len() as int] == name);
                    }
                }
            }
        }
    }
}

/// A job runs only if it is defined, and enabled or a root that runs
/// regardless.
pub proof fn lemma_plan_runs_enabled_jobs(
    jobs: Seq<LoadedWorkflowJob>,
    ordered: Seq<Seq<char>>,
    roots: Seq<Seq<char>>,
    run_roots: bool,
    x: Seq<char>,
)
    requires
        ordered.no_duplicates(),
        plan_prefix(jobs, ordered, roots, run_roots, ordered.len()).runs.contains(x),
    ensures
        has_job(nodes(jobs), x),
        job_named(jobs, x).config.enabled || (run_roots && roots.contains(x)),
{
    lemma_plan_prefix_record(jobs, ordered, roots, run_roots, ordered.len());
}

/// A job runs only if every job it needs that comes before it in the order
/// ran too: a job skipped for any reason is recorded as not having run, so
/// the jobs that need it are skipped as well.
pub proof fn lemma_plan_runs_need_runs(
    jobs: Seq<LoadedWorkflowJob>,
    ordered: Seq<Seq<char>>,
    roots: Seq<Seq<char>>,
    run_roots: bool,
    a: int,
    b: int,
)
    requires
        ordered.no_duplicates(),
        0 <= a < b < ordered.len(),
        plan_prefix(jobs, ordered, roots, run_roots, ordered.len()).runs.contains(ordered[b]),
        views(job_named(jobs, ordered[b]).config.needs@).contains(ordered[a]),
    ensures
        plan_prefix(jobs, ordered, roots, run_roots, ordered.len()).runs.contains(ordered[a]),
{
    lemma_plan_prefix_record(jobs, ordered, roots, run_roots, ordered.len());
}

/// The message for a job of the order that is not defined.
pub open spec fn missing_job_message(name: Seq<char>) -> Seq<char> {
    "workflow job `"@ + name + "` does not exist"@
}

/// The message for a run in which no job ran.
pub open spec fn no_enabled_jobs_message(workflow_name: Seq<char>, trigger_id: Seq<char>) -> Seq<
    char,
> {
    "workflow `"@ + workflow_name + "/"@ + trigger_id + "` did not run any enabled jobs"@
}

/// The jobs of a run, in order, and the failure reported once they have run.
#[derive(Debug, PartialEq, Eq)]
pub struct WorkflowJobPlan {
    pub runs: Vec<String>,
    pub failure: Option<String>,
}

/// The recorded value of `name`: the flag of its last entry.
fn lookup_completion(names: &Vec<String>, ran: &Vec<bool>, name: &String) -> (r: Option<bool>)
    requires
        names@.len() == ran@.len(),
    ensures
        ({
            let m = completion_map(views(names@), ran@);
            match r {
                Some(b) => m.contains_key(name@) && m[name@] == b,
                None => !m.contains_key(name@),
            }
        }),
{
    let mut i: usize = names.len();
    while i > 0
        invariant
            names@.len() == ran@.len(),
            i <= names@.len(),
            forall|j: int| i <= j < names@.len() ==> names@[j]@ != name@,
        decreases i,
    {
        if names[i - 1] == *name {
            proof {
                lemma_completion_suffix(views(names@), ran@, i as nat, name@);
                let t = views(names@).take(i as int);
                let u = ran@.take(i as int);
                assert(t.drop_last() =~= views(names@).take(i - 1));
                assert(u.drop_last() =~= ran@.take(i - 1));
            }
            return Some(ran[i - 1]);
        }
        i = i - 1;
    }
    proof {
        lemma_completion_suffix(views(names@), ran@, 0, name@);
        assert(views(names@).take(0) =~= Seq::<Seq<char>>::empty());
    }
    None
}

/// Entries after position `i` that do not name `d` leave its record as it
/// was after the first `i` entries.
proof fn lemma_completion_suffix(names: Seq<Seq<char>>, ran: Seq<bool>, i: nat, d: Seq<char>)
    requires
        names.len() == ran.len(),
        i <= names.len(),
        forall|j: int| i <= j < names.len() ==> names[j] != d,
    ensures
        completion_map(names, ran).contains_key(d) == completion_map(names.take(i as int), ran.take(i as int)).contains_key(d),
        completion_map(names, ran)[d] == completion_map(names.take(i as int), ran.take(i as int))[d],
    decreases names.len(),
{
    if names.len() == i {
        assert(names.take(i as int) =~= names);
        assert(ran.take(i as int) =~= ran);
    } else {
        let n2 = names.drop_last();
        let r2 = ran.drop_last();
        lemma_completion_suffix(n2, r2, i, d);
        assert(n2.take(i as int) =~= names.take(i as int));
        assert(r2.take(i as int) =~= ran.take(i as int));
    }
}

/// Whether some need of a job is recorded as not having run.
fn needs_skipped(needs: &Vec<String>, names: &Vec<String>, ran: &Vec<bool>) -> (r: bool)
    requires
        names@.len() == ran@.len(),
    ensures
        r == needs_a_skipped_job(views(needs@), completion_map(views(names@), ran@)),
{
    let ghost m = completion_map(views(names@), ran@);
    let mut i: usize = 0;
    while i < needs.len()
        invariant
            names@.len() == ran@.len(),
            m == completion_map(views(names@), ran@),
            i <= needs@.len(),
            forall|k: int| 0 <= k < i ==> !(m.contains_key(#[trigger] needs@[k]@) && !m[needs@[k]@]),
        decreases needs@.len() - i,
    {
        match lookup_completion(names, ran, &needs[i]) {
            Some(false) => {
                proof {
                    assert(views(needs@)[i as int] == needs@[i as int]@);
                    assert(views(needs@).contains(needs@[i as int]@));
                }
                return true;
            },
            _ => {},
        }
        i = i + 1;
    }
    proof {
        assert forall|d: Seq<char>| views(needs@).contains(d) implies !(m.contains_key(d) && !m[d]) by {
            let k = choose|k: int| 0 <= k < views(needs@).len() && views(needs@)[k] == d;
            assert(views(needs@)[k] == needs@[k]@);
        }
    }
    false
}

/// The job found at `idx` for `name` is the registry's job of that name.
pub proof fn lemma_job_named_at(jobs: Seq<LoadedWorkflowJob>, idx: int, name: Seq<char>)
    requires
        jobs_unique(nodes(jobs)),
        0 <= idx < jobs.len(),
        jobs[idx].name@ == name,
    ensures
        job_named(jobs, name) == jobs[idx],
        has_job(nodes(jobs), name),
{
    assert(exists|i: int| 0 <= i < jobs.len() && #[trigger] jobs[i].name@ == name) by {
        assert(0 <= idx < jobs.len() && jobs[idx].name@ == name);
    }
    let c = job_index_of(jobs, name);
    assert(0 <= c < jobs.len() && jobs[c].name@ == name);
    assert(nodes(jobs)[idx] == job_node(jobs[idx]));
    assert(nodes(jobs)[idx].name == name);
    assert(nodes(jobs)[c] == job_node(jobs[c]));
    if c != idx {
        assert(nodes(jobs)[c].name != nodes(jobs)[idx].name);
    }
    assert(job_named(jobs, name) == jobs[c]);
}

/// Which jobs of `ordered` run, given the registry, the run's roots and
/// whether disabled roots run regardless; and what the run reports after
/// them: a job that is not defined, or that no job ran.
pub fn plan_workflow_job_runs(
    jobs: &Vec<LoadedWorkflowJob>,
    ordered: &Vec<String>,
    root_jobs: &[String],
    disabled_job_behavior: WorkflowDisabledJobBehavior,
    workflow_name: &str,
    trigger_id: &str,
) -> (r: WorkflowJobPlan)
    requires
        jobs_unique(nodes(jobs@)),
    ensures
        ({
            let p = plan_prefix(
                jobs@,
                views(ordered@),
                views(root_jobs@),
                disabled_job_behavior == WorkflowDisabledJobBehavior::RunRootJobs,
                ordered@.len(),
            );
            &&& views(r.runs@) == p.runs
            &&& match p.missing {
                Some(n) => r.failure matches Some(m) && m@ == missing_job_message(n),
                None => if p.runs.len() == 0 {
                    r.failure matches Some(m) && m@ == no_enabled_jobs_message(
                        workflow_name@,
                        trigger_id@,
                    )
                } else {
                    r.failure is None
                },
            }
        }),
{
    let ghost ov = views(ordered@);
    let ghost rv = views(root_jobs@);
    let run_roots = match disabled_job_behavior {
        WorkflowDisabledJobBehavior::RunRootJobs => true,
        WorkflowDisabledJobBehavior::Skip => false,
    };
    let mut names: Vec<String> = Vec::new();
    let mut ran: Vec<bool> = Vec::new();
    let mut runs: Vec<String> = Vec::new();
    let mut i: usize = 0;
    while i < ordered.len()
        invariant
            jobs_unique(nodes(jobs@)),
            ov == views(ordered@),
            rv == views(root_jobs@),
            run_roots == (disabled_job_behavior == WorkflowDisabledJobBehavior::RunRootJobs),
            i <= ordered@.len(),
            names@.len() == ran@.len(),
            ({
                let p = plan_prefix(jobs@, ov, rv, run_roots, i as nat);
                &&& p.missing is None
                &&& p.completed == completion_map(views(names@), ran@)
                &&& p.runs == views(runs@)
            }),
        decreases ordered@.len() - i,
    {
        let name = &ordered[i];
        assert(ov[i as int] == name@);
        let idx = match find_job(jobs, name) {
            Some(idx) => idx,
            None => {
                proof {
                    assert(plan_prefix(jobs@, ov, rv, run_roots, (i + 1) as nat).missing == Some(name@));
                    lemma_plan_missing_stays(jobs@, ov, rv, run_roots, (i + 1) as nat, ordered@.len() as nat);
                }
                let msg = concat3("workflow job `", name.as_str(), "` does not exist");
                return WorkflowJobPlan { runs, failure: Some(msg) };
            },
        };
        proof {
            lemma_job_named_at(jobs@, idx as int, name@);
        }
        let job = &jobs[idx];
        let forced = run_roots && contains_slice(root_jobs, name);
        let skip = if !job.config.enabled && !forced {
            true
        } else {
            needs_skipped(&job.config.needs, &names, &ran)
        };
        let ghost old_names = names@;
        let ghost old_ran = ran@;
        let ghost old_runs = runs@;
        proof {
            lemma_views_push(names@, *name);
        }
        names.push(name.clone());
        assert(names@.last() == *name);
        if skip {
            ran.push(false);
        } else {
            ran.push(true);
            proof {
                lemma_views_push(runs@, *name);
            }
            runs.push(name.clone());
        }
        proof {
            let cv = views(names@);
            assert(names@.drop_last() =~= old_names);
            assert(cv.drop_last() =~= views(old_names));
            assert(ran@.drop_last() =~= old_ran);
            assert(cv.last() == name@);
            assert(ran@.last() == !skip);
            let prev = plan_prefix(jobs@, ov, rv, run_roots, i as nat);
            assert(completion_map(cv, ran@) == prev.completed.insert(name@, !skip));
            assert(prev.completed == completion_map(views(old_names), old_ran));
            assert(forced == (run_roots && rv.contains(name@)));
            let nxt = plan_prefix(jobs@, ov, rv, run_roots, (i + 1) as nat);
            assert(nxt.completed == prev.completed.insert(name@, !skip));
            if !skip {
                assert(views(runs@) == views(old_runs).push(name@));
            } else {
                assert(runs@ == old_runs);
            }
        }
        i = i + 1;
    }
    assert(ov.len() == ordered@.len());
    if runs.len() == 0 {
        let mut msg = concat3("workflow `", workflow_name, "/");
        msg.append(trigger_id);
        msg.append("` did not run any enabled jobs");
        WorkflowJobPlan { runs, failure: Some(msg) }
    } else {
        WorkflowJobPlan { runs, failure: None }
    }
}

/// Once a job is found missing, planning stays where it stopped.
proof fn lemma_plan_missing_stays(
    jobs: Seq<LoadedWorkflowJob>,
    ordered: Seq<Seq<char>>,
    roots: Seq<Seq<char>>,
    run_roots: bool,
    i: nat,
    n: nat,
)
    requires
        i <= n,
        plan_prefix(jobs, ordered, roots, run_roots, i).missing is Some,
    ensures
        plan_prefix(jobs, ordered, roots, run_roots, n) == plan_prefix(jobs, ordered, roots, run_roots, i),
    decreases n - i,
{
    if i < n {
        lemma_plan_missing_stays(jobs, ordered, roots, run_roots, i, (n - 1) as nat);
    }
}

/// Whether `v` holds `s`.
fn contains_slice(v: &[String], s: &String) -> (r: bool)
    ensures
        r == views(v@).contains(s@),
{
    let mut i: usize = 0;
    while i < v.len()
        invariant
            i <= v@.len(),
            forall|k: int| 0 <= k < i ==> v@[k]@ != s@,
        decreases v@.len() - i,
    {
        if v[i] == *s {
            assert(views(v@)[i as int] == s@);
            return true;
        }
        i = i + 1;
    }
    assert forall|k: int| 0 <= k < views(v@).len() implies views(v@)[k] != s@ by {
        assert(views(v@)[k] == v@[k]@);
    }
    false
}


/// The timeout of a step that sets none.
pub fn workflow_step_default_timeout() -> (r: WorkflowDuration)
    ensures
        r.secs == 30,
        r.nanos == 0,
{
    WorkflowDuration { secs: 30, nanos: 0 }
}

/// A step's timeout; an invalid one fails the job, naming the workflow, the
/// job and the kind of step.
pub fn workflow_step_timeout(workflow_name: &str, job_name: &str, step: &WorkflowStep) -> (r: Result<
    WorkflowDuration,
    WorkflowRunError,
>)
    ensures
        ({
            let t = step_timeout_spec(opt_view(step.timeout_text()), WorkflowDuration { secs: 30, nanos: 0 });
            let kind = match step {
                WorkflowStep::Run { .. } => "run"@,
                WorkflowStep::Prompt { .. } => "prompt"@,
            };
            match t {
                Ok(d) => r == Ok::<WorkflowDuration, WorkflowRunError>(d),
                Err(e) => r matches Err(WorkflowRunError::Failed(m)) && m@ == "workflow `"@
                    + workflow_name@ + "` job `"@ + job_name@ + "` has invalid "@ + kind
                    + " step timeout: "@ + e,
            }
        }),
        r matches Ok(d) ==> d.nanos < 1_000_000_000,
{
    match step.timeout(workflow_step_default_timeout()) {
        Ok(d) => Ok(d),
        Err(e) => {
            let mut m = concat3("workflow `", workflow_name, "` job `");
            m.append(job_name);
            m.append("` has invalid ");
            m.append(step.kind());
            m.append(" step timeout: ");
            m.append(e.as_str());
            Err(WorkflowRunError::Failed(m))
        },
    }
}

/// How a thread-based context strategy starts its thread.
pub fn thread_start_strategy(context_strategy: WorkflowContextStrategy) -> (r: WorkflowThreadStartStrategy)
    requires
        !context_strategy.is_embed(),
    ensures
        r == (match context_strategy {
            WorkflowContextStrategy::ThreadAuto => WorkflowThreadStartStrategy::Auto,
            WorkflowContextStrategy::ThreadNew => WorkflowThreadStartStrategy::New,
            WorkflowContextStrategy::ThreadFork => WorkflowThreadStartStrategy::Fork,
            _ => WorkflowThreadStartStrategy::ForkCompact,
        }),
{
    match context_strategy {
        WorkflowContextStrategy::ThreadAuto => WorkflowThreadStartStrategy::Auto,
        WorkflowContextStrategy::ThreadNew => WorkflowThreadStartStrategy::New,
        WorkflowContextStrategy::ThreadFork => WorkflowThreadStartStrategy::Fork,
        _ => WorkflowThreadStartStrategy::ForkCompact,
    }
}

/// The prompt of a prompt step.
pub open spec fn prompt_text(step: WorkflowStep) -> Option<Seq<char>> {
    match step {
        WorkflowStep::Prompt { prompt, .. } => Some(prompt@),
        WorkflowStep::Run { .. } => None,
    }
}

/// The result of a job whose context is embedded in the main thread: its
/// first prompt, delivered as main-thread input (compacting first for
/// `embed_compact`); a job without a prompt step fails.
pub fn embedded_job_result(workflow_name: &str, trigger_id: &str, job: &LoadedWorkflowJob) -> (r: Result<
    WorkflowJobRunResult,
    WorkflowRunError,
>)
    requires
        job.config.context_strategy.is_embed(),
    ensures
        match r {
            Ok(res) => {
                &&& res.message is Some
                &&& exists|k: int| 0 <= k < job.config.steps@.len()
                    && prompt_text(#[trigger] job.config.steps@[k]) == opt_view(res.message)
                    && forall|j: int| 0 <= j < k ==> !(#[trigger] job.config.steps@[j] is Prompt)
                &&& res.delivery == (if job.config.context_strategy == WorkflowContextStrategy::Embed {
                    WorkflowOutputDelivery::MainThreadInput
                } else {
                    WorkflowOutputDelivery::MainThreadCompactInput
                })
                &&& res.execution_strategy == job.config.execution_strategy
                &&& res.workflow_name@ == workflow_name@
                &&& res.trigger_id@ == trigger_id@
                &&& res.job_name@ == job.name@
            },
            Err(e) => {
                &&& forall|k: int| 0 <= k < job.config.steps@.len() ==> !(#[trigger] job.config.steps@[k] is Prompt)
                &&& e matches WorkflowRunError::Failed(m) && m@ == "workflow `"@ + workflow_name@ + "` job `"@
                    + job.name@ + "` uses `context_strategy: "@ + job.config.context_strategy.name()
                    + "` but has no prompt step"@
            },
        },
{
    let mut i: usize = 0;
    while i < job.config.steps.len()
        invariant
            i <= job.config.steps@.len(),
            forall|j: int| 0 <= j < i ==> !(#[trigger] job.config.steps@[j] is Prompt),
        decreases job.config.steps@.len() - i,
    {
        match &job.config.steps[i] {
            WorkflowStep::Prompt { prompt, .. } => {
                assert(prompt_text(job.config.steps@[i as int]) == Some(prompt@));
                assert(forall|j: int| 0 <= j < i ==> !(#[trigger] job.config.steps@[j] is Prompt));
                let delivery = match job.config.context_strategy {
                    WorkflowContextStrategy::Embed => WorkflowOutputDelivery::MainThreadInput,
                    _ => WorkflowOutputDelivery::MainThreadCompactInput,
                };
                return Ok(WorkflowJobRunResult {
                    delivery,
                    execution_strategy: job.config.execution_strategy,
                    workflow_name: String::from_str(workflow_name),
                    trigger_id: String::from_str(trigger_id),
                    job_name: job.name.clone(),
                    message: Some(prompt.clone()),
                });
            },
            WorkflowStep::Run { .. } => {},
        }
        i = i + 1;
    }
    let mut m = concat3("workflow `", workflow_name, "` job `");
    m.append(job.name.as_str());
    m.append("` uses `context_strategy: ");
    m.append(job.config.context_strategy.as_str());
    m.append("` but has no prompt step");
    Err(WorkflowRunError::Failed(m))
}

/// The outputs a thread-based job has gathered from its steps so far.
pub struct WorkflowJobOutputs {
    pub step_outputs: Vec<String>,
    pub last_prompt_response: Option<String>,
}

impl WorkflowJobOutputs {
    /// No outputs yet.
    pub fn new() -> (r: Self)
        ensures
            r.step_outputs@.len() == 0,
            r.last_prompt_response is None,
    {
        WorkflowJobOutputs { step_outputs: Vec::new(), last_prompt_response: None }
    }

    /// Records the output of a step that produced one; a prompt's output is
    /// also the latest prompt response.
    pub fn record(&mut self, step: &WorkflowStep, output: String)
        ensures
            final(self).step_outputs@ == old(self).step_outputs@.push(output),
            opt_view(final(self).last_prompt_response) == (if step is Prompt {
                Some(output@)
            } else {
                opt_view(old(self).last_prompt_response)
            }),
    {
        match step {
            WorkflowStep::Prompt { .. } => {
                self.last_prompt_response = Some(output.clone());
            },
            WorkflowStep::Run { .. } => {},
        }
        self.step_outputs.push(output);
    }

    /// The result of the job once every step has run: its message is the
    /// latest prompt response, or else every output joined by blank lines,
    /// or none; who delivers it follows the job's response mode.
    pub fn into_result(self, workflow_name: &str, trigger_id: &str, job: &LoadedWorkflowJob) -> (r:
        WorkflowJobRunResult)
        ensures
            opt_view(r.message) == (match self.last_prompt_response {
                Some(m) => Some(m@),
                None => if self.step_outputs@.len() > 0 {
                    Some(join_seq(views(self.step_outputs@), "\n\n"@))
                } else {
                    None
                },
            }),
            r.delivery == (match job.config.response {
                WorkflowResponseMode::Assistant => WorkflowOutputDelivery::AssistantCell,
                WorkflowResponseMode::User => WorkflowOutputDelivery::UserFollowup,
            }),
            r.execution_strategy == job.config.execution_strategy,
            r.workflow_name@ == workflow_name@,
            r.trigger_id@ == trigger_id@,
            r.job_name@ == job.name@,
    {
        let message = match self.last_prompt_response {
            Some(m) => Some(m),
            None => if self.step_outputs.len() > 0 {
                Some(join_strings(self.step_outputs.as_slice(), "\n\n"))
            } else {
                None
            },
        };
        WorkflowJobRunResult {
            delivery: match job.config.response {
                WorkflowResponseMode::Assistant => WorkflowOutputDelivery::AssistantCell,
                WorkflowResponseMode::User => WorkflowOutputDelivery::UserFollowup,
            },
            execution_strategy: job.config.execution_strategy,
            workflow_name: String::from_str(workflow_name),
            trigger_id: String::from_str(trigger_id),
            job_name: job.name.clone(),
            message,
        }
    }
}

/// The attempts of one step: which attempt runs, and whether the extra
/// attempt for a capacity error or for a timeout has been spent.
#[derive(Debug, Clone, Copy, PartialEq, Eq, Structural)]
pub struct WorkflowStepRetryState {
    pub attempt: u32,
    pub used_capacity_retry: bool,
    pub used_timeout_retry: bool,
}

/// Whether a failed attempt is retried: never after a cancellation; while
/// attempts remain; and once more for a capacity error and once more for a
/// timeout, each at most once.
pub open spec fn retry_decision(
    state: WorkflowStepRetryState,
    configured_attempts: u32,
    cancelled: bool,
    capacity: bool,
    timed_out: bool,
) -> bool {
    let retry_capacity = !state.used_capacity_retry && capacity;
    let retry_timeout = !state.used_timeout_retry && timed_out;
    !cancelled && (state.attempt < configured_attempts || retry_capacity || retry_timeout)
}

/// A failed attempt that is not a cancellation is retried whenever
/// configured attempts remain, whatever the error; a cancellation is never
/// retried; and once the configured attempts are used up, only a capacity
/// error or a timeout whose extra attempt is unspent is retried.
pub proof fn lemma_retry_decision_law(
    state: WorkflowStepRetryState,
    configured_attempts: u32,
    cancelled: bool,
    capacity: bool,
    timed_out: bool,
)
    ensures
        !cancelled && state.attempt < configured_attempts ==> retry_decision(
            state,
            configured_attempts,
            cancelled,
            capacity,
            timed_out,
        ),
        cancelled ==> !retry_decision(state, configured_attempts, cancelled, capacity, timed_out),
        state.attempt >= configured_attempts && !(capacity && !state.used_capacity_retry) && !(timed_out
            && !state.used_timeout_retry) ==> !retry_decision(state, configured_attempts, cancelled, capacity, timed_out),
        !cancelled && capacity && !state.used_capacity_retry ==> retry_decision(
            state,
            configured_attempts,
            cancelled,
            capacity,
            timed_out,
        ),
        !cancelled && timed_out && !state.used_timeout_retry ==> retry_decision(
            state,
            configured_attempts,
            cancelled,
            capacity,
            timed_out,
        ),
{
}

impl WorkflowStepRetryState {
    /// The first attempt, with no extra attempt spent.
    pub fn new() -> (r: Self)
        ensures
            r.attempt == 1,
            !r.used_capacity_retry,
            !r.used_timeout_retry,
    {
        WorkflowStepRetryState { attempt: 1, used_capacity_retry: false, used_timeout_retry: false }
    }

    /// After a failed attempt: whether to retry, and the state for the next
    /// attempt. An extra attempt is spent only once the configured attempts
    /// are used up.
    pub fn after_failure(&mut self, configured_attempts: u32, error: &WorkflowRunError) -> (r: bool)
        ensures
            ({
                let capacity = match error {
                    WorkflowRunError::Failed(m) => contains_seq(m@, capacity_error_text()),
                    _ => false,
                };
                let timed_out = error is TimedOut;
                let retry_capacity = !old(self).used_capacity_retry && capacity;
                let retry_timeout = !old(self).used_timeout_retry && timed_out;
                let exhausted = old(self).attempt >= configured_attempts;
                &&& r == retry_decision(*old(self), configured_attempts, error is Cancelled, capacity, timed_out)
                &&& r ==> final(self).attempt == (if old(self).attempt == u32::MAX {
                    u32::MAX as int
                } else {
                    old(self).attempt + 1
                })
                &&& r ==> final(self).used_capacity_retry == (old(self).used_capacity_retry || (exhausted && retry_capacity))
                &&& r ==> final(self).used_timeout_retry == (old(self).used_timeout_retry || (exhausted && retry_timeout))
                &&& !r ==> *final(self) == *old(self)
            }),
    {
        let retry_capacity = !self.used_capacity_retry && should_retry_selected_model_capacity_error(error);
        let retry_timeout = !self.used_timeout_retry && should_retry_workflow_timeout(error);
        let cancelled = match error {
            WorkflowRunError::Cancelled => true,
            _ => false,
        };
        let retry = !cancelled && (self.attempt < configured_attempts || retry_capacity || retry_timeout);
        if retry {
            if self.attempt >= configured_attempts {
                if retry_capacity {
                    self.used_capacity_retry = true;
                }
                if retry_timeout {
                    self.used_timeout_retry = true;
                }
            }
            self.attempt = self.attempt.saturating_add(1);
        }
        retry
    }
}


/// An item of a finished turn, as far as workflows read it: an agent
/// message's text, or anything else.
#[derive(Debug, PartialEq, Eq)]
pub enum WorkflowTurnItem {
    AgentMessage(String),
    Other,
}

/// The message a turn's items leave: the trimmed text of the last item when
/// it is an agent message that is not blank, and nothing otherwise.
pub open spec fn last_agent_message_spec(items: Seq<WorkflowTurnItem>) -> Option<Seq<char>> {
    if items.len() == 0 {
        None
    } else {
        match items.last() {
            WorkflowTurnItem::AgentMessage(text) => nonblank_trimmed(Some(text@)),
            WorkflowTurnItem::Other => None,
        }
    }
}

/// The agent message a turn ended with.
pub fn last_agent_message_for_turn_items(items: &[WorkflowTurnItem]) -> (r: Option<String>)
    ensures
        opt_view(r) == last_agent_message_spec(items@),
{
    let n = items.len();
    if n == 0 {
        return None;
    }
    match &items[n - 1] {
        WorkflowTurnItem::AgentMessage(text) => {
            let trimmed = trim_str(text.as_str());
            if trimmed.unicode_len() > 0 {
                Some(String::from_str(trimmed))
            } else {
                None
            }
        },
        WorkflowTurnItem::Other => None,
    }
}

/// Keeps the latest non-blank agent message of a running turn.
pub fn update_last_workflow_agent_message(last_agent_message: &mut Option<String>, item: &WorkflowTurnItem)
    ensures
        opt_view(*final(last_agent_message)) == (match item {
            WorkflowTurnItem::AgentMessage(text) => match nonblank_trimmed(Some(text@)) {
                Some(t) => Some(t),
                None => opt_view(*old(last_agent_message)),
            },
            WorkflowTurnItem::Other => opt_view(*old(last_agent_message)),
        }),
{
    match item {
        WorkflowTurnItem::AgentMessage(text) => {
            let trimmed = trim_str(text.as_str());
            if trimmed.unicode_len() > 0 {
                *last_agent_message = Some(String::from_str(trimmed));
            }
        },
        WorkflowTurnItem::Other => {},
    }
}


/// Only defined jobs run, and a disabled job runs only as a root of a run
/// that runs its roots regardless.
pub proof fn lemma_planned_jobs_are_enabled(
    jobs: Seq<LoadedWorkflowJob>,
    ordered: Seq<Seq<char>>,
    roots: Seq<Seq<char>>,
    run_roots: bool,
    n: nat,
)
    requires
        n <= ordered.len(),
    ensures
        forall|k: int| 0 <= k < plan_prefix(jobs, ordered, roots, run_roots, n).runs.len() ==> {
            let x = #[trigger] plan_prefix(jobs, ordered, roots, run_roots, n).runs[k];
            &&& has_job(nodes(jobs), x)
            &&& (job_named(jobs, x).config.enabled || (run_roots && roots.contains(x)))
        },
    decreases n,
{
    if n > 0 {
        lemma_planned_jobs_are_enabled(jobs, ordered, roots, run_roots, (n - 1) as nat);
        let prev = plan_prefix(jobs, ordered, roots, run_roots, (n - 1) as nat);
        let cur = plan_prefix(jobs, ordered, roots, run_roots, n);
        assert forall|k: int| 0 <= k < cur.runs.len() implies {
            let x = #[trigger] cur.runs[k];
            &&& has_job(nodes(jobs), x)
            &&& (job_named(jobs, x).config.enabled || (run_roots && roots.contains(x)))
        } by {
            if k < prev.runs.len() {
                assert(cur.runs[k] == prev.runs[k]);
            }
        }
    }
}

/// A failed attempt is never retried after a cancellation.
pub proof fn lemma_cancelled_step_is_not_retried(
    state: WorkflowStepRetryState,
    configured_attempts: u32,
    capacity: bool,
    timed_out: bool,
)
    ensures
        !retry_decision(state, configured_attempts, true, capacity, timed_out),
{
}

/// Once its configured attempts are used up and both extra attempts are
/// spent, a step is not retried again.
pub proof fn lemma_retries_run_out(
    state: WorkflowStepRetryState,
    configured_attempts: u32,
    cancelled: bool,
    capacity: bool,
    timed_out: bool,
)
    requires
        state.attempt >= configured_attempts,
        state.used_capacity_retry,
        state.used_timeout_retry,
    ensures
        !retry_decision(state, configured_attempts, cancelled, capacity, timed_out),
{
}

/// What a workflow turn came to: its status, its error, and the agent
/// message it left.
#[derive(Debug, PartialEq, Eq)]
pub struct WorkflowTurnState {
    pub status: TurnStatus,
    pub error: Option<String>,
    pub last_agent_message: Option<String>,
}

/// A turn as the server reports it.
#[derive(Debug, PartialEq, Eq)]
pub struct WorkflowTurnRecord {
    pub id: String,
    pub status: TurnStatus,
    pub error: Option<String>,
    pub items: Vec<WorkflowTurnItem>,
}

/// A notification seen while waiting for a workflow turn.
#[derive(Debug, PartialEq, Eq)]
pub enum WorkflowTurnNotification {
    ItemCompleted { thread_id: String, turn_id: String, item: WorkflowTurnItem },
    TurnCompleted { thread_id: String, turn: WorkflowTurnRecord },
    Other,
}

/// What waiting for a workflow turn does next.
#[derive(Debug, PartialEq, Eq)]
pub enum WorkflowTurnRead {
    /// The turn is over.
    Done(WorkflowTurnState),
    /// Not yet: wait a poll interval and read again.
    Wait,
    /// Reading failed for good.
    Failed(String),
}

/// A thread read failed in a way that only means the turns cannot be read
/// yet: the thread has no user message yet, or is ephemeral.
pub open spec fn read_error_is_transient(message: Seq<char>) -> bool {
    contains_seq(message, "includeTurns is unavailable before first user message"@)
        || contains_seq(message, "ephemeral threads do not support includeTurns"@)
}

/// Waits for turn `turn_id` of thread `thread_id`: it follows the
/// notifications of the thread and, between them, reads its turns, keeping
/// the last agent message that was not blank.
#[derive(Debug, PartialEq, Eq)]
pub struct WorkflowTurnReader {
    pub thread_id: String,
    pub turn_id: String,
    pub last_agent_message: Option<String>,
}

impl WorkflowTurnReader {
    /// A reader that has seen nothing yet.
    pub fn new(thread_id: String, turn_id: String) -> (r: Self)
        ensures
            r.thread_id == thread_id,
            r.turn_id == turn_id,
            r.last_agent_message is None,
    {
        WorkflowTurnReader { thread_id, turn_id, last_agent_message: None }
    }

    /// A notification: an agent message of the turn is kept; the turn's
    /// completion ends the wait, with the message kept, else the one its
    /// items end with. Notifications of other turns change nothing.
    pub fn on_notification(&mut self, n: WorkflowTurnNotification) -> (r: Option<WorkflowTurnState>)
        ensures
            final(self).thread_id == old(self).thread_id,
            final(self).turn_id == old(self).turn_id,
            match n {
                WorkflowTurnNotification::ItemCompleted { thread_id, turn_id, item } => {
                    &&& r is None
                    &&& opt_view(final(self).last_agent_message) == (if thread_id@ == old(self).thread_id@ && turn_id@ == old(self).turn_id@ {
                        match item {
                            WorkflowTurnItem::AgentMessage(text) => match nonblank_trimmed(Some(text@)) {
                                Some(t) => Some(t),
                                None => opt_view(old(self).last_agent_message),
                            },
                            WorkflowTurnItem::Other => opt_view(old(self).last_agent_message),
                        }
                    } else {
                        opt_view(old(self).last_agent_message)
                    })
                },
                WorkflowTurnNotification::TurnCompleted { thread_id, turn } => {
                    &&& opt_view(final(self).last_agent_message) == opt_view(old(self).last_agent_message)
                    &&& if thread_id@ == old(self).thread_id@ && turn.id@ == old(self).turn_id@ {
                        r matches Some(st) && st.status == turn.status && opt_view(st.error) == opt_view(turn.error)
                            && opt_view(st.last_agent_message) == (match old(self).last_agent_message {
                                Some(m) => Some(m@),
                                None => last_agent_message_spec(turn.items@),
                            })
                    } else {
                        r is None
                    }
                },
                WorkflowTurnNotification::Other => r is None && opt_view(final(self).last_agent_message) == opt_view(
                    old(self).last_agent_message,
                ),
            },
    {
        match n {
            WorkflowTurnNotification::ItemCompleted { thread_id, turn_id, item } => {
                if crate::text::str_eq(thread_id.as_str(), self.thread_id.as_str())
                    && crate::text::str_eq(turn_id.as_str(), self.turn_id.as_str()) {
                    update_last_workflow_agent_message(&mut self.last_agent_message, &item);
                }
                None
            },
            WorkflowTurnNotification::TurnCompleted { thread_id, turn } => {
                if crate::text::str_eq(thread_id.as_str(), self.thread_id.as_str())
                    && crate::text::str_eq(turn.id.as_str(), self.turn_id.as_str()) {
                    let last = match &self.last_agent_message {
                        Some(m) => Some(m.clone()),
                        None => last_agent_message_for_turn_items(turn.items.as_slice()),
                    };
                    Some(WorkflowTurnState { status: turn.status, error: turn.error, last_agent_message: last })
                } else {
                    None
                }
            },
            WorkflowTurnNotification::Other => None,
        }
    }

    /// A thread read failed with `message`: wait and read again where the
    /// turns cannot be read yet, else give up.
    pub fn on_read_error(&self, message: &str) -> (r: WorkflowTurnRead)
        ensures
            if read_error_is_transient(message@) {
                r is Wait
            } else {
                r matches WorkflowTurnRead::Failed(e) && e@ == "failed to read workflow turn `"@ + self.turn_id@ + "`: "@ + message@
            },
    {
        if contains_text(message, "includeTurns is unavailable before first user message")
            || contains_text(message, "ephemeral threads do not support includeTurns") {
            WorkflowTurnRead::Wait
        } else {
            let mut e = concat3("failed to read workflow turn `", self.turn_id.as_str(), "`: ");
            e.append(message);
            WorkflowTurnRead::Failed(e)
        }
    }

    /// A thread read gave `turns`: the first with the turn's id is read; its
    /// items' agent message, where there is one, is kept; the wait ends
    /// once it is no longer in progress. Without it, the wait goes on.
    pub fn on_read_turns(&mut self, turns: Vec<WorkflowTurnRecord>) -> (r: WorkflowTurnRead)
        ensures
            final(self).thread_id == old(self).thread_id,
            final(self).turn_id == old(self).turn_id,
            match first_turn_index(turns@, old(self).turn_id@) {
                None => r is Wait && opt_view(final(self).last_agent_message) == opt_view(old(self).last_agent_message),
                Some(k) => {
                    let t = turns@[k];
                    let kept = match last_agent_message_spec(t.items@) {
                        Some(m) => Some(m),
                        None => opt_view(old(self).last_agent_message),
                    };
                    &&& opt_view(final(self).last_agent_message) == kept
                    &&& if t.status == TurnStatus::InProgress {
                        r is Wait
                    } else {
                        r matches WorkflowTurnRead::Done(st) && st.status == t.status && opt_view(st.error) == opt_view(t.error)
                            && opt_view(st.last_agent_message) == kept
                    }
                },
            },
    {
        let mut i: usize = 0;
        while i < turns.len()
            invariant
                i <= turns@.len(),
                forall|j: int| 0 <= j < i ==> #[trigger] turns@[j].id@ != self.turn_id@,
            ensures
                i <= turns@.len(),
                i < turns@.len() ==> turns@[i as int].id@ == self.turn_id@,
            decreases turns@.len() - i,
        {
            if crate::text::str_eq(turns[i].id.as_str(), self.turn_id.as_str()) {
                break;
            }
            i = i + 1;
        }
        proof {
            lemma_first_turn_index(turns@, self.turn_id@, i as int);
        }
        if i == turns.len() {
            return WorkflowTurnRead::Wait;
        }
        let t = &turns[i];
        match last_agent_message_for_turn_items(t.items.as_slice()) {
            Some(m) => {
                self.last_agent_message = Some(m);
            },
            None => {},
        }
        if t.status == TurnStatus::InProgress {
            WorkflowTurnRead::Wait
        } else {
            WorkflowTurnRead::Done(WorkflowTurnState {
                status: t.status,
                error: crate::text::copy_opt_string(&t.error),
                last_agent_message: crate::text::copy_opt_string(&self.last_agent_message),
            })
        }
    }
}

/// The position of the first of `turns` with the id `id`.
pub open spec fn first_turn_index(turns: Seq<WorkflowTurnRecord>, id: Seq<char>) -> Option<int>
    decreases turns.len(),
{
    if turns.len() == 0 {
        None
    } else if turns[0].id@ == id {
        Some(0)
    } else {
        match first_turn_index(turns.drop_first(), id) {
            Some(k) => Some(k + 1),
            None => None,
        }
    }
}

/// No turn before `i` has the id `id`: the first with it is at `i` when
/// `turns[i]` has it, and there is none when `i` is the end.
pub proof fn lemma_first_turn_index(turns: Seq<WorkflowTurnRecord>, id: Seq<char>, i: int)
    requires
        0 <= i <= turns.len(),
        forall|j: int| 0 <= j < i ==> #[trigger] turns[j].id@ != id,
        i < turns.len() ==> turns[i].id@ == id,
    ensures
        first_turn_index(turns, id) == (if i < turns.len() {
            Some(i)
        } else {
            None
        }),
    decreases i,
{
    if i > 0 {
        assert(turns[0].id@ != id);
        let rest = turns.drop_first();
        assert forall|j: int| 0 <= j < i - 1 implies #[trigger] rest[j].id@ != id by {
            assert(rest[j] == turns[j + 1]);
        }
        if i < turns.len() {
            assert(rest[i - 1] == turns[i]);
        }
        lemma_first_turn_index(rest, id, i - 1);
    }
}

/// A part of a written duration: `value` followed by `unit`, with an `s`
/// when `plural` units are more than one; nothing for a zero value.
pub open spec fn duration_part(value: nat, unit: Seq<char>, plural: bool) -> Seq<Seq<char>> {
    if value == 0 {
        Seq::empty()
    } else {
        seq![crate::text::decimal_seq(value) + unit + if plural && value > 1 { "s"@ } else { Seq::empty() }]
    }
}

/// The parts of a duration as humantime writes them, largest first: years
/// of 365.25 days, months of 30.44 days, days, hours, minutes, seconds,
/// milliseconds, microseconds and nanoseconds; zero parts left out.
pub open spec fn duration_parts(d: WorkflowDuration) -> Seq<Seq<char>> {
    let secs = d.secs as nat;
    let nanos = d.nanos as nat;
    let ydays = secs % 31_557_600;
    let mdays = ydays % 2_630_016;
    let day_secs = mdays % 86400;
    duration_part(secs / 31_557_600, "year"@, true) + duration_part(ydays / 2_630_016, "month"@, true)
        + duration_part(mdays / 86400, "day"@, true) + duration_part(day_secs / 3600, "h"@, false)
        + duration_part(day_secs % 3600 / 60, "m"@, false) + duration_part(day_secs % 60, "s"@, false)
        + duration_part(nanos / 1_000_000, "ms"@, false) + duration_part(nanos / 1000 % 1000, "us"@, false)
        + duration_part(nanos % 1000, "ns"@, false)
}

/// What `humantime::format_duration` writes for `d`: `0s` for nothing, else
/// its parts separated by spaces.
pub open spec fn humantime_format(d: WorkflowDuration) -> Seq<char> {
    if d.secs == 0 && d.nanos == 0 {
        "0s"@
    } else {
        crate::text::join_seq(duration_parts(d), " "@)
    }
}

/// Calls `humantime::format_duration` and writes the result with its
/// `Display`. The contract claims that the text is `humantime_format` of the
/// duration, as that `Display` writes it (without the crate's `mu` feature,
/// which this crate does not turn on, microseconds read `us`).
#[verifier::external_body]
fn format_duration_text(d: WorkflowDuration) -> (r: String)
    requires
        d.nanos < 1_000_000_000,
    ensures
        r@ == humantime_format(d),
{
    humantime::format_duration(std::time::Duration::new(d.secs, d.nanos)).to_string()
}

/// The error of a prompt step that ran out of its time `timeout`.
pub fn workflow_prompt_timeout(timeout: WorkflowDuration) -> (r: WorkflowRunError)
    requires
        timeout.nanos < 1_000_000_000,
    ensures
        r matches WorkflowRunError::TimedOut(m) && m@ == "workflow prompt timed out after "@ + humantime_format(timeout),
{
    let shown = format_duration_text(timeout);
    WorkflowRunError::TimedOut(concat2("workflow prompt timed out after ", shown.as_str()))
}

/// The error of a command step `command` that ran out of its time `timeout`.
pub fn workflow_command_timeout(command: &str, timeout: WorkflowDuration) -> (r: WorkflowRunError)
    requires
        timeout.nanos < 1_000_000_000,
    ensures
        r matches WorkflowRunError::TimedOut(m)
            && m@ == "workflow command `"@ + command@ + "` timed out after "@ + humantime_format(timeout),
{
    let shown = format_duration_text(timeout);
    let mut m = concat3("workflow command `", command, "` timed out after ");
    m.append(shown.as_str());
    WorkflowRunError::TimedOut(m)
}

/// The error when compacting a workflow thread took longer than `timeout`.
pub fn workflow_compaction_timeout(timeout: WorkflowDuration) -> (r: String)
    requires
        timeout.nanos < 1_000_000_000,
    ensures
        r@ == "workflow thread compaction timed out after "@ + humantime_format(timeout),
{
    let shown = format_duration_text(timeout);
    concat2("workflow thread compaction timed out after ", shown.as_str())
}

/// What a prompt step makes of the state its turn ended in: its agent
/// message when it completed, a cancellation when it was interrupted, the
/// turn's error when it failed; `None` while it is still in progress.
pub fn workflow_prompt_outcome(state: WorkflowTurnState) -> (r: Option<Result<Option<String>, WorkflowRunError>>)
    ensures
        match state.status {
            TurnStatus::Completed => r matches Some(Ok(m)) && opt_view(m) == opt_view(state.last_agent_message),
            TurnStatus::Interrupted => r matches Some(Err(e)) && e is Cancelled,
            TurnStatus::Failed => r matches Some(Err(WorkflowRunError::Failed(m))) && m@ == (match state.error {
                Some(e) => e@,
                None => "workflow prompt turn failed"@,
            }),
            TurnStatus::InProgress => r is None,
        },
{
    match state.status {
        TurnStatus::Completed => Some(Ok(state.last_agent_message)),
        TurnStatus::Interrupted => Some(Err(WorkflowRunError::Cancelled)),
        TurnStatus::Failed => Some(Err(WorkflowRunError::Failed(match state.error {
            Some(e) => e,
            None => String::from_str("workflow prompt turn failed"),
        }))),
        TurnStatus::InProgress => None,
    }
}

/// The text a command leaves: its standard output, then its error output
/// on a line of its own, trimmed.
pub open spec fn command_output_spec(stdout: Seq<char>, stderr: Seq<char>) -> Seq<char> {
    let joined = if stderr.len() == 0 {
        stdout
    } else if stdout.len() > 0 && stdout.last() != '\n' {
        stdout + "\n"@ + stderr
    } else {
        stdout + stderr
    };
    trim_seq(joined)
}

/// What a command step `command` comes to, given whether it exited
/// successfully, its exit status as shown, and its outputs: on success its
/// text when not empty; else an error that names the status, and the
/// text when there is one.
pub fn workflow_command_result(
    command: &str,
    success: bool,
    status: &str,
    stdout: &str,
    stderr: &str,
) -> (r: Result<Option<String>, WorkflowRunError>)
    ensures
        ({
            let text = command_output_spec(stdout@, stderr@);
            if success {
                r matches Ok(o) && opt_view(o) == (if text.len() > 0 {
                    Some(text)
                } else {
                    None
                })
            } else {
                r matches Err(WorkflowRunError::Failed(m)) && m@ == (if text.len() > 0 {
                    "workflow command `"@ + command@ + "` failed with status "@ + status@ + ": "@ + text
                } else {
                    "workflow command `"@ + command@ + "` failed with status "@ + status@
                })
            }
        }),
{
    proof {
        reveal_strlit("\n");
    }
    let mut joined = String::from_str(stdout);
    if stderr.unicode_len() > 0 {
        let n = stdout.unicode_len();
        if n > 0 && stdout.get_char(n - 1) != '\n' {
            joined.append("\n");
        }
        joined.append(stderr);
    }
    let text = trim_str(joined.as_str());
    proof {
        assert(joined@ =~= (if stderr@.len() == 0 {
            stdout@
        } else if stdout@.len() > 0 && stdout@.last() != '\n' {
            stdout@ + "\n"@ + stderr@
        } else {
            stdout@ + stderr@
        }));
    }
    if !success {
        let mut m = concat3("workflow command `", command, "` failed with status ");
        m.append(status);
        if text.unicode_len() > 0 {
            m.append(": ");
            m.append(text);
        }
        return Err(WorkflowRunError::Failed(m));
    }
    if text.unicode_len() > 0 {
        Ok(Some(String::from_str(text)))
    } else {
        Ok(None)
    }
}

} // verus!
