//! Builds the registry of workflows from parsed workflow files, checking
//! every rule a workflow file must follow.
use vstd::prelude::*;
use crate::workflow_scheduler::{lemma_insert_sorted, sorted_insert_position, sorted_strings};
use vstd::string::*;
use crate::text::{
    views, opt_view, trim_seq, trim_str, decimal_seq, decimal_string, concat3, seq_lt, string_lt,
    lemma_seq_lt_trichotomy, lemma_seq_lt_transitive, lemma_views_push,
};
use crate::workflow_definition::{
    WorkflowDefinitionError, WorkflowContextStrategy, WorkflowStep, WorkflowJobConfig,
    WorkflowTriggerKind, WorkflowDuration, LoadedWorkflowJob, LoadedWorkflowTrigger,
    LoadedWorkflowFile, LoadedWorkflowRegistry, JobNode, job_node, nodes, has_job, jobs_unique,
    same_nodes, before_turn_ok, before_turn_triggers_ok, humantime_duration, step_timeout_spec,
    contains_string, find_job, validate_before_turn_context_strategies,
    lemma_same_nodes_before_turn, lemma_same_nodes_before_turn_error, lemma_same_nodes_edges,
    before_turn_error,
};

verus! {

/// A job entry of a workflow file, under its key as written.
#[derive(Debug, PartialEq, Eq)]
pub struct WorkflowJobEntry {
    pub name: String,
    pub config: WorkflowJobConfig,
}

/// A trigger as a workflow file writes it.
#[derive(Debug, PartialEq, Eq)]
pub struct WorkflowTriggerConfig {
    pub id: Option<String>,
    pub enabled: bool,
    pub jobs: Vec<String>,
    pub kind: WorkflowTriggerKind,
}

/// The content of a workflow file.
#[derive(Debug, PartialEq, Eq)]
pub struct WorkflowFile {
    pub name: String,
    pub triggers: Vec<WorkflowTriggerConfig>,
    pub jobs: Vec<WorkflowJobEntry>,
}

/// A workflow file and the path it was read from.
#[derive(Debug, PartialEq, Eq)]
pub struct ParsedWorkflowFile {
    pub path: String,
    pub file: WorkflowFile,
}

/// The timeout a step uses when it sets none.
pub open spec fn default_step_timeout() -> WorkflowDuration {
    WorkflowDuration { secs: 30, nanos: 0 }
}

/// The step's timeout, if it sets one, parses.
pub open spec fn step_ok(st: WorkflowStep) -> bool {
    step_timeout_spec(opt_view(st.timeout_text()), default_step_timeout()) is Ok
}

/// Some step runs a command.
pub open spec fn has_run_step(steps: Seq<WorkflowStep>) -> bool {
    exists|k: int| 0 <= k < steps.len() && #[trigger] steps[k] is Run
}

/// The rules a job's own definition follows: a name, at least one step,
/// valid timeouts, and no command steps in an embedded context.
pub open spec fn job_entry_ok(e: WorkflowJobEntry) -> bool {
    &&& trim_seq(e.name@).len() > 0
    &&& e.config.steps@.len() > 0
    &&& forall|k: int| 0 <= k < e.config.steps@.len() ==> step_ok(#[trigger] e.config.steps@[k])
    &&& !(e.config.context_strategy.is_embed() && has_run_step(e.config.steps@))
}

/// The id a trigger gets: its own, or `trigger-N` for the N-th trigger.
pub open spec fn settled_trigger_id(t: WorkflowTriggerConfig, index: int) -> Seq<char> {
    match t.id {
        Some(id) => id@,
        None => "trigger-"@ + decimal_seq((index + 1) as nat),
    }
}

/// The job keys of a file as written.
pub open spec fn raw_job_keys(f: WorkflowFile) -> Seq<Seq<char>> {
    f.jobs@.map_values(|e: WorkflowJobEntry| e.name@)
}

/// A trigger names at least one job, each a job key of its file.
pub open spec fn trigger_refs_ok(keys: Seq<Seq<char>>, t: WorkflowTriggerConfig) -> bool {
    &&& t.jobs@.len() > 0
    &&& forall|k: int| 0 <= k < t.jobs@.len() ==> keys.contains(#[trigger] t.jobs@[k]@)
}

/// The triggers of a file reference its jobs and have distinct ids.
pub open spec fn triggers_ok(keys: Seq<Seq<char>>, ts: Seq<WorkflowTriggerConfig>) -> bool {
    &&& forall|i: int| 0 <= i < ts.len() ==> trigger_refs_ok(keys, #[trigger] ts[i])
    &&& forall|i: int, j: int|
        0 <= i < j < ts.len() ==> settled_trigger_id(#[trigger] ts[i], i) != settled_trigger_id(
            #[trigger] ts[j],
            j,
        )
}

/// A loaded trigger is the `index`-th trigger of a file with its id settled.
pub open spec fn loaded_trigger_matches(
    lt: LoadedWorkflowTrigger,
    t: WorkflowTriggerConfig,
    index: int,
) -> bool {
    &&& lt.id@ == settled_trigger_id(t, index)
    &&& lt.enabled == t.enabled
    &&& lt.jobs == t.jobs
    &&& lt.kind == t.kind
}

/// The graph node of a job entry defined at position `def`.
pub open spec fn entry_node(e: WorkflowJobEntry, def: int) -> JobNode {
    JobNode {
        name: trim_seq(e.name@),
        needs: views(e.config.needs@),
        def,
        context: e.config.context_strategy,
    }
}

/// The nodes of a file's jobs, numbered from `offset`.
pub open spec fn file_nodes(f: WorkflowFile, offset: int) -> Seq<JobNode> {
    f.jobs@.map(|i: int, e: WorkflowJobEntry| entry_node(e, offset + i))
}

/// The nodes of the jobs of `files`, in file order, numbered from `offset`.
pub open spec fn graph_from(files: Seq<ParsedWorkflowFile>, offset: int) -> Seq<JobNode>
    decreases files.len(),
{
    if files.len() == 0 {
        Seq::empty()
    } else {
        file_nodes(files[0].file, offset) + graph_from(
            files.drop_first(),
            offset + files[0].file.jobs@.len(),
        )
    }
}

/// The nodes of every job of `files`, each numbered by its position.
pub open spec fn entry_graph(files: Seq<ParsedWorkflowFile>) -> Seq<JobNode> {
    graph_from(files, 0)
}

/// The name of a workflow file, trimmed.
pub open spec fn workflow_name_of(pf: ParsedWorkflowFile) -> Seq<char> {
    trim_seq(pf.file.name@)
}

/// Every rule the workflow files must follow together.
pub open spec fn workflow_files_valid(files: Seq<ParsedWorkflowFile>) -> bool {
    let g = entry_graph(files);
    &&& forall|f: int| 0 <= f < files.len() ==> workflow_name_of(#[trigger] files[f]).len() > 0
    &&& forall|f1: int, f2: int|
        0 <= f1 < f2 < files.len() ==> workflow_name_of(#[trigger] files[f1]) != workflow_name_of(
            #[trigger] files[f2],
        )
    &&& forall|f: int, e: int|
        0 <= f < files.len() && 0 <= e < files[f].file.jobs@.len() ==> job_entry_ok(
            #[trigger] files[f].file.jobs@[e],
        )
    &&& forall|i: int, j: int| 0 <= i < j < g.len() ==> #[trigger] g[i].name != #[trigger] g[j].name
    &&& forall|f: int|
        0 <= f < files.len() ==> triggers_ok(raw_job_keys(#[trigger] files[f].file), files[f].file.triggers@)
    &&& forall|k: int, m: int|
        0 <= k < g.len() && 0 <= m < g[k].needs.len() ==> has_job(g, #[trigger] g[k].needs[m])
    &&& forall|f: int, t: int|
        0 <= f < files.len() && 0 <= t < files[f].file.triggers@.len()
            && #[trigger] files[f].file.triggers@[t].kind is BeforeTurn ==> before_turn_ok(
            g,
            views(files[f].file.triggers@[t].jobs@),
        )
}

/// The jobs are in strictly increasing name order.
pub open spec fn jobs_sorted(jobs: Seq<LoadedWorkflowJob>) -> bool {
    forall|i: int, j: int| 0 <= i < j < jobs.len() ==> seq_lt(#[trigger] jobs[i].name@, #[trigger] jobs[j].name@)
}

/// A loaded file is a parsed file with its name trimmed and trigger ids settled.
pub open spec fn loaded_file_matches(lf: LoadedWorkflowFile, pf: ParsedWorkflowFile) -> bool {
    &&& lf.name@ == workflow_name_of(pf)
    &&& lf.source_path == pf.path
    &&& lf.triggers@.len() == pf.file.triggers@.len()
    &&& forall|t: int|
        0 <= t < lf.triggers@.len() ==> loaded_trigger_matches(
            #[trigger] lf.triggers@[t],
            pf.file.triggers@[t],
            t,
        )
}

/// `job` is loaded from entry `q` of the file `pf`: named by the entry's
/// trimmed key, under the file's trimmed workflow name and path, with the
/// entry's configuration.
pub open spec fn job_loaded_from(job: LoadedWorkflowJob, pf: ParsedWorkflowFile, q: int) -> bool {
    &&& 0 <= q < pf.file.jobs@.len()
    &&& job.name@ == trim_seq(pf.file.jobs@[q].name@)
    &&& job.workflow_name@ == workflow_name_of(pf)
    &&& job.workflow_path == pf.path
    &&& job.config == pf.file.jobs@[q].config
}

/// `job` is loaded from an entry of one of `files`.
pub open spec fn job_from_files(job: LoadedWorkflowJob, files: Seq<ParsedWorkflowFile>) -> bool {
    exists|f: int, q: int| 0 <= f < files.len() && #[trigger] job_loaded_from(job, files[f], q)
}

/// Every job of `jobs` is loaded from an entry of one of `files`.
pub open spec fn jobs_from_files(jobs: Seq<LoadedWorkflowJob>, files: Seq<ParsedWorkflowFile>) -> bool {
    forall|k: int| 0 <= k < jobs.len() ==> #[trigger] job_from_files(jobs[k], files)
}

/// The trimmed key of entry `q` of the file `pf`.
pub open spec fn entry_key(pf: ParsedWorkflowFile, q: int) -> Seq<char> {
    trim_seq(pf.file.jobs@[q].name@)
}

/// Entry `q2` of file `f2` comes before entry `q` of file `f`.
pub open spec fn entry_before(f2: int, q2: int, f: int, q: int) -> bool {
    f2 < f || (f2 == f && q2 < q)
}

/// An entry of `files` before entry `q` of file `f` has its key.
pub open spec fn has_earlier_entry(files: Seq<ParsedWorkflowFile>, f: int, q: int) -> bool {
    exists|f2: int, q2: int| 0 <= f2 < files.len() && 0 <= q2 < files[f2].file.jobs@.len()
        && entry_before(f2, q2, f, q) && #[trigger] entry_key(files[f2], q2) == entry_key(files[f], q)
}

/// File `f` has a name, and none of the files before it has that name.
pub open spec fn header_ok(files: Seq<ParsedWorkflowFile>, f: int) -> bool {
    &&& workflow_name_of(files[f]).len() > 0
    &&& forall|f1: int| 0 <= f1 < f ==> workflow_name_of(#[trigger] files[f1]) != workflow_name_of(files[f])
}

/// Entry `q` of file `f` is valid and its key is new.
pub open spec fn entry_ok_at(files: Seq<ParsedWorkflowFile>, f: int, q: int) -> bool {
    &&& job_entry_ok(files[f].file.jobs@[q])
    &&& !has_earlier_entry(files, f, q)
}

/// The first `n` entries of file `f` are valid, their keys new.
pub open spec fn entries_ok_before(files: Seq<ParsedWorkflowFile>, f: int, n: int) -> bool {
    forall|q: int| 0 <= q < n ==> #[trigger] entry_ok_at(files, f, q)
}

/// File `f` on its own is valid: its name, its entries and its triggers.
pub open spec fn file_ok(files: Seq<ParsedWorkflowFile>, f: int) -> bool {
    &&& header_ok(files, f)
    &&& entries_ok_before(files, f, files[f].file.jobs@.len() as int)
    &&& triggers_ok(raw_job_keys(files[f].file), files[f].file.triggers@)
}

/// The first `n` files on their own are valid.
pub open spec fn files_ok_before(files: Seq<ParsedWorkflowFile>, n: int) -> bool {
    forall|f: int| 0 <= f < n ==> #[trigger] file_ok(files, f)
}

/// Every job needs only jobs that some file defines.
pub open spec fn needs_defined(files: Seq<ParsedWorkflowFile>) -> bool {
    let g = entry_graph(files);
    forall|k: int, m: int| 0 <= k < g.len() && 0 <= m < g[k].needs.len() ==> has_job(g, #[trigger] g[k].needs[m])
}

/// The message for a job `job` of workflow `workflow` that needs `dep`,
/// which no workflow defines.
pub open spec fn missing_dependency_message(workflow: Seq<char>, job: Seq<char>, dep: Seq<char>) -> Seq<char> {
    "workflow `"@ + workflow + "` job `"@ + job + "` references missing dependency `"@ + dep + "`"@
}

/// Whether `m` is the error that building the registry from `files` fails
/// with: the first file, in order, that is not valid on its own fails with
/// its first error (its name missing, or used by an earlier file; then its
/// entries in order: a key missing, used by an earlier entry, or the job's
/// steps; then its triggers); where every file is valid on its own, a job
/// needing a job that no file defines; and then a `before_turn` trigger
/// that cannot run.
pub open spec fn registry_error(files: Seq<ParsedWorkflowFile>, m: Seq<char>) -> bool {
    ||| exists|f: int| 0 <= f < files.len() && files_ok_before(files, f)
        && workflow_name_of(#[trigger] files[f]).len() == 0
        && m == "workflow file `"@ + files[f].path@ + "` must define a non-empty `name`"@
    ||| exists|f1: int, f2: int| 0 <= f1 < f2 < files.len() && files_ok_before(files, f2)
        && workflow_name_of(files[f2]).len() > 0
        && workflow_name_of(#[trigger] files[f1]) == workflow_name_of(#[trigger] files[f2])
        && m == "duplicate workflow name `"@ + workflow_name_of(files[f2]) + "` detected in `"@ + files[f2].path@ + "`"@
    ||| exists|f: int, q: int| 0 <= f < files.len() && 0 <= q < files[f].file.jobs@.len()
        && files_ok_before(files, f) && header_ok(files, f) && entries_ok_before(files, f, q)
        && (#[trigger] entry_key(files[f], q)).len() == 0
        && m == "workflow `"@ + workflow_name_of(files[f]) + "` in `"@ + files[f].path@ + "` contains an empty job name"@
    ||| exists|f: int, q: int| 0 <= f < files.len() && 0 <= q < files[f].file.jobs@.len()
        && files_ok_before(files, f) && header_ok(files, f) && entries_ok_before(files, f, q)
        && entry_key(files[f], q).len() > 0 && has_earlier_entry(files, f, q)
        && m == "duplicate job name `"@ + #[trigger] entry_key(files[f], q) + "` detected while loading `"@ + files[f].path@ + "`"@
    ||| exists|f: int, q: int| 0 <= f < files.len() && 0 <= q < files[f].file.jobs@.len()
        && files_ok_before(files, f) && header_ok(files, f) && entries_ok_before(files, f, q)
        && entry_key(files[f], q).len() > 0 && !has_earlier_entry(files, f, q)
        && job_steps_error(workflow_name_of(files[f]), #[trigger] entry_key(files[f], q), files[f].path@,
            files[f].file.jobs@[q].config, m)
    ||| exists|f: int| 0 <= f < files.len() && files_ok_before(files, f) && header_ok(files, f)
        && entries_ok_before(files, f, files[f].file.jobs@.len() as int)
        && trigger_error(workflow_name_of(#[trigger] files[f]), files[f].path@,
        files[f].file.triggers@, raw_job_keys(files[f].file), m)
    ||| files_ok_before(files, files.len() as int) && exists|f: int, q: int, d: int| 0 <= f < files.len() && 0 <= q < files[f].file.jobs@.len()
        && 0 <= d < files[f].file.jobs@[q].config.needs@.len()
        && !has_job(entry_graph(files), files[f].file.jobs@[q].config.needs@[d]@)
        && m == #[trigger] missing_dependency_message(workflow_name_of(files[f]), entry_key(files[f], q),
            files[f].file.jobs@[q].config.needs@[d]@)
    ||| files_ok_before(files, files.len() as int) && needs_defined(files) && exists|f: int, t: int|
        0 <= f < files.len() && 0 <= t < files[f].file.triggers@.len()
        && #[trigger] files[f].file.triggers@[t].kind is BeforeTurn
        && before_turn_error(entry_graph(files), views(files[f].file.triggers@[t].jobs@), workflow_name_of(files[f]),
            settled_trigger_id(files[f].file.triggers@[t], t), m)
}

/// The key of every entry of `fs` before entry `q` of file `f` names a job of `jobs`.
pub open spec fn earlier_keys_loaded(jobs: Seq<LoadedWorkflowJob>, fs: Seq<ParsedWorkflowFile>, f: int, q: int) -> bool {
    forall|f2: int, q2: int| 0 <= f2 < fs.len() && 0 <= q2 < fs[f2].file.jobs@.len() && entry_before(f2, q2, f, q)
        ==> has_job(nodes(jobs), #[trigger] entry_key(fs[f2], q2))
}

/// Inserting the job loaded from entry `q` of file `f` keeps the keys of the
/// entries before it, and adds its own.
proof fn lemma_earlier_keys_insert(
    before: Seq<LoadedWorkflowJob>,
    after: Seq<LoadedWorkflowJob>,
    p: int,
    job: LoadedWorkflowJob,
    fs: Seq<ParsedWorkflowFile>,
    f: int,
    q: int,
)
    requires
        earlier_keys_loaded(before, fs, f, q),
        0 <= p <= before.len(),
        after == before.insert(p, job),
        0 <= f < fs.len(),
        0 <= q < fs[f].file.jobs@.len(),
        job.name@ == entry_key(fs[f], q),
    ensures
        earlier_keys_loaded(after, fs, f, q + 1),
{
    assert forall|f2: int, q2: int| 0 <= f2 < fs.len() && 0 <= q2 < fs[f2].file.jobs@.len() && entry_before(f2, q2, f, q + 1)
        implies has_job(nodes(after), #[trigger] entry_key(fs[f2], q2)) by {
        if f2 == f && q2 == q {
            assert(nodes(after)[p].name == job.name@);
        } else {
            assert(has_job(nodes(before), entry_key(fs[f2], q2)));
            let i = choose|i: int| 0 <= i < nodes(before).len() && #[trigger] nodes(before)[i].name == entry_key(fs[f2], q2);
            if i < p {
                assert(nodes(after)[i] == nodes(before)[i]);
            } else {
                assert(nodes(after)[i + 1] == nodes(before)[i]);
            }
        }
    }
}

/// The entries before the end of file `f` are the entries before file `f + 1`.
proof fn lemma_next_file_entries(jobs: Seq<LoadedWorkflowJob>, fs: Seq<ParsedWorkflowFile>, f: int)
    requires
        0 <= f < fs.len(),
        earlier_keys_loaded(jobs, fs, f, fs[f].file.jobs@.len() as int),
    ensures
        earlier_keys_loaded(jobs, fs, f + 1, 0),
{
    assert forall|f2: int, q2: int| 0 <= f2 < fs.len() && 0 <= q2 < fs[f2].file.jobs@.len() && entry_before(f2, q2, f + 1, 0)
        implies has_job(nodes(jobs), #[trigger] entry_key(fs[f2], q2)) by {
        assert(entry_before(f2, q2, f, fs[f].file.jobs@.len() as int));
    }
}

/// `job` is loaded from an entry of `fs` before entry `q` of file `f`.
pub open spec fn job_loaded_before(job: LoadedWorkflowJob, fs: Seq<ParsedWorkflowFile>, f: int, q: int) -> bool {
    exists|f2: int, q2: int| 0 <= f2 < fs.len() && entry_before(f2, q2, f, q) && #[trigger] job_loaded_from(job, fs[f2], q2)
}

/// Every job of `jobs` is loaded from an entry of `fs` before entry `q` of file `f`.
pub open spec fn jobs_loaded_before(jobs: Seq<LoadedWorkflowJob>, fs: Seq<ParsedWorkflowFile>, f: int, q: int) -> bool {
    forall|k: int| 0 <= k < jobs.len() ==> #[trigger] job_loaded_before(jobs[k], fs, f, q)
}

/// Jobs loaded before one entry are loaded before any later one.
proof fn lemma_jobs_loaded_before_later(
    jobs: Seq<LoadedWorkflowJob>,
    fs: Seq<ParsedWorkflowFile>,
    f: int,
    q: int,
    f1: int,
    q1: int,
)
    requires
        jobs_loaded_before(jobs, fs, f, q),
        f < f1 || (f == f1 && q <= q1),
    ensures
        jobs_loaded_before(jobs, fs, f1, q1),
{
    assert forall|k: int| 0 <= k < jobs.len() implies #[trigger] job_loaded_before(jobs[k], fs, f1, q1) by {
        assert(job_loaded_before(jobs[k], fs, f, q));
        let (f2, q2) = choose|f2: int, q2: int| 0 <= f2 < fs.len() && entry_before(f2, q2, f, q)
            && #[trigger] job_loaded_from(jobs[k], fs[f2], q2);
        assert(entry_before(f2, q2, f1, q1));
    }
}

/// Inserting a job loaded from entry `q` of file `f` keeps every job loaded
/// before the entry after it.
proof fn lemma_jobs_loaded_before_insert(
    before: Seq<LoadedWorkflowJob>,
    after: Seq<LoadedWorkflowJob>,
    p: int,
    job: LoadedWorkflowJob,
    fs: Seq<ParsedWorkflowFile>,
    f: int,
    q: int,
)
    requires
        jobs_loaded_before(before, fs, f, q),
        0 <= p <= before.len(),
        after == before.insert(p, job),
        0 <= f < fs.len(),
        job_loaded_from(job, fs[f], q),
    ensures
        jobs_loaded_before(after, fs, f, q + 1),
{
    lemma_jobs_loaded_before_later(before, fs, f, q, f, q + 1);
    assert forall|k: int| 0 <= k < after.len() implies #[trigger] job_loaded_before(after[k], fs, f, q + 1) by {
        if k < p {
            assert(after[k] == before[k]);
            assert(job_loaded_before(before[k], fs, f, q + 1));
        } else if k == p {
            assert(entry_before(f, q, f, q + 1));
            assert(job_loaded_from(after[k], fs[f], q));
        } else {
            assert(after[k] == before[k - 1]);
            assert(job_loaded_before(before[k - 1], fs, f, q + 1));
        }
    }
}

/// Inserting a job loaded from an entry of `fs` keeps every job loaded
/// from one.
proof fn lemma_jobs_from_files_insert(
    before: Seq<LoadedWorkflowJob>,
    after: Seq<LoadedWorkflowJob>,
    p: int,
    job: LoadedWorkflowJob,
    fs: Seq<ParsedWorkflowFile>,
    f: int,
    q: int,
)
    requires
        jobs_from_files(before, fs),
        0 <= p <= before.len(),
        after == before.insert(p, job),
        0 <= f < fs.len(),
        job_loaded_from(job, fs[f], q),
    ensures
        jobs_from_files(after, fs),
{
    assert forall|k: int| 0 <= k < after.len() implies #[trigger] job_from_files(after[k], fs) by {
        if k < p {
            assert(after[k] == before[k]);
            assert(job_from_files(before[k], fs));
        } else if k == p {
            assert(job_loaded_from(after[k], fs[f], q));
        } else {
            assert(after[k] == before[k - 1]);
            assert(job_from_files(before[k - 1], fs));
        }
    }
}

/// The registry holds the files in order and every job, keyed and sorted by name.
pub open spec fn registry_from_files(reg: LoadedWorkflowRegistry, files: Seq<ParsedWorkflowFile>) -> bool {
    &&& reg.files@.len() == files.len()
    &&& forall|f: int| 0 <= f < files.len() ==> loaded_file_matches(#[trigger] reg.files@[f], files[f])
    &&& same_nodes(nodes(reg.jobs@), entry_graph(files))
    &&& jobs_sorted(reg.jobs@)
    &&& jobs_from_files(reg.jobs@, files)
}

/// The kind of a step, as error messages name it.
pub open spec fn step_kind(st: WorkflowStep) -> Seq<char> {
    match st {
        WorkflowStep::Run { .. } => "run"@,
        WorkflowStep::Prompt { .. } => "prompt"@,
    }
}

/// The start of an error about job `job` of workflow `workflow` in `path`.
pub open spec fn job_error_head(workflow: Seq<char>, job: Seq<char>, path: Seq<char>) -> Seq<char> {
    "workflow `"@ + workflow + "` job `"@ + job + "` in `"@ + path
}

/// Whether `m` is an error that the steps `config` of job `job` of workflow
/// `workflow` in `path` fail with: no steps; a step whose timeout does not
/// read, with the reason; or a command step in a job that embeds its
/// prompts in the main thread.
pub open spec fn job_steps_error(workflow: Seq<char>, job: Seq<char>, path: Seq<char>, config: WorkflowJobConfig, m: Seq<char>) -> bool {
    ||| config.steps@.len() == 0 && m == job_error_head(workflow, job, path) + "` must define at least one step"@
    ||| exists|k: int| 0 <= k < config.steps@.len()
        && #[trigger] step_timeout_spec(opt_view(config.steps@[k].timeout_text()), default_step_timeout()) is Err
        && m == job_error_head(workflow, job, path) + "` has invalid "@ + step_kind(config.steps@[k]) + " step timeout: "@
            + step_timeout_spec(opt_view(config.steps@[k].timeout_text()), default_step_timeout())->Err_0
    ||| config.context_strategy.is_embed() && has_run_step(config.steps@)
        && m == job_error_head(workflow, job, path) + "` cannot use `run` steps when `context_strategy` is `"@
            + config.context_strategy.name() + "`"@
}

/// Checks the steps of a job: at least one, valid timeouts, and no command
/// step when the job embeds its prompts in the main thread.
fn check_job_steps(
    config: &WorkflowJobConfig,
    workflow_name: &str,
    job_name: &str,
    path: &str,
) -> (r: Result<(), WorkflowDefinitionError>)
    ensures
        r is Ok <==> (config.steps@.len() > 0 && (forall|k: int|
            0 <= k < config.steps@.len() ==> step_ok(#[trigger] config.steps@[k])) && !(
        config.context_strategy.is_embed() && has_run_step(config.steps@))),
        r matches Err(e) ==> e is Invalid && job_steps_error(workflow_name@, job_name@, path@, *config, e.message()),
{
    if config.steps.len() == 0 {
        let mut m = concat3("workflow `", workflow_name, "` job `");
        m.append(job_name);
        m.append("` in `");
        m.append(path);
        m.append("` must define at least one step");
        return Err(WorkflowDefinitionError::Invalid(m));
    }
    let mut k: usize = 0;
    while k < config.steps.len()
        invariant
            k <= config.steps@.len(),
            forall|q: int| 0 <= q < k ==> step_ok(#[trigger] config.steps@[q]),
        decreases config.steps@.len() - k,
    {
        let step = &config.steps[k];
        match step.timeout(WorkflowDuration { secs: 30, nanos: 0 }) {
            Ok(_) => {},
            Err(err) => {
                let mut m = concat3("workflow `", workflow_name, "` job `");
                m.append(job_name);
                m.append("` in `");
                m.append(path);
                m.append("` has invalid ");
                m.append(step.kind());
                m.append(" step timeout: ");
                m.append(err.as_str());
                return Err(WorkflowDefinitionError::Invalid(m));
            },
        }
        k = k + 1;
    }
    let embed = match config.context_strategy {
        WorkflowContextStrategy::Embed => true,
        WorkflowContextStrategy::EmbedCompact => true,
        _ => false,
    };
    if embed {
        let mut q: usize = 0;
        while q < config.steps.len()
            invariant
                q <= config.steps@.len(),
                config.context_strategy.is_embed(),
                forall|i: int| 0 <= i < q ==> !(#[trigger] config.steps@[i] is Run),
            decreases config.steps@.len() - q,
        {
            let is_run = match &config.steps[q] {
                WorkflowStep::Run { .. } => true,
                WorkflowStep::Prompt { .. } => false,
            };
            if is_run {
                assert(config.steps@[q as int] is Run);
                assert(has_run_step(config.steps@));
                let mut m = concat3("workflow `", workflow_name, "` job `");
                m.append(job_name);
                m.append("` in `");
                m.append(path);
                m.append("` cannot use `run` steps when `context_strategy` is `");
                m.append(config.context_strategy.as_str());
                m.append("`");
                return Err(WorkflowDefinitionError::Invalid(m));
            }
            q = q + 1;
        }
    }
    Ok(())
}

/// The id a trigger shows in an error before it is settled.
pub open spec fn shown_trigger_id(t: WorkflowTriggerConfig) -> Seq<char> {
    match t.id {
        Some(id) => id@,
        None => "<generated>"@,
    }
}

/// Whether `m` is an error that the triggers `ts` of workflow `workflow` in
/// `path`, whose job keys are `keys`, fail with: a trigger without jobs, a
/// trigger naming a missing job, or two triggers with one id.
pub open spec fn trigger_error(workflow: Seq<char>, path: Seq<char>, ts: Seq<WorkflowTriggerConfig>, keys: Seq<Seq<char>>, m: Seq<char>) -> bool {
    ||| exists|i: int| 0 <= i < ts.len() && (#[trigger] ts[i]).jobs@.len() == 0
        && m == "workflow `"@ + workflow + "` trigger #"@ + decimal_seq(i as nat) + " in `"@ + path + "` must reference at least one job"@
    ||| exists|i: int, k: int| 0 <= i < ts.len() && 0 <= k < ts[i].jobs@.len() && !keys.contains(#[trigger] ts[i].jobs@[k]@)
        && m == "workflow `"@ + workflow + "` trigger `"@ + shown_trigger_id(ts[i]) + "` in `"@ + path
            + "` references missing job `"@ + ts[i].jobs@[k]@ + "`"@
    ||| exists|i: int, j: int| 0 <= i < j < ts.len()
        && settled_trigger_id(#[trigger] ts[i], i) == settled_trigger_id(#[trigger] ts[j], j)
        && m == "workflow `"@ + workflow + "` in `"@ + path + "` contains duplicate trigger id `"@ + settled_trigger_id(ts[j], j) + "`"@
}

/// Settles the ids of a file's triggers and checks them: each names at least
/// one job key of the file, and no two share an id.
fn load_file_triggers(
    triggers: Vec<WorkflowTriggerConfig>,
    keys: &Vec<String>,
    workflow_name: &str,
    path: &str,
) -> (r: Result<Vec<LoadedWorkflowTrigger>, WorkflowDefinitionError>)
    ensures
        r is Ok <==> triggers_ok(views(keys@), triggers@),
        r matches Ok(v) ==> v@.len() == triggers@.len() && forall|t: int|
            0 <= t < v@.len() ==> loaded_trigger_matches(#[trigger] v@[t], triggers@[t], t),
        r matches Err(e) ==> e is Invalid && trigger_error(workflow_name@, path@, triggers@, views(keys@), e.message()),
{
    let ghost all = triggers@;
    let total = triggers.len();
    let mut rest = triggers;
    let mut ids: Vec<String> = Vec::new();
    let mut out: Vec<LoadedWorkflowTrigger> = Vec::new();
    let mut i: usize = 0;
    while i < total
        invariant
            total == all.len(),
            all == triggers@,
            i <= total,
            rest@ == all.skip(i as int),
            ids@.len() == i,
            out@.len() == i,
            forall|q: int| 0 <= q < i ==> #[trigger] ids@[q]@ == settled_trigger_id(all[q], q),
            forall|q: int| 0 <= q < i ==> trigger_refs_ok(views(keys@), #[trigger] all[q]),
            forall|q1: int, q2: int|
                0 <= q1 < q2 < i ==> settled_trigger_id(#[trigger] all[q1], q1) != settled_trigger_id(
                    #[trigger] all[q2],
                    q2,
                ),
            forall|q: int| 0 <= q < i ==> loaded_trigger_matches(#[trigger] out@[q], all[q], q),
        decreases total - i,
    {
        let trigger = rest.remove(0);
        assert(trigger == all[i as int]);
        if trigger.jobs.len() == 0 {
            assert(!trigger_refs_ok(views(keys@), all[i as int]));
            let mut m = concat3("workflow `", workflow_name, "` trigger #");
            m.append(decimal_string(i as u128).as_str());
            m.append(" in `");
            m.append(path);
            m.append("` must reference at least one job");
            proof {
                assert(all[i as int].jobs@.len() == 0);
            }
            return Err(WorkflowDefinitionError::Invalid(m));
        }
        let mut k: usize = 0;
        while k < trigger.jobs.len()
            invariant
                k <= trigger.jobs@.len(),
                i < all.len(),
                all == triggers@,
                trigger == all[i as int],
                forall|q: int| 0 <= q < k ==> views(keys@).contains(#[trigger] trigger.jobs@[q]@),
            decreases trigger.jobs@.len() - k,
        {
            if !contains_string(keys, &trigger.jobs[k]) {
                let shown: &str = match &trigger.id {
                    Some(id) => id.as_str(),
                    None => "<generated>",
                };
                let mut m = concat3("workflow `", workflow_name, "` trigger `");
                m.append(shown);
                m.append("` in `");
                m.append(path);
                m.append("` references missing job `");
                m.append(trigger.jobs[k].as_str());
                m.append("`");
                assert(!trigger_refs_ok(views(keys@), all[i as int]));
                proof {
                    assert(!views(keys@).contains(all[i as int].jobs@[k as int]@));
                }
                return Err(WorkflowDefinitionError::Invalid(m));
            }
            k = k + 1;
        }
        let id = match &trigger.id {
            Some(id) => id.clone(),
            None => {
                let mut s = String::from_str("trigger-");
                s.append(decimal_string(i as u128 + 1).as_str());
                s
            },
        };
        assert(id@ == settled_trigger_id(all[i as int], i as int));
        if contains_string(&ids, &id) {
            let mut m = concat3("workflow `", workflow_name, "` in `");
            m.append(path);
            m.append("` contains duplicate trigger id `");
            m.append(id.as_str());
            m.append("`");
            proof {
                let q = views(ids@).index_of(id@);
                assert(views(ids@)[q] == ids@[q]@);
                assert(ids@[q]@ == id@);
                assert(settled_trigger_id(all[q], q) == settled_trigger_id(all[i as int], i as int));
                assert(!triggers_ok(views(keys@), all));
                assert(trigger_error(workflow_name@, path@, all, views(keys@), m@));
            }
            return Err(WorkflowDefinitionError::Invalid(m));
        }
        proof {
            assert forall|q: int| 0 <= q < i implies settled_trigger_id(all[q], q) != id@ by {
                assert(views(ids@)[q] == ids@[q]@);
            }
        }
        ids.push(id.clone());
        let WorkflowTriggerConfig { id: _, enabled, jobs, kind } = trigger;
        out.push(LoadedWorkflowTrigger { id, enabled, jobs, kind });
        proof {
            assert(rest@ =~= all.skip(i + 1));
        }
        i = i + 1;
    }
    Ok(out)
}

/// Inserts a job into name-sorted jobs, keeping them sorted.
fn insert_job_sorted(jobs: &mut Vec<LoadedWorkflowJob>, job: LoadedWorkflowJob)
    requires
        jobs_sorted(old(jobs)@),
        !has_job(nodes(old(jobs)@), job.name@),
    ensures
        jobs_sorted(final(jobs)@),
        exists|p: int| 0 <= p <= old(jobs)@.len() && final(jobs)@ == old(jobs)@.insert(p, job),
{
    let ghost before = jobs@;
    let mut p: usize = 0;
    while p < jobs.len() && string_lt(&jobs[p].name, &job.name)
        invariant
            jobs@ == before,
            p <= jobs@.len(),
            forall|k: int| 0 <= k < p ==> seq_lt(#[trigger] jobs@[k].name@, job.name@),
        decreases jobs@.len() - p,
    {
        p = p + 1;
    }
    proof {
        assert forall|k: int| p <= k < before.len() implies seq_lt(job.name@, #[trigger] before[k].name@) by {
            assert(nodes(before)[p as int].name == before[p as int].name@);
            lemma_seq_lt_trichotomy(before[p as int].name@, job.name@);
            if k > p {
                lemma_seq_lt_transitive(job.name@, before[p as int].name@, before[k].name@);
            }
        }
    }
    jobs.insert(p, job);
    proof {
        let after = jobs@;
        assert forall|i: int, j: int| 0 <= i < j < after.len() implies seq_lt(
            #[trigger] after[i].name@,
            #[trigger] after[j].name@,
        ) by {
            if j < p {
            } else if j == p {
            } else if i < p {
                assert(after[j] == before[j - 1]);
                lemma_seq_lt_transitive(after[i].name@, job.name@, after[j].name@);
            } else if i == p {
                assert(after[j] == before[j - 1]);
            } else {
                assert(after[i] == before[i - 1]);
                assert(after[j] == before[j - 1]);
            }
        }
    }
}

/// Checks that every job's needs name a defined job, in name order.
fn check_needs(jobs: &Vec<LoadedWorkflowJob>) -> (r: Result<(), WorkflowDefinitionError>)
    ensures
        r is Ok <==> forall|k: int, m: int|
            0 <= k < nodes(jobs@).len() && 0 <= m < nodes(jobs@)[k].needs.len() ==> has_job(
                nodes(jobs@),
                #[trigger] nodes(jobs@)[k].needs[m],
            ),
        r matches Err(e) ==> e is Invalid && exists|k: int, q: int|
            0 <= k < jobs@.len() && 0 <= q < jobs@[k].config.needs@.len()
                && !has_job(nodes(jobs@), jobs@[k].config.needs@[q]@) && e.message()
                == #[trigger] missing_dependency_message(jobs@[k].workflow_name@, jobs@[k].name@,
                jobs@[k].config.needs@[q]@),
{
    let ghost g = nodes(jobs@);
    let mut k: usize = 0;
    while k < jobs.len()
        invariant
            g == nodes(jobs@),
            k <= jobs@.len(),
            forall|a: int, m: int|
                0 <= a < k && 0 <= m < g[a].needs.len() ==> has_job(g, #[trigger] g[a].needs[m]),
        decreases jobs@.len() - k,
    {
        let job = &jobs[k];
        let mut m: usize = 0;
        while m < job.config.needs.len()
            invariant
                g == nodes(jobs@),
                k < jobs@.len(),
                *job == jobs@[k as int],
                m <= job.config.needs@.len(),
                forall|a: int, q: int|
                    0 <= a < k && 0 <= q < g[a].needs.len() ==> has_job(g, #[trigger] g[a].needs[q]),
                forall|q: int| 0 <= q < m ==> has_job(g, #[trigger] g[k as int].needs[q]),
            decreases job.config.needs@.len() - m,
        {
            assert(g[k as int].needs[m as int] == job.config.needs@[m as int]@);
            let found = find_job(jobs, &job.config.needs[m]);
            if let Some(i) = found {
                assert(g[i as int].name == jobs@[i as int].name@);
            }
            if found.is_none() {
                let mut msg = concat3("workflow `", job.workflow_name.as_str(), "` job `");
                msg.append(job.name.as_str());
                msg.append("` references missing dependency `");
                msg.append(job.config.needs[m].as_str());
                msg.append("`");
                proof {
                    assert(!has_job(g, jobs@[k as int].config.needs@[m as int]@));
                    assert(msg@ == missing_dependency_message(jobs@[k as int].workflow_name@, jobs@[k as int].name@,
                        jobs@[k as int].config.needs@[m as int]@));
                }
                return Err(WorkflowDefinitionError::Invalid(msg));
            }
            m = m + 1;
        }
        k = k + 1;
    }
    Ok(())
}

proof fn lemma_graph_unfold(files: Seq<ParsedWorkflowFile>, fi: int, off: int)
    requires
        0 <= fi < files.len(),
    ensures
        graph_from(files.skip(fi), off) == file_nodes(files[fi].file, off) + graph_from(
            files.skip(fi + 1),
            off + files[fi].file.jobs@.len(),
        ),
{
    assert(files.skip(fi).drop_first() =~= files.skip(fi + 1));
    assert(files.skip(fi)[0] == files[fi]);
}

/// Distinct names and positions make the nodes of sorted jobs unique.
proof fn lemma_sorted_jobs_unique(jobs: Seq<LoadedWorkflowJob>, flat: Seq<JobNode>)
    requires
        jobs_sorted(jobs),
        same_nodes(nodes(jobs), flat),
        forall|k: int| 0 <= k < flat.len() ==> #[trigger] flat[k].def == k,
    ensures
        jobs_unique(nodes(jobs)),
{
    let g = nodes(jobs);
    assert forall|i: int, j: int| 0 <= i < g.len() && 0 <= j < g.len() && i != j implies g[i].name
        != g[j].name && g[i].def != g[j].def by {
        lemma_seq_lt_trichotomy(jobs[i].name@, jobs[j].name@);
        if i < j {
            assert(seq_lt(jobs[i].name@, jobs[j].name@));
        } else {
            assert(seq_lt(jobs[j].name@, jobs[i].name@));
        }
        assert(flat.contains(g[i]));
        assert(flat.contains(g[j]));
        let a = flat.index_of(g[i]);
        let b = flat.index_of(g[j]);
        assert(flat[a].def == a);
        assert(flat[b].def == b);
    }
}

/// Builds the registry from the parsed workflow files, in the order given:
/// trims names, settles trigger ids, numbers jobs by position, and checks
/// every rule of `workflow_files_valid`.
#[verifier::loop_isolation(false)]
#[verifier::rlimit(40)]
pub fn build_workflow_registry(files: Vec<ParsedWorkflowFile>) -> (r: Result<
    LoadedWorkflowRegistry,
    WorkflowDefinitionError,
>)
    requires
        entry_graph(files@).len() <= usize::MAX,
    ensures
        r is Ok <==> workflow_files_valid(files@),
        r matches Ok(reg) ==> registry_from_files(reg, files@),
        r matches Ok(reg) ==> jobs_unique(nodes(reg.jobs@)),
        r matches Err(e) ==> e is Invalid && registry_error(files@, e.message()),
{
    let ghost fs = files@;
    let ghost g = entry_graph(fs);
    let total = files.len();
    let mut rest = files;
    let mut names: Vec<String> = Vec::new();
    let mut jobs: Vec<LoadedWorkflowJob> = Vec::new();
    let mut loaded: Vec<LoadedWorkflowFile> = Vec::new();
    let mut next: usize = 0;
    let ghost mut flat: Seq<JobNode> = Seq::empty();
    let mut fi: usize = 0;
    proof {
        assert(fs.skip(0) =~= fs);
        assert(flat + graph_from(fs.skip(0), 0) =~= g);
    }
    while fi < total
        invariant
            total == fs.len(),
            fs == files@,
            g == entry_graph(fs),
            g.len() <= usize::MAX,
            fi <= total,
            rest@ == fs.skip(fi as int),
            next == flat.len(),
            flat + graph_from(fs.skip(fi as int), next as int) == g,
            forall|k: int| 0 <= k < flat.len() ==> #[trigger] flat[k].def == k,
            forall|i: int, j: int| 0 <= i < j < flat.len() ==> #[trigger] flat[i].name != #[trigger] flat[j].name,
            same_nodes(nodes(jobs@), flat),
            jobs_sorted(jobs@),
            jobs_from_files(jobs@, fs),
            jobs_loaded_before(jobs@, fs, fi as int, 0),
            files_ok_before(fs, fi as int),
            earlier_keys_loaded(jobs@, fs, fi as int, 0),
            names@.len() == fi,
            forall|f: int| 0 <= f < fi ==> #[trigger] names@[f]@ == workflow_name_of(fs[f]),
            forall|f: int| 0 <= f < fi ==> workflow_name_of(#[trigger] fs[f]).len() > 0,
            forall|f1: int, f2: int|
                0 <= f1 < f2 < fi ==> workflow_name_of(#[trigger] fs[f1]) != workflow_name_of(#[trigger] fs[f2]),
            forall|f: int, e: int|
                0 <= f < fi && 0 <= e < fs[f].file.jobs@.len() ==> job_entry_ok(#[trigger] fs[f].file.jobs@[e]),
            forall|f: int| 0 <= f < fi ==> triggers_ok(raw_job_keys(#[trigger] fs[f].file), fs[f].file.triggers@),
            loaded@.len() == fi,
            forall|f: int| 0 <= f < fi ==> loaded_file_matches(#[trigger] loaded@[f], fs[f]),
        decreases total - fi,
    {
        let pf = rest.remove(0);
        let ghost cur = fs[fi as int];
        proof {
            assert(pf == cur);
            lemma_graph_unfold(fs, fi as int, next as int);
        }
        let ghost flat0 = flat;
        let ghost off0 = next as int;
        let ParsedWorkflowFile { path, file } = pf;
        let WorkflowFile { name, triggers, jobs: entries } = file;
        let trimmed = trim_str(name.as_str());
        if trimmed.unicode_len() == 0 {
            let m = concat3("workflow file `", path.as_str(), "` must define a non-empty `name`");
            proof {
                assert(workflow_name_of(fs[fi as int]).len() == 0);
                assert(path == fs[fi as int].path);
                assert(registry_error(fs, m@));
            }
            return Err(WorkflowDefinitionError::Invalid(m));
        }
        let wname = String::from_str(trimmed);
        if contains_string(&names, &wname) {
            let mut m = concat3("duplicate workflow name `", wname.as_str(), "` detected in `");
            m.append(path.as_str());
            m.append("`");
            proof {
                let q = views(names@).index_of(wname@);
                assert(views(names@)[q] == names@[q]@);
                assert(workflow_name_of(fs[q]) == workflow_name_of(fs[fi as int]));
                assert(path == fs[fi as int].path);
                assert(registry_error(fs, m@));
            }
            return Err(WorkflowDefinitionError::Invalid(m));
        }
        proof {
            assert forall|f1: int| 0 <= f1 < fi implies workflow_name_of(#[trigger] fs[f1]) != workflow_name_of(fs[fi as int]) by {
                if workflow_name_of(fs[f1]) == workflow_name_of(fs[fi as int]) {
                    assert(views(names@)[f1] == names@[f1]@);
                    assert(views(names@).contains(wname@));
                }
            }
            assert(header_ok(fs, fi as int));
        }
        // The job keys of this file, as written.
        let mut keys: Vec<String> = Vec::new();
        let mut c: usize = 0;
        while c < entries.len()
            invariant
                entries@ == cur.file.jobs@,
                c <= entries@.len(),
                views(keys@) == raw_job_keys(cur.file).take(c as int),
            decreases entries@.len() - c,
        {
            let ghost before = keys@;
            let key = entries[c].name.clone();
            keys.push(key);
            proof {
                lemma_views_push(before, key);
                assert(raw_job_keys(cur.file).take(c + 1) =~= raw_job_keys(cur.file).take(c as int).push(
                    entries@[c as int].name@,
                ));
            }
            c = c + 1;
        }
        proof {
            assert(raw_job_keys(cur.file).take(c as int) =~= raw_job_keys(cur.file));
        }
        let ghost fnodes = file_nodes(cur.file, off0);
        let entry_total = entries.len();
        let mut entries_rest = entries;
        let mut e: usize = 0;
        while e < entry_total
            invariant
                entry_total == cur.file.jobs@.len(),
                e <= entry_total,
                entries_rest@ == cur.file.jobs@.skip(e as int),
                fnodes == file_nodes(cur.file, off0),
                flat == flat0 + fnodes.take(e as int),
                next == flat.len(),
                off0 == flat0.len(),
                flat0 + fnodes + graph_from(fs.skip(fi + 1), off0 + entry_total) == g,
                g.len() <= usize::MAX,
                forall|k: int| 0 <= k < flat.len() ==> #[trigger] flat[k].def == k,
                forall|i: int, j: int| 0 <= i < j < flat.len() ==> #[trigger] flat[i].name != #[trigger] flat[j].name,
                same_nodes(nodes(jobs@), flat),
                jobs_sorted(jobs@),
                jobs_from_files(jobs@, fs),
                jobs_loaded_before(jobs@, fs, fi as int, e as int),
                cur == fs[fi as int],
                fi < fs.len(),
                header_ok(fs, fi as int),
                files_ok_before(fs, fi as int),
                entries_ok_before(fs, fi as int, e as int),
                earlier_keys_loaded(jobs@, fs, fi as int, e as int),
                forall|q: int| 0 <= q < e ==> job_entry_ok(#[trigger] cur.file.jobs@[q]),
            decreases entry_total - e,
        {
            let entry = entries_rest.remove(0);
            proof {
                assert(entry == cur.file.jobs@[e as int]);
                assert(fnodes[e as int] == entry_node(entry, off0 + e));
                assert(g[flat.len() as int] == fnodes[e as int]);
            }
            let WorkflowJobEntry { name: raw_name, config } = entry;
            let tn = trim_str(raw_name.as_str());
            if tn.unicode_len() == 0 {
                let mut m = concat3("workflow `", wname.as_str(), "` in `");
                m.append(path.as_str());
                m.append("` contains an empty job name");
                proof {
                    assert(!job_entry_ok(cur.file.jobs@[e as int]));
                    assert(fs[fi as int].file.jobs@[e as int] == cur.file.jobs@[e as int]);
                    assert(entry_key(fs[fi as int], e as int).len() == 0);
                    assert(registry_error(fs, m@));
                }
                return Err(WorkflowDefinitionError::Invalid(m));
            }
            let jname = String::from_str(tn);
            if let Some(existing) = find_job(&jobs, &jname) {
                let mut m = concat3("duplicate job name `", jname.as_str(), "` detected while loading `");
                m.append(path.as_str());
                m.append("`");
                proof {
                    let node = nodes(jobs@)[existing as int];
                    assert(flat.contains(node));
                    let a = flat.index_of(node);
                    let b = flat.len() as int;
                    assert(g[a] == flat[a]);
                    assert(g[a].name == g[b].name);
                    assert(!workflow_files_valid(fs));
                    assert(jname@ == entry_key(fs[fi as int], e as int));
                    assert(job_loaded_before(jobs@[existing as int], fs, fi as int, e as int));
                    let (f2, q2) = choose|f2: int, q2: int| 0 <= f2 < fs.len() && entry_before(f2, q2, fi as int, e as int)
                        && #[trigger] job_loaded_from(jobs@[existing as int], fs[f2], q2);
                    assert(entry_key(fs[f2], q2) == entry_key(fs[fi as int], e as int));
                    assert(has_earlier_entry(fs, fi as int, e as int));
                    assert(registry_error(fs, m@));
                }
                return Err(WorkflowDefinitionError::Invalid(m));
            }
            proof {
                assert(jname@ == entry_key(fs[fi as int], e as int));
                assert(!has_earlier_entry(fs, fi as int, e as int)) by {
                    if has_earlier_entry(fs, fi as int, e as int) {
                        let (f2, q2) = choose|f2: int, q2: int| 0 <= f2 < fs.len() && 0 <= q2 < fs[f2].file.jobs@.len()
                            && entry_before(f2, q2, fi as int, e as int) && #[trigger] entry_key(fs[f2], q2) == entry_key(fs[fi as int], e as int);
                        assert(has_job(nodes(jobs@), entry_key(fs[f2], q2)));
                    }
                }
            }
            match check_job_steps(&config, wname.as_str(), jname.as_str(), path.as_str()) {
                Ok(()) => {},
                Err(err) => {
                    proof {
                        assert(!job_entry_ok(cur.file.jobs@[e as int]));
                        assert(fs[fi as int].file.jobs@[e as int] == cur.file.jobs@[e as int]);
                        assert(jname@ == entry_key(fs[fi as int], e as int));
                        assert(registry_error(fs, err.message()));
                    }
                    return Err(err);
                },
            }
            let ghost node = fnodes[e as int];
            let job = LoadedWorkflowJob {
                name: jname,
                workflow_name: wname.clone(),
                workflow_path: path.clone(),
                definition_index: next,
                config,
            };
            proof {
                assert(job_node(job) == node);
                assert(job_entry_ok(cur.file.jobs@[e as int]));
                assert forall|k: int| 0 <= k < nodes(jobs@).len() implies nodes(jobs@)[k].name != job.name@ by {
                    assert(nodes(jobs@)[k].name == jobs@[k].name@);
                }
            }
            let ghost jobs_before = jobs@;
            proof {
                assert(job_loaded_from(job, fs[fi as int], e as int));
            }
            insert_job_sorted(&mut jobs, job);
            proof {
                let p = choose|p: int| 0 <= p <= jobs_before.len() && jobs@ == jobs_before.insert(p, job);
                lemma_jobs_from_files_insert(jobs_before, jobs@, p, job, fs, fi as int, e as int);
                lemma_jobs_loaded_before_insert(jobs_before, jobs@, p, job, fs, fi as int, e as int);
                lemma_earlier_keys_insert(jobs_before, jobs@, p, job, fs, fi as int, e as int);
                assert(entry_ok_at(fs, fi as int, e as int));
                assert forall|q: int| 0 <= q < e + 1 implies #[trigger] entry_ok_at(fs, fi as int, q) by {
                    if q < e {
                        assert(entry_ok_at(fs, fi as int, q));
                    }
                }
                let new_flat = flat.push(node);
                assert(new_flat == flat0 + fnodes.take(e + 1)) by {
                    assert(fnodes.take(e + 1) =~= fnodes.take(e as int).push(fnodes[e as int]));
                }
                assert forall|k: int| 0 <= k < nodes(jobs@).len() implies new_flat.contains(#[trigger] nodes(jobs@)[k]) by {
                    if k < p {
                        assert(nodes(jobs@)[k] == nodes(jobs_before)[k]);
                        assert(flat.contains(nodes(jobs_before)[k]));
                        let q = flat.index_of(nodes(jobs_before)[k]);
                        assert(new_flat[q] == flat[q]);
                    } else if k == p {
                        assert(new_flat[flat.len() as int] == node);
                    } else {
                        assert(nodes(jobs@)[k] == nodes(jobs_before)[k - 1]);
                        assert(flat.contains(nodes(jobs_before)[k - 1]));
                        let q = flat.index_of(nodes(jobs_before)[k - 1]);
                        assert(new_flat[q] == flat[q]);
                    }
                }
                assert forall|k: int| 0 <= k < new_flat.len() implies nodes(jobs@).contains(#[trigger] new_flat[k]) by {
                    if k < flat.len() {
                        assert(new_flat[k] == flat[k]);
                        assert(nodes(jobs_before).contains(flat[k]));
                        let q = nodes(jobs_before).index_of(flat[k]);
                        if q < p {
                            assert(nodes(jobs@)[q] == nodes(jobs_before)[q]);
                        } else {
                            assert(nodes(jobs@)[q + 1] == nodes(jobs_before)[q]);
                        }
                    } else {
                        assert(nodes(jobs@)[p] == node);
                    }
                }
                assert forall|i: int, j: int| 0 <= i < j < new_flat.len() implies #[trigger] new_flat[i].name
                    != #[trigger] new_flat[j].name by {
                    if j == flat.len() {
                        assert(new_flat[i] == flat[i]);
                        assert(nodes(jobs_before).contains(flat[i]));
                        let q = nodes(jobs_before).index_of(flat[i]);
                        assert(nodes(jobs_before)[q].name != job.name@);
                    } else {
                        assert(new_flat[i] == flat[i]);
                        assert(new_flat[j] == flat[j]);
                    }
                }
                assert(node.def == flat.len());
                assert forall|k: int| 0 <= k < new_flat.len() implies #[trigger] new_flat[k].def == k by {
                    if k < flat.len() {
                        assert(new_flat[k] == flat[k]);
                    }
                }
                flat = new_flat;
            }
            proof {
                assert(entries_rest@ =~= cur.file.jobs@.skip(e + 1));
            }
            next = next + 1;
            e = e + 1;
        }
        proof {
            assert(fnodes.take(e as int) =~= fnodes);
            assert(fnodes.len() == entry_total);
            lemma_jobs_loaded_before_later(jobs@, fs, fi as int, e as int, fi + 1, 0);
            lemma_next_file_entries(jobs@, fs, fi as int);
        }
        let ghost trigger_configs = triggers@;
        let loaded_triggers = match load_file_triggers(triggers, &keys, wname.as_str(), path.as_str()) {
            Ok(v) => v,
            Err(err) => {
                proof {
                    assert(trigger_configs == fs[fi as int].file.triggers@);
                    assert(registry_error(fs, err.message()));
                }
                return Err(err);
            },
        };
        let ghost before_names = names@;
        names.push(wname.clone());
        let ghost before_loaded = loaded@;
        loaded.push(LoadedWorkflowFile { name: wname, source_path: path, triggers: loaded_triggers });
        proof {
            assert(rest@ =~= fs.skip(fi + 1));
            assert forall|f: int| 0 <= f < fi + 1 implies #[trigger] names@[f]@ == workflow_name_of(fs[f]) by {
                if f < fi {
                    assert(names@[f] == before_names[f]);
                }
            }
            assert forall|f: int| 0 <= f < fi + 1 implies loaded_file_matches(#[trigger] loaded@[f], fs[f]) by {
                if f < fi {
                    assert(loaded@[f] == before_loaded[f]);
                }
            }
            assert forall|f1: int, f2: int|
                0 <= f1 < f2 < fi + 1 implies workflow_name_of(#[trigger] fs[f1]) != workflow_name_of(#[trigger] fs[f2]) by {
                if f2 == fi {
                    assert(views(before_names)[f1] == before_names[f1]@);
                }
            }
        }
        fi = fi + 1;
    }
    proof {
        assert(fs.skip(fi as int) =~= Seq::<ParsedWorkflowFile>::empty());
        assert(flat =~= g);
        lemma_sorted_jobs_unique(jobs@, flat);
    }
    let ghost reg_nodes = nodes(jobs@);
    match check_needs(&jobs) {
        Ok(()) => {},
        Err(err) => {
            proof {
                let (k, m) = choose|k: int, m: int|
                    0 <= k < reg_nodes.len() && 0 <= m < reg_nodes[k].needs.len() && !has_job(
                        reg_nodes,
                        #[trigger] reg_nodes[k].needs[m],
                    );
                assert(g.contains(reg_nodes[k]));
                let gk = g.index_of(reg_nodes[k]);
                if has_job(g, g[gk].needs[m]) {
                    let j = choose|j: int| 0 <= j < g.len() && #[trigger] g[j].name == g[gk].needs[m];
                    assert(reg_nodes.contains(g[j]));
                    let q = reg_nodes.index_of(g[j]);
                    assert(reg_nodes[q].name == reg_nodes[k].needs[m]);
                }
                let (k2, q2) = choose|k2: int, q2: int|
                    0 <= k2 < jobs@.len() && 0 <= q2 < jobs@[k2].config.needs@.len()
                        && !has_job(reg_nodes, jobs@[k2].config.needs@[q2]@) && err.message()
                        == #[trigger] missing_dependency_message(jobs@[k2].workflow_name@, jobs@[k2].name@,
                        jobs@[k2].config.needs@[q2]@);
                assert(job_from_files(jobs@[k2], fs));
                let (f, qq) = choose|f: int, qq: int| 0 <= f < fs.len() && #[trigger] job_loaded_from(jobs@[k2], fs[f], qq);
                assert(same_nodes(g, reg_nodes));
                lemma_same_nodes_edges(g, reg_nodes);
                let dep = fs[f].file.jobs@[qq].config.needs@[q2]@;
                assert(dep == jobs@[k2].config.needs@[q2]@);
                assert(!has_job(g, dep));
                assert(err.message() == missing_dependency_message(workflow_name_of(fs[f]), entry_key(fs[f], qq), dep));
                assert(registry_error(fs, err.message()));
            }
            return Err(err);
        },
    }
    proof {
        assert forall|k: int, m: int|
            0 <= k < g.len() && 0 <= m < g[k].needs.len() implies has_job(g, #[trigger] g[k].needs[m]) by {
            assert(reg_nodes.contains(g[k]));
            let rk = reg_nodes.index_of(g[k]);
            assert(has_job(reg_nodes, reg_nodes[rk].needs[m]));
            let j = choose|j: int| 0 <= j < reg_nodes.len() && #[trigger] reg_nodes[j].name == reg_nodes[rk].needs[m];
            assert(g.contains(reg_nodes[j]));
            let q = g.index_of(reg_nodes[j]);
            assert(g[q].name == g[k].needs[m]);
        }
    }
    let registry = LoadedWorkflowRegistry { files: loaded, jobs };
    proof {
        assert forall|f: int, t: int|
            0 <= f < fs.len() && 0 <= t < fs[f].file.triggers@.len() implies
            (#[trigger] registry.files@[f].triggers@[t].kind is BeforeTurn <==> fs[f].file.triggers@[t].kind is BeforeTurn)
            && views(registry.files@[f].triggers@[t].jobs@) == views(fs[f].file.triggers@[t].jobs@)
            && (before_turn_ok(reg_nodes, views(fs[f].file.triggers@[t].jobs@)) <==> before_turn_ok(g, views(fs[f].file.triggers@[t].jobs@))) by {
            assert(loaded_file_matches(registry.files@[f], fs[f]));
            assert(loaded_trigger_matches(registry.files@[f].triggers@[t], fs[f].file.triggers@[t], t));
            lemma_same_nodes_before_turn(reg_nodes, g, views(fs[f].file.triggers@[t].jobs@));
        }
    }
    match validate_before_turn_context_strategies(&registry) {
        Ok(()) => {},
        Err(err) => {
            proof {
                let (f, t) = choose|f: int, t: int|
                    0 <= f < registry.files@.len() && 0 <= t < registry.files@[f].triggers@.len()
                        && #[trigger] registry.files@[f].triggers@[t].kind is BeforeTurn && !before_turn_ok(
                        reg_nodes,
                        views(registry.files@[f].triggers@[t].jobs@),
                    );
                assert(fs[f].file.triggers@[t].kind is BeforeTurn);
                assert(!before_turn_ok(g, views(fs[f].file.triggers@[t].jobs@)));
                let (f1, t1) = choose|f1: int, t1: int|
                    crate::workflow_definition::first_before_turn_failure(registry.files@, reg_nodes, f1, t1, err.message());
                assert(loaded_file_matches(registry.files@[f1], fs[f1]));
                assert(loaded_trigger_matches(registry.files@[f1].triggers@[t1], fs[f1].file.triggers@[t1], t1));
                assert(fs[f1].file.triggers@[t1].kind is BeforeTurn);
                assert(jobs_unique(g)) by {
                    assert forall|i: int, j: int| 0 <= i < g.len() && 0 <= j < g.len() && i != j
                        implies g[i].name != g[j].name && g[i].def != g[j].def by {
                        assert(flat[i].def == i && flat[j].def == j);
                        if i < j {
                            assert(flat[i].name != flat[j].name);
                        } else {
                            assert(flat[j].name != flat[i].name);
                        }
                    }
                }
                assert(same_nodes(reg_nodes, g));
                lemma_same_nodes_before_turn_error(reg_nodes, g, views(fs[f1].file.triggers@[t1].jobs@),
                    workflow_name_of(fs[f1]), settled_trigger_id(fs[f1].file.triggers@[t1], t1), err.message());
                assert(registry_error(fs, err.message()));
            }
            return Err(err);
        },
    }
    proof {
        assert forall|f: int, t: int|
            0 <= f < fs.len() && 0 <= t < fs[f].file.triggers@.len()
                && #[trigger] fs[f].file.triggers@[t].kind is BeforeTurn implies before_turn_ok(
                g,
                views(fs[f].file.triggers@[t].jobs@),
            ) by {
            assert(registry.files@[f].triggers@[t].kind is BeforeTurn);
        }
    }
    Ok(registry)
}

/// Whether a file called `name` is a workflow file: its extension is `yaml`
/// (a name that is only `.yaml` has none).
pub open spec fn is_workflow_file_name(name: Seq<char>) -> bool {
    name.len() > 5 && name.subrange(name.len() - 5, name.len() as int) == ".yaml"@
}

/// The workflow files among `names`, in order.
pub open spec fn workflow_file_names_spec(names: Seq<Seq<char>>) -> Seq<Seq<char>>
    decreases names.len(),
{
    if names.len() == 0 {
        Seq::empty()
    } else {
        let rest = workflow_file_names_spec(names.drop_last());
        if is_workflow_file_name(names.last()) {
            rest.push(names.last())
        } else {
            rest
        }
    }
}

/// Whether the file called `name` is a workflow file.
fn is_workflow_file(name: &str) -> (r: bool)
    ensures
        r == is_workflow_file_name(name@),
{
    let n = name.unicode_len();
    if n <= 5 {
        return false;
    }
    let tail = name.substring_char(n - 5, n);
    crate::text::str_eq(tail, ".yaml")
}

/// The workflow files among the files `names` of the workflow directory,
/// sorted by name.
pub fn workflow_file_names(names: Vec<String>) -> (r: Vec<String>)
    ensures
        sorted_strings(views(r@)),
        views(r@).to_multiset() == workflow_file_names_spec(views(names@)).to_multiset(),
{
    let mut out: Vec<String> = Vec::new();
    let mut i: usize = 0;
    proof {
        assert(views(out@) =~= Seq::<Seq<char>>::empty());
        assert(workflow_file_names_spec(views(names@).take(0)) =~= Seq::<Seq<char>>::empty());
    }
    while i < names.len()
        invariant
            i <= names@.len(),
            sorted_strings(views(out@)),
            views(out@).to_multiset() == workflow_file_names_spec(views(names@).take(i as int)).to_multiset(),
        decreases names@.len() - i,
    {
        proof {
            assert(views(names@).take(i + 1).drop_last() =~= views(names@).take(i as int));
            assert(views(names@).take(i + 1).last() == names@[i as int]@);
        }
        if is_workflow_file(names[i].as_str()) {
            let name = names[i].clone();
            let p = sorted_insert_position(&out, &name);
            let ghost before = views(out@);
            proof {
                lemma_insert_sorted(before, p as int, name@);
            }
            out.insert(p, name);
            proof {
                assert(views(out@) =~= before.insert(p as int, name@));
                let pre = workflow_file_names_spec(views(names@).take(i as int));
                broadcast use vstd::seq_lib::group_to_multiset_ensures;
                assert(pre.push(name@).to_multiset() =~= pre.to_multiset().insert(name@));
            }
        }
        i = i + 1;
    }
    proof {
        assert(views(names@).take(names@.len() as int) =~= views(names@));
    }
    out
}

} // verus!
