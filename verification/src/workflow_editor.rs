//! Edits of a job in the text of a workflow file: switching it on or off,
//! cycling its context and response modes, and reading or writing its
//! `needs` and `steps` as YAML fragments. The file is read and written by
//! the caller; the YAML text is parsed and rendered by serde_yaml. Here a
//! `steps` fragment is any YAML value: reading it into steps, and writing
//! steps back as YAML, is the caller's part, through the step type that
//! serde reads.
use vstd::prelude::*;
use vstd::string::*;
use crate::app_event::WorkflowJobEditableField;
use crate::text::{concat2, concat3, str_eq, trim_seq, trim_str};
use crate::workflow_definition::WorkflowResponseMode;

verus! {

#[verifier::external_type_specification]
#[verifier::external_body]
pub struct ExYamlValue(serde_yaml::Value);

/// A YAML document as the editor reads it: nulls, booleans, strings,
/// sequences and mappings (in their order), and any other value (a number,
/// a tagged value) carried through as serde_yaml holds it.
#[derive(Debug, PartialEq, Eq)]
pub enum YamlNode {
    Null,
    Bool(bool),
    Text(String),
    Other(serde_yaml::Value),
    Sequence(Vec<YamlNode>),
    Mapping(Vec<(YamlNode, YamlNode)>),
}

/// What `serde_yaml::from_str::<serde_yaml::Value>` gives for `text`: the
/// document, or the message of its error.
pub uninterp spec fn yaml_document(text: Seq<char>) -> Result<YamlNode, Seq<char>>;

/// What `serde_yaml::to_string` gives for the document `node`: its text, or
/// the message of its error.
pub uninterp spec fn yaml_rendered(node: YamlNode) -> Result<Seq<char>, Seq<char>>;

/// What `serde_yaml::from_str::<Vec<String>>` gives for `text`: the
/// strings, or the message of its error.
pub uninterp spec fn yaml_string_list(text: Seq<char>) -> Result<Seq<Seq<char>>, Seq<char>>;

/// What `serde_yaml::from_value::<Vec<String>>` gives for the value `node`:
/// the strings, or the message of its error.
pub uninterp spec fn yaml_node_strings(node: YamlNode) -> Result<Seq<Seq<char>>, Seq<char>>;

/// The document that a serde_yaml value holds, one variant for one.
#[verifier::external_body]
fn node_from_value(v: &serde_yaml::Value) -> YamlNode {
    match v {
        serde_yaml::Value::Null => YamlNode::Null,
        serde_yaml::Value::Bool(b) => YamlNode::Bool(*b),
        serde_yaml::Value::String(s) => YamlNode::Text(s.clone()),
        serde_yaml::Value::Sequence(xs) => YamlNode::Sequence(xs.iter().map(node_from_value).collect()),
        serde_yaml::Value::Mapping(m) => YamlNode::Mapping(m.iter().map(|(k, x)| (node_from_value(k), node_from_value(x))).collect()),
        other => YamlNode::Other(other.clone()),
    }
}

/// The serde_yaml value that a document stands for, one variant for one.
#[verifier::external_body]
fn value_from_node(n: &YamlNode) -> serde_yaml::Value {
    match n {
        YamlNode::Null => serde_yaml::Value::Null,
        YamlNode::Bool(b) => serde_yaml::Value::Bool(*b),
        YamlNode::Text(s) => serde_yaml::Value::String(s.clone()),
        YamlNode::Other(v) => v.clone(),
        YamlNode::Sequence(xs) => serde_yaml::Value::Sequence(xs.iter().map(value_from_node).collect()),
        YamlNode::Mapping(m) => serde_yaml::Value::Mapping(m.iter().map(|(k, x)| (value_from_node(k), value_from_node(x))).collect()),
    }
}

/// Calls `serde_yaml::from_str::<serde_yaml::Value>`. The contract claims
/// that the result is the named `yaml_document` of the text.
#[verifier::external_body]
fn parse_yaml_text(text: &str) -> (r: Result<YamlNode, String>)
    ensures
        r is Ok <==> yaml_document(text@) is Ok,
        r is Ok ==> r->Ok_0 == yaml_document(text@)->Ok_0,
        r is Err ==> r->Err_0@ == yaml_document(text@)->Err_0,
{
    match serde_yaml::from_str::<serde_yaml::Value>(text) {
        Ok(v) => Ok(node_from_value(&v)),
        Err(e) => Err(e.to_string()),
    }
}

/// Calls `serde_yaml::to_string` on the value `node` stands for. The
/// contract claims that the result is the named `yaml_rendered` of the node.
#[verifier::external_body]
fn render_yaml(node: &YamlNode) -> (r: Result<String, String>)
    ensures
        r is Ok <==> yaml_rendered(*node) is Ok,
        r is Ok ==> r->Ok_0@ == yaml_rendered(*node)->Ok_0,
        r is Err ==> r->Err_0@ == yaml_rendered(*node)->Err_0,
{
    match serde_yaml::to_string(&value_from_node(node)) {
        Ok(s) => Ok(s),
        Err(e) => Err(e.to_string()),
    }
}

/// Calls `serde_yaml::from_str::<Vec<String>>`. The contract claims that the
/// result is the named `yaml_string_list` of the text.
#[verifier::external_body]
fn parse_string_list(text: &str) -> (r: Result<Vec<String>, String>)
    ensures
        r is Ok <==> yaml_string_list(text@) is Ok,
        r is Ok ==> crate::text::views(r->Ok_0@) == yaml_string_list(text@)->Ok_0,
        r is Err ==> r->Err_0@ == yaml_string_list(text@)->Err_0,
{
    match serde_yaml::from_str::<Vec<String>>(text) {
        Ok(v) => Ok(v),
        Err(e) => Err(e.to_string()),
    }
}

/// Calls `serde_yaml::from_value::<Vec<String>>` on the value `node` stands
/// for. The contract claims that the result is the named
/// `yaml_node_strings` of the node.
#[verifier::external_body]
fn node_strings(node: &YamlNode) -> (r: Result<Vec<String>, String>)
    ensures
        r is Ok <==> yaml_node_strings(*node) is Ok,
        r is Ok ==> crate::text::views(r->Ok_0@) == yaml_node_strings(*node)->Ok_0,
        r is Err ==> r->Err_0@ == yaml_node_strings(*node)->Err_0,
{
    match serde_yaml::from_value::<Vec<String>>(value_from_node(node)) {
        Ok(v) => Ok(v),
        Err(e) => Err(e.to_string()),
    }
}

/// Whether `k` is the string key `key`.
pub open spec fn is_key(k: YamlNode, key: Seq<char>) -> bool {
    k matches YamlNode::Text(s) && s@ == key
}

/// The position of the first entry of `es` with the key `key`, or -1.
pub open spec fn key_pos(es: Seq<(YamlNode, YamlNode)>, key: Seq<char>) -> int
    decreases es.len(),
{
    if es.len() == 0 {
        -1
    } else if is_key(es[0].0, key) {
        0
    } else {
        let p = key_pos(es.drop_first(), key);
        if p < 0 {
            -1
        } else {
            p + 1
        }
    }
}

/// The value of the key `key` in `es`, where it has one.
pub open spec fn get_key(es: Seq<(YamlNode, YamlNode)>, key: Seq<char>) -> Option<YamlNode> {
    let p = key_pos(es, key);
    if p < 0 {
        None
    } else {
        Some(es[p].1)
    }
}

proof fn lemma_key_pos(es: Seq<(YamlNode, YamlNode)>, key: Seq<char>, i: int)
    requires
        0 <= i <= es.len(),
        forall|j: int| 0 <= j < i ==> !is_key(#[trigger] es[j].0, key),
        i < es.len() ==> is_key(es[i].0, key),
    ensures
        key_pos(es, key) == (if i < es.len() {
            i
        } else {
            -1
        }),
    decreases i,
{
    if i > 0 {
        assert(!is_key(es[0].0, key));
        let rest = es.drop_first();
        assert forall|j: int| 0 <= j < i - 1 implies !is_key(#[trigger] rest[j].0, key) by {
            assert(rest[j] == es[j + 1]);
        }
        if i < es.len() {
            assert(rest[i - 1] == es[i]);
        }
        lemma_key_pos(rest, key, i - 1);
    }
}

/// The position of the first entry of `es` with the key `key`, or their number.
fn find_key(es: &Vec<(YamlNode, YamlNode)>, key: &str) -> (k: usize)
    ensures
        k <= es@.len(),
        key_pos(es@, key@) == (if k < es@.len() {
            k as int
        } else {
            -1
        }),
{
    let mut k: usize = 0;
    while k < es.len()
        invariant
            k <= es@.len(),
            forall|j: int| 0 <= j < k ==> !is_key(#[trigger] es@[j].0, key@),
        ensures
            k <= es@.len(),
            k < es@.len() ==> is_key(es@[k as int].0, key@),
            forall|j: int| 0 <= j < k ==> !is_key(#[trigger] es@[j].0, key@),
        decreases es@.len() - k,
    {
        let hit = match &es[k].0 {
            YamlNode::Text(s) => str_eq(s.as_str(), key),
            _ => false,
        };
        if hit {
            break;
        }
        k = k + 1;
    }
    proof {
        lemma_key_pos(es@, key@, k as int);
    }
    k
}

/// The error for a workflow file whose text does not parse.
pub open spec fn parse_error(path: Seq<char>, e: Seq<char>) -> Seq<char> {
    "failed to parse workflow file `"@ + path + "`: "@ + e
}

/// The error for a workflow file that cannot be written out as YAML.
pub open spec fn render_error(path: Seq<char>, e: Seq<char>) -> Seq<char> {
    "failed to serialize workflow file `"@ + path + "`: "@ + e
}

/// The fields of job `job` in the document `doc`, or why there is no such job.
pub open spec fn job_fields(doc: YamlNode, job: Seq<char>) -> Result<Seq<(YamlNode, YamlNode)>, Seq<char>> {
    match doc {
        YamlNode::Mapping(root) => match get_key(root@, "jobs"@) {
            Some(YamlNode::Mapping(jobs)) => match get_key(jobs@, job) {
                Some(YamlNode::Mapping(fields)) => Ok(fields@),
                _ => Err("workflow job `"@ + job + "` does not exist"@),
            },
            _ => Err("workflow file does not define a `jobs` mapping"@),
        },
        _ => Err("workflow file root must be a YAML mapping"@),
    }
}

/// `f2` is the fields `f` with the key `key` set to `v`: in place where it
/// is there, else added at the end.
pub open spec fn fields_set(f: Seq<(YamlNode, YamlNode)>, f2: Seq<(YamlNode, YamlNode)>, key: Seq<char>, v: YamlNode) -> bool {
    let p = key_pos(f, key);
    if p >= 0 {
        f2 == f.update(p, (f[p].0, v))
    } else {
        &&& f2.len() == f.len() + 1
        &&& f2.take(f.len() as int) == f
        &&& is_key(f2.last().0, key)
        &&& f2.last().1 == v
    }
}

/// `d2` is the document `d` with the field `key` of job `job` set to `v`,
/// everything else as it was.
pub open spec fn sets_job_field(d: YamlNode, d2: YamlNode, job: Seq<char>, key: Seq<char>, v: YamlNode) -> bool {
    match (d, d2) {
        (YamlNode::Mapping(root), YamlNode::Mapping(root2)) => {
            let p = key_pos(root@, "jobs"@);
            &&& p >= 0
            &&& root2@ == root@.update(p, (root@[p].0, root2@[p].1))
            &&& match (root@[p].1, root2@[p].1) {
                (YamlNode::Mapping(jobs), YamlNode::Mapping(jobs2)) => {
                    let q = key_pos(jobs@, job);
                    &&& q >= 0
                    &&& jobs2@ == jobs@.update(q, (jobs@[q].0, jobs2@[q].1))
                    &&& match (jobs@[q].1, jobs2@[q].1) {
                        (YamlNode::Mapping(f), YamlNode::Mapping(f2)) => fields_set(f@, f2@, key, v),
                        _ => false,
                    }
                },
                _ => false,
            }
        },
        _ => false,
    }
}

/// The value of field `key` of job `job` of `doc`, or why there is no job.
fn read_job_field<'a>(doc: &'a YamlNode, job: &str, key: &str) -> (r: Result<Option<&'a YamlNode>, String>)
    ensures
        r is Ok <==> job_fields(*doc, job@) is Ok,
        r matches Err(m) ==> m@ == job_fields(*doc, job@)->Err_0,
        r matches Ok(o) ==> match o {
            Some(n) => get_key(job_fields(*doc, job@)->Ok_0, key@) == Some(*n),
            None => get_key(job_fields(*doc, job@)->Ok_0, key@) is None,
        },
{
    let root = match doc {
        YamlNode::Mapping(root) => root,
        _ => return Err(String::from_str("workflow file root must be a YAML mapping")),
    };
    let p = find_key(root, "jobs");
    if p >= root.len() {
        return Err(String::from_str("workflow file does not define a `jobs` mapping"));
    }
    let jobs = match &root[p].1 {
        YamlNode::Mapping(jobs) => jobs,
        _ => return Err(String::from_str("workflow file does not define a `jobs` mapping")),
    };
    let q = find_key(jobs, job);
    if q >= jobs.len() {
        return Err(concat3("workflow job `", job, "` does not exist"));
    }
    let fields = match &jobs[q].1 {
        YamlNode::Mapping(fields) => fields,
        _ => return Err(concat3("workflow job `", job, "` does not exist")),
    };
    let k = find_key(fields, key);
    if k >= fields.len() {
        Ok(None)
    } else {
        Ok(Some(&fields[k].1))
    }
}

/// Takes field `key` of job `job` out of `doc`.
fn take_job_field(doc: YamlNode, job: &str, key: &str) -> (r: Result<Option<YamlNode>, String>)
    ensures
        r is Ok <==> job_fields(doc, job@) is Ok,
        r matches Err(m) ==> m@ == job_fields(doc, job@)->Err_0,
        r matches Ok(o) ==> o == get_key(job_fields(doc, job@)->Ok_0, key@),
{
    let mut root = match doc {
        YamlNode::Mapping(root) => root,
        _ => return Err(String::from_str("workflow file root must be a YAML mapping")),
    };
    let p = find_key(&root, "jobs");
    if p >= root.len() {
        return Err(String::from_str("workflow file does not define a `jobs` mapping"));
    }
    let (_, jobs_node) = root.remove(p);
    let mut jobs = match jobs_node {
        YamlNode::Mapping(jobs) => jobs,
        _ => return Err(String::from_str("workflow file does not define a `jobs` mapping")),
    };
    let q = find_key(&jobs, job);
    if q >= jobs.len() {
        return Err(concat3("workflow job `", job, "` does not exist"));
    }
    let (_, job_node) = jobs.remove(q);
    let mut fields = match job_node {
        YamlNode::Mapping(fields) => fields,
        _ => return Err(concat3("workflow job `", job, "` does not exist")),
    };
    let k = find_key(&fields, key);
    if k >= fields.len() {
        Ok(None)
    } else {
        let (_, v) = fields.remove(k);
        Ok(Some(v))
    }
}

/// Sets field `key` of job `job` of `doc` to `v`.
fn set_job_field(doc: YamlNode, job: &str, key: &str, v: YamlNode) -> (r: YamlNode)
    requires
        job_fields(doc, job@) is Ok,
    ensures
        sets_job_field(doc, r, job@, key@, v),
{
    let ghost d = doc;
    let mut root = match doc {
        YamlNode::Mapping(root) => root,
        _ => {
            proof {
                assert(false);
            }
            return YamlNode::Null;
        },
    };
    let ghost root0 = root@;
    let p = find_key(&root, "jobs");
    proof {
        assert(p < root@.len());
    }
    let (jk, jv) = root.remove(p);
    let mut jobs = match jv {
        YamlNode::Mapping(jobs) => jobs,
        _ => {
            proof {
                assert(false);
            }
            return YamlNode::Null;
        },
    };
    let ghost jobs0 = jobs@;
    let q = find_key(&jobs, job);
    proof {
        assert(q < jobs@.len());
    }
    let (fk, fv) = jobs.remove(q);
    let mut fields = match fv {
        YamlNode::Mapping(fields) => fields,
        _ => {
            proof {
                assert(false);
            }
            return YamlNode::Null;
        },
    };
    let ghost fields0 = fields@;
    let k = find_key(&fields, key);
    if k < fields.len() {
        let (kk, _old) = fields.remove(k);
        fields.insert(k, (kk, v));
        proof {
            assert(fields@ =~= fields0.update(k as int, (fields0[k as int].0, v)));
        }
    } else {
        let ghost vv = v;
        fields.push((YamlNode::Text(String::from_str(key)), v));
        proof {
            assert(fields@.take(fields0.len() as int) =~= fields0);
            assert(fields@.last().1 == vv);
        }
    }
    let ghost fields_new = YamlNode::Mapping(fields);
    jobs.insert(q, (fk, YamlNode::Mapping(fields)));
    proof {
        assert(jobs@ =~= jobs0.update(q as int, (jobs0[q as int].0, jobs@[q as int].1)));
    }
    root.insert(p, (jk, YamlNode::Mapping(jobs)));
    proof {
        assert(root@ =~= root0.update(p as int, (root0[p as int].0, root@[p as int].1)));
    }
    YamlNode::Mapping(root)
}

/// Renders `doc` after setting field `key` of job `job` to `v`; a document
/// that cannot be written out gives the error for the file at `path`.
fn rewrite_job_field(doc: YamlNode, path: &str, job: &str, key: &str, v: YamlNode) -> (r: Result<String, String>)
    requires
        job_fields(doc, job@) is Ok,
    ensures
        exists|d2: YamlNode| #[trigger] sets_job_field(doc, d2, job@, key@, v) && match yaml_rendered(d2) {
            Ok(t) => r is Ok && r->Ok_0@ == t,
            Err(e) => r is Err && r->Err_0@ == render_error(path@, e),
        },
{
    let ghost vv = v;
    let ghost d = doc;
    let d2 = set_job_field(doc, job, key, v);
    match render_yaml(&d2) {
        Ok(t) => {
            proof {
                assert(sets_job_field(d, d2, job@, key@, vv));
            }
            Ok(t)
        },
        Err(e) => {
            let mut m = concat3("failed to serialize workflow file `", path, "`: ");
            m.append(e.as_str());
            proof {
                assert(sets_job_field(d, d2, job@, key@, vv));
            }
            Err(m)
        },
    }
}

/// Parses the text of the workflow file at `path`.
fn parse_workflow_text(contents: &str, path: &str) -> (r: Result<YamlNode, String>)
    ensures
        match yaml_document(contents@) {
            Ok(d) => r == Ok::<YamlNode, String>(d),
            Err(e) => r is Err && r->Err_0@ == parse_error(path@, e),
        },
{
    match parse_yaml_text(contents) {
        Ok(d) => Ok(d),
        Err(e) => {
            let mut m = concat3("failed to parse workflow file `", path, "`: ");
            m.append(e.as_str());
            Err(m)
        },
    }
}

/// What an edit of field `key` of job `job` in the workflow file at `path`,
/// whose text is `contents`, gives: the error of the text, of the job's
/// lookup or of writing it out, or the new text, where the field is set to
/// a value that `value` allows given the field's current value.
pub open spec fn job_edit(
    contents: Seq<char>,
    path: Seq<char>,
    job: Seq<char>,
    key: Seq<char>,
    value: spec_fn(Option<YamlNode>, YamlNode) -> bool,
    r: Result<Seq<char>, Seq<char>>,
) -> bool {
    match yaml_document(contents) {
        Err(e) => r == Err::<Seq<char>, Seq<char>>(parse_error(path, e)),
        Ok(doc) => match job_fields(doc, job) {
            Err(m) => r == Err::<Seq<char>, Seq<char>>(m),
            Ok(f) => exists|v: YamlNode, d2: YamlNode| value(get_key(f, key), v) && #[trigger] sets_job_field(doc, d2, job, key, v)
                && match yaml_rendered(d2) {
                Ok(t) => r == Ok::<Seq<char>, Seq<char>>(t),
                Err(e) => r == Err::<Seq<char>, Seq<char>>(render_error(path, e)),
            },
        },
    }
}

/// The view of a text result.
pub open spec fn text_result(r: Result<String, String>) -> Result<Seq<char>, Seq<char>> {
    match r {
        Ok(t) => Ok(t@),
        Err(e) => Err(e@),
    }
}

/// Whether a job is on, from its `enabled` field: a missing or non-boolean
/// value reads as on.
pub open spec fn enabled_of(v: Option<YamlNode>) -> bool {
    match v {
        Some(YamlNode::Bool(b)) => b,
        _ => true,
    }
}

/// Switches job `job_name` of the workflow file at `workflow_path`, whose
/// text is `contents`, on or off: the new text, with the job's `enabled`
/// field set explicitly, and whether the job is now on.
pub fn toggle_job_enabled(contents: &str, workflow_path: &str, job_name: &str) -> (r: Result<(String, bool), String>)
    ensures
        job_edit(contents@, workflow_path@, job_name@, "enabled"@,
            |c: Option<YamlNode>, v: YamlNode| v == YamlNode::Bool(!enabled_of(c)),
            match r {
                Ok((t, _)) => Ok(t@),
                Err(e) => Err(e@),
            }),
        r matches Ok((_, on)) ==> on == !enabled_of(get_key(job_fields(yaml_document(contents@)->Ok_0, job_name@)->Ok_0, "enabled"@)),
{
    let doc = match parse_workflow_text(contents, workflow_path) {
        Ok(d) => d,
        Err(e) => return Err(e),
    };
    let enabled = match read_job_field(&doc, job_name, "enabled") {
        Err(m) => return Err(m),
        Ok(Some(YamlNode::Bool(b))) => *b,
        Ok(_) => true,
    };
    let next = !enabled;
    match rewrite_job_field(doc, workflow_path, job_name, "enabled", YamlNode::Bool(next)) {
        Ok(t) => Ok((t, next)),
        Err(e) => Err(e),
    }
}

/// Where a job's turns run, as its legacy `context` field names it.
#[derive(Debug, Clone, Copy, PartialEq, Eq, Structural)]
pub enum WorkflowContextMode {
    Embed,
    Ephemeral,
}

/// The mode a `context` field value reads as: `embed` or `ephemeral`, and
/// `ephemeral` for anything else or nothing.
pub open spec fn context_mode_of(v: Option<YamlNode>) -> WorkflowContextMode {
    match v {
        Some(YamlNode::Text(s)) => if s@ == "embed"@ {
            WorkflowContextMode::Embed
        } else {
            WorkflowContextMode::Ephemeral
        },
        _ => WorkflowContextMode::Ephemeral,
    }
}

/// The mode after `m` in the cycle.
pub open spec fn next_context_mode(m: WorkflowContextMode) -> WorkflowContextMode {
    match m {
        WorkflowContextMode::Embed => WorkflowContextMode::Ephemeral,
        WorkflowContextMode::Ephemeral => WorkflowContextMode::Embed,
    }
}

/// Cycling the context mode changes it, and cycling twice returns to the
/// start.
pub proof fn lemma_context_mode_cycle(m: WorkflowContextMode)
    ensures
        next_context_mode(m) != m,
        next_context_mode(next_context_mode(m)) == m,
{
}

/// The text a context mode is written as.
pub open spec fn context_mode_text(m: WorkflowContextMode) -> Seq<char> {
    match m {
        WorkflowContextMode::Embed => "embed"@,
        WorkflowContextMode::Ephemeral => "ephemeral"@,
    }
}

/// Moves job `job_name` of the workflow file at `workflow_path`, whose text
/// is `contents`, to the next context mode: the new text, and the mode.
pub fn cycle_job_context(contents: &str, workflow_path: &str, job_name: &str)
    -> (r: Result<(String, WorkflowContextMode), String>)
    ensures
        job_edit(contents@, workflow_path@, job_name@, "context"@,
            |c: Option<YamlNode>, v: YamlNode| v matches YamlNode::Text(s) && s@ == context_mode_text(next_context_mode(context_mode_of(c))),
            match r {
                Ok((t, _)) => Ok(t@),
                Err(e) => Err(e@),
            }),
        r matches Ok((_, m)) ==> m == next_context_mode(context_mode_of(get_key(job_fields(yaml_document(contents@)->Ok_0, job_name@)->Ok_0, "context"@))),
{
    let doc = match parse_workflow_text(contents, workflow_path) {
        Ok(d) => d,
        Err(e) => return Err(e),
    };
    let current = match read_job_field(&doc, job_name, "context") {
        Err(m) => return Err(m),
        Ok(Some(YamlNode::Text(s))) => if str_eq(s.as_str(), "embed") {
            WorkflowContextMode::Embed
        } else {
            WorkflowContextMode::Ephemeral
        },
        Ok(_) => WorkflowContextMode::Ephemeral,
    };
    let next = match current {
        WorkflowContextMode::Embed => WorkflowContextMode::Ephemeral,
        WorkflowContextMode::Ephemeral => WorkflowContextMode::Embed,
    };
    let text = match next {
        WorkflowContextMode::Embed => "embed",
        WorkflowContextMode::Ephemeral => "ephemeral",
    };
    match rewrite_job_field(doc, workflow_path, job_name, "context", YamlNode::Text(String::from_str(text))) {
        Ok(t) => Ok((t, next)),
        Err(e) => Err(e),
    }
}

/// The mode a `response` field value reads as: `user` or `assistant`, and
/// `assistant` for anything else or nothing.
pub open spec fn response_mode_of(v: Option<YamlNode>) -> WorkflowResponseMode {
    match v {
        Some(YamlNode::Text(s)) => if s@ == "user"@ {
            WorkflowResponseMode::User
        } else {
            WorkflowResponseMode::Assistant
        },
        _ => WorkflowResponseMode::Assistant,
    }
}

/// The mode after `m` in the cycle.
pub open spec fn next_response_mode(m: WorkflowResponseMode) -> WorkflowResponseMode {
    match m {
        WorkflowResponseMode::Assistant => WorkflowResponseMode::User,
        WorkflowResponseMode::User => WorkflowResponseMode::Assistant,
    }
}

/// Cycling the response mode changes it, cycling twice returns to the
/// start, and the text written for a mode reads back as that mode.
pub proof fn lemma_response_mode_cycle(m: WorkflowResponseMode)
    ensures
        next_response_mode(m) != m,
        next_response_mode(next_response_mode(m)) == m,
        forall|s: String| s@ == response_mode_text(m) ==> #[trigger] response_mode_of(Some(YamlNode::Text(s))) == m,
{
    reveal_strlit("user");
    reveal_strlit("assistant");
    assert("user"@.len() == 4);
    assert("assistant"@.len() == 9);
    assert("assistant"@ != "user"@);
}

/// The text a response mode is written as.
pub open spec fn response_mode_text(m: WorkflowResponseMode) -> Seq<char> {
    match m {
        WorkflowResponseMode::Assistant => "assistant"@,
        WorkflowResponseMode::User => "user"@,
    }
}

/// Moves job `job_name` of the workflow file at `workflow_path`, whose text
/// is `contents`, to the next response mode: the new text, and the mode.
pub fn cycle_job_response(contents: &str, workflow_path: &str, job_name: &str)
    -> (r: Result<(String, WorkflowResponseMode), String>)
    ensures
        job_edit(contents@, workflow_path@, job_name@, "response"@,
            |c: Option<YamlNode>, v: YamlNode| v matches YamlNode::Text(s) && s@ == response_mode_text(next_response_mode(response_mode_of(c))),
            match r {
                Ok((t, _)) => Ok(t@),
                Err(e) => Err(e@),
            }),
        r matches Ok((_, m)) ==> m == next_response_mode(response_mode_of(get_key(job_fields(yaml_document(contents@)->Ok_0, job_name@)->Ok_0, "response"@))),
{
    let doc = match parse_workflow_text(contents, workflow_path) {
        Ok(d) => d,
        Err(e) => return Err(e),
    };
    let current = match read_job_field(&doc, job_name, "response") {
        Err(m) => return Err(m),
        Ok(Some(YamlNode::Text(s))) => if str_eq(s.as_str(), "user") {
            WorkflowResponseMode::User
        } else {
            WorkflowResponseMode::Assistant
        },
        Ok(_) => WorkflowResponseMode::Assistant,
    };
    let next = match current {
        WorkflowResponseMode::Assistant => WorkflowResponseMode::User,
        WorkflowResponseMode::User => WorkflowResponseMode::Assistant,
    };
    let text = match next {
        WorkflowResponseMode::Assistant => "assistant",
        WorkflowResponseMode::User => "user",
    };
    match rewrite_job_field(doc, workflow_path, job_name, "response", YamlNode::Text(String::from_str(text))) {
        Ok(t) => Ok((t, next)),
        Err(e) => Err(e),
    }
}

/// The key of an editable job field.
pub open spec fn field_key(field: WorkflowJobEditableField) -> Seq<char> {
    match field {
        WorkflowJobEditableField::Needs => "needs"@,
        WorkflowJobEditableField::Steps => "steps"@,
    }
}

fn field_key_str(field: WorkflowJobEditableField) -> (r: &'static str)
    ensures
        r@ == field_key(field),
{
    match field {
        WorkflowJobEditableField::Needs => "needs",
        WorkflowJobEditableField::Steps => "steps",
    }
}

/// Whether `n` is the sequence of the strings `strs`, in order.
pub open spec fn strings_node(n: YamlNode, strs: Seq<Seq<char>>) -> bool {
    n matches YamlNode::Sequence(v) && v@.len() == strs.len()
        && forall|i: int| 0 <= i < strs.len() ==> (#[trigger] v@[i] matches YamlNode::Text(s) && s@ == strs[i])
}

/// The sequence of the strings `list`.
fn strings_to_node(list: Vec<String>) -> (r: YamlNode)
    ensures
        strings_node(r, crate::text::views(list@)),
{
    let mut out: Vec<YamlNode> = Vec::new();
    let mut i: usize = 0;
    while i < list.len()
        invariant
            i <= list@.len(),
            out@.len() == i,
            forall|j: int| 0 <= j < i ==> (#[trigger] out@[j] matches YamlNode::Text(s) && s@ == list@[j]@),
        decreases list@.len() - i,
    {
        out.push(YamlNode::Text(list[i].clone()));
        i = i + 1;
    }
    let r = YamlNode::Sequence(out);
    proof {
        assert forall|j: int| 0 <= j < crate::text::views(list@).len() implies (#[trigger] out@[j] matches YamlNode::Text(s)
            && s@ == crate::text::views(list@)[j]) by {
            assert(crate::text::views(list@)[j] == list@[j]@);
        }
    }
    r
}

/// What the seed of a field gives: the strings of `needs`, or the value of
/// `steps`, written as YAML with surrounding white space removed; a field
/// that is not there counts as an empty list.
pub open spec fn seed_of(field: WorkflowJobEditableField, v: Option<YamlNode>, r: Result<Seq<char>, Seq<char>>) -> bool {
    match field {
        WorkflowJobEditableField::Needs => strings_seed(match v {
            Some(n) => yaml_node_strings(n),
            None => Ok(Seq::empty()),
        }, r),
        WorkflowJobEditableField::Steps => match v {
            Some(x) => fragment_of(x, r),
            None => strings_seed(Ok(Seq::empty()), r),
        },
    }
}

/// Whether `r` is the strings `strs` gave written as a YAML fragment, or
/// the error of reading them.
pub open spec fn strings_seed(strs: Result<Seq<Seq<char>>, Seq<char>>, r: Result<Seq<char>, Seq<char>>) -> bool {
    match strs {
        Err(e) => r == Err::<Seq<char>, Seq<char>>(e),
        Ok(list) => strings_fragment(list, r),
    }
}

/// Whether `r` is the strings `list` written as a YAML fragment.
pub open spec fn strings_fragment(list: Seq<Seq<char>>, r: Result<Seq<char>, Seq<char>>) -> bool {
    exists|n: YamlNode| #[trigger] strings_node(n, list) && fragment_of(n, r)
}

/// Whether `r` is the node `n` written as a YAML fragment, trimmed.
pub open spec fn fragment_of(n: YamlNode, r: Result<Seq<char>, Seq<char>>) -> bool {
    match yaml_rendered(n) {
        Ok(t) => r == Ok::<Seq<char>, Seq<char>>(trim_seq(t)),
        Err(e) => r == Err::<Seq<char>, Seq<char>>(e),
    }
}

/// Writes a node as a YAML fragment, trimmed.
fn render_fragment(n: &YamlNode) -> (r: Result<String, String>)
    ensures
        match yaml_rendered(*n) {
            Ok(t) => r is Ok && r->Ok_0@ == trim_seq(t),
            Err(e) => r is Err && r->Err_0@ == e,
        },
{
    match render_yaml(n) {
        Ok(t) => Ok(String::from_str(trim_str(t.as_str()))),
        Err(e) => Err(e),
    }
}

/// The text that the editor of field `field` of job `job_name` opens with,
/// from the workflow file at `workflow_path` whose text is `contents`.
pub fn job_field_seed(contents: &str, workflow_path: &str, job_name: &str, field: WorkflowJobEditableField)
    -> (r: Result<String, String>)
    ensures
        match yaml_document(contents@) {
            Err(e) => text_result(r) == Err::<Seq<char>, Seq<char>>(parse_error(workflow_path@, e)),
            Ok(doc) => match job_fields(doc, job_name@) {
                Err(m) => text_result(r) == Err::<Seq<char>, Seq<char>>(m),
                Ok(f) => seed_of(field, get_key(f, field_key(field)), text_result(r)),
            },
        },
{
    let doc = match parse_workflow_text(contents, workflow_path) {
        Ok(d) => d,
        Err(e) => return Err(e),
    };
    let value = match read_job_field(&doc, job_name, field_key_str(field)) {
        Err(m) => return Err(m),
        Ok(v) => v,
    };
    match field {
        WorkflowJobEditableField::Needs => {
            let list = match value {
                Some(n) => match node_strings(n) {
                    Ok(l) => l,
                    Err(e) => return Err(e),
                },
                None => {
                    let l: Vec<String> = Vec::new();
                    proof {
                        assert(crate::text::views(l@) =~= Seq::<Seq<char>>::empty());
                    }
                    l
                },
            };
            let ghost lv = crate::text::views(list@);
            let node = strings_to_node(list);
            let out = render_fragment(&node);
            proof {
                assert(strings_node(node, lv));
                assert(fragment_of(node, text_result(out)));
                let f = job_fields(doc, job_name@)->Ok_0;
                let strs: Result<Seq<Seq<char>>, Seq<char>> = match get_key(f, field_key(field)) {
                    Some(n) => yaml_node_strings(n),
                    None => Ok(Seq::empty()),
                };
                assert(strs == Ok::<Seq<Seq<char>>, Seq<char>>(lv));
                assert(field == WorkflowJobEditableField::Needs);
                assert(exists|n: YamlNode| #[trigger] strings_node(n, lv) && fragment_of(n, text_result(out)));
                assert(strings_fragment(lv, text_result(out)));
                assert(strings_seed(Ok(lv), text_result(out)));
                assert(strings_seed(strs, text_result(out)));
                assert(seed_of(field, get_key(f, field_key(field)), text_result(out)));
            }
            out
        },
        WorkflowJobEditableField::Steps => {
            match value {
                Some(n) => render_fragment(n),
                None => {
                    let l: Vec<String> = Vec::new();
                    proof {
                        assert(crate::text::views(l@) =~= Seq::<Seq<char>>::empty());
                    }
                    let node = strings_to_node(l);
                    let out = render_fragment(&node);
                    proof {
                        assert(strings_node(node, Seq::<Seq<char>>::empty()));
                        assert(fragment_of(node, text_result(out)));
                        assert(strings_fragment(Seq::<Seq<char>>::empty(), text_result(out)));
                    }
                    out
                },
            }
        },
    }
}

/// The value of field `field` of job `job_name` in the workflow file at
/// `workflow_path` whose text is `contents`, if the job sets it.
pub fn job_field_node(contents: &str, workflow_path: &str, job_name: &str, field: WorkflowJobEditableField)
    -> (r: Result<Option<YamlNode>, String>)
    ensures
        match yaml_document(contents@) {
            Err(e) => r is Err && r->Err_0@ == parse_error(workflow_path@, e),
            Ok(doc) => match job_fields(doc, job_name@) {
                Err(m) => r is Err && r->Err_0@ == m,
                Ok(f) => r == Ok::<Option<YamlNode>, String>(get_key(f, field_key(field))),
            },
        },
{
    let doc = match parse_workflow_text(contents, workflow_path) {
        Ok(d) => d,
        Err(e) => return Err(e),
    };
    take_job_field(doc, job_name, field_key_str(field))
}

/// The error of an editor's text for field `field`, where it does not read:
/// `needs` must be a list of strings and `steps` YAML (the caller reads it
/// into steps first); a blank text reads as an empty list.
pub open spec fn field_text_error(field: WorkflowJobEditableField, text: Seq<char>) -> Option<Seq<char>> {
    if trim_seq(text).len() == 0 {
        None
    } else {
        match field {
            WorkflowJobEditableField::Needs => match yaml_string_list(text) {
                Err(e) => Some(e),
                Ok(_) => None,
            },
            WorkflowJobEditableField::Steps => match yaml_document(text) {
                Err(e) => Some(e),
                Ok(_) => None,
            },
        }
    }
}

/// Whether `v` is the value an editor's text `text` gives field `field`.
pub open spec fn field_value_ok(field: WorkflowJobEditableField, text: Seq<char>, v: YamlNode) -> bool {
    if trim_seq(text).len() == 0 {
        strings_node(v, Seq::empty())
    } else {
        match field {
            WorkflowJobEditableField::Needs => yaml_string_list(text) is Ok && strings_node(v, yaml_string_list(text)->Ok_0),
            WorkflowJobEditableField::Steps => yaml_document(text) == Ok::<YamlNode, Seq<char>>(v),
        }
    }
}

/// The value an editor's text gives a field.
fn field_value(field: WorkflowJobEditableField, text: &str) -> (r: Result<YamlNode, String>)
    ensures
        match field_text_error(field, text@) {
            Some(e) => r is Err && r->Err_0@ == e,
            None => r is Ok && field_value_ok(field, text@, r->Ok_0),
        },
{
    if trim_str(text).unicode_len() == 0 {
        let l: Vec<String> = Vec::new();
        proof {
            assert(crate::text::views(l@) =~= Seq::<Seq<char>>::empty());
        }
        return Ok(strings_to_node(l));
    }
    match field {
        WorkflowJobEditableField::Needs => match parse_string_list(text) {
            Ok(l) => Ok(strings_to_node(l)),
            Err(e) => Err(e),
        },
        WorkflowJobEditableField::Steps => parse_yaml_text(text),
    }
}

/// Writes the editor's text `text` into field `field` of job `job_name` of
/// the workflow file at `workflow_path`, whose text is `contents`: the new
/// text of the file. A text that does not read is refused first, with its
/// error.
pub fn write_job_field(
    contents: &str,
    workflow_path: &str,
    job_name: &str,
    field: WorkflowJobEditableField,
    text: &str,
) -> (r: Result<String, String>)
    ensures
        match field_text_error(field, text@) {
            Some(e) => text_result(r) == Err::<Seq<char>, Seq<char>>(e),
            None => job_edit(contents@, workflow_path@, job_name@, field_key(field),
                |c: Option<YamlNode>, v: YamlNode| field_value_ok(field, text@, v), text_result(r)),
        },
{
    let value = match field_value(field, text) {
        Ok(v) => v,
        Err(e) => return Err(e),
    };
    let doc = match parse_workflow_text(contents, workflow_path) {
        Ok(d) => d,
        Err(e) => return Err(e),
    };
    match read_job_field(&doc, job_name, field_key_str(field)) {
        Err(m) => return Err(m),
        Ok(_) => {},
    }
    rewrite_job_field(doc, workflow_path, job_name, field_key_str(field), value)
}

} // verus!
