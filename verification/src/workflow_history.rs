//! Where a workflow reply came from, and how the main thread shows it.
use vstd::prelude::*;
use vstd::string::*;
use crate::history::HistoryNotice;
use crate::text::{trim_seq, trim_str, take_chars, prefix_chars, concat2, concat3, opt_view};

verus! {

/// The workflow that produced a reply, and the action it answered.
#[derive(Debug, PartialEq, Eq)]
pub struct WorkflowReplySource {
    pub workflow_id: String,
    pub action: Option<String>,
}

/// The first 48 characters of `prompt`, with `...` when it is longer.
pub open spec fn workflow_prompt_prefix_spec(prompt: Seq<char>) -> Seq<char> {
    if prompt.len() > 48 {
        take_chars(prompt, 48) + "..."@
    } else {
        prompt
    }
}

/// The hint of a reply source: the workflow id, followed by ` · ` and the
/// action's prefix when the trimmed action is not empty.
pub open spec fn reply_hint_spec(workflow_id: Seq<char>, action: Option<Seq<char>>) -> Seq<char> {
    match action {
        Some(a) => if trim_seq(a).len() > 0 {
            workflow_id + " · "@ + workflow_prompt_prefix_spec(trim_seq(a))
        } else {
            workflow_id
        },
        None => workflow_id,
    }
}

/// A short form of `prompt` for hints.
pub fn workflow_prompt_prefix(prompt: &str) -> (r: String)
    ensures
        r@ == workflow_prompt_prefix_spec(prompt@),
{
    let prefix = prefix_chars(prompt, 48);
    if prompt.unicode_len() > 48 {
        concat2(prefix, "...")
    } else {
        String::from_str(prefix)
    }
}

impl WorkflowReplySource {
    /// A source for `workflow_id`, answering `action` if given.
    pub fn new(workflow_id: String, action: Option<String>) -> (r: Self)
        ensures
            r.workflow_id@ == workflow_id@,
            opt_view(r.action) == opt_view(action),
    {
        WorkflowReplySource { workflow_id, action }
    }

    /// The hint shown beside a reply.
    pub fn hint(&self) -> (r: String)
        ensures
            r@ == reply_hint_spec(self.workflow_id@, opt_view(self.action)),
    {
        match &self.action {
            Some(a) => {
                let trimmed = trim_str(a.as_str());
                if trimmed.unicode_len() > 0 {
                    let prefix = workflow_prompt_prefix(trimmed);
                    concat3(self.workflow_id.as_str(), " · ", prefix.as_str())
                } else {
                    self.workflow_id.clone()
                }
            },
            None => self.workflow_id.clone(),
        }
    }
}

/// The history entry that marks a workflow reply.
pub fn workflow_info_cell(source: &WorkflowReplySource) -> (r: HistoryNotice)
    ensures
        r matches HistoryNotice::Info { message, hint } && message@ == "Workflow reply"@
            && opt_view(hint) == Some(reply_hint_spec(source.workflow_id@, opt_view(source.action))),
{
    HistoryNotice::Info { message: String::from_str("Workflow reply"), hint: Some(source.hint()) }
}

} // verus!
