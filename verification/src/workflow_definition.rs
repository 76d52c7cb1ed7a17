//! Workflow definitions: the parsed shape of a workflow file, the registry of
//! loaded jobs, and the order in which a selection of jobs runs.
use vstd::prelude::*;
use vstd::string::*;
use std::collections::VecDeque;
use crate::text::{views, concat3, str_eq, lemma_views_push, path_join, path_join_spec};
use crate::seq_facts::{lemma_unique_within_len, lemma_filter_within, lemma_unique_same_len_covers};

verus! {

/// The error that loading or ordering workflows reports.
#[derive(Debug, PartialEq, Eq)]
pub enum WorkflowDefinitionError {
    Io(String),
    Invalid(String),
}

impl WorkflowDefinitionError {
    /// The message the error displays.
    pub open spec fn message(&self) -> Seq<char> {
        match self {
            WorkflowDefinitionError::Io(m) => m@,
            WorkflowDefinitionError::Invalid(m) => m@,
        }
    }

    /// The displayed message.
    pub fn to_string(&self) -> (r: String)
        ensures
            r@ == self.message(),
    {
        match self {
            WorkflowDefinitionError::Io(m) => m.clone(),
            WorkflowDefinitionError::Invalid(m) => m.clone(),
        }
    }
}

/// Where a job's prompts run relative to the main thread.
#[derive(Debug, Clone, Copy, PartialEq, Eq, Structural)]
pub enum WorkflowContextStrategy {
    Embed,
    EmbedCompact,
    ThreadAuto,
    ThreadNew,
    ThreadFork,
    ThreadForkCompact,
}

/// Whether a job inherits the session's permissions.
#[derive(Debug, Clone, Copy, PartialEq, Eq, Structural)]
pub enum WorkflowExecutionStrategy {
    InheritSession,
    OverrideYolo,
}

/// Who delivers a job's final message.
#[derive(Debug, Clone, Copy, PartialEq, Eq, Structural)]
pub enum WorkflowResponseMode {
    Assistant,
    User,
}

/// Which finished turns an `after_turn` trigger reacts to.
#[derive(Debug, Clone, Copy, PartialEq, Eq, Structural)]
pub enum WorkflowAfterTurnCondition {
    TurnFinished,
    TurnSucceeded,
}

/// The status a primary turn ended with.
#[derive(Debug, Clone, Copy, PartialEq, Eq, Structural)]
pub enum TurnStatus {
    Completed,
    Interrupted,
    Failed,
    InProgress,
}

impl WorkflowAfterTurnCondition {
    /// `TurnFinished` accepts completed and failed turns, `TurnSucceeded` only
    /// completed ones.
    pub fn matches_turn_status(self, status: &TurnStatus) -> (r: bool)
        ensures
            r == (match self {
                WorkflowAfterTurnCondition::TurnFinished => *status == TurnStatus::Completed
                    || *status == TurnStatus::Failed,
                WorkflowAfterTurnCondition::TurnSucceeded => *status == TurnStatus::Completed,
            }),
    {
        match (self, status) {
            (WorkflowAfterTurnCondition::TurnFinished, TurnStatus::Completed) => true,
            (WorkflowAfterTurnCondition::TurnFinished, TurnStatus::Failed) => true,
            (WorkflowAfterTurnCondition::TurnSucceeded, TurnStatus::Completed) => true,
            _ => false,
        }
    }
}

/// The value a missing `enabled` flag takes.
pub fn default_true() -> (r: bool)
    ensures
        r,
{
    true
}

/// One step of a job: a shell command or a prompt.
#[derive(Debug, PartialEq, Eq)]
pub enum WorkflowStep {
    Run { run: String, retry: Option<u32>, timeout: Option<String> },
    Prompt { prompt: String, retry: Option<u32>, timeout: Option<String> },
}

impl WorkflowStep {
    /// The configured retry count, or the whole step's timeout text.
    pub open spec fn retry_spec(&self) -> Option<u32> {
        match self {
            WorkflowStep::Run { retry, .. } => *retry,
            WorkflowStep::Prompt { retry, .. } => *retry,
        }
    }

    /// The step's timeout text, if it sets one.
    pub open spec fn timeout_text(&self) -> Option<String> {
        match self {
            WorkflowStep::Run { timeout, .. } => *timeout,
            WorkflowStep::Prompt { timeout, .. } => *timeout,
        }
    }

    /// How many attempts the step gets: its `retry`, or one.
    pub fn retry_attempts(&self) -> (r: u32)
        ensures
            r == (match self.retry_spec() {
                Some(n) => n,
                None => 1u32,
            }),
    {
        match self {
            WorkflowStep::Run { retry, .. } => match retry {
                Some(n) => *n,
                None => 1,
            },
            WorkflowStep::Prompt { retry, .. } => match retry {
                Some(n) => *n,
                None => 1,
            },
        }
    }

    /// `"run"` or `"prompt"`.
    pub fn kind(&self) -> (r: &'static str)
        ensures
            r@ == (match self {
                WorkflowStep::Run { .. } => "run"@,
                WorkflowStep::Prompt { .. } => "prompt"@,
            }),
    {
        match self {
            WorkflowStep::Run { .. } => "run",
            WorkflowStep::Prompt { .. } => "prompt",
        }
    }
}

/// A length of time, as seconds and nanoseconds.
#[derive(Debug, Clone, Copy, PartialEq, Eq, Structural)]
pub struct WorkflowDuration {
    pub secs: u64,
    pub nanos: u32,
}

/// The largest number of whole seconds a duration holds.
pub open spec fn max_duration_seconds() -> nat {
    18_446_744_073_709_551_615
}

/// The value of an ASCII digit.
pub open spec fn digit_value(c: char) -> nat {
    (c as u32 - '0' as u32) as nat
}

/// An ASCII digit.
pub open spec fn is_digit(c: char) -> bool {
    '0' <= c && c <= '9'
}

/// A character that may stand in the name of a time unit.
pub open spec fn is_unit_letter(c: char) -> bool {
    ('a' <= c && c <= 'z') || ('A' <= c && c <= 'Z') || c == '\u{b5}'
}

/// Seconds in the time unit a duration text names, or 0 for a name that
/// is no unit.
pub open spec fn unit_seconds(u: Seq<char>) -> nat {
    if u == "nanos"@ || u == "nsec"@ || u == "ns"@ || u == "usec"@ || u == "us"@ || u
        == "\u{b5}s"@ || u == "millis"@ || u == "msec"@ || u == "ms"@ || u == "seconds"@ || u
        == "second"@ || u == "secs"@ || u == "sec"@ || u == "s"@ {
        1
    } else if u == "minutes"@ || u == "minute"@ || u == "min"@ || u == "mins"@ || u == "m"@ {
        60
    } else if u == "hours"@ || u == "hour"@ || u == "hr"@ || u == "hrs"@ || u == "h"@ {
        3600
    } else if u == "days"@ || u == "day"@ || u == "d"@ {
        86400
    } else if u == "weeks"@ || u == "week"@ || u == "wk"@ || u == "wks"@ || u == "w"@ {
        604800
    } else if u == "months"@ || u == "month"@ || u == "M"@ {
        2_630_016
    } else if u == "years"@ || u == "year"@ || u == "yr"@ || u == "yrs"@ || u == "y"@ {
        31_557_600
    } else {
        0
    }
}

/// The seconds a span of `n` units of `unit_secs` seconds can add to a
/// duration: its whole units, and one unit more for a fraction. A unit
/// below a second counts as a whole second.
pub open spec fn span_weight(n: nat, frac: bool, unit_secs: nat) -> nat {
    (n * unit_secs + if frac { unit_secs } else { 0 }) as nat
}

/// A number of more digits than fit in `u64` counts as one past its largest value.
pub open spec fn clamp_number(n: nat) -> nat {
    if n > max_duration_seconds() { max_duration_seconds() + 1 } else { n }
}

/// Where the scan of a duration text stands.
#[derive(Clone, Copy, PartialEq, Eq, Structural)]
pub enum DurationScan {
    /// Before a span: white space, then its first digit.
    Gap,
    /// In the digits (and white space) of a span's number.
    Number,
    /// Just after a decimal point, before any digit of the fraction.
    Point,
    /// In the digits of a fraction.
    Fraction,
    /// In the letters of a unit.
    Unit,
}

/// Scans `s` from `i` as a list of spans, each a number with an optional
/// fraction and a unit: `n` is the number of the span in progress, `frac`
/// whether it has a fraction, `ustart` where its unit began and `total` the
/// weight of the spans before it. Whether those weights stay within the
/// seconds a duration holds. The scan stops, within range, where the text
/// stops being a duration: a character out of place, a point without
/// digits, a name that is no unit, or its end without a unit.
pub open spec fn duration_scan_fits(
    s: Seq<char>,
    i: int,
    mode: DurationScan,
    n: nat,
    frac: bool,
    ustart: int,
    total: nat,
) -> bool
    decreases s.len() - i,
{
    if i >= s.len() || i < 0 {
        mode == DurationScan::Unit ==> total + span_weight(
            n,
            frac,
            unit_seconds(s.subrange(ustart, s.len() as int)),
        ) <= max_duration_seconds()
    } else {
        let c = s[i];
        match mode {
            DurationScan::Gap => if is_digit(c) {
                duration_scan_fits(s, i + 1, DurationScan::Number, digit_value(c), false, ustart, total)
            } else if crate::text::is_white_space(c) {
                duration_scan_fits(s, i + 1, DurationScan::Gap, n, frac, ustart, total)
            } else {
                true
            },
            DurationScan::Number => if is_digit(c) {
                duration_scan_fits(
                    s,
                    i + 1,
                    DurationScan::Number,
                    clamp_number(n * 10 + digit_value(c)),
                    false,
                    ustart,
                    total,
                )
            } else if crate::text::is_white_space(c) {
                duration_scan_fits(s, i + 1, DurationScan::Number, n, false, ustart, total)
            } else if is_unit_letter(c) {
                duration_scan_fits(s, i + 1, DurationScan::Unit, n, false, i, total)
            } else if c == '.' {
                duration_scan_fits(s, i + 1, DurationScan::Point, n, true, ustart, total)
            } else {
                true
            },
            DurationScan::Point => if is_digit(c) {
                duration_scan_fits(s, i + 1, DurationScan::Fraction, n, true, ustart, total)
            } else if crate::text::is_white_space(c) {
                duration_scan_fits(s, i + 1, DurationScan::Point, n, true, ustart, total)
            } else {
                true
            },
            DurationScan::Fraction => if is_digit(c) || crate::text::is_white_space(c) {
                duration_scan_fits(s, i + 1, DurationScan::Fraction, n, true, ustart, total)
            } else if is_unit_letter(c) {
                duration_scan_fits(s, i + 1, DurationScan::Unit, n, true, i, total)
            } else {
                true
            },
            DurationScan::Unit => if is_unit_letter(c) {
                duration_scan_fits(s, i + 1, DurationScan::Unit, n, frac, ustart, total)
            } else if is_digit(c) || crate::text::is_white_space(c) {
                let secs = unit_seconds(s.subrange(ustart, i));
                let t = total + span_weight(n, frac, secs);
                secs == 0 || (t <= max_duration_seconds() && if is_digit(c) {
                    duration_scan_fits(s, i + 1, DurationScan::Number, digit_value(c), false, i, t)
                } else {
                    duration_scan_fits(s, i + 1, DurationScan::Gap, 0, false, i, t)
                })
            } else {
                true
            },
        }
    }
}

/// Whether the durations that `text` names stay within the seconds a
/// duration holds: the spans it lists, each counted as its whole units plus
/// one unit for a fraction, add up to at most `u64::MAX` seconds.
pub open spec fn duration_text_in_range(text: Seq<char>) -> bool {
    duration_scan_fits(text, 0, DurationScan::Gap, 0, false, 0, 0)
}

/// Seconds in the time unit named `u`, as `unit_seconds` says.
fn unit_seconds_of(u: &str) -> (r: u64)
    ensures
        r as nat == unit_seconds(u@),
{
    if str_eq(u, "nanos") || str_eq(u, "nsec") || str_eq(u, "ns") || str_eq(u, "usec")
        || str_eq(u, "us") || str_eq(u, "\u{b5}s") || str_eq(u, "millis") || str_eq(u, "msec")
        || str_eq(u, "ms") || str_eq(u, "seconds") || str_eq(u, "second") || str_eq(u, "secs")
        || str_eq(u, "sec") || str_eq(u, "s") {
        1
    } else if str_eq(u, "minutes") || str_eq(u, "minute") || str_eq(u, "min") || str_eq(u, "mins")
        || str_eq(u, "m") {
        60
    } else if str_eq(u, "hours") || str_eq(u, "hour") || str_eq(u, "hr") || str_eq(u, "hrs")
        || str_eq(u, "h") {
        3600
    } else if str_eq(u, "days") || str_eq(u, "day") || str_eq(u, "d") {
        86400
    } else if str_eq(u, "weeks") || str_eq(u, "week") || str_eq(u, "wk") || str_eq(u, "wks")
        || str_eq(u, "w") {
        604800
    } else if str_eq(u, "months") || str_eq(u, "month") || str_eq(u, "M") {
        2_630_016
    } else if str_eq(u, "years") || str_eq(u, "year") || str_eq(u, "yr") || str_eq(u, "yrs")
        || str_eq(u, "y") {
        31_557_600
    } else {
        0
    }
}

/// Whether the durations that `text` names stay within the seconds a
/// duration holds, as `duration_text_in_range` says.
pub fn duration_text_fits(text: &str) -> (r: bool)
    ensures
        r == duration_text_in_range(text@),
{
    let len = text.unicode_len();
    let mut i: usize = 0;
    let mut mode = DurationScan::Gap;
    let mut n: u128 = 0;
    let mut frac = false;
    let mut ustart: usize = 0;
    let mut total: u128 = 0;
    while i < len
        invariant
            len == text@.len(),
            i <= len,
            ustart <= i,
            n <= max_duration_seconds() + 1,
            total <= max_duration_seconds(),
            (mode == DurationScan::Point || mode == DurationScan::Fraction) ==> frac,
            duration_scan_fits(text@, i as int, mode, n as nat, frac, ustart as int, total as nat)
                == duration_text_in_range(text@),
        decreases len - i,
    {
        let c = text.get_char(i);
        let digit = '0' <= c && c <= '9';
        let white = crate::text::is_white_space_char(c);
        let letter = ('a' <= c && c <= 'z') || ('A' <= c && c <= 'Z') || c == '\u{b5}';
        match mode {
            DurationScan::Gap => {
                if digit {
                    mode = DurationScan::Number;
                    n = (c as u32 - '0' as u32) as u128;
                    frac = false;
                } else if !white {
                    return true;
                }
            },
            DurationScan::Number => {
                if digit {
                    let next = n * 10 + (c as u32 - '0' as u32) as u128;
                    n = if next > 18_446_744_073_709_551_615 {
                        18_446_744_073_709_551_616
                    } else {
                        next
                    };
                    frac = false;
                } else if white {
                    frac = false;
                } else if letter {
                    mode = DurationScan::Unit;
                    frac = false;
                    ustart = i;
                } else if c == '.' {
                    mode = DurationScan::Point;
                    frac = true;
                } else {
                    return true;
                }
            },
            DurationScan::Point => {
                if digit {
                    mode = DurationScan::Fraction;
                } else if !white {
                    return true;
                }
            },
            DurationScan::Fraction => {
                if letter {
                    mode = DurationScan::Unit;
                    ustart = i;
                } else if !digit && !white {
                    return true;
                }
            },
            DurationScan::Unit => {
                if digit || white {
                    let secs = unit_seconds_of(text.substring_char(ustart, i)) as u128;
                    if secs == 0 {
                        return true;
                    }
                    let w = n * secs + if frac { secs } else { 0 };
                    proof {
                        assert(n * secs <= (max_duration_seconds() + 1) * 31_557_600) by (nonlinear_arith)
                            requires
                                n <= max_duration_seconds() + 1,
                                secs <= 31_557_600,
                        ;
                    }
                    if total + w > 18_446_744_073_709_551_615 {
                        return false;
                    }
                    total = total + w;
                    ustart = i;
                    frac = false;
                    if digit {
                        mode = DurationScan::Number;
                        n = (c as u32 - '0' as u32) as u128;
                    } else {
                        mode = DurationScan::Gap;
                        n = 0;
                    }
                } else if !letter {
                    return true;
                }
            },
        }
        i = i + 1;
    }
    if mode == DurationScan::Unit {
        let secs = unit_seconds_of(text.substring_char(ustart, len)) as u128;
        proof {
            assert(n * secs <= (max_duration_seconds() + 1) * 31_557_600) by (nonlinear_arith)
                requires
                    n <= max_duration_seconds() + 1,
                    secs <= 31_557_600,
            ;
        }
        let w = n * secs + if frac { secs } else { 0 };
        total + w <= 18_446_744_073_709_551_615
    } else {
        true
    }
}

/// What `humantime::parse_duration` returns for `text`: the duration, or the
/// message of its error.
pub uninterp spec fn humantime_duration(text: Seq<char>) -> Result<WorkflowDuration, Seq<char>>;

/// Calls `humantime::parse_duration`. The contract claims that the result is
/// the named `humantime_duration` of the text; that `"0"` is the zero
/// duration, as the function's first line shows; and that the nanoseconds
/// of a parsed duration are below a second, as `Duration::subsec_nanos`
/// documents. The parser adds each span to the duration with checked
/// arithmetic and panics only in `Duration::new`, when the seconds reach
/// `u64::MAX` with a whole second's worth of nanoseconds still to carry;
/// `requires` leaves out every text whose spans could add up past
/// `u64::MAX` seconds, counting a fraction, and a unit below a second, as a
/// whole unit more.
#[verifier::external_body]
fn parse_duration_text(text: &str) -> (r: Result<WorkflowDuration, String>)
    requires
        duration_text_in_range(text@),
    ensures
        r is Ok <==> humantime_duration(text@) is Ok,
        r is Ok ==> r->Ok_0 == humantime_duration(text@)->Ok_0,
        r is Err ==> r->Err_0@ == humantime_duration(text@)->Err_0,
        r matches Ok(d) ==> (text@ == "0"@ ==> d.secs == 0 && d.nanos == 0),
        r is Ok || text@ != "0"@,
        r matches Ok(d) ==> d.nanos < 1_000_000_000,
{
    match humantime::parse_duration(text) {
        Ok(d) => Ok(WorkflowDuration { secs: d.as_secs(), nanos: d.subsec_nanos() }),
        Err(e) => Err(e.to_string()),
    }
}

/// The message of a duration too large to name, as humantime words it.
pub open spec fn duration_too_large_message() -> Seq<char> {
    "number is too large or cannot be represented without a lack of precision (values below 1ns are not supported)"@
}

/// What `WorkflowStep::timeout` yields for a timeout text: a text whose
/// spans could add up past the seconds a duration holds is refused as too
/// large; any other is parsed by humantime.
pub open spec fn step_timeout_spec(
    timeout: Option<Seq<char>>,
    default_timeout: WorkflowDuration,
) -> Result<WorkflowDuration, Seq<char>> {
    match timeout {
        None => Ok(default_timeout),
        Some(t) => if !duration_text_in_range(t) {
            Err("invalid step timeout `"@ + t + "`: "@ + duration_too_large_message())
        } else {
            match humantime_duration(t) {
                Ok(d) => Ok(d),
                Err(e) => Err("invalid step timeout `"@ + t + "`: "@ + e),
            }
        },
    }
}

impl WorkflowStep {
    /// The step's timeout: its own, parsed, or `default_timeout` when it sets none.
    pub fn timeout(&self, default_timeout: WorkflowDuration) -> (r: Result<WorkflowDuration, String>)
        ensures
            match r {
                Ok(d) => step_timeout_spec(crate::text::opt_view(self.timeout_text()), default_timeout)
                    is Ok && step_timeout_spec(crate::text::opt_view(self.timeout_text()), default_timeout)->Ok_0 == d,
                Err(e) => step_timeout_spec(crate::text::opt_view(self.timeout_text()), default_timeout)
                    is Err && step_timeout_spec(crate::text::opt_view(self.timeout_text()), default_timeout)->Err_0 == e@,
            },
            r matches Ok(d) ==> (self.timeout_text() is None ==> d == default_timeout),
            r matches Ok(d) ==> (self.timeout_text() is Some ==> d.nanos < 1_000_000_000),
    {
        let timeout = match self {
            WorkflowStep::Run { timeout, .. } => timeout,
            WorkflowStep::Prompt { timeout, .. } => timeout,
        };
        match timeout {
            None => Ok(default_timeout),
            Some(t) => if !duration_text_fits(t.as_str()) {
                let mut m = concat3("invalid step timeout `", t.as_str(), "`: ");
                m.append("number is too large or cannot be represented without a lack of precision (values below 1ns are not supported)");
                Err(m)
            } else {
                match parse_duration_text(t.as_str()) {
                Ok(d) => Ok(d),
                Err(e) => {
                    let mut m = concat3("invalid step timeout `", t.as_str(), "`: ");
                    m.append(e.as_str());
                    Err(m)
                },
                }
            },
        }
    }
}

impl WorkflowContextStrategy {
    /// The name the strategy has in workflow files.
    pub open spec fn name(self) -> Seq<char> {
        match self {
            WorkflowContextStrategy::Embed => "embed"@,
            WorkflowContextStrategy::EmbedCompact => "embed_compact"@,
            WorkflowContextStrategy::ThreadAuto => "thread_auto"@,
            WorkflowContextStrategy::ThreadNew => "thread_new"@,
            WorkflowContextStrategy::ThreadFork => "thread_fork"@,
            WorkflowContextStrategy::ThreadForkCompact => "thread_fork_compact"@,
        }
    }

    /// Whether prompts are embedded in the main thread.
    pub open spec fn is_embed(self) -> bool {
        self == WorkflowContextStrategy::Embed || self == WorkflowContextStrategy::EmbedCompact
    }

    /// The name the strategy has in workflow files.
    pub fn as_str(self) -> (r: &'static str)
        ensures
            r@ == self.name(),
    {
        match self {
            WorkflowContextStrategy::Embed => "embed",
            WorkflowContextStrategy::EmbedCompact => "embed_compact",
            WorkflowContextStrategy::ThreadAuto => "thread_auto",
            WorkflowContextStrategy::ThreadNew => "thread_new",
            WorkflowContextStrategy::ThreadFork => "thread_fork",
            WorkflowContextStrategy::ThreadForkCompact => "thread_fork_compact",
        }
    }
}

impl WorkflowExecutionStrategy {
    /// The name the strategy has in workflow files.
    pub fn as_str(self) -> (r: &'static str)
        ensures
            r@ == (match self {
                WorkflowExecutionStrategy::InheritSession => "inherit_session"@,
                WorkflowExecutionStrategy::OverrideYolo => "override_yolo"@,
            }),
    {
        match self {
            WorkflowExecutionStrategy::InheritSession => "inherit_session",
            WorkflowExecutionStrategy::OverrideYolo => "override_yolo",
        }
    }
}

/// A job as a workflow file configures it.
#[derive(Debug, PartialEq, Eq)]
pub struct WorkflowJobConfig {
    pub enabled: bool,
    pub needs: Vec<String>,
    pub context_strategy: WorkflowContextStrategy,
    pub execution_strategy: WorkflowExecutionStrategy,
    pub response: WorkflowResponseMode,
    pub steps: Vec<WorkflowStep>,
}

/// What makes a trigger fire.
#[derive(Debug, PartialEq, Eq)]
pub enum WorkflowTriggerKind {
    Manual,
    BeforeTurn,
    AfterTurn { condition: WorkflowAfterTurnCondition },
    FileWatch,
    Idle { after: String },
    Interval { every: String },
    Cron { cron: String },
}

/// A job of the registry, with the file and position it came from.
#[derive(Debug, PartialEq, Eq)]
pub struct LoadedWorkflowJob {
    pub name: String,
    pub workflow_name: String,
    pub workflow_path: String,
    pub definition_index: usize,
    pub config: WorkflowJobConfig,
}

/// A trigger of a loaded workflow file, with its id settled.
#[derive(Debug, PartialEq, Eq)]
pub struct LoadedWorkflowTrigger {
    pub id: String,
    pub enabled: bool,
    pub jobs: Vec<String>,
    pub kind: WorkflowTriggerKind,
}

/// A loaded workflow file.
#[derive(Debug, PartialEq, Eq)]
pub struct LoadedWorkflowFile {
    pub name: String,
    pub source_path: String,
    pub triggers: Vec<LoadedWorkflowTrigger>,
}

/// Every loaded workflow file, and every job keyed by its name.
#[derive(Debug, PartialEq, Eq)]
pub struct LoadedWorkflowRegistry {
    pub files: Vec<LoadedWorkflowFile>,
    pub jobs: Vec<LoadedWorkflowJob>,
}

/// The dependency-graph facts of a job: its name, what it needs, its
/// definition position and its context strategy.
pub struct JobNode {
    pub name: Seq<char>,
    pub needs: Seq<Seq<char>>,
    pub def: int,
    pub context: WorkflowContextStrategy,
}

/// The graph node of a loaded job.
pub open spec fn job_node(j: LoadedWorkflowJob) -> JobNode {
    JobNode {
        name: j.name@,
        needs: views(j.config.needs@),
        def: j.definition_index as int,
        context: j.config.context_strategy,
    }
}

/// The graph nodes of `jobs`, in order.
pub open spec fn nodes(jobs: Seq<LoadedWorkflowJob>) -> Seq<JobNode> {
    jobs.map_values(|j: LoadedWorkflowJob| job_node(j))
}

/// The names of the nodes of `g`, in order.
pub open spec fn node_names(g: Seq<JobNode>) -> Seq<Seq<char>> {
    g.map_values(|n: JobNode| n.name)
}

/// No two nodes share a name or a definition index.
pub open spec fn jobs_unique(g: Seq<JobNode>) -> bool {
    forall|i: int, j: int|
        0 <= i < g.len() && 0 <= j < g.len() && i != j ==> g[i].name != g[j].name && g[i].def
            != g[j].def
}

/// A job called `name` is in `g`.
pub open spec fn has_job(g: Seq<JobNode>, name: Seq<char>) -> bool {
    exists|i: int| 0 <= i < g.len() && #[trigger] g[i].name == name
}

/// The job called `a` needs `b`.
pub open spec fn job_needs(g: Seq<JobNode>, a: Seq<char>, b: Seq<char>) -> bool {
    exists|i: int| 0 <= i < g.len() && #[trigger] g[i].name == a && g[i].needs.contains(b)
}

/// The definition index of the job called `name`.
pub open spec fn definition_index_of(g: Seq<JobNode>, name: Seq<char>) -> int {
    g[choose|i: int| 0 <= i < g.len() && g[i].name == name].def
}

/// `p` starts at a root and follows `needs` edges.
pub open spec fn is_need_path(
    jobs: Seq<JobNode>,
    roots: Seq<Seq<char>>,
    p: Seq<Seq<char>>,
) -> bool {
    &&& p.len() > 0
    &&& roots.contains(p[0])
    &&& forall|k: int| 0 <= k < p.len() - 1 ==> job_needs(jobs, #[trigger] p[k], p[k + 1])
}

/// `name` is a root or is needed, directly or not, by a root.
pub open spec fn reachable(jobs: Seq<JobNode>, roots: Seq<Seq<char>>, name: Seq<char>) -> bool {
    exists|p: Seq<Seq<char>>| #[trigger] is_need_path(jobs, roots, p) && p.last() == name
}

/// `order` lists every reachable job exactly once, each after the reachable jobs it needs.
pub open spec fn is_run_order(
    jobs: Seq<JobNode>,
    roots: Seq<Seq<char>>,
    order: Seq<Seq<char>>,
) -> bool {
    &&& order.no_duplicates()
    &&& forall|n: Seq<char>| reachable(jobs, roots, n) <==> #[trigger] order.contains(n)
    &&& forall|i: int, n: Seq<char>|
        0 <= i < order.len() && job_needs(jobs, #[trigger] order[i], n) && reachable(jobs, roots, n)
            ==> #[trigger] order.take(i).contains(n)
}

/// Every reachable job the job `name` needs is among `done`.
pub open spec fn ready_after(
    jobs: Seq<JobNode>,
    roots: Seq<Seq<char>>,
    done: Seq<Seq<char>>,
    name: Seq<char>,
) -> bool {
    forall|n: Seq<char>| job_needs(jobs, name, n) && reachable(jobs, roots, n) ==> #[trigger] done.contains(n)
}

/// At each position `order` holds, among the jobs ready at that point, the
/// one defined first.
pub open spec fn picks_first_defined(
    jobs: Seq<JobNode>,
    roots: Seq<Seq<char>>,
    order: Seq<Seq<char>>,
) -> bool {
    forall|i: int, j: int|
        0 <= i < j < order.len() && ready_after(jobs, roots, order.take(i), #[trigger] order[j])
            ==> definition_index_of(jobs, #[trigger] order[i]) < definition_index_of(jobs, order[j])
}

/// A non-empty set of reachable jobs each of which needs another of them:
/// no run order exists.
pub open spec fn has_need_cycle(jobs: Seq<JobNode>, roots: Seq<Seq<char>>) -> bool {
    exists|s: Seq<Seq<char>>| #[trigger] is_stuck_set(jobs, roots, s)
}

/// `s` is non-empty, reachable, and each member needs a member.
pub open spec fn is_stuck_set(
    jobs: Seq<JobNode>,
    roots: Seq<Seq<char>>,
    s: Seq<Seq<char>>,
) -> bool {
    &&& s.len() > 0
    &&& forall|k: int| 0 <= k < s.len() ==> reachable(jobs, roots, #[trigger] s[k])
    &&& forall|k: int| 0 <= k < s.len() ==> needs_member(jobs, #[trigger] s[k], s)
}

/// The job called `x` needs some member of `s`.
pub open spec fn needs_member(jobs: Seq<JobNode>, x: Seq<char>, s: Seq<Seq<char>>) -> bool {
    exists|n: Seq<char>| job_needs(jobs, x, n) && #[trigger] s.contains(n)
}

/// Every reachable job is defined.
pub open spec fn all_reachable_defined(jobs: Seq<JobNode>, roots: Seq<Seq<char>>) -> bool {
    forall|n: Seq<char>| #[trigger] reachable(jobs, roots, n) ==> has_job(jobs, n)
}

/// The message for a reachable job that is not defined.
pub open spec fn missing_root_message(name: Seq<char>) -> Seq<char> {
    "workflow execution root references missing job `"@ + name + "`"@
}

/// The message for a selection that cannot be ordered.
pub open spec fn cycle_message() -> Seq<char> {
    "workflow job selection contains a cyclic dependency graph"@
}

/// The index of the job called `name`.
pub fn find_job(jobs: &Vec<LoadedWorkflowJob>, name: &String) -> (r: Option<usize>)
    ensures
        match r {
            Some(i) => i < jobs@.len() && jobs@[i as int].name@ == name@,
            None => !has_job(nodes(jobs@), name@),
        },
{
    let mut i: usize = 0;
    while i < jobs.len()
        invariant
            i <= jobs@.len(),
            forall|k: int| 0 <= k < i ==> jobs@[k].name@ != name@,
        decreases jobs@.len() - i,
    {
        if jobs[i].name == *name {
            return Some(i);
        }
        i = i + 1;
    }
    assert forall|k: int| 0 <= k < nodes(jobs@).len() implies #[trigger] nodes(jobs@)[k].name != name@ by {
        assert(nodes(jobs@)[k] == job_node(jobs@[k]));
    }
    None
}

/// Whether `v` holds `s`.
pub fn contains_string(v: &Vec<String>, s: &String) -> (r: bool)
    ensures
        r == views(v@).contains(s@),
{
    let mut i: usize = 0;
    while i < v.len()
        invariant
            i <= v@.len(),
            forall|k: int| 0 <= k < i ==> v@[k]@ != s@,
        decreases v@.len() - i,
    {
        if v[i] == *s {
            assert(views(v@)[i as int] == s@);
            return true;
        }
        i = i + 1;
    }
    assert forall|k: int| 0 <= k < views(v@).len() implies views(v@)[k] != s@ by {}
    false
}

proof fn lemma_root_reachable(jobs: Seq<JobNode>, roots: Seq<Seq<char>>, r: Seq<char>)
    requires
        roots.contains(r),
    ensures
        reachable(jobs, roots, r),
{
    let p = seq![r];
    assert(is_need_path(jobs, roots, p));
}

proof fn lemma_extend_reachable(
    jobs: Seq<JobNode>,
    roots: Seq<Seq<char>>,
    a: Seq<char>,
    b: Seq<char>,
)
    requires
        reachable(jobs, roots, a),
        job_needs(jobs, a, b),
    ensures
        reachable(jobs, roots, b),
{
    let p = choose|p: Seq<Seq<char>>| #[trigger] is_need_path(jobs, roots, p) && p.last() == a;
    let q = p.push(b);
    assert forall|k: int| 0 <= k < q.len() - 1 implies job_needs(jobs, #[trigger] q[k], q[k + 1]) by {
        if k < p.len() - 1 {
            assert(q[k] == p[k] && q[k + 1] == p[k + 1]);
        }
    }
    assert(q[0] == p[0]);
    assert(is_need_path(jobs, roots, q));
    assert(q.last() == b);
}

/// Every job on a need path lies in a set that holds the roots and is closed
/// under `needs`.
proof fn lemma_closed_contains_path(
    jobs: Seq<JobNode>,
    roots: Seq<Seq<char>>,
    closed: Seq<Seq<char>>,
    p: Seq<Seq<char>>,
)
    requires
        is_need_path(jobs, roots, p),
        forall|r: Seq<char>| roots.contains(r) ==> #[trigger] closed.contains(r),
        forall|a: Seq<char>, b: Seq<char>|
            closed.contains(a) && #[trigger] job_needs(jobs, a, b) ==> closed.contains(b),
    ensures
        closed.contains(p.last()),
    decreases p.len(),
{
    if p.len() == 1 {
    } else {
        let q = p.drop_last();
        assert forall|k: int| 0 <= k < q.len() - 1 implies job_needs(jobs, #[trigger] q[k], q[k + 1]) by {
            assert(q[k] == p[k] && q[k + 1] == p[k + 1]);
        }
        assert(is_need_path(jobs, roots, q));
        lemma_closed_contains_path(jobs, roots, closed, q);
        assert(job_needs(jobs, p[p.len() - 2], p[p.len() - 1]));
    }
}

/// The name of each reachable job, each once, or the first undefined job met.
fn reachable_jobs(jobs: &Vec<LoadedWorkflowJob>, root_jobs: &[String]) -> (r: Result<
    Vec<String>,
    String,
>)
    requires
        jobs_unique(nodes(jobs@)),
    ensures
        match r {
            Ok(v) => {
                &&& views(v@).no_duplicates()
                &&& forall|n: Seq<char>| reachable(nodes(jobs@), views(root_jobs@), n) <==> #[trigger] views(v@).contains(n)
                &&& forall|n: Seq<char>| #[trigger] views(v@).contains(n) ==> has_job(nodes(jobs@), n)
            },
            Err(m) => reachable(nodes(jobs@), views(root_jobs@), m@) && !has_job(nodes(jobs@), m@),
        },
{
    let ghost g = nodes(jobs@);
    let ghost roots = views(root_jobs@);
    let mut stack: Vec<String> = Vec::new();
    let mut i: usize = 0;
    while i < root_jobs.len()
        invariant
            i <= root_jobs@.len(),
            roots == views(root_jobs@),
            views(stack@) == roots.take(i as int),
        decreases root_jobs@.len() - i,
    {
        let ghost before = stack@;
        let item = root_jobs[i].clone();
        stack.push(item);
        proof {
            lemma_views_push(before, item);
            assert(roots.take(i + 1) =~= roots.take(i as int).push(root_jobs@[i as int]@));
        }
        i = i + 1;
    }
    assert(roots.take(i as int) =~= roots);
    let mut visited: Vec<String> = Vec::new();
    proof {
        assert forall|r: Seq<char>| roots.contains(r) implies #[trigger] views(visited@).contains(r)
            || views(stack@).contains(r) by {}
        assert forall|n: Seq<char>| #[trigger] views(stack@).contains(n) implies reachable(
            g,
            roots,
            n,
        ) by {
            lemma_root_reachable(g, roots, n);
        }
    }
    while stack.len() > 0
        invariant
            jobs_unique(g),
            g == nodes(jobs@),
            roots == views(root_jobs@),
            views(visited@).no_duplicates(),
            forall|n: Seq<char>| #[trigger] views(stack@).contains(n) ==> reachable(g, roots, n),
            forall|n: Seq<char>| #[trigger] views(visited@).contains(n) ==> reachable(g, roots, n)
                && has_job(g, n),
            forall|r: Seq<char>|
                roots.contains(r) ==> #[trigger] views(visited@).contains(r) || views(stack@).contains(r),
            forall|a: Seq<char>, b: Seq<char>|
                views(visited@).contains(a) && #[trigger] job_needs(g, a, b) ==> views(visited@).contains(b)
                    || views(stack@).contains(b),
        decreases g.len() - visited@.len(), stack@.len(),
    {
        let ghost old_stack = views(stack@);
        let ghost old_visited = views(visited@);
        let name = stack.pop().unwrap();
        proof {
            assert(old_stack.last() == name@);
            assert(views(stack@) =~= old_stack.drop_last());
            assert(old_stack.contains(name@));
        }
        let idx = match find_job(jobs, &name) {
            Some(idx) => idx,
            None => {
                return Err(name);
            },
        };
        proof {
            assert forall|x: Seq<char>| old_stack.contains(x) implies x == name@ || views(
                stack@,
            ).contains(x) by {
                let k = old_stack.index_of(x);
                if k < old_stack.len() - 1 {
                    assert(views(stack@)[k] == x);
                }
            }
        }
        if !contains_string(&visited, &name) {
            let ghost name_v = name@;
            let ghost before_visit = visited@;
            proof {
                assert(g[idx as int].name == name_v);
                assert(has_job(g, name_v));
                assert(reachable(g, roots, name_v));
            }
            visited.push(name);
            proof {
                lemma_views_push(before_visit, name);
                assert(views(visited@) == old_visited.push(name_v));
                assert forall|n: Seq<char>| #[trigger] views(visited@).contains(n) implies reachable(
                    g,
                    roots,
                    n,
                ) && has_job(g, n) by {
                    if n != name_v {
                        let k = views(visited@).index_of(n);
                        assert(k < old_visited.len());
                        assert(old_visited[k] == n);
                        assert(old_visited.contains(n));
                    }
                }
                assert(views(visited@).no_duplicates()) by {
                    assert forall|a: int, b: int|
                        0 <= a < views(visited@).len() && 0 <= b < views(visited@).len() && a != b
                        implies views(visited@)[a] != views(visited@)[b] by {
                        if a < old_visited.len() && b < old_visited.len() {
                        } else if a == old_visited.len() {
                            assert(old_visited.contains(views(visited@)[b]));
                        } else {
                            assert(old_visited.contains(views(visited@)[a]));
                        }
                    }
                }
                assert forall|k: int| 0 <= k < views(visited@).len() implies node_names(g).contains(
                    #[trigger] views(visited@)[k],
                ) by {
                    let n = views(visited@)[k];
                    assert(views(visited@).contains(n));
                    let j = choose|j: int| 0 <= j < g.len() && #[trigger] g[j].name == n;
                    assert(node_names(g)[j] == n);
                }
                lemma_unique_within_len(views(visited@), node_names(g));
            }
            let ghost mid_stack = views(stack@);
            let needs = &jobs[idx].config.needs;
            let mut k: usize = 0;
            while k < needs.len()
                invariant
                    k <= needs@.len(),
                    views(stack@) == mid_stack + views(needs@).take(k as int),
                decreases needs@.len() - k,
            {
                let ghost before = stack@;
                let item = needs[k].clone();
                stack.push(item);
                proof {
                    lemma_views_push(before, item);
                    assert(views(needs@).take(k + 1) =~= views(needs@).take(k as int).push(needs@[k as int]@));
                    assert(views(stack@) =~= mid_stack + views(needs@).take(k + 1));
                }
                k = k + 1;
            }
            proof {
                assert(views(needs@).take(k as int) =~= views(needs@));
                assert(g[idx as int].needs == views(needs@));
                assert(reachable(g, roots, name_v));
                assert forall|x: Seq<char>| mid_stack.contains(x) implies views(stack@).contains(x) by {
                    let j = mid_stack.index_of(x);
                    assert(views(stack@)[j] == x);
                }
                assert forall|x: Seq<char>| views(needs@).contains(x) implies views(stack@).contains(x) by {
                    let j = views(needs@).index_of(x);
                    assert(views(stack@)[mid_stack.len() + j] == x);
                }
                assert forall|x: Seq<char>| #[trigger] views(stack@).contains(x) implies reachable(
                    g,
                    roots,
                    x,
                ) by {
                    let j = views(stack@).index_of(x);
                    if j < mid_stack.len() {
                        assert(mid_stack[j] == x);
                        assert(old_stack.contains(x));
                    } else {
                        assert(views(needs@)[j - mid_stack.len()] == x);
                        assert(views(needs@).contains(x));
                        assert(job_needs(g, name_v, x));
                        lemma_extend_reachable(g, roots, name_v, x);
                    }
                }
                assert forall|r: Seq<char>| roots.contains(r) implies #[trigger] views(visited@).contains(r)
                    || views(stack@).contains(r) by {
                    if old_visited.contains(r) {
                        let j = old_visited.index_of(r);
                        assert(views(visited@)[j] == r);
                    } else {
                        assert(old_stack.contains(r));
                        if r == name_v {
                            assert(views(visited@)[old_visited.len() as int] == r);
                        } else {
                            assert(mid_stack.contains(r));
                        }
                    }
                }
                assert forall|a: Seq<char>, b: Seq<char>|
                    views(visited@).contains(a) && #[trigger] job_needs(g, a, b) implies views(
                        visited@,
                    ).contains(b) || views(stack@).contains(b) by {
                    if a == name_v {
                        let i = choose|i: int| 0 <= i < g.len() && #[trigger] g[i].name == a
                            && g[i].needs.contains(b);
                        assert(i == idx);
                        assert(views(needs@).contains(b));
                    } else {
                        let j = views(visited@).index_of(a);
                        assert(old_visited[j] == a);
                        assert(old_visited.contains(a));
                        if old_visited.contains(b) {
                            let jb = old_visited.index_of(b);
                            assert(views(visited@)[jb] == b);
                        } else {
                            assert(old_stack.contains(b));
                            if b == name_v {
                                assert(views(visited@)[old_visited.len() as int] == b);
                            } else {
                                assert(mid_stack.contains(b));
                            }
                        }
                    }
                }
            }
        } else {
            proof {
                assert forall|n: Seq<char>| #[trigger] views(stack@).contains(n) implies reachable(
                    g,
                    roots,
                    n,
                ) by {
                    let j = views(stack@).index_of(n);
                    assert(old_stack[j] == n);
                    assert(old_stack.contains(n));
                }
                assert forall|r: Seq<char>| roots.contains(r) implies #[trigger] views(visited@).contains(r)
                    || views(stack@).contains(r) by {
                    if !old_visited.contains(r) {
                        assert(old_stack.contains(r));
                    }
                }
                assert forall|a: Seq<char>, b: Seq<char>|
                    views(visited@).contains(a) && #[trigger] job_needs(g, a, b) implies views(
                        visited@,
                    ).contains(b) || views(stack@).contains(b) by {
                    if !old_visited.contains(b) {
                        assert(old_stack.contains(b));
                    }
                }
            }
        }
    }
    proof {
        assert forall|n: Seq<char>| reachable(g, roots, n) implies #[trigger] views(visited@).contains(n) by {
            let p = choose|p: Seq<Seq<char>>| #[trigger] is_need_path(g, roots, p) && p.last() == n;
            lemma_closed_contains_path(g, roots, views(visited@), p);
        }
    }
    Ok(visited)
}

/// With unique names, the definition index of a named job is that job's index.
proof fn lemma_definition_index_at(jobs: Seq<JobNode>, i: int)
    requires
        jobs_unique(jobs),
        0 <= i < jobs.len(),
    ensures
        definition_index_of(jobs, jobs[i].name) == jobs[i].def,
{
    let j = choose|j: int| 0 <= j < jobs.len() && jobs[j].name == jobs[i].name;
    assert(0 <= j < jobs.len() && jobs[j].name == jobs[i].name);
}

/// With unique names, what the job at `i` needs is its `needs` list.
proof fn lemma_needs_at(jobs: Seq<JobNode>, i: int, b: Seq<char>)
    requires
        jobs_unique(jobs),
        0 <= i < jobs.len(),
    ensures
        job_needs(jobs, jobs[i].name, b) <==> jobs[i].needs.contains(b),
{
    if job_needs(jobs, jobs[i].name, b) {
        let j = choose|j: int| 0 <= j < jobs.len() && #[trigger] jobs[j].name == jobs[i].name
            && jobs[j].needs.contains(b);
        assert(j == i);
    }
}

/// Two different defined jobs have different definition indices.
proof fn lemma_distinct_definition_index(jobs: Seq<JobNode>, a: Seq<char>, b: Seq<char>)
    requires
        jobs_unique(jobs),
        has_job(jobs, a),
        has_job(jobs, b),
        a != b,
    ensures
        definition_index_of(jobs, a) != definition_index_of(jobs, b),
{
    let i = choose|i: int| 0 <= i < jobs.len() && #[trigger] jobs[i].name == a;
    let j = choose|j: int| 0 <= j < jobs.len() && #[trigger] jobs[j].name == b;
    lemma_definition_index_at(jobs, i);
    lemma_definition_index_at(jobs, j);
}

/// A run order and a stuck set never exist together.
pub proof fn lemma_order_excludes_cycle(
    jobs: Seq<JobNode>,
    roots: Seq<Seq<char>>,
    order: Seq<Seq<char>>,
    s: Seq<Seq<char>>,
)
    ensures
        !(is_run_order(jobs, roots, order) && is_stuck_set(jobs, roots, s)),
{
    lemma_no_stuck_before(jobs, roots, order, s, 0);
}

proof fn lemma_no_stuck_before(
    jobs: Seq<JobNode>,
    roots: Seq<Seq<char>>,
    order: Seq<Seq<char>>,
    s: Seq<Seq<char>>,
    i: int,
)
    requires
        0 <= i <= order.len(),
        forall|j: int| 0 <= j < i ==> !s.contains(#[trigger] order[j]),
    ensures
        !(is_run_order(jobs, roots, order) && is_stuck_set(jobs, roots, s)),
    decreases order.len() - i,
{
    if is_run_order(jobs, roots, order) && is_stuck_set(jobs, roots, s) {
        if i == order.len() {
            assert(reachable(jobs, roots, s[0]));
            assert(order.contains(s[0]));
            let j = order.index_of(s[0]);
            assert(s.contains(order[j]));
        } else if s.contains(order[i]) {
            let k = s.index_of(order[i]);
            assert(reachable(jobs, roots, s[k]));
            let n = choose|n: Seq<char>| job_needs(jobs, s[k], n) && #[trigger] s.contains(n);
            let m = s.index_of(n);
            assert(reachable(jobs, roots, s[m]));
            assert(order.take(i).contains(n));
            let j = order.take(i).index_of(n);
            assert(order[j] == n);
        } else {
            lemma_no_stuck_before(jobs, roots, order, s, i + 1);
        }
    }
}

/// The order in which the jobs reachable from `root_jobs` run: each after the
/// jobs it needs, and, among the jobs ready at each point, the one defined
/// first. Fails on a reachable job that is not defined, or on a need cycle.
pub fn ordered_jobs_for_roots(registry: &LoadedWorkflowRegistry, root_jobs: &[String]) -> (r:
    Result<Vec<String>, WorkflowDefinitionError>)
    requires
        jobs_unique(nodes(registry.jobs@)),
    ensures
        ({
            let jobs = nodes(registry.jobs@);
            let roots = views(root_jobs@);
            &&& (r is Ok <==> all_reachable_defined(jobs, roots) && !has_need_cycle(jobs, roots))
            &&& match r {
                Ok(v) => is_run_order(jobs, roots, views(v@)) && picks_first_defined(
                    jobs,
                    roots,
                    views(v@),
                ),
                Err(e) => e is Invalid && ((exists|n: Seq<char>|
                    reachable(jobs, roots, n) && !has_job(jobs, n) && e.message()
                        == missing_root_message(n)) || (all_reachable_defined(jobs, roots)
                    && e.message() == cycle_message())),
            }
        }),
{
    let ghost jobs = nodes(registry.jobs@);
    let ghost roots = views(root_jobs@);
    let reach = match reachable_jobs(&registry.jobs, root_jobs) {
        Ok(v) => v,
        Err(name) => {
            let msg = concat3("workflow execution root references missing job `", name.as_str(), "`");
            assert(reachable(jobs, roots, name@) && !has_job(jobs, name@) && msg@
                == missing_root_message(name@));
            return Err(WorkflowDefinitionError::Invalid(msg));
        },
    };
    let ghost rv = views(reach@);
    proof {
        assert forall|n: Seq<char>| #[trigger] reachable(jobs, roots, n) implies has_job(jobs, n) by {
            assert(rv.contains(n));
        }
    }
    let mut ordered: Vec<String> = Vec::new();
    while ordered.len() < reach.len()
        invariant
            jobs == nodes(registry.jobs@),
            roots == views(root_jobs@),
            rv == views(reach@),
            jobs_unique(jobs),
            rv.no_duplicates(),
            forall|n: Seq<char>| reachable(jobs, roots, n) <==> #[trigger] rv.contains(n),
            forall|n: Seq<char>| #[trigger] rv.contains(n) ==> has_job(jobs, n),
            all_reachable_defined(jobs, roots),
            views(ordered@).no_duplicates(),
            forall|i: int| 0 <= i < ordered@.len() ==> rv.contains(#[trigger] views(ordered@)[i]),
            forall|i: int, n: Seq<char>|
                0 <= i < ordered@.len() && job_needs(jobs, #[trigger] views(ordered@)[i], n)
                    && reachable(jobs, roots, n) ==> #[trigger] views(ordered@).take(i).contains(n),
            forall|i: int, x: Seq<char>|
                0 <= i < ordered@.len() && rv.contains(x) && !views(ordered@).take(i + 1).contains(x)
                    && #[trigger] ready_after(jobs, roots, views(ordered@).take(i), x)
                    ==> definition_index_of(jobs, #[trigger] views(ordered@)[i])
                    < definition_index_of(jobs, x),
        decreases reach@.len() - ordered@.len(),
    {
        let ghost ov = views(ordered@);
        // Find the ready job defined first among those not yet ordered.
        let mut best: Option<usize> = None;
        let mut best_def: usize = 0;
        let mut t: usize = 0;
        while t < reach.len()
            invariant
                jobs == nodes(registry.jobs@),
                rv == views(reach@),
                ov == views(ordered@),
                jobs_unique(jobs),
                forall|n: Seq<char>| reachable(jobs, roots, n) <==> #[trigger] rv.contains(n),
                forall|n: Seq<char>| #[trigger] rv.contains(n) ==> has_job(jobs, n),
                t <= reach@.len(),
                match best {
                    Some(b) => {
                        &&& b < t
                        &&& !ov.contains(rv[b as int])
                        &&& ready_after(jobs, roots, ov, rv[b as int])
                        &&& best_def == definition_index_of(jobs, rv[b as int])
                    },
                    None => true,
                },
                forall|u: int|
                    0 <= u < t && !ov.contains(#[trigger] rv[u]) && ready_after(jobs, roots, ov, rv[u])
                        ==> best is Some && best_def <= definition_index_of(jobs, rv[u]),
            decreases reach@.len() - t,
        {
            let cand = &reach[t];
            assert(rv[t as int] == cand@);
            if !contains_string(&ordered, cand) {
                assert(rv.contains(cand@));
                let idx = match find_job(&registry.jobs, cand) {
                    Some(i) => i,
                    None => {
                        proof {
                            assert(false);
                        }
                        return Err(WorkflowDefinitionError::Invalid(String::new()));
                    },
                };
                let needs = &registry.jobs[idx].config.needs;
                let mut k: usize = 0;
                let mut ready = true;
                while k < needs.len() && ready
                    invariant
                        jobs == nodes(registry.jobs@),
                        rv == views(reach@),
                        ov == views(ordered@),
                        views(needs@) == jobs[idx as int].needs,
                        k <= needs@.len(),
                        ready ==> forall|m: int| 0 <= m < k && rv.contains(#[trigger] views(needs@)[m]) ==> ov.contains(views(needs@)[m]),
                        !ready ==> exists|m: int| 0 <= m < needs@.len() && rv.contains(#[trigger] views(needs@)[m]) && !ov.contains(views(needs@)[m]),
                    decreases needs@.len() - k, ready as int,
                {
                    if contains_string(&reach, &needs[k]) && !contains_string(&ordered, &needs[k]) {
                        assert(views(needs@)[k as int] == needs@[k as int]@);
                        ready = false;
                    } else {
                        k = k + 1;
                    }
                }
                proof {
                    if ready {
                        assert forall|n: Seq<char>| job_needs(jobs, cand@, n) && reachable(jobs, roots, n) implies #[trigger] ov.contains(n) by {
                            lemma_needs_at(jobs, idx as int, n);
                            let m = views(needs@).index_of(n);
                            assert(rv.contains(n));
                            assert(rv.contains(views(needs@)[m]));
                        }
                    } else {
                        let m = choose|m: int| 0 <= m < needs@.len() && rv.contains(#[trigger] views(needs@)[m]) && !ov.contains(views(needs@)[m]);
                        let n = views(needs@)[m];
                        lemma_needs_at(jobs, idx as int, n);
                        assert(jobs[idx as int].needs.contains(n));
                        assert(job_needs(jobs, cand@, n) && reachable(jobs, roots, n) && !ov.contains(n));
                    }
                    assert(ready == ready_after(jobs, roots, ov, cand@));
                    lemma_definition_index_at(jobs, idx as int);
                }
                let def = registry.jobs[idx].definition_index;
                if ready {
                    let better = match best {
                        Some(_) => def < best_def,
                        None => true,
                    };
                    if better {
                        best = Some(t);
                        best_def = def;
                    }
                }
            }
            t = t + 1;
        }
        match best {
            None => {
                proof {
                    let pred = |x: Seq<char>| !ov.contains(x);
                    let s = rv.filter(pred);
                    broadcast use vstd::seq_lib::group_filter_ensures;
                    lemma_filter_within(rv, pred);
                    if forall|x: Seq<char>| #[trigger] rv.contains(x) ==> ov.contains(x) {
                        assert forall|i: int| 0 <= i < rv.len() implies ov.contains(#[trigger] rv[i]) by {
                            assert(rv.contains(rv[i]));
                        }
                        lemma_unique_within_len(rv, ov);
                    }
                    let x = choose|x: Seq<char>| #[trigger] rv.contains(x) && !ov.contains(x);
                    let xi = rv.index_of(x);
                    assert(s.contains(rv[xi]));
                    assert forall|k: int| 0 <= k < s.len() implies reachable(jobs, roots, #[trigger] s[k]) by {
                        assert(rv.contains(s[k]));
                    }
                    assert forall|k: int| 0 <= k < s.len() implies needs_member(jobs, #[trigger] s[k], s) by {
                        assert(rv.contains(s[k]));
                        assert(pred(s[k]));
                        let u = rv.index_of(s[k]);
                        assert(!ready_after(jobs, roots, ov, rv[u]));
                        let n = choose|n: Seq<char>| !(job_needs(jobs, s[k], n) && reachable(jobs, roots, n) ==> #[trigger] ov.contains(n));
                        assert(rv.contains(n));
                        let ni = rv.index_of(n);
                        assert(pred(rv[ni]));
                        assert(s.contains(rv[ni]));
                    }
                    assert(is_stuck_set(jobs, roots, s));
                    assert(has_need_cycle(jobs, roots));
                }
                return Err(WorkflowDefinitionError::Invalid(String::from_str("workflow job selection contains a cyclic dependency graph")));
            },
            Some(b) => {
                let ghost chosen = rv[b as int];
                let item = reach[b].clone();
                let ghost before = ordered@;
                ordered.push(item);
                proof {
                    lemma_views_push(before, item);
                    let nv = views(ordered@);
                    assert(nv == ov.push(chosen));
                    assert(nv.take(ov.len() as int) =~= ov);
                    assert forall|a: int, c: int| 0 <= a < nv.len() && 0 <= c < nv.len() && a != c implies nv[a] != nv[c] by {
                        if a == ov.len() {
                            assert(ov.contains(nv[c]));
                        } else if c == ov.len() {
                            assert(ov.contains(nv[a]));
                        }
                    }
                    assert forall|i: int| 0 <= i < nv.len() implies rv.contains(#[trigger] nv[i]) by {
                        if i < ov.len() {
                            assert(nv[i] == ov[i]);
                        }
                    }
                    assert forall|i: int, n: Seq<char>|
                        0 <= i < nv.len() && job_needs(jobs, #[trigger] nv[i], n)
                            && reachable(jobs, roots, n) implies #[trigger] nv.take(i).contains(n) by {
                        if i < ov.len() {
                            assert(nv[i] == ov[i]);
                            assert(nv.take(i) =~= ov.take(i));
                        }
                    }
                    assert forall|i: int, x: Seq<char>|
                        0 <= i < nv.len() && rv.contains(x) && !nv.take(i + 1).contains(x)
                            && #[trigger] ready_after(jobs, roots, nv.take(i), x)
                            implies definition_index_of(jobs, #[trigger] nv[i]) < definition_index_of(jobs, x) by {
                        if i < ov.len() {
                            assert(nv[i] == ov[i]);
                            assert(nv.take(i) =~= ov.take(i));
                            assert(nv.take(i + 1) =~= ov.take(i + 1));
                        } else {
                            assert(nv.take(i + 1) =~= nv);
                            assert(nv.take(i) =~= ov);
                            assert(x != chosen) by {
                                assert(nv[ov.len() as int] == chosen);
                            }
                            assert(!ov.contains(x)) by {
                                if ov.contains(x) {
                                    let q = ov.index_of(x);
                                    assert(nv[q] == x);
                                }
                            }
                            let u = rv.index_of(x);
                            assert(rv[u] == x);
                            assert(rv.contains(chosen));
                            lemma_distinct_definition_index(jobs, chosen, x);
                        }
                    }
                }
            },
        }
    }
    proof {
        let ov = views(ordered@);
        lemma_unique_within_len(ov, rv);
        assert forall|n: Seq<char>| reachable(jobs, roots, n) <==> #[trigger] ov.contains(n) by {
            if ov.contains(n) {
                let i = ov.index_of(n);
                assert(rv.contains(ov[i]));
            }
            if reachable(jobs, roots, n) {
                lemma_unique_same_len_covers(ov, rv, n);
            }
        }
        assert(is_run_order(jobs, roots, ov));
        assert forall|i: int, j: int|
            0 <= i < j < ov.len() && ready_after(jobs, roots, ov.take(i), #[trigger] ov[j])
                implies definition_index_of(jobs, #[trigger] ov[i]) < definition_index_of(jobs, ov[j]) by {
            assert(rv.contains(ov[j]));
            if ov.take(i + 1).contains(ov[j]) {
                let q = ov.take(i + 1).index_of(ov[j]);
                assert(ov[q] == ov[j]);
            }
        }
        if has_need_cycle(jobs, roots) {
            let st = choose|st: Seq<Seq<char>>| #[trigger] is_stuck_set(jobs, roots, st);
            lemma_order_excludes_cycle(jobs, roots, ov, st);
        }
    }
    Ok(ordered)
}

/// `g1` and `g2` hold the same nodes, in whatever order.
pub open spec fn same_nodes(g1: Seq<JobNode>, g2: Seq<JobNode>) -> bool {
    &&& forall|k: int| 0 <= k < g1.len() ==> g2.contains(#[trigger] g1[k])
    &&& forall|k: int| 0 <= k < g2.len() ==> g1.contains(#[trigger] g2[k])
}

/// No reachable job compacts the main thread inline.
pub open spec fn no_reachable_compact(g: Seq<JobNode>, roots: Seq<Seq<char>>) -> bool {
    forall|i: int|
        0 <= i < g.len() && reachable(g, roots, #[trigger] g[i].name) ==> g[i].context
            != WorkflowContextStrategy::EmbedCompact
}

/// A `before_turn` trigger with these roots can run: its jobs are defined,
/// can be ordered, and none compacts the main thread.
pub open spec fn before_turn_ok(g: Seq<JobNode>, roots: Seq<Seq<char>>) -> bool {
    &&& all_reachable_defined(g, roots)
    &&& !has_need_cycle(g, roots)
    &&& no_reachable_compact(g, roots)
}

pub proof fn lemma_same_nodes_edges(g1: Seq<JobNode>, g2: Seq<JobNode>)
    requires
        same_nodes(g1, g2),
    ensures
        forall|n: Seq<char>| has_job(g1, n) ==> #[trigger] has_job(g2, n),
        forall|a: Seq<char>, b: Seq<char>| job_needs(g1, a, b) ==> #[trigger] job_needs(g2, a, b),
{
    assert forall|n: Seq<char>| has_job(g1, n) implies #[trigger] has_job(g2, n) by {
        let i = choose|i: int| 0 <= i < g1.len() && #[trigger] g1[i].name == n;
        let j = g2.index_of(g1[i]);
        assert(g2[j].name == n);
    }
    assert forall|a: Seq<char>, b: Seq<char>| job_needs(g1, a, b) implies #[trigger] job_needs(g2, a, b) by {
        let i = choose|i: int| 0 <= i < g1.len() && #[trigger] g1[i].name == a && g1[i].needs.contains(b);
        let j = g2.index_of(g1[i]);
        assert(g2[j].name == a);
    }
}

proof fn lemma_same_nodes_reach(g1: Seq<JobNode>, g2: Seq<JobNode>, roots: Seq<Seq<char>>)
    requires
        same_nodes(g1, g2),
    ensures
        forall|n: Seq<char>| reachable(g1, roots, n) ==> #[trigger] reachable(g2, roots, n),
        forall|s: Seq<Seq<char>>| is_stuck_set(g1, roots, s) ==> #[trigger] is_stuck_set(g2, roots, s),
{
    lemma_same_nodes_edges(g1, g2);
    assert forall|p: Seq<Seq<char>>| is_need_path(g1, roots, p) implies #[trigger] is_need_path(g2, roots, p) by {
        assert forall|k: int| 0 <= k < p.len() - 1 implies job_needs(g2, #[trigger] p[k], p[k + 1]) by {
            assert(job_needs(g1, p[k], p[k + 1]));
        }
    }
    assert forall|n: Seq<char>| reachable(g1, roots, n) implies #[trigger] reachable(g2, roots, n) by {
        let p = choose|p: Seq<Seq<char>>| #[trigger] is_need_path(g1, roots, p) && p.last() == n;
        assert(is_need_path(g2, roots, p));
    }
    assert forall|s: Seq<Seq<char>>| is_stuck_set(g1, roots, s) implies #[trigger] is_stuck_set(g2, roots, s) by {
        assert forall|k: int| 0 <= k < s.len() implies reachable(g2, roots, #[trigger] s[k]) by {
            assert(reachable(g1, roots, s[k]));
        }
        assert forall|k: int| 0 <= k < s.len() implies needs_member(g2, #[trigger] s[k], s) by {
            assert(needs_member(g1, s[k], s));
            let n = choose|n: Seq<char>| job_needs(g1, s[k], n) && #[trigger] s.contains(n);
            assert(job_needs(g2, s[k], n));
        }
        assert(s.len() > 0);
    }
}

/// Graphs with the same nodes answer every ordering question alike.
pub proof fn lemma_same_nodes_before_turn(g1: Seq<JobNode>, g2: Seq<JobNode>, roots: Seq<Seq<char>>)
    requires
        same_nodes(g1, g2),
    ensures
        before_turn_ok(g1, roots) <==> before_turn_ok(g2, roots),
        all_reachable_defined(g1, roots) <==> all_reachable_defined(g2, roots),
        has_need_cycle(g1, roots) <==> has_need_cycle(g2, roots),
{
    lemma_same_nodes_edges(g1, g2);
    lemma_same_nodes_edges(g2, g1);
    lemma_same_nodes_reach(g1, g2, roots);
    lemma_same_nodes_reach(g2, g1, roots);
    if has_need_cycle(g1, roots) {
        let s = choose|s: Seq<Seq<char>>| #[trigger] is_stuck_set(g1, roots, s);
        assert(is_stuck_set(g2, roots, s));
    }
    if has_need_cycle(g2, roots) {
        let s = choose|s: Seq<Seq<char>>| #[trigger] is_stuck_set(g2, roots, s);
        assert(is_stuck_set(g1, roots, s));
    }
    assert(all_reachable_defined(g1, roots) ==> all_reachable_defined(g2, roots)) by {
        if all_reachable_defined(g1, roots) {
            assert forall|n: Seq<char>| #[trigger] reachable(g2, roots, n) implies has_job(g2, n) by {
                assert(reachable(g1, roots, n));
                assert(has_job(g1, n));
            }
        }
    }
    assert(all_reachable_defined(g2, roots) ==> all_reachable_defined(g1, roots)) by {
        if all_reachable_defined(g2, roots) {
            assert forall|n: Seq<char>| #[trigger] reachable(g1, roots, n) implies has_job(g1, n) by {
                assert(reachable(g2, roots, n));
                assert(has_job(g2, n));
            }
        }
    }
    assert(no_reachable_compact(g1, roots) ==> no_reachable_compact(g2, roots)) by {
        if no_reachable_compact(g1, roots) {
            assert forall|i: int| 0 <= i < g2.len() && reachable(g2, roots, #[trigger] g2[i].name) implies g2[i].context != WorkflowContextStrategy::EmbedCompact by {
                let j = g1.index_of(g2[i]);
                assert(reachable(g1, roots, g1[j].name));
            }
        }
    }
    assert(no_reachable_compact(g2, roots) ==> no_reachable_compact(g1, roots)) by {
        if no_reachable_compact(g2, roots) {
            assert forall|i: int| 0 <= i < g1.len() && reachable(g1, roots, #[trigger] g1[i].name) implies g1[i].context != WorkflowContextStrategy::EmbedCompact by {
                let j = g2.index_of(g1[i]);
                assert(reachable(g2, roots, g2[j].name));
            }
        }
    }
}

/// The message for a `before_turn` trigger that reaches a compacting job.
pub open spec fn before_turn_compact_message(
    workflow: Seq<char>,
    trigger: Seq<char>,
    job: Seq<char>,
) -> Seq<char> {
    "workflow `"@ + workflow + "` trigger `"@ + trigger + "` cannot use job `"@ + job
        + "` with `context_strategy: embed_compact` because before_turn workflows cannot compact the main thread inline"@
}

/// Every `before_turn` trigger of `files` can run against the jobs `g`.
pub open spec fn before_turn_triggers_ok(files: Seq<LoadedWorkflowFile>, g: Seq<JobNode>) -> bool {
    forall|f: int, t: int|
        0 <= f < files.len() && 0 <= t < files[f].triggers@.len()
            && #[trigger] files[f].triggers@[t].kind is BeforeTurn ==> before_turn_ok(
            g,
            views(files[f].triggers@[t].jobs@),
        )
}

/// The job called `name` compacts the main thread inline.
pub open spec fn compacts(g: Seq<JobNode>, name: Seq<char>) -> bool {
    exists|i: int| 0 <= i < g.len() && #[trigger] g[i].name == name
        && g[i].context == WorkflowContextStrategy::EmbedCompact
}

/// `order` is the run order of the jobs `roots` reach (each job after those
/// it needs, the one defined first among those ready), and its job at `k` is
/// the first in it that compacts the main thread.
pub open spec fn first_compact_at(g: Seq<JobNode>, roots: Seq<Seq<char>>, order: Seq<Seq<char>>, k: int) -> bool {
    &&& is_run_order(g, roots, order)
    &&& picks_first_defined(g, roots, order)
    &&& 0 <= k < order.len()
    &&& compacts(g, order[k])
    &&& forall|j: int| 0 <= j < k ==> !compacts(g, #[trigger] order[j])
}

/// Whether `m` is the message that checking a `before_turn` trigger of
/// workflow `workflow` with id `trigger` and roots `roots` fails with: a
/// missing job it reaches; else a cycle among its jobs; else the first job,
/// in run order, that compacts the main thread.
pub open spec fn before_turn_error(g: Seq<JobNode>, roots: Seq<Seq<char>>, workflow: Seq<char>, trigger: Seq<char>, m: Seq<char>) -> bool {
    ||| exists|n: Seq<char>| reachable(g, roots, n) && !has_job(g, n) && m == missing_root_message(n)
    ||| all_reachable_defined(g, roots) && has_need_cycle(g, roots) && m == cycle_message()
    ||| all_reachable_defined(g, roots) && !has_need_cycle(g, roots) && exists|order: Seq<Seq<char>>, k: int|
        #[trigger] first_compact_at(g, roots, order, k)
        && m == before_turn_compact_message(workflow, trigger, order[k])
}

/// In graphs with the same nodes, each name unique, a job has the same
/// definition index.
proof fn lemma_same_nodes_definition_index(g1: Seq<JobNode>, g2: Seq<JobNode>, x: Seq<char>)
    requires
        same_nodes(g1, g2),
        jobs_unique(g1),
        jobs_unique(g2),
        has_job(g1, x),
    ensures
        definition_index_of(g1, x) == definition_index_of(g2, x),
{
    let i1 = choose|i: int| 0 <= i < g1.len() && g1[i].name == x;
    assert(g2.contains(g1[i1]));
    let j = g2.index_of(g1[i1]);
    assert(g2[j].name == x);
    let i2 = choose|i: int| 0 <= i < g2.len() && g2[i].name == x;
    assert(i2 == j);
}

/// Graphs with the same nodes, each name unique, fail a `before_turn`
/// trigger with the same messages.
pub proof fn lemma_same_nodes_before_turn_error(
    g1: Seq<JobNode>,
    g2: Seq<JobNode>,
    roots: Seq<Seq<char>>,
    workflow: Seq<char>,
    trigger: Seq<char>,
    m: Seq<char>,
)
    requires
        same_nodes(g1, g2),
        jobs_unique(g1),
        jobs_unique(g2),
        before_turn_error(g1, roots, workflow, trigger, m),
    ensures
        before_turn_error(g2, roots, workflow, trigger, m),
{
    lemma_same_nodes_edges(g1, g2);
    lemma_same_nodes_edges(g2, g1);
    lemma_same_nodes_reach(g1, g2, roots);
    lemma_same_nodes_reach(g2, g1, roots);
    lemma_same_nodes_before_turn(g1, g2, roots);
    if exists|n: Seq<char>| reachable(g1, roots, n) && !has_job(g1, n) && m == missing_root_message(n) {
        let n = choose|n: Seq<char>| reachable(g1, roots, n) && !has_job(g1, n) && m == missing_root_message(n);
        assert(reachable(g2, roots, n));
        assert(!has_job(g2, n));
    } else if all_reachable_defined(g1, roots) && has_need_cycle(g1, roots) && m == cycle_message() {
    } else {
        let (order, k) = choose|order: Seq<Seq<char>>, k: int|
            #[trigger] first_compact_at(g1, roots, order, k)
            && m == before_turn_compact_message(workflow, trigger, order[k]);
        assert forall|n: Seq<char>| reachable(g2, roots, n) <==> #[trigger] order.contains(n) by {
            if reachable(g2, roots, n) {
                assert(reachable(g1, roots, n));
            }
            if order.contains(n) {
                assert(reachable(g1, roots, n));
            }
        }
        assert forall|i: int, n: Seq<char>|
            0 <= i < order.len() && job_needs(g2, #[trigger] order[i], n) && reachable(g2, roots, n)
                implies #[trigger] order.take(i).contains(n) by {
            assert(job_needs(g1, order[i], n));
            assert(reachable(g1, roots, n));
        }
        assert(is_run_order(g2, roots, order));
        assert forall|i: int, j: int|
            0 <= i < j < order.len() && ready_after(g2, roots, order.take(i), #[trigger] order[j])
                implies definition_index_of(g2, #[trigger] order[i]) < definition_index_of(g2, order[j]) by {
            assert forall|n: Seq<char>| job_needs(g1, order[j], n) && reachable(g1, roots, n)
                implies #[trigger] order.take(i).contains(n) by {
                assert(job_needs(g2, order[j], n));
                assert(reachable(g2, roots, n));
            }
            assert(ready_after(g1, roots, order.take(i), order[j]));
            assert(order.contains(order[i]));
            assert(order.contains(order[j]));
            assert(reachable(g1, roots, order[i]));
            assert(reachable(g1, roots, order[j]));
            lemma_same_nodes_definition_index(g1, g2, order[i]);
            lemma_same_nodes_definition_index(g1, g2, order[j]);
        }
        assert(picks_first_defined(g2, roots, order));
        let c = choose|i: int| 0 <= i < g1.len() && #[trigger] g1[i].name == order[k]
            && g1[i].context == WorkflowContextStrategy::EmbedCompact;
        assert(g2.contains(g1[c]));
        let c2 = g2.index_of(g1[c]);
        assert(g2[c2].name == order[k]);
        assert(compacts(g2, order[k]));
        assert forall|j: int| 0 <= j < k implies !compacts(g2, #[trigger] order[j]) by {
            if compacts(g2, order[j]) {
                let d = choose|i: int| 0 <= i < g2.len() && #[trigger] g2[i].name == order[j]
                    && g2[i].context == WorkflowContextStrategy::EmbedCompact;
                assert(g1.contains(g2[d]));
                let d1 = g1.index_of(g2[d]);
                assert(g1[d1].name == order[j]);
                assert(compacts(g1, order[j]));
            }
        }
        assert(first_compact_at(g2, roots, order, k));
    }
}

/// Whether trigger `t` of file `f` is the first `before_turn` trigger of
/// `files`, in file and trigger order, that cannot run against the jobs `g`,
/// and `m` is a message it fails with.
pub open spec fn first_before_turn_failure(files: Seq<LoadedWorkflowFile>, g: Seq<JobNode>, f: int, t: int, m: Seq<char>) -> bool {
    &&& 0 <= f < files.len()
    &&& 0 <= t < files[f].triggers@.len()
    &&& files[f].triggers@[t].kind is BeforeTurn
    &&& !before_turn_ok(g, views(files[f].triggers@[t].jobs@))
    &&& forall|ff: int, tt: int|
        0 <= ff < files.len() && 0 <= tt < files[ff].triggers@.len() && (ff < f || (ff == f && tt < t))
            && #[trigger] files[ff].triggers@[tt].kind is BeforeTurn ==> before_turn_ok(g, views(files[ff].triggers@[tt].jobs@))
    &&& before_turn_error(g, views(files[f].triggers@[t].jobs@), files[f].name@, files[f].triggers@[t].id@, m)
}

/// Checks that no `before_turn` trigger needs a job that compacts the main
/// thread, nor a selection that cannot be ordered.
pub fn validate_before_turn_context_strategies(registry: &LoadedWorkflowRegistry) -> (r: Result<
    (),
    WorkflowDefinitionError,
>)
    requires
        jobs_unique(nodes(registry.jobs@)),
    ensures
        r is Ok <==> before_turn_triggers_ok(registry.files@, nodes(registry.jobs@)),
        r matches Err(e) ==> e is Invalid && exists|f: int, t: int|
            first_before_turn_failure(registry.files@, nodes(registry.jobs@), f, t, e.message()),
{
    let ghost g = nodes(registry.jobs@);
    let mut f: usize = 0;
    while f < registry.files.len()
        invariant
            g == nodes(registry.jobs@),
            jobs_unique(g),
            f <= registry.files@.len(),
            forall|ff: int, t: int|
                0 <= ff < f && 0 <= t < registry.files@[ff].triggers@.len()
                    && #[trigger] registry.files@[ff].triggers@[t].kind is BeforeTurn ==> before_turn_ok(
                    g,
                    views(registry.files@[ff].triggers@[t].jobs@),
                ),
        decreases registry.files@.len() - f,
    {
        let workflow = &registry.files[f];
        let mut t: usize = 0;
        while t < workflow.triggers.len()
            invariant
                g == nodes(registry.jobs@),
                jobs_unique(g),
                f < registry.files@.len(),
                *workflow == registry.files@[f as int],
                t <= workflow.triggers@.len(),
                forall|ff: int, tt: int|
                    0 <= ff < f && 0 <= tt < registry.files@[ff].triggers@.len()
                        && #[trigger] registry.files@[ff].triggers@[tt].kind is BeforeTurn ==> before_turn_ok(
                        g,
                        views(registry.files@[ff].triggers@[tt].jobs@),
                    ),
                forall|tt: int|
                    0 <= tt < t && #[trigger] registry.files@[f as int].triggers@[tt].kind is BeforeTurn
                        ==> before_turn_ok(g, views(registry.files@[f as int].triggers@[tt].jobs@)),
            decreases workflow.triggers@.len() - t,
        {
            let trigger = &workflow.triggers[t];
            let is_before = match trigger.kind {
                WorkflowTriggerKind::BeforeTurn => true,
                _ => false,
            };
            if is_before {
                let ghost roots = views(trigger.jobs@);
                let ordered = match ordered_jobs_for_roots(registry, trigger.jobs.as_slice()) {
                    Ok(v) => v,
                    Err(e) => {
                        proof {
                            assert(first_before_turn_failure(registry.files@, g, f as int, t as int, e.message()));
                        }
                        return Err(e);
                    },
                };
                let mut k: usize = 0;
                while k < ordered.len()
                    invariant
                        g == nodes(registry.jobs@),
                        jobs_unique(g),
                        roots == views(trigger.jobs@),
                        is_run_order(g, roots, views(ordered@)),
                        picks_first_defined(g, roots, views(ordered@)),
                        all_reachable_defined(g, roots),
                        !has_need_cycle(g, roots),
                        f < registry.files@.len(),
                        *workflow == registry.files@[f as int],
                        t < workflow.triggers@.len(),
                        *trigger == workflow.triggers@[t as int],
                        trigger.kind is BeforeTurn,
                        forall|ff: int, tt: int|
                            0 <= ff < f && 0 <= tt < registry.files@[ff].triggers@.len()
                                && #[trigger] registry.files@[ff].triggers@[tt].kind is BeforeTurn ==> before_turn_ok(
                                g,
                                views(registry.files@[ff].triggers@[tt].jobs@),
                            ),
                        forall|tt: int|
                            0 <= tt < t && #[trigger] registry.files@[f as int].triggers@[tt].kind is BeforeTurn
                                ==> before_turn_ok(g, views(registry.files@[f as int].triggers@[tt].jobs@)),
                        k <= ordered@.len(),
                        forall|i: int| 0 <= i < g.len() && #[trigger] views(ordered@).take(k as int).contains(g[i].name)
                            ==> g[i].context != WorkflowContextStrategy::EmbedCompact,
                    decreases ordered@.len() - k,
                {
                    let idx = match find_job(&registry.jobs, &ordered[k]) {
                        Some(i) => i,
                        None => {
                            proof {
                                assert(views(ordered@).contains(views(ordered@)[k as int]));
                                assert(reachable(g, roots, ordered@[k as int]@));
                                assert(has_job(g, ordered@[k as int]@));
                                assert(false);
                            }
                            return Err(WorkflowDefinitionError::Invalid(String::new()));
                        },
                    };
                    let job = &registry.jobs[idx];
                    let compact = match job.config.context_strategy {
                        WorkflowContextStrategy::EmbedCompact => true,
                        _ => false,
                    };
                    proof {
                        assert(g[idx as int] == job_node(registry.jobs@[idx as int]));
                        assert(views(ordered@).contains(views(ordered@)[k as int]));
                    }
                    if compact {
                        let mut m = concat3("workflow `", workflow.name.as_str(), "` trigger `");
                        m.append(trigger.id.as_str());
                        m.append("` cannot use job `");
                        m.append(job.name.as_str());
                        m.append("` with `context_strategy: embed_compact` because before_turn workflows cannot compact the main thread inline");
                        proof {
                            assert(reachable(g, roots, g[idx as int].name));
                            assert(!no_reachable_compact(g, roots));
                            assert(registry.files@[f as int].triggers@[t as int].kind is BeforeTurn);
                            assert(!before_turn_ok(g, views(registry.files@[f as int].triggers@[t as int].jobs@)));
                            assert(job.name@ == g[idx as int].name);
                            assert(g[idx as int].context == WorkflowContextStrategy::EmbedCompact);
                            assert(m@ == before_turn_compact_message(workflow.name@, trigger.id@, g[idx as int].name));
                            let order = views(ordered@);
                            assert(compacts(g, order[k as int]));
                            assert forall|j: int| 0 <= j < k implies !compacts(g, #[trigger] order[j]) by {
                                assert(order.take(k as int)[j] == order[j]);
                                assert(order.take(k as int).contains(order[j]));
                                if compacts(g, order[j]) {
                                    let i = choose|i: int| 0 <= i < g.len() && #[trigger] g[i].name == order[j]
                                        && g[i].context == WorkflowContextStrategy::EmbedCompact;
                                    assert(order.take(k as int).contains(g[i].name));
                                }
                            }
                            assert(first_compact_at(g, roots, order, k as int));
                            assert(before_turn_error(g, roots, workflow.name@, trigger.id@, m@));
                            assert forall|ff: int, tt: int|
                                0 <= ff < registry.files@.len() && 0 <= tt < registry.files@[ff].triggers@.len()
                                    && (ff < f || (ff == f && tt < t))
                                    && #[trigger] registry.files@[ff].triggers@[tt].kind is BeforeTurn
                                implies before_turn_ok(g, views(registry.files@[ff].triggers@[tt].jobs@)) by {
                                if ff == f {
                                    assert(registry.files@[f as int].triggers@[tt].kind is BeforeTurn);
                                }
                            }
                            assert(first_before_turn_failure(registry.files@, g, f as int, t as int, m@));
                            assert(first_before_turn_failure(registry.files@, nodes(registry.jobs@), f as int, t as int,
                                WorkflowDefinitionError::Invalid(m).message()));
                        }
                        return Err(WorkflowDefinitionError::Invalid(m));
                    }
                    proof {
                        assert forall|i: int| 0 <= i < g.len() && #[trigger] views(ordered@).take(k + 1).contains(g[i].name)
                            implies g[i].context != WorkflowContextStrategy::EmbedCompact by {
                            let q = views(ordered@).take(k + 1).index_of(g[i].name);
                            if q < k {
                                assert(views(ordered@).take(k as int)[q] == g[i].name);
                                assert(views(ordered@).take(k as int).contains(g[i].name));
                            } else {
                                assert(views(ordered@)[k as int] == g[i].name);
                                assert(g[idx as int].name == ordered@[k as int]@);
                                assert(g[i].name == g[idx as int].name);
                                assert(i == idx);
                            }
                        }
                    }
                    k = k + 1;
                }
                proof {
                    assert(views(ordered@).take(k as int) =~= views(ordered@));
                    assert forall|i: int| 0 <= i < g.len() && reachable(g, roots, #[trigger] g[i].name)
                        implies g[i].context != WorkflowContextStrategy::EmbedCompact by {
                        assert(views(ordered@).contains(g[i].name));
                    }
                }
            }
            t = t + 1;
        }
        f = f + 1;
    }
    Ok(())
}

/// Removes from `ready` the defined job that was defined first (the earliest
/// such entry on a tie) and returns it; `None` when no entry is defined.
pub fn pop_next_job(ready: &mut VecDeque<String>, registry: &LoadedWorkflowRegistry) -> (r: Option<String>)
    requires
        jobs_unique(nodes(registry.jobs@)),
    ensures
        ({
            let g = nodes(registry.jobs@);
            let q = views(old(ready)@);
            match r {
                None => final(ready)@ == old(ready)@ && forall|j: int| 0 <= j < q.len() ==> !has_job(g, #[trigger] q[j]),
                Some(x) => exists|k: int| {
                    &&& 0 <= k < q.len()
                    &&& x == old(ready)@[k]
                    &&& final(ready)@ == old(ready)@.remove(k)
                    &&& has_job(g, q[k])
                    &&& forall|j: int| 0 <= j < q.len() && #[trigger] has_job(g, q[j]) ==> definition_index_of(g, q[k])
                        < definition_index_of(g, q[j]) || (definition_index_of(g, q[k]) == definition_index_of(g, q[j]) && k <= j)
                },
            }
        }),
{
    let ghost g = nodes(registry.jobs@);
    let ghost q = views(ready@);
    let mut best: Option<usize> = None;
    let mut best_def: usize = 0;
    let mut i: usize = 0;
    while i < ready.len()
        invariant
            g == nodes(registry.jobs@),
            jobs_unique(g),
            q == views(ready@),
            i <= ready@.len(),
            match best {
                Some(b) => b < i && has_job(g, q[b as int]) && best_def == definition_index_of(g, q[b as int])
                    && forall|j: int| 0 <= j < i && #[trigger] has_job(g, q[j]) ==> best_def < definition_index_of(g, q[j])
                        || (best_def == definition_index_of(g, q[j]) && b <= j),
                None => forall|j: int| 0 <= j < i ==> !has_job(g, #[trigger] q[j]),
            },
        decreases ready@.len() - i,
    {
        assert(q[i as int] == ready@[i as int]@);
        match find_job(&registry.jobs, &ready[i]) {
            Some(idx) => {
                proof {
                    lemma_definition_index_at(g, idx as int);
                    assert(g[idx as int].name == q[i as int]);
                }
                let def = registry.jobs[idx].definition_index;
                let take = match best {
                    Some(_) => def < best_def,
                    None => true,
                };
                if take {
                    best = Some(i);
                    best_def = def;
                }
            },
            None => {},
        }
        i = i + 1;
    }
    match best {
        None => None,
        Some(b) => {
            let x = ready.remove(b);
            x
        },
    }
}


/// The directory that holds a workspace's workflow files: `.codex/workflows`
/// under `cwd`.
pub fn workflow_dir(cwd: &str) -> (r: String)
    ensures
        r@ == path_join_spec(path_join_spec(cwd@, ".codex"@), "workflows"@),
{
    proof {
        reveal_strlit(".codex");
        reveal_strlit("workflows");
    }
    let codex = path_join(cwd, ".codex");
    path_join(codex.as_str(), "workflows")
}


/// Whether no two jobs share a name or a definition index.
pub fn jobs_are_unique(jobs: &Vec<LoadedWorkflowJob>) -> (r: bool)
    ensures
        r == jobs_unique(nodes(jobs@)),
{
    let ghost g = nodes(jobs@);
    let mut i: usize = 0;
    while i < jobs.len()
        invariant
            g == nodes(jobs@),
            i <= jobs@.len(),
            forall|a: int, b: int| 0 <= a < i && 0 <= b < g.len() && a != b ==> g[a].name != g[b].name && g[a].def != g[b].def,
        decreases jobs@.len() - i,
    {
        let mut j: usize = 0;
        while j < jobs.len()
            invariant
                g == nodes(jobs@),
                i < jobs@.len(),
                j <= jobs@.len(),
                forall|a: int, b: int| 0 <= a < i && 0 <= b < g.len() && a != b ==> g[a].name != g[b].name && g[a].def != g[b].def,
                forall|b: int| 0 <= b < j && b != i ==> g[i as int].name != g[b].name && g[i as int].def != g[b].def,
            decreases jobs@.len() - j,
        {
            assert(g[i as int] == job_node(jobs@[i as int]));
            assert(g[j as int] == job_node(jobs@[j as int]));
            if j != i && (jobs[i].name == jobs[j].name || jobs[i].definition_index == jobs[j].definition_index) {
                return false;
            }
            j = j + 1;
        }
        i = i + 1;
    }
    proof {
        assert forall|a: int, b: int| 0 <= a < g.len() && 0 <= b < g.len() && a != b implies g[a].name != g[b].name && g[a].def != g[b].def by {
        }
    }
    true
}

} // verus!
