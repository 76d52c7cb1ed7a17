//! The queue that runs after-turn loop rounds and the follow-up user turns
//! they produce, one at a time, on the primary thread.
use vstd::prelude::*;
use vstd::string::*;
use std::collections::VecDeque;
use crate::text::{decimal_seq, decimal_string, opt_view};
use crate::loop_book::LoopResponseMode;

verus! {

/// Where a mirrored loop reply came from.
#[derive(Debug, PartialEq, Eq)]
pub struct LoopReplySource {
    pub loop_id: String,
    pub action: Option<String>,
}

impl LoopReplySource {
    /// A source for `loop_id`, with the loop's optional action text.
    pub fn new(loop_id: String, action: Option<String>) -> (r: Self)
        ensures
            r.loop_id == loop_id,
            r.action == action,
    {
        LoopReplySource { loop_id, action }
    }

    /// A copy of this source.
    pub fn duplicate(&self) -> (r: Self)
        ensures
            r == *self,
    {
        LoopReplySource {
            loop_id: self.loop_id.clone(),
            action: match &self.action {
                Some(a) => Some(a.clone()),
                None => None,
            },
        }
    }
}

/// A loop reply that is submitted to the primary thread as a user turn.
#[derive(Debug, PartialEq, Eq)]
pub struct LoopMirroredUserTurn {
    pub text: String,
    pub source: LoopReplySource,
}

impl LoopMirroredUserTurn {
    /// A copy of this turn.
    pub fn duplicate(&self) -> (r: Self)
        ensures
            r == *self,
    {
        LoopMirroredUserTurn { text: self.text.clone(), source: self.source.duplicate() }
    }
}

/// One after-turn round, seeded with the primary thread's last agent message.
#[derive(Debug, PartialEq, Eq)]
pub struct AfterTurnRound {
    pub last_agent_message: Option<String>,
}

/// What a loop's after-turn run changed of a persistent loop: the thread
/// it keeps and when it last completed.
#[derive(Debug, PartialEq, Eq)]
pub struct AfterTurnLoopUpdate {
    pub loop_id: String,
    pub rollout_path: Option<String>,
    pub last_completed_at_unix_seconds: Option<i64>,
}

/// What one loop of an after-turn round produced.
#[derive(Debug, PartialEq, Eq)]
pub struct AfterTurnLoopOutput {
    pub loop_id: String,
    pub response_mode: LoopResponseMode,
    pub message: Option<String>,
    pub action: Option<String>,
    pub update: AfterTurnLoopUpdate,
}

/// What an after-turn round produced: its loops' outputs, in order, and
/// the errors of those that failed.
#[derive(Debug, PartialEq, Eq)]
pub struct AfterTurnRoundResult {
    pub outputs: Vec<AfterTurnLoopOutput>,
    pub errors: Vec<String>,
}

/// What the scheduler asks its driver to do next.
#[derive(Debug, PartialEq, Eq)]
pub enum AfterTurnSchedulerAction {
    RunRound(AfterTurnRound),
    SubmitFollowup(LoopMirroredUserTurn),
    Idle,
}

/// What driving the after-turn queue leaves its caller to do.
#[derive(Debug, PartialEq, Eq)]
pub enum AfterTurnDrain {
    /// There is no main thread: the queue was emptied.
    Cleared,
    /// Start this round's loops in the background.
    StartRound(AfterTurnRound),
    /// Submit this follow-up to the main thread as a user turn.
    SubmitFollowup(LoopMirroredUserTurn),
    /// Nothing to start now.
    Idle,
}

/// The abstract state of an after-turn scheduler.
pub struct AfterTurnSchedulerView {
    pub pending_rounds: Seq<AfterTurnRound>,
    pub pending_followups: Seq<LoopMirroredUserTurn>,
    pub in_flight_followup: Option<LoopMirroredUserTurn>,
    pub round_in_flight: bool,
    pub current_loop_label: Option<Seq<char>>,
}

impl AfterTurnSchedulerView {
    /// A round and a follow-up are never in flight together.
    pub open spec fn at_most_one_in_flight(self) -> bool {
        !(self.round_in_flight && self.in_flight_followup is Some)
    }

    /// Nothing queued and nothing running.
    pub open spec fn is_idle(self) -> bool {
        !self.round_in_flight && self.pending_rounds.len() == 0 && self.pending_followups.len()
            == 0 && self.in_flight_followup is None
    }

    /// Follow-ups still owed to the primary thread, the one in flight included.
    pub open spec fn followup_count(self) -> nat {
        self.pending_followups.len() + if self.in_flight_followup is Some {
            1nat
        } else {
            0nat
        }
    }

    /// The work handed out next, and the state after: the oldest follow-up
    /// when nothing is in flight, else the oldest round when nothing is in
    /// flight, else nothing.
    pub open spec fn next_action_spec(self) -> (AfterTurnSchedulerAction, AfterTurnSchedulerView) {
        let free = !self.round_in_flight && self.in_flight_followup is None;
        if free && self.pending_followups.len() > 0 {
            (
                AfterTurnSchedulerAction::SubmitFollowup(self.pending_followups[0]),
                AfterTurnSchedulerView {
                    pending_followups: self.pending_followups.drop_first(),
                    in_flight_followup: Some(self.pending_followups[0]),
                    ..self
                },
            )
        } else if free && self.pending_rounds.len() > 0 {
            (
                AfterTurnSchedulerAction::RunRound(self.pending_rounds[0]),
                AfterTurnSchedulerView {
                    pending_rounds: self.pending_rounds.drop_first(),
                    round_in_flight: true,
                    ..self
                },
            )
        } else {
            (AfterTurnSchedulerAction::Idle, self)
        }
    }

    /// Hands out work until something has to run: a round is started only
    /// when there are after-turn loops, and a round with none of them
    /// completes at once; a follow-up is submitted; else nothing happens.
    pub open spec fn drain_spec(self, has_after_turn_loops: bool) -> (AfterTurnDrain, AfterTurnSchedulerView)
        decreases self.pending_rounds.len(),
    {
        let free = !self.round_in_flight && self.in_flight_followup is None;
        if free && self.pending_followups.len() > 0 {
            (AfterTurnDrain::SubmitFollowup(self.pending_followups[0]), self.next_action_spec().1)
        } else if free && self.pending_rounds.len() > 0 {
            if has_after_turn_loops {
                (AfterTurnDrain::StartRound(self.pending_rounds[0]), self.next_action_spec().1)
            } else {
                AfterTurnSchedulerView {
                    pending_rounds: self.pending_rounds.drop_first(),
                    current_loop_label: None,
                    ..self
                }.drain_spec(has_after_turn_loops)
            }
        } else {
            (AfterTurnDrain::Idle, self)
        }
    }

    /// The status line text that `status_label` reports for this state.
    pub open spec fn status(self) -> Option<Seq<char>> {
        if !self.round_in_flight && self.pending_rounds.len() == 0 && self.followup_count() == 0 {
            None
        } else if self.round_in_flight && self.current_loop_label is Some {
            self.current_loop_label
        } else {
            Some(
                "after-turn queue ("@ + (if self.round_in_flight {
                    "running"@
                } else {
                    "queued"@
                }) + ") · "@ + decimal_seq(self.pending_rounds.len()) + " round(s) · "@
                    + decimal_seq(self.followup_count()) + " follow-up(s)"@,
            )
        }
    }
}

/// Serialises after-turn rounds and the follow-up turns they produce: at most
/// one of them is in flight at any time, and follow-ups go first.
pub struct AfterTurnSchedulerState {
    pending_rounds: VecDeque<AfterTurnRound>,
    pending_followups: VecDeque<LoopMirroredUserTurn>,
    in_flight_followup: Option<LoopMirroredUserTurn>,
    round_in_flight: bool,
    current_loop_label: Option<String>,
}

impl View for AfterTurnSchedulerState {
    type V = AfterTurnSchedulerView;

    closed spec fn view(&self) -> AfterTurnSchedulerView {
        AfterTurnSchedulerView {
            pending_rounds: self.pending_rounds@,
            pending_followups: self.pending_followups@,
            in_flight_followup: self.in_flight_followup,
            round_in_flight: self.round_in_flight,
            current_loop_label: opt_view(self.current_loop_label),
        }
    }
}

impl AfterTurnSchedulerState {
    /// An empty scheduler.
    pub fn new() -> (r: Self)
        ensures
            r@.at_most_one_in_flight(),
            r@.is_idle(),
            r@.current_loop_label is None,
    {
        AfterTurnSchedulerState {
            pending_rounds: VecDeque::new(),
            pending_followups: VecDeque::new(),
            in_flight_followup: None,
            round_in_flight: false,
            current_loop_label: None,
        }
    }

    /// Drops all queued and in-flight work.
    pub fn clear(&mut self)
        ensures
            final(self)@.at_most_one_in_flight(),
            final(self)@.is_idle(),
            final(self)@.current_loop_label is None,
    {
        self.pending_rounds.clear();
        self.pending_followups.clear();
        self.in_flight_followup = None;
        self.round_in_flight = false;
        self.current_loop_label = None;
    }

    /// The primary turn finished: queue a round seeded with its last agent
    /// message and release the follow-up that was in flight.
    pub fn note_turn_complete(&mut self, last_agent_message: Option<String>)
        ensures
            final(self)@.at_most_one_in_flight(),
            final(self)@.pending_rounds == old(self)@.pending_rounds.push(
                AfterTurnRound { last_agent_message },
            ),
            final(self)@.pending_followups == old(self)@.pending_followups,
            final(self)@.in_flight_followup is None,
            final(self)@.round_in_flight == old(self)@.round_in_flight,
            final(self)@.current_loop_label == old(self)@.current_loop_label,
    {
        self.pending_rounds.push_back(AfterTurnRound { last_agent_message });
        self.in_flight_followup = None;
    }

    /// The primary turn failed: release the follow-up that was in flight.
    pub fn note_turn_error(&mut self)
        ensures
            final(self)@.at_most_one_in_flight(),
            final(self)@ == (AfterTurnSchedulerView {
                in_flight_followup: None,
                ..old(self)@
            }),
    {
        self.in_flight_followup = None;
    }

    /// Appends follow-ups, in order, behind those already queued.
    pub fn push_followups(&mut self, followups: Vec<LoopMirroredUserTurn>)
        requires
            old(self)@.at_most_one_in_flight(),
        ensures
            final(self)@.at_most_one_in_flight(),
            final(self)@ == (AfterTurnSchedulerView {
                pending_followups: old(self)@.pending_followups + followups@,
                ..old(self)@
            }),
    {
        let ghost start = self.pending_followups@;
        let total = followups.len();
        let mut rest = followups;
        let ghost all = rest@;
        let mut i: usize = 0;
        while rest.len() > 0
            invariant
                rest@ == all.skip(i as int),
                i <= all.len(),
                total == all.len(),
                self.pending_followups@ == start + all.take(i as int),
                self.pending_rounds == old(self).pending_rounds,
                self.in_flight_followup == old(self).in_flight_followup,
                self.round_in_flight == old(self).round_in_flight,
                self.current_loop_label == old(self).current_loop_label,
            decreases rest@.len(),
        {
            let item = rest.remove(0);
            assert(item == all[i as int]);
            self.pending_followups.push_back(item);
            assert(all.take(i + 1) =~= all.take(i as int).push(all[i as int]));
            assert(rest@ =~= all.skip(i + 1));
            i = i + 1;
        }
        assert(all.take(i as int) =~= all);
        proof {
            assert(self@.pending_followups =~= old(self)@.pending_followups + followups@);
        }
    }

    /// Hands out the next piece of work: the oldest follow-up when nothing is
    /// in flight, else the oldest round when nothing is in flight, else nothing.
    pub fn next_action(&mut self) -> (r: AfterTurnSchedulerAction)
        requires
            old(self)@.at_most_one_in_flight(),
        ensures
            final(self)@.at_most_one_in_flight(),
            (r, final(self)@) == old(self)@.next_action_spec(),
    {
        if !self.round_in_flight && self.in_flight_followup.is_none() {
            if let Some(followup) = self.pending_followups.pop_front() {
                self.in_flight_followup = Some(followup.duplicate());
                proof {
                    assert(self@.pending_followups =~= old(self)@.pending_followups.drop_first());
                }
                return AfterTurnSchedulerAction::SubmitFollowup(followup);
            }
            if let Some(round) = self.pending_rounds.pop_front() {
                self.round_in_flight = true;
                proof {
                    assert(self@.pending_rounds =~= old(self)@.pending_rounds.drop_first());
                }
                return AfterTurnSchedulerAction::RunRound(round);
            }
        }
        AfterTurnSchedulerAction::Idle
    }

    /// The running round finished.
    pub fn note_round_completed(&mut self)
        ensures
            final(self)@.at_most_one_in_flight(),
            final(self)@ == (AfterTurnSchedulerView {
                round_in_flight: false,
                current_loop_label: None,
                ..old(self)@
            }),
    {
        self.round_in_flight = false;
        self.current_loop_label = None;
    }

    /// The running round moved on to the loop called `loop_label`.
    pub fn note_round_progress(&mut self, loop_label: String)
        requires
            old(self)@.at_most_one_in_flight(),
        ensures
            final(self)@.at_most_one_in_flight(),
            final(self)@ == (AfterTurnSchedulerView {
                current_loop_label: Some(loop_label@),
                ..old(self)@
            }),
    {
        self.current_loop_label = Some(loop_label);
    }

    /// A one-line summary for the status bar, `None` when there is nothing to do.
    pub fn status_label(&self) -> (r: Option<String>)
        ensures
            opt_view(r) == self@.status(),
    {
        let pending_rounds = self.pending_rounds.len();
        let in_flight: usize = if self.in_flight_followup.is_some() {
            1
        } else {
            0
        };
        let pending_followups: u128 = self.pending_followups.len() as u128 + in_flight as u128;
        if !self.round_in_flight && pending_rounds == 0 && pending_followups == 0 {
            return None;
        }
        if self.round_in_flight {
            if let Some(label) = &self.current_loop_label {
                return Some(label.clone());
            }
        }
        let status = if self.round_in_flight {
            "running"
        } else {
            "queued"
        };
        let mut s = String::from_str("after-turn queue (");
        s.append(status);
        s.append(") · ");
        s.append(decimal_string(pending_rounds as u128).as_str());
        s.append(" round(s) · ");
        s.append(decimal_string(pending_followups).as_str());
        s.append(" follow-up(s)");
        Some(s)
    }
}


/// The status line is empty exactly when the scheduler is idle.
pub proof fn lemma_status_none_iff_idle(v: AfterTurnSchedulerView)
    ensures
        v.status() is None <==> v.is_idle(),
{
}

/// Queued follow-ups always go before queued rounds: when nothing is in
/// flight and a follow-up waits, the next action submits the oldest one.
pub proof fn lemma_followups_before_rounds(v: AfterTurnSchedulerView)
    requires
        !v.round_in_flight,
        v.in_flight_followup is None,
        v.pending_followups.len() > 0,
    ensures
        v.next_action_spec().0 == AfterTurnSchedulerAction::SubmitFollowup(v.pending_followups[0]),
{
}

/// While a round or a follow-up is in flight, nothing else is handed out.
pub proof fn lemma_busy_scheduler_stays_idle(v: AfterTurnSchedulerView)
    requires
        v.round_in_flight || v.in_flight_followup is Some,
    ensures
        v.next_action_spec() == (AfterTurnSchedulerAction::Idle, v),
{
}

/// A failed follow-up turn releases the scheduler: with no round running,
/// the next queued follow-up is handed out right after the error.
pub proof fn lemma_error_releases_next_followup(v: AfterTurnSchedulerView)
    requires
        !v.round_in_flight,
        v.pending_followups.len() > 0,
    ensures
        (AfterTurnSchedulerView { in_flight_followup: None, ..v }).next_action_spec().0
            == AfterTurnSchedulerAction::SubmitFollowup(v.pending_followups[0]),
{
}

/// Follow-ups are handed out in the order they were pushed: with the
/// follow-ups from `fs[k]` on waiting and nothing in flight, the next action
/// submits `fs[k]` and leaves those from `fs[k + 1]` on waiting.
pub proof fn lemma_followups_in_push_order(v: AfterTurnSchedulerView, fs: Seq<LoopMirroredUserTurn>, k: int)
    requires
        !v.round_in_flight,
        0 <= k < fs.len(),
    ensures
        ({
            let w = AfterTurnSchedulerView { pending_followups: fs.skip(k), in_flight_followup: None, ..v };
            &&& w.next_action_spec().0 == AfterTurnSchedulerAction::SubmitFollowup(fs[k])
            &&& w.next_action_spec().1.pending_followups == fs.skip(k + 1)
        }),
{
    assert(fs.skip(k).drop_first() =~= fs.skip(k + 1));
}


/// With no after-turn loops, a turn's rounds leave nothing behind: when no
/// follow-up waits and nothing is in flight, driving the queue completes every
/// queued round and leaves the scheduler idle.
pub proof fn lemma_drain_without_loops_goes_idle(v: AfterTurnSchedulerView)
    requires
        !v.round_in_flight,
        v.in_flight_followup is None,
        v.pending_followups.len() == 0,
    ensures
        v.drain_spec(false).0 == AfterTurnDrain::Idle,
        v.drain_spec(false).1.is_idle(),
    decreases v.pending_rounds.len(),
{
    if v.pending_rounds.len() > 0 {
        lemma_drain_without_loops_goes_idle(AfterTurnSchedulerView {
            pending_rounds: v.pending_rounds.drop_first(),
            current_loop_label: None,
            ..v
        });
    }
}

impl Default for AfterTurnSchedulerState {
    /// An empty scheduler.
    fn default() -> (r: Self)
        ensures
            r@.at_most_one_in_flight(),
            r@.is_idle(),
            r@.current_loop_label is None,
    {
        AfterTurnSchedulerState::new()
    }
}

} // verus!
