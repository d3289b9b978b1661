//! The schedule of a run: which probe goes out next, when a burst is
//! summed up, when the run sleeps and when it ends.
//!
//! The schedule sends nothing itself. Its owner carries out each
//! [`Action`] and reports what came of it as an [`Event`]; the schedule
//! answers with the next action.

use vstd::prelude::*;
use crate::stats::{create_rtt, sentinel, summary_of, RttSummary, Summary};

verus! {

/// The identifier that every probe carries.
pub const IDENTIFIER: u16 = 0;

/// The number of payload bytes in a probe.
pub const PAYLOAD_LEN: usize = 8;

/// How long a probe may stay unanswered, in seconds.
pub const TIMEOUT_SECS: u64 = 1;

/// One destination of probes.
#[derive(Debug, PartialEq, Eq)]
pub struct Target {
    pub ip: String,
    pub name: String,
}

/// How a burst is run: `count` probes to each target, and `timer` seconds
/// of rest between two passes over the targets.
#[derive(Clone, Copy, Debug, PartialEq, Eq)]
pub struct Burst {
    pub count: u8,
    pub timer: u8,
}

/// The configuration of a run. The order of `targets` is the order in which
/// they are probed.
#[derive(Debug, PartialEq, Eq)]
pub struct Conf {
    pub burst: Burst,
    pub targets: Vec<Target>,
}

/// Whether a run ends after one pass over the targets or goes on.
#[derive(Clone, Copy, Debug, PartialEq, Eq)]
pub enum Mode {
    Once,
    Forever,
}

/// What the owner of a schedule reports to it.
#[derive(Clone, Copy, Debug, PartialEq, Eq)]
pub enum Event {
    /// The run begins, or the last emit or sleep is over.
    Resume,
    /// The last probe was answered after so many nanoseconds.
    Reply(u64),
    /// The last probe was not answered in time.
    NoReply,
    /// The last probe could not be sent at all: the address of its target
    /// cannot be read.
    Fatal,
}

/// What the owner of a schedule is to do next.
#[derive(Clone, Copy, Debug, PartialEq, Eq)]
pub enum Action {
    /// Send one probe to target number `target` and wait for its answer.
    Probe { target: usize, sequence: u16, identifier: u16, payload_len: usize, timeout_secs: u64 },
    /// Report the summary of the burst to target number `target`.
    Emit { target: usize, summary: RttSummary },
    /// The pass is over: rest for so many seconds.
    Sleep { seconds: u64 },
    /// The run is over.
    Stop,
    /// The run cannot go on, because of target number `target`.
    Abort { target: usize },
}

/// The mathematical content of an [`Action`].
pub enum Step {
    Probe { target: int, sequence: int, identifier: int, payload_len: int, timeout_secs: int },
    Emit { target: int, summary: Summary },
    Sleep { seconds: int },
    Stop,
    Abort { target: int },
}

impl View for Action {
    type V = Step;

    open spec fn view(&self) -> Step {
        match *self {
            Action::Probe { target, sequence, identifier, payload_len, timeout_secs } => {
                Step::Probe {
                    target: target as int,
                    sequence: sequence as int,
                    identifier: identifier as int,
                    payload_len: payload_len as int,
                    timeout_secs: timeout_secs as int,
                }
            },
            Action::Emit { target, summary } => Step::Emit {
                target: target as int,
                summary: summary@,
            },
            Action::Sleep { seconds } => Step::Sleep { seconds: seconds as int },
            Action::Stop => Step::Stop,
            Action::Abort { target } => Step::Abort { target: target as int },
        }
    }
}

impl Step {
    /// The step names a target that `p` has and a probe that a burst of `p`
    /// holds, and rests as long as `p` says.
    pub open spec fn fits(self, p: Schedule) -> bool {
        match self {
            Step::Probe { target, sequence, .. } => {
                &&& 0 <= target < p.targets
                &&& 0 <= sequence < p.count
            },
            Step::Emit { target, .. } => 0 <= target < p.targets,
            Step::Sleep { seconds } => seconds == p.timer,
            Step::Stop => true,
            Step::Abort { target } => 0 <= target < p.targets,
        }
    }
}

/// Where a run stands.
pub enum State {
    /// Nothing has happened yet.
    Idle,
    /// Probe number `sequence` of the burst to target number `target` is
    /// under way; `replies` holds the round-trip times of the answered
    /// probes before it, oldest first.
    Probing { target: int, sequence: int, replies: Seq<u64> },
    /// The summary for target number `target` is being reported.
    Emitting { target: int },
    /// The run rests between two passes.
    Sleeping,
    /// The run is over.
    Terminated,
}

/// The mathematical content of a [`Scheduler`]: its configuration, which
/// never changes, and its state.
pub struct Schedule {
    pub count: int,
    pub timer: int,
    pub targets: int,
    pub mode: Mode,
    pub state: State,
}

impl Schedule {
    /// The state names a target that exists and a probe that belongs to
    /// the burst, and no more replies than probes went out before that one.
    pub open spec fn wf(self) -> bool {
        &&& 0 <= self.count <= u8::MAX
        &&& 0 <= self.timer <= u8::MAX
        &&& 0 <= self.targets <= usize::MAX
        &&& match self.state {
            State::Probing { target, sequence, replies } => {
                &&& 0 <= target < self.targets
                &&& 0 <= sequence < self.count
                &&& replies.len() <= sequence
            },
            State::Emitting { target } => 0 <= target < self.targets,
            _ => true,
        }
    }

    /// The probe with number `sequence` to target number `target`.
    pub open spec fn probe(target: int, sequence: int) -> Step {
        Step::Probe {
            target,
            sequence,
            identifier: IDENTIFIER as int,
            payload_len: PAYLOAD_LEN as int,
            timeout_secs: TIMEOUT_SECS as int,
        }
    }

    /// The turn of target number `target` has come. Its burst begins with
    /// probe number 0; a burst of no probes is summed up at once. Past the
    /// last target the pass is over: the run rests, or ends where it makes
    /// one pass only.
    pub open spec fn enter(self, target: int) -> (State, Step) {
        if target < self.targets {
            if self.count == 0 {
                (
                    State::Emitting { target },
                    Step::Emit { target, summary: summary_of(Seq::empty(), self.count) },
                )
            } else {
                (
                    State::Probing { target, sequence: 0, replies: Seq::empty() },
                    Self::probe(target, 0),
                )
            }
        } else {
            match self.mode {
                Mode::Forever => (State::Sleeping, Step::Sleep { seconds: self.timer }),
                Mode::Once => (State::Terminated, Step::Stop),
            }
        }
    }

    /// Probe number `sequence` to target number `target` is settled, and
    /// `replies` holds what the burst has gathered with it. The next probe
    /// of the burst follows; after the last one the burst is summed up.
    pub open spec fn settle(self, target: int, sequence: int, replies: Seq<u64>) -> (State, Step) {
        if sequence + 1 < self.count {
            (
                State::Probing { target, sequence: sequence + 1, replies },
                Self::probe(target, sequence + 1),
            )
        } else {
            (
                State::Emitting { target },
                Step::Emit { target, summary: summary_of(replies, self.count) },
            )
        }
    }

    /// The state after `event` and the action that it calls for, or `None`
    /// where the state does not await `event`.
    pub open spec fn next(self, event: Event) -> Option<(State, Step)> {
        match (self.state, event) {
            (State::Idle, Event::Resume) => Some(self.enter(0)),
            (State::Probing { target, sequence, replies }, Event::Reply(nanos)) => Some(
                self.settle(target, sequence, replies.push(nanos)),
            ),
            (State::Probing { target, sequence, replies }, Event::NoReply) => Some(
                self.settle(target, sequence, replies),
            ),
            (State::Probing { target, .. }, Event::Fatal) => Some(
                (State::Terminated, Step::Abort { target }),
            ),
            (State::Emitting { target }, Event::Resume) => Some(self.enter(target + 1)),
            (State::Sleeping, Event::Resume) => Some(self.enter(0)),
            _ => None,
        }
    }

    /// This schedule in another state.
    pub open spec fn at(self, state: State) -> Schedule {
        Schedule { state, ..self }
    }

    /// The schedule after `events`, with the actions that they called for,
    /// one for each event; `None` where one of them came unawaited.
    pub open spec fn run(self, events: Seq<Event>) -> Option<(Schedule, Seq<Step>)>
        decreases events.len(),
    {
        if events.len() == 0 {
            Some((self, Seq::empty()))
        } else {
            match self.run(events.drop_last()) {
                Some((before, steps)) => match before.next(events.last()) {
                    Some((state, step)) => Some((before.at(state), steps.push(step))),
                    None => None,
                },
                None => None,
            }
        }
    }
}

/// The targets have their turns in the order of the configuration: after
/// the summary for one, the burst to the next begins with probe number 0,
/// or is summed up at once where a burst has no probes.
pub proof fn lemma_next_target(p: Schedule, target: int)
    requires
        p.wf(),
        p.state == (State::Emitting { target }),
        target + 1 < p.targets,
    ensures
        p.count > 0 ==> p.next(Event::Resume) == Some(
            (
                State::Probing { target: target + 1, sequence: 0, replies: Seq::empty() },
                Schedule::probe(target + 1, 0),
            ),
        ),
        p.count == 0 ==> p.next(Event::Resume) == Some(
            (
                State::Emitting { target: target + 1 },
                Step::Emit { target: target + 1, summary: sentinel() },
            ),
        ),
{
}

/// After the summary for the last target the pass is over. A run that goes
/// on rests for `timer` seconds and then takes up the first target again;
/// a run of one pass ends.
pub proof fn lemma_pass_end(p: Schedule)
    requires
        p.wf(),
        p.state == (State::Emitting { target: p.targets - 1 }),
    ensures
        p.mode == Mode::Forever ==> p.next(Event::Resume) == Some(
            (State::Sleeping, Step::Sleep { seconds: p.timer }),
        ) && p.at(State::Sleeping).next(Event::Resume) == Some(p.enter(0)),
        p.mode == Mode::Once ==> p.next(Event::Resume) == Some((State::Terminated, Step::Stop)),
{
}

/// A run that is over stays over: it awaits no event.
pub proof fn lemma_terminated(p: Schedule, event: Event)
    requires
        p.state is Terminated,
    ensures
        p.next(event) is None,
{
}

/// Each of `events` settles a probe: it is a reply or the lack of one.
pub open spec fn settling(events: Seq<Event>) -> bool {
    forall|i: int| 0 <= i < events.len() ==> events[i] is Reply || events[i] is NoReply
}

/// The round-trip times that `events` report, oldest first.
pub open spec fn replies_in(events: Seq<Event>) -> Seq<u64>
    decreases events.len(),
{
    if events.len() == 0 {
        Seq::empty()
    } else {
        match events.last() {
            Event::Reply(nanos) => replies_in(events.drop_last()).push(nanos),
            _ => replies_in(events.drop_last()),
        }
    }
}

/// `events` report no more round-trip times than there are events.
pub proof fn lemma_replies_in_len(events: Seq<Event>)
    ensures
        replies_in(events).len() <= events.len(),
    decreases events.len(),
{
    if events.len() > 0 {
        lemma_replies_in_len(events.drop_last());
    }
}

/// While a burst is under way, every probe that is settled calls for the
/// probe with the next number to the same target, and the replies are
/// kept in the order in which they came.
pub proof fn lemma_burst_under_way(p: Schedule, target: int, events: Seq<Event>)
    requires
        p.wf(),
        p.state == (State::Probing { target, sequence: 0, replies: Seq::empty() }),
        events.len() < p.count,
        settling(events),
    ensures
        p.run(events) is Some,
        p.run(events).unwrap().0 == p.at(
            State::Probing {
                target,
                sequence: events.len() as int,
                replies: replies_in(events),
            },
        ),
        p.run(events).unwrap().1.len() == events.len(),
        forall|k: int|
            0 <= k < events.len() ==> p.run(events).unwrap().1[k] == Schedule::probe(
                target,
                k + 1,
            ),
    decreases events.len(),
{
    if events.len() == 0 {
        assert(p.at(p.state) == p);
    } else {
        lemma_burst_under_way(p, target, events.drop_last());
        assert(events.last() is Reply || events.last() is NoReply);
    }
}

/// A whole burst: once probe number 0 to a target is under way, the
/// outcomes of as many probes as the burst counts lead to the summary of
/// the round-trip times among them, in the order in which they came, out
/// of that many probes. Until then each outcome calls for the next probe.
pub proof fn lemma_burst(p: Schedule, target: int, events: Seq<Event>)
    requires
        p.wf(),
        p.state == (State::Probing { target, sequence: 0, replies: Seq::empty() }),
        events.len() == p.count,
        settling(events),
    ensures
        p.run(events) is Some,
        p.run(events).unwrap().0 == p.at(State::Emitting { target }),
        p.run(events).unwrap().1.len() == p.count,
        forall|k: int|
            0 <= k < p.count - 1 ==> p.run(events).unwrap().1[k] == Schedule::probe(target, k + 1),
        p.run(events).unwrap().1[p.count - 1] == (Step::Emit {
            target,
            summary: summary_of(replies_in(events), p.count),
        }),
        replies_in(events).len() <= p.count,
{
    lemma_burst_under_way(p, target, events.drop_last());
    lemma_replies_in_len(events);
    assert(events.last() is Reply || events.last() is NoReply);
}

/// No event leads a well-formed schedule to a state that is not, and none
/// calls for a step that does not fit the schedule.
pub proof fn lemma_next_wf(p: Schedule, event: Event)
    requires
        p.wf(),
        p.next(event) is Some,
    ensures
        p.at(p.next(event).unwrap().0).wf(),
        p.next(event).unwrap().1.fits(p),
{
}

/// Whatever happens in a run, the schedule stays well formed and keeps its
/// configuration, and every step that is called for fits it.
pub proof fn lemma_run_wf(p: Schedule, events: Seq<Event>)
    requires
        p.wf(),
        p.run(events) is Some,
    ensures
        p.run(events).unwrap().0.wf(),
        p.run(events).unwrap().0 == p.at(p.run(events).unwrap().0.state),
        p.run(events).unwrap().1.len() == events.len(),
        forall|k: int|
            0 <= k < events.len() ==> (#[trigger] p.run(events).unwrap().1[k]).fits(p),
    decreases events.len(),
{
    if events.len() == 0 {
        assert(p.at(p.state) == p);
    } else {
        lemma_run_wf(p, events.drop_last());
        let before = p.run(events.drop_last()).unwrap().0;
        lemma_next_wf(before, events.last());
    }
}

/// `replies` with one more round-trip time, where there is one.
spec fn with_reply(replies: Seq<u64>, reply: Option<u64>) -> Seq<u64> {
    match reply {
        Some(nanos) => replies.push(nanos),
        None => replies,
    }
}

/// Which kind of state a scheduler is in.
#[derive(Clone, Copy, Debug, PartialEq, Eq)]
enum Phase {
    Idle,
    Probing,
    Emitting,
    Sleeping,
    Terminated,
}

/// The schedule of one run.
#[derive(Debug)]
pub struct Scheduler {
    count: u8,
    timer: u8,
    targets: usize,
    mode: Mode,
    phase: Phase,
    target: usize,
    sequence: u8,
    replies: Vec<u64>,
}

impl View for Scheduler {
    type V = Schedule;

    closed spec fn view(&self) -> Schedule {
        Schedule {
            count: self.count as int,
            timer: self.timer as int,
            targets: self.targets as int,
            mode: self.mode,
            state: match self.phase {
                Phase::Idle => State::Idle,
                Phase::Probing => State::Probing {
                    target: self.target as int,
                    sequence: self.sequence as int,
                    replies: self.replies@,
                },
                Phase::Emitting => State::Emitting { target: self.target as int },
                Phase::Sleeping => State::Sleeping,
                Phase::Terminated => State::Terminated,
            },
        }
    }
}

impl Scheduler {
    #[verifier::type_invariant]
    spec fn inv(&self) -> bool {
        self@.wf()
    }

    /// The schedule of a run over the targets of `conf`, before anything
    /// has happened.
    pub fn new(conf: &Conf, mode: Mode) -> (r: Scheduler)
        ensures
            r@ == (Schedule {
                count: conf.burst.count as int,
                timer: conf.burst.timer as int,
                targets: conf.targets.len() as int,
                mode,
                state: State::Idle,
            }),
            r@.wf(),
    {
        Scheduler {
            count: conf.burst.count,
            timer: conf.burst.timer,
            targets: conf.targets.len(),
            mode,
            phase: Phase::Idle,
            target: 0,
            sequence: 0,
            replies: Vec::new(),
        }
    }

    /// Takes note of `event` and says what to do next. An event that the
    /// state does not await changes nothing, and `None` is returned.
    pub fn step(&mut self, event: Event) -> (r: Option<Action>)
        ensures
            final(self)@.wf(),
            r is Some <==> old(self)@.next(event) is Some,
            r is None ==> final(self)@ == old(self)@,
            r is Some ==> r.unwrap()@ == old(self)@.next(event).unwrap().1,
            r is Some ==> final(self)@ == old(self)@.at(old(self)@.next(event).unwrap().0),
            r is Some ==> r.unwrap()@.fits(old(self)@),
    {
        proof {
            use_type_invariant(&*self);
        }
        match (self.phase, event) {
            (Phase::Idle, Event::Resume) => Some(self.enter(0)),
            (Phase::Probing, Event::Reply(nanos)) => Some(self.settle(Some(nanos))),
            (Phase::Probing, Event::NoReply) => Some(self.settle(None)),
            (Phase::Probing, Event::Fatal) => {
                self.phase = Phase::Terminated;
                Some(Action::Abort { target: self.target })
            },
            (Phase::Emitting, Event::Resume) => {
                let target: usize = self.target + 1;
                Some(self.enter(target))
            },
            (Phase::Sleeping, Event::Resume) => Some(self.enter(0)),
            _ => None,
        }
    }

    /// Turns to target number `target`, or ends the pass where there is
    /// none.
    fn enter(&mut self, target: usize) -> (r: Action)
        requires
            !(old(self)@.state is Probing),
            target <= old(self)@.targets,
        ensures
            (final(self)@.state, r@) == old(self)@.enter(target as int),
            final(self)@ == old(self)@.at(final(self)@.state),
    {
        proof {
            use_type_invariant(&*self);
        }
        if target < self.targets {
            self.target = target;
            self.sequence = 0;
            self.replies = Vec::new();
            if self.count == 0 {
                self.phase = Phase::Emitting;
                Action::Emit { target, summary: create_rtt(&self.replies, self.count) }
            } else {
                self.phase = Phase::Probing;
                Action::Probe {
                    target,
                    sequence: 0,
                    identifier: IDENTIFIER,
                    payload_len: PAYLOAD_LEN,
                    timeout_secs: TIMEOUT_SECS,
                }
            }
        } else {
            match self.mode {
                Mode::Forever => {
                    self.phase = Phase::Sleeping;
                    Action::Sleep { seconds: self.timer as u64 }
                },
                Mode::Once => {
                    self.phase = Phase::Terminated;
                    Action::Stop
                },
            }
        }
    }

    /// Closes the probe that is under way, with its round-trip time where
    /// it was answered.
    fn settle(&mut self, reply: Option<u64>) -> (r: Action)
        requires
            old(self)@.state is Probing,
        ensures
            (final(self)@.state, r@) == old(self)@.settle(
                old(self)@.state->Probing_target,
                old(self)@.state->Probing_sequence,
                with_reply(old(self)@.state->Probing_replies, reply),
            ),
            final(self)@ == old(self)@.at(final(self)@.state),
    {
        proof {
            use_type_invariant(&*self);
        }
        let mut replies: Vec<u64> = Vec::new();
        core::mem::swap(&mut self.replies, &mut replies);
        if let Some(nanos) = reply {
            replies.push(nanos);
        }
        if self.sequence + 1 < self.count {
            self.sequence = self.sequence + 1;
            self.replies = replies;
            Action::Probe {
                target: self.target,
                sequence: self.sequence as u16,
                identifier: IDENTIFIER,
                payload_len: PAYLOAD_LEN,
                timeout_secs: TIMEOUT_SECS,
            }
        } else {
            self.phase = Phase::Emitting;
            Action::Emit { target: self.target, summary: create_rtt(&replies, self.count) }
        }
    }
}

} // verus!
