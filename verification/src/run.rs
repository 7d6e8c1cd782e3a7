//! The main loop: when to tick, when to wait for events, and which event to handle next.
//!
//! Times are counted in nanoseconds from a moment of the caller's choosing.
use vstd::prelude::*;

verus! {

/// What the main loop is in the middle of.
#[derive(Clone, Copy, Debug, PartialEq, Eq, Structural)]
pub enum Stage {
    /// Nothing yet.
    Start,
    /// A new round.
    Top,
    /// A tick.
    Ticking,
    /// Waiting for events.
    Polling,
    /// Going through the events.
    Walking,
    /// Handling an event.
    Handling,
}

/// What has been done for the main loop.
#[derive(Clone, Copy, Debug, PartialEq, Eq, Structural)]
pub enum RunEvent {
    /// The server listens; it is this time.
    Started(u128),
    /// The clock has been read; it is this time.
    Clock(u128),
    /// The tick handler ran for `elapsed`, and it is now `now`.
    Ticked {
        /// How long the handler ran.
        elapsed: u128,
        /// The time after it.
        now: u128,
    },
    /// This many events have come.
    Polled(usize),
    /// The event has been handled.
    Handled,
}

/// What the main loop wants done.
#[derive(Clone, Copy, Debug, PartialEq, Eq, Structural)]
pub enum RunAction {
    /// Read the clock.
    Clock,
    /// Run the tick handler.
    Tick,
    /// Wait for events, for this long at most where a time is given.
    Poll(Option<u128>),
    /// Handle the event of this number, counted from 0.
    Handle(usize),
}

/// Where the main loop stands.
#[derive(Clone, Copy, Debug, PartialEq, Eq, Structural)]
pub struct RunLoop {
    /// The time between two ticks, if the server ticks.
    pub interval: Option<u128>,
    /// When the next tick is due, if the server ticks.
    pub next_tick: Option<u128>,
    /// What the loop is in the middle of.
    pub stage: Stage,
    /// How many events to pass over, where a tick came between.
    pub skip: Option<usize>,
    /// The number of the event that the walk began with.
    pub first: usize,
    /// How many events of the walk have been handled.
    pub done: usize,
    /// How many events have come.
    pub len: usize,
}

/// `a - b`, but not below 0.
pub open spec fn monus(a: u128, b: u128) -> u128 {
    if a >= b {
        (a - b) as u128
    } else {
        0
    }
}

impl RunLoop {
    /// A loop that nothing has been done for, and that does not tick.
    pub open spec fn initial() -> RunLoop {
        RunLoop {
            interval: None,
            next_tick: None,
            stage: Stage::Start,
            skip: None,
            first: 0,
            done: 0,
            len: 0,
        }
    }

    /// What holds of every loop.
    pub open spec fn wf(self) -> bool {
        &&& self.next_tick is Some ==> self.interval is Some
        &&& self.stage == Stage::Ticking ==> self.interval is Some
        &&& self.stage == Stage::Walking || self.stage == Stage::Handling ==> self.first
            + self.done < self.len
        &&& self.skip is Some ==> self.skip->0 < self.len
        &&& self.stage == Stage::Start || self.stage == Stage::Polling ==> self.skip is None
    }

    /// Whether a tick is due.
    pub open spec fn due(self, now: u128) -> bool {
        self.next_tick is Some && now > self.next_tick->0
    }

    /// Whether `event` is what the loop waits for, and no time runs off the scale.
    pub open spec fn accepts(self, event: RunEvent) -> bool {
        match (self.stage, event) {
            (Stage::Start, RunEvent::Started(now)) => self.interval is Some ==> now
                + self.interval->0 <= u128::MAX,
            (Stage::Top, RunEvent::Clock(_)) => true,
            (Stage::Ticking, RunEvent::Ticked { elapsed, now }) => now + monus(
                self.interval->0,
                elapsed,
            ) <= u128::MAX,
            (Stage::Polling, RunEvent::Polled(_)) => true,
            (Stage::Walking, RunEvent::Clock(_)) => true,
            (Stage::Handling, RunEvent::Handled) => true,
            _ => false,
        }
    }

    /// Goes on with the walk, or with a new round once the walk is over.
    pub open spec fn walk(self) -> (RunLoop, RunAction) {
        if self.first + self.done < self.len {
            (RunLoop { stage: Stage::Walking, ..self }, RunAction::Clock)
        } else {
            (RunLoop { stage: Stage::Top, skip: None, ..self }, RunAction::Clock)
        }
    }

    /// Goes back to the events that a tick came between, or waits for new ones.
    pub open spec fn proceed(self, timeout: Option<u128>) -> (RunLoop, RunAction) {
        match self.skip {
            Some(k) => (RunLoop { first: k, done: 0, ..self }).walk(),
            None => (RunLoop { stage: Stage::Polling, ..self }, RunAction::Poll(timeout)),
        }
    }

    /// Where the loop stands after `event`, and what it then wants done.
    pub open spec fn next(self, event: RunEvent) -> (RunLoop, RunAction) {
        match event {
            RunEvent::Started(now) => (
                RunLoop {
                    stage: Stage::Top,
                    next_tick: match self.interval {
                        Some(interval) => Some((now + interval) as u128),
                        None => self.next_tick,
                    },
                    ..self
                },
                RunAction::Clock,
            ),
            RunEvent::Clock(now) => if self.stage == Stage::Top {
                if self.due(now) {
                    (RunLoop { stage: Stage::Ticking, ..self }, RunAction::Tick)
                } else {
                    self.proceed(self.interval)
                }
            } else {
                if self.due(now) {
                    (
                        RunLoop { stage: Stage::Top, skip: Some(self.done), ..self },
                        RunAction::Clock,
                    )
                } else {
                    (
                        RunLoop { stage: Stage::Handling, ..self },
                        RunAction::Handle((self.first + self.done) as usize),
                    )
                }
            },
            RunEvent::Ticked { elapsed, now } => {
                let pause = monus(self.interval->0, elapsed);
                (RunLoop { next_tick: Some((now + pause) as u128), ..self }).proceed(Some(pause))
            },
            RunEvent::Polled(n) => (RunLoop { first: 0, done: 0, len: n, ..self }).walk(),
            RunEvent::Handled => (RunLoop { done: (self.done + 1) as usize, ..self }).walk(),
        }
    }

    /// Makes a loop that nothing has been done for.
    pub fn new() -> (run: RunLoop)
        ensures
            run == RunLoop::initial(),
            run.wf(),
    {
        RunLoop {
            interval: None,
            next_tick: None,
            stage: Stage::Start,
            skip: None,
            first: 0,
            done: 0,
            len: 0,
        }
    }

    /// Finds out whether a tick is due.
    fn is_due(&self, now: u128) -> (b: bool)
        ensures
            b == self.due(now),
    {
        match self.next_tick {
            Some(next) => now > next,
            None => false,
        }
    }

    /// Goes on with the walk, or with a new round.
    fn go_on(&mut self) -> (action: RunAction)
        requires
            old(self).first + old(self).done <= usize::MAX,
        ensures
            (*final(self), action) == old(self).walk(),
    {
        if self.first + self.done < self.len {
            self.stage = Stage::Walking;
        } else {
            self.stage = Stage::Top;
            self.skip = None;
        }
        RunAction::Clock
    }

    /// Goes back to the events at hand, or waits for new ones.
    fn resume(&mut self, timeout: Option<u128>) -> (action: RunAction)
        ensures
            (*final(self), action) == old(self).proceed(timeout),
    {
        match self.skip {
            Some(k) => {
                self.first = k;
                self.done = 0;
                self.go_on()
            },
            None => {
                self.stage = Stage::Polling;
                RunAction::Poll(timeout)
            },
        }
    }

    /// Takes the loop on from where it stands, now that `event` has happened.
    pub fn step(&mut self, event: RunEvent) -> (action: RunAction)
        requires
            old(self).wf(),
            old(self).accepts(event),
        ensures
            (*final(self), action) == old(self).next(event),
            final(self).wf(),
    {
        match event {
            RunEvent::Started(now) => {
                match self.interval {
                    Some(interval) => {
                        self.next_tick = Some(now + interval);
                    },
                    None => {},
                }
                self.stage = Stage::Top;
                RunAction::Clock
            },
            RunEvent::Clock(now) => {
                match self.stage {
                    Stage::Top => {
                        if self.is_due(now) {
                            self.stage = Stage::Ticking;
                            RunAction::Tick
                        } else {
                            let timeout = self.interval;
                            self.resume(timeout)
                        }
                    },
                    _ => {
                        if self.is_due(now) {
                            self.skip = Some(self.done);
                            self.stage = Stage::Top;
                            RunAction::Clock
                        } else {
                            self.stage = Stage::Handling;
                            RunAction::Handle(self.first + self.done)
                        }
                    },
                }
            },
            RunEvent::Ticked { elapsed, now } => {
                let interval: u128 = self.interval.unwrap();
                let pause: u128 = if interval >= elapsed {
                    interval - elapsed
                } else {
                    0
                };
                self.next_tick = Some(now + pause);
                self.resume(Some(pause))
            },
            RunEvent::Polled(n) => {
                self.first = 0;
                self.done = 0;
                self.len = n;
                self.go_on()
            },
            RunEvent::Handled => {
                self.done = self.done + 1;
                self.go_on()
            },
        }
    }

    /// Every event before number `covered` of those that have come has been handled, and all
    /// have where the loop is not going through them.
    pub open spec fn covers(self, covered: int) -> bool {
        &&& covered <= self.len
        &&& if self.stage == Stage::Walking || self.stage == Stage::Handling {
            self.first + self.done <= covered
        } else if self.skip is Some {
            self.skip->0 <= covered
        } else {
            covered == self.len
        }
    }

    /// How many events from the first on have been handled without a gap after `event`, where
    /// `covered` had been before.
    pub open spec fn covered_after(self, covered: int, event: RunEvent) -> int {
        match event {
            RunEvent::Polled(_) => 0,
            RunEvent::Handled => if self.first + self.done == covered {
                covered + 1
            } else {
                covered
            },
            _ => covered,
        }
    }

    /// Where the loop stands after all of `events`, the earliest first.
    pub open spec fn after_all(self, events: Seq<RunEvent>) -> RunLoop
        decreases events.len(),
    {
        if events.len() == 0 {
            self
        } else {
            self.after_all(events.drop_last()).next(events.last()).0
        }
    }

    /// Whether each of `events` is what the loop waits for when it comes.
    pub open spec fn accepts_all(self, events: Seq<RunEvent>) -> bool
        decreases events.len(),
    {
        events.len() > 0 ==> {
            &&& self.accepts_all(events.drop_last())
            &&& self.after_all(events.drop_last()).accepts(events.last())
        }
    }

    /// How many events from the first on have been handled without a gap after all of `events`,
    /// where `covered` had been before.
    pub open spec fn covered_after_all(self, covered: int, events: Seq<RunEvent>) -> int
        decreases events.len(),
    {
        if events.len() == 0 {
            covered
        } else {
            self.after_all(events.drop_last()).covered_after(
                self.covered_after_all(covered, events.drop_last()),
                events.last(),
            )
        }
    }
}

/// No event is left out: whatever happens, the loop stays in step with the events that have
/// been handled, and it waits for new events only once all that came before have been handled.
pub proof fn law_no_event_left_out(run: RunLoop, covered: int, event: RunEvent)
    requires
        run.wf(),
        run.accepts(event),
        run.covers(covered),
    ensures
        run.next(event).0.covers(run.covered_after(covered, event)),
        run.next(event).1 is Poll ==> run.covered_after(covered, event) == run.next(event).0.len,
{
}

/// A loop that nothing has been done for, whether it ticks or not, has left no event out.
pub proof fn law_fresh_loop_covers(interval: Option<u128>)
    ensures
        (RunLoop { interval, ..RunLoop::initial() }).covers(0),
        (RunLoop { interval, ..RunLoop::initial() }).wf(),
{
}

/// From its beginning on the loop leaves no event out, whatever happens: when it is about to wait
/// for new ones, all that came before have been handled.
pub proof fn law_no_event_ever_left_out(interval: Option<u128>, events: Seq<RunEvent>)
    requires
        (RunLoop { interval, ..RunLoop::initial() }).accepts_all(events),
    ensures
        ({
            let run = RunLoop { interval, ..RunLoop::initial() };
            let after = run.after_all(events);
            let covered = run.covered_after_all(0, events);
            &&& after.wf()
            &&& after.covers(covered)
            &&& after.stage == Stage::Polling ==> covered == after.len
        }),
    decreases events.len(),
{
    law_fresh_loop_covers(interval);
    if events.len() > 0 {
        let run = RunLoop { interval, ..RunLoop::initial() };
        let before = events.drop_last();
        law_no_event_ever_left_out(interval, before);
        law_no_event_left_out(
            run.after_all(before),
            run.covered_after_all(0, before),
            events.last(),
        );
    }
}

/// A tick that comes while the loop goes through the events from the first on leaves it with
/// the event that it would have handled; where it had gone back to them before, with one that
/// is not later.
pub proof fn law_tick_between_events(run: RunLoop, now: u128)
    requires
        run.wf(),
        run.stage == Stage::Walking,
        run.due(now),
    ensures
        run.next(RunEvent::Clock(now)).0.skip is Some,
        run.next(RunEvent::Clock(now)).0.skip->0 <= run.first + run.done,
        run.first == 0 ==> run.next(RunEvent::Clock(now)).0.skip->0 == run.first + run.done,
{
}

/// The tick handler runs only after the time at which the tick is due.
pub proof fn law_tick_not_early(run: RunLoop, event: RunEvent)
    requires
        run.wf(),
        run.accepts(event),
        run.next(event).1 == RunAction::Tick,
    ensures
        event matches RunEvent::Clock(now) && run.next_tick is Some && now > run.next_tick->0,
{
}

/// After a tick the next is due once the interval is over that began with the handler, and at
/// once where the handler took longer.
pub proof fn law_next_tick(run: RunLoop, elapsed: u128, now: u128)
    requires
        run.wf(),
        run.stage == Stage::Ticking,
        run.accepts(RunEvent::Ticked { elapsed, now }),
    ensures
        ({
            let after = run.next(RunEvent::Ticked { elapsed, now }).0;
            &&& after.interval == run.interval
            &&& after.next_tick is Some
            &&& elapsed <= run.interval->0 ==> after.next_tick->0 == now + run.interval->0
                - elapsed
            &&& elapsed > run.interval->0 ==> after.next_tick->0 == now
        }),
{
}

/// Nothing but the start of the loop and the end of a tick's handler changes when the next tick is due, and
/// nothing changes the interval.
pub proof fn law_next_tick_kept(run: RunLoop, event: RunEvent)
    requires
        run.wf(),
        run.accepts(event),
    ensures
        run.next(event).0.interval == run.interval,
        !(event is Started) && !(event is Ticked) ==> run.next(event).0.next_tick
            == run.next_tick,
        run.next(event).0.stage != Stage::Start,
        run.next(event).0.wf(),
{
}

/// Until the next tick's handler has run, the next tick stays due when it is.
proof fn lemma_next_tick_kept(run: RunLoop, events: Seq<RunEvent>)
    requires
        run.wf(),
        run.stage != Stage::Start,
        run.accepts_all(events),
        forall|i: int| 0 <= i < events.len() ==> !(#[trigger] events[i] is Ticked),
    ensures
        run.after_all(events).interval == run.interval,
        run.after_all(events).next_tick == run.next_tick,
        run.after_all(events).stage != Stage::Start,
        run.after_all(events).wf(),
    decreases events.len(),
{
    if events.len() > 0 {
        let before = events.drop_last();
        assert forall|i: int| 0 <= i < before.len() implies !(#[trigger] before[i] is Ticked) by {
            assert(before[i] == events[i]);
        }
        lemma_next_tick_kept(run, before);
        assert(!(events[events.len() - 1] is Ticked));
        law_next_tick_kept(run.after_all(before), events.last());
    }
}

/// The first tick comes after the interval: where the loop started at `now` and `events` followed
/// without a tick's handler, a time at which the loop wants a tick is later than `now` by more than
/// the interval, and there is an interval.
pub proof fn law_first_tick(run: RunLoop, now: u128, events: Seq<RunEvent>, again: u128)
    requires
        run.wf(),
        run.accepts(RunEvent::Started(now)),
        run.next(RunEvent::Started(now)).0.accepts_all(events),
        forall|i: int| 0 <= i < events.len() ==> !(#[trigger] events[i] is Ticked),
        ({
            let last = run.next(RunEvent::Started(now)).0.after_all(events);
            &&& last.accepts(RunEvent::Clock(again))
            &&& last.next(RunEvent::Clock(again)).1 == RunAction::Tick
        }),
    ensures
        run.interval is Some,
        again > now + run.interval->0,
{
    let started = run.next(RunEvent::Started(now)).0;
    law_next_tick_kept(run, RunEvent::Started(now));
    lemma_next_tick_kept(started, events);
    law_tick_not_early(started.after_all(events), RunEvent::Clock(again));
}

/// Two ticks are at least the interval apart: where the handler of a tick began at `begin`, ran
/// for `elapsed` and was over at `now`, and `events` followed without another tick's handler, a
/// time at which the loop wants the next tick is later than `begin` by more than the interval.
pub proof fn law_ticks_apart(
    run: RunLoop,
    begin: u128,
    elapsed: u128,
    now: u128,
    events: Seq<RunEvent>,
    again: u128,
)
    requires
        run.wf(),
        run.stage == Stage::Ticking,
        begin + elapsed <= now,
        run.accepts(RunEvent::Ticked { elapsed, now }),
        run.next(RunEvent::Ticked { elapsed, now }).0.accepts_all(events),
        forall|i: int| 0 <= i < events.len() ==> !(#[trigger] events[i] is Ticked),
        ({
            let last = run.next(RunEvent::Ticked { elapsed, now }).0.after_all(events);
            &&& last.accepts(RunEvent::Clock(again))
            &&& last.next(RunEvent::Clock(again)).1 == RunAction::Tick
        }),
    ensures
        again > begin + run.interval->0,
{
    let ticked = RunEvent::Ticked { elapsed, now };
    let after = run.next(ticked).0;
    law_next_tick_kept(run, ticked);
    law_next_tick(run, elapsed, now);
    lemma_next_tick_kept(after, events);
    law_tick_not_early(after.after_all(events), RunEvent::Clock(again));
}

/// A server that ticks waits no longer than the interval, and one that does not waits until
/// something happens.
pub proof fn law_poll_bounded(run: RunLoop, event: RunEvent)
    requires
        run.wf(),
        run.accepts(event),
        run.next(event).1 is Poll,
    ensures
        ({
            let timeout = run.next(event).1->Poll_0;
            match run.interval {
                None => timeout is None,
                Some(interval) => timeout is Some && timeout->0 <= interval,
            }
        }),
{
}

/// A tick is never left out: where the time at which it is due has passed, however long ago, a new
/// round begins with it, and going through events is broken off for a new round, which will come
/// back to the event that was next.
pub proof fn law_tick_never_left_out(run: RunLoop, now: u128)
    requires
        run.next_tick is Some,
        now > run.next_tick->0,
    ensures
        run.stage == Stage::Top ==> run.next(RunEvent::Clock(now)) == (
            RunLoop { stage: Stage::Ticking, ..run },
            RunAction::Tick,
        ),
        run.stage == Stage::Walking ==> run.next(RunEvent::Clock(now)) == (
            RunLoop { stage: Stage::Top, skip: Some(run.done), ..run },
            RunAction::Clock,
        ),
{
}

/// While no tick is due, or the loop does not tick, a new round goes back to the events that a tick
/// came between, or else waits for new ones for the interval; and the next event is handled.
pub proof fn law_no_tick_before_time(run: RunLoop, now: u128)
    requires
        run.next_tick is None || now <= run.next_tick->0,
        run.skip is Some ==> run.skip->0 < run.len,
        run.stage == Stage::Walking ==> run.first + run.done <= usize::MAX,
    ensures
        run.stage == Stage::Top && run.skip is None ==> run.next(RunEvent::Clock(now)) == (
            RunLoop { stage: Stage::Polling, ..run },
            RunAction::Poll(run.interval),
        ),
        run.stage == Stage::Top && run.skip is Some ==> run.next(RunEvent::Clock(now)) == (
            RunLoop { stage: Stage::Walking, first: run.skip->0, done: 0, ..run },
            RunAction::Clock,
        ),
        run.stage == Stage::Walking ==> {
            let (after, action) = run.next(RunEvent::Clock(now));
            &&& after == RunLoop { stage: Stage::Handling, ..run }
            &&& action matches RunAction::Handle(i) && i == run.first + run.done
        },
{
}

/// How the loop starts: a new round begins, and where there is an interval the first tick is due once
/// it is over.
pub proof fn law_starts(run: RunLoop, now: u128)
    requires
        run.interval is Some ==> now + run.interval->0 <= u128::MAX,
    ensures
        run.next(RunEvent::Started(now)).1 == RunAction::Clock,
        run.interval is None ==> run.next(RunEvent::Started(now)).0 == (RunLoop {
            stage: Stage::Top,
            ..run
        }),
        run.interval is Some ==> {
            let after = run.next(RunEvent::Started(now)).0;
            &&& after.next_tick is Some
            &&& after.next_tick->0 == now + run.interval->0
            &&& after == RunLoop { stage: Stage::Top, next_tick: after.next_tick, ..run }
        },
{
}

/// After a tick's handler the loop goes back to the events that the tick came between, or else waits
/// for new ones for what is left of the interval, and for no time where none is left; then the next
/// tick is due.
pub proof fn law_after_tick(run: RunLoop, elapsed: u128, now: u128)
    requires
        run.interval is Some,
        run.skip is Some ==> run.skip->0 < run.len,
        now + run.interval->0 <= u128::MAX,
    ensures
        ({
            let (after, action) = run.next(RunEvent::Ticked { elapsed, now });
            let left: int = if elapsed <= run.interval->0 {
                run.interval->0 - elapsed
            } else {
                0
            };
            &&& after.next_tick is Some
            &&& after.next_tick->0 == now + left
            &&& run.skip is None ==> {
                &&& action matches RunAction::Poll(timeout) && timeout is Some && timeout->0
                    == left
                &&& after == RunLoop { stage: Stage::Polling, next_tick: after.next_tick, ..run }
            }
            &&& run.skip is Some ==> {
                &&& action == RunAction::Clock
                &&& after == RunLoop {
                    stage: Stage::Walking,
                    next_tick: after.next_tick,
                    first: run.skip->0,
                    done: 0,
                    ..run
                }
            }
        }),
{
}

/// Events that have come are gone through from the first on, and one that has been handled is
/// followed by the next, until all have been; then a new round begins, with nothing to go back to.
pub proof fn law_goes_through(run: RunLoop, n: usize)
    requires
        run.first + run.done < usize::MAX,
    ensures
        n > 0 ==> run.next(RunEvent::Polled(n)) == (
            RunLoop { stage: Stage::Walking, first: 0, done: 0, len: n, ..run },
            RunAction::Clock,
        ),
        n == 0 ==> run.next(RunEvent::Polled(n)) == (
            RunLoop { stage: Stage::Top, skip: None, first: 0, done: 0, len: 0, ..run },
            RunAction::Clock,
        ),
        run.first + run.done + 1 < run.len ==> run.next(RunEvent::Handled) == (
            RunLoop { stage: Stage::Walking, done: (run.done + 1) as usize, ..run },
            RunAction::Clock,
        ),
        run.first + run.done + 1 >= run.len ==> run.next(RunEvent::Handled) == (
            RunLoop { stage: Stage::Top, skip: None, done: (run.done + 1) as usize, ..run },
            RunAction::Clock,
        ),
{
}

/// The loop accepts what it has asked for, whatever time it is and however many events have come, as
/// long as no time runs off the scale.
pub proof fn law_accepts(run: RunLoop, now: u128, elapsed: u128, n: usize)
    ensures
        run.stage == Stage::Start ==> (run.accepts(RunEvent::Started(now)) <==> (run.interval
            is Some ==> now + run.interval->0 <= u128::MAX)),
        run.stage == Stage::Top || run.stage == Stage::Walking ==> run.accepts(
            RunEvent::Clock(now),
        ),
        run.stage == Stage::Ticking && now + run.interval->0 <= u128::MAX ==> run.accepts(
            RunEvent::Ticked { elapsed, now },
        ),
        run.stage == Stage::Polling ==> run.accepts(RunEvent::Polled(n)),
        run.stage == Stage::Handling ==> run.accepts(RunEvent::Handled),
{
}

/// A loop that nothing has been done for does not tick, has no events, and waits to be started.
pub proof fn law_initial()
    ensures
        RunLoop::initial().interval is None,
        RunLoop::initial().next_tick is None,
        RunLoop::initial().stage == Stage::Start,
        RunLoop::initial().skip is None,
        RunLoop::initial().len == 0,
        RunLoop::initial().wf(),
{
}

/// While no tick is due, the events that have come are handled one after the other: with `i` of `n`
/// of them handled, the time is asked for and then event `i` is to be handled.
pub proof fn law_events_in_order(run: RunLoop, n: usize, clocks: Seq<u128>)
    requires
        run.stage == Stage::Polling,
        clocks.len() < n,
        forall|i: int|
            0 <= i < clocks.len() ==> run.next_tick is None || (#[trigger] clocks[i])
                <= run.next_tick->0,
    ensures
        ({
            let after = run.after_all(handled_by(n, clocks));
            &&& after == RunLoop {
                stage: Stage::Walking,
                first: 0,
                done: clocks.len() as usize,
                len: n,
                ..run
            }
            &&& forall|now: u128|
                (run.next_tick is None || now <= run.next_tick->0) ==> #[trigger] after.next(
                    RunEvent::Clock(now),
                ).1 == RunAction::Handle(clocks.len() as usize)
        }),
    decreases clocks.len(),
{
    let events = handled_by(n, clocks);
    reveal_with_fuel(RunLoop::after_all, 3);
    if clocks.len() == 0 {
        assert(events.drop_last() =~= Seq::<RunEvent>::empty());
        law_goes_through(RunLoop { first: 0, done: 0, ..run }, n);
    } else {
        let before = clocks.drop_last();
        let now = clocks.last();
        assert forall|i: int| 0 <= i < before.len() implies (run.next_tick is None || (
        #[trigger] before[i]) <= run.next_tick->0) by {
            assert(before[i] == clocks[i]);
        }
        law_events_in_order(run, n, before);
        assert(run.next_tick is None || clocks[clocks.len() - 1] <= run.next_tick->0);
        let asked = handled_by(n, before).push(RunEvent::Clock(now));
        assert(events.drop_last() =~= asked);
        assert(asked.drop_last() =~= handled_by(n, before));
    }
}

/// What happens where `n` events have come and as many of them as there are `clocks` are handled, at
/// those times.
pub open spec fn handled_by(n: usize, clocks: Seq<u128>) -> Seq<RunEvent>
    decreases clocks.len(),
{
    if clocks.len() == 0 {
        seq![RunEvent::Polled(n)]
    } else {
        handled_by(n, clocks.drop_last()).push(RunEvent::Clock(clocks.last())).push(
            RunEvent::Handled,
        )
    }
}

} // verus!
