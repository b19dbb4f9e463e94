//! The loop that writes frames: in every round it looks at the temperatures and
//! the clock, writes one frame of them, and waits.

use crate::frame::{build_frame, frame_of, hour_minute_of, localtime_hm, shown, FRAME_LEN};
use crate::temps::Temps;
use vstd::prelude::*;

verus! {

/// How many failed writes in a row end the loop. At the usual interval that is
/// about a second: enough to ride out a hiccup, and short enough for a restart
/// soon after the device is gone.
pub const MAX_CONSECUTIVE_WRITE_ERRORS: u32 = 5;

/// What the loop is at.
pub enum WriterPhase {
    /// The temperatures and the clock are to be looked at.
    Sample,
    /// A frame is to be written.
    Write([u8; FRAME_LEN]),
    /// The next round is to be waited for.
    Wait,
}

/// The state of the loop.
pub struct WriterLoop {
    /// Milliseconds between two writes.
    pub interval_ms: u64,
    /// How many writes in a row have failed.
    pub consecutive_errors: u32,
    /// What the loop is at.
    pub phase: WriterPhase,
}

/// A thing for the loop to have done.
pub enum WriterAction {
    /// Look at the temperatures and at the clock.
    Sample,
    /// Write these bytes to the device.
    Write([u8; FRAME_LEN]),
    /// Wait for a number of milliseconds.
    Wait(u64),
}

/// What came of an action, where `E` is the error of a write.
pub enum WriterEvent<E> {
    /// The temperatures, and the hour and minute of the local time if it is
    /// known.
    Sampled(Temps, Option<(i32, i32)>),
    /// The write went well, or failed with an error.
    Written(Result<(), E>),
    /// The wait is over.
    Waited,
}

/// What the loop is at, as values.
pub ghost enum WriterPhaseView {
    /// The temperatures and the clock are to be looked at.
    Sample,
    /// A frame is to be written.
    Write(Seq<u8>),
    /// The next round is to be waited for.
    Wait,
}

/// The state of the loop, as values.
pub ghost struct WriterView {
    /// Milliseconds between two writes.
    pub interval_ms: u64,
    /// How many writes in a row have failed.
    pub consecutive_errors: u32,
    /// What the loop is at.
    pub phase: WriterPhaseView,
}

/// A thing for the loop to have done, as values.
pub ghost enum WriterActionView {
    /// Look at the temperatures and at the clock.
    Sample,
    /// Write these bytes to the device.
    Write(Seq<u8>),
    /// Wait for a number of milliseconds.
    Wait(u64),
}

impl View for WriterLoop {
    type V = WriterView;

    open spec fn view(&self) -> WriterView {
        WriterView {
            interval_ms: self.interval_ms,
            consecutive_errors: self.consecutive_errors,
            phase: match self.phase {
                WriterPhase::Sample => WriterPhaseView::Sample,
                WriterPhase::Write(frame) => WriterPhaseView::Write(frame@),
                WriterPhase::Wait => WriterPhaseView::Wait,
            },
        }
    }
}

impl View for WriterAction {
    type V = WriterActionView;

    open spec fn view(&self) -> WriterActionView {
        match self {
            WriterAction::Sample => WriterActionView::Sample,
            WriterAction::Write(frame) => WriterActionView::Write(frame@),
            WriterAction::Wait(ms) => WriterActionView::Wait(*ms),
        }
    }
}

/// The frame for the temperatures and the hour and minute of the local time.
pub open spec fn frame_showing(temps: Temps, local: Option<(i32, i32)>) -> Seq<u8> {
    frame_of(temps.cpu_c, temps.gpu_c, hour_minute_of(local).0, hour_minute_of(local).1)
}

/// The count of failures after one more write. It does not go past the limit.
pub open spec fn next_errors(errors: u32, written: bool) -> u32 {
    if written {
        0
    } else if errors < MAX_CONSECUTIVE_WRITE_ERRORS {
        (errors + 1) as u32
    } else {
        errors
    }
}

impl WriterView {
    /// The loop before its first round.
    pub open spec fn start(interval_ms: u64) -> Self {
        WriterView { interval_ms, consecutive_errors: 0, phase: WriterPhaseView::Sample }
    }

    /// What to do next.
    pub open spec fn action(self) -> WriterActionView {
        match self.phase {
            WriterPhaseView::Sample => WriterActionView::Sample,
            WriterPhaseView::Write(frame) => WriterActionView::Write(frame),
            WriterPhaseView::Wait => WriterActionView::Wait(self.interval_ms),
        }
    }

    /// The loop after an action, or the error that it ends with: that of the
    /// write that brings the count of failures to its limit. What came of another
    /// action than the last one changes nothing.
    pub open spec fn step<E>(self, event: WriterEvent<E>) -> Result<Self, E> {
        match (self.phase, event) {
            (WriterPhaseView::Sample, WriterEvent::Sampled(temps, local)) => Ok(
                WriterView {
                    phase: WriterPhaseView::Write(frame_showing(temps, local)),
                    ..self
                },
            ),
            (WriterPhaseView::Write(frame), WriterEvent::Written(Ok(_))) => Ok(
                WriterView { consecutive_errors: 0, phase: WriterPhaseView::Wait, ..self },
            ),
            (WriterPhaseView::Write(frame), WriterEvent::Written(Err(e))) => {
                let errors = next_errors(self.consecutive_errors, false);
                if errors >= MAX_CONSECUTIVE_WRITE_ERRORS {
                    Err(e)
                } else {
                    Ok(
                        WriterView {
                            consecutive_errors: errors,
                            phase: WriterPhaseView::Wait,
                            ..self
                        },
                    )
                }
            },
            (WriterPhaseView::Wait, WriterEvent::Waited) => Ok(
                WriterView { phase: WriterPhaseView::Sample, ..self },
            ),
            _ => Ok(self),
        }
    }
}

/// The bytes to write for the temperatures and the hour and minute of the local
/// time.
fn frame_for(temps: &Temps, local: Option<(i32, i32)>) -> (r: [u8; FRAME_LEN])
    ensures
        r@ == frame_showing(*temps, local),
{
    let (hour, minute) = localtime_hm(local);
    build_frame(temps.cpu_c, temps.gpu_c, hour, minute)
}

/// The count of failures after one more write.
fn count_write(errors: u32, written: bool) -> (r: u32)
    ensures
        r == next_errors(errors, written),
{
    if written {
        0
    } else if errors < MAX_CONSECUTIVE_WRITE_ERRORS {
        errors + 1
    } else {
        errors
    }
}

impl WriterLoop {
    /// The loop before its first round.
    pub fn new(interval_ms: u64) -> (r: Self)
        ensures
            r@ == WriterView::start(interval_ms),
    {
        WriterLoop { interval_ms, consecutive_errors: 0, phase: WriterPhase::Sample }
    }

    /// What to do next.
    pub fn action(&self) -> (r: WriterAction)
        ensures
            r@ == self@.action(),
    {
        match &self.phase {
            WriterPhase::Sample => WriterAction::Sample,
            WriterPhase::Write(frame) => WriterAction::Write(*frame),
            WriterPhase::Wait => WriterAction::Wait(self.interval_ms),
        }
    }

    /// Takes in what came of the last action. The loop ends with the error of the
    /// write that brings the count of failures to its limit.
    pub fn step<E>(self, event: WriterEvent<E>) -> (r: Result<Self, E>)
        ensures
            (match self@.step(event) {
                Ok(next) => r is Ok && r->Ok_0@ == next,
                Err(e) => r == Err::<Self, E>(e),
            }),
    {
        let WriterLoop { interval_ms, consecutive_errors, phase } = self;
        match (phase, event) {
            (WriterPhase::Sample, WriterEvent::Sampled(temps, local)) => Ok(
                WriterLoop {
                    interval_ms,
                    consecutive_errors,
                    phase: WriterPhase::Write(frame_for(&temps, local)),
                },
            ),
            (WriterPhase::Write(_), WriterEvent::Written(written)) => {
                let errors: u32 = count_write(consecutive_errors, written.is_ok());
                match written {
                    Err(e) if errors >= MAX_CONSECUTIVE_WRITE_ERRORS => Err(e),
                    _ => Ok(
                        WriterLoop {
                            interval_ms,
                            consecutive_errors: errors,
                            phase: WriterPhase::Wait,
                        },
                    ),
                }
            },
            (WriterPhase::Wait, WriterEvent::Waited) => Ok(
                WriterLoop { interval_ms, consecutive_errors, phase: WriterPhase::Sample },
            ),
            (phase, _) => Ok(WriterLoop { interval_ms, consecutive_errors, phase }),
        }
    }
}

/// How many writes at the end of `history` have failed, where `true` is a
/// write that went well.
pub open spec fn failures_at_end(history: Seq<bool>) -> nat
    decreases history.len(),
{
    if history.len() == 0 || history.last() {
        0
    } else {
        1 + failures_at_end(history.drop_last())
    }
}

/// The count after the writes `history`, where it was `errors` before them.
pub open spec fn errors_from(errors: u32, history: Seq<bool>) -> u32
    decreases history.len(),
{
    if history.len() == 0 {
        errors
    } else {
        next_errors(errors_from(errors, history.drop_last()), history.last())
    }
}

/// The count after the writes `history`, the first of a loop.
pub open spec fn errors_after(history: Seq<bool>) -> u32 {
    errors_from(0, history)
}

/// Whether the last writes of `history` have all failed, as many as the limit.
pub open spec fn gives_up(history: Seq<bool>) -> bool {
    &&& history.len() >= MAX_CONSECUTIVE_WRITE_ERRORS
    &&& forall|i: int|
        history.len() - MAX_CONSECUTIVE_WRITE_ERRORS <= i < history.len() ==> !#[trigger] history[i]
}

/// What a round finds: the temperatures and the local time at its start, and
/// what comes of its write.
pub ghost struct Round<E> {
    /// The temperatures.
    pub temps: Temps,
    /// Hour and minute of the local time, if it is known.
    pub local: Option<(i32, i32)>,
    /// What comes of the write.
    pub written: Result<(), E>,
}

/// Which writes of the rounds go well.
pub open spec fn outcomes_of<E>(rounds: Seq<Round<E>>) -> Seq<bool> {
    rounds.map_values(|r: Round<E>| r.written is Ok)
}

/// How many of the writes that `history` has outcomes for are made: all, or
/// those up to the one that makes the loop give up.
pub open spec fn writes_made(history: Seq<bool>) -> nat
    decreases history.len(),
{
    if history.len() == 0 {
        0
    } else {
        let before = history.drop_last();
        if writes_made(before) < before.len() || gives_up(before) {
            writes_made(before)
        } else {
            history.len()
        }
    }
}

/// What a loop does.
pub ghost struct WriterRun<E> {
    /// Its actions, one after another.
    pub actions: Seq<WriterActionView>,
    /// The error that it ends with, if it ends.
    pub error: Option<E>,
}

impl<E> WriterRun<E> {
    /// The run that has one more action before this one.
    pub open spec fn behind(self, action: WriterActionView) -> Self {
        WriterRun { actions: seq![action] + self.actions, error: self.error }
    }
}

impl WriterView {
    /// What the loop does where its rounds find `rounds`: as far as these go, or
    /// up to its end.
    pub open spec fn run<E>(self, rounds: Seq<Round<E>>) -> WriterRun<E>
        decreases
                rounds.len(),
                match self.phase {
                    WriterPhaseView::Wait => 2int,
                    WriterPhaseView::Sample => 1int,
                    WriterPhaseView::Write(_) => 0int,
                },
    {
        if rounds.len() == 0 && !(self.phase is Wait) {
            WriterRun { actions: Seq::empty(), error: None }
        } else {
            let (event, rest) = match self.phase {
                WriterPhaseView::Sample => (
                    WriterEvent::Sampled(rounds.first().temps, rounds.first().local),
                    rounds,
                ),
                WriterPhaseView::Write(_) => (
                    WriterEvent::Written(rounds.first().written),
                    rounds.drop_first(),
                ),
                WriterPhaseView::Wait => (WriterEvent::Waited, rounds),
            };
            match self.step(event) {
                Ok(next) => next.run(rest).behind(self.action()),
                Err(e) => WriterRun { actions: seq![self.action()], error: Some(e) },
            }
        }
    }
}

/// Whether the round `i` in a run of `made` rounds has a wait after its write:
/// all have one, but the last round of a loop that ends.
pub open spec fn waits_after(i: int, made: int, ends: bool) -> bool {
    i < made - 1 || !ends
}

/// Whether the actions of the round `i`, which begins at the place `3 * i`, are: to
/// look, to write what the look in the round `round` gave, and to wait if it
/// `waits`.
pub open spec fn is_round<E>(
    actions: Seq<WriterActionView>,
    i: int,
    round: Round<E>,
    waits: bool,
    interval_ms: u64,
) -> bool {
    &&& actions[3 * i] == WriterActionView::Sample
    &&& actions[3 * i + 1] == WriterActionView::Write(frame_showing(round.temps, round.local))
    &&& waits ==> actions[3 * i + 2] == WriterActionView::Wait(interval_ms)
}

/// How many actions a run of `made` rounds has.
pub open spec fn action_count(made: int, ends: bool) -> int {
    if ends {
        3 * made - 1
    } else {
        3 * made
    }
}

proof fn lemma_errors_from_first(errors: u32, history: Seq<bool>)
    requires
        history.len() > 0,
    ensures
        errors_from(errors, history) == errors_from(
            next_errors(errors, history.first()),
            history.drop_first(),
        ),
    decreases history.len(),
{
    if history.len() == 1 {
        assert(history.drop_last() == Seq::<bool>::empty());
        assert(history.drop_first() == Seq::<bool>::empty());
        assert(errors_from(errors, history.drop_last()) == errors);
    } else {
        lemma_errors_from_first(errors, history.drop_last());
        assert(history.drop_first().drop_last() == history.drop_last().drop_first());
    }
}

/// The count is that of the failures at the end of the history, up to the limit.
pub proof fn law_count_of_failures(history: Seq<bool>)
    ensures
        errors_after(history) == if failures_at_end(history) < MAX_CONSECUTIVE_WRITE_ERRORS {
            failures_at_end(history)
        } else {
            MAX_CONSECUTIVE_WRITE_ERRORS as nat
        },
    decreases history.len(),
{
    if history.len() > 0 {
        law_count_of_failures(history.drop_last());
    }
}

proof fn lemma_failures_at_end(history: Seq<bool>, n: nat)
    ensures
        failures_at_end(history) >= n <==> n <= history.len() && forall|i: int|
            history.len() - n <= i < history.len() ==> !#[trigger] history[i],
    decreases n,
{
    if n > 0 && history.len() > 0 {
        let before = history.drop_last();
        lemma_failures_at_end(before, (n - 1) as nat);
        if !history.last() {
            if failures_at_end(history) >= n {
                assert forall|i: int| history.len() - n <= i < history.len() implies
                    !#[trigger] history[i] by {
                    if i < history.len() - 1 {
                        assert(!before[i]);
                    }
                }
            }
            if n <= history.len() && forall|i: int|
                history.len() - n <= i < history.len() ==> !#[trigger] history[i] {
                assert forall|i: int| before.len() - (n - 1) <= i < before.len() implies
                    !#[trigger] before[i] by {
                    assert(!history[i]);
                }
            }
        } else {
            assert(history[history.len() - 1]);
        }
    }
}

/// The count is at its limit exactly when the last five writes have all failed.
pub proof fn law_limit_after_five_failures(history: Seq<bool>)
    ensures
        errors_after(history) >= MAX_CONSECUTIVE_WRITE_ERRORS <==> gives_up(history),
        gives_up(history) <==> history.len() >= 5 && forall|i: int|
            history.len() - 5 <= i < history.len() ==> !#[trigger] history[i],
{
    law_count_of_failures(history);
    lemma_failures_at_end(history, 5);
}

/// One write that goes well makes up for all failures before it.
pub proof fn law_success_resets(history: Seq<bool>)
    ensures
        errors_after(history.push(true)) == 0,
        !gives_up(history.push(true)),
{
    law_limit_after_five_failures(history.push(true));
}

/// No write is made after one that makes the loop give up, and none is left
/// out before.
pub proof fn law_writes_made(history: Seq<bool>)
    ensures
        writes_made(history) <= history.len(),
        forall|k: int| 0 <= k < writes_made(history) ==> !#[trigger] gives_up(history.take(k)),
        writes_made(history) < history.len() ==> gives_up(
            history.take(writes_made(history) as int),
        ),
    decreases history.len(),
{
    if history.len() > 0 {
        let before = history.drop_last();
        law_writes_made(before);
        assert(before.take(before.len() as int) == before);
        assert(history.take(before.len() as int) == before);
        assert forall|k: int| 0 <= k < writes_made(history) implies !#[trigger] gives_up(
            history.take(k),
        ) by {
            assert(history.take(k) == before.take(k));
        }
        assert(history.take(writes_made(before) as int) == before.take(writes_made(before) as int));
    }
}

/// A run from the start of a round, where `n` rounds are made.
proof fn lemma_run<E>(s: WriterView, rounds: Seq<Round<E>>, n: nat, ends: bool)
    requires
        s.phase == WriterPhaseView::Sample,
        s.consecutive_errors < MAX_CONSECUTIVE_WRITE_ERRORS,
        n <= rounds.len(),
        forall|k: int|
            0 <= k < n ==> #[trigger] errors_from(
                s.consecutive_errors,
                outcomes_of(rounds).take(k),
            ) < MAX_CONSECUTIVE_WRITE_ERRORS,
        ends == (errors_from(s.consecutive_errors, outcomes_of(rounds).take(n as int))
            >= MAX_CONSECUTIVE_WRITE_ERRORS),
        n < rounds.len() ==> ends,
    ensures
        s.run(rounds).actions.len() == action_count(n as int, ends),
        forall|i: int|
            0 <= i < n ==> #[trigger] is_round(
                s.run(rounds).actions,
                i,
                rounds[i],
                waits_after(i, n as int, ends),
                s.interval_ms,
            ),
        s.run(rounds).error is Some <==> ends,
        ends ==> n > 0 && rounds[n - 1].written == Err::<(), E>(s.run(rounds).error->0),
    decreases n,
{
    let e = s.consecutive_errors;
    let h = outcomes_of(rounds);
    if n == 0 {
        assert(h.take(0) == Seq::<bool>::empty());
        assert(errors_from(e, h.take(0)) == e);
    } else {
        let round = rounds.first();
        let rest = rounds.drop_first();
        let ok = round.written is Ok;
        let writing = s.step(WriterEvent::<E>::Sampled(round.temps, round.local))->Ok_0;
        let after = writing.step(WriterEvent::Written(round.written));
        let next = next_errors(e, ok);
        let t = s.run(rounds).actions;
        assert(s.run(rounds) == writing.run(rounds).behind(s.action()));
        assert(h.take(1) == seq![ok]);
        lemma_errors_from_first(e, h.take(1));
        assert(h.take(1).drop_first() == Seq::<bool>::empty());
        assert(errors_from(e, h.take(1)) == next);
        if next >= MAX_CONSECUTIVE_WRITE_ERRORS {
            assert(n == 1);
            assert(after == Err::<WriterView, E>(round.written->Err_0));
            assert(writing.run(rounds).actions == seq![writing.action()]);
            assert(is_round(t, 0, rounds[0], false, s.interval_ms));
        } else {
            let waiting = after->Ok_0;
            let again = waiting.step(WriterEvent::<E>::Waited)->Ok_0;
            assert(writing.run(rounds) == waiting.run(rest).behind(writing.action()));
            assert(waiting.run(rest) == again.run(rest).behind(waiting.action()));
            let g = outcomes_of(rest);
            assert(g == h.drop_first());
            assert forall|k: int| 0 <= k < n implies #[trigger] errors_from(next, g.take(k))
                == errors_from(e, h.take(k + 1)) by {
                lemma_errors_from_first(e, h.take(k + 1));
                assert(h.take(k + 1).drop_first() == g.take(k));
            }
            assert forall|k: int| 0 <= k < n - 1 implies #[trigger] errors_from(next, g.take(k))
                < MAX_CONSECUTIVE_WRITE_ERRORS by {
                assert(errors_from(e, h.take(k + 1)) < MAX_CONSECUTIVE_WRITE_ERRORS);
            }
            assert(errors_from(next, g.take(n - 1)) == errors_from(e, h.take(n as int)));
            lemma_run(again, rest, (n - 1) as nat, ends);
            let u = again.run(rest).actions;
            assert(t == seq![s.action(), writing.action(), waiting.action()] + u);
            assert forall|i: int| 0 <= i < n implies #[trigger] is_round(
                t,
                i,
                rounds[i],
                waits_after(i, n as int, ends),
                s.interval_ms,
            ) by {
                if i > 0 {
                    assert(rest[i - 1] == rounds[i]);
                    assert(is_round(
                        u,
                        i - 1,
                        rest[i - 1],
                        waits_after(i - 1, n - 1, ends),
                        s.interval_ms,
                    ));
                    assert(t[3 * i] == u[3 * (i - 1)]);
                    assert(t[3 * i + 1] == u[3 * (i - 1) + 1]);
                    if waits_after(i, n as int, ends) {
                        assert(t[3 * i + 2] == u[3 * (i - 1) + 2]);
                    }
                }
            }
        }
    }
}

/// A run is made of rounds, one for each write: to look, to write, and to wait. It
/// ends exactly if the last writes have failed, as many as the limit, and then its
/// last round has no wait, and its error is that of its last write.
pub proof fn law_run_in_rounds<E>(interval_ms: u64, rounds: Seq<Round<E>>)
    ensures
        ({
            let run = WriterView::start(interval_ms).run(rounds);
            let history = outcomes_of(rounds);
            let made = writes_made(history) as int;
            let ends = gives_up(history.take(made));
            &&& run.actions.len() == action_count(made, ends)
            &&& forall|i: int|
                0 <= i < made ==> #[trigger] is_round(
                    run.actions,
                    i,
                    rounds[i],
                    waits_after(i, made, ends),
                    interval_ms,
                )
            &&& run.error is Some <==> ends
            &&& ends ==> made > 0 && rounds[made - 1].written == Err::<(), E>(run.error->0)
        }),
{
    let history = outcomes_of(rounds);
    let made = writes_made(history);
    law_writes_made(history);
    assert forall|k: int| 0 <= k < made implies #[trigger] errors_from(0, history.take(k))
        < MAX_CONSECUTIVE_WRITE_ERRORS by {
        law_limit_after_five_failures(history.take(k));
    }
    law_limit_after_five_failures(history.take(made as int));
    lemma_run(
        WriterView::start(interval_ms),
        rounds,
        made,
        gives_up(history.take(made as int)),
    );
}

/// A loop that ends, ends with the error of the last write that it made, whatever
/// the errors of the writes before. One that does not end has no error, though
/// writes have failed.
pub proof fn law_ends_with_last_error<E>(interval_ms: u64, rounds: Seq<Round<E>>)
    ensures
        ({
            let error = WriterView::start(interval_ms).run(rounds).error;
            let made = writes_made(outcomes_of(rounds)) as int;
            if gives_up(outcomes_of(rounds).take(made)) {
                &&& made > 0
                &&& error is Some
                &&& rounds[made - 1].written == Err::<(), E>(error->0)
            } else {
                error is None
            }
        }),
{
    law_run_in_rounds(interval_ms, rounds);
}

/// Each round makes exactly one write: of the frame for the temperatures and the
/// local time that were looked at in that round, whatever came of the write
/// before. The round `i` begins with the action `3 * i`, and there are no actions
/// but those of the rounds.
pub proof fn law_round_writes_once<E>(interval_ms: u64, rounds: Seq<Round<E>>, i: int)
    requires
        0 <= i < writes_made(outcomes_of(rounds)),
    ensures
        ({
            let actions = WriterView::start(interval_ms).run(rounds).actions;
            let made = writes_made(outcomes_of(rounds)) as int;
            &&& 3 * made - 1 <= actions.len() <= 3 * made
            &&& actions[3 * i] == WriterActionView::Sample
            &&& actions[3 * i + 1] == WriterActionView::Write(
                frame_showing(rounds[i].temps, rounds[i].local),
            )
            &&& frame_showing(rounds[i].temps, rounds[i].local).len() == FRAME_LEN
            &&& 3 * i + 2 < actions.len() ==> actions[3 * i + 2] is Wait
        }),
{
    law_run_in_rounds(interval_ms, rounds);
    let actions = WriterView::start(interval_ms).run(rounds).actions;
    let history = outcomes_of(rounds);
    let made = writes_made(history) as int;
    let ends = gives_up(history.take(made));
    assert(is_round(actions, i, rounds[i], waits_after(i, made, ends), interval_ms));
}

/// Between two writes that follow each other, the `i`th and the next, there is
/// exactly one wait, for the interval, whatever came of the first of them. Nothing
/// is waited for before the first write, nor after a write that ends the loop.
pub proof fn law_one_wait_between_writes<E>(interval_ms: u64, rounds: Seq<Round<E>>, i: int)
    requires
        0 <= i < writes_made(outcomes_of(rounds)),
    ensures
        ({
            let actions = WriterView::start(interval_ms).run(rounds).actions;
            let made = writes_made(outcomes_of(rounds)) as int;
            let ends = gives_up(outcomes_of(rounds).take(made));
            &&& actions[0] == WriterActionView::Sample
            &&& actions[1] is Write
            &&& i + 1 < made ==> {
                &&& actions[3 * i + 1] is Write
                &&& actions[3 * i + 2] == WriterActionView::Wait(interval_ms)
                &&& actions[3 * i + 3] == WriterActionView::Sample
                &&& actions[3 * i + 4] is Write
            }
            &&& if ends {
                actions.last() is Write
            } else {
                &&& actions[actions.len() - 2] is Write
                &&& actions.last() == WriterActionView::Wait(interval_ms)
            }
        }),
{
    law_run_in_rounds(interval_ms, rounds);
    let actions = WriterView::start(interval_ms).run(rounds).actions;
    let history = outcomes_of(rounds);
    let made = writes_made(history) as int;
    let ends = gives_up(history.take(made));
    let last = made - 1;
    assert(is_round(actions, 0, rounds[0], waits_after(0, made, ends), interval_ms));
    assert(is_round(actions, i, rounds[i], waits_after(i, made, ends), interval_ms));
    assert(is_round(actions, last, rounds[last], waits_after(last, made, ends), interval_ms));
    if i + 1 < made {
        assert(is_round(
            actions,
            i + 1,
            rounds[i + 1],
            waits_after(i + 1, made, ends),
            interval_ms,
        ));
    }
}

/// The action at the place `j` is a look exactly if it is the first of its round, a
/// write exactly if it is the second, and a wait, for the interval, exactly if it
/// is the third.
pub proof fn law_kind_of_action<E>(interval_ms: u64, rounds: Seq<Round<E>>, j: int)
    requires
        0 <= j < WriterView::start(interval_ms).run(rounds).actions.len(),
    ensures
        ({
            let actions = WriterView::start(interval_ms).run(rounds).actions;
            &&& actions[j] is Sample <==> j % 3 == 0
            &&& actions[j] is Write <==> j % 3 == 1
            &&& actions[j] == WriterActionView::Wait(interval_ms) <==> j % 3 == 2
        }),
{
    law_run_in_rounds(interval_ms, rounds);
    let actions = WriterView::start(interval_ms).run(rounds).actions;
    let history = outcomes_of(rounds);
    let made = writes_made(history) as int;
    let i = j / 3;
    let ends = gives_up(history.take(made));
    assert(is_round(actions, i, rounds[i], waits_after(i, made, ends), interval_ms));
}

/// The frame for the temperatures and a local time on the clock shows exactly these:
/// CPU and GPU temperature, hour and minute, in the bytes 4, 14, 30 and 31. Without
/// a local time it shows midnight.
pub proof fn law_frame_shows_sample(temps: Temps, hour: i32, minute: i32)
    requires
        0 <= hour < 24,
        0 <= minute < 60,
    ensures
        ({
            let frame = frame_showing(temps, Some((hour, minute)));
            let unknown = frame_showing(temps, None);
            &&& frame.len() == 65
            &&& frame[4] == temps.cpu_c
            &&& frame[14] == temps.gpu_c
            &&& frame[30] as int == hour
            &&& frame[31] as int == minute
            &&& unknown.len() == 65
            &&& unknown[4] == temps.cpu_c
            &&& unknown[14] == temps.gpu_c
            &&& unknown[30] == 0
            &&& unknown[31] == 0
            &&& shown(frame) == (temps.cpu_c, temps.gpu_c, hour as u8, minute as u8)
            &&& shown(unknown) == (temps.cpu_c, temps.gpu_c, 0u8, 0u8)
        }),
{
}

/// Apart from the four bytes that show a sample, the frame for it has the bytes of
/// every frame, whatever values that is built from.
pub proof fn law_frame_rest_is_fixed(
    temps: Temps,
    local: Option<(i32, i32)>,
    values: (u8, u8, u8, u8),
    i: int,
)
    requires
        0 <= i < 65,
        i != 4 && i != 14 && i != 30 && i != 31,
    ensures
        frame_showing(temps, local)[i] == frame_of(values.0, values.1, values.2, values.3)[i],
{
}

/// What is written in the round `i` of a run shows the temperatures and the local
/// time that were looked at in that round.
pub proof fn law_round_shows_its_sample<E>(interval_ms: u64, rounds: Seq<Round<E>>, i: int)
    requires
        0 <= i < writes_made(outcomes_of(rounds)),
    ensures
        ({
            let actions = WriterView::start(interval_ms).run(rounds).actions;
            &&& actions[3 * i + 1] is Write
            &&& {
                let frame = actions[3 * i + 1]->Write_0;
                &&& frame.len() == 65
                &&& frame[4] == rounds[i].temps.cpu_c
                &&& frame[14] == rounds[i].temps.gpu_c
                &&& rounds[i].local is None ==> frame[30] == 0 && frame[31] == 0
                &&& rounds[i].local matches Some((hour, minute)) ==> {
                    &&& 0 <= hour <= 255 ==> frame[30] as int == hour
                    &&& hour < 0 ==> frame[30] == 0
                    &&& hour > 255 ==> frame[30] == 255
                    &&& 0 <= minute <= 255 ==> frame[31] as int == minute
                    &&& minute < 0 ==> frame[31] == 0
                    &&& minute > 255 ==> frame[31] == 255
                }
            }
        }),
{
    law_round_writes_once(interval_ms, rounds, i);
}

/// A write that goes well sets the count of failures to zero, and a failed one adds
/// one to it. The fifth failure ends the loop with its error. No write changes the
/// interval.
pub proof fn law_count_of_one_write<E>(s: WriterView, error: E)
    requires
        s.phase is Write,
        s.consecutive_errors < 5,
    ensures
        s.step(WriterEvent::<E>::Written(Ok(()))) == Ok::<WriterView, E>(
            WriterView {
                interval_ms: s.interval_ms,
                consecutive_errors: 0,
                phase: WriterPhaseView::Wait,
            },
        ),
        s.consecutive_errors == 4 ==> s.step(WriterEvent::Written(Err(error))) == Err::<
            WriterView,
            E,
        >(error),
        s.consecutive_errors < 4 ==> s.step(WriterEvent::Written(Err(error))) == Ok::<
            WriterView,
            E,
        >(
            WriterView {
                interval_ms: s.interval_ms,
                consecutive_errors: (s.consecutive_errors + 1) as u32,
                phase: WriterPhaseView::Wait,
            },
        ),
{
}

/// What came of another action than the one that the loop is at changes nothing.
pub proof fn law_other_events_change_nothing<E>(s: WriterView, event: WriterEvent<E>)
    requires
        !(s.action() is Sample && event is Sampled),
        !(s.action() is Write && event is Written),
        !(s.action() is Wait && event is Waited),
    ensures
        s.step(event) == Ok::<WriterView, E>(s),
{
}

/// The views of the loop and of its actions hold all that is in them.
pub proof fn law_contents_of_writer(writer: WriterLoop, frame: [u8; FRAME_LEN], ms: u64)
    ensures
        writer@.interval_ms == writer.interval_ms,
        writer@.consecutive_errors == writer.consecutive_errors,
        writer.phase matches WriterPhase::Write(f) ==> writer@.phase == WriterPhaseView::Write(f@),
        writer.phase is Sample <==> writer@.phase is Sample,
        writer.phase is Wait <==> writer@.phase is Wait,
        WriterAction::Sample@ == WriterActionView::Sample,
        WriterAction::Write(frame)@ == WriterActionView::Write(frame@),
        WriterAction::Wait(ms)@ == WriterActionView::Wait(ms),
{
}

/// A run takes the action that the loop is at, and goes on by what came of it: what the
/// next round finds at its start, what comes of its write, or the end of the wait.
pub proof fn law_run_follows_steps<E>(s: WriterView, rounds: Seq<Round<E>>)
    requires
        rounds.len() > 0,
    ensures
        ({
            let round = rounds.first();
            match s.action() {
                WriterActionView::Sample => is_run_after(
                    s.run(rounds),
                    s.action(),
                    s.step(WriterEvent::Sampled(round.temps, round.local)),
                    rounds,
                ),
                WriterActionView::Write(frame) => is_run_after(
                    s.run(rounds),
                    s.action(),
                    s.step(WriterEvent::Written(round.written)),
                    rounds.drop_first(),
                ),
                WriterActionView::Wait(ms) => is_run_after(
                    s.run(rounds),
                    s.action(),
                    s.step(WriterEvent::<E>::Waited),
                    rounds,
                ),
            }
        }),
{
    let event = match s.phase {
        WriterPhaseView::Sample => WriterEvent::Sampled(rounds.first().temps, rounds.first().local),
        WriterPhaseView::Write(_) => WriterEvent::Written(rounds.first().written),
        WriterPhaseView::Wait => WriterEvent::Waited,
    };
    let rest = if s.phase is Write {
        rounds.drop_first()
    } else {
        rounds
    };
    if let Ok(next) = s.step(event) {
        assert(s.run(rounds) == next.run(rest).behind(s.action()));
        assert(s.run(rounds).actions.drop_first() =~= next.run(rest).actions);
    }
}

/// Whether a run begins with an action and goes on as the loop `next` does where the
/// rounds find `rounds`, or ends there with the error that `next` is.
pub open spec fn is_run_after<E>(
    run: WriterRun<E>,
    action: WriterActionView,
    next: Result<WriterView, E>,
    rounds: Seq<Round<E>>,
) -> bool {
    &&& run.actions.len() > 0
    &&& run.actions.first() == action
    &&& next matches Ok(s) ==> run.actions.drop_first() == s.run(rounds).actions && run.error
        == s.run(rounds).error
    &&& next matches Err(e) ==> run.actions.len() == 1 && run.error == Some(e)
}

} // verus!
