//! A model of the whole loop — clicks spawn tasks, completed tasks queue
//! their records, frames poll the channel — with the laws it obeys: every
//! button activation spawns exactly one task, completions queue in
//! completion order, and once the pending records are drained the render
//! loop displays the most recently completed one.

use crate::channel::{receive_model, send_model};
use crate::record::ResponseRecord;
use vstd::prelude::*;

verus! {

/// One thing that can happen to the system.
pub enum UiEvent {
    /// The user activates the button: the render loop spawns one task.
    Click,
    /// A spawned task completes and sends its record on the channel.
    Complete(ResponseRecord),
    /// The render loop runs one frame and polls the channel once.
    Frame,
}

/// The joint state of render loop, channel and executor, as the contracts
/// of the executable functions describe them.
pub struct SystemModel {
    /// How many request tasks have been spawned.
    pub spawned: nat,
    /// The records sent but not yet received, oldest first.
    pub queue: Seq<ResponseRecord>,
    /// The record the render loop displays.
    pub displayed: ResponseRecord,
}

/// What one event does to the system. Each arm restates the contract of
/// the executable function that performs it: `Click` is the spawn that
/// `AppState::frame` directs, `Complete` is `complete_request`, and
/// `Frame` is the poll in `AppState::frame`.
pub open spec fn step(s: SystemModel, e: UiEvent) -> SystemModel {
    match e {
        UiEvent::Click => SystemModel { spawned: s.spawned + 1, ..s },
        UiEvent::Complete(r) => SystemModel { queue: send_model(s.queue, r), ..s },
        UiEvent::Frame => match receive_model(s.queue).0 {
            Some(r) => SystemModel { queue: receive_model(s.queue).1, displayed: r, ..s },
            None => s,
        },
    }
}

/// The system after a sequence of events.
pub open spec fn run(s: SystemModel, es: Seq<UiEvent>) -> SystemModel
    decreases es.len(),
{
    if es.len() == 0 {
        s
    } else {
        run(step(s, es[0]), es.drop_first())
    }
}

/// How many of the events are button activations.
pub open spec fn click_count(es: Seq<UiEvent>) -> nat
    decreases es.len(),
{
    if es.len() == 0 {
        0
    } else {
        (if es[0] is Click {
            1nat
        } else {
            0nat
        }) + click_count(es.drop_first())
    }
}

/// A run of `n` button activations.
pub open spec fn clicks(n: nat) -> Seq<UiEvent> {
    Seq::new(n, |i: int| UiEvent::Click)
}

/// A run of `n` frames.
pub open spec fn frames(n: nat) -> Seq<UiEvent> {
    Seq::new(n, |i: int| UiEvent::Frame)
}

/// The completions of tasks whose records are `rs`, in that order.
pub open spec fn completions(rs: Seq<ResponseRecord>) -> Seq<UiEvent> {
    rs.map(|i: int, r: ResponseRecord| UiEvent::Complete(r))
}

/// Exactly as many tasks are spawned as the button is activated: any
/// sequence of events raises the spawn count by its number of clicks, and
/// nothing else changes it.
pub proof fn lemma_spawn_count(s: SystemModel, es: Seq<UiEvent>)
    ensures
        run(s, es).spawned == s.spawned + click_count(es),
    decreases es.len(),
{
    if es.len() > 0 {
        lemma_spawn_count(step(s, es[0]), es.drop_first());
    }
}

proof fn lemma_clicks_inert(s: SystemModel, n: nat)
    ensures
        run(s, clicks(n)).spawned == s.spawned + n,
        run(s, clicks(n)).queue == s.queue,
        run(s, clicks(n)).displayed == s.displayed,
    decreases n,
{
    if n > 0 {
        assert(clicks(n)[0] is Click);
        assert(clicks(n).drop_first() =~= clicks((n - 1) as nat));
        lemma_clicks_inert(step(s, clicks(n)[0]), (n - 1) as nat);
    }
}

/// Completed tasks queue their records in completion order, displacing
/// nothing: afterwards the pending records are those that were already
/// pending followed by the new ones, and the display is untouched.
pub proof fn lemma_completions_queue(s: SystemModel, rs: Seq<ResponseRecord>)
    ensures
        run(s, completions(rs)).queue == s.queue + rs,
        run(s, completions(rs)).displayed == s.displayed,
        run(s, completions(rs)).spawned == s.spawned,
    decreases rs.len(),
{
    if rs.len() == 0 {
        assert(s.queue + rs =~= s.queue);
    } else {
        let e0 = completions(rs)[0];
        assert(e0 == UiEvent::Complete(rs[0]));
        assert(completions(rs).drop_first() =~= completions(rs.drop_first()));
        lemma_completions_queue(step(s, e0), rs.drop_first());
        assert(step(s, e0).queue == s.queue.push(rs[0]));
        assert(s.queue.push(rs[0]) + rs.drop_first() =~= s.queue + rs);
    }
}

/// Enough frames drain the queue: after as many frames as there are
/// pending records, nothing is pending and the render loop displays the
/// last pending record — the most recently completed one.
pub proof fn lemma_frames_drain(s: SystemModel, n: nat)
    requires
        n == s.queue.len(),
    ensures
        run(s, frames(n)).queue.len() == 0,
        run(s, frames(n)).spawned == s.spawned,
        run(s, frames(n)).displayed == if n > 0 {
            s.queue.last()
        } else {
            s.displayed
        },
    decreases n,
{
    if n > 0 {
        let e0 = frames(n)[0];
        assert(e0 is Frame);
        assert(frames(n).drop_first() =~= frames((n - 1) as nat));
        let s1 = step(s, e0);
        assert(s1.queue == s.queue.drop_first());
        assert(s1.displayed == s.queue[0]);
        lemma_frames_drain(s1, (n - 1) as nat);
        if n > 1 {
            assert(s.queue.drop_first().last() == s.queue.last());
        }
    }
}

/// The whole story of one session: the user clicks some number of times,
/// some of the spawned tasks complete in some order, and the render loop
/// keeps running frames. Exactly one task is spawned per click, and once
/// every delivered record has been polled, the record of the most recently
/// completed task is the one displayed.
pub proof fn lemma_clicks_and_latest_completion(
    s: SystemModel,
    n: nat,
    rs: Seq<ResponseRecord>,
)
    requires
        s.queue.len() == 0,
        rs.len() > 0,
    ensures
        ({
            let after = run(run(run(s, clicks(n)), completions(rs)), frames(rs.len()));
            &&& after.spawned == s.spawned + n
            &&& after.displayed == rs.last()
            &&& after.queue.len() == 0
        }),
{
    lemma_clicks_inert(s, n);
    let s1 = run(s, clicks(n));
    lemma_completions_queue(s1, rs);
    let s2 = run(s1, completions(rs));
    assert(s2.queue =~= rs);
    lemma_frames_drain(s2, rs.len());
}

} // verus!
