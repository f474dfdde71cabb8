//! Runs of the dispatcher: what holds of a scan whatever the driver reports,
//! and in whatever order the probes end.

use crate::banner::{closed_outcome, OutcomeView};
use crate::dispatch::{can_dispatch, initial, Action, DispatchView, EventView};
use vstd::prelude::*;

verus! {

/// The state that `events`, taken in one after the other, lead to.
pub open spec fn run(start: DispatchView, events: Seq<EventView>) -> DispatchView
    decreases events.len(),
{
    if events.len() == 0 {
        start
    } else {
        run(start, events.drop_last()).after(events.last())
    }
}

/// The ports whose probes were started during the run, in that order.
pub open spec fn probed(start: DispatchView, events: Seq<EventView>) -> Seq<int>
    decreases events.len(),
{
    if events.len() == 0 {
        Seq::empty()
    } else {
        let before = run(start, events.drop_last());
        let ports = probed(start, events.drop_last());
        if events.last() is Launched && before.accepts(events.last()) {
            ports.push(before.next_port())
        } else {
            ports
        }
    }
}

/// The ports whose outcomes were taken in during the run, in that order.
pub open spec fn completed(start: DispatchView, events: Seq<EventView>) -> Seq<int>
    decreases events.len(),
{
    if events.len() == 0 {
        Seq::empty()
    } else {
        let before = run(start, events.drop_last());
        let ports = completed(start, events.drop_last());
        match events.last() {
            EventView::Completed(outcome) if before.accepts(events.last()) => ports.push(
                outcome.port,
            ),
            _ => ports,
        }
    }
}

/// The lines handed out for printing during the run, in that order.
pub open spec fn output(start: DispatchView, events: Seq<EventView>) -> Seq<Seq<char>>
    decreases events.len(),
{
    if events.len() == 0 {
        Seq::empty()
    } else {
        let before = run(start, events.drop_last());
        let lines = output(start, events.drop_last());
        match before.emits(events.last()) {
            Some(line) => lines.push(line),
            None => lines,
        }
    }
}

/// The `count` ports from `first` on, ascending.
pub open spec fn ports_from(first: int, count: nat) -> Seq<int> {
    Seq::new(count, |i: int| first + i)
}

/// A scan begins in a well-formed state.
pub proof fn lemma_initial_wf(first: int, last: int, ceiling: nat)
    requires
        can_dispatch(first, last, ceiling),
    ensures
        initial(first, last, ceiling).wf(),
{
}

/// No event leads out of the well-formed states, and none changes the
/// range or the ceiling.
pub proof fn lemma_after_wf(state: DispatchView, event: EventView)
    requires
        state.wf(),
    ensures
        state.after(event).wf(),
        state.after(event).first == state.first,
        state.after(event).last == state.last,
        state.after(event).ceiling == state.ceiling,
{
    if state.accepts(event) {
        match event {
            EventView::Launched => {},
            EventView::Completed(outcome) => {
                let i = state.in_flight.index_of(outcome.port);
                state.in_flight.remove_ensures(i);
            },
        }
    }
}

/// While ports are left to admit, the dispatcher waits only at the
/// ceiling: capacity is never left idle.
pub proof fn lemma_waits_only_when_full(state: DispatchView)
    requires
        state.wf(),
        state.action() is Await,
        state.admitted < state.total(),
    ensures
        state.in_flight.len() == state.ceiling,
{
}

/// An outcome that is not open adds no line to the output, in any state.
pub proof fn lemma_closed_port_is_silent(state: DispatchView, outcome: OutcomeView)
    requires
        !outcome.is_open,
    ensures
        state.emits(EventView::Completed(outcome)) is None,
{
}

/// The number of events that a scan still has to take in before it is over:
/// a launch for each port not yet admitted, and a completion for each port
/// not yet done.
pub open spec fn remaining(state: DispatchView) -> int {
    2 * (state.total() - state.admitted) + state.in_flight.len()
}

/// A scan is over exactly when nothing remains, and until then there is an
/// event that it accepts; every event that it accepts brings it one step
/// nearer to its end. So a scan of `n` ports is over after exactly `2 * n`
/// accepted events, however the probes end.
pub proof fn lemma_scan_makes_progress(state: DispatchView, event: EventView)
    requires
        state.wf(),
    ensures
        remaining(state) >= 0,
        remaining(state) == 0 <==> state.action() is Finish,
        state.action() is Probe ==> state.accepts(EventView::Launched),
        state.action() is Await ==> state.accepts(
            EventView::Completed(closed_outcome(state.in_flight[0])),
        ),
        state.accepts(event) ==> remaining(state.after(event)) == remaining(state) - 1,
        !state.accepts(event) ==> state.after(event) == state,
{
    if state.action() is Await {
        assert(state.in_flight.contains(state.in_flight[0]));
    }
    if state.accepts(event) {
        match event {
            EventView::Launched => {},
            EventView::Completed(outcome) => {
                let i = state.in_flight.index_of(outcome.port);
                state.in_flight.remove_ensures(i);
            },
        }
    }
}

/// A scan begins with two events to take in for each port of its range.
pub proof fn lemma_scan_length(first: int, last: int, ceiling: nat)
    requires
        can_dispatch(first, last, ceiling),
    ensures
        remaining(initial(first, last, ceiling)) == 2 * (last - first + 1),
{
}

spec fn run_invariant(first: int, last: int, ceiling: nat, events: Seq<EventView>) -> bool {
    let start = initial(first, last, ceiling);
    let state = run(start, events);
    let done = completed(start, events);
    &&& state.wf()
    &&& state.first == first
    &&& state.last == last
    &&& state.ceiling == ceiling
    &&& probed(start, events) == ports_from(first, state.admitted)
    &&& done.no_duplicates()
    &&& done.len() + state.in_flight.len() == state.admitted
    &&& forall|p: int| #[trigger] done.contains(p) ==> !state.in_flight.contains(p)
    &&& forall|p: int|
        first <= p < state.next_port() ==> #[trigger] done.contains(p) || state.in_flight.contains(
            p,
        )
    &&& forall|p: int| #[trigger] done.contains(p) ==> first <= p < state.next_port()
    &&& output(start, events).len() == state.open_ports
}

proof fn lemma_run_invariant(first: int, last: int, ceiling: nat, events: Seq<EventView>)
    requires
        can_dispatch(first, last, ceiling),
    ensures
        run_invariant(first, last, ceiling, events),
    decreases events.len(),
{
    let start = initial(first, last, ceiling);
    if events.len() == 0 {
        assert(probed(start, events) =~= ports_from(first, 0));
    } else {
        let earlier = events.drop_last();
        let event = events.last();
        lemma_run_invariant(first, last, ceiling, earlier);
        let before = run(start, earlier);
        let state = run(start, events);
        let done_before = completed(start, earlier);
        let done = completed(start, events);
        lemma_after_wf(before, event);
        if before.accepts(event) {
            match event {
                EventView::Launched => {
                    let port = before.next_port();
                    assert(probed(start, events) =~= ports_from(first, state.admitted));
                    assert forall|p: int|
                        first <= p < state.next_port() implies #[trigger] done.contains(p)
                        || state.in_flight.contains(p) by {
                        if p == port {
                            assert(state.in_flight[state.in_flight.len() - 1] == port);
                        } else {
                            if before.in_flight.contains(p) {
                                let i = before.in_flight.index_of(p);
                                assert(state.in_flight[i] == p);
                            }
                        }
                    }
                    assert forall|p: int| #[trigger] done.contains(p) implies !state.in_flight.contains(
                        p,
                    ) by {
                        if state.in_flight.contains(p) {
                            let i = state.in_flight.index_of(p);
                            if i < before.in_flight.len() {
                                assert(before.in_flight[i] == p);
                            }
                        }
                    }
                },
                EventView::Completed(outcome) => {
                    let port = outcome.port;
                    let i = before.in_flight.index_of(port);
                    before.in_flight.remove_ensures(i);
                    assert(state.in_flight == before.in_flight.remove(i));
                    assert(done == done_before.push(port));
                    assert(!done_before.contains(port));
                    assert(done.no_duplicates());
                    assert(before.in_flight[i] == port);
                    assert forall|p: int| #[trigger] done.contains(p) implies !state.in_flight.contains(
                        p,
                    ) && first <= p < state.next_port() by {
                        let k = done.index_of(p);
                        if k < done_before.len() {
                            assert(done_before[k] == p);
                            assert(done_before.contains(p));
                        } else {
                            assert(p == port);
                        }
                        if state.in_flight.contains(p) {
                            let j = state.in_flight.index_of(p);
                            let j0 = if j < i {
                                j
                            } else {
                                j + 1
                            };
                            assert(before.in_flight[j0] == p);
                            assert(before.in_flight.contains(p));
                            assert(j0 != i);
                        }
                    }
                    assert forall|p: int|
                        first <= p < state.next_port() implies #[trigger] done.contains(p)
                        || state.in_flight.contains(p) by {
                        if p == port {
                            assert(done[done.len() - 1] == p);
                        } else if done_before.contains(p) {
                            let k = done_before.index_of(p);
                            assert(done[k] == p);
                        } else {
                            let j = before.in_flight.index_of(p);
                            if j < i {
                                assert(state.in_flight[j] == p);
                            } else {
                                assert(state.in_flight[j - 1] == p);
                            }
                        }
                    }
                },
            }
        }
    }
}

/// At every moment of a scan the probes in flight are no more than the
/// ceiling, and they are distinct ports of the range.
pub proof fn lemma_ceiling_holds(first: int, last: int, ceiling: nat, events: Seq<EventView>)
    requires
        can_dispatch(first, last, ceiling),
    ensures
        forall|k: int|
            0 <= k <= events.len() ==> (#[trigger] run(
                initial(first, last, ceiling),
                events.take(k),
            )).in_flight.len() <= ceiling,
        run(initial(first, last, ceiling), events).wf(),
{
    assert forall|k: int| 0 <= k <= events.len() implies (#[trigger] run(
        initial(first, last, ceiling),
        events.take(k),
    )).in_flight.len() <= ceiling by {
        lemma_run_invariant(first, last, ceiling, events.take(k));
    }
    lemma_run_invariant(first, last, ceiling, events);
}

/// The ports are probed in ascending order from the first port of the
/// range, each once and none skipped: after any run, the ports that were
/// probed are the first so many ports of the range.
pub proof fn lemma_probed_in_order(first: int, last: int, ceiling: nat, events: Seq<EventView>)
    requires
        can_dispatch(first, last, ceiling),
    ensures
        run(initial(first, last, ceiling), events).admitted <= last - first + 1,
        probed(initial(first, last, ceiling), events) == ports_from(
            first,
            run(initial(first, last, ceiling), events).admitted,
        ),
        probed(initial(first, last, ceiling), events).no_duplicates(),
{
    lemma_run_invariant(first, last, ceiling, events);
}

/// The scan is over only when every port of the range has been probed
/// exactly once and has produced exactly one outcome, and the open ports
/// counted are as many as the lines handed out.
pub proof fn lemma_finished_scan_is_complete(
    first: int,
    last: int,
    ceiling: nat,
    events: Seq<EventView>,
)
    requires
        can_dispatch(first, last, ceiling),
        run(initial(first, last, ceiling), events).action() is Finish,
    ensures
        probed(initial(first, last, ceiling), events) == ports_from(
            first,
            (last - first + 1) as nat,
        ),
        completed(initial(first, last, ceiling), events).len() == last - first + 1,
        completed(initial(first, last, ceiling), events).no_duplicates(),
        forall|p: int|
            first <= p <= last <==> #[trigger] completed(
                initial(first, last, ceiling),
                events,
            ).contains(p),
        run(initial(first, last, ceiling), events).in_flight.len() == 0,
        output(initial(first, last, ceiling), events).len() == run(
            initial(first, last, ceiling),
            events,
        ).open_ports,
{
    lemma_run_invariant(first, last, ceiling, events);
    let start = initial(first, last, ceiling);
    let state = run(start, events);
    let done = completed(start, events);
    assert forall|p: int| first <= p <= last implies #[trigger] done.contains(p) by {
        if state.in_flight.contains(p) {
            let i = state.in_flight.index_of(p);
        }
    }
}

/// The open ports counted are as many as the lines handed out, at every
/// moment of a scan.
pub proof fn lemma_tally_matches_output(
    first: int,
    last: int,
    ceiling: nat,
    events: Seq<EventView>,
)
    requires
        can_dispatch(first, last, ceiling),
    ensures
        output(initial(first, last, ceiling), events).len() == run(
            initial(first, last, ceiling),
            events,
        ).open_ports,
{
    lemma_run_invariant(first, last, ceiling, events);
}

} // verus!
