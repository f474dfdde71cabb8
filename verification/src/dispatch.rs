//! The scan dispatcher and the tally of its results.
//!
//! The dispatcher admits ports in ascending order while fewer probes than
//! the ceiling are in flight. Once the ceiling is reached it waits for one
//! probe to end before it admits the next, and when every port has been
//! admitted it waits until none is left in flight.
//!
//! It is a state machine. The driver carries out the action that the
//! dispatcher names and reports back with an event; an event that does not
//! answer the pending action changes nothing.

use crate::banner::{report_line, OutcomeView, PortOutcome};
use crate::text::{append_decimal, decimal};
use vstd::prelude::*;
use vstd::string::*;

verus! {

/// The number of probes that may be in flight at once in an ordinary scan.
pub const CONCURRENT_LIMIT: usize = 100;

/// What the driver is asked to do.
#[derive(Clone, Copy, Debug, PartialEq, Eq, Structural)]
pub enum Action {
    /// Start the probe of this port, then report `Launched`.
    Probe(u16),
    /// Wait until one probe in flight ends, then report `Completed`.
    Await,
    /// Every port has produced its outcome: the scan is over.
    Finish,
}

/// What the driver reports.
pub enum Event {
    /// The probe that was asked for has been started.
    Launched,
    /// A probe in flight has ended with this outcome.
    Completed(PortOutcome),
}

/// What an `Event` holds, as plain values.
pub enum EventView {
    Launched,
    Completed(OutcomeView),
}

impl View for Event {
    type V = EventView;

    open spec fn view(&self) -> EventView {
        match self {
            Event::Launched => EventView::Launched,
            Event::Completed(outcome) => EventView::Completed(outcome@),
        }
    }
}

/// The state of a scan, as plain values.
pub struct DispatchView {
    /// The first port of the range.
    pub first: int,
    /// The last port of the range.
    pub last: int,
    /// The most probes that may be in flight at once.
    pub ceiling: nat,
    /// How many ports have been admitted: the ports from `first` up to,
    /// not including, `first + admitted`.
    pub admitted: nat,
    /// The ports whose probes are in flight, in the order of their admission.
    pub in_flight: Seq<int>,
    /// How many of the ended probes found their port open: as many as
    /// lines were handed out for printing.
    pub open_ports: nat,
}

/// `ports` without `port`, of which it holds at most one.
pub open spec fn without(ports: Seq<int>, port: int) -> Seq<int> {
    if ports.contains(port) {
        ports.remove(ports.index_of(port))
    } else {
        ports
    }
}

impl DispatchView {
    /// The number of ports in the range.
    pub open spec fn total(self) -> nat {
        (self.last - self.first + 1) as nat
    }

    /// The port that is admitted next.
    pub open spec fn next_port(self) -> int {
        self.first + self.admitted
    }

    /// What holds of the state of every scan at every moment.
    pub open spec fn wf(self) -> bool {
        &&& 1 <= self.first <= self.last <= 65535
        &&& 1 <= self.ceiling
        &&& self.admitted <= self.total()
        &&& self.in_flight.len() <= self.ceiling
        &&& self.in_flight.no_duplicates()
        &&& forall|i: int|
            0 <= i < self.in_flight.len() ==> self.first <= #[trigger] self.in_flight[i]
                < self.next_port()
        &&& self.open_ports + self.in_flight.len() <= self.admitted
    }

    /// The action that is pending in this state.
    ///
    /// A port is admitted whenever one is left and the ceiling is not
    /// reached; otherwise a probe in flight is waited for; with none in
    /// flight the scan is over.
    pub open spec fn action(self) -> Action {
        if self.admitted < self.total() && self.in_flight.len() < self.ceiling {
            Action::Probe(self.next_port() as u16)
        } else if self.in_flight.len() > 0 {
            Action::Await
        } else {
            Action::Finish
        }
    }

    /// Whether `event` answers the pending action. A completion must also
    /// be that of a port in flight.
    pub open spec fn accepts(self, event: EventView) -> bool {
        match event {
            EventView::Launched => self.action() is Probe,
            EventView::Completed(outcome) => self.action() is Await && self.in_flight.contains(
                outcome.port,
            ),
        }
    }

    /// The state after `event`.
    pub open spec fn after(self, event: EventView) -> DispatchView {
        if !self.accepts(event) {
            self
        } else {
            match event {
                EventView::Launched => DispatchView {
                    admitted: self.admitted + 1,
                    in_flight: self.in_flight.push(self.next_port()),
                    ..self
                },
                EventView::Completed(outcome) => DispatchView {
                    in_flight: without(self.in_flight, outcome.port),
                    open_ports: if report_line(outcome) is Some {
                        self.open_ports + 1
                    } else {
                        self.open_ports
                    },
                    ..self
                },
            }
        }
    }

    /// The line that `event` adds to the output in this state: that of an
    /// open port whose completion is accepted, and nothing else.
    pub open spec fn emits(self, event: EventView) -> Option<Seq<char>> {
        match event {
            EventView::Completed(outcome) if self.accepts(event) => report_line(outcome),
            _ => None,
        }
    }
}

/// The state in which a scan of the ports `first` to `last` begins.
pub open spec fn initial(first: int, last: int, ceiling: nat) -> DispatchView {
    DispatchView { first, last, ceiling, admitted: 0, in_flight: Seq::empty(), open_ports: 0 }
}

/// Whether a scan can be set up for these values.
pub open spec fn can_dispatch(first: int, last: int, ceiling: nat) -> bool {
    1 <= first <= last <= 65535 && 1 <= ceiling
}

/// The line that closes the output of a scan.
pub open spec fn summary_line(open_ports: nat) -> Seq<char> {
    "Scan complete: "@ + decimal(open_ports) + " port(s) open"@
}

/// The dispatcher's answer to an event.
pub struct Step {
    /// The line to print at once, if the event was the completion of an
    /// open port.
    pub line: Option<String>,
    /// The action that is pending now.
    pub next: Action,
}

/// The dispatcher of one scan, with the tally of its open ports.
pub struct Dispatcher {
    first: u16,
    last: u16,
    ceiling: usize,
    admitted: u32,
    in_flight: Vec<u16>,
    open_ports: u32,
}

impl View for Dispatcher {
    type V = DispatchView;

    closed spec fn view(&self) -> DispatchView {
        DispatchView {
            first: self.first as int,
            last: self.last as int,
            ceiling: self.ceiling as nat,
            admitted: self.admitted as nat,
            in_flight: self.in_flight@.map_values(|p: u16| p as int),
            open_ports: self.open_ports as nat,
        }
    }
}

fn position(ports: &Vec<u16>, port: u16) -> (found: Option<usize>)
    ensures
        match found {
            Some(i) => i < ports.len() && ports[i as int] == port,
            None => forall|i: int| 0 <= i < ports.len() ==> ports[i] != port,
        },
{
    let mut i: usize = 0;
    while i < ports.len()
        invariant
            i <= ports.len(),
            forall|j: int| 0 <= j < i ==> ports[j] != port,
        decreases ports.len() - i,
    {
        if ports[i] == port {
            return Some(i);
        }
        i += 1;
    }
    None
}

impl Dispatcher {
    #[verifier::type_invariant]
    spec fn well_formed(self) -> bool {
        self@.wf()
    }

    /// Sets up the scan of the ports `first` to `last` with at most
    /// `ceiling` probes in flight. There is no dispatcher for an empty or
    /// ill-formed range, nor for a ceiling of zero.
    pub fn new(first: u16, last: u16, ceiling: usize) -> (dispatcher: Option<Dispatcher>)
        ensures
            dispatcher is Some <==> can_dispatch(first as int, last as int, ceiling as nat),
            dispatcher matches Some(d) ==> d@ == initial(first as int, last as int, ceiling as nat),
    {
        if first == 0 || first > last || ceiling == 0 {
            None
        } else {
            let d = Dispatcher {
                first,
                last,
                ceiling,
                admitted: 0,
                in_flight: Vec::new(),
                open_ports: 0,
            };
            assert(d@.in_flight =~= Seq::<int>::empty());
            Some(d)
        }
    }

    /// The pending action. The state of a dispatcher is well-formed at
    /// every moment.
    pub fn action(&self) -> (action: Action)
        ensures
            action == self@.action(),
            self@.wf(),
    {
        proof {
            use_type_invariant(self);
        }
        let total: u32 = self.last as u32 - self.first as u32 + 1;
        if self.admitted < total && self.in_flight.len() < self.ceiling {
            Action::Probe((self.first as u32 + self.admitted) as u16)
        } else if self.in_flight.len() > 0 {
            Action::Await
        } else {
            Action::Finish
        }
    }

    /// The number of probes in flight, which never exceeds the ceiling.
    pub fn in_flight(&self) -> (n: usize)
        ensures
            n == self@.in_flight.len(),
            n <= self@.ceiling,
    {
        proof {
            use_type_invariant(self);
        }
        self.in_flight.len()
    }

    /// The number of open ports found so far.
    pub fn open_ports(&self) -> (n: u32)
        ensures
            n == self@.open_ports,
    {
        self.open_ports
    }

    /// Takes in `event` and names the action that is pending after it.
    ///
    /// `Launched` is accepted while a port is to be probed: that port is
    /// then in flight. `Completed` is accepted while a probe is waited for
    /// and the outcome is that of a port in flight: the port then leaves,
    /// an open port is counted, and its line is handed out for printing.
    /// Any other event leaves the state as it was.
    pub fn step(&mut self, event: Event) -> (step: Step)
        ensures
            final(self)@ == old(self)@.after(event@),
            final(self)@.wf(),
            step.next == final(self)@.action(),
            match step.line {
                Some(l) => old(self)@.emits(event@) == Some(l@),
                None => old(self)@.emits(event@) is None,
            },
    {
        proof {
            use_type_invariant(&*self);
        }
        let pending = self.action();
        let mut line: Option<String> = None;
        match event {
            Event::Launched => {
                if let Action::Probe(port) = pending {
                    let mut ports: Vec<u16> = Vec::new();
                    std::mem::swap(&mut self.in_flight, &mut ports);
                    ports.push(port);
                    self.admitted = self.admitted + 1;
                    assert(ports@.map_values(|p: u16| p as int) =~= old(self)@.in_flight.push(
                        old(self)@.next_port(),
                    ));
                    self.in_flight = ports;
                }
            },
            Event::Completed(outcome) => {
                if let Action::Await = pending {
                    let found = position(&self.in_flight, outcome.port());
                    match found {
                        Some(i) => {
                            proof {
                                let ports = old(self)@.in_flight;
                                assert(ports[i as int] == outcome@.port);
                                assert(ports.index_of(outcome@.port) == i as int);
                                assert(ports.remove(i as int) =~= self.in_flight@.remove(
                                    i as int,
                                ).map_values(|p: u16| p as int));
                            }
                            let mut ports: Vec<u16> = Vec::new();
                            std::mem::swap(&mut self.in_flight, &mut ports);
                            ports.remove(i);
                            self.in_flight = ports;
                            if outcome.is_open() {
                                self.open_ports = self.open_ports + 1;
                            }
                            line = outcome.line();
                        },
                        None => {
                            assert(!old(self)@.in_flight.contains(outcome@.port));
                        },
                    }
                }
            },
        }
        Step { line, next: self.action() }
    }

    /// The line that closes the output: how many ports were found open.
    pub fn summary(&self) -> (line: String)
        ensures
            line@ == summary_line(self@.open_ports),
    {
        proof {
            reveal_strlit("Scan complete: ");
            reveal_strlit(" port(s) open");
        }
        let mut line = String::new();
        line.append("Scan complete: ");
        append_decimal(&mut line, self.open_ports);
        line.append(" port(s) open");
        assert(line@ =~= summary_line(self@.open_ports));
        line
    }
}

} // verus!
