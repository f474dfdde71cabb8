use port_scanner::banner::PortOutcome;
use port_scanner::dispatch::{Action, Dispatcher, Event, CONCURRENT_LIMIT};

/// Drives a scan to its end. Probes end in an order that `pick` chooses among
/// those in flight; the ports in `open` are open. Returns the ports in the
/// order probed, the most probes ever in flight, and the lines handed out.
fn drive(
    first: u16,
    last: u16,
    ceiling: usize,
    open: &[u16],
    pick: fn(usize, usize) -> usize,
) -> (Vec<u16>, usize, Vec<String>, Dispatcher) {
    let mut dispatcher = Dispatcher::new(first, last, ceiling).expect("a dispatcher");
    let mut flying: Vec<u16> = Vec::new();
    let mut probed: Vec<u16> = Vec::new();
    let mut lines: Vec<String> = Vec::new();
    let mut most = 0;
    let mut turn = 0;
    let mut action = dispatcher.action();
    loop {
        assert_eq!(dispatcher.in_flight(), flying.len());
        assert!(dispatcher.in_flight() <= ceiling);
        match action {
            Action::Probe(port) => {
                probed.push(port);
                flying.push(port);
                if flying.len() > most {
                    most = flying.len();
                }
                let step = dispatcher.step(Event::Launched);
                assert_eq!(step.line, None);
                action = step.next;
            }
            Action::Await => {
                assert!(!flying.is_empty());
                let port = flying.remove(pick(turn, flying.len()));
                turn += 1;
                let outcome = if open.contains(&port) {
                    PortOutcome::reachable(port, "hello".to_string())
                } else {
                    PortOutcome::unreachable(port)
                };
                let step = dispatcher.step(Event::Completed(outcome));
                if let Some(line) = step.line {
                    lines.push(line);
                }
                action = step.next;
            }
            Action::Finish => break,
        }
    }
    assert!(flying.is_empty());
    (probed, most, lines, dispatcher)
}

fn oldest(_turn: usize, _n: usize) -> usize {
    0
}

fn newest(_turn: usize, n: usize) -> usize {
    n - 1
}

fn scattered(turn: usize, n: usize) -> usize {
    (turn * 7 + 3) % n
}

fn range(first: u16, last: u16) -> Vec<u16> {
    (first..=last).collect()
}

#[test]
fn the_ordinary_ceiling_is_one_hundred() {
    assert_eq!(CONCURRENT_LIMIT, 100);
}

#[test]
fn no_dispatcher_for_port_zero() {
    assert!(Dispatcher::new(0, 10, 100).is_none());
    assert!(Dispatcher::new(0, 0, 100).is_none());
}

#[test]
fn no_dispatcher_for_a_range_that_ends_before_it_starts() {
    assert!(Dispatcher::new(10, 9, 100).is_none());
    assert!(Dispatcher::new(65535, 1, 100).is_none());
}

#[test]
fn no_dispatcher_for_a_ceiling_of_zero() {
    assert!(Dispatcher::new(1, 10, 0).is_none());
}

#[test]
fn a_dispatcher_for_every_range_in_order() {
    assert!(Dispatcher::new(1, 1, 1).is_some());
    assert!(Dispatcher::new(1, 65535, 100).is_some());
    assert!(Dispatcher::new(65535, 65535, 100).is_some());
}

#[test]
fn a_scan_begins_with_its_first_port() {
    let dispatcher = Dispatcher::new(79, 81, 100).unwrap();
    assert_eq!(dispatcher.action(), Action::Probe(79));
    assert_eq!(dispatcher.in_flight(), 0);
    assert_eq!(dispatcher.open_ports(), 0);
}

#[test]
fn every_port_is_probed_once_in_order() {
    for ceiling in [1usize, 2, 3, 7, 100, 1000] {
        for pick in [oldest as fn(usize, usize) -> usize, newest, scattered] {
            let (probed, _, _, _) = drive(20, 90, ceiling, &[], pick);
            assert_eq!(probed, range(20, 90));
        }
    }
}

#[test]
fn a_range_of_one_port() {
    let (probed, most, lines, dispatcher) = drive(443, 443, 100, &[443], oldest);
    assert_eq!(probed, vec![443]);
    assert_eq!(most, 1);
    assert_eq!(lines, vec!["Port 443: Open (https) - hello".to_string()]);
    assert_eq!(dispatcher.summary(), "Scan complete: 1 port(s) open");
}

#[test]
fn the_whole_port_space() {
    let (probed, most, lines, dispatcher) = drive(1, 65535, 100, &[], scattered);
    assert_eq!(probed.len(), 65535);
    assert_eq!(probed, range(1, 65535));
    assert_eq!(most, 100);
    assert!(lines.is_empty());
    assert_eq!(dispatcher.summary(), "Scan complete: 0 port(s) open");
}

#[test]
fn the_ceiling_is_reached_and_never_passed() {
    for ceiling in [1usize, 2, 5, 100] {
        let (_, most, _, _) = drive(1, 1000, ceiling, &[], scattered);
        assert_eq!(most, ceiling);
    }
}

#[test]
fn a_short_range_stays_below_the_ceiling() {
    let (_, most, _, _) = drive(1, 30, 100, &[], newest);
    assert_eq!(most, 30);
}

#[test]
fn ten_thousand_ports_keep_a_hundred_in_flight() {
    let mut dispatcher = Dispatcher::new(1, 10000, 100).unwrap();
    let mut flying: Vec<u16> = Vec::new();
    let mut waits = 0;
    let mut waits_below_the_ceiling_with_ports_left = 0;
    let mut next: u32 = 1;
    let mut action = dispatcher.action();
    loop {
        match action {
            Action::Probe(port) => {
                assert_eq!(port as u32, next);
                next += 1;
                flying.push(port);
                action = dispatcher.step(Event::Launched).next;
            }
            Action::Await => {
                waits += 1;
                if next <= 10000 && flying.len() < 100 {
                    waits_below_the_ceiling_with_ports_left += 1;
                }
                let port = flying.remove(0);
                action = dispatcher.step(Event::Completed(PortOutcome::unreachable(port))).next;
            }
            Action::Finish => break,
        }
    }
    assert_eq!(next, 10001);
    assert_eq!(waits, 10000);
    assert_eq!(waits_below_the_ceiling_with_ports_left, 0);
}

#[test]
fn one_listener_among_three_ports() {
    let mut dispatcher = Dispatcher::new(79, 81, 100).unwrap();
    assert_eq!(dispatcher.step(Event::Launched).next, Action::Probe(80));
    assert_eq!(dispatcher.step(Event::Launched).next, Action::Probe(81));
    assert_eq!(dispatcher.step(Event::Launched).next, Action::Await);
    let mut lines: Vec<String> = Vec::new();
    let step = dispatcher.step(Event::Completed(PortOutcome::unreachable(81)));
    assert_eq!(step.line, None);
    assert_eq!(step.next, Action::Await);
    let answer = PortOutcome::reachable(80, "HTTP/1.1 200 OK".to_string());
    let step = dispatcher.step(Event::Completed(answer));
    assert_eq!(step.next, Action::Await);
    lines.extend(step.line);
    let step = dispatcher.step(Event::Completed(PortOutcome::unreachable(79)));
    assert_eq!(step.line, None);
    assert_eq!(step.next, Action::Finish);
    assert_eq!(lines.len(), 1);
    assert!(lines[0].starts_with("Port 80: Open (http) - HTTP/1.1 200 OK"));
    assert_eq!(dispatcher.open_ports(), 1);
    assert_eq!(dispatcher.summary(), "Scan complete: 1 port(s) open");
}

#[test]
fn lines_come_in_the_order_of_completion() {
    let (_, _, lines, dispatcher) = drive(1, 5, 100, &[2, 4, 5], newest);
    assert_eq!(
        lines,
        vec![
            "Port 5: Open (unknown) - hello".to_string(),
            "Port 4: Open (unknown) - hello".to_string(),
            "Port 2: Open (unknown) - hello".to_string(),
        ]
    );
    assert_eq!(dispatcher.summary(), "Scan complete: 3 port(s) open");
    let (_, _, lines, _) = drive(1, 5, 100, &[2, 4, 5], oldest);
    assert_eq!(
        lines,
        vec![
            "Port 2: Open (unknown) - hello".to_string(),
            "Port 4: Open (unknown) - hello".to_string(),
            "Port 5: Open (unknown) - hello".to_string(),
        ]
    );
}

#[test]
fn the_count_is_that_of_the_lines() {
    let open: Vec<u16> = (1..=300).filter(|p| p % 3 == 0).collect();
    let (_, _, lines, dispatcher) = drive(1, 300, 10, &open, scattered);
    assert_eq!(lines.len(), 100);
    assert_eq!(dispatcher.open_ports(), 100);
    assert_eq!(dispatcher.summary(), "Scan complete: 100 port(s) open");
}

#[test]
fn a_completion_is_not_taken_while_a_port_can_be_admitted() {
    let mut dispatcher = Dispatcher::new(1, 10, 3).unwrap();
    dispatcher.step(Event::Launched);
    let step = dispatcher.step(Event::Completed(PortOutcome::reachable(1, "x".to_string())));
    assert_eq!(step.line, None);
    assert_eq!(step.next, Action::Probe(2));
    assert_eq!(dispatcher.in_flight(), 1);
    assert_eq!(dispatcher.open_ports(), 0);
}

#[test]
fn a_launch_is_not_taken_at_the_ceiling() {
    let mut dispatcher = Dispatcher::new(1, 10, 2).unwrap();
    dispatcher.step(Event::Launched);
    assert_eq!(dispatcher.step(Event::Launched).next, Action::Await);
    assert_eq!(dispatcher.step(Event::Launched).next, Action::Await);
    assert_eq!(dispatcher.in_flight(), 2);
}

#[test]
fn the_outcome_of_a_port_not_in_flight_is_not_taken() {
    let mut dispatcher = Dispatcher::new(1, 10, 2).unwrap();
    dispatcher.step(Event::Launched);
    dispatcher.step(Event::Launched);
    let step = dispatcher.step(Event::Completed(PortOutcome::reachable(7, "x".to_string())));
    assert_eq!(step.line, None);
    assert_eq!(step.next, Action::Await);
    assert_eq!(dispatcher.in_flight(), 2);
    assert_eq!(dispatcher.open_ports(), 0);
}

#[test]
fn an_outcome_is_taken_once() {
    let mut dispatcher = Dispatcher::new(1, 2, 2).unwrap();
    dispatcher.step(Event::Launched);
    dispatcher.step(Event::Launched);
    let step = dispatcher.step(Event::Completed(PortOutcome::reachable(1, "x".to_string())));
    assert_eq!(step.line, Some("Port 1: Open (unknown) - x".to_string()));
    let step = dispatcher.step(Event::Completed(PortOutcome::reachable(1, "x".to_string())));
    assert_eq!(step.line, None);
    assert_eq!(step.next, Action::Await);
    assert_eq!(dispatcher.open_ports(), 1);
    assert_eq!(dispatcher.in_flight(), 1);
}

#[test]
fn nothing_happens_after_the_end() {
    let (_, _, _, mut dispatcher) = drive(1, 3, 2, &[1], oldest);
    assert_eq!(dispatcher.action(), Action::Finish);
    assert_eq!(dispatcher.step(Event::Launched).next, Action::Finish);
    let step = dispatcher.step(Event::Completed(PortOutcome::reachable(2, "x".to_string())));
    assert_eq!(step.line, None);
    assert_eq!(step.next, Action::Finish);
    assert_eq!(dispatcher.open_ports(), 1);
}

#[test]
fn one_probe_is_replaced_at_a_time() {
    let mut dispatcher = Dispatcher::new(1, 6, 2).unwrap();
    assert_eq!(dispatcher.step(Event::Launched).next, Action::Probe(2));
    assert_eq!(dispatcher.step(Event::Launched).next, Action::Await);
    let step = dispatcher.step(Event::Completed(PortOutcome::unreachable(2)));
    assert_eq!(step.next, Action::Probe(3));
    assert_eq!(dispatcher.step(Event::Launched).next, Action::Await);
    let step = dispatcher.step(Event::Completed(PortOutcome::unreachable(1)));
    assert_eq!(step.next, Action::Probe(4));
}
