use pong_coordinator::{
    classify, report, Action, Content, Coordinator, Event, Finding, Message, Phase, ProbeOutcome, Prober,
    ServerAddress, CHECK_INTERVAL_SECS,
};

fn status(p: Phase) -> ProbeOutcome {
    ProbeOutcome::Replied(Message { content: Some(Content::Status(p)) })
}

/// Drives one whole round from idle, answering each probe with `answer`.
fn run_round(prober: &mut Prober, answer: &dyn Fn(&ServerAddress) -> ProbeOutcome) {
    assert!(prober.is_idle());
    match prober.next_action() {
        Action::Sleep(secs) => assert_eq!(secs, CHECK_INTERVAL_SECS),
        Action::Probe(_) => panic!("probing while idle"),
    }
    prober.handle(Event::Woke);
    while !prober.is_idle() {
        match prober.next_action() {
            Action::Probe(a) => prober.handle(Event::Probed(answer(&a))),
            Action::Sleep(_) => panic!("sleeping within a round"),
        }
    }
}

fn local(port: i16) -> ServerAddress {
    ServerAddress::new("127.0.0.1".to_string(), port)
}

#[test]
fn new_coordinator_starts_idle_with_unknown_servers() {
    let c = Coordinator::new(4999, vec![("127.0.0.1".to_string(), 5000), ("127.0.0.1".to_string(), 5001)]);
    assert_eq!(c.port(), 4999);
    assert_eq!(c.secret(), "");
    assert!(c.prober().is_idle());
    let r = c.prober().registry();
    assert_eq!(r.len(), 2);
    assert_eq!(r.phase(&local(5000)), Some(Phase::Unknown));
    assert_eq!(r.phase(&local(5001)), Some(Phase::Unknown));
    assert_eq!(r.phase(&local(5002)), None);
}

#[test]
fn busy_server_then_stopped_server() {
    let c = Coordinator::new(4999, vec![("127.0.0.1".to_string(), 5000)]);
    let mut prober = c.into_prober();
    run_round(&mut prober, &|_| status(Phase::Busy));
    assert_eq!(prober.registry().phase(&local(5000)), Some(Phase::Busy));
    run_round(&mut prober, &|_| ProbeOutcome::TimedOut);
    assert_eq!(prober.registry().phase(&local(5000)), Some(Phase::Unreachable));
}

#[test]
fn tokens_reply_keeps_phase() {
    let c = Coordinator::new(4999, vec![("127.0.0.1".to_string(), 5000)]);
    let mut prober = c.into_prober();
    run_round(&mut prober, &|_| status(Phase::Waiting));
    assert_eq!(prober.registry().phase(&local(5000)), Some(Phase::Waiting));
    run_round(&mut prober, &|_| ProbeOutcome::Replied(Message { content: Some(Content::Tokens(vec![7, 7])) }));
    assert_eq!(prober.registry().phase(&local(5000)), Some(Phase::Waiting));
}

#[test]
fn round_visits_every_server_once_in_order() {
    let c = Coordinator::new(
        4999,
        vec![("127.0.0.1".to_string(), 5000), ("127.0.0.1".to_string(), 5001), ("127.0.0.1".to_string(), 5002)],
    );
    let mut prober = c.into_prober();
    let keys = prober.registry().keys();
    prober.handle(Event::Woke);
    for k in &keys {
        match prober.next_action() {
            Action::Probe(a) => {
                assert_eq!(a.host, k.host);
                assert_eq!(a.port, k.port);
            }
            Action::Sleep(_) => panic!("round ended early"),
        }
        let outcome = if k.port == 5001 { ProbeOutcome::TimedOut } else { status(Phase::Waiting) };
        prober.handle(Event::Probed(outcome));
    }
    assert!(prober.is_idle());
    assert_eq!(prober.registry().phase(&local(5000)), Some(Phase::Waiting));
    assert_eq!(prober.registry().phase(&local(5001)), Some(Phase::Unreachable));
    assert_eq!(prober.registry().phase(&local(5002)), Some(Phase::Waiting));
}

#[test]
fn stray_events_are_ignored() {
    let c = Coordinator::new(4999, vec![("127.0.0.1".to_string(), 5000), ("127.0.0.1".to_string(), 5001)]);
    let mut prober = c.into_prober();
    prober.handle(Event::Probed(status(Phase::Busy)));
    assert!(prober.is_idle());
    assert_eq!(prober.registry().phase(&local(5000)), Some(Phase::Unknown));
    assert_eq!(prober.registry().phase(&local(5001)), Some(Phase::Unknown));
    prober.handle(Event::Woke);
    assert!(!prober.is_idle());
    prober.handle(Event::Woke);
    match prober.next_action() {
        Action::Probe(a) => assert_eq!(a.port, prober.registry().keys()[0].port),
        Action::Sleep(_) => panic!("round was abandoned"),
    }
}

#[test]
fn empty_registry_never_probes() {
    let c = Coordinator::new(4999, Vec::new());
    let mut prober = c.into_prober();
    prober.handle(Event::Woke);
    assert!(prober.is_idle());
    match prober.next_action() {
        Action::Sleep(secs) => assert_eq!(secs, 5),
        Action::Probe(_) => panic!("probe without servers"),
    }
}

#[test]
fn duplicate_configuration_is_probed_once() {
    let c = Coordinator::new(4999, vec![("127.0.0.1".to_string(), 5000), ("127.0.0.1".to_string(), 5000)]);
    let mut prober = c.into_prober();
    let mut probes = 0;
    prober.handle(Event::Woke);
    while !prober.is_idle() {
        probes += 1;
        prober.handle(Event::Probed(status(Phase::Busy)));
    }
    assert_eq!(probes, 1);
}

#[test]
fn outcomes_are_classified() {
    assert_eq!(classify(&status(Phase::Waiting)), Finding::Available);
    assert_eq!(classify(&status(Phase::Busy)), Finding::Occupied);
    assert_eq!(classify(&status(Phase::Unknown)), Finding::Occupied);
    assert_eq!(
        classify(&ProbeOutcome::Replied(Message { content: Some(Content::Tokens(Vec::new())) })),
        Finding::TokensReceived
    );
    assert_eq!(classify(&ProbeOutcome::Replied(Message::query())), Finding::ProtocolViolation);
    assert_eq!(classify(&ProbeOutcome::Replied(Message { content: None })), Finding::NoContent);
    assert_eq!(classify(&ProbeOutcome::TimedOut), Finding::Unavailable);
    assert_eq!(classify(&ProbeOutcome::DecodeFailed(String::new())), Finding::Undecodable);
}

#[test]
fn outcomes_report_phases() {
    assert_eq!(report(&status(Phase::Busy)), Some(Phase::Busy));
    assert_eq!(report(&ProbeOutcome::TimedOut), Some(Phase::Unreachable));
    assert_eq!(report(&ProbeOutcome::DecodeFailed("x".to_string())), None);
    assert_eq!(report(&ProbeOutcome::Replied(Message::query())), None);
}
