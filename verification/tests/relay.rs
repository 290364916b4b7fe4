use aegis_backend::relay::{run_relay, OutputRelay, ProcessKind, StreamEvent};

fn stdout_line(s: &str) -> StreamEvent {
    StreamEvent::StdoutLine(s.to_string())
}

fn stderr_line(s: &str) -> StreamEvent {
    StreamEvent::StderrLine(s.to_string())
}

#[test]
fn stdout_lines_keep_their_order() {
    let events = vec![stdout_line("A"), stdout_line("B")];
    let out = run_relay(ProcessKind::Simulator, &events);
    assert_eq!(out.len(), 2);
    assert_eq!(out[0].channel, "aegis-stdout");
    assert_eq!(out[0].payload, "A");
    assert_eq!(out[1].channel, "aegis-stdout");
    assert_eq!(out[1].payload, "B");
}

#[test]
fn each_stream_keeps_its_own_order() {
    let events = vec![
        stdout_line("out1"),
        stderr_line("err1"),
        stdout_line("out2"),
        stderr_line("err2"),
    ];
    let out = run_relay(ProcessKind::Agent, &events);
    let stdout: Vec<&str> = out
        .iter()
        .filter(|e| e.channel == "agent-stdout")
        .map(|e| e.payload.as_str())
        .collect();
    let stderr: Vec<&str> = out
        .iter()
        .filter(|e| e.channel == "agent-stderr")
        .map(|e| e.payload.as_str())
        .collect();
    assert_eq!(stdout, vec!["out1", "out2"]);
    assert_eq!(stderr, vec!["err1", "err2"]);
}

#[test]
fn exactly_one_exit_event_and_it_is_last() {
    let events = vec![stdout_line("A"), stderr_line("W"), StreamEvent::Terminated];
    let out = run_relay(ProcessKind::Simulator, &events);
    assert_eq!(out.len(), 3);
    let exits: Vec<_> = out.iter().filter(|e| e.channel == "aegis-exit").collect();
    assert_eq!(exits.len(), 1);
    assert_eq!(out[2].channel, "aegis-exit");
    assert_eq!(out[2].payload, "");
}

#[test]
fn nothing_is_emitted_after_the_exit_event() {
    let events = vec![
        stdout_line("A"),
        StreamEvent::Terminated,
        stdout_line("B"),
        stderr_line("C"),
        StreamEvent::Terminated,
    ];
    let out = run_relay(ProcessKind::Simulator, &events);
    assert_eq!(out.len(), 2);
    assert_eq!(out[0].channel, "aegis-stdout");
    assert_eq!(out[0].payload, "A");
    assert_eq!(out[1].channel, "aegis-exit");
}

#[test]
fn agent_channels_carry_the_agent_prefix() {
    let events = vec![stdout_line("x"), stderr_line("y"), StreamEvent::Terminated];
    let out = run_relay(ProcessKind::Agent, &events);
    assert_eq!(out[0].channel, "agent-stdout");
    assert_eq!(out[1].channel, "agent-stderr");
    assert_eq!(out[2].channel, "agent-exit");
}

#[test]
fn unknown_stream_events_are_dropped() {
    let events = vec![StreamEvent::Other, stdout_line("A"), StreamEvent::Other];
    let out = run_relay(ProcessKind::Simulator, &events);
    assert_eq!(out.len(), 1);
    assert_eq!(out[0].payload, "A");
}

#[test]
fn terminated_mid_execution_emits_one_exit_then_silence() {
    // A killed agent: the relay sees the last partial output, then the
    // stream closes with the termination notification.
    let mut relay = OutputRelay::new(ProcessKind::Agent);
    let first = relay.step(&stdout_line("partial"));
    let first = first.unwrap();
    assert_eq!(first.channel, "agent-stdout");
    assert_eq!(first.payload, "partial");
    assert!(!relay.terminated);

    let exit = relay.step(&StreamEvent::Terminated).unwrap();
    assert_eq!(exit.channel, "agent-exit");
    assert_eq!(exit.payload, "");
    assert!(relay.terminated);

    // The relay stays silent whatever else arrives.
    assert!(relay.step(&stdout_line("late")).is_none());
    assert!(relay.step(&StreamEvent::Terminated).is_none());
    assert!(relay.step(&StreamEvent::Other).is_none());
}
