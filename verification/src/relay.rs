//! The output relay: turns a child process's stdio stream into
//! presentation-layer events.
//!
//! For every spawned process a relay runs for the lifetime of the process's
//! streams. Each line of standard output or standard error becomes one event
//! on a channel named after the process kind and the stream; the termination
//! notification becomes one exit event, after which the relay stays silent.
//! The relay itself is a pure state machine: the shell reads the child's
//! streams and feeds the events in, in the order the child produced them.

use vstd::prelude::*;

verus! {

/// The two kinds of supervised process.
#[derive(Clone, Copy, Debug, PartialEq, Eq, Structural)]
pub enum ProcessKind {
    Simulator,
    Agent,
}

/// One observation on a child process's combined event stream.
pub enum StreamEvent {
    StdoutLine(String),
    StderrLine(String),
    Terminated,
    Other,
}

/// One event handed to the presentation layer: a payload on a named channel.
pub struct Emission {
    pub channel: String,
    pub payload: String,
}

impl View for Emission {
    type V = (Seq<char>, Seq<char>);

    open spec fn view(&self) -> (Seq<char>, Seq<char>) {
        (self.channel@, self.payload@)
    }
}

/// The channel carrying a process kind's standard-output lines.
pub open spec fn stdout_channel(kind: ProcessKind) -> Seq<char> {
    match kind {
        ProcessKind::Simulator => "aegis-stdout"@,
        ProcessKind::Agent => "agent-stdout"@,
    }
}

/// The channel carrying a process kind's standard-error lines.
pub open spec fn stderr_channel(kind: ProcessKind) -> Seq<char> {
    match kind {
        ProcessKind::Simulator => "aegis-stderr"@,
        ProcessKind::Agent => "agent-stderr"@,
    }
}

/// The channel carrying a process kind's terminal event.
pub open spec fn exit_channel(kind: ProcessKind) -> Seq<char> {
    match kind {
        ProcessKind::Simulator => "aegis-exit"@,
        ProcessKind::Agent => "agent-exit"@,
    }
}

/// What one step of the relay emits: nothing once the terminal event has
/// passed, otherwise the event tagged with its channel; unknown stream
/// events are dropped.
pub open spec fn step_emission(kind: ProcessKind, terminated: bool, ev: StreamEvent) -> Option<
    (Seq<char>, Seq<char>),
> {
    if terminated {
        None
    } else {
        match ev {
            StreamEvent::StdoutLine(l) => Some((stdout_channel(kind), l@)),
            StreamEvent::StderrLine(l) => Some((stderr_channel(kind), l@)),
            StreamEvent::Terminated => Some((exit_channel(kind), Seq::<char>::empty())),
            StreamEvent::Other => None,
        }
    }
}

/// The relay's termination flag after one event.
pub open spec fn step_terminated(terminated: bool, ev: StreamEvent) -> bool {
    terminated || ev is Terminated
}

/// The relay's termination flag after a whole stream.
pub open spec fn terminated_after(terminated: bool, evs: Seq<StreamEvent>) -> bool
    decreases evs.len(),
{
    if evs.len() == 0 {
        terminated
    } else {
        terminated_after(step_terminated(terminated, evs[0]), evs.drop_first())
    }
}

/// Every emission the relay makes on a stream, in order: each event's
/// emission, if any, under the termination flag reached so far.
pub open spec fn relay_trace(kind: ProcessKind, terminated: bool, evs: Seq<StreamEvent>) -> Seq<
    (Seq<char>, Seq<char>),
>
    decreases evs.len(),
{
    if evs.len() == 0 {
        Seq::empty()
    } else {
        let rest = relay_trace(kind, step_terminated(terminated, evs[0]), evs.drop_first());
        match step_emission(kind, terminated, evs[0]) {
            Some(p) => seq![p] + rest,
            None => rest,
        }
    }
}

/// The payloads a trace carries on one channel, in order.
pub open spec fn payloads_on(ch: Seq<char>, tr: Seq<(Seq<char>, Seq<char>)>) -> Seq<Seq<char>>
    decreases tr.len(),
{
    if tr.len() == 0 {
        Seq::empty()
    } else if tr[0].0 == ch {
        seq![tr[0].1] + payloads_on(ch, tr.drop_first())
    } else {
        payloads_on(ch, tr.drop_first())
    }
}

/// The standard-output lines of a stream, in order.
pub open spec fn stdout_lines(evs: Seq<StreamEvent>) -> Seq<Seq<char>>
    decreases evs.len(),
{
    if evs.len() == 0 {
        Seq::empty()
    } else {
        match evs[0] {
            StreamEvent::StdoutLine(l) => seq![l@] + stdout_lines(evs.drop_first()),
            _ => stdout_lines(evs.drop_first()),
        }
    }
}

/// The standard-error lines of a stream, in order.
pub open spec fn stderr_lines(evs: Seq<StreamEvent>) -> Seq<Seq<char>>
    decreases evs.len(),
{
    if evs.len() == 0 {
        Seq::empty()
    } else {
        match evs[0] {
            StreamEvent::StderrLine(l) => seq![l@] + stderr_lines(evs.drop_first()),
            _ => stderr_lines(evs.drop_first()),
        }
    }
}

/// Whether a stream holds no termination notification.
pub open spec fn no_terminal(evs: Seq<StreamEvent>) -> bool {
    forall|i: int| 0 <= i < evs.len() ==> !((#[trigger] evs[i]) is Terminated)
}

/// The relay for one spawned process.
pub struct OutputRelay {
    pub kind: ProcessKind,
    pub terminated: bool,
}

/// The exit-channel name for `kind`, as an owned string.
fn exit_channel_string(kind: ProcessKind) -> (s: String)
    ensures
        s@ == exit_channel(kind),
{
    match kind {
        ProcessKind::Simulator => String::from_str("aegis-exit"),
        ProcessKind::Agent => String::from_str("agent-exit"),
    }
}

/// The stdout-channel name for `kind`, as an owned string.
fn stdout_channel_string(kind: ProcessKind) -> (s: String)
    ensures
        s@ == stdout_channel(kind),
{
    match kind {
        ProcessKind::Simulator => String::from_str("aegis-stdout"),
        ProcessKind::Agent => String::from_str("agent-stdout"),
    }
}

/// The stderr-channel name for `kind`, as an owned string.
fn stderr_channel_string(kind: ProcessKind) -> (s: String)
    ensures
        s@ == stderr_channel(kind),
{
    match kind {
        ProcessKind::Simulator => String::from_str("aegis-stderr"),
        ProcessKind::Agent => String::from_str("agent-stderr"),
    }
}

impl OutputRelay {
    /// The relay a fresh spawn starts: nothing emitted, not terminated.
    pub fn new(kind: ProcessKind) -> (r: Self)
        ensures
            r.kind == kind,
            !r.terminated,
    {
        OutputRelay { kind, terminated: false }
    }

    /// Handles one stream event: returns the emission the presentation
    /// layer receives, if any, exactly as `step_emission` states it.
    pub fn step(&mut self, ev: &StreamEvent) -> (em: Option<Emission>)
        ensures
            final(self).kind == old(self).kind,
            final(self).terminated == step_terminated(old(self).terminated, *ev),
            match em {
                Some(e) => step_emission(old(self).kind, old(self).terminated, *ev) == Some(e@),
                None => step_emission(old(self).kind, old(self).terminated, *ev) is None,
            },
    {
        if self.terminated {
            return None;
        }
        match ev {
            StreamEvent::StdoutLine(l) => Some(
                Emission {
                    channel: stdout_channel_string(self.kind),
                    payload: String::from_str(l.as_str()),
                },
            ),
            StreamEvent::StderrLine(l) => Some(
                Emission {
                    channel: stderr_channel_string(self.kind),
                    payload: String::from_str(l.as_str()),
                },
            ),
            StreamEvent::Terminated => {
                self.terminated = true;
                Some(Emission { channel: exit_channel_string(self.kind), payload: String::new() })
            },
            StreamEvent::Other => None,
        }
    }
}

/// Relays a whole recorded stream, emitting exactly the trace the
/// specification states.
pub fn run_relay(kind: ProcessKind, events: &Vec<StreamEvent>) -> (out: Vec<Emission>)
    ensures
        out@.map_values(|e: Emission| e@) == relay_trace(kind, false, events@),
{
    let mut relay = OutputRelay::new(kind);
    let mut out: Vec<Emission> = Vec::new();
    let mut i: usize = 0;
    proof {
        assert(events@.take(0) =~= Seq::<StreamEvent>::empty());
        assert(out@.map_values(|e: Emission| e@) =~= relay_trace(kind, false, events@.take(0)));
    }
    while i < events.len()
        invariant
            i <= events@.len(),
            relay.kind == kind,
            relay.terminated == terminated_after(false, events@.take(i as int)),
            out@.map_values(|e: Emission| e@) == relay_trace(kind, false, events@.take(i as int)),
        decreases events@.len() - i,
    {
        let ghost prefix = events@.take(i as int);
        let ghost ev = events@[i as int];
        let ghost before = out@;
        let em = relay.step(&events[i]);
        proof {
            lemma_terminated_snoc(false, prefix, ev);
            lemma_trace_snoc(kind, false, prefix, ev);
            assert(events@.take(i + 1) =~= prefix.push(ev));
        }
        match em {
            Some(e) => {
                out.push(e);
                proof {
                    assert(out@.map_values(|x: Emission| x@) =~= before.map_values(
                        |x: Emission| x@,
                    ).push(e@));
                    assert(relay_trace(kind, false, prefix.push(ev)) =~= relay_trace(
                        kind,
                        false,
                        prefix,
                    ).push(e@));
                }
            },
            None => {
                proof {
                    assert(relay_trace(kind, false, prefix.push(ev)) =~= relay_trace(
                        kind,
                        false,
                        prefix,
                    ));
                }
            },
        }
        i = i + 1;
    }
    proof {
        assert(events@.take(events@.len() as int) =~= events@);
    }
    out
}

/// Extending a stream by one event either leaves the flag, or sets it for a
/// termination notification.
pub proof fn lemma_terminated_snoc(t: bool, evs: Seq<StreamEvent>, e: StreamEvent)
    ensures
        terminated_after(t, evs.push(e)) == step_terminated(terminated_after(t, evs), e),
    decreases evs.len(),
{
    if evs.len() == 0 {
        assert(evs.push(e)[0] == e);
        assert(evs.push(e).drop_first() =~= Seq::<StreamEvent>::empty());
        assert(terminated_after(step_terminated(t, e), Seq::<StreamEvent>::empty())
            == step_terminated(t, e));
        assert(terminated_after(t, evs) == t);
    } else {
        assert(evs.push(e)[0] == evs[0]);
        assert(evs.push(e).drop_first() =~= evs.drop_first().push(e));
        lemma_terminated_snoc(step_terminated(t, evs[0]), evs.drop_first(), e);
        assert(terminated_after(t, evs) == terminated_after(
            step_terminated(t, evs[0]),
            evs.drop_first(),
        ));
    }
}

/// Extending a stream by one event appends exactly that event's emission,
/// if any, to the trace.
pub proof fn lemma_trace_snoc(kind: ProcessKind, t: bool, evs: Seq<StreamEvent>, e: StreamEvent)
    ensures
        relay_trace(kind, t, evs.push(e)) == match step_emission(
            kind,
            terminated_after(t, evs),
            e,
        ) {
            Some(p) => relay_trace(kind, t, evs).push(p),
            None => relay_trace(kind, t, evs),
        },
    decreases evs.len(),
{
    if evs.len() == 0 {
        assert(evs.push(e)[0] == e);
        assert(evs.push(e).drop_first() =~= Seq::<StreamEvent>::empty());
        assert(relay_trace(kind, step_terminated(t, e), Seq::<StreamEvent>::empty()) =~= Seq::<
            (Seq<char>, Seq<char>),
        >::empty());
        assert(relay_trace(kind, t, evs) =~= Seq::<(Seq<char>, Seq<char>)>::empty());
        assert(terminated_after(t, evs) == t);
        match step_emission(kind, t, e) {
            Some(p) => {
                assert(relay_trace(kind, t, evs.push(e)) =~= relay_trace(kind, t, evs).push(p));
            },
            None => {
                assert(relay_trace(kind, t, evs.push(e)) =~= relay_trace(kind, t, evs));
            },
        }
    } else {
        assert(evs.push(e)[0] == evs[0]);
        assert(evs.push(e).drop_first() =~= evs.drop_first().push(e));
        let t2 = step_terminated(t, evs[0]);
        lemma_trace_snoc(kind, t2, evs.drop_first(), e);
        assert(terminated_after(t, evs) == terminated_after(t2, evs.drop_first()));
        match step_emission(kind, terminated_after(t, evs), e) {
            Some(p) => {
                assert(relay_trace(kind, t, evs.push(e)) =~= relay_trace(kind, t, evs).push(p));
            },
            None => {
                assert(relay_trace(kind, t, evs.push(e)) =~= relay_trace(kind, t, evs));
            },
        }
    }
}

/// Appending one entry to a trace appends its payload on its own channel
/// and leaves every other channel's payloads unchanged.
pub proof fn lemma_payloads_snoc(
    ch: Seq<char>,
    tr: Seq<(Seq<char>, Seq<char>)>,
    p: (Seq<char>, Seq<char>),
)
    ensures
        payloads_on(ch, tr.push(p)) == if p.0 == ch {
            payloads_on(ch, tr).push(p.1)
        } else {
            payloads_on(ch, tr)
        },
    decreases tr.len(),
{
    if tr.len() == 0 {
        assert(tr.push(p)[0] == p);
        assert(tr.push(p).drop_first() =~= Seq::<(Seq<char>, Seq<char>)>::empty());
        assert(payloads_on(ch, Seq::<(Seq<char>, Seq<char>)>::empty()) =~= Seq::<Seq<char>>::empty());
        assert(payloads_on(ch, tr) =~= Seq::<Seq<char>>::empty());
        if p.0 == ch {
            assert(payloads_on(ch, tr.push(p)) =~= payloads_on(ch, tr).push(p.1));
        } else {
            assert(payloads_on(ch, tr.push(p)) =~= payloads_on(ch, tr));
        }
    } else {
        assert(tr.push(p)[0] == tr[0]);
        assert(tr.push(p).drop_first() =~= tr.drop_first().push(p));
        lemma_payloads_snoc(ch, tr.drop_first(), p);
        if p.0 == ch {
            assert(payloads_on(ch, tr.push(p)) =~= payloads_on(ch, tr).push(p.1));
        } else {
            assert(payloads_on(ch, tr.push(p)) =~= payloads_on(ch, tr));
        }
    }
}

/// The three channels of one process kind are pairwise distinct.
pub proof fn lemma_channels_distinct(kind: ProcessKind)
    ensures
        stdout_channel(kind) != stderr_channel(kind),
        stdout_channel(kind) != exit_channel(kind),
        stderr_channel(kind) != exit_channel(kind),
{
    reveal_strlit("aegis-stdout");
    reveal_strlit("aegis-stderr");
    reveal_strlit("aegis-exit");
    reveal_strlit("agent-stdout");
    reveal_strlit("agent-stderr");
    reveal_strlit("agent-exit");
    assert(stdout_channel(kind).len() == 12);
    assert(exit_channel(kind).len() == 10);
    assert(stdout_channel(kind)[9] == 'o');
    assert(stderr_channel(kind)[9] == 'e');
}

/// A stream without a termination notification never flips the flag.
pub proof fn lemma_no_terminal_flag(t: bool, evs: Seq<StreamEvent>)
    requires
        no_terminal(evs),
    ensures
        terminated_after(t, evs) == t,
    decreases evs.len(),
{
    if evs.len() > 0 {
        assert(!(evs[0] is Terminated));
        assert(forall|k: int|
            0 <= k < evs.drop_first().len() ==> evs.drop_first()[k] == evs[k + 1]);
        lemma_no_terminal_flag(t, evs.drop_first());
    }
}

/// Per-stream order: on a stream without a termination notification the
/// relay forwards the standard-output lines, in the order the child wrote
/// them, on the stdout channel, the standard-error lines likewise on the
/// stderr channel, and emits nothing on the exit channel.
pub proof fn lemma_relay_stream_order(kind: ProcessKind, evs: Seq<StreamEvent>)
    requires
        no_terminal(evs),
    ensures
        payloads_on(stdout_channel(kind), relay_trace(kind, false, evs)) == stdout_lines(evs),
        payloads_on(stderr_channel(kind), relay_trace(kind, false, evs)) == stderr_lines(evs),
        payloads_on(exit_channel(kind), relay_trace(kind, false, evs)) == Seq::<Seq<char>>::empty(),
    decreases evs.len(),
{
    lemma_channels_distinct(kind);
    if evs.len() == 0 {
    } else {
        assert(forall|k: int|
            0 <= k < evs.drop_first().len() ==> evs.drop_first()[k] == evs[k + 1]);
        lemma_relay_stream_order(kind, evs.drop_first());
        let rest = relay_trace(kind, false, evs.drop_first());
        match evs[0] {
            StreamEvent::StdoutLine(l) => {
                let p = (stdout_channel(kind), l@);
                assert(relay_trace(kind, false, evs) == seq![p] + rest);
                assert((seq![p] + rest)[0] == p);
                assert((seq![p] + rest).drop_first() =~= rest);
                assert(payloads_on(stdout_channel(kind), seq![p] + rest) =~= seq![l@]
                    + payloads_on(stdout_channel(kind), rest));
                assert(stdout_lines(evs) == seq![l@] + stdout_lines(evs.drop_first()));
            },
            StreamEvent::StderrLine(l) => {
                let p = (stderr_channel(kind), l@);
                assert(relay_trace(kind, false, evs) == seq![p] + rest);
                assert((seq![p] + rest)[0] == p);
                assert((seq![p] + rest).drop_first() =~= rest);
                assert(payloads_on(stderr_channel(kind), seq![p] + rest) =~= seq![l@]
                    + payloads_on(stderr_channel(kind), rest));
                assert(stderr_lines(evs) == seq![l@] + stderr_lines(evs.drop_first()));
            },
            StreamEvent::Terminated => {
                assert(false);
            },
            StreamEvent::Other => {
                assert(relay_trace(kind, false, evs) == rest);
            },
        }
    }
}

/// Once the terminal event has passed, the relay is silent: whatever trails
/// on the stream, nothing more is emitted.
pub proof fn lemma_relay_silent_after_exit(kind: ProcessKind, evs: Seq<StreamEvent>)
    ensures
        relay_trace(kind, true, evs) == Seq::<(Seq<char>, Seq<char>)>::empty(),
    decreases evs.len(),
{
    if evs.len() > 0 {
        lemma_relay_silent_after_exit(kind, evs.drop_first());
    }
}

/// Exactly one terminal event per process: a stream of output followed by
/// the termination notification yields the output's trace, then one exit
/// event as the very last emission; the exit channel carries exactly one
/// payload in the whole trace.
pub proof fn lemma_relay_exit_once(kind: ProcessKind, body: Seq<StreamEvent>)
    requires
        no_terminal(body),
    ensures
        relay_trace(kind, false, body.push(StreamEvent::Terminated)) == relay_trace(
            kind,
            false,
            body,
        ).push((exit_channel(kind), Seq::<char>::empty())),
        payloads_on(
            exit_channel(kind),
            relay_trace(kind, false, body.push(StreamEvent::Terminated)),
        ).len() == 1,
        relay_trace(kind, false, body.push(StreamEvent::Terminated)).last() == (
            exit_channel(kind),
            Seq::<char>::empty(),
        ),
{
    lemma_no_terminal_flag(false, body);
    lemma_trace_snoc(kind, false, body, StreamEvent::Terminated);
    lemma_relay_stream_order(kind, body);
    lemma_payloads_snoc(
        exit_channel(kind),
        relay_trace(kind, false, body),
        (exit_channel(kind), Seq::<char>::empty()),
    );
}

/// The full lifetime law: output, then the termination notification, then
/// whatever else the stream carries before it closes — the relay forwards
/// the output, emits the exit event once, and emits nothing afterwards.
pub proof fn lemma_relay_complete(kind: ProcessKind, body: Seq<StreamEvent>, tail: Seq<StreamEvent>)
    requires
        no_terminal(body),
    ensures
        relay_trace(kind, false, body.push(StreamEvent::Terminated) + tail) == relay_trace(
            kind,
            false,
            body,
        ).push((exit_channel(kind), Seq::<char>::empty())),
{
    let a = body.push(StreamEvent::Terminated);
    lemma_trace_append(kind, false, a, tail);
    lemma_no_terminal_flag(false, body);
    lemma_terminated_snoc(false, body, StreamEvent::Terminated);
    lemma_relay_silent_after_exit(kind, tail);
    lemma_relay_exit_once(kind, body);
    assert(relay_trace(kind, false, a + tail) =~= relay_trace(kind, false, a));
}

/// A trace splits at any cut of its stream: the part before, then the part
/// after under the flag the first part reached.
pub proof fn lemma_trace_append(
    kind: ProcessKind,
    t: bool,
    a: Seq<StreamEvent>,
    b: Seq<StreamEvent>,
)
    ensures
        relay_trace(kind, t, a + b) == relay_trace(kind, t, a) + relay_trace(
            kind,
            terminated_after(t, a),
            b,
        ),
    decreases a.len(),
{
    if a.len() == 0 {
        assert(a + b =~= b);
        assert(relay_trace(kind, t, a + b) =~= relay_trace(kind, t, a) + relay_trace(
            kind,
            terminated_after(t, a),
            b,
        ));
    } else {
        assert((a + b)[0] == a[0]);
        assert((a + b).drop_first() =~= a.drop_first() + b);
        let t2 = step_terminated(t, a[0]);
        lemma_trace_append(kind, t2, a.drop_first(), b);
        match step_emission(kind, t, a[0]) {
            Some(p) => {
                assert(relay_trace(kind, t, a + b) =~= relay_trace(kind, t, a) + relay_trace(
                    kind,
                    terminated_after(t, a),
                    b,
                ));
            },
            None => {
                assert(relay_trace(kind, t, a + b) =~= relay_trace(kind, t, a) + relay_trace(
                    kind,
                    terminated_after(t, a),
                    b,
                ));
            },
        }
    }
}

} // verus!
