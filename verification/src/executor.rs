//! The streaming run protocol and command-line construction.
//!
//! A run emits a sequence of stream events — one per complete stdout
//! line, cleaned of escape sequences — followed by exactly one
//! completion event, whose payload the exit status selects: the
//! cleaned stdout-derived text on success, the combined stdout and
//! stderr diagnostics on failure. [`RunSession`]
//! is the verified core of that protocol: the caller feeds it stdout
//! and stderr lines as they are read from the child's pipes and asks
//! it for the events to emit; its contract guarantees the ordering
//! (streams first, one terminal completion, nothing after it) and
//! the exact payloads. The I/O around it — spawning, pipe reading,
//! thread fan-out — performs no decision of its own.
//!
//! The module also builds the child's command line: the override
//! flags, the argument vector for a direct spawn, and the quoted
//! single-string form for the login-shell fallback.

use vstd::prelude::*;

use crate::sanitize::{strip_ansi_spec, strip_chars};
use crate::text::{chars_of, push_all, string_from_chars, views_of};
use crate::quote::shell_quote_spec;
use crate::quote::shell_quote;

verus! {

/// The channel a stream event was read from. Only standard output
/// is surfaced to consumers; standard error feeds the combined buffer alone.
#[derive(Clone, Copy, Debug, PartialEq, Eq, Structural)]
pub enum Channel {
    /// The child's standard output.
    Stdout,
    /// The child's standard error.
    Stderr,
}

/// An outward notification carrying one cleaned line of output.
#[derive(Debug)]
pub struct StreamEvent {
    /// The run this line belongs to.
    pub run_id: String,
    /// The channel the line was read from.
    pub channel: Channel,
    /// The cleaned line, newline included.
    pub data: String,
}

/// The single terminal notification of a run.
#[derive(Debug)]
pub struct CompletionEvent {
    /// The run that finished.
    pub run_id: String,
    /// Whether the child's exit status indicated success.
    pub ok: bool,
    /// The full cleaned stdout-derived output on success, or the
    /// full combined buffer (stdout and stderr) as the failure
    /// diagnostics otherwise.
    pub payload: String,
}

/// One event of a run's history, at the specification level.
pub enum EventRec {
    /// A stream event carrying one cleaned line.
    Stream { data: Seq<char> },
    /// The terminal completion event.
    Completion { ok: bool, payload: Seq<char> },
}

/// The abstract state of one run: the stdout-derived text, the
/// combined buffer, the events emitted so far, and whether the run
/// has completed.
pub struct SessionModel {
    /// The cleaned stdout lines alone: the payload of a successful
    /// completion.
    pub stdout_buffer: Seq<char>,
    /// All cleaned text appended so far, stdout and stderr in the
    /// order observed: the failure diagnostics.
    pub combined_buffer: Seq<char>,
    /// The events emitted so far, in order.
    pub history: Seq<EventRec>,
    /// Whether the completion event has been emitted.
    pub completed: bool,
}

/// A cleaned line as it enters the buffers and the stream event:
/// escapes stripped, newline restored.
pub open spec fn cleaned_line(line: Seq<char>) -> Seq<char> {
    strip_ansi_spec(line).push('\n')
}

/// The state of a run before anything happened.
pub open spec fn fresh_model() -> SessionModel {
    SessionModel {
        stdout_buffer: Seq::empty(),
        combined_buffer: Seq::empty(),
        history: Seq::empty(),
        completed: false,
    }
}

/// One stdout line: the cleaned line joins both buffers and a
/// stream event is emitted.
pub open spec fn feed_stdout(m: SessionModel, line: Seq<char>) -> SessionModel {
    SessionModel {
        stdout_buffer: m.stdout_buffer + cleaned_line(line),
        combined_buffer: m.combined_buffer + cleaned_line(line),
        history: m.history.push(EventRec::Stream { data: cleaned_line(line) }),
        completed: m.completed,
    }
}

/// One stderr line: the cleaned line joins the combined buffer
/// only, and no event is emitted — stderr surfaces solely inside a
/// failure payload.
pub open spec fn feed_stderr(m: SessionModel, line: Seq<char>) -> SessionModel {
    SessionModel {
        stdout_buffer: m.stdout_buffer,
        combined_buffer: m.combined_buffer + cleaned_line(line),
        history: m.history,
        completed: m.completed,
    }
}

/// The payload of the terminal event: the stdout-derived text on
/// success, the full combined buffer on failure.
pub open spec fn completion_payload(m: SessionModel, exit_ok: bool) -> Seq<char> {
    if exit_ok {
        m.stdout_buffer
    } else {
        m.combined_buffer
    }
}

/// Completion: the terminal event carries the status-selected
/// payload and the session is closed.
pub open spec fn complete_model(m: SessionModel, exit_ok: bool) -> SessionModel {
    SessionModel {
        stdout_buffer: m.stdout_buffer,
        combined_buffer: m.combined_buffer,
        history: m.history.push(
            EventRec::Completion { ok: exit_ok, payload: completion_payload(m, exit_ok) },
        ),
        completed: true,
    }
}

/// A whole sequence of stdout lines, fed in order.
pub open spec fn feed_stdout_all(m: SessionModel, lines: Seq<Seq<char>>) -> SessionModel
    decreases lines.len(),
{
    if lines.len() == 0 {
        m
    } else {
        feed_stdout_all(feed_stdout(m, lines[0]), lines.drop_first())
    }
}

/// The concatenation of the cleaned forms of `lines`.
pub open spec fn concat_cleaned(lines: Seq<Seq<char>>) -> Seq<char>
    decreases lines.len(),
{
    if lines.len() == 0 {
        Seq::empty()
    } else {
        cleaned_line(lines[0]) + concat_cleaned(lines.drop_first())
    }
}

/// A well-formed history: everything before the last event is a
/// stream event, and the run is completed exactly when a completion
/// event stands at the end.
pub open spec fn history_wf(h: Seq<EventRec>, completed: bool) -> bool {
    &&& forall|i: int| 0 <= i < h.len() - 1 ==> h[i] is Stream
    &&& completed <==> (h.len() > 0 && h.last() is Completion)
}

/// The verified per-run aggregator: owns the run's output buffers
/// and produces the events the caller emits.
pub struct RunSession {
    run_id: String,
    stdout_buffer: Vec<char>,
    combined_buffer: Vec<char>,
    completed: bool,
    history: Ghost<Seq<EventRec>>,
}

impl RunSession {
    /// The abstract state of this session.
    pub closed spec fn model(&self) -> SessionModel {
        SessionModel {
            stdout_buffer: self.stdout_buffer@,
            combined_buffer: self.combined_buffer@,
            history: self.history@,
            completed: self.completed,
        }
    }

    /// The run id this session was opened for.
    pub closed spec fn run_id_spec(&self) -> Seq<char> {
        self.run_id@
    }

    /// Whether the completion event has already been produced.
    pub open spec fn is_completed(&self) -> bool {
        self.model().completed
    }

    /// The session's history is a well-formed event sequence.
    pub open spec fn wf(&self) -> bool {
        history_wf(self.model().history, self.model().completed)
    }

    /// Opens a session for `run_id`: empty buffer, no events yet.
    pub fn new(run_id: String) -> (s: Self)
        ensures
            s.wf(),
            s.run_id_spec() == run_id@,
            s.model() == fresh_model(),
    {
        let s = RunSession {
            run_id,
            stdout_buffer: Vec::new(),
            combined_buffer: Vec::new(),
            completed: false,
            history: Ghost(Seq::empty()),
        };
        proof {
            assert(s.model() =~= fresh_model());
        }
        s
    }

    /// Whether the completion event has already been produced; once
    /// it has, the session accepts no further lines.
    pub fn completed(&self) -> (r: bool)
        ensures
            r == self.is_completed(),
    {
        self.completed
    }

    /// One complete line read from the child's stdout: cleans it,
    /// appends it (newline restored) to both buffers, and returns
    /// the stream event to emit.
    pub fn on_stdout_line(&mut self, line: &str) -> (ev: StreamEvent)
        requires
            old(self).wf(),
            !old(self).is_completed(),
        ensures
            final(self).wf(),
            !final(self).is_completed(),
            final(self).run_id_spec() == old(self).run_id_spec(),
            final(self).model() == feed_stdout(old(self).model(), line@),
            ev.run_id@ == old(self).run_id_spec(),
            ev.channel == Channel::Stdout,
            ev.data@ == cleaned_line(line@),
    {
        let line_chars = chars_of(line);
        let mut cleaned = strip_chars(&line_chars);
        cleaned.push('\n');
        push_all(&mut self.stdout_buffer, &cleaned);
        push_all(&mut self.combined_buffer, &cleaned);
        let data = string_from_chars(&cleaned);
        proof {
            assert(self.history@.len() == 0 || self.history@.last() is Stream);
        }
        self.history = Ghost(self.history@.push(EventRec::Stream { data: cleaned@ }));
        let ev = StreamEvent { run_id: self.run_id.clone(), channel: Channel::Stdout, data };
        proof {
            assert(self.model() =~= feed_stdout(old(self).model(), line@));
        }
        ev
    }

    /// One complete line read from the child's stderr: cleans it and
    /// appends it to the combined buffer; no event is emitted.
    pub fn on_stderr_line(&mut self, line: &str)
        requires
            old(self).wf(),
            !old(self).is_completed(),
        ensures
            final(self).wf(),
            !final(self).is_completed(),
            final(self).run_id_spec() == old(self).run_id_spec(),
            final(self).model() == feed_stderr(old(self).model(), line@),
    {
        let line_chars = chars_of(line);
        let mut cleaned = strip_chars(&line_chars);
        cleaned.push('\n');
        push_all(&mut self.combined_buffer, &cleaned);
        proof {
            assert(self.model() =~= feed_stderr(old(self).model(), line@));
        }
    }

    /// Closes the session once the child has exited and both readers
    /// have drained: returns the single completion event, carrying
    /// the child's success status and the status-selected payload —
    /// the cleaned stdout-derived text on success, the full combined
    /// buffer as failure diagnostics otherwise.
    pub fn complete(&mut self, exit_ok: bool) -> (ev: CompletionEvent)
        requires
            old(self).wf(),
            !old(self).is_completed(),
        ensures
            final(self).wf(),
            final(self).is_completed(),
            final(self).run_id_spec() == old(self).run_id_spec(),
            final(self).model() == complete_model(old(self).model(), exit_ok),
            ev.run_id@ == old(self).run_id_spec(),
            ev.ok == exit_ok,
            ev.payload@ == completion_payload(old(self).model(), exit_ok),
    {
        let payload = if exit_ok {
            string_from_chars(&self.stdout_buffer)
        } else {
            string_from_chars(&self.combined_buffer)
        };
        self.completed = true;
        proof {
            assert(self.history@.len() == 0 || self.history@.last() is Stream);
        }
        self.history = Ghost(self.history@.push(
            EventRec::Completion { ok: exit_ok, payload: payload@ },
        ));
        let ev = CompletionEvent { run_id: self.run_id.clone(), ok: exit_ok, payload };
        proof {
            assert(self.model() =~= complete_model(old(self).model(), exit_ok));
        }
        ev
    }
}

proof fn lemma_feed_stdout_all(m: SessionModel, lines: Seq<Seq<char>>)
    ensures
        feed_stdout_all(m, lines).stdout_buffer == m.stdout_buffer + concat_cleaned(lines),
        feed_stdout_all(m, lines).combined_buffer == m.combined_buffer + concat_cleaned(lines),
        feed_stdout_all(m, lines).history.len() == m.history.len() + lines.len(),
        forall|i: int|
            0 <= i < m.history.len() ==> #[trigger] feed_stdout_all(m, lines).history[i]
                == m.history[i],
        forall|i: int|
            0 <= i < lines.len() ==> #[trigger] feed_stdout_all(m, lines).history[m.history.len()
                + i] == (EventRec::Stream { data: cleaned_line(lines[i]) }),
        feed_stdout_all(m, lines).completed == m.completed,
    decreases lines.len(),
{
    if lines.len() == 0 {
        assert(concat_cleaned(lines) == Seq::<char>::empty());
        assert(m.stdout_buffer + concat_cleaned(lines) =~= m.stdout_buffer);
        assert(m.combined_buffer + concat_cleaned(lines) =~= m.combined_buffer);
    } else {
        let m1 = feed_stdout(m, lines[0]);
        lemma_feed_stdout_all(m1, lines.drop_first());
        let r = feed_stdout_all(m, lines);
        assert(r == feed_stdout_all(m1, lines.drop_first()));
        assert(r.stdout_buffer == m1.stdout_buffer + concat_cleaned(lines.drop_first()));
        assert(r.stdout_buffer =~= m.stdout_buffer + concat_cleaned(lines));
        assert(r.combined_buffer == m1.combined_buffer + concat_cleaned(lines.drop_first()));
        assert(r.combined_buffer =~= m.combined_buffer + concat_cleaned(lines));
        assert(m1.history.len() == m.history.len() + 1);
        assert forall|i: int| 0 <= i < lines.len() implies #[trigger] r.history[m.history.len() + i]
            == (EventRec::Stream { data: cleaned_line(lines[i]) }) by {
            if i == 0 {
                assert(r.history[m1.history.len() - 1] == m1.history[m1.history.len() - 1]);
                assert(m1.history.last() == (EventRec::Stream { data: cleaned_line(lines[0]) }));
            } else {
                assert(r.history[m1.history.len() + (i - 1)] == (EventRec::Stream {
                    data: cleaned_line(lines.drop_first()[i - 1]),
                }));
                assert(lines.drop_first()[i - 1] == lines[i]);
            }
        }
    }
}

/// A run's completion event is terminal and unique: after a run that
/// streamed any number of lines completes, the history holds exactly
/// those stream events, in order, followed by one completion event
/// carrying the exit status — and nothing after it.
pub proof fn lemma_completion_exactly_once(lines: Seq<Seq<char>>, exit_ok: bool)
    ensures
        ({
            let m = complete_model(feed_stdout_all(fresh_model(), lines), exit_ok);
            &&& m.history.len() == lines.len() + 1
            &&& forall|i: int|
                0 <= i < lines.len() ==> #[trigger] m.history[i] == (EventRec::Stream {
                    data: cleaned_line(lines[i]),
                })
            &&& m.history.last() == (EventRec::Completion {
                ok: exit_ok,
                payload: concat_cleaned(lines),
            })
            &&& history_wf(m.history, m.completed)
        }),
{
    lemma_feed_stdout_all(fresh_model(), lines);
    let f = feed_stdout_all(fresh_model(), lines);
    assert(f.stdout_buffer =~= concat_cleaned(lines));
    assert(f.combined_buffer =~= concat_cleaned(lines));
    let m = complete_model(f, exit_ok);
    assert forall|i: int| 0 <= i < lines.len() implies #[trigger] m.history[i] == (EventRec::Stream {
        data: cleaned_line(lines[i]),
    }) by {
        assert(m.history[i] == f.history[i]);
        assert(f.history[0 + i] == (EventRec::Stream { data: cleaned_line(lines[i]) }));
    }
}

/// A failing run loses nothing: after `N` complete lines and a
/// non-success exit, exactly `N` stream events precede the single
/// `ok = false` completion event, and its error payload is the
/// concatenation of all `N` cleaned lines.
pub proof fn lemma_failure_payload_holds_all_lines(lines: Seq<Seq<char>>)
    ensures
        ({
            let m = complete_model(feed_stdout_all(fresh_model(), lines), false);
            &&& m.history.len() == lines.len() + 1
            &&& forall|i: int|
                0 <= i < lines.len() ==> #[trigger] m.history[i] == (EventRec::Stream {
                    data: cleaned_line(lines[i]),
                })
            &&& m.history[lines.len() as int] == (EventRec::Completion {
                ok: false,
                payload: concat_cleaned(lines),
            })
        }),
{
    lemma_completion_exactly_once(lines, false);
}

/// One observed line, tagged with the channel it was read from.
pub open spec fn feed_line(m: SessionModel, ch: Channel, line: Seq<char>) -> SessionModel {
    match ch {
        Channel::Stdout => feed_stdout(m, line),
        Channel::Stderr => feed_stderr(m, line),
    }
}

/// A whole run's worth of lines, stdout and stderr interleaved in
/// the order observed.
pub open spec fn feed_all(m: SessionModel, entries: Seq<(Channel, Seq<char>)>) -> SessionModel
    decreases entries.len(),
{
    if entries.len() == 0 {
        m
    } else {
        feed_all(feed_line(m, entries[0].0, entries[0].1), entries.drop_first())
    }
}

/// The stdout lines among an interleaving, in order.
pub open spec fn stdout_lines(entries: Seq<(Channel, Seq<char>)>) -> Seq<Seq<char>>
    decreases entries.len(),
{
    if entries.len() == 0 {
        Seq::empty()
    } else {
        (if entries[0].0 is Stdout {
            seq![entries[0].1]
        } else {
            Seq::<Seq<char>>::empty()
        }) + stdout_lines(entries.drop_first())
    }
}

/// The concatenation of the cleaned forms of every line of an
/// interleaving, both channels, in order.
pub open spec fn concat_entries(entries: Seq<(Channel, Seq<char>)>) -> Seq<char>
    decreases entries.len(),
{
    if entries.len() == 0 {
        Seq::empty()
    } else {
        cleaned_line(entries[0].1) + concat_entries(entries.drop_first())
    }
}

/// The stream events a sequence of stdout lines gives rise to.
pub open spec fn stream_events(lines: Seq<Seq<char>>) -> Seq<EventRec>
    decreases lines.len(),
{
    if lines.len() == 0 {
        Seq::empty()
    } else {
        seq![EventRec::Stream { data: cleaned_line(lines[0]) }] + stream_events(lines.drop_first())
    }
}

proof fn lemma_stream_events_are_streams(lines: Seq<Seq<char>>)
    ensures
        stream_events(lines).len() == lines.len(),
        forall|i: int|
            0 <= i < lines.len() ==> #[trigger] stream_events(lines)[i] is Stream,
    decreases lines.len(),
{
    if lines.len() > 0 {
        lemma_stream_events_are_streams(lines.drop_first());
    }
}

proof fn lemma_feed_all(m: SessionModel, entries: Seq<(Channel, Seq<char>)>)
    ensures
        feed_all(m, entries).stdout_buffer == m.stdout_buffer + concat_cleaned(
            stdout_lines(entries),
        ),
        feed_all(m, entries).combined_buffer == m.combined_buffer + concat_entries(entries),
        feed_all(m, entries).history == m.history + stream_events(stdout_lines(entries)),
        feed_all(m, entries).completed == m.completed,
    decreases entries.len(),
{
    if entries.len() == 0 {
        assert(m.stdout_buffer + concat_cleaned(stdout_lines(entries)) =~= m.stdout_buffer);
        assert(m.combined_buffer + concat_entries(entries) =~= m.combined_buffer);
        assert(m.history + stream_events(stdout_lines(entries)) =~= m.history);
    } else {
        let ch = entries[0].0;
        let l = entries[0].1;
        let rest = entries.drop_first();
        let m1 = feed_line(m, ch, l);
        lemma_feed_all(m1, rest);
        let r = feed_all(m, entries);
        assert(r == feed_all(m1, rest));
        match ch {
            Channel::Stdout => {
                let sl = stdout_lines(entries);
                assert(sl =~= seq![l] + stdout_lines(rest));
                assert(sl[0] == l);
                assert(sl.drop_first() =~= stdout_lines(rest));
                assert(concat_cleaned(sl) == cleaned_line(l) + concat_cleaned(stdout_lines(rest)));
                assert(r.stdout_buffer =~= m.stdout_buffer + concat_cleaned(sl));
                assert(r.combined_buffer =~= m.combined_buffer + concat_entries(entries));
                assert(stream_events(sl) == seq![EventRec::Stream { data: cleaned_line(l) }]
                    + stream_events(stdout_lines(rest)));
                assert(r.history =~= m.history + stream_events(sl));
            },
            Channel::Stderr => {
                assert(stdout_lines(entries) =~= stdout_lines(rest));
                assert(r.stdout_buffer =~= m.stdout_buffer + concat_cleaned(stdout_lines(entries)));
                assert(r.combined_buffer =~= m.combined_buffer + concat_entries(entries));
                assert(r.history =~= m.history + stream_events(stdout_lines(entries)));
            },
        }
    }
}

/// The completion payload is selected by the exit status: after any
/// interleaving of stdout and stderr lines, the run's history is
/// exactly the stream events of the stdout lines, in order, closed
/// by the single completion event — whose payload is the cleaned
/// stdout-derived text when the run succeeded, and the full combined
/// buffer, stderr included, when it failed. Stderr text never
/// reaches a successful completion.
pub proof fn lemma_completion_payload_by_status(
    entries: Seq<(Channel, Seq<char>)>,
    exit_ok: bool,
)
    ensures
        ({
            let m = complete_model(feed_all(fresh_model(), entries), exit_ok);
            &&& m.history == stream_events(stdout_lines(entries)).push(
                EventRec::Completion {
                    ok: exit_ok,
                    payload: if exit_ok {
                        concat_cleaned(stdout_lines(entries))
                    } else {
                        concat_entries(entries)
                    },
                },
            )
            &&& history_wf(m.history, m.completed)
        }),
{
    lemma_feed_all(fresh_model(), entries);
    let f = feed_all(fresh_model(), entries);
    assert(f.stdout_buffer =~= concat_cleaned(stdout_lines(entries)));
    assert(f.combined_buffer =~= concat_entries(entries));
    assert(f.history =~= stream_events(stdout_lines(entries)));
    lemma_stream_events_are_streams(stdout_lines(entries));
    let m = complete_model(f, exit_ok);
    assert(m.history =~= stream_events(stdout_lines(entries)).push(
        EventRec::Completion {
            ok: exit_ok,
            payload: if exit_ok {
                concat_cleaned(stdout_lines(entries))
            } else {
                concat_entries(entries)
            },
        },
    ));
}

/// The flag pair for one configuration override: `-c key=value`.
pub open spec fn config_flag_pair(k: Seq<char>, v: Seq<char>) -> Seq<Seq<char>> {
    seq!["-c"@, k + seq!['='] + v]
}

/// The flags rendered for a sequence of configuration overrides, in
/// the order given.
pub open spec fn config_flags_spec(pairs: Seq<(String, String)>) -> Seq<Seq<char>>
    decreases pairs.len(),
{
    if pairs.len() == 0 {
        Seq::empty()
    } else {
        config_flag_pair(pairs[0].0@, pairs[0].1@) + config_flags_spec(pairs.drop_first())
    }
}

/// All pre-flags of a run: the model selection, if any, followed by
/// one `-c key=value` pair per override.
pub open spec fn override_flags_spec(model: Option<String>, pairs: Seq<(String, String)>) -> Seq<
    Seq<char>,
> {
    (match model {
        Some(m) => seq!["--model"@, m@],
        None => Seq::empty(),
    }) + config_flags_spec(pairs)
}

proof fn lemma_config_flags_push(pairs: Seq<(String, String)>, p: (String, String))
    ensures
        config_flags_spec(pairs.push(p)) == config_flags_spec(pairs) + config_flag_pair(p.0@, p.1@),
    decreases pairs.len(),
{
    if pairs.len() == 0 {
        assert(pairs.push(p)[0] == p);
        assert(pairs.push(p).drop_first() =~= Seq::<(String, String)>::empty());
        assert(config_flags_spec(Seq::<(String, String)>::empty()) == Seq::<Seq<char>>::empty());
        assert(config_flags_spec(pairs.push(p)) =~= config_flags_spec(pairs) + config_flag_pair(
            p.0@,
            p.1@,
        ));
    } else {
        assert(pairs.push(p)[0] == pairs[0]);
        assert(pairs.push(p).drop_first() =~= pairs.drop_first().push(p));
        lemma_config_flags_push(pairs.drop_first(), p);
        assert(config_flags_spec(pairs.push(p)) == config_flag_pair(pairs[0].0@, pairs[0].1@)
            + config_flags_spec(pairs.drop_first().push(p)));
        assert(config_flags_spec(pairs.push(p)) =~= config_flags_spec(pairs) + config_flag_pair(
            p.0@,
            p.1@,
        ));
    }
}

/// Renders the model and override flags for a run: `--model <m>`
/// when a model is chosen, then `-c key=value` for each override,
/// in the order the pairs are given.
pub fn build_override_flags(model: &Option<String>, overrides: &Vec<(String, String)>) -> (r: Vec<
    String,
>)
    ensures
        views_of(r@) == override_flags_spec(*model, overrides@),
{
    let mut out: Vec<String> = Vec::new();
    match model {
        Some(m) => {
            out.push("--model".to_owned());
            out.push(m.clone());
        },
        None => {},
    }
    let ghost head: Seq<Seq<char>> = match model {
        Some(m) => seq!["--model"@, m@],
        None => Seq::empty(),
    };
    proof {
        assert(views_of(out@) =~= head + config_flags_spec(overrides@.take(0)));
    }
    let n = overrides.len();
    let mut i: usize = 0;
    while i < n
        invariant
            n == overrides@.len(),
            i <= n,
            views_of(out@) == head + config_flags_spec(overrides@.take(i as int)),
        decreases n - i,
    {
        let ghost out0 = out@;
        out.push("-c".to_owned());
        let mut kv = overrides[i].0.clone();
        kv.append("=");
        kv.append(overrides[i].1.as_str());
        out.push(kv);
        proof {
            reveal_strlit("=");
            assert("="@ =~= seq!['=']);
            assert(views_of(out@) =~= views_of(out0) + config_flag_pair(
                overrides@[i as int].0@,
                overrides@[i as int].1@,
            ));
            assert(overrides@.take(i as int + 1) =~= overrides@.take(i as int).push(
                overrides@[i as int],
            ));
            lemma_config_flags_push(overrides@.take(i as int), overrides@[i as int]);
            assert(views_of(out@) =~= head + config_flags_spec(overrides@.take(i as int + 1)));
        }
        i = i + 1;
    }
    proof {
        assert(overrides@.take(n as int) =~= overrides@);
        assert(views_of(out@) =~= override_flags_spec(*model, overrides@));
    }
    out
}

/// How the prompt reaches the child: written to its standard input
/// and closed, or passed as the trailing command-line argument.
/// Stdin delivery avoids argument-length ceilings and is the default;
/// the choice is configuration, not size detection.
#[derive(Clone, Copy, Debug, PartialEq, Eq, Structural)]
pub enum InputDelivery {
    /// Write the prompt to the child's stdin, then close it.
    Stdin,
    /// Append the prompt as the final command-line argument.
    TrailingArg,
}

/// The argument vector of an execute-mode run: the fixed subcommand
/// marker, the pre-flags, and — only under trailing-argument
/// delivery — the prompt itself.
pub open spec fn exec_args_spec(
    flags: Seq<Seq<char>>,
    delivery: InputDelivery,
    prompt: Seq<char>,
) -> Seq<Seq<char>> {
    seq!["exec"@, "--skip-git-repo-check"@] + flags + (if delivery is TrailingArg {
        seq![prompt]
    } else {
        Seq::<Seq<char>>::empty()
    })
}

/// Builds the argument vector for a direct spawn of an execute-mode
/// run. Consumes the pre-flags built by [`build_override_flags`].
pub fn build_exec_args(flags: Vec<String>, delivery: InputDelivery, prompt: &str) -> (r: Vec<
    String,
>)
    ensures
        views_of(r@) == exec_args_spec(views_of(flags@), delivery, prompt@),
{
    let ghost flags0 = flags@;
    let mut out: Vec<String> = Vec::new();
    out.push("exec".to_owned());
    out.push("--skip-git-repo-check".to_owned());
    let mut rest = flags;
    out.append(&mut rest);
    match delivery {
        InputDelivery::TrailingArg => {
            out.push(prompt.to_owned());
            proof {
                assert(views_of(out@) =~= exec_args_spec(views_of(flags0), delivery, prompt@));
            }
        },
        InputDelivery::Stdin => {
            proof {
                assert(views_of(out@) =~= exec_args_spec(views_of(flags0), delivery, prompt@));
            }
        },
    }
    out
}

/// The tail of a shell command line: each argument quoted and
/// preceded by a space.
pub open spec fn quoted_args_tail(args: Seq<Seq<char>>) -> Seq<char>
    decreases args.len(),
{
    if args.len() == 0 {
        Seq::empty()
    } else {
        seq![' '] + shell_quote_spec(args[0]) + quoted_args_tail(args.drop_first())
    }
}

/// A whole command assembled as one shell-interpreted string: the
/// quoted tool name followed by each argument, quoted.
pub open spec fn shell_cmdline_spec(tool: Seq<char>, args: Seq<Seq<char>>) -> Seq<char> {
    shell_quote_spec(tool) + quoted_args_tail(args)
}

proof fn lemma_quoted_args_push(args: Seq<Seq<char>>, a: Seq<char>)
    ensures
        quoted_args_tail(args.push(a)) == quoted_args_tail(args) + seq![' '] + shell_quote_spec(a),
    decreases args.len(),
{
    if args.len() == 0 {
        assert(args.push(a)[0] == a);
        assert(args.push(a).drop_first() =~= Seq::<Seq<char>>::empty());
        assert(quoted_args_tail(Seq::<Seq<char>>::empty()) == Seq::<char>::empty());
        assert(quoted_args_tail(args.push(a)) =~= quoted_args_tail(args) + seq![' ']
            + shell_quote_spec(a));
    } else {
        assert(args.push(a)[0] == args[0]);
        assert(args.push(a).drop_first() =~= args.drop_first().push(a));
        lemma_quoted_args_push(args.drop_first(), a);
        assert(quoted_args_tail(args.push(a)) == seq![' '] + shell_quote_spec(args[0])
            + quoted_args_tail(args.drop_first().push(a)));
        assert(quoted_args_tail(args.push(a)) =~= quoted_args_tail(args) + seq![' ']
            + shell_quote_spec(a));
    }
}

/// Assembles the command as a single shell-interpreted string for
/// the login-shell fallback path: the tool and every argument are
/// single-quote escaped, so the shell reads each back literally.
pub fn build_shell_cmdline(tool: &str, args: &Vec<String>) -> (r: String)
    ensures
        r@ == shell_cmdline_spec(tool@, views_of(args@)),
{
    let mut out = shell_quote(tool);
    proof {
        assert(views_of(args@.take(0)) =~= Seq::<Seq<char>>::empty());
        assert(out@ =~= shell_cmdline_spec(tool@, views_of(args@.take(0))));
    }
    let n = args.len();
    let mut i: usize = 0;
    while i < n
        invariant
            n == args@.len(),
            i <= n,
            out@ == shell_cmdline_spec(tool@, views_of(args@.take(i as int))),
        decreases n - i,
    {
        let ghost out0 = out@;
        out.append(" ");
        let q = shell_quote(args[i].as_str());
        out.append(q.as_str());
        proof {
            reveal_strlit(" ");
            assert(" "@ =~= seq![' ']);
            assert(out@ =~= out0 + seq![' '] + shell_quote_spec(args@[i as int]@));
            assert(views_of(args@.take(i as int + 1)) =~= views_of(args@.take(i as int)).push(
                args@[i as int]@,
            ));
            lemma_quoted_args_push(views_of(args@.take(i as int)), args@[i as int]@);
            assert(out@ =~= shell_cmdline_spec(tool@, views_of(args@.take(i as int + 1))));
        }
        i = i + 1;
    }
    proof {
        assert(args@.take(n as int) =~= args@);
        assert(views_of(args@.take(n as int)) =~= views_of(args@));
    }
    out
}

/// The login-mode command as a single shell-interpreted string:
/// the quoted tool name and the fixed `login` subcommand.
pub fn build_login_shell_cmdline(tool: &str) -> (r: String)
    ensures
        r@ == shell_cmdline_spec(tool@, seq!["login"@]),
{
    let mut args: Vec<String> = Vec::new();
    args.push("login".to_owned());
    let r = build_shell_cmdline(tool, &args);
    proof {
        assert(views_of(args@) =~= seq!["login"@]);
    }
    r
}

/// The working directory actually applied to a spawn: the
/// caller-supplied path only when it exists and is a directory;
/// otherwise the spawn proceeds in the orchestrator's own working
/// directory. The caller passes the probed `cwd_is_dir` fact.
pub fn effective_cwd(cwd: Option<String>, cwd_is_dir: bool) -> (r: Option<String>)
    ensures
        r == (if cwd is Some && cwd_is_dir {
            cwd
        } else {
            None::<String>
        }),
{
    match cwd {
        Some(d) => {
            if cwd_is_dir {
                Some(d)
            } else {
                None
            }
        },
        None => None,
    }
}

} // verus!
