//! The protocol as two state machines: the handshake, and the batch of
//! searches. Each takes what the engine sent and answers with the commands
//! to send and with what to do next. Whoever owns the engine process
//! performs both; nothing here touches a process or a stream.

use crate::engine_result::{EngineResult, EngineResultView};
use crate::fens::{Fens, FensView};
use crate::protocol::{
    after_info, apply_info_line, best_move, blank, classify_line, go_command, go_text,
    handshake_command, line_kind, parse_best_move, position_command, position_text,
    threads_command, threads_text, LineKind, Telemetry, TelemetryView,
};
use crate::text::{starts_with, text_eq, to_chars};
use vstd::arithmetic::div_mod::lemma_add_mod_noop_right;
use vstd::prelude::*;

verus! {

/// Why a session with the engine ended early.
#[derive(Clone, Copy, Debug, PartialEq, Eq, Structural)]
pub enum DriverError {
    /// The engine could not be started, or one of its pipes could not be had.
    StartError,
    /// A command could not be written to the engine.
    IOError,
    /// The engine closed its output before the line that was waited for.
    StreamClosed,
}

impl DriverError {
    /// A sentence that says what went wrong.
    pub fn describe(&self) -> (text: String)
        ensures
            text@ == match *self {
                DriverError::StartError => "Failed to start engine"@,
                DriverError::IOError => "Failed to write to engine"@,
                DriverError::StreamClosed => "Engine process closed output"@,
            },
    {
        match self {
            DriverError::StartError => String::from_str("Failed to start engine"),
            DriverError::IOError => String::from_str("Failed to write to engine"),
            DriverError::StreamClosed => String::from_str("Engine process closed output"),
        }
    }
}

/// A command as it goes to the engine: the text and a line feed.
pub fn outgoing(command: &str) -> (wire: String)
    ensures
        wire@ == command@ + "\n"@,
{
    let mut wire = String::from_str(command);
    wire.append("\n");
    wire
}

/// `raw` without its line terminator: where `raw` ends in a line feed, the
/// line feed goes, and with it a carriage return that stands directly
/// before it. Nothing else goes: blanks at the end of the line stay.
pub open spec fn without_terminator(raw: Seq<char>) -> Seq<char> {
    if raw.len() > 0 && raw.last() == '\n' {
        let line = raw.drop_last();
        if line.len() > 0 && line.last() == '\r' {
            line.drop_last()
        } else {
            line
        }
    } else {
        raw
    }
}

/// A line as it came from the engine. `raw` is what one read up to and with
/// the line feed gave; nothing at all means that the engine closed its
/// output. The line is `raw` without its line terminator.
pub fn incoming(raw: &str) -> (line: Result<String, DriverError>)
    ensures
        match line {
            Ok(l) => raw@.len() > 0 && l@ == without_terminator(raw@),
            Err(e) => raw@.len() == 0 && e == DriverError::StreamClosed,
        },
{
    let chars = to_chars(raw);
    let n = chars.len();
    if n == 0 {
        return Err(DriverError::StreamClosed);
    }
    let mut end: usize = n;
    if chars[n - 1] == '\n' {
        end = n - 1;
        if end > 0 && chars[end - 1] == '\r' {
            end = end - 1;
        }
    }
    assert(raw@.subrange(0, end as int) =~= without_terminator(raw@));
    Ok(raw.substring_char(0, end).to_owned())
}

/// What to do once the commands of a step are sent.
#[derive(Clone, Copy, Debug, PartialEq, Eq, Structural)]
pub enum Next {
    /// Read one line from the engine and hand it to the machine.
    Receive,
    /// Nothing: the machine has finished.
    Done,
}

/// The answer of a machine: commands to send in this order, then `next`.
pub struct Step {
    pub commands: Vec<String>,
    pub next: Next,
}

pub struct StepView {
    pub commands: Seq<Seq<char>>,
    pub next: Next,
}

impl View for Step {
    type V = StepView;

    open spec fn view(&self) -> StepView {
        StepView { commands: self.commands.deep_view(), next: self.next }
    }
}

/// The step that sends nothing.
pub open spec fn silent(next: Next) -> StepView {
    StepView { commands: Seq::empty(), next }
}

fn silent_step(next: Next) -> (step: Step)
    ensures
        step@ == silent(next),
{
    let step = Step { commands: Vec::new(), next };
    assert(step.commands.deep_view() =~= Seq::<Seq<char>>::empty());
    step
}

/// The handshake: `uci` is sent, and lines are read up to `uciok`.
pub struct Handshake {
    /// The number of threads to configure once the handshake is complete,
    /// if any.
    pub threads: Option<usize>,
    /// What followed the first `id name ` that the engine sent.
    pub name: Option<String>,
    /// Whether `uciok` was read.
    pub complete: bool,
}

pub struct HandshakeView {
    pub threads: Option<usize>,
    pub name: Option<Seq<char>>,
    pub complete: bool,
}

impl View for Handshake {
    type V = HandshakeView;

    open spec fn view(&self) -> HandshakeView {
        HandshakeView {
            threads: self.threads,
            name: match self.name {
                Some(n) => Some(n@),
                None => None,
            },
            complete: self.complete,
        }
    }
}

/// The identity that a line reports: what follows `id name ` at its start.
pub open spec fn id_name(line: Seq<char>) -> Option<Seq<char>> {
    if "id name "@.is_prefix_of(line) {
        Some(line.subrange(8, line.len() as int))
    } else {
        None
    }
}

/// The handshake after `line` was read. The first identity that is reported
/// stays; `uciok` completes the handshake; a complete handshake takes no
/// more lines.
pub open spec fn handshake_after(h: HandshakeView, line: Seq<char>) -> HandshakeView {
    if h.complete {
        h
    } else {
        HandshakeView {
            threads: h.threads,
            name: if h.name is None {
                id_name(line)
            } else {
                h.name
            },
            complete: line == "uciok"@,
        }
    }
}

/// The answer of the handshake to `line`: after `uciok` the thread count is
/// configured, where one is to be, and the handshake is done; any other
/// line asks for the next one.
pub open spec fn handshake_reply(h: HandshakeView, line: Seq<char>) -> StepView {
    if h.complete {
        silent(Next::Done)
    } else if line == "uciok"@ {
        match h.threads {
            Some(n) => StepView { commands: seq![threads_text(n)], next: Next::Done },
            None => silent(Next::Done),
        }
    } else {
        silent(Next::Receive)
    }
}

impl Handshake {
    /// Opens the handshake: `uci` is to be sent, then lines are to be read.
    pub fn start(threads: Option<usize>) -> (out: (Handshake, Step))
        ensures
            out.0@ == (HandshakeView { threads, name: None, complete: false }),
            out.1@ == (StepView { commands: seq!["uci"@], next: Next::Receive }),
    {
        let mut commands: Vec<String> = Vec::new();
        commands.push(handshake_command());
        let step = Step { commands, next: Next::Receive };
        assert(step.commands.deep_view() =~= seq!["uci"@]);
        (Handshake { threads, name: None, complete: false }, step)
    }

    /// Takes one line that the engine sent.
    pub fn on_line(self, line: &str) -> (out: (Handshake, Step))
        ensures
            out.0@ == handshake_after(self@, line@),
            out.1@ == handshake_reply(self@, line@),
    {
        if self.complete {
            return (self, silent_step(Next::Done));
        }
        proof {
            reveal_strlit("id name ");
        }
        let name = match self.name {
            Some(n) => Some(n),
            None => {
                if starts_with(line, "id name ") {
                    Some(line.substring_char(8, line.unicode_len()).to_owned())
                } else {
                    None
                }
            },
        };
        if text_eq(line, "uciok") {
            let step = match self.threads {
                Some(n) => {
                    let mut commands: Vec<String> = Vec::new();
                    commands.push(threads_command(n));
                    let step = Step { commands, next: Next::Done };
                    assert(step.commands.deep_view() =~= seq![threads_text(n)]);
                    step
                },
                None => silent_step(Next::Done),
            };
            (Handshake { threads: self.threads, name, complete: true }, step)
        } else {
            (Handshake { threads: self.threads, name, complete: false }, silent_step(Next::Receive))
        }
    }

    /// The outcome of the handshake: the identity that the engine reported,
    /// empty if it reported none, once the handshake is complete. Before
    /// that there is no identity: the engine closed its output too early.
    pub fn finish(self) -> (out: Result<String, DriverError>)
        ensures
            match out {
                Ok(name) => self@.complete && name@ == match self@.name {
                    Some(n) => n,
                    None => Seq::empty(),
                },
                Err(e) => !self@.complete && e == DriverError::StreamClosed,
            },
    {
        if self.complete {
            match self.name {
                Some(n) => Ok(n),
                None => Ok(String::new()),
            }
        } else {
            Err(DriverError::StreamClosed)
        }
    }
}

/// How a batch of searches is run.
#[derive(Clone, Copy, Debug, PartialEq, Eq, Structural)]
pub struct BatchConfig {
    /// How many positions to search at most.
    pub requests: usize,
    /// The node budget of each search, if any.
    pub nodes: Option<usize>,
    /// The depth budget of each search, used when there is no node budget.
    pub depth: Option<usize>,
    /// The number of threads to configure again before each search, if any.
    pub threads_each: Option<usize>,
}

/// A batch of searches, one position at a time: the position is sent, the
/// search is started, and lines are read up to `bestmove`, which gives the
/// record of that position. Then the next position is sent.
pub struct Batch {
    config: BatchConfig,
    started: usize,
    searching: bool,
    fen: String,
    scratch: Telemetry,
    results: Vec<EngineResult>,
    submitted: Ghost<Seq<Seq<char>>>,
}

pub struct BatchView {
    pub config: BatchConfig,
    /// Whether a search is in progress.
    pub searching: bool,
    /// The position of the search in progress.
    pub fen: Seq<char>,
    /// The telemetry of the search in progress.
    pub scratch: TelemetryView,
    /// The records of the searches that are finished.
    pub results: Seq<EngineResultView>,
    /// The positions that were sent to the engine so far.
    pub submitted: Seq<Seq<char>>,
}

impl BatchView {
    /// The positions that were sent are those of the records, in the same
    /// order, and behind them that of the search in progress; no more were
    /// sent than the batch allows.
    pub open spec fn wf(self) -> bool {
        &&& self.submitted.len() <= self.config.requests
        &&& self.submitted.len() == self.results.len() + if self.searching {
            1int
        } else {
            0int
        }
        &&& forall|i: int|
            0 <= i < self.results.len() ==> (#[trigger] self.results[i]).fen == self.submitted[i]
        &&& self.searching ==> self.fen == self.submitted.last()
    }
}

/// A batch in which nothing was sent yet.
pub open spec fn idle(config: BatchConfig) -> BatchView {
    BatchView {
        config,
        searching: false,
        fen: Seq::empty(),
        scratch: blank(),
        results: Seq::empty(),
        submitted: Seq::empty(),
    }
}

/// A batch, the supplier of positions, and the step to take.
pub struct Outcome {
    pub batch: BatchView,
    pub fens: FensView,
    pub step: StepView,
}

/// The commands that submit one position: the thread count where it is
/// configured before each search, the position, and the start of the search.
pub open spec fn request_commands(config: BatchConfig, fen: Seq<char>) -> Seq<Seq<char>> {
    let core = seq![position_text(fen), go_text(config.nodes, config.depth)];
    match config.threads_each {
        Some(n) => seq![threads_text(n)] + core,
        None => core,
    }
}

/// What a batch without a search in progress does next. While fewer
/// positions were sent than the batch allows, the supplier is asked for one;
/// if it has one, the position is sent and a search begins with blank
/// telemetry. Otherwise the batch is done.
pub open spec fn next_request(b: BatchView, f: FensView) -> Outcome {
    if b.submitted.len() < b.config.requests {
        match f.current() {
            Some(fen) => Outcome {
                batch: BatchView {
                    config: b.config,
                    searching: true,
                    fen,
                    scratch: blank(),
                    results: b.results,
                    submitted: b.submitted.push(fen),
                },
                fens: f.advance(),
                step: StepView { commands: request_commands(b.config, fen), next: Next::Receive },
            },
            None => Outcome { batch: b, fens: f, step: silent(Next::Done) },
        }
    } else {
        Outcome { batch: b, fens: f, step: silent(Next::Done) }
    }
}

/// The record of the search in progress, as `line` ends it.
pub open spec fn record_at(b: BatchView, line: Seq<char>) -> EngineResultView {
    EngineResultView {
        fen: b.fen,
        nodes: b.scratch.nodes,
        time_ms: b.scratch.time_ms,
        nps: b.scratch.nps,
        score: b.scratch.score,
        bestmove: best_move(line),
        depth: b.scratch.depth,
    }
}

/// What a batch does with a line that the engine sent. A progress line
/// updates the telemetry. A terminal line appends the record of the search
/// to the records, clears the telemetry and goes on to the next position.
/// Any other line is ignored. A batch without a search in progress takes no
/// lines.
pub open spec fn after_line(b: BatchView, f: FensView, line: Seq<char>) -> Outcome {
    if !b.searching {
        Outcome { batch: b, fens: f, step: silent(Next::Done) }
    } else {
        match line_kind(line) {
            LineKind::Info => Outcome {
                batch: BatchView { scratch: after_info(b.scratch, line), ..b },
                fens: f,
                step: silent(Next::Receive),
            },
            LineKind::BestMove => next_request(
                BatchView {
                    searching: false,
                    fen: Seq::empty(),
                    scratch: blank(),
                    results: b.results.push(record_at(b, line)),
                    ..b
                },
                f,
            ),
            LineKind::Other => Outcome { batch: b, fens: f, step: silent(Next::Receive) },
        }
    }
}

impl View for Batch {
    type V = BatchView;

    closed spec fn view(&self) -> BatchView {
        BatchView {
            config: self.config,
            searching: self.searching,
            fen: self.fen@,
            scratch: self.scratch@,
            results: self.results.deep_view(),
            submitted: self.submitted@,
        }
    }
}

impl Batch {
    #[verifier::type_invariant]
    spec fn well_formed(&self) -> bool {
        &&& self@.wf()
        &&& self.started == self.submitted@.len()
    }

    /// Begins a batch: the first position is submitted, if there is to be
    /// one.
    pub fn start(config: BatchConfig, fens: &mut Fens) -> (out: (Batch, Step))
        ensures
            (Outcome { batch: out.0@, fens: final(fens)@, step: out.1@ }) == next_request(
                idle(config),
                old(fens)@,
            ),
            out.0@.wf(),
    {
        let batch = Batch {
            config,
            started: 0,
            searching: false,
            fen: String::new(),
            scratch: Telemetry::new(),
            results: Vec::new(),
            submitted: Ghost(Seq::empty()),
        };
        assert(batch.results.deep_view() =~= Seq::<EngineResultView>::empty());
        batch.advance(fens)
    }

    fn advance(self, fens: &mut Fens) -> (out: (Batch, Step))
        requires
            !self@.searching,
        ensures
            (Outcome { batch: out.0@, fens: final(fens)@, step: out.1@ }) == next_request(
                self@,
                old(fens)@,
            ),
            out.0@.wf(),
    {
        proof {
            use_type_invariant(&self);
        }
        if self.started < self.config.requests {
            match fens.get_next() {
                Some(fen) => {
                    let mut commands: Vec<String> = Vec::new();
                    if let Some(n) = self.config.threads_each {
                        commands.push(threads_command(n));
                    }
                    commands.push(position_command(fen));
                    commands.push(go_command(self.config.nodes, self.config.depth));
                    let step = Step { commands, next: Next::Receive };
                    assert(step.commands.deep_view() =~= request_commands(self.config, fen@));
                    let batch = Batch {
                        config: self.config,
                        started: self.started + 1,
                        searching: true,
                        fen: fen.to_owned(),
                        scratch: Telemetry::new(),
                        results: self.results,
                        submitted: Ghost(self.submitted@.push(fen@)),
                    };
                    (batch, step)
                },
                None => (self, silent_step(Next::Done)),
            }
        } else {
            (self, silent_step(Next::Done))
        }
    }

    /// Takes one line that the engine sent.
    pub fn on_line(self, line: &str, fens: &mut Fens) -> (out: (Batch, Step))
        ensures
            (Outcome { batch: out.0@, fens: final(fens)@, step: out.1@ }) == after_line(
                self@,
                old(fens)@,
                line@,
            ),
            self@.wf(),
            out.0@.wf(),
    {
        proof {
            use_type_invariant(&self);
        }
        if !self.searching {
            return (self, silent_step(Next::Done));
        }
        match classify_line(line) {
            LineKind::Info => {
                let batch = Batch {
                    config: self.config,
                    started: self.started,
                    searching: true,
                    fen: self.fen,
                    scratch: apply_info_line(self.scratch, line),
                    results: self.results,
                    submitted: self.submitted,
                };
                (batch, silent_step(Next::Receive))
            },
            LineKind::BestMove => {
                let ghost before = self@;
                let record = EngineResult::new(
                    self.fen,
                    self.scratch.nodes,
                    self.scratch.time_ms,
                    self.scratch.nps,
                    self.scratch.score,
                    parse_best_move(line),
                    self.scratch.depth,
                );
                let mut results = self.results;
                results.push(record);
                assert(results.deep_view() =~= before.results.push(record_at(before, line@)));
                let batch = Batch {
                    config: self.config,
                    started: self.started,
                    searching: false,
                    fen: String::new(),
                    scratch: Telemetry::new(),
                    results,
                    submitted: self.submitted,
                };
                batch.advance(fens)
            },
            LineKind::Other => (self, silent_step(Next::Receive)),
        }
    }

    /// Whether a search is in progress, so that the batch takes lines.
    pub fn is_searching(&self) -> (b: bool)
        ensures
            b == self@.searching,
    {
        self.searching
    }

    /// The position of the search in progress; empty when there is none.
    pub fn position(&self) -> (fen: &str)
        ensures
            fen@ == self@.fen,
    {
        self.fen.as_str()
    }

    /// How many positions were submitted so far.
    pub fn submitted(&self) -> (n: usize)
        ensures
            n == self@.submitted.len(),
            self@.wf(),
    {
        proof {
            use_type_invariant(self);
        }
        self.started
    }

    /// The records of the searches that are finished, in the order in which
    /// their positions were submitted.
    pub fn results(&self) -> (records: &Vec<EngineResult>)
        ensures
            records.deep_view() == self@.results,
            self@.wf(),
    {
        proof {
            use_type_invariant(self);
        }
        &self.results
    }

    /// Ends the batch and hands over its records; a search in progress
    /// leaves none.
    pub fn into_results(self) -> (records: Vec<EngineResult>)
        ensures
            records.deep_view() == self@.results,
            self@.wf(),
    {
        proof {
            use_type_invariant(&self);
        }
        self.results
    }

    /// The engine closed its output. A search in progress fails, and with it
    /// the batch; the records of the searches before it stay. A batch
    /// without a search in progress has its records and no failure.
    pub fn on_closed(self) -> (out: (Vec<EngineResult>, Option<DriverError>))
        ensures
            out.0.deep_view() == self@.results,
            out.1 == if self@.searching {
                Some(DriverError::StreamClosed)
            } else {
                None
            },
    {
        if self.searching {
            (self.results, Some(DriverError::StreamClosed))
        } else {
            (self.results, None)
        }
    }
}

/// The batch and the supplier after the lines `lines` were taken one after
/// the other, beginning with the batch and the supplier of `start`.
pub open spec fn after_lines(start: Outcome, lines: Seq<Seq<char>>) -> Outcome
    decreases lines.len(),
{
    if lines.len() == 0 {
        start
    } else {
        let before = after_lines(start, lines.drop_last());
        after_line(before.batch, before.fens, lines.last())
    }
}

/// The position that the supplier `f` hands out `i` requests from now.
pub open spec fn nth_position(f: FensView, i: int) -> Seq<char> {
    if f.cycling {
        f.list[(f.index + i) % (f.list.len() as int)]
    } else {
        f.list[f.index + i]
    }
}

/// Whether the positions that the batch `b` has sent are those that the
/// supplier handed out, in its order, from `origin` on, and `f` is the
/// supplier as that has left it.
pub open spec fn follows_supplier(b: BatchView, origin: FensView, f: FensView) -> bool {
    &&& b.wf()
    &&& origin.wf()
    &&& f.wf()
    &&& f.list == origin.list
    &&& f.cycling == origin.cycling
    &&& f.list.len() == 0 ==> b.submitted.len() == 0
    &&& f.cycling && f.list.len() > 0 ==> f.index == (origin.index + b.submitted.len()) as int % (
    f.list.len() as int)
    &&& !f.cycling ==> f.index == origin.index + b.submitted.len()
    &&& forall|i: int|
        0 <= i < b.submitted.len() ==> #[trigger] b.submitted[i] == nth_position(origin, i)
}

proof fn lemma_next_request_follows(b: BatchView, origin: FensView, f: FensView)
    requires
        follows_supplier(b, origin, f),
        !b.searching,
    ensures
        follows_supplier(next_request(b, f).batch, origin, next_request(b, f).fens),
        next_request(b, f).batch.results == b.results,
{
    if b.submitted.len() < b.config.requests && f.list.len() > 0 && f.cycling {
        let n = f.list.len() as int;
        lemma_add_mod_noop_right(1, (origin.index + b.submitted.len()) as int, n);
    }
}

proof fn lemma_after_line_follows(b: BatchView, origin: FensView, f: FensView, line: Seq<char>)
    requires
        follows_supplier(b, origin, f),
    ensures
        follows_supplier(after_line(b, f, line).batch, origin, after_line(b, f, line).fens),
        b.results.is_prefix_of(after_line(b, f, line).batch.results),
        after_line(b, f, line).batch.results.len() == b.results.len() + if b.searching
            && line_kind(line) == LineKind::BestMove {
            1int
        } else {
            0int
        },
{
    if b.searching && line_kind(line) == LineKind::BestMove {
        let ended = BatchView {
            searching: false,
            fen: Seq::empty(),
            scratch: blank(),
            results: b.results.push(record_at(b, line)),
            ..b
        };
        lemma_next_request_follows(ended, origin, f);
    }
}

/// A line never takes a record away or moves one: the records before it are
/// the first records after it, and exactly a terminal line during a search
/// adds one record behind them.
pub proof fn lemma_line_appends(b: BatchView, f: FensView, line: Seq<char>)
    ensures
        b.results.is_prefix_of(after_line(b, f, line).batch.results),
        after_line(b, f, line).batch.results.len() == b.results.len() + if b.searching
            && line_kind(line) == LineKind::BestMove {
            1int
        } else {
            0int
        },
        b.searching && line_kind(line) == LineKind::BestMove ==> after_line(
            b,
            f,
            line,
        ).batch.results.last() == record_at(b, line),
{
}

/// The records are in the order of submission. Whatever lines a batch is
/// given, it holds no more records than it may make requests, and its i-th
/// record is that of the i-th position that the supplier handed out.
pub proof fn lemma_records_follow_submission(
    config: BatchConfig,
    origin: FensView,
    lines: Seq<Seq<char>>,
)
    requires
        origin.wf(),
    ensures
        ({
            let end = after_lines(next_request(idle(config), origin), lines);
            &&& follows_supplier(end.batch, origin, end.fens)
            &&& end.batch.results.len() <= config.requests
            &&& end.batch.config == config
            &&& forall|i: int|
                0 <= i < end.batch.results.len() ==> (#[trigger] end.batch.results[i]).fen
                    == nth_position(origin, i)
        }),
    decreases lines.len(),
{
    if lines.len() == 0 {
        if origin.list.len() > 0 && origin.cycling {
            vstd::arithmetic::div_mod::lemma_small_mod(origin.index, origin.list.len());
        }
        lemma_next_request_follows(idle(config), origin, origin);
    } else {
        lemma_records_follow_submission(config, origin, lines.drop_last());
        let before = after_lines(next_request(idle(config), origin), lines.drop_last());
        lemma_after_line_follows(before.batch, origin, before.fens, lines.last());
    }
}

} // verus!
