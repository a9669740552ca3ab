//! The wire grammar of the engine protocol: the commands that are sent and
//! the reading of the lines that come back.

use crate::text::{
    decimal_digits, parse_u32, parse_u64, parse_unsigned, push_decimal, split_whitespace,
    starts_with, text_eq, tokens,
};
use vstd::prelude::*;

verus! {

/// The command that opens the handshake.
pub fn handshake_command() -> (cmd: String)
    ensures
        cmd@ == "uci"@,
{
    String::from_str("uci")
}

/// The text of the command that sets the number of search threads.
pub open spec fn threads_text(threads: usize) -> Seq<char> {
    "setoption name Threads value "@ + decimal_digits(threads as nat)
}

/// The command that sets the number of search threads.
pub fn threads_command(threads: usize) -> (cmd: String)
    ensures
        cmd@ == threads_text(threads),
{
    let mut cmd = String::from_str("setoption name Threads value ");
    push_decimal(&mut cmd, threads as u64);
    cmd
}

/// The text of the command that sets the position to search: the position
/// goes into it as it is.
pub open spec fn position_text(fen: Seq<char>) -> Seq<char> {
    "position fen "@ + fen
}

/// The command that sets the position to search.
pub fn position_command(fen: &str) -> (cmd: String)
    ensures
        cmd@ == position_text(fen@),
{
    let mut cmd = String::from_str("position fen ");
    cmd.append(fen);
    cmd
}

/// The depth that a search is bounded by when no bound is configured.
pub const DEFAULT_DEPTH: usize = 10;

/// The text of the command that starts a search under exactly one bound:
/// the node budget where there is one, else the depth budget, else
/// `DEFAULT_DEPTH`.
pub open spec fn go_text(nodes: Option<usize>, depth: Option<usize>) -> Seq<char> {
    match nodes {
        Some(n) => "go nodes "@ + decimal_digits(n as nat),
        None => match depth {
            Some(d) => "go depth "@ + decimal_digits(d as nat),
            None => "go depth "@ + decimal_digits(DEFAULT_DEPTH as nat),
        },
    }
}

/// The command that starts a search.
pub fn go_command(nodes: Option<usize>, depth: Option<usize>) -> (cmd: String)
    ensures
        cmd@ == go_text(nodes, depth),
{
    match nodes {
        Some(n) => {
            let mut cmd = String::from_str("go nodes ");
            push_decimal(&mut cmd, n as u64);
            cmd
        },
        None => {
            let mut cmd = String::from_str("go depth ");
            let bound = match depth {
                Some(d) => d,
                None => DEFAULT_DEPTH,
            };
            push_decimal(&mut cmd, bound as u64);
            cmd
        },
    }
}

/// What a line received during a search is.
#[derive(Clone, Copy, Debug, PartialEq, Eq, Structural)]
pub enum LineKind {
    /// A progress line: it begins with `info` and a space.
    Info,
    /// The terminal line of the exchange: it begins with `bestmove`.
    BestMove,
    /// Any other line; it is ignored.
    Other,
}

/// What a line is, by how it begins.
pub open spec fn line_kind(line: Seq<char>) -> LineKind {
    if "info "@.is_prefix_of(line) {
        LineKind::Info
    } else if "bestmove"@.is_prefix_of(line) {
        LineKind::BestMove
    } else {
        LineKind::Other
    }
}

pub fn classify_line(line: &str) -> (kind: LineKind)
    ensures
        kind == line_kind(line@),
{
    if starts_with(line, "info ") {
        LineKind::Info
    } else if starts_with(line, "bestmove") {
        LineKind::BestMove
    } else {
        LineKind::Other
    }
}

/// The telemetry of the search in progress, as of the last line read.
#[derive(Clone, Debug)]
pub struct Telemetry {
    pub nodes: u64,
    pub time_ms: u64,
    pub nps: u64,
    pub depth: u32,
    pub score: String,
}

pub struct TelemetryView {
    pub nodes: u64,
    pub time_ms: u64,
    pub nps: u64,
    pub depth: u32,
    pub score: Seq<char>,
}

impl View for Telemetry {
    type V = TelemetryView;

    open spec fn view(&self) -> TelemetryView {
        TelemetryView {
            nodes: self.nodes,
            time_ms: self.time_ms,
            nps: self.nps,
            depth: self.depth,
            score: self.score@,
        }
    }
}

/// The telemetry before any line was read: every counter zero, the score
/// empty.
pub open spec fn blank() -> TelemetryView {
    TelemetryView { nodes: 0, time_ms: 0, nps: 0, depth: 0, score: Seq::empty() }
}

impl Telemetry {
    pub fn new() -> (t: Telemetry)
        ensures
            t@ == blank(),
    {
        Telemetry { nodes: 0, time_ms: 0, nps: 0, depth: 0, score: String::new() }
    }
}

/// Whether a token is one of the keys that take one integer: `nodes`,
/// `time`, `nps` and `depth`.
pub open spec fn is_counter_key(token: Seq<char>) -> bool {
    token == "nodes"@ || token == "time"@ || token == "nps"@ || token == "depth"@
}

/// The new value of a counter: the number that `value` writes where it
/// writes one that fits, and the value before where it does not.
pub open spec fn or_keep(value: Seq<char>, max: u64, before: u64) -> u64 {
    match parse_unsigned(value, max) {
        Some(v) => v,
        None => before,
    }
}

/// The telemetry after the counter key `key` was read with `value` behind
/// it.
pub open spec fn with_counter(t: TelemetryView, key: Seq<char>, value: Seq<char>) -> TelemetryView {
    if key == "nodes"@ {
        TelemetryView { nodes: or_keep(value, u64::MAX, t.nodes), ..t }
    } else if key == "time"@ {
        TelemetryView { time_ms: or_keep(value, u64::MAX, t.time_ms), ..t }
    } else if key == "nps"@ {
        TelemetryView { nps: or_keep(value, u64::MAX, t.nps), ..t }
    } else {
        TelemetryView { depth: or_keep(value, u32::MAX as u64, t.depth as u64) as u32, ..t }
    }
}

/// The telemetry after the tokens `parts[idx..]` were read from left to
/// right. A counter key with a token behind it takes that token; `score`
/// with two tokens behind it takes both, joined by a space; any other token
/// is passed over. A later key overwrites what an earlier one set.
pub open spec fn scan_info(t: TelemetryView, parts: Seq<Seq<char>>, idx: int) -> TelemetryView
    decreases parts.len() - idx,
{
    if idx < 0 || idx >= parts.len() {
        t
    } else if is_counter_key(parts[idx]) && idx + 1 < parts.len() {
        scan_info(with_counter(t, parts[idx], parts[idx + 1]), parts, idx + 2)
    } else if parts[idx] == "score"@ && idx + 2 < parts.len() {
        scan_info(
            TelemetryView { score: parts[idx + 1] + " "@ + parts[idx + 2], ..t },
            parts,
            idx + 3,
        )
    } else {
        scan_info(t, parts, idx + 1)
    }
}

/// The last value wins. A scan either leaves a field as it was or
/// overwrites it with what the tokens say; what the field held before, from
/// an earlier line or an earlier key, makes no difference to what it is
/// overwritten with.
pub proof fn lemma_scan_keeps_or_overwrites(
    a: TelemetryView,
    b: TelemetryView,
    parts: Seq<Seq<char>>,
    idx: int,
)
    ensures
        ({
            let x = scan_info(a, parts, idx);
            let y = scan_info(b, parts, idx);
            &&& x.nodes == y.nodes || (x.nodes == a.nodes && y.nodes == b.nodes)
            &&& x.time_ms == y.time_ms || (x.time_ms == a.time_ms && y.time_ms == b.time_ms)
            &&& x.nps == y.nps || (x.nps == a.nps && y.nps == b.nps)
            &&& x.depth == y.depth || (x.depth == a.depth && y.depth == b.depth)
            &&& x.score == y.score || (x.score == a.score && y.score == b.score)
        }),
    decreases parts.len() - idx,
{
    if idx < 0 || idx >= parts.len() {
    } else if is_counter_key(parts[idx]) && idx + 1 < parts.len() {
        lemma_scan_keeps_or_overwrites(
            with_counter(a, parts[idx], parts[idx + 1]),
            with_counter(b, parts[idx], parts[idx + 1]),
            parts,
            idx + 2,
        );
    } else if parts[idx] == "score"@ && idx + 2 < parts.len() {
        let score = parts[idx + 1] + " "@ + parts[idx + 2];
        lemma_scan_keeps_or_overwrites(
            TelemetryView { score, ..a },
            TelemetryView { score, ..b },
            parts,
            idx + 3,
        );
    } else {
        lemma_scan_keeps_or_overwrites(a, b, parts, idx + 1);
    }
}

/// The telemetry after a progress line.
pub open spec fn after_info(t: TelemetryView, line: Seq<char>) -> TelemetryView {
    scan_info(t, tokens(line), 0)
}

/// Reads the keys of a progress line into the telemetry.
pub fn apply_info_line(before: Telemetry, line: &str) -> (out: Telemetry)
    ensures
        out@ == after_info(before@, line@),
{
    let parts = split_whitespace(line);
    let n = parts.len();
    let ghost start = before@;
    let mut t = before;
    let mut idx: usize = 0;
    while idx < n
        invariant
            n == parts.len(),
            parts.deep_view() == tokens(line@),
            idx <= n,
            scan_info(t@, tokens(line@), idx as int) == after_info(start, line@),
        decreases n - idx,
    {
        let key = parts[idx].as_str();
        let left = n - idx;
        proof {
            assert(parts.deep_view()[idx as int] == key@);
            if left > 1 {
                assert(parts.deep_view()[idx + 1] == parts[idx + 1]@);
            }
            if left > 2 {
                assert(parts.deep_view()[idx + 2] == parts[idx + 2]@);
            }
        }
        if text_eq(key, "nodes") && left > 1 {
            if let Some(v) = parse_u64(parts[idx + 1].as_str()) {
                t.nodes = v;
            }
            idx += 2;
        } else if text_eq(key, "time") && left > 1 {
            if let Some(v) = parse_u64(parts[idx + 1].as_str()) {
                t.time_ms = v;
            }
            idx += 2;
        } else if text_eq(key, "nps") && left > 1 {
            if let Some(v) = parse_u64(parts[idx + 1].as_str()) {
                t.nps = v;
            }
            idx += 2;
        } else if text_eq(key, "depth") && left > 1 {
            if let Some(v) = parse_u32(parts[idx + 1].as_str()) {
                t.depth = v;
            }
            idx += 2;
        } else if text_eq(key, "score") && left > 2 {
            let mut score = String::from_str(parts[idx + 1].as_str());
            score.append(" ");
            score.append(parts[idx + 2].as_str());
            t.score = score;
            idx += 3;
        } else {
            idx += 1;
        }
    }
    t
}

/// The move that a terminal line names: its second token, and nothing when
/// it has none.
pub open spec fn best_move(line: Seq<char>) -> Seq<char> {
    if tokens(line).len() > 1 {
        tokens(line)[1]
    } else {
        Seq::empty()
    }
}

/// Reads the move that a terminal line names.
pub fn parse_best_move(line: &str) -> (mv: String)
    ensures
        mv@ == best_move(line@),
{
    let parts = split_whitespace(line);
    if parts.len() > 1 {
        assert(parts.deep_view()[1] == parts[1]@);
        parts[1].clone()
    } else {
        String::new()
    }
}

} // verus!
