//! The outcome of one completed search.

use vstd::prelude::*;

verus! {

/// What the engine reported for one position, as of its `bestmove` line.
#[derive(Clone, Debug)]
pub struct EngineResult {
    /// The position that was submitted.
    pub fen: String,
    /// Nodes examined.
    pub nodes: u64,
    /// Elapsed time in milliseconds.
    pub time_ms: u64,
    /// Nodes per second, as the engine reported it.
    pub nps: u64,
    /// The two tokens that followed the last `score` key, joined by a space.
    pub score: String,
    /// The move the engine settled on; empty when the line named none.
    pub bestmove: String,
    /// Depth reached.
    pub depth: u32,
}

/// A result with its texts as sequences of characters.
pub struct EngineResultView {
    pub fen: Seq<char>,
    pub nodes: u64,
    pub time_ms: u64,
    pub nps: u64,
    pub score: Seq<char>,
    pub bestmove: Seq<char>,
    pub depth: u32,
}

impl View for EngineResult {
    type V = EngineResultView;

    open spec fn view(&self) -> EngineResultView {
        EngineResultView {
            fen: self.fen@,
            nodes: self.nodes,
            time_ms: self.time_ms,
            nps: self.nps,
            score: self.score@,
            bestmove: self.bestmove@,
            depth: self.depth,
        }
    }
}

impl DeepView for EngineResult {
    type V = EngineResultView;

    open spec fn deep_view(&self) -> EngineResultView {
        self@
    }
}

impl EngineResult {
    pub fn new(
        fen: String,
        nodes: u64,
        time_ms: u64,
        nps: u64,
        score: String,
        bestmove: String,
        depth: u32,
    ) -> (r: Self)
        ensures
            r.fen == fen,
            r.nodes == nodes,
            r.time_ms == time_ms,
            r.nps == nps,
            r.score == score,
            r.bestmove == bestmove,
            r.depth == depth,
    {
        EngineResult { fen, nodes, time_ms, nps, score, bestmove, depth }
    }
}

} // verus!
