//! What a run is configured with, as read from the command line.

use crate::text::{parse_unsigned, parse_usize};
use vstd::prelude::*;

verus! {

#[derive(Debug)]
pub struct Config {
    pub engine_path: String,
    pub num_to_analyze: usize,
    pub nodes: usize,
    pub threads: usize,
}

/// How many positions are analyzed when the command line does not say.
pub const DEFAULT_NUM_TO_ANALYZE: usize = 10;

/// The node budget of a search when the command line does not say.
pub const DEFAULT_NODES: usize = 10000;

/// The number of search threads.
pub const DEFAULT_THREADS: usize = 8;

/// The number that the argument at `index` writes, and `default` where
/// there is no such argument or it writes no number that fits.
pub open spec fn number_at(args: Seq<Seq<char>>, index: int, default: usize) -> usize {
    if index < args.len() {
        match parse_unsigned(args[index], usize::MAX as u64) {
            Some(v) => v as usize,
            None => default,
        }
    } else {
        default
    }
}

fn number_or(args: &Vec<String>, index: usize, default: usize) -> (n: usize)
    ensures
        n == number_at(args.deep_view(), index as int, default),
{
    if index < args.len() {
        assert(args.deep_view()[index as int] == args[index as int]@);
        match parse_usize(args[index].as_str()) {
            Some(v) => v,
            None => default,
        }
    } else {
        default
    }
}

/// Reads the configuration from the arguments of the program, the first of
/// which is the program's own name: the path of the engine, then the number
/// of positions, then the node budget. Without a path there is no
/// configuration.
pub fn parse_args_and_config(args: &Vec<String>) -> (config: Option<Config>)
    ensures
        config is None <==> args.len() < 2,
        config matches Some(c) ==> {
            &&& c.engine_path@ == args[1]@
            &&& c.num_to_analyze == number_at(args.deep_view(), 2, DEFAULT_NUM_TO_ANALYZE)
            &&& c.nodes == number_at(args.deep_view(), 3, DEFAULT_NODES)
            &&& c.threads == DEFAULT_THREADS
        },
{
    if args.len() < 2 {
        return None;
    }
    Some(
        Config {
            engine_path: args[1].clone(),
            num_to_analyze: number_or(args, 2, DEFAULT_NUM_TO_ANALYZE),
            nodes: number_or(args, 3, DEFAULT_NODES),
            threads: DEFAULT_THREADS,
        },
    )
}

} // verus!
