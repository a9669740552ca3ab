use engine_mate_stats::analyzer::Analyzer;
use engine_mate_stats::config::{
    parse_args_and_config, DEFAULT_NODES, DEFAULT_NUM_TO_ANALYZE, DEFAULT_THREADS,
};
use engine_mate_stats::engine_result::EngineResult;
use engine_mate_stats::stats::Ratio;

fn record(fen: &str, nodes: u64) -> EngineResult {
    EngineResult::new(fen.to_string(), nodes, 1, 2, "cp 0".to_string(), "a1a2".to_string(), 3)
}

fn args(list: &[&str]) -> Vec<String> {
    list.iter().map(|a| a.to_string()).collect()
}

#[test]
fn engine_result_new_keeps_every_field() {
    let r = EngineResult::new(
        "fen text".to_string(),
        1,
        2,
        3,
        "mate 4".to_string(),
        "e7e8q".to_string(),
        5,
    );
    assert_eq!(r.fen, "fen text");
    assert_eq!(r.nodes, 1);
    assert_eq!(r.time_ms, 2);
    assert_eq!(r.nps, 3);
    assert_eq!(r.score, "mate 4");
    assert_eq!(r.bestmove, "e7e8q");
    assert_eq!(r.depth, 5);
}

#[test]
fn new_analyzer_has_no_results() {
    let a = Analyzer::new();
    assert!(a.results().is_empty());
    assert!(a.analyze().is_none());
}

#[test]
fn add_result_appends_in_order() {
    let mut a = Analyzer::new();
    a.add_result(record("second", 2));
    a.add_result(record("first", 1));
    a.add_result(record("second", 2));
    let fens: Vec<&str> = a.results().iter().map(|r| r.fen.as_str()).collect();
    assert_eq!(fens, vec!["second", "first", "second"]);
    let nodes: Vec<u64> = a.results().iter().map(|r| r.nodes).collect();
    assert_eq!(nodes, vec![2, 1, 2]);
}

#[test]
fn analyze_summarizes_what_was_added() {
    let mut a = Analyzer::new();
    a.add_result(record("x", 100));
    a.add_result(record("y", 300));
    let (stats, hist) = a.analyze().unwrap();
    assert_eq!(stats.positions_analyzed, 2);
    assert_eq!(stats.avg_nodes, Ratio { num: 400, den: 2 });
    assert!(hist.is_empty());
    a.add_result(record("z", 200));
    let (stats, _) = a.analyze().unwrap();
    assert_eq!(stats.positions_analyzed, 3);
    assert_eq!(stats.avg_nodes, Ratio { num: 600, den: 3 });
}

#[test]
fn config_needs_the_engine_path() {
    assert!(parse_args_and_config(&args(&[])).is_none());
    assert!(parse_args_and_config(&args(&["prog"])).is_none());
}

#[test]
fn config_defaults() {
    let c = parse_args_and_config(&args(&["prog", "/opt/engine"])).unwrap();
    assert_eq!(c.engine_path, "/opt/engine");
    assert_eq!(c.num_to_analyze, 10);
    assert_eq!(c.nodes, 10000);
    assert_eq!(c.threads, 8);
    assert_eq!(DEFAULT_NUM_TO_ANALYZE, 10);
    assert_eq!(DEFAULT_NODES, 10000);
    assert_eq!(DEFAULT_THREADS, 8);
}

#[test]
fn config_reads_count_and_nodes() {
    let c = parse_args_and_config(&args(&["prog", "engine", "25"])).unwrap();
    assert_eq!(c.num_to_analyze, 25);
    assert_eq!(c.nodes, 10000);
    let c = parse_args_and_config(&args(&["prog", "engine", "25", "500", "ignored"])).unwrap();
    assert_eq!(c.num_to_analyze, 25);
    assert_eq!(c.nodes, 500);
    assert_eq!(c.threads, 8);
}

#[test]
fn config_falls_back_on_what_is_no_number() {
    let c = parse_args_and_config(&args(&["prog", "engine", "many", "-5"])).unwrap();
    assert_eq!(c.num_to_analyze, 10);
    assert_eq!(c.nodes, 10000);
    let c = parse_args_and_config(&args(&["prog", "engine", "", "99999999999999999999999"]))
        .unwrap();
    assert_eq!(c.num_to_analyze, 10);
    assert_eq!(c.nodes, 10000);
    let c = parse_args_and_config(&args(&["prog", "engine", "0", "+7"])).unwrap();
    assert_eq!(c.num_to_analyze, 0);
    assert_eq!(c.nodes, 7);
}
