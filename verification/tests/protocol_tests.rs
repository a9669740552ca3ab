use engine_mate_stats::protocol::{
    apply_info_line, classify_line, go_command, handshake_command, parse_best_move,
    position_command, threads_command, LineKind, Telemetry, DEFAULT_DEPTH,
};

fn telemetry(nodes: u64, time_ms: u64, nps: u64, depth: u32, score: &str) -> Telemetry {
    Telemetry { nodes, time_ms, nps, depth, score: score.to_string() }
}

fn same(a: &Telemetry, b: &Telemetry) -> bool {
    a.nodes == b.nodes
        && a.time_ms == b.time_ms
        && a.nps == b.nps
        && a.depth == b.depth
        && a.score == b.score
}

/// The scan written with the standard library, token index by token index.
fn scan_with_std(before: &Telemetry, line: &str) -> Telemetry {
    let mut t = before.clone();
    let parts: Vec<&str> = line.split_whitespace().collect();
    let mut idx: usize = 0;
    while idx < parts.len() {
        match parts[idx] {
            "nodes" => {
                if idx + 1 < parts.len() {
                    t.nodes = parts[idx + 1].parse().unwrap_or(t.nodes);
                    idx += 1;
                }
            }
            "time" => {
                if idx + 1 < parts.len() {
                    t.time_ms = parts[idx + 1].parse().unwrap_or(t.time_ms);
                    idx += 1;
                }
            }
            "nps" => {
                if idx + 1 < parts.len() {
                    t.nps = parts[idx + 1].parse().unwrap_or(t.nps);
                    idx += 1;
                }
            }
            "score" => {
                if idx + 2 < parts.len() {
                    t.score = format!("{} {}", parts[idx + 1], parts[idx + 2]);
                    idx += 2;
                }
            }
            "depth" => {
                if idx + 1 < parts.len() {
                    t.depth = parts[idx + 1].parse().unwrap_or(t.depth);
                    idx += 1;
                }
            }
            _ => {}
        }
        idx += 1;
    }
    t
}

#[test]
fn commands_have_their_exact_text() {
    assert_eq!(handshake_command(), "uci");
    assert_eq!(threads_command(8), "setoption name Threads value 8");
    assert_eq!(threads_command(0), "setoption name Threads value 0");
    assert_eq!(threads_command(128), "setoption name Threads value 128");
    assert_eq!(
        position_command("rnbqkbnr/pppppppp/8/8/8/8/PPPPPPPP/RNBQKBNR w KQkq - 0 1"),
        "position fen rnbqkbnr/pppppppp/8/8/8/8/PPPPPPPP/RNBQKBNR w KQkq - 0 1"
    );
    assert_eq!(position_command(""), "position fen ");
}

#[test]
fn go_command_carries_one_bound() {
    assert_eq!(go_command(Some(10000), None), "go nodes 10000");
    assert_eq!(go_command(Some(10000), Some(7)), "go nodes 10000");
    assert_eq!(go_command(None, Some(7)), "go depth 7");
    assert_eq!(go_command(None, None), "go depth 10");
    assert_eq!(DEFAULT_DEPTH, 10);
    assert_eq!(go_command(Some(0), None), "go nodes 0");
}

#[test]
fn lines_are_classified_by_prefix() {
    assert_eq!(classify_line("info depth 1"), LineKind::Info);
    assert_eq!(classify_line("info "), LineKind::Info);
    assert_eq!(classify_line("info"), LineKind::Other);
    assert_eq!(classify_line("information"), LineKind::Other);
    assert_eq!(classify_line("bestmove e2e4"), LineKind::BestMove);
    assert_eq!(classify_line("bestmove"), LineKind::BestMove);
    assert_eq!(classify_line("bestmoves"), LineKind::BestMove);
    assert_eq!(classify_line(" bestmove e2e4"), LineKind::Other);
    assert_eq!(classify_line("readyok"), LineKind::Other);
    assert_eq!(classify_line(""), LineKind::Other);
}

#[test]
fn new_telemetry_is_blank() {
    assert!(same(&Telemetry::new(), &telemetry(0, 0, 0, 0, "")));
}

#[test]
fn info_line_sets_every_key() {
    let t = apply_info_line(
        Telemetry::new(),
        "info depth 5 nodes 1000 nps 500000 time 2 score mate 2",
    );
    assert!(same(&t, &telemetry(1000, 2, 500000, 5, "mate 2")));
}

#[test]
fn later_key_overwrites_earlier_key() {
    let t = apply_info_line(Telemetry::new(), "info nodes 1 nodes 2 depth 3 depth 4");
    assert!(same(&t, &telemetry(2, 0, 0, 4, "")));
    let t = apply_info_line(t, "info nodes 9 score cp 10");
    assert!(same(&t, &telemetry(9, 0, 0, 4, "cp 10")));
    let t = apply_info_line(t, "info score cp -20 lowerbound");
    assert!(same(&t, &telemetry(9, 0, 0, 4, "cp -20")));
}

#[test]
fn malformed_number_keeps_the_value_before() {
    let before = telemetry(7, 8, 9, 10, "cp 1");
    let t = apply_info_line(before.clone(), "info nodes many time -3 nps 1.5 depth 4294967296");
    assert!(same(&t, &before));
    let t = apply_info_line(before, "info nodes 18446744073709551616 depth 4294967295");
    assert!(same(&t, &telemetry(7, 8, 9, u32::MAX, "cp 1")));
}

#[test]
fn value_token_is_consumed_even_when_malformed() {
    let t = apply_info_line(Telemetry::new(), "info nodes depth 5");
    assert!(same(&t, &telemetry(0, 0, 0, 0, "")));
    let t = apply_info_line(Telemetry::new(), "info nodes 3 depth 5");
    assert!(same(&t, &telemetry(3, 0, 0, 5, "")));
}

#[test]
fn key_without_enough_tokens_is_passed_over() {
    let t = apply_info_line(Telemetry::new(), "info depth 2 nodes");
    assert!(same(&t, &telemetry(0, 0, 0, 2, "")));
    let t = apply_info_line(Telemetry::new(), "info score cp");
    assert!(same(&t, &telemetry(0, 0, 0, 0, "")));
    let t = apply_info_line(Telemetry::new(), "info score nodes");
    assert!(same(&t, &telemetry(0, 0, 0, 0, "")));
    let t = apply_info_line(Telemetry::new(), "info score nodes 5");
    assert!(same(&t, &telemetry(0, 0, 0, 0, "nodes 5")));
}

#[test]
fn score_takes_two_tokens_as_they_are() {
    let t = apply_info_line(Telemetry::new(), "info score   mate    -3   nodes 4");
    assert!(same(&t, &telemetry(4, 0, 0, 0, "mate -3")));
    let t = apply_info_line(Telemetry::new(), "info score what ever");
    assert!(same(&t, &telemetry(0, 0, 0, 0, "what ever")));
}

#[test]
fn unknown_tokens_are_skipped() {
    let t = apply_info_line(
        Telemetry::new(),
        "info currmove e2e4 currmovenumber 1 hashfull 12 nodes 44 pv e2e4 e7e5",
    );
    assert!(same(&t, &telemetry(44, 0, 0, 0, "")));
}

#[test]
fn info_scan_agrees_with_the_std_scan() {
    let lines = vec![
        "info",
        "info ",
        "info depth 1 seldepth 2 multipv 1 score cp 13 nodes 20 nps 20000 time 1 pv e2e4",
        "info depth 12 score mate -4 nodes 123456 nps 1234567 time 100",
        "info nodes",
        "info nodes nodes 5",
        "info score score cp 1",
        "info score cp 1 score",
        "info depth depth depth",
        "info time 5 time x time 7",
        "info nps +12 nodes -1 depth +3",
        "info string nodes are 5 deep",
        "info\tdepth\t3\u{a0}nodes\u{3000}8",
        "info depth 003 nodes 0000000000000000000000012",
        "info score cp 5 upperbound nodes 1 score mate 1 time 2",
    ];
    let starts = vec![telemetry(0, 0, 0, 0, ""), telemetry(11, 22, 33, 44, "cp 55")];
    for start in &starts {
        for line in &lines {
            let got = apply_info_line(start.clone(), line);
            let expected = scan_with_std(start, line);
            assert!(same(&got, &expected), "{:?}: {:?} vs {:?}", line, got, expected);
        }
    }
}

#[test]
fn best_move_is_the_second_token() {
    assert_eq!(parse_best_move("bestmove e2e4"), "e2e4");
    assert_eq!(parse_best_move("bestmove e2e4 ponder e7e5"), "e2e4");
    assert_eq!(parse_best_move("bestmove   (none)  "), "(none)");
    assert_eq!(parse_best_move("bestmove"), "");
    assert_eq!(parse_best_move("bestmove "), "");
    assert_eq!(parse_best_move("bestmovee2e4"), "");
}
