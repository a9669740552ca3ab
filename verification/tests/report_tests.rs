use engine_mate_stats::engine_result::EngineResult;
use engine_mate_stats::report::{
    bucket_count, csv_header, csv_record, encode_rows, listing_limit, report_rows,
    RenderedAverages, MATE_COLUMNS,
};
use engine_mate_stats::stats::compute_stats;
use std::collections::BTreeMap;

fn record(nodes: u64, nps: u64, depth: u32, score: &str) -> EngineResult {
    EngineResult::new(String::new(), nodes, 3, nps, score.to_string(), String::new(), depth)
}

fn rendered() -> RenderedAverages {
    RenderedAverages {
        avg_ebf: "3.9811".to_string(),
        avg_nps: "500000.00".to_string(),
        avg_nps_m: "0.50".to_string(),
        avg_time_ms: "2.00".to_string(),
        avg_nodes: "1000.00".to_string(),
        avg_depth: "5.00".to_string(),
        node_stddev: "0".to_string(),
    }
}

fn buckets(pairs: &[(u32, u64)]) -> BTreeMap<u32, u64> {
    pairs.iter().cloned().collect()
}

fn strings(cells: &[&str]) -> Vec<String> {
    cells.iter().map(|c| c.to_string()).collect()
}

#[test]
fn header_has_the_scalar_columns_and_twenty_mate_columns() {
    let header = csv_header();
    assert_eq!(MATE_COLUMNS, 20);
    assert_eq!(header.len(), 34);
    assert_eq!(
        header[..14].to_vec(),
        strings(&[
            "engine_name",
            "cmdline",
            "positions_analyzed",
            "avg_ebf",
            "avg_nps",
            "avg_nps_m",
            "avg_time_ms",
            "avg_nodes",
            "avg_depth",
            "node_stddev",
            "max_nodes",
            "min_nodes",
            "total_mates",
            "peak_nps",
        ])
    );
    let mut n: u32 = 1;
    while n <= 20 {
        assert_eq!(header[13 + n as usize], format!("mates in {}", n));
        n += 1;
    }
}

#[test]
fn record_has_one_cell_under_each_title() {
    let results = vec![
        record(1000, 500000, 5, "mate 2"),
        record(3000, 700000, 6, "mate -2"),
        record(2000, 600000, 7, "mate 20"),
        record(2500, 100000, 7, "mate 21"),
        record(2600, 100000, 0, "cp 1"),
    ];
    let (stats, hist) = compute_stats(&results);
    let row = csv_record("Some Engine 1.0", "bench 5 10000", &stats, &rendered(), &hist);
    assert_eq!(row.len(), csv_header().len());
    assert_eq!(
        row[..14].to_vec(),
        strings(&[
            "Some Engine 1.0",
            "bench 5 10000",
            "5",
            "3.9811",
            "500000.00",
            "0.50",
            "2.00",
            "1000.00",
            "5.00",
            "0",
            "3000",
            "1000",
            "4",
            "700000",
        ])
    );
    let mut expected = vec!["0".to_string(); 20];
    expected[1] = "2".to_string();
    expected[19] = "1".to_string();
    assert_eq!(row[14..].to_vec(), expected);
}

#[test]
fn bucket_count_is_zero_for_a_distance_not_seen() {
    let hist = buckets(&[(2, 5), (7, 1)]);
    assert_eq!(bucket_count(&hist, 2), 5);
    assert_eq!(bucket_count(&hist, 7), 1);
    assert_eq!(bucket_count(&hist, 1), 0);
    assert_eq!(bucket_count(&hist, 0), 0);
    assert_eq!(bucket_count(&hist, u32::MAX), 0);
}

#[test]
fn listing_goes_to_the_greatest_distance_seen() {
    assert_eq!(listing_limit(&buckets(&[])), 1);
    assert_eq!(listing_limit(&buckets(&[(0, 4)])), 1);
    assert_eq!(listing_limit(&buckets(&[(1, 4)])), 1);
    assert_eq!(listing_limit(&buckets(&[(2, 1), (9, 3), (4, 1)])), 9);
    assert_eq!(listing_limit(&buckets(&[(2, 1), (9, 0)])), 2);
    assert_eq!(listing_limit(&buckets(&[(u32::MAX, 1)])), u32::MAX);
}

#[test]
fn header_is_written_only_into_a_new_file() {
    let results = vec![record(1000, 500000, 5, "mate 2")];
    let (stats, hist) = compute_stats(&results);
    let first = report_rows(false, "E", "c", &stats, &rendered(), &hist);
    assert_eq!(first.len(), 2);
    assert_eq!(first[0], csv_header());
    assert_eq!(first[1], csv_record("E", "c", &stats, &rendered(), &hist));
    let second = report_rows(true, "E", "c", &stats, &rendered(), &hist);
    assert_eq!(second.len(), 1);
    assert_eq!(second[0], csv_record("E", "c", &stats, &rendered(), &hist));
}

#[test]
fn header_is_written_once_across_runs() {
    let results = vec![record(1000, 500000, 5, "mate 2")];
    let (stats, hist) = compute_stats(&results);
    let (nothing, no_hist) = compute_stats(&vec![]);
    let mut file: Option<Vec<Vec<String>>> = None;
    let mut run: u32 = 0;
    while run < 5 {
        let rows = if run == 0 || run == 3 {
            report_rows(file.is_some(), "E", "c", &nothing, &rendered(), &no_hist)
        } else {
            report_rows(file.is_some(), "E", "c", &stats, &rendered(), &hist)
        };
        if !rows.is_empty() {
            let mut held = file.take().unwrap_or_default();
            held.extend(rows);
            file = Some(held);
        }
        run += 1;
    }
    let rows = file.unwrap();
    assert_eq!(rows.len(), 4);
    assert_eq!(rows.iter().filter(|r| **r == csv_header()).count(), 1);
    assert_eq!(rows[0], csv_header());
}

#[test]
fn run_without_results_adds_no_rows() {
    let (stats, hist) = compute_stats(&vec![]);
    assert!(report_rows(false, "E", "c", &stats, &rendered(), &hist).is_empty());
    assert!(report_rows(true, "E", "c", &stats, &rendered(), &hist).is_empty());
}

#[test]
fn rows_are_encoded_as_comma_separated_lines() {
    let rows = vec![strings(&["a", "b", "c"]), strings(&["1", "", "3"])];
    assert_eq!(encode_rows(&rows), b"a,b,c\n1,,3\n".to_vec());
    assert_eq!(encode_rows(&vec![]), Vec::<u8>::new());
}

#[test]
fn cells_are_quoted_where_needed() {
    let rows = vec![strings(&["Engine, the \"best\"", "go nodes 10", "line\nbreak"])];
    assert_eq!(
        encode_rows(&rows),
        b"\"Engine, the \"\"best\"\"\",go nodes 10,\"line\nbreak\"\n".to_vec()
    );
}

#[test]
fn encoded_report_of_a_first_run() {
    let results = vec![record(1000, 500000, 5, "mate 2")];
    let (stats, hist) = compute_stats(&results);
    let bytes = encode_rows(&report_rows(false, "E", "c x", &stats, &rendered(), &hist));
    let text = String::from_utf8(bytes).unwrap();
    let mut expected = String::from(
        "engine_name,cmdline,positions_analyzed,avg_ebf,avg_nps,avg_nps_m,avg_time_ms,avg_nodes,avg_depth,node_stddev,max_nodes,min_nodes,total_mates,peak_nps",
    );
    let mut n: u32 = 1;
    while n <= 20 {
        expected.push_str(&format!(",mates in {}", n));
        n += 1;
    }
    expected.push_str("\nE,c x,1,3.9811,500000.00,0.50,2.00,1000.00,5.00,0,1000,1000,1,500000");
    expected.push_str(",0,1,0,0,0,0,0,0,0,0,0,0,0,0,0,0,0,0,0,0\n");
    assert_eq!(text, expected);
}

#[test]
fn every_row_reaches_the_bytes() {
    let rows = vec![strings(&["a"]), strings(&["b", "c"]), strings(&[]), strings(&[""])];
    assert_eq!(encode_rows(&rows), b"a\nb,c\n\"\"\n\"\"\n".to_vec());
}

#[test]
fn same_rows_give_the_same_bytes() {
    let rows = vec![strings(&["x, y", "z"])];
    assert_eq!(encode_rows(&rows), encode_rows(&rows));
    let twice = vec![rows[0].clone(), rows[0].clone()];
    let once = encode_rows(&rows);
    let mut expected = once.clone();
    expected.extend(once);
    assert_eq!(encode_rows(&twice), expected);
}

#[test]
fn bytes_of_repeated_runs_hold_the_header_once() {
    let results = vec![record(1000, 500000, 5, "mate 2")];
    let (stats, hist) = compute_stats(&results);
    let mut file: Option<Vec<u8>> = None;
    let mut run: u32 = 0;
    while run < 3 {
        let rows = report_rows(file.is_some(), "E", "c", &stats, &rendered(), &hist);
        let mut held = file.take().unwrap_or_default();
        held.extend(encode_rows(&rows));
        file = Some(held);
        run += 1;
    }
    let text = String::from_utf8(file.unwrap()).unwrap();
    let lines: Vec<&str> = text.lines().collect();
    assert_eq!(lines.len(), 4);
    assert!(lines[0].starts_with("engine_name,cmdline,"));
    assert_eq!(lines.iter().filter(|l| l.starts_with("engine_name,")).count(), 1);
    assert_eq!(lines[1], lines[2]);
    assert_eq!(lines[2], lines[3]);
}
