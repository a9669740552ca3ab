//! The rows that a run adds to the accumulation file, and their bytes in
//! comma-separated form.

use crate::stats::StatsSummary;
use crate::text::{decimal_digits, render_decimal};
use std::collections::BTreeMap;
use vstd::prelude::*;
use vstd::std_specs::iter::IteratorSpec;

verus! {

/// A row: its cells from left to right.
pub type Row = Seq<Seq<char>>;

/// How many mate distances have a column of their own: the distances from
/// one up to this.
pub const MATE_COLUMNS: u32 = 20;

/// The count that `hist` holds for the distance `d`, and zero where it holds
/// none.
pub open spec fn count_at(hist: Map<u32, u64>, d: u32) -> u64 {
    if hist.contains_key(d) {
        hist[d]
    } else {
        0
    }
}

pub fn bucket_count(hist: &BTreeMap<u32, u64>, d: u32) -> (count: u64)
    ensures
        count == count_at(hist@, d),
{
    match hist.get(&d) {
        Some(c) => *c,
        None => 0,
    }
}

/// The title of the column of the mate distance `n`.
pub open spec fn mate_column(n: nat) -> Seq<char> {
    "mates in "@ + decimal_digits(n)
}

/// The titles of the columns that stand before those of the mate distances.
pub open spec fn scalar_columns() -> Row {
    seq![
        "engine_name"@,
        "cmdline"@,
        "positions_analyzed"@,
        "avg_ebf"@,
        "avg_nps"@,
        "avg_nps_m"@,
        "avg_time_ms"@,
        "avg_nodes"@,
        "avg_depth"@,
        "node_stddev"@,
        "max_nodes"@,
        "min_nodes"@,
        "total_mates"@,
        "peak_nps"@,
    ]
}

/// The titles of the columns of the mate distances from one to `upto`.
pub open spec fn mate_titles(upto: nat) -> Row {
    Seq::new(upto, |i: int| mate_column((i + 1) as nat))
}

/// The header row: the titles of the scalar columns, then one column for
/// each mate distance from one to `MATE_COLUMNS`, whatever distances were
/// seen.
pub open spec fn header_row() -> Row {
    scalar_columns() + mate_titles(MATE_COLUMNS as nat)
}

/// Builds the header row.
pub fn csv_header() -> (header: Vec<String>)
    ensures
        header.deep_view() == header_row(),
{
    let mut header: Vec<String> = Vec::new();
    header.push(String::from_str("engine_name"));
    header.push(String::from_str("cmdline"));
    header.push(String::from_str("positions_analyzed"));
    header.push(String::from_str("avg_ebf"));
    header.push(String::from_str("avg_nps"));
    header.push(String::from_str("avg_nps_m"));
    header.push(String::from_str("avg_time_ms"));
    header.push(String::from_str("avg_nodes"));
    header.push(String::from_str("avg_depth"));
    header.push(String::from_str("node_stddev"));
    header.push(String::from_str("max_nodes"));
    header.push(String::from_str("min_nodes"));
    header.push(String::from_str("total_mates"));
    header.push(String::from_str("peak_nps"));
    assert(header.deep_view() =~= scalar_columns());
    let mut n: u32 = 1;
    while n <= MATE_COLUMNS
        invariant
            1 <= n <= MATE_COLUMNS + 1,
            header.deep_view() == scalar_columns() + mate_titles((n - 1) as nat),
        decreases MATE_COLUMNS + 1 - n,
    {
        let mut title = String::from_str("mates in ");
        title.append(render_decimal(n as u64).as_str());
        let ghost before = header.deep_view();
        header.push(title);
        proof {
            assert(header.deep_view() =~= before.push(mate_column(n as nat)));
            assert(mate_titles(n as nat) =~= mate_titles((n - 1) as nat).push(
                mate_column(n as nat),
            ));
            assert(header.deep_view() =~= scalar_columns() + mate_titles(n as nat));
        }
        n += 1;
    }
    header
}

/// The averages of a summary as decimal text. Rounding is not done here:
/// whoever renders the fractions of the summary fills this in.
#[derive(Debug)]
pub struct RenderedAverages {
    pub avg_ebf: String,
    pub avg_nps: String,
    pub avg_nps_m: String,
    pub avg_time_ms: String,
    pub avg_nodes: String,
    pub avg_depth: String,
    pub node_stddev: String,
}

/// The cells of a record row that stand before those of the mate distances,
/// under the titles of `scalar_columns`.
pub open spec fn scalar_cells(
    engine_name: Seq<char>,
    cmdline: Seq<char>,
    stats: StatsSummary,
    rendered: RenderedAverages,
) -> Row {
    seq![
        engine_name,
        cmdline,
        decimal_digits(stats.positions_analyzed as nat),
        rendered.avg_ebf@,
        rendered.avg_nps@,
        rendered.avg_nps_m@,
        rendered.avg_time_ms@,
        rendered.avg_nodes@,
        rendered.avg_depth@,
        rendered.node_stddev@,
        decimal_digits(stats.max_nodes as nat),
        decimal_digits(stats.min_nodes as nat),
        decimal_digits(stats.total_mates as nat),
        decimal_digits(stats.peak_nps as nat),
    ]
}

/// The counts of the mate distances from one to `upto`, as cells.
pub open spec fn mate_cells(hist: Map<u32, u64>, upto: nat) -> Row {
    Seq::new(upto, |i: int| decimal_digits(count_at(hist, (i + 1) as u32) as nat))
}

/// The record row of a run: the scalar cells, then the count of each mate
/// distance from one to `MATE_COLUMNS`.
pub open spec fn record_row(
    engine_name: Seq<char>,
    cmdline: Seq<char>,
    stats: StatsSummary,
    rendered: RenderedAverages,
    hist: Map<u32, u64>,
) -> Row {
    scalar_cells(engine_name, cmdline, stats, rendered) + mate_cells(hist, MATE_COLUMNS as nat)
}

/// Builds the record row of a run.
pub fn csv_record(
    engine_name: &str,
    cmdline: &str,
    stats: &StatsSummary,
    rendered: &RenderedAverages,
    hist: &BTreeMap<u32, u64>,
) -> (record: Vec<String>)
    ensures
        record.deep_view() == record_row(engine_name@, cmdline@, *stats, *rendered, hist@),
{
    let mut record: Vec<String> = Vec::new();
    record.push(String::from_str(engine_name));
    record.push(String::from_str(cmdline));
    record.push(render_decimal(stats.positions_analyzed));
    record.push(rendered.avg_ebf.clone());
    record.push(rendered.avg_nps.clone());
    record.push(rendered.avg_nps_m.clone());
    record.push(rendered.avg_time_ms.clone());
    record.push(rendered.avg_nodes.clone());
    record.push(rendered.avg_depth.clone());
    record.push(rendered.node_stddev.clone());
    record.push(render_decimal(stats.max_nodes));
    record.push(render_decimal(stats.min_nodes));
    record.push(render_decimal(stats.total_mates));
    record.push(render_decimal(stats.peak_nps));
    assert(record.deep_view() =~= scalar_cells(engine_name@, cmdline@, *stats, *rendered));
    let mut n: u32 = 1;
    while n <= MATE_COLUMNS
        invariant
            1 <= n <= MATE_COLUMNS + 1,
            record.deep_view() == scalar_cells(engine_name@, cmdline@, *stats, *rendered)
                + mate_cells(hist@, (n - 1) as nat),
        decreases MATE_COLUMNS + 1 - n,
    {
        let ghost before = record.deep_view();
        let ghost cell = decimal_digits(count_at(hist@, n) as nat);
        record.push(render_decimal(bucket_count(hist, n)));
        proof {
            assert(record.deep_view() =~= before.push(cell));
            assert(mate_cells(hist@, n as nat) =~= mate_cells(hist@, (n - 1) as nat).push(cell));
            assert(record.deep_view() =~= scalar_cells(engine_name@, cmdline@, *stats, *rendered)
                + mate_cells(hist@, n as nat));
        }
        n += 1;
    }
    record
}

/// The rows that a run adds to the accumulation file: none where no
/// position was analyzed; else the record of the run, and before it the
/// header where the file does not exist yet.
pub open spec fn rows_for_run(file_exists: bool, positions: nat, header: Row, record: Row) -> Seq<
    Row,
> {
    if positions == 0 {
        Seq::empty()
    } else if file_exists {
        seq![record]
    } else {
        seq![header, record]
    }
}

/// Decides which rows a run adds to the accumulation file, and builds
/// them.
pub fn report_rows(
    file_exists: bool,
    engine_name: &str,
    cmdline: &str,
    stats: &StatsSummary,
    rendered: &RenderedAverages,
    hist: &BTreeMap<u32, u64>,
) -> (rows: Vec<Vec<String>>)
    ensures
        rows.deep_view() == rows_for_run(
            file_exists,
            stats.positions_analyzed as nat,
            header_row(),
            record_row(engine_name@, cmdline@, *stats, *rendered, hist@),
        ),
{
    let mut rows: Vec<Vec<String>> = Vec::new();
    if stats.positions_analyzed == 0 {
        assert(rows.deep_view() =~= Seq::<Row>::empty());
        return rows;
    }
    if !file_exists {
        rows.push(csv_header());
    }
    rows.push(csv_record(engine_name, cmdline, stats, rendered, hist));
    assert(rows.deep_view() =~= rows_for_run(
        file_exists,
        stats.positions_analyzed as nat,
        header_row(),
        record_row(engine_name@, cmdline@, *stats, *rendered, hist@),
    ));
    rows
}

/// One run against the accumulation file, as far as the file is concerned.
pub struct Run {
    /// How many positions the run analyzed.
    pub positions: nat,
    /// The record row of the run.
    pub record: Row,
}

/// The rows of the accumulation file after a run, given its rows before;
/// `None` is the file that does not exist. A run that adds no rows leaves
/// the file alone.
pub open spec fn file_after(file: Option<Seq<Row>>, header: Row, run: Run) -> Option<Seq<Row>> {
    let rows = rows_for_run(file is Some, run.positions, header, run.record);
    if rows.len() == 0 {
        file
    } else {
        match file {
            Some(before) => Some(before + rows),
            None => Some(rows),
        }
    }
}

/// The rows of a file that did not exist, after `runs` one after the other.
pub open spec fn file_after_runs(header: Row, runs: Seq<Run>) -> Option<Seq<Row>>
    decreases runs.len(),
{
    if runs.len() == 0 {
        None
    } else {
        file_after(file_after_runs(header, runs.drop_last()), header, runs.last())
    }
}

/// The records of the runs that analyzed a position, in the order of the
/// runs.
pub open spec fn records_of(runs: Seq<Run>) -> Seq<Row>
    decreases runs.len(),
{
    if runs.len() == 0 {
        Seq::empty()
    } else if runs.last().positions == 0 {
        records_of(runs.drop_last())
    } else {
        records_of(runs.drop_last()).push(runs.last().record)
    }
}

/// How many of `runs` wrote the header row.
pub open spec fn header_writes(header: Row, runs: Seq<Run>) -> nat
    decreases runs.len(),
{
    if runs.len() == 0 {
        0
    } else {
        let file = file_after_runs(header, runs.drop_last());
        header_writes(header, runs.drop_last()) + if rows_for_run(
            file is Some,
            runs.last().positions,
            header,
            runs.last().record,
        ).len() == 2 {
            1nat
        } else {
            0nat
        }
    }
}

/// The header is written once. After any runs against a file that did not
/// exist, either no run analyzed a position and there is still no file, or
/// exactly one run wrote the header and the file holds the header and
/// behind it the records of the runs.
pub proof fn lemma_header_written_once(header: Row, runs: Seq<Run>)
    ensures
        match file_after_runs(header, runs) {
            None => records_of(runs).len() == 0 && header_writes(header, runs) == 0,
            Some(rows) => rows == seq![header] + records_of(runs) && header_writes(header, runs)
                == 1,
        },
    decreases runs.len(),
{
    if runs.len() > 0 {
        lemma_header_written_once(header, runs.drop_last());
        let before = file_after_runs(header, runs.drop_last());
        let last = runs.last();
        if last.positions > 0 {
            match before {
                Some(rows) => {
                    assert(rows + seq![last.record] =~= seq![header] + records_of(runs));
                },
                None => {
                    assert(records_of(runs.drop_last()) =~= Seq::<Row>::empty());
                    assert(seq![header, last.record] =~= seq![header] + records_of(runs));
                },
            }
        }
    }
}

/// The bytes that the `csv` crate writes for one record under its default
/// configuration: the fields, quoted where needed, separated by commas and
/// ended by a line feed.
pub uninterp spec fn csv_line(fields: Seq<Seq<char>>) -> Seq<u8>;

/// Encodes one record with the `csv` crate, in memory: a writer of the
/// default configuration is made over an empty buffer by
/// `csv::Writer::from_writer`, the record is written by
/// `csv::Writer::write_record`, and the buffer is taken back by
/// `csv::Writer::into_inner`, which flushes the writer.
///
/// Believed, not proved: the call succeeds, and the bytes are those that
/// the crate writes for these fields, which depend on the fields alone. It
/// succeeds because the writer is new and writes into memory: writing a
/// record fails only where the buffer cannot be written out, and a
/// `Vec<u8>` takes every write, or where the record has another number of
/// fields than the first record of the writer, and this record is the
/// first.
#[verifier::external_body]
fn encode_record(fields: &Vec<String>) -> (out: Option<Vec<u8>>)
    ensures
        out is Some,
        out matches Some(bytes) ==> bytes@ == csv_line(fields.deep_view()),
{
    let mut writer = csv::Writer::from_writer(Vec::new());
    writer.write_record(fields).ok()?;
    writer.into_inner().ok()
}

/// The rows in comma-separated form: the line of each row, one after the
/// other in the order of the rows.
pub open spec fn all_lines(rows: Seq<Row>) -> Seq<u8>
    decreases rows.len(),
{
    if rows.len() == 0 {
        Seq::empty()
    } else {
        all_lines(rows.drop_last()) + csv_line(rows.last())
    }
}

/// The rows in comma-separated form, to be appended to the file as they
/// are.
pub fn encode_rows(rows: &Vec<Vec<String>>) -> (bytes: Vec<u8>)
    ensures
        bytes@ == all_lines(rows.deep_view()),
{
    let n = rows.len();
    let mut bytes: Vec<u8> = Vec::new();
    let mut i: usize = 0;
    assert(rows.deep_view().take(0) =~= Seq::<Row>::empty());
    while i < n
        invariant
            n == rows.len(),
            i <= n,
            bytes@ == all_lines(rows.deep_view().take(i as int)),
        decreases n - i,
    {
        proof {
            let all = rows.deep_view();
            assert(all.take(i + 1).drop_last() =~= all.take(i as int));
            assert(all.take(i + 1).last() == rows[i as int].deep_view());
        }
        if let Some(line) = encode_record(&rows[i]) {
            let mut line = line;
            bytes.append(&mut line);
        }
        i += 1;
    }
    assert(rows.deep_view().take(n as int) =~= rows.deep_view());
    bytes
}

/// The lines of some rows and then of others are the lines of all of them.
pub proof fn lemma_all_lines_of_both(first: Seq<Row>, second: Seq<Row>)
    ensures
        all_lines(first + second) == all_lines(first) + all_lines(second),
    decreases second.len(),
{
    if second.len() == 0 {
        assert(first + second =~= first);
        assert(all_lines(first) + all_lines(second) =~= all_lines(first));
    } else {
        lemma_all_lines_of_both(first, second.drop_last());
        assert((first + second).drop_last() =~= first + second.drop_last());
        assert((first + second).last() == second.last());
        assert(all_lines(first + second) =~= all_lines(first) + all_lines(second));
    }
}

/// The bytes of the accumulation file after a run, given its bytes before;
/// `None` is the file that does not exist. The run appends the bytes of its
/// rows, and a run without rows leaves the file alone.
pub open spec fn bytes_after(file: Option<Seq<u8>>, header: Row, run: Run) -> Option<Seq<u8>> {
    let rows = rows_for_run(file is Some, run.positions, header, run.record);
    if rows.len() == 0 {
        file
    } else {
        match file {
            Some(before) => Some(before + all_lines(rows)),
            None => Some(all_lines(rows)),
        }
    }
}

/// The bytes of a file that did not exist, after `runs` one after the other.
pub open spec fn bytes_after_runs(header: Row, runs: Seq<Run>) -> Option<Seq<u8>>
    decreases runs.len(),
{
    if runs.len() == 0 {
        None
    } else {
        bytes_after(bytes_after_runs(header, runs.drop_last()), header, runs.last())
    }
}

/// The header is written once, in bytes. After any runs against a file
/// that did not exist, either there is still no file, or the file holds the
/// line of the header and behind it the lines of the records of the runs,
/// in their order, and nothing else.
pub proof fn lemma_header_bytes_written_once(header: Row, runs: Seq<Run>)
    ensures
        match bytes_after_runs(header, runs) {
            None => file_after_runs(header, runs) is None,
            Some(bytes) => file_after_runs(header, runs) is Some && bytes == csv_line(header)
                + all_lines(records_of(runs)),
        },
    decreases runs.len(),
{
    lemma_header_written_once(header, runs);
    if runs.len() > 0 {
        let earlier = runs.drop_last();
        lemma_header_bytes_written_once(header, earlier);
        lemma_header_written_once(header, earlier);
        let last = runs.last();
        let rows = rows_for_run(
            file_after_runs(header, earlier) is Some,
            last.positions,
            header,
            last.record,
        );
        if last.positions > 0 {
            lemma_all_lines_of_both(seq![header], records_of(runs));
            lemma_all_lines_of_both(seq![header], records_of(earlier));
            lemma_lines_of_one(header);
            lemma_lines_of_one(last.record);
            match file_after_runs(header, earlier) {
                Some(before) => {
                    assert(rows =~= seq![last.record]);
                    lemma_all_lines_of_both(before, rows);
                    assert(before + rows =~= seq![header] + records_of(runs));
                },
                None => {
                    assert(rows =~= seq![header] + seq![last.record]);
                    lemma_all_lines_of_both(seq![header], seq![last.record]);
                    assert(records_of(earlier) =~= Seq::<Row>::empty());
                    assert(records_of(runs) =~= seq![last.record]);
                },
            }
        }
    }
}

proof fn lemma_lines_of_one(row: Row)
    ensures
        all_lines(seq![row]) == csv_line(row),
{
    let one = seq![row];
    assert(one.drop_last() =~= Seq::<Row>::empty());
    assert(one.last() == row);
    assert(all_lines(one.drop_last()) =~= Seq::<u8>::empty());
    assert(all_lines(one) == all_lines(one.drop_last()) + csv_line(one.last()));
    assert(all_lines(one) =~= csv_line(row));
}

/// The greatest mate distance, from one up, that the listing of the mate
/// counts goes to: the greatest distance with a count above zero, and one
/// where there is no such distance above one.
pub open spec fn is_listing_limit(hist: Map<u32, u64>, limit: u32) -> bool {
    &&& limit >= 1
    &&& forall|d: u32| #[trigger] hist.contains_key(d) && hist[d] > 0 ==> d <= limit
    &&& limit == 1 || (hist.contains_key(limit) && hist[limit] > 0)
}

/// Finds how far the listing of the mate counts goes.
pub fn listing_limit(hist: &BTreeMap<u32, u64>) -> (limit: u32)
    ensures
        is_listing_limit(hist@, limit),
{
    let mut limit: u32 = 1;
    let entries = hist.iter();
    assert forall|k: int| 0 <= k < entries.remaining().len() implies hist@.contains_key(
        *(#[trigger] entries.remaining()[k]).0,
    ) && hist@[*entries.remaining()[k].0] == *entries.remaining()[k].1 by {
        assert(hist@.contains_key(*entries.remaining()[k].0));
    }
    for entry in it: entries
        invariant
            it.seq() == entries.remaining(),
            forall|k: int|
                0 <= k < it.seq().len() ==> hist@.contains_key(*(#[trigger] it.seq()[k]).0)
                    && hist@[*it.seq()[k].0] == *it.seq()[k].1,
            limit >= 1,
            limit == 1 || (hist@.contains_key(limit) && hist@[limit] > 0),
            forall|k: int|
                0 <= k < it.index() ==> (*(#[trigger] it.seq()[k]).1 > 0 ==> *it.seq()[k].0
                    <= limit),
    {
        let (d, count) = entry;
        if *count > 0 && *d > limit {
            limit = *d;
        }
    }
    assert forall|d: u32| #[trigger] hist@.contains_key(d) && hist@[d] > 0 implies d <= limit by {
        let k = entries.remaining().index_of((&d, &hist@[d]));
        assert(entries.remaining()[k] == (&d, &hist@[d]));
    }
    limit
}

} // verus!
