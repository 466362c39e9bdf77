use csvtool::table::{
    extract_column, rewrite, rewrite_with_accumulator, sum_durations, Config, OnParseError,
};
use csvtool::ProcessingError;

fn row(cells: &[&str]) -> Vec<String> {
    cells.iter().map(|c| c.to_string()).collect()
}

#[test]
fn test_sum_durations() {
    let cells = row(&["1:30", "0:45", "2:00"]);
    assert_eq!(sum_durations(&cells), "4:15");
}

#[test]
fn test_sum_durations_empty() {
    let cells: Vec<String> = Vec::new();
    assert_eq!(sum_durations(&cells), "0:00");
}

#[test]
fn test_sum_durations_unparseable_contributes_zero() {
    let cells = row(&["1:00", "abc", "0:30"]);
    assert_eq!(sum_durations(&cells), "1:30");
}

#[test]
fn test_extract_column() {
    let header = row(&["task", "duration"]);
    let record = row(&["write report", " 1:30 "]);
    assert_eq!(extract_column("duration", "0:00", &header, &record), "1:30");
    assert_eq!(extract_column("task", "0:00", &header, &record), "write report");
    assert_eq!(extract_column("missing", "0:00", &header, &record), "0:00");
}

#[test]
fn test_extract_column_matches_trimmed_header() {
    let header = row(&[" task ", " duration "]);
    let record = row(&["a", "2:15"]);
    assert_eq!(extract_column("duration", "0:00", &header, &record), "2:15");
}

#[test]
fn test_rewrite_without_normalization_reproduces_table() {
    let header = row(&[" task ", "duration"]);
    let rows = vec![row(&["a ", " 1:30"]), row(&["b", "0:45 "])];
    let (out_header, out_rows) = rewrite(&header, &rows, false);
    assert_eq!(out_header, header);
    assert_eq!(out_rows, rows);
}

#[test]
fn test_rewrite_with_normalization_trims_cells() {
    let header = row(&[" task ", "duration"]);
    let rows = vec![row(&["a ", " 1:30"])];
    let (out_header, out_rows) = rewrite(&header, &rows, true);
    assert_eq!(out_header, row(&["task", "duration"]));
    assert_eq!(out_rows, vec![row(&["a", "1:30"])]);
}

fn strict() -> Config {
    Config { normalize_cells: true, on_parse_error: OnParseError::Abort }
}

fn lenient() -> Config {
    Config { normalize_cells: true, on_parse_error: OnParseError::TreatAsZero }
}

#[test]
fn test_accumulator_end_to_end() {
    let header = row(&["task", "duration"]);
    let rows = vec![
        row(&["a", "1:30"]),
        row(&["b", "0:45"]),
        row(&["c", "2:00"]),
    ];
    let (out_header, out_rows) =
        rewrite_with_accumulator(&header, &rows, "duration", strict()).unwrap();
    assert_eq!(out_header, header);
    assert_eq!(out_rows.len(), 4);
    assert_eq!(out_rows[0], rows[0]);
    assert_eq!(out_rows[1], rows[1]);
    assert_eq!(out_rows[2], rows[2]);
    assert_eq!(out_rows[3], row(&["", "4:15"]));
}

#[test]
fn test_accumulator_zero_rows_boundary() {
    let header = row(&["task", "duration"]);
    let rows: Vec<Vec<String>> = Vec::new();
    let (_, out_rows) = rewrite_with_accumulator(&header, &rows, "duration", strict()).unwrap();
    assert_eq!(out_rows.len(), 1);
    assert_eq!(out_rows[0], row(&["", "0:00"]));
}

#[test]
fn test_accumulator_strict_rejects_unparseable_cell() {
    let header = row(&["task", "duration"]);
    let rows = vec![row(&["a", "1:30"]), row(&["b", "abc"])];
    let result = rewrite_with_accumulator(&header, &rows, "duration", strict());
    match result {
        Err(ProcessingError::Parsing { cause }) => assert_eq!(cause, "abc"),
        _ => panic!("expected a parsing error"),
    }
}

#[test]
fn test_accumulator_lenient_treats_unparseable_cell_as_zero() {
    let header = row(&["task", "duration"]);
    let rows = vec![row(&["a", "1:30"]), row(&["b", "abc"])];
    let (_, out_rows) = rewrite_with_accumulator(&header, &rows, "duration", lenient()).unwrap();
    assert_eq!(out_rows.len(), 3);
    assert_eq!(out_rows[2], row(&["", "1:30"]));
}

#[test]
fn test_accumulator_missing_column_passes_rows_through() {
    let header = row(&["task", "duration"]);
    let rows = vec![row(&["a", "1:30"])];
    let (_, out_rows) = rewrite_with_accumulator(&header, &rows, "effort", strict()).unwrap();
    assert_eq!(out_rows.len(), 2);
    assert_eq!(out_rows[0], rows[0]);
    assert_eq!(out_rows[1], row(&["", ""]));
}

#[test]
fn test_accumulator_summing_summed_rows_again_gives_same_total() {
    let header = row(&["task", "duration"]);
    let rows = vec![row(&[" a ", " 1:30 "]), row(&["b", "0:45"])];
    let (out_header, out_rows) =
        rewrite_with_accumulator(&header, &rows, "duration", strict()).unwrap();
    let data_rows: Vec<Vec<String>> = out_rows[..out_rows.len() - 1].to_vec();
    let (_, again) =
        rewrite_with_accumulator(&out_header, &data_rows, "duration", strict()).unwrap();
    assert_eq!(again[again.len() - 1], row(&["", "2:15"]));
    assert_eq!(out_rows[out_rows.len() - 1], row(&["", "2:15"]));
}

#[test]
fn test_error_messages() {
    let e = ProcessingError::FileAccess { path: "in.csv".to_string() };
    assert_eq!(e.message(), "unable to access file in.csv");
    let e = ProcessingError::Parsing { cause: "abc".to_string() };
    assert_eq!(e.message(), "abc");
    let e = ProcessingError::CsvError;
    assert_eq!(e.message(), "unable to process CSV file");
}
