use summarise_csv::engine::{Summariser, SummaryError};
use summarise_csv::lines::TextLines;
use summarise_csv::summary::Summary;
use summarise_csv::tokenizer::split_headings;

struct Run {
    headings: Vec<String>,
    counts: Vec<u64>,
    sums: Vec<f64>,
}

impl Run {
    fn mean(&self, column: usize) -> f64 {
        self.sums[column] / self.counts[column] as f64
    }
}

fn summarise(text: &str) -> Result<Run, SummaryError> {
    let mut lines = TextLines::new(text);
    let heading_line = lines.next_line().unwrap_or("");
    let headings: Vec<String> = split_headings(heading_line)
        .iter()
        .map(|h| h.to_string())
        .collect();
    let mut engine = Summariser::new(headings.len());
    let mut sums = vec![0.0f64; headings.len()];
    while let Some(line) = lines.next_line() {
        let fields = engine.row_fields(line);
        let values: Vec<Option<f64>> = fields.iter().map(|f| f.parse::<f64>().ok()).collect();
        let parsed: Vec<bool> = values.iter().map(|v| v.is_some()).collect();
        engine.accept_row(&parsed)?;
        for (sum, value) in sums.iter_mut().zip(values) {
            *sum += value.unwrap();
        }
    }
    let counts = engine.finish().iter().map(|s| s.count()).collect();
    Ok(Run { headings, counts, sums })
}

#[test]
fn summary_counts_values() {
    let mut s = Summary::new();
    assert_eq!(s.count(), 0);
    s.record();
    s.record();
    assert_eq!(s.count(), 2);
}

#[test]
fn end_to_end_example() {
    let run = summarise("year,data\n2019,61\n2020,62\n2021,9999").unwrap();
    assert_eq!(run.headings, vec!["year".to_string(), "data".to_string()]);
    assert_eq!(run.counts, vec![3, 3]);
    assert_eq!(run.mean(0), 2020.0);
    assert_eq!(run.mean(1), 3374.0);
}

#[test]
fn ragged_rows() {
    let run = summarise("a,b\n1,2\n3\n5,6,7").unwrap();
    assert_eq!(run.counts, vec![3, 2]);
    assert_eq!(run.sums, vec![9.0, 8.0]);
    assert_eq!(run.mean(0), 3.0);
    assert_eq!(run.mean(1), 4.0);
}

#[test]
fn malformed_field_fails_the_run() {
    let err = summarise("a,b\n1,x\n").err();
    assert_eq!(err, Some(SummaryError::MalformedNumber { line: 2, field: 1 }));
}

#[test]
fn empty_field_is_malformed() {
    let err = summarise("a,b\n1,2\n,4\n").err();
    assert_eq!(err, Some(SummaryError::MalformedNumber { line: 3, field: 0 }));
}

#[test]
fn empty_after_heading() {
    let run = summarise("a,b\n").unwrap();
    assert_eq!(run.counts, vec![0, 0]);
    assert!(run.mean(0).is_nan());
}

#[test]
fn identical_streams_identical_results() {
    let text = "p,q,r\n1,2,3\n4,5\n6,7,8,9\n";
    let first = summarise(text).unwrap();
    let second = summarise(text).unwrap();
    assert_eq!(first.counts, second.counts);
    assert_eq!(first.sums, second.sums);
}

#[test]
fn row_fields_pairs_with_columns() {
    let engine = Summariser::new(2);
    assert_eq!(engine.row_fields("5,6,7"), vec!["5", "6"]);
    assert_eq!(engine.row_fields("3"), vec!["3"]);
    assert_eq!(engine.row_fields(""), vec![""]);
}

#[test]
fn accept_row_counts_each_reached_column() {
    let mut engine = Summariser::new(3);
    assert_eq!(engine.accept_row(&vec![true, true, true]), Ok(()));
    assert_eq!(engine.accept_row(&vec![true]), Ok(()));
    assert_eq!(engine.line(), 3);
    assert!(engine.is_running());
    let counts: Vec<u64> = engine.finish().iter().map(|s| s.count()).collect();
    assert_eq!(counts, vec![2, 1, 1]);
}

#[test]
fn accept_row_reports_first_bad_field() {
    let mut engine = Summariser::new(3);
    assert_eq!(engine.accept_row(&vec![true, true]), Ok(()));
    assert_eq!(
        engine.accept_row(&vec![true, false, false]),
        Err(SummaryError::MalformedNumber { line: 3, field: 1 })
    );
    assert!(!engine.is_running());
}

#[test]
fn read_failure_ends_the_run() {
    let mut engine = Summariser::new(1);
    assert_eq!(engine.accept_row(&vec![true]), Ok(()));
    assert_eq!(engine.read_failed(), SummaryError::Read { line: 2 });
    assert!(!engine.is_running());
    assert_eq!(engine.num_columns(), 1);
}

#[test]
fn zero_columns() {
    let mut engine = Summariser::new(0);
    assert!(engine.row_fields("1,2").is_empty());
    assert_eq!(engine.accept_row(&vec![]), Ok(()));
    assert!(engine.finish().is_empty());
}
