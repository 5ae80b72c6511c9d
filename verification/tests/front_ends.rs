use lichess_puzzle_csv_to_pgn::cli::{
    error_report, finished_line, next_value, parse_arguments, progress_line, usage, CliRequest,
};
use lichess_puzzle_csv_to_pgn::error::ConversionError;
use lichess_puzzle_csv_to_pgn::form::{
    default_output_name, progress_caption, suggested_output_name, ConversionRequest, ConverterForm,
};
use lichess_puzzle_csv_to_pgn::{ConversionProgress, ConversionStats};

fn args(items: &[&str]) -> Vec<String> {
    items.iter().map(|s| s.to_string()).collect()
}

#[test]
fn reads_the_three_required_options() {
    assert_eq!(
        parse_arguments(&args(&["--input", "p.csv", "--output", "o.pgn", "--min-rating", "1500"])),
        Ok(CliRequest::Convert {
            input: "p.csv".to_string(),
            output: "o.pgn".to_string(),
            minimum_rating: 1500
        })
    );
    assert_eq!(
        parse_arguments(&args(&["-m", "7", "-o", "x", "-i", "y", "-i", "z"])),
        Ok(CliRequest::Convert { input: "z".to_string(), output: "x".to_string(), minimum_rating: 7 })
    );
}

#[test]
fn asks_for_help_at_once() {
    assert_eq!(parse_arguments(&args(&["-h"])), Ok(CliRequest::Help));
    assert_eq!(parse_arguments(&args(&["--input", "a", "--help", "--bogus"])), Ok(CliRequest::Help));
}

#[test]
fn reports_argument_problems() {
    assert_eq!(parse_arguments(&args(&[])), Err("--input is required".to_string()));
    assert_eq!(parse_arguments(&args(&["-i", "a"])), Err("--output is required".to_string()));
    assert_eq!(parse_arguments(&args(&["-i", "a", "-o", "b"])), Err("--min-rating is required".to_string()));
    assert_eq!(parse_arguments(&args(&["-i"])), Err("--input requires a value".to_string()));
    assert_eq!(parse_arguments(&args(&["-m", "-5"])), Err("--min-rating must be a non-negative whole number".to_string()));
    assert_eq!(parse_arguments(&args(&["--frobnicate"])), Err("unrecognized argument `--frobnicate`".to_string()));
    assert_eq!(next_value(&args(&["a", "b"]), 1, "--x"), Ok("b".to_string()));
    assert_eq!(next_value(&args(&["a"]), 1, "--x"), Err("--x requires a value".to_string()));
}

#[test]
fn prints_usage_progress_and_summary() {
    assert!(usage().starts_with("Usage:\n  lichess-puzzle-csv-to-pgn-cli --input"));
    assert_eq!(progress_line(ConversionProgress { records_read: 0, puzzles_written: 0 }), None);
    assert_eq!(
        progress_line(ConversionProgress { records_read: 20000, puzzles_written: 31 }),
        Some("Read 20000 rows; wrote 31 puzzles…".to_string())
    );
    assert_eq!(
        finished_line(ConversionStats { records_read: 5, puzzles_written: 3, skipped_by_rating: 2 }, "out.pgn"),
        "Finished: wrote 3 puzzles from 5 rows (2 below the minimum rating) to out.pgn."
    );
    assert_eq!(error_report("boom"), format!("Error: boom\n\n{}", usage()));
}

#[test]
fn the_form_starts_empty_and_ready_only_when_complete() {
    let mut form = ConverterForm::new();
    assert_eq!(form.minimum_rating, "0");
    assert!(!form.is_ready_to_convert(false));
    form.input_path = " in.csv ".to_string();
    form.output_path = "out.pgn".to_string();
    assert!(form.is_ready_to_convert(false));
    assert!(!form.is_ready_to_convert(true));
    form.minimum_rating = " 15x ".to_string();
    assert!(!form.is_ready_to_convert(false));
    assert!(form.shows_rating_warning());
    form.minimum_rating = "  ".to_string();
    assert!(!form.shows_rating_warning());
}

#[test]
fn the_form_explains_why_a_conversion_cannot_start() {
    let mut form = ConverterForm::new();
    assert_eq!(form.request_conversion(true), None);
    assert_eq!(form.status, "Choose an existing Lichess puzzle CSV file first.");
    assert!(form.error);
    form.input_path = "in.csv".to_string();
    assert_eq!(form.request_conversion(false), None);
    assert_eq!(form.status, "Choose an existing Lichess puzzle CSV file first.");
    assert_eq!(form.request_conversion(true), None);
    assert_eq!(form.status, "Choose where to save the PGN file first.");
    form.output_path = "out.pgn".to_string();
    form.minimum_rating = "abc".to_string();
    assert_eq!(form.request_conversion(true), None);
    assert_eq!(form.status, "Minimum rating must be a non-negative whole number.");
    form.minimum_rating = " 1800 ".to_string();
    assert_eq!(
        form.request_conversion(true),
        Some(ConversionRequest { input: "in.csv".to_string(), output: "out.pgn".to_string(), minimum_rating: 1800 })
    );
    assert_eq!(form.status, "Converting…");
    assert!(!form.error);
    assert_eq!(form.progress, Some(ConversionProgress::default()));
}

#[test]
fn the_form_follows_the_worker_reports() {
    let mut form = ConverterForm::new();
    form.input_chosen("/data/p.csv".to_string(), "/data/p-filtered.pgn".to_string());
    assert_eq!(form.output_path, "/data/p-filtered.pgn");
    assert_eq!(form.status, "Puzzle database selected.");
    form.input_chosen("/data/q.csv".to_string(), "/data/q-filtered.pgn".to_string());
    assert_eq!(form.output_path, "/data/p-filtered.pgn");
    form.output_chosen("/tmp/x.pgn".to_string());
    assert_eq!(form.status, "Output location selected.");
    form.progress_reported(ConversionProgress { records_read: 10000, puzzles_written: 9 });
    assert_eq!(form.progress, Some(ConversionProgress { records_read: 10000, puzzles_written: 9 }));
    form.conversion_finished(Ok(ConversionStats { records_read: 12, puzzles_written: 4, skipped_by_rating: 8 }));
    assert_eq!(form.status, "Finished: 4 puzzles exported from 12 rows.");
    assert_eq!(form.progress, Some(ConversionProgress { records_read: 12, puzzles_written: 4 }));
    assert!(!form.error);
    form.conversion_finished(Err(ConversionError::new("disk full".to_string())));
    assert_eq!(form.status, "Conversion failed: disk full");
    assert!(form.error);
    assert_eq!(
        progress_caption(ConversionProgress { records_read: 3, puzzles_written: 1 }),
        "3 rows read · 1 puzzles written"
    );
}

#[test]
fn suggests_an_output_name_from_the_input_stem() {
    assert_eq!(suggested_output_name(Some("lichess_db_puzzle")), "lichess_db_puzzle-filtered.pgn");
    assert_eq!(suggested_output_name(None), "lichess-puzzles-filtered.pgn");
    assert_eq!(default_output_name(), "lichess-puzzles-filtered.pgn");
}
