//! The state of the desktop converter's form and how each user action or
//! worker report changes it.

use crate::convert::{ConversionProgress, ConversionStats};
use crate::error::ConversionError;
use crate::text::{
    all_digits, decimal, digits_value, lemma_decimal_reads_back, parse_u32, push_decimal,
    spec_parse_u32, trim, trimmed,
};
use vstd::prelude::*;
use vstd::string::StringExecFns;

verus! {

/// What the desktop converter shows and keeps between frames.
pub struct ConverterForm {
    /// The CSV to convert, as typed or chosen.
    pub input_path: String,
    /// Where to save the PGN, as typed or chosen.
    pub output_path: String,
    /// The inclusive minimum rating, as typed.
    pub minimum_rating: String,
    /// The latest progress of a conversion.
    pub progress: Option<ConversionProgress>,
    /// The status line.
    pub status: String,
    /// Whether the status line reports an error.
    pub error: bool,
}

/// A conversion that the form asks to start.
#[derive(Debug, PartialEq, Eq)]
pub struct ConversionRequest {
    pub input: String,
    pub output: String,
    pub minimum_rating: u32,
}

/// The status after a successful conversion.
pub open spec fn finished_status(stats: ConversionStats) -> Seq<char> {
    "Finished: "@ + decimal(stats.puzzles_written as nat) + " puzzles exported from "@ + decimal(
        stats.records_read as nat,
    ) + " rows."@
}

/// The caption of a running conversion's progress.
pub open spec fn progress_caption_text(p: ConversionProgress) -> Seq<char> {
    decimal(p.records_read as nat) + " rows read · "@ + decimal(p.puzzles_written as nat)
        + " puzzles written"@
}

/// The caption of a running conversion's progress: `{rows} rows read · {puzzles} puzzles written`.
pub fn progress_caption(progress: ConversionProgress) -> (caption: String)
    ensures
        caption@ == progress_caption_text(progress),
{
    let mut caption = String::new();
    push_decimal(&mut caption, progress.records_read);
    caption.append(" rows read · ");
    push_decimal(&mut caption, progress.puzzles_written);
    caption.append(" puzzles written");
    caption
}

impl ConverterForm {
    /// An empty form with a minimum rating of 0.
    pub fn new() -> (form: Self)
        ensures
            form.input_path@ == Seq::<char>::empty(),
            form.output_path@ == Seq::<char>::empty(),
            form.minimum_rating@ == "0"@,
            form.progress is None,
            form.status@ == Seq::<char>::empty(),
            !form.error,
    {
        ConverterForm {
            input_path: String::new(),
            output_path: String::new(),
            minimum_rating: String::from_str("0"),
            progress: None,
            status: String::new(),
            error: false,
        }
    }

    /// Whether a conversion can start: none is running, both paths are
    /// given and the minimum rating is a whole number (surrounding
    /// whitespace ignored).
    pub fn is_ready_to_convert(&self, is_converting: bool) -> (r: bool)
        ensures
            r == (!is_converting && trim(self.input_path@).len() > 0 && trim(self.output_path@).len()
                > 0 && spec_parse_u32(trim(self.minimum_rating@)) is Some),
    {
        if is_converting {
            return false;
        }
        let input = trimmed(self.input_path.as_str());
        let output = trimmed(self.output_path.as_str());
        let minimum = trimmed(self.minimum_rating.as_str());
        !input.as_str().is_empty() && !output.as_str().is_empty() && parse_u32(
            minimum.as_str(),
        ).is_some()
    }

    /// Whether the form warns that the minimum rating is not a whole number:
    /// only once something is typed.
    pub fn shows_rating_warning(&self) -> (r: bool)
        ensures
            r == (trim(self.minimum_rating@).len() > 0 && spec_parse_u32(
                trim(self.minimum_rating@),
            ) is None),
    {
        let minimum = trimmed(self.minimum_rating.as_str());
        !minimum.as_str().is_empty() && parse_u32(minimum.as_str()).is_none()
    }

    /// Shows `message` as an error.
    pub fn fail(&mut self, message: &str)
        ensures
            final(self).status@ == message@,
            final(self).error,
            final(self).input_path == old(self).input_path,
            final(self).output_path == old(self).output_path,
            final(self).minimum_rating == old(self).minimum_rating,
            final(self).progress == old(self).progress,
    {
        self.status = String::from_str(message);
        self.error = true;
    }

    /// Takes the chosen CSV `input`; an empty output path becomes
    /// `suggested_output`.
    pub fn input_chosen(&mut self, input: String, suggested_output: String)
        ensures
            final(self).input_path@ == input@,
            old(self).output_path@.len() == 0 ==> final(self).output_path@ == suggested_output@,
            old(self).output_path@.len() > 0 ==> final(self).output_path == old(self).output_path,
            final(self).status@ == "Puzzle database selected."@,
            !final(self).error,
            final(self).minimum_rating == old(self).minimum_rating,
            final(self).progress == old(self).progress,
    {
        self.input_path = input;
        if self.output_path.as_str().is_empty() {
            self.output_path = suggested_output;
        }
        self.status = String::from_str("Puzzle database selected.");
        self.error = false;
    }

    /// Takes the chosen PGN `output`.
    pub fn output_chosen(&mut self, output: String)
        ensures
            final(self).output_path@ == output@,
            final(self).status@ == "Output location selected."@,
            !final(self).error,
            final(self).input_path == old(self).input_path,
            final(self).minimum_rating == old(self).minimum_rating,
            final(self).progress == old(self).progress,
    {
        self.output_path = output;
        self.status = String::from_str("Output location selected.");
        self.error = false;
    }

    /// Starts a conversion when the form allows it: the input (without
    /// surrounding whitespace) must name an existing file (`input_is_file`),
    /// the output must be given and the minimum rating must be a whole
    /// number. Otherwise the form shows why and nothing starts.
    pub fn request_conversion(&mut self, input_is_file: bool) -> (r: Option<ConversionRequest>)
        ensures
            final(self).input_path == old(self).input_path,
            final(self).output_path == old(self).output_path,
            final(self).minimum_rating == old(self).minimum_rating,
            r is None ==> final(self).progress == old(self).progress,
            (trim(old(self).input_path@).len() == 0 || !input_is_file) ==> r is None
                && final(self).error && final(self).status@
                == "Choose an existing Lichess puzzle CSV file first."@,
            (trim(old(self).input_path@).len() > 0 && input_is_file && trim(
                old(self).output_path@,
            ).len() == 0) ==> r is None && final(self).error && final(self).status@
                == "Choose where to save the PGN file first."@,
            (trim(old(self).input_path@).len() > 0 && input_is_file && trim(
                old(self).output_path@,
            ).len() > 0 && spec_parse_u32(trim(old(self).minimum_rating@)) is None) ==> r is None
                && final(self).error && final(self).status@
                == "Minimum rating must be a non-negative whole number."@,
            (trim(old(self).input_path@).len() > 0 && input_is_file && trim(
                old(self).output_path@,
            ).len() > 0 && spec_parse_u32(trim(old(self).minimum_rating@)) is Some) ==> {
                &&& r is Some
                &&& r->0.input@ == trim(old(self).input_path@)
                &&& r->0.output@ == trim(old(self).output_path@)
                &&& r->0.minimum_rating == spec_parse_u32(trim(old(self).minimum_rating@))->0
                &&& final(self).progress == Some(
                    ConversionProgress { records_read: 0, puzzles_written: 0 },
                )
                &&& final(self).status@ == "Converting…"@
                &&& !final(self).error
            },
    {
        let input = trimmed(self.input_path.as_str());
        let output = trimmed(self.output_path.as_str());
        if input.as_str().is_empty() || !input_is_file {
            self.fail("Choose an existing Lichess puzzle CSV file first.");
            return None;
        }
        if output.as_str().is_empty() {
            self.fail("Choose where to save the PGN file first.");
            return None;
        }
        let minimum = trimmed(self.minimum_rating.as_str());
        let minimum_rating = match parse_u32(minimum.as_str()) {
            Some(rating) => rating,
            None => {
                self.fail("Minimum rating must be a non-negative whole number.");
                return None;
            },
        };
        self.progress = Some(ConversionProgress { records_read: 0, puzzles_written: 0 });
        self.status = String::from_str("Converting…");
        self.error = false;
        Some(ConversionRequest { input, output, minimum_rating })
    }

    /// Records a progress report of the running conversion.
    pub fn progress_reported(&mut self, progress: ConversionProgress)
        ensures
            final(self).progress == Some(progress),
            final(self).status == old(self).status,
            final(self).error == old(self).error,
            final(self).input_path == old(self).input_path,
            final(self).output_path == old(self).output_path,
            final(self).minimum_rating == old(self).minimum_rating,
    {
        self.progress = Some(progress);
    }

    /// Records the end of a conversion: its counts and a summary, or its error.
    pub fn conversion_finished(&mut self, result: Result<ConversionStats, ConversionError>)
        ensures
            final(self).input_path == old(self).input_path,
            final(self).output_path == old(self).output_path,
            final(self).minimum_rating == old(self).minimum_rating,
            result is Ok ==> {
                let stats = result->Ok_0;
                &&& final(self).progress == Some(
                    ConversionProgress {
                        records_read: stats.records_read,
                        puzzles_written: stats.puzzles_written,
                    },
                )
                &&& final(self).status@ == finished_status(stats)
                &&& !final(self).error
            },
            result is Err ==> final(self).status@ == "Conversion failed: "@ + result->Err_0@
                && final(self).error && final(self).progress == old(self).progress,
    {
        match result {
            Ok(stats) => {
                self.progress = Some(
                    ConversionProgress {
                        records_read: stats.records_read,
                        puzzles_written: stats.puzzles_written,
                    },
                );
                let mut status = String::from_str("Finished: ");
                push_decimal(&mut status, stats.puzzles_written);
                status.append(" puzzles exported from ");
                push_decimal(&mut status, stats.records_read);
                status.append(" rows.");
                self.status = status;
                self.error = false;
            },
            Err(error) => {
                let mut message = String::from_str("Conversion failed: ");
                message.append(error.message());
                self.fail(message.as_str());
            },
        }
    }
}

} // verus!

verus! {

/// The file name offered for the PGN when none is chosen yet.
pub open spec fn default_output_name_text() -> Seq<char> {
    "lichess-puzzles-filtered.pgn"@
}

/// The file name offered for the PGN when none is chosen yet.
pub fn default_output_name() -> (name: &'static str)
    ensures
        name@ == default_output_name_text(),
{
    "lichess-puzzles-filtered.pgn"
}

/// The file name suggested for the PGN of a CSV whose file stem is `stem`:
/// `{stem}-filtered.pgn`, or the default name when the stem is unknown.
pub fn suggested_output_name(stem: Option<&str>) -> (name: String)
    ensures
        stem is Some ==> name@ == stem->0@ + "-filtered.pgn"@,
        stem is None ==> name@ == default_output_name_text(),
{
    match stem {
        Some(stem) => {
            let mut name = String::from_str(stem);
            name.append("-filtered.pgn");
            name
        },
        None => String::from_str(default_output_name()),
    }
}

} // verus!

verus! {

/// The status after a successful conversion names the puzzles written as
/// the exported count and the rows read as the rows, whatever their size:
/// each count is written as a run of ASCII digits that reads back as it.
pub proof fn lemma_finished_status_reports_the_counts(stats: ConversionStats)
    ensures
        finished_status(stats) == "Finished: "@ + decimal(stats.puzzles_written as nat)
            + " puzzles exported from "@ + decimal(stats.records_read as nat) + " rows."@,
        all_digits(decimal(stats.puzzles_written as nat)),
        digits_value(decimal(stats.puzzles_written as nat)) == stats.puzzles_written,
        all_digits(decimal(stats.records_read as nat)),
        digits_value(decimal(stats.records_read as nat)) == stats.records_read,
{
    lemma_decimal_reads_back(stats.puzzles_written as nat);
    lemma_decimal_reads_back(stats.records_read as nat);
}

/// The progress caption names the rows read, then the puzzles written.
pub proof fn lemma_progress_caption_reports_the_counts(p: ConversionProgress)
    ensures
        progress_caption_text(p) == decimal(p.records_read as nat) + " rows read · "@ + decimal(
            p.puzzles_written as nat,
        ) + " puzzles written"@,
        digits_value(decimal(p.records_read as nat)) == p.records_read,
        digits_value(decimal(p.puzzles_written as nat)) == p.puzzles_written,
{
    lemma_decimal_reads_back(p.records_read as nat);
    lemma_decimal_reads_back(p.puzzles_written as nat);
}

} // verus!
