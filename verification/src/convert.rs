//! The conversion itself: selecting puzzles by rating and rendering them as
//! PGN, record by record, with the counts that a conversion reports.

use crate::chess::{lemma_legal_line_converts, moves_convert};
use crate::error::{row_message, ConversionError};
use crate::pgn::{puzzle_head, spec_puzzle_game, write_puzzle};
use crate::puzzle::{spec_columns, spec_puzzle, ColumnIndexes, Puzzle};
use crate::table::{csv_items, csv_next, csv_open, csv_pending, SpecCsvItem};
use crate::text::{debug_str, parse_u32, spec_parse_u32, str_debug};
use vstd::prelude::*;
use vstd::string::StringExecFns;

verus! {

/// Aggregate information about a completed conversion.
#[derive(Debug, Clone, Copy, Default, PartialEq, Eq, Structural)]
pub struct ConversionStats {
    /// Data rows examined, excluding the CSV header.
    pub records_read: u64,
    /// Puzzles written to the PGN.
    pub puzzles_written: u64,
    /// Rows omitted because their rating was below the configured minimum.
    pub skipped_by_rating: u64,
}

/// A snapshot taken periodically while a conversion is running.
#[derive(Debug, Clone, Copy, Default, PartialEq, Eq, Structural)]
pub struct ConversionProgress {
    pub records_read: u64,
    pub puzzles_written: u64,
}

/// Rows are reported in batches of this many.
pub const PROGRESS_INTERVAL: u64 = 10_000;

/// A count of rows read at which progress is reported.
pub open spec fn is_progress_point(k: int) -> bool {
    k % (PROGRESS_INTERVAL as int) == 0
}

/// The message when a rating field is not a non-negative integer.
pub open spec fn rating_error_text(rating: Seq<char>) -> Seq<char> {
    "`Rating` must be a non-negative integer, found "@ + str_debug(rating)
}

/// What one data record (CSV row `row`) contributes: its PGN game when its
/// rating is at least `minimum`, nothing when it is below, or the message of
/// the failure that stops the conversion.
pub open spec fn spec_row(record: Seq<Seq<char>>, c: ColumnIndexes, row: nat, minimum: u32) -> Result<
    Option<Seq<char>>,
    Seq<char>,
> {
    match spec_puzzle(record, c, row) {
        Err(message) => Err(message),
        Ok(p) => match spec_parse_u32(p.rating) {
            None => Err(row_message(row, rating_error_text(p.rating))),
            Some(rating) => if rating < minimum {
                Ok(None)
            } else {
                match spec_puzzle_game(p, row) {
                    Ok(game) => Ok(Some(game)),
                    Err(message) => Err(message),
                }
            },
        },
    }
}

/// What the data items `items` give when `read` data rows came before them:
/// the PGN text of the selected puzzles, in order, with the numbers of
/// puzzles written and skipped; or the message of the first failure.
pub open spec fn spec_rows(c: ColumnIndexes, items: Seq<SpecCsvItem>, minimum: u32, read: nat) -> Result<
    (Seq<char>, nat, nat),
    Seq<char>,
>
    decreases items.len(),
{
    if items.len() == 0 {
        Ok((seq![], 0, 0))
    } else {
        match items[0] {
            Err(message) => Err(message),
            Ok(record) => match spec_row(record, c, read + 2, minimum) {
                Err(message) => Err(message),
                Ok(outcome) => match spec_rows(c, items.drop_first(), minimum, read + 1) {
                    Err(message) => Err(message),
                    Ok((text, written, skipped)) => match outcome {
                        None => Ok((text, written, skipped + 1)),
                        Some(game) => Ok((game + text, written + 1, skipped)),
                    },
                },
            },
        }
    }
}

/// The layout that the header item of a CSV document gives (an empty
/// document reads as an empty header), or the message of its failure.
pub open spec fn spec_header(items: Seq<SpecCsvItem>) -> Result<ColumnIndexes, Seq<char>> {
    let header: SpecCsvItem = if items.len() == 0 {
        Ok(seq![])
    } else {
        items[0]
    };
    match header {
        Err(message) => Err(message),
        Ok(names) => spec_columns(names),
    }
}

/// The data items of a CSV document: every item after the header.
pub open spec fn data_items(items: Seq<SpecCsvItem>) -> Seq<SpecCsvItem> {
    if items.len() == 0 {
        seq![]
    } else {
        items.drop_first()
    }
}

/// The outcome of converting the CSV document `input` with the inclusive
/// minimum rating `minimum`: the PGN text with the numbers of rows read,
/// puzzles written and rows skipped for their rating, or the message of the
/// first failure.
pub open spec fn spec_conversion(input: Seq<u8>, minimum: u32) -> Result<
    (Seq<char>, nat, nat, nat),
    Seq<char>,
> {
    let items = csv_items(input);
    match spec_header(items) {
        Err(message) => Err(message),
        Ok(c) => match spec_rows(c, data_items(items), minimum, 0) {
            Err(message) => Err(message),
            Ok((text, written, skipped)) => Ok((text, data_items(items).len(), written, skipped)),
        },
    }
}

/// `outcome` with `text` written before its PGN text.
pub open spec fn after_text(
    text: Seq<char>,
    outcome: Result<(Seq<char>, nat, nat, nat), Seq<char>>,
) -> Result<(Seq<char>, nat, nat, nat), Seq<char>> {
    match outcome {
        Ok((rest, read, written, skipped)) => Ok((text + rest, read, written, skipped)),
        Err(message) => Err(message),
    }
}

fn rating_error(row_number: u64, rating: &str) -> (e: ConversionError)
    ensures
        e@ == row_message(row_number as nat, rating_error_text(rating@)),
{
    let mut text = String::from_str("`Rating` must be a non-negative integer, found ");
    let quoted = debug_str(rating);
    text.append(quoted.as_str());
    ConversionError::row(row_number, text.as_str())
}

/// What a data record adds to the PGN text: its game, or nothing.
pub open spec fn row_text(outcome: Option<Seq<char>>) -> Seq<char> {
    match outcome {
        Some(game) => game,
        None => seq![],
    }
}

/// What converting a record writes before it fails: the head of its game
/// (tag pairs and blank line) when the record is selected and only its
/// moves fail, and nothing otherwise.
pub open spec fn row_head(record: Seq<Seq<char>>, c: ColumnIndexes, row: nat, minimum: u32) -> Seq<
    char,
> {
    match spec_puzzle(record, c, row) {
        Ok(p) => match spec_parse_u32(p.rating) {
            Some(rating) => if rating >= minimum && spec_puzzle_game(p, row) is Err {
                puzzle_head(p)
            } else {
                seq![]
            },
            None => seq![],
        },
        Err(_) => seq![],
    }
}

/// Converts data records one at a time, given the column layout of their
/// header, and keeps the counts.
pub struct RowConverter {
    columns: ColumnIndexes,
    stats: ConversionStats,
}

impl RowConverter {
    /// The column layout read from the header.
    pub closed spec fn columns(&self) -> ColumnIndexes {
        self.columns
    }

    /// The counts so far.
    pub closed spec fn counts(&self) -> ConversionStats {
        self.stats
    }

    /// Every row read so far was written or skipped.
    pub closed spec fn well_formed(&self) -> bool {
        self.stats.records_read == self.stats.puzzles_written + self.stats.skipped_by_rating
    }

    /// Reads the column layout from the header record `header`; no row is
    /// read yet.
    pub fn new(header: &Vec<String>) -> (r: Result<Self, ConversionError>)
        ensures
            r is Err ==> spec_columns(header.deep_view()) == Err::<ColumnIndexes, Seq<char>>(
                r->Err_0@,
            ),
            r is Ok ==> {
                &&& spec_columns(header.deep_view()) == Ok::<ColumnIndexes, Seq<char>>(
                    r->Ok_0.columns(),
                )
                &&& r->Ok_0.counts() == ConversionStats {
                    records_read: 0,
                    puzzles_written: 0,
                    skipped_by_rating: 0,
                }
                &&& r->Ok_0.well_formed()
            },
    {
        let columns = match ColumnIndexes::from_headers(header) {
            Ok(c) => c,
            Err(e) => return Err(e),
        };
        Ok(
            RowConverter {
                columns,
                stats: ConversionStats { records_read: 0, puzzles_written: 0, skipped_by_rating: 0 },
            },
        )
    }

    /// Converts the next data record (CSV row `records_read + 2`, the header
    /// being row 1): appends its PGN game to `output` when its rating is at
    /// least `minimum_rating`, and counts it. Returns whether progress is due,
    /// which is every `PROGRESS_INTERVAL` rows.
    pub fn convert_row(&mut self, record: &Vec<String>, output: &mut String, minimum_rating: u32) -> (r:
        Result<bool, ConversionError>)
        requires
            old(self).well_formed(),
            old(self).counts().records_read < u64::MAX - 1,
        ensures
            final(self).columns() == old(self).columns(),
            r is Err ==> final(self).counts() == old(self).counts() && final(self).well_formed(),
            r is Ok ==> {
                let outcome = spec_row(
                    record.deep_view(),
                    old(self).columns(),
                    old(self).counts().records_read as nat + 2,
                    minimum_rating,
                );
                &&& outcome is Ok
                &&& final(output)@ == old(output)@ + row_text(outcome->Ok_0)
                &&& final(self).well_formed()
                &&& final(self).counts().records_read == old(self).counts().records_read + 1
                &&& final(self).counts().puzzles_written == old(self).counts().puzzles_written + if outcome->Ok_0 is Some {
                    1int
                } else {
                    0int
                }
                &&& final(self).counts().skipped_by_rating == old(self).counts().skipped_by_rating + if outcome->Ok_0 is Some {
                    0int
                } else {
                    1int
                }
                &&& r->Ok_0 == is_progress_point(final(self).counts().records_read as int)
            },
            r is Err ==> spec_row(
                record.deep_view(),
                old(self).columns(),
                old(self).counts().records_read as nat + 2,
                minimum_rating,
            ) == Err::<Option<Seq<char>>, Seq<char>>(r->Err_0@) && final(output)@ == old(output)@
                + row_head(
                record.deep_view(),
                old(self).columns(),
                old(self).counts().records_read as nat + 2,
                minimum_rating,
            ),
    {
        let read = self.stats.records_read + 1;
        let row_number = read + 1;
        let puzzle = match Puzzle::from_record(record, self.columns, row_number) {
            Ok(p) => p,
            Err(e) => return Err(e),
        };
        let rating = match parse_u32(puzzle.rating) {
            Some(v) => v,
            None => return Err(rating_error(row_number, puzzle.rating)),
        };
        if rating < minimum_rating {
            self.stats = ConversionStats {
                records_read: read,
                puzzles_written: self.stats.puzzles_written,
                skipped_by_rating: self.stats.skipped_by_rating + 1,
            };
            assert(output@ =~= old(output)@ + Seq::<char>::empty());
        } else {
            match write_puzzle(output, &puzzle, row_number) {
                Ok(()) => {},
                Err(e) => return Err(e),
            }
            self.stats = ConversionStats {
                records_read: read,
                puzzles_written: self.stats.puzzles_written + 1,
                skipped_by_rating: self.stats.skipped_by_rating,
            };
        }
        Ok(read % PROGRESS_INTERVAL == 0)
    }

    /// The counts so far.
    pub fn stats(&self) -> (s: ConversionStats)
        ensures
            s == self.counts(),
    {
        self.stats
    }

    /// The progress so far.
    pub fn progress(&self) -> (p: ConversionProgress)
        ensures
            p.records_read == self.counts().records_read,
            p.puzzles_written == self.counts().puzzles_written,
    {
        ConversionProgress {
            records_read: self.stats.records_read,
            puzzles_written: self.stats.puzzles_written,
        }
    }
}

/// A conversion of an in-memory CSV document in progress: the CSV reader and
/// the converter of its data records.
pub struct PuzzleCsv<'a> {
    reader: csv::Reader<&'a [u8]>,
    rows: RowConverter,
}

impl<'a> PuzzleCsv<'a> {
    /// The data items still to convert.
    pub closed spec fn pending(&self) -> Seq<SpecCsvItem> {
        csv_pending(self.reader)
    }

    /// The column layout read from the header.
    pub closed spec fn columns(&self) -> ColumnIndexes {
        self.rows.columns
    }

    /// The counts so far.
    pub closed spec fn counts(&self) -> ConversionStats {
        self.rows.stats
    }

    /// The counts agree, and there is room to count every row still pending.
    pub closed spec fn well_formed(&self) -> bool {
        &&& self.rows.well_formed()
        &&& self.rows.stats.records_read + csv_pending(self.reader).len() < u64::MAX
    }

    /// How the conversion ends from here with inclusive minimum rating
    /// `minimum`: the PGN text still to come with the final counts, or the
    /// message of the first failure.
    pub open spec fn outcome(&self, minimum: u32) -> Result<(Seq<char>, nat, nat, nat), Seq<char>> {
        match spec_rows(self.columns(), self.pending(), minimum, self.counts().records_read as nat) {
            Err(message) => Err(message),
            Ok((text, written, skipped)) => Ok(
                (
                    text,
                    self.counts().records_read as nat + self.pending().len(),
                    self.counts().puzzles_written as nat + written,
                    self.counts().skipped_by_rating as nat + skipped,
                ),
            ),
        }
    }

    /// Opens the CSV document `input` and reads its header.
    pub fn open(input: &'a [u8]) -> (r: Result<Self, ConversionError>)
        ensures
            r is Err ==> spec_header(csv_items(input@)) == Err::<ColumnIndexes, Seq<char>>(
                r->Err_0@,
            ),
            r is Ok ==> {
                let source = r->Ok_0;
                &&& spec_header(csv_items(input@)) == Ok::<ColumnIndexes, Seq<char>>(
                    source.columns(),
                )
                &&& source.pending() == data_items(csv_items(input@))
                &&& source.counts() == ConversionStats {
                    records_read: 0,
                    puzzles_written: 0,
                    skipped_by_rating: 0,
                }
                &&& source.well_formed()
            },
    {
        let mut reader = csv_open(input);
        let ghost items = csv_items(input@);
        let ghost first_pending = csv_pending(reader);
        assert(input@.len() == input.len());
        assert(first_pending.len() <= usize::MAX);
        let header = match csv_next(&mut reader) {
            None => Vec::new(),
            Some(Ok(names)) => names,
            Some(Err(message)) => return Err(ConversionError::new(message)),
        };
        assert(header.deep_view() =~= (if items.len() == 0 {
            Seq::<Seq<char>>::empty()
        } else {
            items[0]->Ok_0
        }));
        let rows = match RowConverter::new(&header) {
            Ok(r) => r,
            Err(e) => return Err(e),
        };
        assert(csv_pending(reader) =~= data_items(items));
        assert(csv_pending(reader).len() + 1 <= first_pending.len() || csv_pending(reader).len() == 0);
        assert(csv_pending(reader).len() < u64::MAX);
        Ok(PuzzleCsv { reader, rows })
    }

    /// Converts data rows, appending the PGN games of the selected puzzles to
    /// `output`, until no row is left (`Ok(true)`) or the number of rows read
    /// reaches a multiple of `PROGRESS_INTERVAL` (`Ok(false)`). On a failure,
    /// `output` is left as it was.
    pub fn convert_batch(&mut self, output: &mut String, minimum_rating: u32) -> (r: Result<
        bool,
        ConversionError,
    >)
        requires
            old(self).well_formed(),
        ensures
            r is Ok ==> {
                let before = old(self).counts().records_read as int;
                let after = final(self).counts().records_read as int;
                &&& final(self).well_formed()
                &&& final(self).columns() == old(self).columns()
                &&& final(output)@.len() >= old(output)@.len()
                &&& final(output)@.subrange(0, old(output)@.len() as int) == old(output)@
                &&& old(self).outcome(minimum_rating) == after_text(
                    final(output)@.skip(old(output)@.len() as int),
                    final(self).outcome(minimum_rating),
                )
                &&& final(self).pending().len() + after == old(self).pending().len() + before
                &&& before <= after
                &&& forall|k: int| before < k < after ==> !#[trigger] is_progress_point(k)
                &&& r->Ok_0 ==> final(self).pending().len() == 0
                &&& !r->Ok_0 ==> is_progress_point(after) && before < after
            },
            r is Err ==> old(self).outcome(minimum_rating) == Err::<
                (Seq<char>, nat, nat, nat),
                Seq<char>,
            >(r->Err_0@) && final(output)@ == old(output)@,
    {
        let ghost start_read = self.rows.stats.records_read as int;
        let ghost start = self.outcome(minimum_rating);
        let ghost columns = self.rows.columns;
        let ghost total = self.pending().len() + self.rows.stats.records_read;
        let mut chunk = String::new();
        assert(start == after_text(chunk@, self.outcome(minimum_rating))) by {
            if start is Ok {
                assert(chunk@ + start->Ok_0.0 =~= start->Ok_0.0);
            }
        }
        loop
            invariant
                start == old(self).outcome(minimum_rating),
                start_read == old(self).counts().records_read as int,
                total == old(self).pending().len() + old(self).counts().records_read,
                columns == old(self).columns(),
                self.well_formed(),
                self.rows.columns == columns,
                start == after_text(chunk@, self.outcome(minimum_rating)),
                self.pending().len() + self.rows.stats.records_read == total,
                start_read <= self.rows.stats.records_read,
                forall|k: int|
                    start_read < k <= self.rows.stats.records_read ==> !#[trigger] is_progress_point(
                        k,
                    ),
                output@ == old(output)@,
            decreases self.pending().len(),
        {
            let ghost pending = csv_pending(self.reader);
            let ghost counts = self.rows.stats;
            let ghost outcome_before = self.outcome(minimum_rating);
            let item = csv_next(&mut self.reader);
            match item {
                None => {
                    output.append(chunk.as_str());
                    assert(output@.skip(old(output)@.len() as int) =~= chunk@);
                    assert(output@.subrange(0, old(output)@.len() as int) =~= old(output)@);
                    assert(start == after_text(chunk@, self.outcome(minimum_rating)));
                    return Ok(true);
                },
                Some(Err(message)) => {
                    return Err(ConversionError::new(message));
                },
                Some(Ok(record)) => {
                    let ghost rest = csv_pending(self.reader);
                    assert(rest == pending.drop_first());
                    let ghost before_chunk = chunk@;
                    let report = match self.rows.convert_row(&record, &mut chunk, minimum_rating) {
                        Ok(due) => due,
                        Err(e) => return Err(e),
                    };
                    proof {
                        let row_outcome = spec_row(
                            record.deep_view(),
                            columns,
                            counts.records_read as nat + 2,
                            minimum_rating,
                        )->Ok_0;
                        let added = row_text(row_outcome);
                        assert(chunk@ =~= before_chunk + added);
                        assert(pending[0] == Ok::<Seq<Seq<char>>, Seq<char>>(record.deep_view()));
                        let tail = self.outcome(minimum_rating);
                        assert(outcome_before == after_text(added, tail));
                        if tail is Ok {
                            assert(before_chunk + (added + tail->Ok_0.0) =~= chunk@
                                + tail->Ok_0.0);
                        }
                    }
                    if report {
                        output.append(chunk.as_str());
                        assert(output@.skip(old(output)@.len() as int) =~= chunk@);
                        assert(output@.subrange(0, old(output)@.len() as int) =~= old(output)@);
                        return Ok(false);
                    }
                },
            }
        }
    }

    /// The counts so far.
    pub fn stats(&self) -> (s: ConversionStats)
        ensures
            s == self.counts(),
    {
        self.rows.stats
    }

    /// The progress so far.
    pub fn progress(&self) -> (p: ConversionProgress)
        ensures
            p.records_read == self.counts().records_read,
            p.puzzles_written == self.counts().puzzles_written,
    {
        self.rows.progress()
    }
}

} // verus!

verus! {

/// Converts the uncompressed Lichess puzzle CSV document `input` into PGN,
/// keeping the puzzles whose rating is at least `minimum_rating` (inclusive).
///
/// On success `output` holds the PGN text (replacing what it held) and the
/// counts are returned; on failure `output` is left as it was.
pub fn convert_csv_to_pgn(input: &[u8], output: &mut String, minimum_rating: u32) -> (r: Result<
    ConversionStats,
    ConversionError,
>)
    ensures
        spec_conversion(input@, minimum_rating) is Ok <==> r is Ok,
        r is Ok ==> {
            let (text, read, written, skipped) = spec_conversion(input@, minimum_rating)->Ok_0;
            &&& final(output)@ == text
            &&& r->Ok_0.records_read == read
            &&& r->Ok_0.puzzles_written == written
            &&& r->Ok_0.skipped_by_rating == skipped
        },
        r is Err ==> spec_conversion(input@, minimum_rating) == Err::<
            (Seq<char>, nat, nat, nat),
            Seq<char>,
        >(r->Err_0@) && final(output)@ == old(output)@,
{
    let mut source = match PuzzleCsv::open(input) {
        Ok(s) => s,
        Err(e) => return Err(e),
    };
    let ghost whole = spec_conversion(input@, minimum_rating);
    let mut text = String::new();
    assert(whole == after_text(text@, source.outcome(minimum_rating))) by {
        if whole is Ok {
            assert(text@ + whole->Ok_0.0 =~= whole->Ok_0.0);
        }
    }
    loop
        invariant
            source.well_formed(),
            whole == spec_conversion(input@, minimum_rating),
            whole == after_text(text@, source.outcome(minimum_rating)),
            output@ == old(output)@,
        decreases source.pending().len(),
    {
        let ghost before_text = text@;
        let ghost before = source.outcome(minimum_rating);
        match source.convert_batch(&mut text, minimum_rating) {
            Ok(finished) => {
                let ghost added = text@.skip(before_text.len() as int);
                assert(text@ =~= before_text + added);
                proof {
                    let now = source.outcome(minimum_rating);
                    if now is Ok {
                        assert(before_text + (added + now->Ok_0.0) =~= text@ + now->Ok_0.0);
                    }
                }
                if finished {
                    let stats = source.stats();
                    assert(text@ + Seq::<char>::empty() =~= text@);
                    *output = text;
                    return Ok(stats);
                }
            },
            Err(e) => return Err(e),
        }
    }
}

} // verus!

verus! {

proof fn lemma_rows_counts(c: ColumnIndexes, items: Seq<SpecCsvItem>, minimum: u32, read: nat)
    ensures
        spec_rows(c, items, minimum, read) matches Ok((_, written, skipped)) ==> written + skipped
            == items.len(),
    decreases items.len(),
{
    if items.len() > 0 {
        lemma_rows_counts(c, items.drop_first(), minimum, read + 1);
    }
}

/// Every data row read is either written or skipped for its rating: a
/// successful conversion reads as many rows as the document has data
/// records, and writes or skips each of them.
pub proof fn lemma_conversion_counts(input: Seq<u8>, minimum: u32)
    ensures
        spec_conversion(input, minimum) matches Ok((_, read, written, skipped)) ==> {
            &&& read == written + skipped
            &&& read == data_items(csv_items(input)).len()
        },
{
    let items = csv_items(input);
    if let Ok(c) = spec_header(items) {
        lemma_rows_counts(c, data_items(items), minimum, 0);
    }
}

/// A row is written exactly when its rating, which must be a non-negative
/// integer, is at least the minimum: the minimum is inclusive.
pub proof fn lemma_row_selected_iff_rating_at_least_minimum(
    record: Seq<Seq<char>>,
    c: ColumnIndexes,
    row: nat,
    minimum: u32,
)
    ensures
        spec_row(record, c, row, minimum) matches Ok(outcome) ==> {
            &&& spec_puzzle(record, c, row) is Ok
            &&& spec_parse_u32(spec_puzzle(record, c, row)->Ok_0.rating) is Some
            &&& (outcome is Some <==> spec_parse_u32(spec_puzzle(record, c, row)->Ok_0.rating)->0
                >= minimum)
        },
{
}

proof fn lemma_rows_higher_minimum(
    c: ColumnIndexes,
    items: Seq<SpecCsvItem>,
    low: u32,
    high: u32,
    read: nat,
)
    requires
        low <= high,
    ensures
        spec_rows(c, items, low, read) is Ok ==> {
            &&& spec_rows(c, items, high, read) is Ok
            &&& spec_rows(c, items, high, read)->Ok_0.1 <= spec_rows(c, items, low, read)->Ok_0.1
        },
    decreases items.len(),
{
    if items.len() > 0 {
        lemma_rows_higher_minimum(c, items.drop_first(), low, high, read + 1);
    }
}

/// Raising the minimum rating never makes a successful conversion fail and
/// never writes more puzzles; it reads the same rows.
pub proof fn lemma_higher_minimum_writes_fewer(input: Seq<u8>, low: u32, high: u32)
    requires
        low <= high,
    ensures
        spec_conversion(input, low) is Ok ==> {
            &&& spec_conversion(input, high) is Ok
            &&& spec_conversion(input, high)->Ok_0.1 == spec_conversion(input, low)->Ok_0.1
            &&& spec_conversion(input, high)->Ok_0.2 <= spec_conversion(input, low)->Ok_0.2
        },
{
    let items = csv_items(input);
    if let Ok(c) = spec_header(items) {
        lemma_rows_higher_minimum(c, data_items(items), low, high, 0);
    }
}

proof fn lemma_rows_zero_minimum(c: ColumnIndexes, items: Seq<SpecCsvItem>, read: nat)
    ensures
        spec_rows(c, items, 0, read) matches Ok((_, _, skipped)) ==> skipped == 0,
    decreases items.len(),
{
    if items.len() > 0 {
        lemma_rows_zero_minimum(c, items.drop_first(), read + 1);
    }
}

/// With a minimum rating of 0 no row is skipped for its rating.
pub proof fn lemma_zero_minimum_skips_nothing(input: Seq<u8>)
    ensures
        spec_conversion(input, 0) matches Ok((_, _, _, skipped)) ==> skipped == 0,
{
    let items = csv_items(input);
    if let Ok(c) = spec_header(items) {
        lemma_rows_zero_minimum(c, data_items(items), 0);
    }
}

} // verus!

verus! {

/// Records `a` and `b` have the same fields, except perhaps the `FEN` and
/// `Moves` fields of the layout `c`.
pub open spec fn differ_in_position_only(a: Seq<Seq<char>>, b: Seq<Seq<char>>, c: ColumnIndexes) -> bool {
    &&& a.len() == b.len()
    &&& forall|j: int|
        0 <= j < a.len() && j != c.fen as int && j != c.moves as int ==> #[trigger] a[j] == b[j]
}

/// Record `a` has a rating field, a whole number below `minimum`.
pub open spec fn rated_below(a: Seq<Seq<char>>, c: ColumnIndexes, minimum: u32) -> bool {
    &&& c.rating < a.len()
    &&& spec_parse_u32(a[c.rating as int]) is Some
    &&& spec_parse_u32(a[c.rating as int])->0 < minimum
}

/// Item sequences `xs` and `ys` agree, except that a record rated below
/// `minimum` may have other `FEN` and `Moves` fields in `ys`.
pub open spec fn agree_but_unselected_positions(
    c: ColumnIndexes,
    xs: Seq<SpecCsvItem>,
    ys: Seq<SpecCsvItem>,
    minimum: u32,
) -> bool {
    &&& xs.len() == ys.len()
    &&& forall|i: int|
        0 <= i < xs.len() ==> #[trigger] xs[i] == ys[i] || (xs[i] is Ok && ys[i] is Ok
            && differ_in_position_only(xs[i]->Ok_0, ys[i]->Ok_0, c) && rated_below(
            xs[i]->Ok_0,
            c,
            minimum,
        ) && xs[i]->Ok_0[c.rating as int] == ys[i]->Ok_0[c.rating as int])
}

proof fn lemma_row_ignores_unselected_position(
    a: Seq<Seq<char>>,
    b: Seq<Seq<char>>,
    c: ColumnIndexes,
    row: nat,
    minimum: u32,
)
    requires
        differ_in_position_only(a, b, c),
        rated_below(a, c, minimum),
        a[c.rating as int] == b[c.rating as int],
    ensures
        spec_row(a, c, row, minimum) == spec_row(b, c, row, minimum),
{
    let pa = spec_puzzle(a, c, row);
    let pb = spec_puzzle(b, c, row);
    assert(pa is Ok <==> pb is Ok);
    if pa is Ok {
        assert(pa->Ok_0.rating == pb->Ok_0.rating);
    }
}

proof fn lemma_rows_ignore_unselected_positions(
    c: ColumnIndexes,
    xs: Seq<SpecCsvItem>,
    ys: Seq<SpecCsvItem>,
    minimum: u32,
    read: nat,
)
    requires
        agree_but_unselected_positions(c, xs, ys, minimum),
    ensures
        spec_rows(c, xs, minimum, read) == spec_rows(c, ys, minimum, read),
    decreases xs.len(),
{
    if xs.len() > 0 {
        assert(agree_but_unselected_positions(c, xs.drop_first(), ys.drop_first(), minimum)) by {
            assert forall|i: int| 0 <= i < xs.drop_first().len() implies #[trigger] xs.drop_first()[i]
                == ys.drop_first()[i] || (xs.drop_first()[i] is Ok && ys.drop_first()[i] is Ok
                && differ_in_position_only(xs.drop_first()[i]->Ok_0, ys.drop_first()[i]->Ok_0, c)
                && rated_below(xs.drop_first()[i]->Ok_0, c, minimum) && xs.drop_first()[i]->Ok_0[c.rating as int]
                == ys.drop_first()[i]->Ok_0[c.rating as int]) by {
                assert(xs.drop_first()[i] == xs[i + 1]);
                assert(ys.drop_first()[i] == ys[i + 1]);
            }
        }
        lemma_rows_ignore_unselected_positions(c, xs.drop_first(), ys.drop_first(), minimum, read + 1);
        if xs[0] != ys[0] {
            lemma_row_ignores_unselected_position(xs[0]->Ok_0, ys[0]->Ok_0, c, read + 2, minimum);
        }
    }
}

/// Rows rated below the minimum are neither validated nor written: two
/// documents with the same header whose data records agree, except for the
/// `FEN` and `Moves` fields of records rated below the minimum, convert alike.
pub proof fn lemma_unselected_rows_are_not_validated(a: Seq<u8>, b: Seq<u8>, minimum: u32)
    requires
        spec_header(csv_items(a)) is Ok,
        spec_header(csv_items(b)) == spec_header(csv_items(a)),
        agree_but_unselected_positions(
            spec_header(csv_items(a))->Ok_0,
            data_items(csv_items(a)),
            data_items(csv_items(b)),
            minimum,
        ),
    ensures
        spec_conversion(a, minimum) == spec_conversion(b, minimum),
{
    lemma_rows_ignore_unselected_positions(
        spec_header(csv_items(a))->Ok_0,
        data_items(csv_items(a)),
        data_items(csv_items(b)),
        minimum,
        0,
    );
}

} // verus!

verus! {

/// The rating and game of each row written under minimum `minimum`, in
/// order, up to the first failure.
pub open spec fn written_games(c: ColumnIndexes, items: Seq<SpecCsvItem>, minimum: u32, read: nat) -> Seq<
    (u32, Seq<char>),
>
    decreases items.len(),
{
    if items.len() == 0 {
        seq![]
    } else {
        match items[0] {
            Err(_) => seq![],
            Ok(record) => match spec_row(record, c, read + 2, minimum) {
                Ok(Some(game)) => seq![
                    (spec_parse_u32(spec_puzzle(record, c, read + 2)->Ok_0.rating)->0, game),
                ] + written_games(c, items.drop_first(), minimum, read + 1),
                Ok(None) => written_games(c, items.drop_first(), minimum, read + 1),
                Err(_) => seq![],
            },
        }
    }
}

/// The games of `games`, one after the other.
pub open spec fn games_text(games: Seq<(u32, Seq<char>)>) -> Seq<char>
    decreases games.len(),
{
    if games.len() == 0 {
        seq![]
    } else {
        games[0].1 + games_text(games.drop_first())
    }
}

/// The games of `games` rated at least `minimum`, in order.
pub open spec fn rated_at_least(games: Seq<(u32, Seq<char>)>, minimum: u32) -> Seq<(u32, Seq<char>)>
    decreases games.len(),
{
    if games.len() == 0 {
        seq![]
    } else if games[0].0 >= minimum {
        seq![games[0]] + rated_at_least(games.drop_first(), minimum)
    } else {
        rated_at_least(games.drop_first(), minimum)
    }
}

/// The rated games that converting the document `input` with minimum
/// `minimum` writes.
pub open spec fn conversion_games(input: Seq<u8>, minimum: u32) -> Seq<(u32, Seq<char>)> {
    match spec_header(csv_items(input)) {
        Ok(c) => written_games(c, data_items(csv_items(input)), minimum, 0),
        Err(_) => seq![],
    }
}

proof fn lemma_games_text_cons(first: (u32, Seq<char>), rest: Seq<(u32, Seq<char>)>)
    ensures
        games_text(seq![first] + rest) == first.1 + games_text(rest),
{
    assert((seq![first] + rest).drop_first() =~= rest);
}

proof fn lemma_rated_at_least_cons(first: (u32, Seq<char>), rest: Seq<(u32, Seq<char>)>, minimum: u32)
    ensures
        rated_at_least(seq![first] + rest, minimum) == if first.0 >= minimum {
            seq![first] + rated_at_least(rest, minimum)
        } else {
            rated_at_least(rest, minimum)
        },
{
    assert((seq![first] + rest).drop_first() =~= rest);
}

proof fn lemma_rows_filter(c: ColumnIndexes, items: Seq<SpecCsvItem>, low: u32, high: u32, read: nat)
    requires
        low <= high,
        spec_rows(c, items, low, read) is Ok,
    ensures
        spec_rows(c, items, low, read)->Ok_0.0 == games_text(written_games(c, items, low, read)),
        written_games(c, items, high, read) == rated_at_least(written_games(c, items, low, read), high),
        spec_rows(c, items, high, read) is Ok,
        spec_rows(c, items, high, read)->Ok_0.0 == games_text(
            rated_at_least(written_games(c, items, low, read), high),
        ),
    decreases items.len(),
{
    if items.len() > 0 {
        let rest = items.drop_first();
        lemma_rows_filter(c, rest, low, high, read + 1);
        let record = items[0]->Ok_0;
        let row = read + 2;
        let w_low = written_games(c, rest, low, read + 1);
        if let Ok(Some(game)) = spec_row(record, c, row, low) {
            let rating = spec_parse_u32(spec_puzzle(record, c, row)->Ok_0.rating)->0;
            lemma_games_text_cons((rating, game), w_low);
            lemma_rated_at_least_cons((rating, game), w_low, high);
            if rating >= high {
                lemma_games_text_cons((rating, game), rated_at_least(w_low, high));
            }
        }
    }
}

/// Raising the minimum rating from `low` to `high` keeps a successful
/// conversion successful and removes exactly the games rated below `high`
/// from its text, keeping the order of the rest.
pub proof fn lemma_higher_minimum_filters_text(input: Seq<u8>, low: u32, high: u32)
    requires
        low <= high,
        spec_conversion(input, low) is Ok,
    ensures
        spec_conversion(input, low)->Ok_0.0 == games_text(conversion_games(input, low)),
        conversion_games(input, high) == rated_at_least(conversion_games(input, low), high),
        spec_conversion(input, high) is Ok,
        spec_conversion(input, high)->Ok_0.0 == games_text(
            rated_at_least(conversion_games(input, low), high),
        ),
{
    let items = csv_items(input);
    let c = spec_header(items)->Ok_0;
    lemma_rows_filter(c, data_items(items), low, high, 0);
}

/// Every game written under a minimum rating is rated at least that minimum.
pub proof fn lemma_written_games_are_rated_at_least(
    c: ColumnIndexes,
    items: Seq<SpecCsvItem>,
    minimum: u32,
    read: nat,
)
    ensures
        forall|i: int|
            0 <= i < written_games(c, items, minimum, read).len() ==> #[trigger] written_games(
                c,
                items,
                minimum,
                read,
            )[i].0 >= minimum,
    decreases items.len(),
{
    if items.len() > 0 {
        lemma_written_games_are_rated_at_least(c, items.drop_first(), minimum, read + 1);
        let record = items[0]->Ok_0;
        if let Ok(Some(game)) = spec_row(record, c, read + 2, minimum) {
            let rest = written_games(c, items.drop_first(), minimum, read + 1);
            let rating = spec_parse_u32(spec_puzzle(record, c, read + 2)->Ok_0.rating)->0;
            assert forall|i: int|
                0 <= i < written_games(c, items, minimum, read).len() implies #[trigger] written_games(
                c,
                items,
                minimum,
                read,
            )[i].0 >= minimum by {
                if i > 0 {
                    assert(written_games(c, items, minimum, read)[i] == rest[i - 1]);
                }
            }
        }
    }
}

} // verus!

verus! {

/// Writing `first` and then `second` before an outcome is writing
/// `first + second` before it: batch texts add up.
pub proof fn lemma_after_text_compose(
    first: Seq<char>,
    second: Seq<char>,
    outcome: Result<(Seq<char>, nat, nat, nat), Seq<char>>,
)
    ensures
        after_text(first, after_text(second, outcome)) == after_text(first + second, outcome),
{
    if outcome is Ok {
        assert(first + (second + outcome->Ok_0.0) =~= (first + second) + outcome->Ok_0.0);
    }
}

/// Converting a document batch by batch gives what converting it at once
/// gives: when `opened` is the document `input` just opened, the batches
/// wrote `text` in all, and `finished` has no row left, then the conversion
/// of `input` is `text` with the counts of `finished`.
pub proof fn lemma_batches_give_the_conversion(
    input: Seq<u8>,
    minimum: u32,
    opened: PuzzleCsv,
    finished: PuzzleCsv,
    text: Seq<char>,
)
    requires
        spec_header(csv_items(input)) == Ok::<ColumnIndexes, Seq<char>>(opened.columns()),
        opened.pending() == data_items(csv_items(input)),
        opened.counts() == (ConversionStats {
            records_read: 0,
            puzzles_written: 0,
            skipped_by_rating: 0,
        }),
        opened.outcome(minimum) == after_text(text, finished.outcome(minimum)),
        finished.pending().len() == 0,
    ensures
        spec_conversion(input, minimum) == Ok::<(Seq<char>, nat, nat, nat), Seq<char>>(
            (
                text,
                finished.counts().records_read as nat,
                finished.counts().puzzles_written as nat,
                finished.counts().skipped_by_rating as nat,
            ),
        ),
{
    assert(text + Seq::<char>::empty() =~= text);
}

} // verus!

verus! {

/// A data record that a conversion with minimum `minimum` accepts: it has
/// every required field, its rating is a whole number, and when it is rated
/// at least the minimum, its moves convert.
pub open spec fn record_accepted(record: Seq<Seq<char>>, c: ColumnIndexes, minimum: u32) -> bool {
    let p = spec_puzzle(record, c, 0);
    &&& p is Ok
    &&& spec_parse_u32(p->Ok_0.rating) is Some
    &&& spec_parse_u32(p->Ok_0.rating)->0 >= minimum ==> moves_convert(p->Ok_0.fen, p->Ok_0.moves)
}

proof fn lemma_puzzle_ignores_row(record: Seq<Seq<char>>, c: ColumnIndexes, row: nat, other: nat)
    ensures
        spec_puzzle(record, c, row) is Ok <==> spec_puzzle(record, c, other) is Ok,
        spec_puzzle(record, c, row) is Ok ==> spec_puzzle(record, c, row) == spec_puzzle(
            record,
            c,
            other,
        ),
{
}

proof fn lemma_row_ok_iff_accepted(record: Seq<Seq<char>>, c: ColumnIndexes, row: nat, minimum: u32)
    ensures
        spec_row(record, c, row, minimum) is Ok <==> record_accepted(record, c, minimum),
{
    lemma_puzzle_ignores_row(record, c, row, 0);
    if let Ok(p) = spec_puzzle(record, c, row) {
        lemma_legal_line_converts(p.fen, p.moves, row, row);
    }
}

proof fn lemma_rows_ok_iff_all_accepted(c: ColumnIndexes, items: Seq<SpecCsvItem>, minimum: u32, read: nat)
    ensures
        spec_rows(c, items, minimum, read) is Ok <==> forall|i: int|
            0 <= i < items.len() ==> #[trigger] items[i] is Ok && record_accepted(
                items[i]->Ok_0,
                c,
                minimum,
            ),
    decreases items.len(),
{
    if items.len() > 0 {
        let rest = items.drop_first();
        lemma_rows_ok_iff_all_accepted(c, rest, minimum, read + 1);
        if items[0] is Ok {
            lemma_row_ok_iff_accepted(items[0]->Ok_0, c, read + 2, minimum);
        }
        if spec_rows(c, items, minimum, read) is Ok {
            assert forall|i: int| 0 <= i < items.len() implies #[trigger] items[i] is Ok
                && record_accepted(items[i]->Ok_0, c, minimum) by {
                if i > 0 {
                    assert(items[i] == rest[i - 1]);
                }
            }
        }
        if forall|i: int|
            0 <= i < items.len() ==> #[trigger] items[i] is Ok && record_accepted(
                items[i]->Ok_0,
                c,
                minimum,
            ) {
            assert(items[0] is Ok);
            assert forall|i: int| 0 <= i < rest.len() implies #[trigger] rest[i] is Ok
                && record_accepted(rest[i]->Ok_0, c, minimum) by {
                assert(rest[i] == items[i + 1]);
            }
        }
    }
}

/// A conversion succeeds exactly when the header has every required column,
/// every data record reads, and every record is accepted: its fields are
/// there, its rating is a whole number, and, when it is rated at least the
/// minimum, its FEN sets up and it lists at least one move, each legal in turn.
pub proof fn lemma_conversion_succeeds_iff_every_record_is_accepted(input: Seq<u8>, minimum: u32)
    ensures
        spec_conversion(input, minimum) is Ok <==> {
            &&& spec_header(csv_items(input)) is Ok
            &&& forall|i: int|
                0 <= i < data_items(csv_items(input)).len() ==> #[trigger] data_items(
                    csv_items(input),
                )[i] is Ok && record_accepted(
                    data_items(csv_items(input))[i]->Ok_0,
                    spec_header(csv_items(input))->Ok_0,
                    minimum,
                )
        },
{
    let items = csv_items(input);
    if let Ok(c) = spec_header(items) {
        lemma_rows_ok_iff_all_accepted(c, data_items(items), minimum, 0);
    }
}

} // verus!
