//! The Lichess CSV layout: locating the columns by their header names and
//! reading a puzzle from one record.

use crate::error::{row_message, ConversionError};
use crate::text::{chars_of, strip_bom};
use vstd::prelude::*;
use vstd::string::StringExecFns;

verus! {

/// The index of the first header that, without its leading byte order
/// marks, is `name`, looking from index `from` on.
pub open spec fn find_column_from(headers: Seq<Seq<char>>, name: Seq<char>, from: int) -> Option<int>
    decreases headers.len() - from,
{
    if from < 0 || from >= headers.len() {
        None
    } else if strip_bom(headers[from]) == name {
        Some(from)
    } else {
        find_column_from(headers, name, from + 1)
    }
}

/// The index of the first header that, without its leading byte order
/// marks, is `name`.
pub open spec fn find_column(headers: Seq<Seq<char>>, name: Seq<char>) -> Option<int> {
    find_column_from(headers, name, 0)
}

/// The message when the required column `name` is missing from the header.
pub open spec fn missing_column_text(name: Seq<char>) -> Seq<char> {
    "The CSV is missing the required `"@ + name
        + "` column. Download the Lichess puzzle CSV export and unpack it before converting."@
}

/// The position of the required column `name`, or the message saying it is missing.
pub open spec fn required_column(headers: Seq<Seq<char>>, name: Seq<char>) -> Result<usize, Seq<char>> {
    match find_column(headers, name) {
        Some(i) => Ok(i as usize),
        None => Err(missing_column_text(name)),
    }
}

/// Where each field of a puzzle stands in a record.
#[derive(Debug, Clone, Copy)]
pub struct ColumnIndexes {
    pub puzzle_id: usize,
    pub fen: usize,
    pub moves: usize,
    pub rating: usize,
    pub rating_deviation: usize,
    pub popularity: usize,
    pub nb_plays: usize,
    pub themes: usize,
    pub game_url: usize,
    pub opening_tags: Option<usize>,
}

/// The column layout that the header `headers` gives, or the message about
/// the first required column (in the order `PuzzleId`, `FEN`, `Moves`,
/// `Rating`, `RatingDeviation`, `Popularity`, `NbPlays`, `Themes`, `GameUrl`)
/// that it lacks. `OpeningTags` is optional.
pub open spec fn spec_columns(headers: Seq<Seq<char>>) -> Result<ColumnIndexes, Seq<char>> {
    let puzzle_id = required_column(headers, "PuzzleId"@);
    let fen = required_column(headers, "FEN"@);
    let moves = required_column(headers, "Moves"@);
    let rating = required_column(headers, "Rating"@);
    let rating_deviation = required_column(headers, "RatingDeviation"@);
    let popularity = required_column(headers, "Popularity"@);
    let nb_plays = required_column(headers, "NbPlays"@);
    let themes = required_column(headers, "Themes"@);
    let game_url = required_column(headers, "GameUrl"@);
    if puzzle_id is Err {
        Err(puzzle_id->Err_0)
    } else if fen is Err {
        Err(fen->Err_0)
    } else if moves is Err {
        Err(moves->Err_0)
    } else if rating is Err {
        Err(rating->Err_0)
    } else if rating_deviation is Err {
        Err(rating_deviation->Err_0)
    } else if popularity is Err {
        Err(popularity->Err_0)
    } else if nb_plays is Err {
        Err(nb_plays->Err_0)
    } else if themes is Err {
        Err(themes->Err_0)
    } else if game_url is Err {
        Err(game_url->Err_0)
    } else {
        Ok(
            ColumnIndexes {
                puzzle_id: puzzle_id->Ok_0,
                fen: fen->Ok_0,
                moves: moves->Ok_0,
                rating: rating->Ok_0,
                rating_deviation: rating_deviation->Ok_0,
                popularity: popularity->Ok_0,
                nb_plays: nb_plays->Ok_0,
                themes: themes->Ok_0,
                game_url: game_url->Ok_0,
                opening_tags: match find_column(headers, "OpeningTags"@) {
                    Some(i) => Some(i as usize),
                    None => None,
                },
            },
        )
    }
}

/// Tests whether `header`, without its leading byte order marks, is `name`.
pub fn header_is(header: &str, name: &str) -> (r: bool)
    ensures
        r == (strip_bom(header@) == name@),
{
    let h = chars_of(header);
    let n = chars_of(name);
    let mut j: usize = 0;
    assert(h@.skip(0) =~= h@);
    while j < h.len() && h[j] == '\u{feff}'
        invariant
            j <= h.len(),
            strip_bom(h@) == strip_bom(h@.skip(j as int)),
        decreases h.len() - j,
    {
        assert(h@.skip(j as int).drop_first() =~= h@.skip(j + 1));
        j = j + 1;
    }
    let ghost rest = h@.skip(j as int);
    assert(strip_bom(rest) == rest);
    if h.len() - j != n.len() {
        return false;
    }
    let mut k: usize = 0;
    while k < n.len()
        invariant
            j + n.len() == h.len(),
            rest == h@.skip(j as int),
            strip_bom(h@) == rest,
            k <= n.len(),
            h@ == header@,
            n@ == name@,
            forall|m: int| 0 <= m < k ==> rest[m] == n@[m],
        decreases n.len() - k,
    {
        if h[j + k] != n[k] {
            assert(h@[(j + k) as int] == rest[k as int]);
            assert(rest[k as int] != n@[k as int]);
            assert(strip_bom(header@) != name@);
            return false;
        }
        k = k + 1;
    }
    assert(rest =~= n@);
    true
}

/// The index of the first of `headers` that, without its leading byte
/// order marks, is `name`.
pub fn position_of(headers: &Vec<String>, name: &str) -> (r: Option<usize>)
    ensures
        r is Some ==> find_column(headers.deep_view(), name@) == Some(r->0 as int),
        r is None ==> find_column(headers.deep_view(), name@) is None,
{
    let ghost h = headers.deep_view();
    let mut i: usize = 0;
    while i < headers.len()
        invariant
            h == headers.deep_view(),
            i <= headers.len(),
            find_column(h, name@) == find_column_from(h, name@, i as int),
        decreases headers.len() - i,
    {
        assert(h[i as int] == headers[i as int]@);
        if header_is(headers[i].as_str(), name) {
            return Some(i);
        }
        i = i + 1;
    }
    None
}

/// The position of the required column `name`, or the error that it is missing.
fn column(headers: &Vec<String>, name: &str) -> (r: Result<usize, ConversionError>)
    ensures
        r is Ok ==> required_column(headers.deep_view(), name@) == Ok::<usize, Seq<char>>(r->Ok_0),
        r is Err ==> required_column(headers.deep_view(), name@) == Err::<usize, Seq<char>>(
            r->Err_0@,
        ),
{
    match position_of(headers, name) {
        Some(i) => Ok(i),
        None => {
            let mut text = String::from_str("The CSV is missing the required `");
            text.append(name);
            text.append(
                "` column. Download the Lichess puzzle CSV export and unpack it before converting.",
            );
            Err(ConversionError::new(text))
        },
    }
}

impl ColumnIndexes {
    /// Locates the puzzle columns in the header record `headers`.
    pub fn from_headers(headers: &Vec<String>) -> (r: Result<Self, ConversionError>)
        ensures
            r is Ok ==> spec_columns(headers.deep_view()) == Ok::<ColumnIndexes, Seq<char>>(r->Ok_0),
            r is Err ==> spec_columns(headers.deep_view()) == Err::<ColumnIndexes, Seq<char>>(
                r->Err_0@,
            ),
    {
        let puzzle_id = match column(headers, "PuzzleId") {
            Ok(i) => i,
            Err(e) => return Err(e),
        };
        let fen = match column(headers, "FEN") {
            Ok(i) => i,
            Err(e) => return Err(e),
        };
        let moves = match column(headers, "Moves") {
            Ok(i) => i,
            Err(e) => return Err(e),
        };
        let rating = match column(headers, "Rating") {
            Ok(i) => i,
            Err(e) => return Err(e),
        };
        let rating_deviation = match column(headers, "RatingDeviation") {
            Ok(i) => i,
            Err(e) => return Err(e),
        };
        let popularity = match column(headers, "Popularity") {
            Ok(i) => i,
            Err(e) => return Err(e),
        };
        let nb_plays = match column(headers, "NbPlays") {
            Ok(i) => i,
            Err(e) => return Err(e),
        };
        let themes = match column(headers, "Themes") {
            Ok(i) => i,
            Err(e) => return Err(e),
        };
        let game_url = match column(headers, "GameUrl") {
            Ok(i) => i,
            Err(e) => return Err(e),
        };
        let opening_tags = position_of(headers, "OpeningTags");
        Ok(
            ColumnIndexes {
                puzzle_id,
                fen,
                moves,
                rating,
                rating_deviation,
                popularity,
                nb_plays,
                themes,
                game_url,
                opening_tags,
            },
        )
    }
}

} // verus!

verus! {

/// The fields of one puzzle, as text.
pub struct SpecPuzzle {
    pub id: Seq<char>,
    pub fen: Seq<char>,
    pub moves: Seq<char>,
    pub rating: Seq<char>,
    pub rating_deviation: Seq<char>,
    pub popularity: Seq<char>,
    pub nb_plays: Seq<char>,
    pub themes: Seq<char>,
    pub game_url: Seq<char>,
    pub opening_tags: Seq<char>,
}

/// One puzzle, borrowing its fields from a CSV record.
#[derive(Debug)]
pub struct Puzzle<'a> {
    pub id: &'a str,
    pub fen: &'a str,
    pub moves: &'a str,
    pub rating: &'a str,
    pub rating_deviation: &'a str,
    pub popularity: &'a str,
    pub nb_plays: &'a str,
    pub themes: &'a str,
    pub game_url: &'a str,
    pub opening_tags: &'a str,
}

impl<'a> View for Puzzle<'a> {
    type V = SpecPuzzle;

    open spec fn view(&self) -> SpecPuzzle {
        SpecPuzzle {
            id: self.id@,
            fen: self.fen@,
            moves: self.moves@,
            rating: self.rating@,
            rating_deviation: self.rating_deviation@,
            popularity: self.popularity@,
            nb_plays: self.nb_plays@,
            themes: self.themes@,
            game_url: self.game_url@,
            opening_tags: self.opening_tags@,
        }
    }
}

/// The message when a record lacks the field of column `name`.
pub open spec fn missing_field_text(name: Seq<char>) -> Seq<char> {
    "missing `"@ + name + "`. The row has fewer fields than its header."@
}

/// Field `index` of `record`, or the message (about CSV row `row`) that the
/// record lacks the field of column `name`.
pub open spec fn record_field(record: Seq<Seq<char>>, index: usize, name: Seq<char>, row: nat) -> Result<
    Seq<char>,
    Seq<char>,
> {
    if index < record.len() {
        Ok(record[index as int])
    } else {
        Err(row_message(row, missing_field_text(name)))
    }
}

/// The puzzle that `record` holds under the layout `c`, or the message about
/// the first required field (in column order of `spec_columns`) that it
/// lacks. A missing `OpeningTags` field reads as empty.
pub open spec fn spec_puzzle(record: Seq<Seq<char>>, c: ColumnIndexes, row: nat) -> Result<
    SpecPuzzle,
    Seq<char>,
> {
    let id = record_field(record, c.puzzle_id, "PuzzleId"@, row);
    let fen = record_field(record, c.fen, "FEN"@, row);
    let moves = record_field(record, c.moves, "Moves"@, row);
    let rating = record_field(record, c.rating, "Rating"@, row);
    let rating_deviation = record_field(record, c.rating_deviation, "RatingDeviation"@, row);
    let popularity = record_field(record, c.popularity, "Popularity"@, row);
    let nb_plays = record_field(record, c.nb_plays, "NbPlays"@, row);
    let themes = record_field(record, c.themes, "Themes"@, row);
    let game_url = record_field(record, c.game_url, "GameUrl"@, row);
    if id is Err {
        Err(id->Err_0)
    } else if fen is Err {
        Err(fen->Err_0)
    } else if moves is Err {
        Err(moves->Err_0)
    } else if rating is Err {
        Err(rating->Err_0)
    } else if rating_deviation is Err {
        Err(rating_deviation->Err_0)
    } else if popularity is Err {
        Err(popularity->Err_0)
    } else if nb_plays is Err {
        Err(nb_plays->Err_0)
    } else if themes is Err {
        Err(themes->Err_0)
    } else if game_url is Err {
        Err(game_url->Err_0)
    } else {
        Ok(
            SpecPuzzle {
                id: id->Ok_0,
                fen: fen->Ok_0,
                moves: moves->Ok_0,
                rating: rating->Ok_0,
                rating_deviation: rating_deviation->Ok_0,
                popularity: popularity->Ok_0,
                nb_plays: nb_plays->Ok_0,
                themes: themes->Ok_0,
                game_url: game_url->Ok_0,
                opening_tags: match c.opening_tags {
                    Some(i) => if i < record.len() {
                        record[i as int]
                    } else {
                        seq![]
                    },
                    None => seq![],
                },
            },
        )
    }
}

fn field<'a>(record: &'a Vec<String>, index: usize, name: &str, row_number: u64) -> (r: Result<
    &'a str,
    ConversionError,
>)
    ensures
        r is Ok ==> record_field(record.deep_view(), index, name@, row_number as nat) == Ok::<
            Seq<char>,
            Seq<char>,
        >(r->Ok_0@),
        r is Err ==> record_field(record.deep_view(), index, name@, row_number as nat) == Err::<
            Seq<char>,
            Seq<char>,
        >(r->Err_0@),
{
    if index < record.len() {
        Ok(record[index].as_str())
    } else {
        let mut text = String::from_str("missing `");
        text.append(name);
        text.append("`. The row has fewer fields than its header.");
        Err(ConversionError::row(row_number, text.as_str()))
    }
}

impl<'a> Puzzle<'a> {
    /// Reads the puzzle of CSV row `row_number` from `record`, whose fields
    /// stand where `columns` says.
    pub fn from_record(record: &'a Vec<String>, columns: ColumnIndexes, row_number: u64) -> (r: Result<
        Self,
        ConversionError,
    >)
        ensures
            r is Ok ==> spec_puzzle(record.deep_view(), columns, row_number as nat) == Ok::<
                SpecPuzzle,
                Seq<char>,
            >(r->Ok_0@),
            r is Err ==> spec_puzzle(record.deep_view(), columns, row_number as nat) == Err::<
                SpecPuzzle,
                Seq<char>,
            >(r->Err_0@),
    {
        let id = match field(record, columns.puzzle_id, "PuzzleId", row_number) {
            Ok(f) => f,
            Err(e) => return Err(e),
        };
        let fen = match field(record, columns.fen, "FEN", row_number) {
            Ok(f) => f,
            Err(e) => return Err(e),
        };
        let moves = match field(record, columns.moves, "Moves", row_number) {
            Ok(f) => f,
            Err(e) => return Err(e),
        };
        let rating = match field(record, columns.rating, "Rating", row_number) {
            Ok(f) => f,
            Err(e) => return Err(e),
        };
        let rating_deviation = match field(
            record,
            columns.rating_deviation,
            "RatingDeviation",
            row_number,
        ) {
            Ok(f) => f,
            Err(e) => return Err(e),
        };
        let popularity = match field(record, columns.popularity, "Popularity", row_number) {
            Ok(f) => f,
            Err(e) => return Err(e),
        };
        let nb_plays = match field(record, columns.nb_plays, "NbPlays", row_number) {
            Ok(f) => f,
            Err(e) => return Err(e),
        };
        let themes = match field(record, columns.themes, "Themes", row_number) {
            Ok(f) => f,
            Err(e) => return Err(e),
        };
        let game_url = match field(record, columns.game_url, "GameUrl", row_number) {
            Ok(f) => f,
            Err(e) => return Err(e),
        };
        let opening_tags: &str = match columns.opening_tags {
            Some(i) => if i < record.len() {
                record[i].as_str()
            } else {
                ""
            },
            None => "",
        };
        proof {
            reveal_strlit("");
        }
        let puzzle = Puzzle {
            id,
            fen,
            moves,
            rating,
            rating_deviation,
            popularity,
            nb_plays,
            themes,
            game_url,
            opening_tags,
        };
        assert(puzzle@.opening_tags =~= spec_puzzle(record.deep_view(), columns, row_number as nat)->Ok_0.opening_tags);
        Ok(puzzle)
    }
}

} // verus!
