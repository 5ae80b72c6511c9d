//! UCI to SAN conversion of a puzzle's moves, with `shakmaty` doing the chess.
//!
//! A position is handed between the steps as its FEN text: each call into
//! `shakmaty` sets up the position from a FEN, and a played move yields the
//! FEN of the position after it.

use crate::error::{row_message, ConversionError};
use crate::text::{decimal, push_decimal, split_whitespace, words};
use shakmaty::fen::Fen;
use shakmaty::san::SanPlus;
use shakmaty::uci::UciMove;
use shakmaty::{CastlingMode, Chess, EnPassantMode, Position};
use vstd::prelude::*;
use vstd::string::StringExecFns;

verus! {

/// The step at which `shakmaty` refused a position or a move.
#[derive(Clone, Copy, Debug, PartialEq, Eq, Structural)]
pub enum ChessFailure {
    /// The FEN text did not parse.
    InvalidFen,
    /// The FEN parsed, but does not describe a legal standard chess position.
    InvalidPosition,
    /// The move text is not UCI notation.
    InvalidUci,
    /// The UCI move is not legal in the position.
    IllegalMove,
}

/// What setting up the standard chess position described by the FEN text
/// `fen` gives: the position's full move number and whether White is to move,
/// or the step that failed and its error's `Display` text.
pub uninterp spec fn chess_setup(fen: Seq<char>) -> Result<(u32, bool), (ChessFailure, Seq<char>)>;

/// What playing the UCI move `uci` in the position of the FEN text `fen`
/// gives: the move in SAN (with check or mate suffix) and the FEN of the
/// position after it, or the step that failed and its error's `Display` text.
pub uninterp spec fn chess_play(fen: Seq<char>, uci: Seq<char>) -> Result<
    (Seq<char>, Seq<char>),
    (ChessFailure, Seq<char>),
>;

/// The view of a failure as the chess names state it.
pub open spec fn failure_view(failure: (ChessFailure, String)) -> (ChessFailure, Seq<char>) {
    (failure.0, failure.1@)
}

/// Sets up a position: parses `fen` with `Fen`'s `FromStr` impl, then
/// `Fen::into_position::<Chess>(CastlingMode::Standard)`; on success reads
/// `Position::fullmoves` and `Position::turn`.
///
/// Claimed: the outcome is `chess_setup(fen)`; a failure is one of the two
/// setup steps; a full move number is at least 1 (it is a `NonZeroU32`).
#[verifier::external_body]
pub(crate) fn setup_position(fen: &str) -> (r: Result<(u32, bool), (ChessFailure, String)>)
    ensures
        r is Ok ==> chess_setup(fen@) == Ok::<(u32, bool), (ChessFailure, Seq<char>)>(r->Ok_0),
        r is Err ==> chess_setup(fen@) == Err::<(u32, bool), (ChessFailure, Seq<char>)>(
            failure_view(r->Err_0),
        ),
        r is Err ==> r->Err_0.0 == ChessFailure::InvalidFen || r->Err_0.0
            == ChessFailure::InvalidPosition,
        r is Ok ==> r->Ok_0.0 >= 1,
{
    match fen.parse::<Fen>() {
        Ok(parsed) => match parsed.into_position::<Chess>(CastlingMode::Standard) {
            Ok(position) => Ok((position.fullmoves().get(), position.turn().is_white())),
            Err(error) => Err((ChessFailure::InvalidPosition, error.to_string())),
        },
        Err(error) => Err((ChessFailure::InvalidFen, error.to_string())),
    }
}

/// The full move number after a move made with full move number
/// `fullmoves` by White (`white`) or Black: it goes up after Black's move,
/// saturating at `u32::MAX`.
pub open spec fn next_fullmoves(fullmoves: u32, white: bool) -> u32 {
    if white || fullmoves == u32::MAX {
        fullmoves
    } else {
        (fullmoves + 1) as u32
    }
}

/// How a position that set up as `before` sets up after a move: the other
/// side to move, and the full move number advanced after Black's move.
pub open spec fn setup_after_move(before: Result<(u32, bool), (ChessFailure, Seq<char>)>) -> Result<
    (u32, bool),
    (ChessFailure, Seq<char>),
> {
    match before {
        Ok((fullmoves, white)) => Ok((next_fullmoves(fullmoves, white), !white)),
        Err(failure) => Err(failure),
    }
}

/// Plays a move: sets up the position of `fen` as `setup_position` does,
/// parses `uci` with `UciMove`'s `FromStr` impl, checks it with
/// `UciMove::to_move`, plays it with `SanPlus::from_move_and_play_unchecked`
/// and renders the SAN and `Fen::from_position(.., EnPassantMode::Always)`.
///
/// Claimed: the outcome is `chess_play(fen, uci)`; a failure is one of the two
/// move steps, with the fixed texts of `ParseUciMoveError` ("invalid uci") and
/// `IllegalUciMoveError` ("illegal uci").
///
/// Also claimed: the FEN after the move sets up again, with the other side
/// to move and the full move number advanced after a Black move (saturating,
/// as `do_move` in shakmaty's position.rs advances it); shakmaty's
/// validation (`validate` in position.rs, `EnPassant::from_setup` in
/// setup.rs) accepts the positions that legal play reaches, and the FEN
/// text carries the turn and the move counters unchanged.
#[verifier::external_body]
pub(crate) fn play_uci(fen: &str, uci: &str) -> (r: Result<(String, String), (ChessFailure, String)>)
    requires
        chess_setup(fen@) is Ok,
    ensures
        r is Ok ==> chess_play(fen@, uci@) == Ok::<(Seq<char>, Seq<char>), (ChessFailure, Seq<char>)>(
            (r->Ok_0.0@, r->Ok_0.1@),
        ),
        r is Err ==> chess_play(fen@, uci@) == Err::<(Seq<char>, Seq<char>), (ChessFailure, Seq<char>)>(
            failure_view(r->Err_0),
        ),
        r is Err ==> (r->Err_0.0 == ChessFailure::InvalidUci && r->Err_0.1@ == "invalid uci"@) || (
        r->Err_0.0 == ChessFailure::IllegalMove && r->Err_0.1@ == "illegal uci"@),
        r is Ok ==> chess_setup(r->Ok_0.1@) == setup_after_move(chess_setup(fen@)),
{
    let mut position: Chess = fen.parse::<Fen>().unwrap().into_position(CastlingMode::Standard).unwrap();
    match uci.parse::<UciMove>() {
        Ok(parsed) => match parsed.to_move(&position) {
            Ok(chess_move) => {
                let san = SanPlus::from_move_and_play_unchecked(&mut position, chess_move);
                Ok((san.to_string(), Fen::from_position(&position, EnPassantMode::Always).to_string()))
            },
            Err(error) => Err((ChessFailure::IllegalMove, error.to_string())),
        },
        Err(error) => Err((ChessFailure::InvalidUci, error.to_string())),
    }
}

/// The row-independent text of an error in setting up a position.
pub open spec fn setup_error_text(kind: ChessFailure, message: Seq<char>) -> Seq<char> {
    if kind == ChessFailure::InvalidPosition {
        "invalid chess position in FEN: "@ + message
    } else {
        "invalid FEN: "@ + message
    }
}

/// The row-independent text of an error in playing the move `token`.
pub open spec fn move_error_text(kind: ChessFailure, token: Seq<char>, message: Seq<char>) -> Seq<
    char,
> {
    if kind == ChessFailure::InvalidUci {
        "invalid UCI move `"@ + token + "`: "@ + message
    } else if kind == ChessFailure::IllegalMove {
        "illegal UCI move `"@ + token + "` for its FEN position: "@ + message
    } else {
        setup_error_text(kind, message)
    }
}

/// The message when a puzzle lists no move.
pub open spec fn no_moves_text() -> Seq<char> {
    "`Moves` must contain at least one UCI move."@
}

/// The movetext `acc` followed by one more move in SAN, numbered as PGN
/// numbers moves: `N. san` for a White move, `N... san` when the text starts
/// with a Black move, and the bare SAN for a Black move after a White one.
pub open spec fn append_san(acc: Seq<char>, fullmoves: u32, white: bool, san: Seq<char>) -> Seq<
    char,
> {
    let spaced = if acc.len() > 0 {
        acc + " "@
    } else {
        acc
    };
    if white {
        spaced + decimal(fullmoves as nat) + ". "@ + san
    } else if acc.len() == 0 {
        decimal(fullmoves as nat) + "... "@ + san
    } else {
        spaced + san
    }
}

/// The movetext for the moves `tokens` played from the position `fen`, in
/// which the full move number is `fullmoves` and White is to move when
/// `white`, after the movetext `acc` of the moves before them; or the
/// message of the first move that fails.
pub open spec fn spec_moves_from(
    fen: Seq<char>,
    fullmoves: u32,
    white: bool,
    tokens: Seq<Seq<char>>,
    acc: Seq<char>,
    row: nat,
) -> Result<Seq<char>, Seq<char>>
    decreases tokens.len(),
{
    if tokens.len() == 0 {
        Ok(acc)
    } else {
        match chess_play(fen, tokens[0]) {
            Err((kind, message)) => Err(row_message(row, move_error_text(kind, tokens[0], message))),
            Ok((san, after)) => spec_moves_from(
                after,
                next_fullmoves(fullmoves, white),
                !white,
                tokens.drop_first(),
                append_san(acc, fullmoves, white, san),
                row,
            ),
        }
    }
}

/// The SAN movetext of the whitespace-separated UCI moves `moves` played from
/// the FEN `fen`, or the message (about CSV row `row`) of the first failure:
/// the FEN first, then each move in turn, then an empty move list.
pub open spec fn spec_moves_to_san(fen: Seq<char>, moves: Seq<char>, row: nat) -> Result<
    Seq<char>,
    Seq<char>,
> {
    match chess_setup(fen) {
        Err((kind, message)) => Err(row_message(row, setup_error_text(kind, message))),
        Ok((fullmoves, white)) => if words(moves).len() == 0 {
            Err(row_message(row, no_moves_text()))
        } else {
            spec_moves_from(fen, fullmoves, white, words(moves), seq![], row)
        },
    }
}

fn setup_error(row_number: u64, kind: ChessFailure, message: &str) -> (e: ConversionError)
    ensures
        e@ == row_message(row_number as nat, setup_error_text(kind, message@)),
{
    let mut text = if kind == ChessFailure::InvalidPosition {
        String::from_str("invalid chess position in FEN: ")
    } else {
        String::from_str("invalid FEN: ")
    };
    text.append(message);
    ConversionError::row(row_number, text.as_str())
}

fn move_error(row_number: u64, kind: ChessFailure, token: &str, message: &str) -> (e: ConversionError)
    ensures
        e@ == row_message(row_number as nat, move_error_text(kind, token@, message@)),
{
    if kind == ChessFailure::InvalidUci {
        let mut text = String::from_str("invalid UCI move `");
        text.append(token);
        text.append("`: ");
        text.append(message);
        ConversionError::row(row_number, text.as_str())
    } else if kind == ChessFailure::IllegalMove {
        let mut text = String::from_str("illegal UCI move `");
        text.append(token);
        text.append("` for its FEN position: ");
        text.append(message);
        ConversionError::row(row_number, text.as_str())
    } else {
        setup_error(row_number, kind, message)
    }
}

/// Converts the whitespace-separated UCI moves `moves`, played from the
/// position `fen_text`, to numbered SAN movetext.
pub fn moves_to_san(fen_text: &str, moves: &str, row_number: u64) -> (r: Result<String, ConversionError>)
    ensures
        r is Ok ==> spec_moves_to_san(fen_text@, moves@, row_number as nat) == Ok::<
            Seq<char>,
            Seq<char>,
        >(r->Ok_0@),
        r is Err ==> spec_moves_to_san(fen_text@, moves@, row_number as nat) == Err::<
            Seq<char>,
            Seq<char>,
        >(r->Err_0@),
{
    let (first_fullmoves, first_white) = match setup_position(fen_text) {
        Err((kind, message)) => {
            return Err(setup_error(row_number, kind, message.as_str()));
        },
        Ok(info) => info,
    };
    let tokens = split_whitespace(moves);
    if tokens.len() == 0 {
        return Err(ConversionError::row(row_number, "`Moves` must contain at least one UCI move."));
    }
    let ghost all = tokens.deep_view();
    let ghost row = row_number as nat;
    let mut formatted = String::new();
    let mut position = String::from_str(fen_text);
    let mut fullmoves = first_fullmoves;
    let mut white = first_white;
    let mut i: usize = 0;
    assert(all.skip(0) =~= all);
    while i < tokens.len()
        invariant
            0 <= i <= tokens.len(),
            all == tokens.deep_view(),
            all == words(moves@),
            row == row_number as nat,
            chess_setup(position@) == Ok::<(u32, bool), (ChessFailure, Seq<char>)>(
                (fullmoves, white),
            ),
            chess_setup(fen_text@) == Ok::<(u32, bool), (ChessFailure, Seq<char>)>(
                (first_fullmoves, first_white),
            ),
            all.len() > 0,
            spec_moves_from(fen_text@, first_fullmoves, first_white, all, seq![], row)
                == spec_moves_from(position@, fullmoves, white, all.skip(i as int), formatted@, row),
        decreases tokens.len() - i,
    {
        let ghost rest = all.skip(i as int);
        assert(rest.drop_first() =~= all.skip(i + 1));
        assert(rest[0] == tokens[i as int]@);
        let token = &tokens[i];
        let (san, after) = match play_uci(position.as_str(), token.as_str()) {
            Err((kind, message)) => {
                return Err(move_error(row_number, kind, token.as_str(), message.as_str()));
            },
            Ok(played) => played,
        };
        let ghost before = formatted@;
        let was_empty = formatted.as_str().is_empty();
        if !was_empty {
            formatted.append(" ");
        }
        if white {
            push_decimal(&mut formatted, fullmoves as u64);
            formatted.append(". ");
            formatted.append(san.as_str());
        } else if was_empty {
            push_decimal(&mut formatted, fullmoves as u64);
            formatted.append("... ");
            formatted.append(san.as_str());
        } else {
            formatted.append(san.as_str());
        }
        assert(formatted@ =~= append_san(before, fullmoves, white, san@));
        if !white && fullmoves < u32::MAX {
            fullmoves = fullmoves + 1;
        }
        white = !white;
        position = after;
        i = i + 1;
    }
    assert(all.skip(i as int) =~= Seq::<Seq<char>>::empty());
    Ok(formatted)
}

} // verus!

verus! {

/// `prefix` is where `s` starts.
pub open spec fn starts_with(s: Seq<char>, prefix: Seq<char>) -> bool {
    prefix.len() <= s.len() && s.subrange(0, prefix.len() as int) == prefix
}

proof fn lemma_append_san_keeps_prefix(acc: Seq<char>, fullmoves: u32, white: bool, san: Seq<char>)
    ensures
        starts_with(append_san(acc, fullmoves, white, san), acc),
{
    let t = append_san(acc, fullmoves, white, san);
    assert(t.subrange(0, acc.len() as int) =~= acc);
}

proof fn lemma_moves_from_keeps_prefix(
    fen: Seq<char>,
    fullmoves: u32,
    white: bool,
    tokens: Seq<Seq<char>>,
    acc: Seq<char>,
    row: nat,
    prefix: Seq<char>,
)
    requires
        starts_with(acc, prefix),
    ensures
        spec_moves_from(fen, fullmoves, white, tokens, acc, row) matches Ok(text) ==> starts_with(
            text,
            prefix,
        ),
    decreases tokens.len(),
{
    if tokens.len() > 0 {
        if let Ok((san, after)) = chess_play(fen, tokens[0]) {
            let next = append_san(acc, fullmoves, white, san);
            lemma_append_san_keeps_prefix(acc, fullmoves, white, san);
            assert(next.subrange(0, prefix.len() as int) =~= acc.subrange(0, prefix.len() as int));
            lemma_moves_from_keeps_prefix(
                after,
                next_fullmoves(fullmoves, white),
                !white,
                tokens.drop_first(),
                next,
                row,
                prefix,
            );
        }
    }
}

/// Converted movetext starts with the full move number of the puzzle's
/// position, then `. ` when White moves first and `... ` when Black does.
pub proof fn lemma_movetext_starts_with_move_number(fen: Seq<char>, moves: Seq<char>, row: nat)
    ensures
        spec_moves_to_san(fen, moves, row) matches Ok(text) ==> {
            &&& chess_setup(fen) is Ok
            &&& starts_with(
                text,
                decimal(chess_setup(fen)->Ok_0.0 as nat) + if chess_setup(fen)->Ok_0.1 {
                    ". "@
                } else {
                    "... "@
                },
            )
        },
{
    if let Ok((fullmoves, white)) = chess_setup(fen) {
        let tokens = words(moves);
        if tokens.len() > 0 {
            if let Ok((san, after)) = chess_play(fen, tokens[0]) {
                let marker = decimal(fullmoves as nat) + if white {
                    ". "@
                } else {
                    "... "@
                };
                let first = append_san(seq![], fullmoves, white, san);
                assert(first.subrange(0, marker.len() as int) =~= marker);
                lemma_moves_from_keeps_prefix(
                    after,
                    next_fullmoves(fullmoves, white),
                    !white,
                    tokens.drop_first(),
                    first,
                    row,
                    marker,
                );
            }
        }
    }
}

} // verus!

verus! {

/// Every move of `tokens` is legal in turn, starting from the position `fen`.
pub open spec fn legal_line(fen: Seq<char>, tokens: Seq<Seq<char>>) -> bool
    decreases tokens.len(),
{
    if tokens.len() == 0 {
        true
    } else {
        match chess_play(fen, tokens[0]) {
            Ok((_, after)) => legal_line(after, tokens.drop_first()),
            Err(_) => false,
        }
    }
}

/// The position (as FEN) after playing the first `k` moves of `tokens` from
/// `fen`, as far as they play.
pub open spec fn position_after(fen: Seq<char>, tokens: Seq<Seq<char>>, k: int) -> Seq<char>
    decreases tokens.len(),
{
    if k <= 0 || tokens.len() == 0 {
        fen
    } else {
        match chess_play(fen, tokens[0]) {
            Ok((_, after)) => position_after(after, tokens.drop_first(), k - 1),
            Err(_) => fen,
        }
    }
}

/// A puzzle's moves convert: its FEN sets up, it lists at least one move,
/// and every move is legal in turn.
pub open spec fn moves_convert(fen: Seq<char>, moves: Seq<char>) -> bool {
    &&& chess_setup(fen) is Ok
    &&& words(moves).len() > 0
    &&& legal_line(fen, words(moves))
}

proof fn lemma_moves_from_ok_iff_legal(
    fen: Seq<char>,
    fullmoves: u32,
    white: bool,
    tokens: Seq<Seq<char>>,
    acc: Seq<char>,
    row: nat,
    other_row: nat,
)
    ensures
        spec_moves_from(fen, fullmoves, white, tokens, acc, row) is Ok <==> legal_line(fen, tokens),
        spec_moves_from(fen, fullmoves, white, tokens, acc, row) is Ok ==> spec_moves_from(
            fen,
            fullmoves,
            white,
            tokens,
            acc,
            other_row,
        ) == spec_moves_from(fen, fullmoves, white, tokens, acc, row),
    decreases tokens.len(),
{
    if tokens.len() > 0 {
        if let Ok((san, after)) = chess_play(fen, tokens[0]) {
            lemma_moves_from_ok_iff_legal(
                after,
                next_fullmoves(fullmoves, white),
                !white,
                tokens.drop_first(),
                append_san(acc, fullmoves, white, san),
                row,
                other_row,
            );
        }
    }
}

/// The moves of a puzzle convert exactly when its FEN sets up, it lists at
/// least one move and each move is legal in turn; the movetext then does not
/// depend on the row number.
pub proof fn lemma_legal_line_converts(fen: Seq<char>, moves: Seq<char>, row: nat, other_row: nat)
    ensures
        spec_moves_to_san(fen, moves, row) is Ok <==> moves_convert(fen, moves),
        spec_moves_to_san(fen, moves, row) is Ok ==> spec_moves_to_san(fen, moves, other_row)
            == spec_moves_to_san(fen, moves, row),
{
    if let Ok((fullmoves, white)) = chess_setup(fen) {
        lemma_moves_from_ok_iff_legal(fen, fullmoves, white, words(moves), seq![], row, other_row);
    }
}

proof fn lemma_moves_from_first_failure(
    fen: Seq<char>,
    fullmoves: u32,
    white: bool,
    tokens: Seq<Seq<char>>,
    acc: Seq<char>,
    row: nat,
    k: int,
)
    requires
        0 <= k < tokens.len(),
        legal_line(fen, tokens.take(k)),
        chess_play(position_after(fen, tokens, k), tokens[k]) is Err,
    ensures
        spec_moves_from(fen, fullmoves, white, tokens, acc, row) == Err::<Seq<char>, Seq<char>>(
            row_message(
                row,
                move_error_text(
                    chess_play(position_after(fen, tokens, k), tokens[k])->Err_0.0,
                    tokens[k],
                    chess_play(position_after(fen, tokens, k), tokens[k])->Err_0.1,
                ),
            ),
        ),
    decreases tokens.len(),
{
    if k > 0 {
        assert(tokens.take(k)[0] == tokens[0]);
        assert(tokens.take(k).drop_first() =~= tokens.drop_first().take(k - 1));
        if let Ok((san, after)) = chess_play(fen, tokens[0]) {
            assert(tokens.drop_first()[k - 1] == tokens[k]);
            lemma_moves_from_first_failure(
                after,
                next_fullmoves(fullmoves, white),
                !white,
                tokens.drop_first(),
                append_san(acc, fullmoves, white, san),
                row,
                k - 1,
            );
        }
    }
}

/// When the FEN sets up and the first `k` moves are legal in turn, a move
/// that fails at index `k` is the one reported, with its row number.
pub proof fn lemma_first_failing_move_is_reported(fen: Seq<char>, moves: Seq<char>, row: nat, k: int)
    requires
        chess_setup(fen) is Ok,
        0 <= k < words(moves).len(),
        legal_line(fen, words(moves).take(k)),
        chess_play(position_after(fen, words(moves), k), words(moves)[k]) is Err,
    ensures
        spec_moves_to_san(fen, moves, row) == Err::<Seq<char>, Seq<char>>(
            row_message(
                row,
                move_error_text(
                    chess_play(position_after(fen, words(moves), k), words(moves)[k])->Err_0.0,
                    words(moves)[k],
                    chess_play(position_after(fen, words(moves), k), words(moves)[k])->Err_0.1,
                ),
            ),
        ),
{
    let (fullmoves, white) = chess_setup(fen)->Ok_0;
    lemma_moves_from_first_failure(fen, fullmoves, white, words(moves), seq![], row, k);
}

} // verus!

verus! {

/// Whether White is to move after `n` moves from a position where White is
/// to move when `white`: the side to move alternates.
pub open spec fn turn_after(white: bool, n: nat) -> bool
    decreases n,
{
    if n == 0 {
        white
    } else {
        turn_after(!white, (n - 1) as nat)
    }
}

/// The full move number after `n` moves from a position with full move
/// number `fullmoves` and White to move when `white`.
pub open spec fn fullmoves_after(fullmoves: u32, white: bool, n: nat) -> u32
    decreases n,
{
    if n == 0 {
        fullmoves
    } else {
        fullmoves_after(next_fullmoves(fullmoves, white), !white, (n - 1) as nat)
    }
}

/// The movetext of the moves `tokens` played from the position `fen`, or
/// the message of the first failure.
pub open spec fn movetext_of(fen: Seq<char>, tokens: Seq<Seq<char>>, row: nat) -> Result<
    Seq<char>,
    Seq<char>,
> {
    match chess_setup(fen) {
        Ok((fullmoves, white)) => spec_moves_from(fen, fullmoves, white, tokens, seq![], row),
        Err((kind, message)) => Err(row_message(row, setup_error_text(kind, message))),
    }
}

proof fn lemma_legal_line_prefix(fen: Seq<char>, tokens: Seq<Seq<char>>)
    requires
        legal_line(fen, tokens),
        tokens.len() > 0,
    ensures
        legal_line(fen, tokens.drop_last()),
    decreases tokens.len(),
{
    if tokens.len() > 1 {
        let (_, after) = chess_play(fen, tokens[0])->Ok_0;
        lemma_legal_line_prefix(after, tokens.drop_first());
        assert(tokens.drop_last().drop_first() =~= tokens.drop_first().drop_last());
    }
}

proof fn lemma_moves_from_last_move(
    fen: Seq<char>,
    fullmoves: u32,
    white: bool,
    tokens: Seq<Seq<char>>,
    acc: Seq<char>,
    row: nat,
)
    requires
        legal_line(fen, tokens),
        tokens.len() > 0,
    ensures
        spec_moves_from(fen, fullmoves, white, tokens.drop_last(), acc, row) is Ok,
        spec_moves_from(fen, fullmoves, white, tokens, acc, row) == Ok::<Seq<char>, Seq<char>>(
            append_san(
                spec_moves_from(fen, fullmoves, white, tokens.drop_last(), acc, row)->Ok_0,
                fullmoves_after(fullmoves, white, (tokens.len() - 1) as nat),
                turn_after(white, (tokens.len() - 1) as nat),
                chess_play(
                    position_after(fen, tokens, tokens.len() - 1),
                    tokens.last(),
                )->Ok_0.0,
            ),
        ),
    decreases tokens.len(),
{
    let (san, after) = chess_play(fen, tokens[0])->Ok_0;
    let rest = tokens.drop_first();
    if tokens.len() == 1 {
        assert(tokens.drop_last() =~= Seq::<Seq<char>>::empty());
        assert(rest =~= Seq::<Seq<char>>::empty());
        assert(tokens.last() == tokens[0]);
    } else {
        lemma_moves_from_last_move(
            after,
            next_fullmoves(fullmoves, white),
            !white,
            rest,
            append_san(acc, fullmoves, white, san),
            row,
        );
        assert(tokens.drop_last()[0] == tokens[0]);
        assert(tokens.drop_last().drop_first() =~= rest.drop_last());
        assert(rest.last() == tokens.last());
        assert(position_after(fen, tokens, tokens.len() - 1) == position_after(
            after,
            rest,
            rest.len() - 1,
        ));
    }
}

/// Each move of a legal line adds its SAN to the movetext of the moves
/// before it, numbered as PGN numbers moves: a White move always comes with
/// its own full move number (`N. san`), a first move by Black with `N... san`,
/// and any other Black move bare; moves after the first are separated by a
/// space. `N` is the full move number of the position the move is played in,
/// however large.
pub proof fn lemma_each_move_is_numbered(fen: Seq<char>, tokens: Seq<Seq<char>>, row: nat)
    requires
        chess_setup(fen) is Ok,
        legal_line(fen, tokens),
        tokens.len() > 0,
    ensures
        movetext_of(fen, tokens.drop_last(), row) is Ok,
        ({
            let before = movetext_of(fen, tokens.drop_last(), row)->Ok_0;
            let n = tokens.len() - 1;
            let number = decimal(
                fullmoves_after(chess_setup(fen)->Ok_0.0, chess_setup(fen)->Ok_0.1, n as nat) as nat,
            );
            let san = chess_play(position_after(fen, tokens, n), tokens.last())->Ok_0.0;
            movetext_of(fen, tokens, row) == Ok::<Seq<char>, Seq<char>>(
                if turn_after(chess_setup(fen)->Ok_0.1, n as nat) {
                    if before.len() > 0 {
                        before + " "@ + number + ". "@ + san
                    } else {
                        number + ". "@ + san
                    }
                } else if before.len() == 0 {
                    number + "... "@ + san
                } else {
                    before + " "@ + san
                },
            )
        }),
{
    let (fullmoves, white) = chess_setup(fen)->Ok_0;
    lemma_moves_from_last_move(fen, fullmoves, white, tokens, seq![], row);
}

/// The movetext of a puzzle is the movetext of its whitespace-separated
/// moves.
pub proof fn lemma_movetext_of_words(fen: Seq<char>, moves: Seq<char>, row: nat)
    requires
        words(moves).len() > 0,
    ensures
        spec_moves_to_san(fen, moves, row) == movetext_of(fen, words(moves), row),
{
}

} // verus!
