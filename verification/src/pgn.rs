//! PGN rendering: escaped tag pairs and the text of one puzzle game.

use crate::chess::{moves_to_san, spec_moves_to_san};
use crate::error::ConversionError;
use crate::puzzle::{Puzzle, SpecPuzzle};
use vstd::prelude::*;
use vstd::string::StringExecFns;

verus! {

/// How one character of a tag value is written between the value's quotes:
/// a backslash or a double quote behind a backslash, a carriage return or a
/// line feed as a space, any other character as itself.
pub open spec fn escape_char(c: char) -> Seq<char> {
    if c == '\\' {
        seq!['\\', '\\']
    } else if c == '"' {
        seq!['\\', '"']
    } else if c == '\r' || c == '\n' {
        seq![' ']
    } else {
        seq![c]
    }
}

/// A tag value as written between its quotes in a PGN tag pair.
pub open spec fn escape_tag(s: Seq<char>) -> Seq<char>
    decreases s.len(),
{
    if s.len() == 0 {
        seq![]
    } else {
        escape_tag(s.drop_last()) + escape_char(s.last())
    }
}

/// How a PGN reader reads an escaped tag value: a backslash makes the next
/// character literal.
pub open spec fn unescape_tag(s: Seq<char>) -> Seq<char>
    decreases s.len(),
{
    if s.len() == 0 {
        seq![]
    } else if s[0] == '\\' && s.len() >= 2 {
        seq![s[1]] + unescape_tag(s.subrange(2, s.len() as int))
    } else {
        seq![s[0]] + unescape_tag(s.drop_first())
    }
}

/// `c`, with a line break character turned into a space.
pub open spec fn unbreak_char(c: char) -> char {
    if c == '\r' || c == '\n' {
        ' '
    } else {
        c
    }
}

/// Escaping distributes over concatenation.
pub proof fn lemma_escape_tag_concat(a: Seq<char>, b: Seq<char>)
    ensures
        escape_tag(a + b) == escape_tag(a) + escape_tag(b),
    decreases b.len(),
{
    if b.len() == 0 {
        assert(a + b =~= a);
        assert(escape_tag(a) + escape_tag(b) =~= escape_tag(a));
    } else {
        lemma_escape_tag_concat(a, b.drop_last());
        assert((a + b).drop_last() =~= a + b.drop_last());
        assert((a + b).last() == b.last());
        assert(escape_tag(a + b) =~= escape_tag(a) + escape_tag(b));
    }
}

/// An escaped tag value has no line break: every tag pair stays on its line.
pub proof fn lemma_escape_tag_single_line(s: Seq<char>)
    ensures
        forall|i: int|
            0 <= i < escape_tag(s).len() ==> #[trigger] escape_tag(s)[i] != '\r' && escape_tag(
                s,
            )[i] != '\n',
    decreases s.len(),
{
    if s.len() > 0 {
        lemma_escape_tag_single_line(s.drop_last());
        let head = escape_tag(s.drop_last());
        let tail = escape_char(s.last());
        assert(escape_tag(s) == head + tail);
        assert forall|i: int| 0 <= i < escape_tag(s).len() implies #[trigger] escape_tag(s)[i]
            != '\r' && escape_tag(s)[i] != '\n' by {
            if i < head.len() {
                assert(escape_tag(s)[i] == head[i]);
            } else {
                assert(escape_tag(s)[i] == tail[i - head.len()]);
            }
        }
    }
}

/// Reading an escaped tag value back gives the value itself, with its line
/// breaks turned into spaces.
pub proof fn lemma_unescape_escape_tag(s: Seq<char>)
    ensures
        unescape_tag(escape_tag(s)) == s.map_values(|c: char| unbreak_char(c)),
    decreases s.len(),
{
    if s.len() == 0 {
        assert(s.map_values(|c: char| unbreak_char(c)) =~= Seq::<char>::empty());
    } else {
        let c = s[0];
        let rest = s.drop_first();
        lemma_unescape_escape_tag(rest);
        assert(s =~= seq![c] + rest);
        lemma_escape_tag_concat(seq![c], rest);
        assert(seq![c].drop_last() =~= Seq::<char>::empty());
        assert(escape_tag(Seq::<char>::empty()) =~= Seq::<char>::empty());
        assert(escape_tag(seq![c]) =~= escape_char(c));
        let e = escape_tag(s);
        assert(e =~= escape_char(c) + escape_tag(rest));
        if c == '\\' || c == '"' {
            assert(e[0] == '\\' && e.len() >= 2);
            assert(e.subrange(2, e.len() as int) =~= escape_tag(rest));
        } else {
            assert(e[0] != '\\');
            assert(e.drop_first() =~= escape_tag(rest));
        }
        assert(s.map_values(|c: char| unbreak_char(c)) =~= seq![unbreak_char(c)] + rest.map_values(
            |c: char| unbreak_char(c),
        ));
    }
}

/// Escapes a tag value for a PGN tag pair: backslashes and double quotes are
/// escaped with a backslash, carriage returns and line feeds become spaces.
pub fn escape_tag_value(value: &str) -> (escaped: String)
    ensures
        escaped@ == escape_tag(value@),
{
    let mut out = String::new();
    for c in it: value.chars()
        invariant
            it.seq() == value@,
            out@ == escape_tag(it.seq().take(it.index() as int)),
    {
        let ghost prefix = it.seq().take(it.index() as int);
        let ghost next = it.seq().take(it.index() + 1);
        assert(next.drop_last() =~= prefix);
        if c == '\\' {
            out.append("\\\\");
        } else if c == '"' {
            out.append("\\\"");
        } else if c == '\r' || c == '\n' {
            out.push(' ');
        } else {
            out.push(c);
        }
        proof {
            reveal_strlit("\\\\");
            reveal_strlit("\\\"");
        }
        assert(out@ =~= escape_tag(next));
    }
    assert(value@.take(value@.len() as int) =~= value@);
    out
}

/// A PGN tag pair line: `[Name "escaped value"]` and a line feed.
pub open spec fn tag_line(name: Seq<char>, value: Seq<char>) -> Seq<char> {
    "["@ + name + " \""@ + escape_tag(value) + "\"]\n"@
}

/// Appends the tag pair line for `name` and `value` to `out`.
pub fn push_tag(out: &mut String, name: &str, value: &str)
    ensures
        final(out)@ == old(out)@ + tag_line(name@, value@),
{
    out.append("[");
    out.append(name);
    out.append(" \"");
    let escaped = escape_tag_value(value);
    out.append(escaped.as_str());
    out.append("\"]\n");
}

} // verus!

verus! {

/// The tag pairs of a puzzle game, in the order the PGN lists them.
#[verifier::opaque]
pub open spec fn puzzle_tags(p: SpecPuzzle) -> Seq<char> {
    tag_line("Event"@, "Lichess Puzzle"@) + tag_line("Site"@, p.game_url) + tag_line(
        "Date"@,
        "????.??.??"@,
    ) + tag_line("Round"@, "-"@) + tag_line("White"@, "?"@) + tag_line("Black"@, "?"@) + tag_line(
        "Result"@,
        "*"@,
    ) + tag_line("SetUp"@, "1"@) + tag_line("FEN"@, p.fen) + tag_line("PuzzleId"@, p.id)
        + tag_line("Rating"@, p.rating) + tag_line("RatingDeviation"@, p.rating_deviation)
        + tag_line("Popularity"@, p.popularity) + tag_line("NbPlays"@, p.nb_plays) + tag_line(
        "Themes"@,
        p.themes,
    ) + tag_line("OpeningTags"@, p.opening_tags)
}

/// The PGN game of a puzzle with SAN movetext `movetext`: its tag pairs, a
/// blank line, the movetext with the unknown result `*`, and a blank line.
pub open spec fn puzzle_game(p: SpecPuzzle, movetext: Seq<char>) -> Seq<char> {
    puzzle_tags(p) + "\n"@ + movetext + " *\n"@ + "\n"@
}

/// The PGN game of puzzle `p` (from CSV row `row`), or the message of the
/// first failure in converting its moves.
pub open spec fn spec_puzzle_game(p: SpecPuzzle, row: nat) -> Result<Seq<char>, Seq<char>> {
    match spec_moves_to_san(p.fen, p.moves, row) {
        Ok(movetext) => Ok(puzzle_game(p, movetext)),
        Err(message) => Err(message),
    }
}

/// The tag pairs of `puzzle`.
pub fn tags_of(puzzle: &Puzzle) -> (tags: String)
    ensures
        tags@ == puzzle_tags(puzzle@),
{
    let mut out = String::new();
    push_tag(&mut out, "Event", "Lichess Puzzle");
    push_tag(&mut out, "Site", puzzle.game_url);
    push_tag(&mut out, "Date", "????.??.??");
    push_tag(&mut out, "Round", "-");
    push_tag(&mut out, "White", "?");
    push_tag(&mut out, "Black", "?");
    push_tag(&mut out, "Result", "*");
    push_tag(&mut out, "SetUp", "1");
    push_tag(&mut out, "FEN", puzzle.fen);
    push_tag(&mut out, "PuzzleId", puzzle.id);
    push_tag(&mut out, "Rating", puzzle.rating);
    push_tag(&mut out, "RatingDeviation", puzzle.rating_deviation);
    push_tag(&mut out, "Popularity", puzzle.popularity);
    push_tag(&mut out, "NbPlays", puzzle.nb_plays);
    push_tag(&mut out, "Themes", puzzle.themes);
    push_tag(&mut out, "OpeningTags", puzzle.opening_tags);
    assert(out@ =~= puzzle_tags(puzzle@)) by {
        reveal(puzzle_tags);
    }
    out
}

/// What `write_puzzle` has written for puzzle `p` when its moves do not
/// convert: the tag pairs and the blank line after them.
pub open spec fn puzzle_head(p: SpecPuzzle) -> Seq<char> {
    puzzle_tags(p) + "\n"@
}

/// Appends the PGN game of `puzzle` (from CSV row `row_number`) to `out`:
/// the tag pairs and a blank line first, then the movetext. When the moves
/// do not convert, `out` keeps what was written before the movetext.
pub fn write_puzzle(out: &mut String, puzzle: &Puzzle, row_number: u64) -> (r: Result<
    (),
    ConversionError,
>)
    ensures
        r is Ok ==> spec_puzzle_game(puzzle@, row_number as nat) is Ok && final(out)@ == old(out)@
            + spec_puzzle_game(puzzle@, row_number as nat)->Ok_0,
        r is Err ==> spec_puzzle_game(puzzle@, row_number as nat) == Err::<Seq<char>, Seq<char>>(
            r->Err_0@,
        ) && final(out)@ == old(out)@ + puzzle_head(puzzle@),
{
    let ghost start = out@;
    let tags = tags_of(puzzle);
    out.append(tags.as_str());
    out.append("\n");
    assert(out@ =~= start + puzzle_head(puzzle@));
    let movetext = match moves_to_san(puzzle.fen, puzzle.moves, row_number) {
        Ok(text) => text,
        Err(e) => return Err(e),
    };
    out.append(movetext.as_str());
    out.append(" *\n");
    out.append("\n");
    assert(out@ =~= start + puzzle_game(puzzle@, movetext@));
    Ok(())
}

} // verus!

verus! {

/// The characters that a tag value cannot hold as they are: backslash,
/// double quote, carriage return and line feed.
pub open spec fn is_special_in_tag(c: char) -> bool {
    c == '\\' || c == '"' || c == '\r' || c == '\n'
}

/// A tag value is written unchanged except for backslashes, double quotes
/// and line breaks: a value without them is written as itself, and adding
/// one ordinary character to a value adds just that character to what is
/// written.
pub proof fn lemma_ordinary_characters_are_kept(s: Seq<char>, c: char)
    ensures
        (forall|i: int| 0 <= i < s.len() ==> !is_special_in_tag(#[trigger] s[i])) ==> escape_tag(s)
            == s,
        !is_special_in_tag(c) ==> escape_tag(s.push(c)) == escape_tag(s).push(c),
    decreases s.len(),
{
    assert(s.push(c).drop_last() =~= s);
    if s.len() > 0 {
        lemma_ordinary_characters_are_kept(s.drop_last(), s.last());
        if forall|i: int| 0 <= i < s.len() ==> !is_special_in_tag(#[trigger] s[i]) {
            assert forall|i: int| 0 <= i < s.drop_last().len() implies !is_special_in_tag(
                #[trigger] s.drop_last()[i],
            ) by {
                assert(s.drop_last()[i] == s[i]);
            }
            assert(!is_special_in_tag(s[s.len() - 1]));
            assert(s.drop_last().push(s.last()) =~= s);
        }
    } else {
        assert(escape_tag(s) =~= s);
    }
}

/// How each special character is written: a backslash or a double quote
/// behind a backslash, a line break as one space.
pub proof fn lemma_special_characters_are_escaped(s: Seq<char>)
    ensures
        escape_tag(s.push('\\')) == escape_tag(s) + seq!['\\', '\\'],
        escape_tag(s.push('"')) == escape_tag(s) + seq!['\\', '"'],
        escape_tag(s.push('\r')) == escape_tag(s).push(' '),
        escape_tag(s.push('\n')) == escape_tag(s).push(' '),
{
    assert(s.push('\\').drop_last() =~= s);
    assert(s.push('"').drop_last() =~= s);
    assert(s.push('\r').drop_last() =~= s);
    assert(s.push('\n').drop_last() =~= s);
    assert(escape_tag(s) + seq![' '] =~= escape_tag(s).push(' '));
}

} // verus!
