use lichess_puzzle_csv_to_pgn::chess::moves_to_san;
use lichess_puzzle_csv_to_pgn::error::ConversionError;
use lichess_puzzle_csv_to_pgn::pgn::{escape_tag_value, push_tag, write_puzzle};
use lichess_puzzle_csv_to_pgn::puzzle::{header_is, position_of, ColumnIndexes, Puzzle};
use lichess_puzzle_csv_to_pgn::{convert_csv_to_pgn, PuzzleCsv};
use lichess_puzzle_csv_to_pgn::text::{
    chars_of, parse_u32, push_decimal, same_text, split_whitespace, string_of, trimmed,
};

const STARTING_FEN: &str = "rnbqkbnr/pppppppp/8/8/8/8/PPPPPPPP/RNBQKBNR w KQkq - 0 1";

fn strings(items: &[&str]) -> Vec<String> {
    items.iter().map(|s| s.to_string()).collect()
}

#[test]
fn renders_decimal_numbers() {
    for (n, text) in [(0u64, "0"), (7, "7"), (10, "10"), (1500, "1500"), (u64::MAX, "18446744073709551615")] {
        let mut out = String::from("#");
        push_decimal(&mut out, n);
        assert_eq!(out, format!("#{text}"));
    }
}

#[test]
fn parses_ratings_as_u32_from_str_does() {
    assert_eq!(parse_u32("1500"), Some(1500));
    assert_eq!(parse_u32("+15"), Some(15));
    assert_eq!(parse_u32("0007"), Some(7));
    assert_eq!(parse_u32("4294967295"), Some(u32::MAX));
    assert_eq!(parse_u32("4294967296"), None);
    assert_eq!(parse_u32("99999999999999999999"), None);
    assert_eq!(parse_u32(""), None);
    assert_eq!(parse_u32("+"), None);
    assert_eq!(parse_u32("-1"), None);
    assert_eq!(parse_u32(" 1"), None);
    assert_eq!(parse_u32("1x"), None);
    for text in ["", "+", "-0", "12", "+007", "4294967295", "4294967296", "١٢"] {
        assert_eq!(parse_u32(text), text.parse::<u32>().ok(), "{text:?}");
    }
}

#[test]
fn splits_at_unicode_whitespace() {
    assert_eq!(split_whitespace("  e2e4\te7e5\u{3000}g1f3 \n"), strings(&["e2e4", "e7e5", "g1f3"]));
    assert_eq!(split_whitespace(""), Vec::<String>::new());
    assert_eq!(split_whitespace(" \u{a0} "), Vec::<String>::new());
    let text = "a\u{2028}b\u{85}c  d\u{feff}e";
    let expected: Vec<String> = text.split_whitespace().map(|s| s.to_string()).collect();
    assert_eq!(split_whitespace(text), expected);
}

#[test]
fn trims_as_str_trim_does() {
    for text in ["", "  ", " a b ", "\u{2003}x\u{205f}", "x", "\n1500\r\n"] {
        assert_eq!(trimmed(text), text.trim());
    }
}

#[test]
fn compares_and_copies_text() {
    assert!(same_text("--input", "--input"));
    assert!(!same_text("--input", "--inpu"));
    assert!(!same_text("-i", "-o"));
    let chars = chars_of("héllo");
    assert_eq!(chars, vec!['h', 'é', 'l', 'l', 'o']);
    assert_eq!(string_of(&chars, 1, 4), "éll");
}

#[test]
fn quotes_a_bad_rating_as_rust_debug_text() {
    let source = "PuzzleId,FEN,Moves,Rating,RatingDeviation,Popularity,NbPlays,Themes,GameUrl\nx,f,m,\"a\"\"b\\c\",1,1,1,t,u\n";
    let mut out = String::new();
    let error = convert_csv_to_pgn(source.as_bytes(), &mut out, 0).unwrap_err();
    assert_eq!(
        error.to_string(),
        "CSV row 2: `Rating` must be a non-negative integer, found \"a\\\"b\\\\c\""
    );
}

#[test]
fn escapes_tag_values() {
    assert_eq!(escape_tag_value("plain"), "plain");
    assert_eq!(escape_tag_value("a\"b\\c\r\nd"), "a\\\"b\\\\c  d");
    let mut out = String::new();
    push_tag(&mut out, "Themes", "say \"hi\"");
    assert_eq!(out, "[Themes \"say \\\"hi\\\"\"]\n");
}

#[test]
fn an_escaped_tag_value_stays_on_one_line_and_reads_back() {
    let value = "line one\nline \"two\"\r\\end";
    let escaped = escape_tag_value(value);
    assert!(!escaped.contains('\n') && !escaped.contains('\r'));
    let mut read_back = String::new();
    let mut chars = escaped.chars();
    while let Some(c) = chars.next() {
        if c == '\\' {
            read_back.push(chars.next().unwrap());
        } else {
            read_back.push(c);
        }
    }
    assert_eq!(read_back, value.replace(['\r', '\n'], " "));
}

#[test]
fn sets_up_positions_and_reports_their_errors() {
    let error = moves_to_san("not a fen", "e2e4", 2).unwrap_err();
    assert!(error.message().starts_with("CSV row 2: invalid FEN: "));
    assert!(error.message().len() > "CSV row 2: invalid FEN: ".len());
    let error = moves_to_san("8/8/8/8/8/8/8/8 w - - 0 1", "e2e4", 2).unwrap_err();
    assert!(error.message().starts_with("CSV row 2: invalid chess position in FEN: illegal position"));
    let error = moves_to_san(STARTING_FEN, "", 2).unwrap_err();
    assert_eq!(error.message(), "CSV row 2: `Moves` must contain at least one UCI move.");
}

#[test]
fn plays_each_move_in_the_position_the_previous_one_left() {
    assert_eq!(moves_to_san(STARTING_FEN, "e2e4", 2).unwrap(), "1. e4");
    assert_eq!(moves_to_san(STARTING_FEN, "e2e4 g8f6 e4e5 d7d5 e5d6", 2).unwrap(), "1. e4 Nf6 2. e5 d5 3. exd6");
    let late = "rnbqkbnr/pppp1ppp/8/4p3/4P3/8/PPPP1PPP/RNBQKBNR b KQkq - 0 7";
    assert_eq!(moves_to_san(late, "g8f6 g1f3", 2).unwrap(), "7... Nf6 8. Nf3");
    assert_eq!(
        moves_to_san(STARTING_FEN, "e2e4 e2e4", 2).unwrap_err().message(),
        "CSV row 2: illegal UCI move `e2e4` for its FEN position: illegal uci"
    );
    assert_eq!(
        moves_to_san(STARTING_FEN, "e2e4 hello", 2).unwrap_err().message(),
        "CSV row 2: invalid UCI move `hello`: invalid uci"
    );
}

#[test]
fn converts_moves_to_numbered_san() {
    assert_eq!(moves_to_san(STARTING_FEN, "e2e4 e7e5 g1f3", 5).unwrap(), "1. e4 e5 2. Nf3");
    let castling = "r3k2r/8/8/8/8/8/8/R3K2R w KQkq - 3 20";
    assert_eq!(moves_to_san(castling, "e1g1 e8c8", 5).unwrap(), "20. O-O O-O-O");
    let en_passant = "4k3/8/8/8/3p4/8/4P3/4K3 w - - 0 30";
    assert_eq!(moves_to_san(en_passant, "e2e4 d4e3", 5).unwrap(), "30. e4 dxe3");
    let error = moves_to_san(STARTING_FEN, "", 5).unwrap_err();
    assert_eq!(error.to_string(), "CSV row 5: `Moves` must contain at least one UCI move.");
    let error = moves_to_san("bad", "e2e4", 9).unwrap_err();
    assert!(error.message().starts_with("CSV row 9: invalid FEN: "));
}

#[test]
fn formats_row_errors() {
    assert_eq!(ConversionError::row(12, "oops").to_string(), "CSV row 12: oops");
    assert_eq!(ConversionError::new("plain".to_string()).message(), "plain");
}

#[test]
fn locates_columns_by_header_name() {
    assert!(header_is("\u{feff}\u{feff}PuzzleId", "PuzzleId"));
    assert!(!header_is("PuzzleId ", "PuzzleId"));
    let headers = strings(&["a", "\u{feff}FEN", "FEN"]);
    assert_eq!(position_of(&headers, "FEN"), Some(1));
    assert_eq!(position_of(&headers, "Moves"), None);
    let error = ColumnIndexes::from_headers(&strings(&["PuzzleId", "FEN"])).unwrap_err();
    assert!(error.to_string().contains("required `Moves` column"));
}

#[test]
fn reads_a_puzzle_from_a_record() {
    let headers = strings(&["PuzzleId", "FEN", "Moves", "Rating", "RatingDeviation", "Popularity", "NbPlays", "Themes", "GameUrl", "OpeningTags"]);
    let columns = ColumnIndexes::from_headers(&headers).unwrap();
    assert_eq!(columns.opening_tags, Some(9));
    let record = strings(&["id", "fen", "m", "1500", "70", "90", "10", "t", "u", "o"]);
    let puzzle = Puzzle::from_record(&record, columns, 2).unwrap();
    assert_eq!((puzzle.id, puzzle.rating, puzzle.opening_tags), ("id", "1500", "o"));
    let short = strings(&["id", "fen"]);
    let error = Puzzle::from_record(&short, columns, 3).unwrap_err();
    assert_eq!(
        error.to_string(),
        "CSV row 3: missing `Moves`. The row has fewer fields than its header."
    );
    let no_tags = strings(&["id", "fen", "m", "1500", "70", "90", "10", "t", "u"]);
    let mut columns_without = columns;
    columns_without.opening_tags = Some(20);
    assert_eq!(Puzzle::from_record(&no_tags, columns_without, 4).unwrap().opening_tags, "");
}

#[test]
fn reads_csv_records_in_order() {
    let data = "PuzzleId,FEN,Moves,Rating,RatingDeviation,Popularity,NbPlays,Themes,GameUrl\nfirst,\"rnbqkbnr/pppppppp/8/8/8/8/PPPPPPPP/RNBQKBNR w KQkq - 0 1\",e2e4,5,1,1,1,\"a, b\",u\nsecond,x,y\n";
    let mut puzzles = PuzzleCsv::open(data.as_bytes()).unwrap();
    let mut out = String::new();
    let error = puzzles.convert_batch(&mut out, 0).unwrap_err();
    assert!(error.to_string().contains("found record with 3 fields, but the previous record has 9 fields"));
    assert_eq!(out, "");
    let mut puzzles = PuzzleCsv::open(data.as_bytes()).unwrap();
    let error = puzzles.convert_batch(&mut out, 10).unwrap_err();
    assert!(error.to_string().starts_with("CSV error: record 2"));
    let one_row = data.lines().take(2).collect::<Vec<_>>().join("\n");
    let mut puzzles = PuzzleCsv::open(one_row.as_bytes()).unwrap();
    assert_eq!(puzzles.convert_batch(&mut out, 0).unwrap(), true);
    assert!(out.contains("[PuzzleId \"first\"]"));
    assert!(out.contains("[Themes \"a, b\"]"));
    assert_eq!(puzzles.stats().records_read, 1);
}

#[test]
fn a_puzzle_whose_moves_fail_leaves_its_tags_written() {
    let headers = strings(&["PuzzleId", "FEN", "Moves", "Rating", "RatingDeviation", "Popularity", "NbPlays", "Themes", "GameUrl"]);
    let columns = ColumnIndexes::from_headers(&headers).unwrap();
    let record = strings(&["bad", STARTING_FEN, "e2e5", "2000", "70", "42", "10", "healthy", "u"]);
    let puzzle = Puzzle::from_record(&record, columns, 2).unwrap();
    let mut out = String::from("before\n");
    let error = write_puzzle(&mut out, &puzzle, 2).unwrap_err();
    assert!(error.to_string().contains("illegal UCI move `e2e5`"));
    assert!(out.starts_with("before\n[Event \"Lichess Puzzle\"]\n"));
    assert!(out.ends_with("[OpeningTags \"\"]\n\n"));
    assert_eq!(out.matches('\n').count(), 1 + 16 + 1);
}

#[test]
fn a_legal_line_converts_the_same_for_every_row() {
    let line = "e2e4 c7c5 g1f3 d7d6 d2d4 c5d4 f3d4 g8f6 b1c3 a7a6";
    let text = moves_to_san(STARTING_FEN, line, 2).unwrap();
    assert_eq!(text, "1. e4 c5 2. Nf3 d6 3. d4 cxd4 4. Nxd4 Nf6 5. Nc3 a6");
    assert_eq!(moves_to_san(STARTING_FEN, line, 999).unwrap(), text);
    let error = moves_to_san(STARTING_FEN, "e2e4 c7c5 g1f3 e1e2x d7d6", 7).unwrap_err();
    assert_eq!(error.message(), "CSV row 7: invalid UCI move `e1e2x`: invalid uci");
}
