use lichess_puzzle_csv_to_pgn::{convert_csv_to_pgn, ConversionStats, PuzzleCsv, RowConverter};

const HEADER: &str =
    "PuzzleId,FEN,Moves,Rating,RatingDeviation,Popularity,NbPlays,Themes,GameUrl,OpeningTags\n";
const STARTING_FEN: &str = "rnbqkbnr/pppppppp/8/8/8/8/PPPPPPPP/RNBQKBNR w KQkq - 0 1";

fn convert(source: &str, minimum_rating: u32) -> (Result<ConversionStats, String>, String) {
    let mut pgn = String::new();
    let result = convert_csv_to_pgn(source.as_bytes(), &mut pgn, minimum_rating)
        .map_err(|error| error.to_string());
    (result, pgn)
}

#[test]
fn exports_only_ratings_at_or_above_the_minimum_as_valid_san_pgn() {
    let source = format!(
        "{HEADER}low,{STARTING_FEN},e2e4 e7e5,1499,70,42,10,healthy,https://example.test/low,\nselected,{STARTING_FEN},e2e4 e7e5,1500,71,43,11,\"healthy opening\",https://example.test/selected,\"French, Defence\"\n"
    );
    let mut pgn = String::new();

    let stats = convert_csv_to_pgn(source.as_bytes(), &mut pgn, 1500).unwrap();

    assert_eq!(
        stats,
        ConversionStats {
            records_read: 2,
            puzzles_written: 1,
            skipped_by_rating: 1,
        }
    );
    assert!(pgn.contains("[PuzzleId \"selected\"]"));
    assert!(pgn.contains("[Themes \"healthy opening\"]"));
    assert!(pgn.contains("[OpeningTags \"French, Defence\"]"));
    assert!(pgn.contains("1. e4 e5 *"));
    assert!(!pgn.contains("low"));
}

#[test]
fn keeps_existing_output_when_a_selected_row_is_invalid() {
    let source = format!(
        "{HEADER}bad,{STARTING_FEN},e2e5,2000,70,42,10,healthy,https://example.test/bad,\n"
    );
    let mut output = String::from("existing PGN");

    let error = convert_csv_to_pgn(source.as_bytes(), &mut output, 0).unwrap_err();

    assert!(error.to_string().contains("illegal UCI move `e2e5`"));
    assert_eq!(output, "existing PGN");
}

#[test]
fn rejects_a_csv_without_the_lichess_header() {
    let mut output = String::new();

    let error = convert_csv_to_pgn("name,rating\nexample,1500\n".as_bytes(), &mut output, 0)
        .unwrap_err();

    assert!(
        error
            .to_string()
            .contains("missing the required `PuzzleId`")
    );
    assert!(output.is_empty());
}

#[test]
fn writes_the_complete_game_text_of_a_selected_puzzle() {
    let source = format!(
        "{HEADER}abc,{STARTING_FEN},e2e4 e7e5 g1f3,1600,75,90,120,opening short,https://lichess.org/x,Italian_Game\n"
    );
    let (result, pgn) = convert(&source, 0);
    assert_eq!(
        result,
        Ok(ConversionStats { records_read: 1, puzzles_written: 1, skipped_by_rating: 0 })
    );
    let expected = format!(
        "[Event \"Lichess Puzzle\"]\n[Site \"https://lichess.org/x\"]\n[Date \"????.??.??\"]\n[Round \"-\"]\n[White \"?\"]\n[Black \"?\"]\n[Result \"*\"]\n[SetUp \"1\"]\n[FEN \"{STARTING_FEN}\"]\n[PuzzleId \"abc\"]\n[Rating \"1600\"]\n[RatingDeviation \"75\"]\n[Popularity \"90\"]\n[NbPlays \"120\"]\n[Themes \"opening short\"]\n[OpeningTags \"Italian_Game\"]\n\n1. e4 e5 2. Nf3 *\n\n"
    );
    assert_eq!(pgn, expected);
}

#[test]
fn numbers_a_first_black_move_with_an_ellipsis() {
    let fen = "rnbqkbnr/pppppppp/8/8/4P3/8/PPPP1PPP/RNBQKBNR b KQkq - 0 1";
    let source = format!("{HEADER}b,{fen},e7e5 g1f3 b8c6,1500,1,1,1,t,u,\n");
    let (result, pgn) = convert(&source, 0);
    assert!(result.is_ok());
    assert!(pgn.contains("\n1... e5 2. Nf3 Nc6 *\n"));
}

#[test]
fn marks_check_and_mate_in_san() {
    // Fool's mate from the position after 1. f3 e5.
    let fen = "rnbqkbnr/pppp1ppp/8/4p3/8/5P2/PPPPP1PP/RNBQKBNR w KQkq - 0 2";
    let source = format!("{HEADER}m,{fen},g2g4 d8h4,1500,1,1,1,t,u,\n");
    let (result, pgn) = convert(&source, 0);
    assert!(result.is_ok());
    assert!(pgn.contains("\n2. g4 Qh4# *\n"));
}

#[test]
fn a_rating_equal_to_the_minimum_is_exported() {
    let source = format!("{HEADER}edge,{STARTING_FEN},e2e4,1500,1,1,1,t,u,\n");
    let (result, pgn) = convert(&source, 1500);
    assert_eq!(result.unwrap().puzzles_written, 1);
    assert!(pgn.contains("[PuzzleId \"edge\"]"));
    let (result, pgn) = convert(&source, 1501);
    assert_eq!(
        result,
        Ok(ConversionStats { records_read: 1, puzzles_written: 0, skipped_by_rating: 1 })
    );
    assert_eq!(pgn, "");
}

#[test]
fn counts_every_row_as_written_or_skipped() {
    let mut source = String::from(HEADER);
    for rating in [900, 1200, 1500, 1800, 2100, 2400] {
        source.push_str(&format!("p{rating},{STARTING_FEN},e2e4,{rating},1,1,1,t,u,\n"));
    }
    for minimum in [0, 1000, 1500, 2000, 3000] {
        let stats = convert(&source, minimum).0.unwrap();
        assert_eq!(stats.records_read, 6);
        assert_eq!(stats.records_read, stats.puzzles_written + stats.skipped_by_rating);
    }
}

#[test]
fn a_higher_minimum_never_writes_more_puzzles() {
    let mut source = String::from(HEADER);
    for rating in [1000, 1400, 1400, 2000] {
        source.push_str(&format!("p,{STARTING_FEN},e2e4,{rating},1,1,1,t,u,\n"));
    }
    let mut previous = u64::MAX;
    for minimum in [0, 1000, 1001, 1400, 1401, 2000, 2001] {
        let written = convert(&source, minimum).0.unwrap().puzzles_written;
        assert!(written <= previous);
        previous = written;
    }
    assert_eq!(previous, 0);
}

#[test]
fn a_zero_minimum_skips_nothing() {
    let source = format!(
        "{HEADER}a,{STARTING_FEN},e2e4,0,1,1,1,t,u,\nb,{STARTING_FEN},d2d4,+7,1,1,1,t,u,\n"
    );
    let stats = convert(&source, 0).0.unwrap();
    assert_eq!(stats.skipped_by_rating, 0);
    assert_eq!(stats.puzzles_written, 2);
}

#[test]
fn reports_a_rating_that_is_not_a_whole_number() {
    let source = format!("{HEADER}r,{STARTING_FEN},e2e4,15x0,1,1,1,t,u,\n");
    let (result, pgn) = convert(&source, 0);
    assert_eq!(
        result,
        Err("CSV row 2: `Rating` must be a non-negative integer, found \"15x0\"".to_string())
    );
    assert_eq!(pgn, "");
    let source = format!("{HEADER}r,{STARTING_FEN},e2e4,-1,1,1,1,t,u,\n");
    assert_eq!(
        convert(&source, 0).0,
        Err("CSV row 2: `Rating` must be a non-negative integer, found \"-1\"".to_string())
    );
}

#[test]
fn reports_the_row_of_the_first_failure() {
    let source = format!(
        "{HEADER}a,{STARTING_FEN},e2e4,1500,1,1,1,t,u,\nb,{STARTING_FEN},e2e4,1500,1,1,1,t,u,\nc,{STARTING_FEN},zz,1500,1,1,1,t,u,\nd,{STARTING_FEN},,1500,1,1,1,t,u,\n"
    );
    assert_eq!(
        convert(&source, 0).0,
        Err("CSV row 4: invalid UCI move `zz`: invalid uci".to_string())
    );
}

#[test]
fn a_row_below_the_minimum_is_not_checked_for_moves() {
    let source = format!("{HEADER}a,{STARTING_FEN},zz,100,1,1,1,t,u,\n");
    assert_eq!(
        convert(&source, 1500).0,
        Ok(ConversionStats { records_read: 1, puzzles_written: 0, skipped_by_rating: 1 })
    );
}

#[test]
fn rejects_a_puzzle_without_moves() {
    let source = format!("{HEADER}a,{STARTING_FEN}, ,1500,1,1,1,t,u,\n");
    assert_eq!(
        convert(&source, 0).0,
        Err("CSV row 2: `Moves` must contain at least one UCI move.".to_string())
    );
}

#[test]
fn rejects_an_illegal_move_with_its_position_message() {
    let source = format!("{HEADER}a,{STARTING_FEN},e2e4 e2e4,1500,1,1,1,t,u,\n");
    assert_eq!(
        convert(&source, 0).0,
        Err("CSV row 2: illegal UCI move `e2e4` for its FEN position: illegal uci".to_string())
    );
}

#[test]
fn rejects_an_unparsable_fen() {
    let source = format!("{HEADER}a,not a fen,e2e4,1500,1,1,1,t,u,\n");
    let error = convert(&source, 0).0.unwrap_err();
    assert!(error.starts_with("CSV row 2: invalid FEN: "), "{error}");
}

#[test]
fn rejects_an_impossible_position() {
    let source = format!("{HEADER}a,8/8/8/8/8/8/8/8 w - - 0 1,e2e4,1500,1,1,1,t,u,\n");
    let error = convert(&source, 0).0.unwrap_err();
    assert!(
        error.starts_with("CSV row 2: invalid chess position in FEN: illegal position"),
        "{error}"
    );
}

#[test]
fn reports_a_csv_record_with_a_wrong_number_of_fields() {
    let source = format!("{HEADER}a,{STARTING_FEN},e2e4\n");
    let error = convert(&source, 0).0.unwrap_err();
    assert!(error.starts_with("CSV error: record 1"), "{error}");
    assert!(error.contains("found record with 3 fields, but the previous record has 10 fields"));
}

#[test]
fn an_empty_document_lacks_the_header() {
    let error = convert("", 0).0.unwrap_err();
    assert!(error.contains("missing the required `PuzzleId` column"));
}

#[test]
fn a_header_only_document_converts_to_nothing() {
    let (result, pgn) = convert(HEADER, 0);
    assert_eq!(
        result,
        Ok(ConversionStats { records_read: 0, puzzles_written: 0, skipped_by_rating: 0 })
    );
    assert_eq!(pgn, "");
}

#[test]
fn reports_the_first_missing_required_column() {
    let error = convert("PuzzleId,FEN,Rating\n", 0).0.unwrap_err();
    assert_eq!(
        error,
        "The CSV is missing the required `Moves` column. Download the Lichess puzzle CSV export and unpack it before converting."
    );
}

#[test]
fn finds_columns_in_any_order_and_after_a_byte_order_mark() {
    let source = format!(
        "\u{feff}Rating,GameUrl,Themes,NbPlays,Popularity,RatingDeviation,Moves,FEN,PuzzleId\n1500,u,t,1,2,3,e2e4,{STARTING_FEN},id7\n"
    );
    let (result, pgn) = convert(&source, 0);
    assert_eq!(result.unwrap().puzzles_written, 1);
    assert!(pgn.contains("[PuzzleId \"id7\"]"));
    assert!(pgn.contains("[OpeningTags \"\"]"));
    assert!(pgn.contains("[Site \"u\"]"));
}

#[test]
fn escapes_quotes_backslashes_and_line_breaks_in_tags() {
    let source = format!(
        "{HEADER}\"a\"\"b\\\\c\",{STARTING_FEN},e2e4,1500,1,1,1,\"x\ny\",u,\n"
    );
    let (result, pgn) = convert(&source, 0);
    assert!(result.is_ok());
    assert!(pgn.contains("[PuzzleId \"a\\\"b\\\\\\\\c\"]"), "{pgn}");
    assert!(pgn.contains("[Themes \"x y\"]"));
}

#[test]
fn converts_in_batches_reporting_every_ten_thousand_rows() {
    let mut source = String::from(HEADER);
    for i in 0..10_001 {
        let rating = if i % 2 == 0 { 1500 } else { 1000 };
        source.push_str(&format!("p{i},{STARTING_FEN},e2e4,{rating},1,1,1,t,u,\n"));
    }
    let mut puzzles = PuzzleCsv::open(source.as_bytes()).unwrap();
    let mut output = String::new();
    assert_eq!(puzzles.convert_batch(&mut output, 1200).unwrap(), false);
    let progress = puzzles.progress();
    assert_eq!(progress.records_read, 10_000);
    assert_eq!(progress.puzzles_written, 5_000);
    assert_eq!(puzzles.convert_batch(&mut output, 1200).unwrap(), true);
    let stats = puzzles.stats();
    assert_eq!(
        stats,
        ConversionStats { records_read: 10_001, puzzles_written: 5_001, skipped_by_rating: 5_000 }
    );
    let mut whole = String::new();
    convert_csv_to_pgn(source.as_bytes(), &mut whole, 1200).unwrap();
    assert_eq!(output, whole);
}

#[test]
fn converts_rows_one_at_a_time() {
    let header: Vec<String> = HEADER.trim_end().split(',').map(str::to_string).collect();
    let mut rows = RowConverter::new(&header).unwrap();
    let record = |id: &str, moves: &str, rating: &str| -> Vec<String> {
        [id, STARTING_FEN, moves, rating, "1", "1", "1", "t", "u", ""].iter().map(|s| s.to_string()).collect()
    };
    let mut out = String::new();
    assert_eq!(rows.convert_row(&record("a", "e2e4", "1000"), &mut out, 1500).unwrap(), false);
    assert_eq!(out, "");
    assert_eq!(rows.convert_row(&record("b", "e2e4", "1500"), &mut out, 1500).unwrap(), false);
    assert!(out.contains("[PuzzleId \"b\"]") && out.ends_with("1. e4 *\n\n"));
    let before = out.clone();
    let error = rows.convert_row(&record("c", "e2e5", "1600"), &mut out, 1500).unwrap_err();
    assert_eq!(error.to_string(), "CSV row 4: illegal UCI move `e2e5` for its FEN position: illegal uci");
    assert!(out.starts_with(&before) && out.ends_with("[OpeningTags \"\"]\n\n"));
    let stats = rows.stats();
    assert_eq!(stats.records_read, 2);
    assert_eq!((stats.puzzles_written, stats.skipped_by_rating), (1, 1));
    let missing = RowConverter::new(&vec!["FEN".to_string()]).err().unwrap();
    assert!(missing.to_string().contains("required `PuzzleId`"));
}

#[test]
fn reports_progress_every_ten_thousand_rows_one_at_a_time() {
    let header: Vec<String> = HEADER.trim_end().split(',').map(str::to_string).collect();
    let mut rows = RowConverter::new(&header).unwrap();
    let record: Vec<String> = ["p", STARTING_FEN, "e2e4", "100", "1", "1", "1", "t", "u", ""].iter().map(|s| s.to_string()).collect();
    let mut out = String::new();
    let mut due = Vec::new();
    for i in 1..=20_001u64 {
        if rows.convert_row(&record, &mut out, 1500).unwrap() {
            due.push(i);
        }
    }
    assert_eq!(due, vec![10_000, 20_000]);
    assert_eq!(rows.progress().records_read, 20_001);
}

#[test]
fn rows_below_the_minimum_convert_alike_whatever_their_position() {
    let a = format!("{HEADER}x,{STARTING_FEN},e2e4,900,1,1,1,t,u,\ny,{STARTING_FEN},d2d4,1600,1,1,1,t,u,\n");
    let b = format!("{HEADER}x,not a fen,zz zz,900,1,1,1,t,u,\ny,{STARTING_FEN},d2d4,1600,1,1,1,t,u,\n");
    assert_eq!(convert(&a, 1000), convert(&b, 1000));
    assert!(convert(&b, 1000).0.is_ok());
}

#[test]
fn a_higher_minimum_removes_exactly_the_lower_rated_games() {
    let mut source = String::from(HEADER);
    for (id, rating) in [("a", 1200), ("b", 1800), ("c", 1500), ("d", 2100)] {
        source.push_str(&format!("{id},{STARTING_FEN},e2e4,{rating},1,1,1,t,u,\n"));
    }
    let (_, all) = convert(&source, 1000);
    let (_, high) = convert(&source, 1600);
    let games: Vec<&str> = all.split("[Event").filter(|g| !g.is_empty()).collect();
    let kept: String = games
        .iter()
        .filter(|g| g.contains("[PuzzleId \"b\"]") || g.contains("[PuzzleId \"d\"]"))
        .map(|g| format!("[Event{g}"))
        .collect();
    assert_eq!(high, kept);
}

#[test]
fn batches_and_the_whole_conversion_agree() {
    let mut source = String::from(HEADER);
    for i in 0..25_000 {
        source.push_str(&format!("p{i},{STARTING_FEN},g1f3,{},1,1,1,t,u,\n", 1000 + i % 1000));
    }
    let mut puzzles = PuzzleCsv::open(source.as_bytes()).unwrap();
    let mut batches = String::new();
    while !puzzles.convert_batch(&mut batches, 1500).unwrap() {}
    let mut whole = String::new();
    let stats = convert_csv_to_pgn(source.as_bytes(), &mut whole, 1500).unwrap();
    assert_eq!(batches, whole);
    assert_eq!(puzzles.stats(), stats);
}
