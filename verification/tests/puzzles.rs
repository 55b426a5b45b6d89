use cps::banner::startup_banner;
use cps::error::{Error, ErrorKind};
use cps::puzzle::{failed_puzzle_line, parse_puzzle, Puzzle};
use cps::settings::Settings;
use cps::source::PuzzleSource;

const PUZZLE_LINE: &str = "00008,r6k/pp2r2p/4Rp1Q/3p4/8/1N1P2R1/PqP2bPP/7K b - - 0 24,f2g3 e6e7 b2b1,1784,77,95,9822,crushing long,https://lichess.org/787zsVup/black#48,";
const HEADER_LINE: &str =
    "PuzzleId,FEN,Moves,Rating,RatingDeviation,Popularity,NbPlays,Themes,GameUrl,OpeningTags";

fn settings(puzzle_count: usize, skip_count: usize) -> Settings {
    Settings {
        database_path: "puzzles.csv".to_string(),
        puzzle_count,
        skip_count,
        ..Settings::default(1)
    }
}

fn read_puzzles(settings: &Settings, contents: &str) -> Result<Vec<Puzzle>, Error> {
    let mut lines = contents.split_inclusive('\n');
    let mut source = PuzzleSource::open(settings);
    while source.is_skipping() {
        match lines.next() {
            Some(line) => source.skip_ahead(line),
            None => break,
        }
    }
    let mut puzzles = Vec::new();
    while source.is_taking() {
        match lines.next() {
            Some(line) => puzzles.extend(source.next_puzzle(line)),
            None => break,
        }
    }
    source.shortfall()?;

    Ok(puzzles)
}

#[test]
fn splits_opponent_move_from_solution() {
    let puzzle = parse_puzzle(PUZZLE_LINE).unwrap();

    assert_eq!(
        puzzle.fen,
        "r6k/pp2r2p/4Rp1Q/3p4/8/1N1P2R1/PqP2bPP/7K b - - 0 24"
    );
    assert_eq!(puzzle.id, "00008");
    assert_eq!(puzzle.rating, 1784);
    assert_eq!(puzzle.opponent_move, "f2g3");
    assert_eq!(puzzle.solution, ["e6e7", "b2b1"]);
    assert_eq!(puzzle.url, "https://lichess.org/787zsVup/black#48");
}

#[test]
fn rejects_lines_that_are_not_puzzles() {
    for line in [
        "PuzzleId,FEN,Moves,Rating",
        "00008,8/8/8/8/8/8/8/K6k w - - 0 1,f2g3,1784",
        "00008,8/8/8/8/8/8/8/K6k w - - 0 1,f2g3 e6e7,high",
        "",
    ] {
        assert!(parse_puzzle(line).is_none(), "{line}");
    }
}

#[test]
fn reads_no_more_puzzles_than_requested() {
    let contents = format!("{HEADER_LINE}\n{PUZZLE_LINE}\n{PUZZLE_LINE}\n{PUZZLE_LINE}\n");

    let puzzles = read_puzzles(&settings(2, 0), &contents).unwrap();

    assert_eq!(puzzles.len(), 2);
    assert_eq!(puzzles[0].opponent_move, "f2g3");
}

#[test]
fn skips_the_first_line_even_when_it_parses() {
    let first = PUZZLE_LINE.replace("f2g3", "a1a2");
    let second = PUZZLE_LINE.replace("f2g3", "b1b2");
    let third = PUZZLE_LINE.replace("f2g3", "c1c2");

    let puzzles =
        read_puzzles(&settings(2, 0), &format!("{first}\n{second}\n{third}\n")).unwrap();

    assert_eq!(puzzles[0].opponent_move, "b1b2");
    assert_eq!(puzzles[1].opponent_move, "c1c2");
}

#[test]
fn never_hands_out_the_first_line() {
    let settings = settings(1, 0);
    let mut source = PuzzleSource::open(&settings);

    assert!(source.next_puzzle(PUZZLE_LINE).is_none());
    assert!(source.is_taking());
    assert!(source.next_puzzle(PUZZLE_LINE).is_some());
    assert!(!source.is_taking());
    source.shortfall().unwrap();
}

#[test]
fn starts_reading_after_the_skipped_puzzles() {
    let rows: Vec<String> = ["a1a1", "b2b2", "c3c3", "d4d4"]
        .iter()
        .map(|first_move| PUZZLE_LINE.replace("f2g3", first_move))
        .collect();

    let puzzles = read_puzzles(
        &settings(2, 2),
        &format!("{HEADER_LINE}\n{}\n", rows.join("\n")),
    )
    .unwrap();

    assert_eq!(puzzles.len(), 2);
    assert_eq!(puzzles[0].opponent_move, "c3c3");
    assert_eq!(puzzles[1].opponent_move, "d4d4");
}

#[test]
fn fails_when_skipping_leaves_too_few_puzzles() {
    let contents = format!("{HEADER_LINE}\n{PUZZLE_LINE}\n{PUZZLE_LINE}\n{PUZZLE_LINE}\n");

    let error = read_puzzles(&settings(2, 2), &contents).err().unwrap();

    assert_eq!(error.kind, ErrorKind::InvalidData);
    assert!(error
        .message
        .contains("read 1 puzzles after skipping 2, expected 2"));
}

#[test]
fn fails_when_database_holds_fewer_puzzles() {
    let contents = format!("{HEADER_LINE}\n{PUZZLE_LINE}\n");

    let error = read_puzzles(&settings(2, 0), &contents).err().unwrap();

    assert_eq!(error.kind, ErrorKind::InvalidData);
    assert!(error.message.contains("read 1 puzzles, expected 2"));
    assert_eq!(error.message, "puzzles.csv: read 1 puzzles, expected 2");
}

#[test]
fn fails_when_the_database_runs_out_of_puzzles() {
    let contents = format!("{HEADER_LINE}\n{PUZZLE_LINE}\n{PUZZLE_LINE}\n");

    let error = read_puzzles(&settings(5, 0), &contents).err().unwrap();

    assert_eq!(error.kind, ErrorKind::InvalidData);
    assert!(error.message.contains("read 2 puzzles, expected 5"));
}

#[test]
fn fails_on_an_empty_database() {
    let error = read_puzzles(&settings(1, 3), "").err().unwrap();

    assert_eq!(error.message, "puzzles.csv: read 0 puzzles, expected 1");
}

#[test]
fn passes_over_lines_that_are_not_puzzles() {
    let contents =
        format!("{HEADER_LINE}\nnothing\n{PUZZLE_LINE}\n\n{PUZZLE_LINE}\r\n,,,\n{PUZZLE_LINE}");

    assert_eq!(read_puzzles(&settings(2, 1), &contents).unwrap().len(), 2);
    assert_eq!(
        read_puzzles(&settings(3, 1), &contents).err().unwrap().message,
        "puzzles.csv: read 2 puzzles after skipping 1, expected 3"
    );
}

#[test]
fn hands_out_nothing_once_stopped() {
    let settings = settings(2, 0);
    let mut source = PuzzleSource::open(&settings);
    source.skip_ahead(HEADER_LINE);
    assert!(!source.is_skipping());
    assert!(source.is_taking());
    assert!(source.next_puzzle(PUZZLE_LINE).is_some());
    assert!(source.is_taking());

    source.stop();

    assert!(!source.is_taking());
    assert_eq!(
        source.shortfall().err().unwrap().message,
        "puzzles.csv: read 1 puzzles, expected 2"
    );
}

#[test]
fn reads_rows_of_few_columns() {
    let puzzle = parse_puzzle("a, b ,  c1c2   d3d4\te5e6 ,+0007 \n");
    assert!(puzzle.is_some());
    let puzzle = puzzle.unwrap();

    assert_eq!(puzzle.id, "a");
    assert_eq!(puzzle.fen, " b ");
    assert_eq!(puzzle.opponent_move, "c1c2");
    assert_eq!(puzzle.solution, ["d3d4", "e5e6"]);
    assert_eq!(puzzle.rating, 7);
    assert_eq!(puzzle.url, "");

    assert_eq!(parse_puzzle("i,f,a b,1,2,3,4,5,u").unwrap().url, "u");
    assert_eq!(parse_puzzle("i,f,a b,1,2,3,4,5").unwrap().url, "");
    assert_eq!(parse_puzzle("i,f,a b,1,2,3,4,5,u,v").unwrap().url, "u");
    assert!(parse_puzzle("i,f,a b,4294967295").is_some());
    assert!(parse_puzzle("i,f,a b,4294967296").is_none());
    assert!(parse_puzzle("i,f,a b, 1").is_none());
    assert!(parse_puzzle("i,f,a  ,1").is_none());
    assert!(parse_puzzle("i,f,a\tb,1").is_none());
    assert!(parse_puzzle("i,f,a b").is_none());
}

#[test]
fn ignores_the_end_of_a_row() {
    let row = format!("{PUZZLE_LINE}Sicilian \r\n");
    let puzzle = parse_puzzle(&row).unwrap();

    assert_eq!(puzzle.url, "https://lichess.org/787zsVup/black#48");
    assert_eq!(parse_puzzle("i,f,a b,12\r\n").unwrap().rating, 12);
}

#[test]
fn writes_the_banner_and_the_failed_puzzles() {
    let settings = Settings {
        engine: "lc0".to_string(),
        search_depth: 12,
        ..Settings::default(1)
    };
    let puzzle = Puzzle {
        rating: 784,
        ..parse_puzzle(PUZZLE_LINE).unwrap()
    };

    assert_eq!(
        startup_banner(&settings, 1, &[]),
        "lc0 at Depth 12 with Hash=16 in 1 process"
    );
    assert_eq!(
        startup_banner(&settings, 6, &["Hash".to_string()]),
        "lc0 at Depth 12 in 6 processes"
    );
    assert_eq!(
        failed_puzzle_line(&puzzle, "d4d5", 12),
        "00008 | r6k/pp2r2p/4Rp1Q/3p4/8/1N1P2R1/PqP2bPP/7K b - - 0 24 | f2g3 e6e7 b2b1 |  784 | played d4d5 | https://lichess.org/787zsVup/black#48"
    );
}

#[test]
fn asks_for_the_depth_the_solution_needs() {
    let puzzle = parse_puzzle(PUZZLE_LINE).unwrap();

    assert_eq!(puzzle.solution.len(), 2);

    let shallow = failed_puzzle_line(&puzzle, "d4d5", 1);
    let deep = failed_puzzle_line(&puzzle, "d4d5", 2);

    assert_eq!(shallow, format!("{deep} | needs depth 2"));
}

#[test]
fn lists_an_unsolved_puzzle_in_the_order_of_the_columns() {
    let row = "000VW,r4r2/1p3pkp/p5p1/3R1N1Q/3P4/8/P1q2P2/3R2K1 b - - 3 25,g6f5 d5c5 c2e4 h5g5 g7h8 g5f6,2869,1,2,3,4,https://lichess.org/e9AY2m5j/black#50,";
    let puzzle = parse_puzzle(row).unwrap();

    assert_eq!(
        failed_puzzle_line(&puzzle, "h5g5", 16),
        "000VW | r4r2/1p3pkp/p5p1/3R1N1Q/3P4/8/P1q2P2/3R2K1 b - - 3 25 | g6f5 d5c5 c2e4 h5g5 g7h8 g5f6 | 2869 | played h5g5 | https://lichess.org/e9AY2m5j/black#50"
    );
}
