use cps::progress::{Progress, BLANK_LINE, CLEARED_LINE, LINE_ABOVE, UNSOLVED_HEADING};
use cps::puzzle::{failed_puzzle_line, parse_puzzle};
use cps::rounding::{write_percentage, Elapsed};
use std::time::Duration;

const PUZZLE_LINE: &str = "00008,r6k/pp2r2p/4Rp1Q/3p4/8/1N1P2R1/PqP2bPP/7K b - - 0 24,f2g3 e6e7 b2b1,1784,77,95,9822,crushing long,https://lichess.org/787zsVup/black#48,";

fn elapsed(duration: Duration) -> Elapsed {
    Elapsed {
        secs: duration.as_secs(),
        nanos: duration.subsec_nanos(),
    }
}

#[test]
fn shows_progress_as_two_percentages() {
    let progress = Progress {
        tested: 3,
        solved: 2,
        ..Progress::default()
    };

    assert_eq!(
        progress
            .line(10, elapsed(Duration::from_millis(12_340)))
            .unwrap(),
        "puzzle 3 of 10 (30.0%), solved 2 (66.7%) in 12.3s"
    );
}

#[test]
fn heads_the_unsolved_list_once() {
    let puzzle = parse_puzzle(PUZZLE_LINE).unwrap();
    let mut progress = Progress::default();

    let first = progress.unsolved_report(&puzzle, "d4d5", 16);
    let second = progress.unsolved_report(&puzzle, "d4d5", 16);

    assert_eq!(
        first,
        format!(
            "{UNSOLVED_HEADING}{}",
            failed_puzzle_line(&puzzle, "d4d5", 16)
        )
    );
    assert_eq!(second, failed_puzzle_line(&puzzle, "d4d5", 16));
}

#[test]
fn keeps_a_blank_line_above_the_progress_line() {
    let puzzle = parse_puzzle(PUZZLE_LINE).unwrap();
    let mut progress = Progress::default();

    assert_eq!(progress.opening(), BLANK_LINE);
    assert!(progress
        .unsolved_report(&puzzle, "d4d5", 16)
        .starts_with(UNSOLVED_HEADING));

    progress.drawn_in_place = true;

    assert_eq!(progress.opening(), CLEARED_LINE);
    assert!(progress
        .unsolved_report(&puzzle, "d4d5", 16)
        .starts_with(&format!("{CLEARED_LINE}{LINE_ABOVE}{CLEARED_LINE}")));
    assert_eq!(progress.opening(), BLANK_LINE);
}

#[test]
fn shows_no_progress_before_the_first_puzzle_is_tested() {
    assert!(Progress::default()
        .line(10, elapsed(Duration::ZERO))
        .is_none());
}

#[test]
fn counts_and_lists_what_is_reported() {
    let puzzle = parse_puzzle(PUZZLE_LINE).unwrap();
    let line = failed_puzzle_line(&puzzle, "a1a2", 16);
    let second = elapsed(Duration::from_secs(1));
    let mut progress = Progress::default();

    assert_eq!(progress.redraw(true, 4, second), None);
    assert!(!progress.drawn_in_place);
    assert_eq!(progress.closing(4, second), None);

    progress.report(&puzzle, None, true, 16);
    assert_eq!((progress.tested, progress.solved), (1, 1));
    assert_eq!(
        progress.redraw(true, 4, second).unwrap(),
        "\npuzzle 1 of 4 (25.0%), solved 1 (100.0%) in 1.0s"
    );
    assert!(progress.drawn_in_place);

    let failure = Some("a1a2".to_string());
    progress.report(&puzzle, failure.clone(), false, 16);
    assert_eq!((progress.tested, progress.solved), (2, 1));
    assert!(progress.unsolved.is_empty());

    progress.report(&puzzle, failure, true, 16);
    assert_eq!((progress.tested, progress.solved), (3, 1));
    assert_eq!(progress.unsolved, [line.clone()]);
    assert!(progress.drawn_in_place);
    assert!(!progress.listed_unsolved);
    assert_eq!(progress.redraw(false, 4, second), None);
    assert_eq!(
        progress.redraw(true, 4, second).unwrap(),
        "\r\x1b[Kpuzzle 3 of 4 (75.0%), solved 1 (33.3%) in 1.0s"
    );

    progress.report(&puzzle, Some("b1b2".to_string()), true, 1);
    let other = failed_puzzle_line(&puzzle, "b1b2", 1);
    assert_eq!(
        progress.unsolved_list().unwrap(),
        format!("\r\x1b[K\x1b[A\r\x1b[KUnsolved puzzles:\n{line}\n{other}")
    );
    assert!(!progress.drawn_in_place);
    assert_eq!(
        progress.closing(4, second).unwrap(),
        "\npuzzle 4 of 4 (100.0%), solved 1 (25.0%) in 1.0s"
    );
    assert_eq!(progress.unsolved_list(), None);
}

#[test]
fn lists_unsolved_puzzles_after_the_run() {
    let puzzle = parse_puzzle(PUZZLE_LINE).unwrap();
    let run = |show_failed: bool| {
        let mut progress = Progress::default();
        let mut written = String::new();
        for failure in [Some("a1a2"), None, Some("c1c2")] {
            progress.report(&puzzle, failure.map(str::to_string), show_failed, 16);
            written.extend(progress.redraw(true, 3, elapsed(Duration::ZERO)));
        }
        (progress, written)
    };
    let (mut showing, while_showing) = run(true);
    let (mut silent, while_silent) = run(false);

    assert_eq!(while_showing, while_silent);
    assert_eq!(silent.unsolved_list(), None);
    assert!(silent.drawn_in_place);
    assert_eq!(
        showing.unsolved_list().unwrap(),
        format!(
            "{CLEARED_LINE}{LINE_ABOVE}{CLEARED_LINE}{UNSOLVED_HEADING}{}\n{}",
            failed_puzzle_line(&puzzle, "a1a2", 16),
            failed_puzzle_line(&puzzle, "c1c2", 16)
        )
    );
}

#[test]
fn lists_unsolved_puzzles_where_no_line_was_drawn() {
    let puzzle = parse_puzzle(PUZZLE_LINE).unwrap();
    let mut progress = Progress::default();
    assert_eq!(progress.unsolved_list(), None);
    assert!(!progress.listed_unsolved);

    progress.report(&puzzle, Some("a1a2".to_string()), true, 16);

    assert_eq!(
        progress.unsolved_list().unwrap(),
        format!(
            "{UNSOLVED_HEADING}{}",
            failed_puzzle_line(&puzzle, "a1a2", 16)
        )
    );
    assert!(progress.listed_unsolved);
}

fn next(state: &mut u64) -> u64 {
    *state ^= *state << 13;
    *state ^= *state >> 7;
    *state ^= *state << 17;
    *state
}

fn share(part: usize, whole: usize) -> String {
    format!("{:.1}", 100.0 * part as f64 / whole as f64)
}

#[test]
fn writes_percentages_as_doubles_give_them() {
    for (part, whole) in [
        (1, 16),
        (3, 16),
        (1, 2000),
        (3, 2000),
        (1, 3),
        (2, 3),
        (0, 7),
        (7, 7),
        (5, 0),
        (0, 0),
        (usize::MAX, 1),
        (1, usize::MAX),
        (usize::MAX, usize::MAX),
        (usize::MAX - 1024, usize::MAX),
    ] {
        assert_eq!(write_percentage(part, whole), share(part, whole));
    }
    for whole in 1..500 {
        for part in 0..=whole {
            assert_eq!(write_percentage(part, whole), share(part, whole));
        }
    }
    for part in 0..=4000 {
        assert_eq!(write_percentage(part, 2000), share(part, 2000));
        assert_eq!(write_percentage(part, 80_000), share(part, 80_000));
    }
    let mut state: u64 = 88172645463325252;
    for _ in 0..20_000 {
        let part = (next(&mut state) >> (next(&mut state) % 64)) as usize;
        let whole = (next(&mut state) >> (next(&mut state) % 64)) as usize;
        assert_eq!(write_percentage(part, whole), share(part, whole));
    }
}

#[test]
fn writes_seconds_as_doubles_give_them() {
    let mut state: u64 = 1234567890123456789;
    let mut durations = vec![
        Duration::ZERO,
        Duration::MAX,
        Duration::from_millis(50),
        Duration::from_millis(250),
        Duration::from_millis(12_340),
        Duration::new(0, 1),
        Duration::new(0, 999_999_999),
        Duration::new(1 << 45, 1),
        Duration::new(1 << 52, 500_000_000),
        Duration::new((1 << 52) + 1, 500_000_000),
        Duration::new((1 << 53) - 1, 999_999_999),
        Duration::new((1 << 53) + 1, 999_999_999),
    ];
    for millis in 0..3000 {
        durations.push(Duration::from_millis(millis * 50));
        durations.push(Duration::from_millis(millis));
    }
    for _ in 0..20_000 {
        let secs = next(&mut state) >> (next(&mut state) % 64);
        let nanos = (next(&mut state) % 1_000_000_000) >> (next(&mut state) % 30);
        durations.push(Duration::new(secs, nanos as u32));
    }
    for duration in durations {
        assert_eq!(
            elapsed(duration).write_seconds(),
            format!("{:.1}", duration.as_secs_f64()),
            "{duration:?}"
        );
    }
}
