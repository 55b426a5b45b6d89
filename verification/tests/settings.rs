use cps::banner::{skipped_option_notice, startup_banner};
use cps::error::{Error, ErrorKind};
use cps::settings::{
    asks_for_help, parse_settings, EngineOption, Settings, DEFAULT_DATABASE_PATH, USAGE,
};
use cps::uci::command_words;

const CORES: usize = 6;

fn strings(texts: &[&str]) -> Vec<String> {
    texts.iter().map(|text| text.to_string()).collect()
}

fn flags(arguments: &[&str]) -> Result<Settings, Error> {
    parse_settings(&strings(arguments), CORES)
}

fn rejection(arguments: &[&str]) -> Error {
    flags(arguments).err().unwrap()
}

fn demanded(name: &str, value: &str) -> EngineOption {
    EngineOption {
        name: name.to_string(),
        value: value.to_string(),
        demanded: true,
    }
}

fn defaulted(name: &str, value: &str) -> EngineOption {
    EngineOption {
        demanded: false,
        ..demanded(name, value)
    }
}

#[test]
fn keeps_defaults_beside_the_engine() {
    let settings = flags(&["--engine", "lc0"]).unwrap();

    assert_eq!(settings.engine, "lc0");
    assert_eq!(settings.database_path, DEFAULT_DATABASE_PATH);
    assert_eq!(settings.search_depth, 16);
    assert_eq!(settings.puzzle_count, 100);
    assert_eq!(settings.skip_count, 0);
    assert_eq!(settings.workers, CORES);
    assert_eq!(settings.engine_options, [defaulted("Hash", "16")]);
    assert!(!settings.show_failed);
}

#[test]
fn replaces_the_default_hash_instead_of_repeating_it() {
    for arguments in [
        ["--engine", "lc0", "--hash", "256"],
        ["--engine", "lc0", "--option", "Hash=256"],
    ] {
        let settings = flags(&arguments).unwrap();

        assert_eq!(settings.engine_options, [demanded("Hash", "256")]);
    }
}

#[test]
fn rejects_flags_it_cannot_follow() {
    for (arguments, message) in [
        (&["--depth", "8"][..], "--engine is required"),
        (&["--wat"], "unknown flag `--wat`"),
        (&["--depth"], "--depth needs a value"),
        (
            &["--depth", "0"],
            "--depth needs a depth between 1 and 255 plies",
        ),
        (
            &["--depth", "256"],
            "--depth needs a depth between 1 and 255 plies",
        ),
        (&["--count", "0"], "--count needs at least one puzzle"),
        (&["--count", "many"], "--count needs a number, not `many`"),
        (
            &["--engine", "lc0", "--workers", "0"],
            "--workers needs at least one engine",
        ),
        (
            &["--engine", "lc0", "--hash", "0"],
            "--hash needs at least one megabyte",
        ),
        (
            &["--engine", "lc0", "--option", "Threads"],
            "--option needs NAME=VALUE, not `Threads`",
        ),
        (
            &["--engine", "lc0", "--option", "=4"],
            "--option needs NAME=VALUE, not `=4`",
        ),
    ] {
        let error = rejection(arguments);

        assert_eq!(error.kind, ErrorKind::InvalidInput);
        assert!(error.message.contains(message), "{arguments:?}");
        assert_eq!(error.message, format!("{message}\n{USAGE}"));
    }
}

#[test]
fn takes_every_flag() {
    let settings = flags(&[
        "--engine",
        "lc0",
        "--database",
        "puzzles.csv",
        "--depth",
        "8",
        "--count",
        "3",
        "--skip",
        "7",
        "--workers",
        "4",
        "--hash",
        "256",
        "--option",
        "MultiPV=2",
        "--show-failed",
    ])
    .unwrap();

    assert_eq!(settings.engine, "lc0");
    assert_eq!(settings.database_path, "puzzles.csv");
    assert_eq!(settings.search_depth, 8);
    assert_eq!(settings.puzzle_count, 3);
    assert_eq!(settings.skip_count, 7);
    assert_eq!(settings.workers, 4);
    assert_eq!(
        settings.engine_options,
        [demanded("Hash", "256"), demanded("MultiPV", "2")]
    );
    assert!(settings.show_failed);
}

#[test]
fn keeps_option_names_with_spaces_and_values_with_equals() {
    let settings = flags(&[
        "--engine",
        "lc0",
        "--option",
        "Debug Log File=logs/a=b.txt",
        "--option",
        "SyzygyPath=",
    ])
    .unwrap();

    assert_eq!(
        settings.engine_options,
        [
            defaulted("Hash", "16"),
            demanded("Debug Log File", "logs/a=b.txt"),
            demanded("SyzygyPath", ""),
        ]
    );
}

#[test]
fn rejects_empty_engine_command() {
    for error in [
        flags(&["--engine", "   "]).err().unwrap(),
        command_words("   ").err().unwrap(),
    ] {
        assert_eq!(error.kind, ErrorKind::InvalidInput);
        assert!(error.message.contains("--engine needs a command"));
    }
}

#[test]
fn splits_the_engine_command_into_program_and_arguments() {
    let (program, arguments) = command_words("  lc0\t--uci  --threads 2 ").unwrap();

    assert_eq!(program, "lc0");
    assert_eq!(arguments, ["--uci", "--threads", "2"]);
}

#[test]
fn takes_the_last_value_of_a_repeated_flag() {
    let settings = flags(&[
        "--engine", "a", "--depth", "3", "--hash", "1", "--engine", "b", "--depth", "4", "--hash",
        "2", "--option", " Hash = 3", "--option", "Threads=1", "--option", "Threads=2",
    ])
    .unwrap();

    assert_eq!(settings.engine, "b");
    assert_eq!(settings.search_depth, 4);
    assert_eq!(
        settings.engine_options,
        [demanded("Hash", " 3"), demanded("Threads", "2")]
    );
}

#[test]
fn reports_the_first_flag_it_cannot_follow() {
    for (arguments, message) in [
        (&["--depth", "x", "--wat"][..], "--depth needs a number, not `x`"),
        (&["--engine"], "--engine needs a value"),
        (&["--skip", "-1"], "--skip needs a number, not `-1`"),
        (
            &["--skip", "18446744073709551616"],
            "--skip needs a number, not `18446744073709551616`",
        ),
        (&["--option", "  =4"], "--option needs NAME=VALUE, not `  =4`"),
        (&[], "--engine is required"),
        (&["--help"], "unknown flag `--help`"),
    ] {
        let error = rejection(arguments);

        assert_eq!(error.kind, ErrorKind::InvalidInput);
        assert_eq!(error.message, format!("{message}\n{USAGE}"));
    }
}

#[test]
fn reads_numbers_with_plus_signs_and_leading_zeros() {
    let settings = flags(&[
        "--engine",
        "e",
        "--skip",
        "+12",
        "--count",
        "0018446744073709551615",
        "--depth",
        "255",
        "--hash",
        "+0064",
    ])
    .unwrap();

    assert_eq!(settings.skip_count, 12);
    assert_eq!(settings.puzzle_count, usize::MAX);
    assert_eq!(settings.search_depth, 255);
    assert_eq!(settings.engine_options, [demanded("Hash", "64")]);
}

#[test]
fn starts_no_more_workers_than_puzzles() {
    for (workers, count, expected) in [("8", "3", 3), ("2", "3", 2), ("3", "3", 3)] {
        let settings = flags(&["--engine", "e", "--workers", workers, "--count", count]).unwrap();

        assert_eq!(settings.worker_count(), expected);
    }
}

#[test]
fn gives_help_wherever_it_is_asked_for() {
    assert!(asks_for_help(&strings(&["--wat", "--help"])));
    assert!(asks_for_help(&strings(&["--help"])));
    assert!(!asks_for_help(&strings(&["--engine", "--helper"])));
    assert!(!asks_for_help(&[]));
}

#[test]
fn demands_an_option_in_place_or_at_the_end() {
    let mut settings = Settings::default(1);
    settings.set_option("Threads", "2");
    settings.set_option("Hash", "32");
    settings.set_option("Ponder", "true");
    settings.set_option("Threads", "1");

    assert_eq!(
        settings.engine_options,
        [
            demanded("Hash", "32"),
            demanded("Threads", "1"),
            demanded("Ponder", "true"),
        ]
    );
}

#[test]
fn lists_the_options_in_the_banner() {
    let mut settings = Settings::default(4);
    settings.engine = "stockfish --uci".to_string();
    settings.set_option("Threads", "1");
    settings.set_option("Debug Log File", "a b");

    assert_eq!(
        startup_banner(&settings, 0, &[]),
        "stockfish --uci at Depth 16 with Hash=16 Threads=1 Debug Log File=a b in 0 processes"
    );
    assert_eq!(
        startup_banner(&settings, 2, &strings(&["Threads", "Other"])),
        "stockfish --uci at Depth 16 with Hash=16 Debug Log File=a b in 2 processes"
    );
}

#[test]
fn takes_values_that_look_like_flags() {
    let settings = flags(&["--engine", "--hash", "--database", "--show-failed"]).unwrap();

    assert_eq!(settings.engine, "--hash");
    assert_eq!(settings.database_path, "--show-failed");
    assert_eq!(settings.engine_options, [defaulted("Hash", "16")]);
    assert!(!settings.show_failed);
}

#[test]
fn notes_a_default_that_is_skipped() {
    assert_eq!(
        skipped_option_notice("Hash"),
        "cps: engine does not support option `Hash`, keeping the engine default"
    );
}

#[test]
fn refuses_a_flag_whatever_stands_behind_it() {
    assert_eq!(
        rejection(&["--engine", "lc0", "--depth", "deep"]).message,
        rejection(&["--engine", "lc0", "--depth", "deep", "--count", "many"]).message
    );
    assert_eq!(
        rejection(&["--engine", "lc0", "--deep", "3"]).message,
        rejection(&["--engine", "lc0", "--deep", "3", "--count"]).message
    );
}
