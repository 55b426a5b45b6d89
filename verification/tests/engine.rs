use cps::banner::startup_banner;
use cps::error::{Error, ErrorKind};
use cps::puzzle::{parse_puzzle, Puzzle};
use cps::session::{Next, Startup, StartupStage, Step, Trial, TrialStage};
use cps::settings::{EngineOption, Settings};
use cps::source::PuzzleSource;
use cps::uci::{answers, best_move, command_words, go, parse_option_name, set_options};

const PUZZLE_LINE: &str = "00008,r6k/pp2r2p/4Rp1Q/3p4/8/1N1P2R1/PqP2bPP/7K b - - 0 24,f2g3 e6e7 b2b1,1784,77,95,9822,crushing long,https://lichess.org/787zsVup/black#48,";
const HEADER_LINE: &str =
    "PuzzleId,FEN,Moves,Rating,RatingDeviation,Popularity,NbPlays,Themes,GameUrl,OpeningTags";
const POSITION: &str = "8/8/8/8/8/8/8/K6k w - - 0 1";

const ANNOUNCEMENTS: [&str; 4] = [
    "id name Mock 1.0\n",
    "option name Hash type spin default 16 min 1 max 1024\n",
    "option name Threads type spin default 1 min 1 max 512\n",
    "option name Debug Log File type string default\n",
];

fn strings(texts: &[&str]) -> Vec<String> {
    texts.iter().map(|text| text.to_string()).collect()
}

fn demanded(name: &str, value: &str) -> EngineOption {
    EngineOption {
        name: name.to_string(),
        value: value.to_string(),
        demanded: true,
    }
}

fn defaulted(name: &str, value: &str) -> EngineOption {
    EngineOption {
        demanded: false,
        ..demanded(name, value)
    }
}

/// An engine that answers commands with lines, and notes the commands.
struct Mock<'a> {
    answers: &'a dyn Fn(&str) -> Vec<String>,
    pending: std::collections::VecDeque<String>,
    log: Vec<String>,
}

impl<'a> Mock<'a> {
    fn new(answers: &'a dyn Fn(&str) -> Vec<String>) -> Self {
        Mock {
            answers,
            pending: std::collections::VecDeque::new(),
            log: Vec::new(),
        }
    }

    fn send(&mut self, commands: &[String]) {
        for command in commands {
            self.log.push(command.clone());
            self.pending.extend((self.answers)(command));
        }
    }

    fn start(&mut self, options: &[EngineOption]) -> Result<Startup, Error> {
        let (mut startup, mut step) = Startup::begin();
        loop {
            self.send(&step.commands);
            match step.next {
                Next::Listen => {}
                Next::Finished => return Ok(startup),
                Next::Failed(error) => return Err(error),
            }
            let line = self.pending.pop_front();
            (startup, step) = startup.hear(options, line.as_deref());
        }
    }

    fn try_puzzle(&mut self, puzzle: Puzzle, depth: u8) -> Result<Option<String>, Error> {
        let (mut trial, mut step): (Trial, Step) = Trial::begin(puzzle, depth);
        loop {
            self.send(&step.commands);
            match step.next {
                Next::Listen => {}
                Next::Finished => match trial.stage {
                    TrialStage::Over { failure } => return Ok(failure),
                    _ => panic!("the trial is not over"),
                },
                Next::Failed(error) => return Err(error),
            }
            let line = self.pending.pop_front();
            (trial, step) = trial.hear(line.as_deref());
        }
    }
}

fn announcing(command: &str) -> Vec<String> {
    match command {
        "uci" => {
            let mut lines = strings(&ANNOUNCEMENTS);
            lines.push("uciok\n".to_string());
            lines
        }
        "isready" => strings(&["readyok\n"]),
        _ => Vec::new(),
    }
}

fn without_options(command: &str) -> Vec<String> {
    match command {
        "uci" => strings(&["uciok\n"]),
        "isready" => strings(&["readyok\n"]),
        _ => Vec::new(),
    }
}

fn answering(command: &str, score: &str) -> Vec<String> {
    match command {
        "uci" => strings(&[
            "option name Hash type spin default 16 min 1 max 1024\n",
            "uciok\n",
        ]),
        "go depth 1" => vec![
            format!("info depth 0 score {score}\n"),
            "bestmove (none)\n".to_string(),
        ],
        "isready" => strings(&["readyok\n"]),
        _ if command.starts_with("go") => strings(&[
            "info depth 16 score cp 31\n",
            "bestmove e2e4 ponder e7e5\n",
        ]),
        _ => Vec::new(),
    }
}

#[test]
fn reads_option_names_out_of_the_uci_answer() {
    assert_eq!(
        parse_option_name("option name Hash type spin default 16 min 1 max 1024"),
        Some("Hash")
    );
    assert_eq!(
        parse_option_name("option name Debug Log File type string default"),
        Some("Debug Log File")
    );
    assert_eq!(parse_option_name("id name Stockfish 17"), None);
    assert_eq!(parse_option_name("uciok"), None);
}

#[test]
fn reads_option_names_among_white_space() {
    assert_eq!(
        parse_option_name("  option   name  Clear Hash  type button\r\n"),
        Some("Clear Hash")
    );
    assert_eq!(
        parse_option_name("option name type type check"),
        Some("type")
    );
    assert_eq!(parse_option_name("option name Hash type"), None);
    assert_eq!(parse_option_name("option name  type check"), Some(""));
    assert_eq!(parse_option_name("options name Hash type spin"), None);
    assert_eq!(parse_option_name("option\tname Hash type spin"), None);
}

#[test]
fn sets_the_options_the_engine_announces() {
    let options = [
        demanded("Threads", "4"),
        demanded("Hash", "256"),
        demanded("Debug Log File", "engine.log"),
    ];
    let mut engine = Mock::new(&announcing);

    engine.start(&options).unwrap();

    let set: Vec<String> = engine
        .log
        .iter()
        .filter(|command| command.starts_with("setoption"))
        .map(|command| format!("{command}\n"))
        .collect();
    assert_eq!(
        set.concat(),
        "setoption name Threads value 4\n\
         setoption name Hash value 256\n\
         setoption name Debug Log File value engine.log\n"
    );
    assert_eq!(engine.log[0], "uci");
    assert_eq!(engine.log[4], "isready");
    assert_eq!(engine.log.len(), 5);
}

#[test]
fn fails_when_the_engine_does_not_support_an_option() {
    let options = [demanded("Ponder", "true")];
    let mut engine = Mock::new(&announcing);

    let error = engine.start(&options).err().unwrap();

    assert_eq!(error.kind, ErrorKind::InvalidInput);
    assert!(error
        .message
        .contains("engine does not support option `Ponder`"));
    assert_eq!(engine.log, ["uci"]);
}

#[test]
fn sets_the_options_before_one_that_is_not_supported() {
    let options = [
        defaulted("Style", "wild"),
        demanded("Hash", "1"),
        demanded("Ponder", "true"),
        demanded("Threads", "2"),
    ];
    let mut engine = Mock::new(&announcing);

    let error = engine.start(&options).err().unwrap();

    assert_eq!(error.message, "engine does not support option `Ponder`");
    assert_eq!(engine.log, ["uci", "setoption name Hash value 1"]);
}

#[test]
fn skips_a_default_the_engine_does_not_announce() {
    let mut engine = Mock::new(&without_options);

    let startup = engine.start(&[defaulted("Hash", "16")]).unwrap();

    assert_eq!(startup.skipped_options, ["Hash"]);
    assert_eq!(startup.stage, StartupStage::Ready);
    assert_eq!(engine.log, ["uci", "isready"]);
    assert!(Mock::new(&without_options)
        .start(&[demanded("Hash", "256")])
        .is_err());
}

#[test]
fn plans_the_options() {
    let plan = set_options(
        &strings(&["Hash", "Threads"]),
        &[
            demanded("Threads", "2"),
            defaulted("Style", ""),
            defaulted("Hash", "16"),
        ],
    );

    assert_eq!(
        plan.commands,
        [
            "setoption name Threads value 2",
            "setoption name Hash value 16"
        ]
    );
    assert_eq!(plan.skipped, ["Style"]);
    assert_eq!(plan.refusal, None);
}

#[test]
fn notes_an_announced_option_once() {
    let repeating = |command: &str| match command {
        "uci" => strings(&[
            "option name Hash type spin\n",
            "option name Threads type spin\n",
            "option name Hash type spin\n",
            "uciok\n",
        ]),
        _ => strings(&["readyok\n"]),
    };

    let startup = Mock::new(&repeating).start(&[]).unwrap();

    assert_eq!(startup.announced, ["Hash", "Threads"]);
}

#[test]
fn lists_the_options_it_sets_in_the_banner() {
    let mut settings = Settings::default(1);
    settings.engine = "mock".to_string();
    settings.engine_options = vec![
        defaulted("Style", "wild"),
        demanded("Threads", "2"),
        defaulted("Hash", "16"),
    ];
    let mut engine = Mock::new(&announcing);

    let startup = engine.start(&settings.engine_options).unwrap();

    assert_eq!(
        engine.log[1..3],
        [
            "setoption name Threads value 2",
            "setoption name Hash value 16"
        ]
    );
    assert_eq!(
        startup_banner(&settings, 1, &startup.skipped_options),
        "mock at Depth 16 with Threads=2 Hash=16 in 1 process"
    );
}

#[test]
fn fails_when_engine_stops_before_answering() {
    let silent = |_: &str| Vec::new();

    let error = Mock::new(&silent).start(&[]).err().unwrap();

    assert_eq!(error.kind, ErrorKind::Other);
    assert!(error.message.contains("engine stopped before `uciok`"));
}

#[test]
fn fails_when_engine_stops_in_the_middle() {
    let unready = |command: &str| match command {
        "uci" => strings(&["uciok"]),
        _ => strings(&["info string thinking"]),
    };
    assert_eq!(
        Mock::new(&unready).start(&[]).err().unwrap().message,
        "engine stopped before `readyok`"
    );

    let puzzle = parse_puzzle(PUZZLE_LINE).unwrap();
    assert_eq!(
        Mock::new(&unready).try_puzzle(puzzle, 3).err().unwrap().message,
        "engine stopped before `readyok`"
    );

    let thoughtless = |command: &str| match command {
        "isready" => strings(&["readyok"]),
        _ => strings(&["info string thinking"]),
    };
    let puzzle = parse_puzzle(PUZZLE_LINE).unwrap();
    assert_eq!(
        Mock::new(&thoughtless).try_puzzle(puzzle, 3).err().unwrap().message,
        "engine stopped before `bestmove`"
    );
}

#[test]
fn passes_arguments_to_the_engine() {
    let command = "sh /tmp/arguments.sh";
    let start = |command: &str| {
        let (program, arguments) = command_words(command).unwrap();
        assert_eq!(program, "sh");
        assert_eq!(arguments[0], "/tmp/arguments.sh");
        let guarded = |sent: &str| match arguments.get(1).map(String::as_str) {
            Some("--uci") => without_options(sent),
            _ => Vec::new(),
        };
        Mock::new(&guarded).start(&[])
    };

    assert!(start(&format!("{command} --uci")).is_ok());
    assert!(start(command).is_err());
    assert_eq!(
        command_words(&format!("{command} --uci")).unwrap().1,
        ["/tmp/arguments.sh", "--uci"]
    );
}

#[test]
fn takes_the_move_from_the_bestmove_answer() {
    let commands = go(POSITION, &strings(&["a1a2"]), 16);
    assert_eq!(
        commands,
        [
            "position fen 8/8/8/8/8/8/8/K6k w - - 0 1 moves a1a2",
            "go depth 16"
        ]
    );
    let lines: Vec<String> = commands
        .iter()
        .flat_map(|command| answering(command, "cp 0"))
        .collect();
    let answer = lines.iter().find(|line| answers(line, "bestmove")).unwrap();

    let played = best_move(answer).unwrap();

    assert_eq!(played, "e2e4");
}

#[test]
fn refuses_a_bestmove_that_is_not_a_move() {
    let lines: Vec<String> = go(POSITION, &strings(&["a1a2"]), 1)
        .iter()
        .flat_map(|command| answering(command, "cp 0"))
        .collect();
    let answer = lines.iter().find(|line| answers(line, "bestmove")).unwrap();

    let error = best_move(answer).err().unwrap();

    assert!(error.message.contains("engine answered `bestmove (none)`"));
    assert_eq!(
        best_move("  bestmove \n").err().unwrap().message,
        "engine answered `bestmove`"
    );
}

#[test]
fn tells_checkmate_from_stalemate() {
    let mating = |command: &str| answering(command, "mate 0");
    let stalling = |command: &str| answering(command, "cp 0");

    let puzzle = || parse_puzzle(PUZZLE_LINE).unwrap();
    assert_eq!(Mock::new(&mating).try_puzzle(puzzle(), 16).unwrap(), None);
    assert_eq!(
        Mock::new(&stalling).try_puzzle(puzzle(), 16).unwrap(),
        Some("e2e4".to_string())
    );
}

#[test]
fn needs_both_the_score_and_the_missing_move_for_a_mate() {
    let moving = |command: &str| match command {
        "go depth 1" => strings(&["info depth 1 score mate 0", "bestmove a1a1"]),
        _ => answering(command, "mate 0"),
    };
    let puzzle = parse_puzzle(PUZZLE_LINE).unwrap();

    assert_eq!(
        Mock::new(&moving).try_puzzle(puzzle, 2).unwrap(),
        Some("e2e4".to_string())
    );
}

#[test]
fn solves_a_puzzle_with_the_recorded_move() {
    let engine = |command: &str| match command {
        "isready" => strings(&["info string", "readyok"]),
        _ if command.starts_with("go") => strings(&["info", "  bestmove e6e7 ponder a1a1"]),
        _ => Vec::new(),
    };
    let mut engine = Mock::new(&engine);

    let failure = engine
        .try_puzzle(parse_puzzle(PUZZLE_LINE).unwrap(), 9)
        .unwrap();

    assert_eq!(failure, None);
    assert_eq!(
        engine.log,
        [
            "ucinewgame",
            "isready",
            "position fen r6k/pp2r2p/4Rp1Q/3p4/8/1N1P2R1/PqP2bPP/7K b - - 0 24 moves f2g3",
            "go depth 9"
        ]
    );
}

#[test]
fn searches_one_ply_after_another_move() {
    let mating = |command: &str| answering(command, "mate 0");
    let mut engine = Mock::new(&mating);

    engine
        .try_puzzle(parse_puzzle(PUZZLE_LINE).unwrap(), 9)
        .unwrap();

    assert_eq!(
        engine.log[4..],
        [
            "position fen r6k/pp2r2p/4Rp1Q/3p4/8/1N1P2R1/PqP2bPP/7K b - - 0 24 moves f2g3 e2e4",
            "go depth 1"
        ]
    );
}

#[test]
fn fails_on_an_answer_without_a_move() {
    let speechless = |command: &str| match command {
        "isready" => strings(&["readyok"]),
        _ if command.starts_with("go") => strings(&["bestmove (none)\n"]),
        _ => Vec::new(),
    };

    let error = Mock::new(&speechless)
        .try_puzzle(parse_puzzle(PUZZLE_LINE).unwrap(), 9)
        .err()
        .unwrap();

    assert_eq!(error.kind, ErrorKind::Other);
    assert_eq!(error.message, "engine answered `bestmove (none)`");
}

#[test]
fn tests_every_puzzle_once_across_workers() {
    let rows: Vec<String> = ["a1a1", "b2b2", "c3c3"]
        .iter()
        .map(|first_move| PUZZLE_LINE.replace("f2g3", first_move))
        .collect();
    let contents = format!("{HEADER_LINE}\n{}\n", rows.join("\n"));
    let mut lines = contents.lines();
    let settings = Settings {
        puzzle_count: 3,
        ..Settings::default(8)
    };
    let solving = |command: &str| match command {
        "isready" => strings(&["readyok"]),
        _ if command.starts_with("go") => strings(&["bestmove e6e7"]),
        _ => Vec::new(),
    };
    let mut source = PuzzleSource::open(&settings);
    while source.is_skipping() {
        source.skip_ahead(lines.next().unwrap());
    }

    let mut workers: Vec<Mock> = (0..8).map(|_| Mock::new(&solving)).collect();
    for worker in &mut workers {
        if source.is_taking() {
            let puzzle = source.next_puzzle(lines.next().unwrap()).unwrap();
            assert_eq!(worker.try_puzzle(puzzle, 16).unwrap(), None);
        }
    }
    source.shortfall().unwrap();

    let mut searched: Vec<String> = workers
        .iter()
        .flat_map(|worker| &worker.log)
        .filter(|command| command.starts_with("position"))
        .filter_map(|line| line.split_whitespace().last().map(str::to_string))
        .collect();
    searched.sort();
    assert_eq!(searched, ["a1a1", "b2b2", "c3c3"]);
}

#[test]
fn finds_an_answer_by_its_first_word() {
    assert!(answers("  readyok \n", "readyok"));
    assert!(answers("bestmove e2e4", "bestmove"));
    assert!(!answers("info readyok", "readyok"));
    assert!(!answers("readyokay", "readyok"));
    assert!(!answers("\n", "readyok"));
}
