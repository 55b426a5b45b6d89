//! An engine's work, step by step: each line that the engine writes decides which commands
//! it is sent and whether to go on listening.

use crate::error::{Error, ErrorKind, ErrorView};
use crate::puzzle::{Puzzle, PuzzleView};
use crate::settings;
use crate::settings::{EngineOption, OptionView};
use crate::text;
use crate::uci;
use vstd::prelude::*;

verus! {

/// What follows the commands of a step.
pub enum Next {
    /// The next line of the engine is awaited.
    Listen,
    /// The work is done.
    Finished,
    /// The work has failed.
    Failed(Error),
}

/// What to do after a line of the engine: send the commands, then go on as `next` says.
pub struct Step {
    pub commands: Vec<String>,
    pub next: Next,
}

/// What follows the commands of a step, as a mathematical value.
#[verifier::ext_equal]
pub enum NextView {
    Listen,
    Finished,
    Failed(ErrorView),
}

/// A step as a mathematical value.
#[verifier::ext_equal]
pub struct StepView {
    pub commands: Seq<Seq<char>>,
    pub next: NextView,
}

impl View for Next {
    type V = NextView;

    open spec fn view(&self) -> NextView {
        match self {
            Next::Listen => NextView::Listen,
            Next::Finished => NextView::Finished,
            Next::Failed(e) => NextView::Failed(e@),
        }
    }
}

impl View for Step {
    type V = StepView;

    open spec fn view(&self) -> StepView {
        StepView { commands: text::views(self.commands@), next: self.next@ }
    }
}

/// Sending nothing, and going on as `next` says.
pub open spec fn quiet(next: NextView) -> StepView {
    StepView { commands: seq![], next }
}

/// Sending `commands`, and listening.
pub open spec fn sent(commands: Seq<Seq<char>>) -> StepView {
    StepView { commands, next: NextView::Listen }
}

fn keep_quiet(next: Next) -> (r: Step)
    ensures
        r@ == quiet(next@),
{
    let r = Step { commands: Vec::new(), next };
    assert(r@.commands == quiet(next@).commands);
    r
}

/// How far an engine has come in getting ready.
#[derive(Clone, Copy, Debug, PartialEq, Eq, Structural)]
pub enum StartupStage {
    /// It is announcing its options.
    Greeting,
    /// It has been given its options.
    Readying,
    /// It is ready for work.
    Ready,
}

/// The start of an engine: the names of the options that it has announced, none of them
/// twice, and of those that it is not given because it has not announced them.
pub struct Startup {
    pub stage: StartupStage,
    pub announced: Vec<String>,
    pub skipped_options: Vec<String>,
}

/// The start of an engine as a mathematical value.
#[verifier::ext_equal]
pub struct StartupView {
    pub stage: StartupStage,
    pub announced: Seq<Seq<char>>,
    pub skipped_options: Seq<Seq<char>>,
}

impl View for Startup {
    type V = StartupView;

    open spec fn view(&self) -> StartupView {
        StartupView {
            stage: self.stage,
            announced: text::views(self.announced@),
            skipped_options: text::views(self.skipped_options@),
        }
    }
}

/// The start of an engine that has said nothing yet.
pub open spec fn greeting() -> StartupView {
    StartupView { stage: StartupStage::Greeting, announced: seq![], skipped_options: seq![] }
}

/// The announced names, with the one that a line announces.
pub open spec fn announced_with(names: Seq<Seq<char>>, line: Seq<char>) -> Seq<Seq<char>> {
    match uci::option_name_in(line) {
        Some(name) => if names.contains(name) {
            names
        } else {
            names.push(name)
        },
        None => names,
    }
}

impl StartupView {
    /// No name has been announced twice.
    pub open spec fn valid(self) -> bool {
        self.announced.no_duplicates()
    }

    /// The engine is to be given `options`: those that it has announced, then it is to get
    /// ready; but where it lacks one that the user demanded, its start has failed.
    pub open spec fn greeted(self, options: Seq<OptionView>) -> (StartupView, StepView) {
        let plan = uci::plan(self.announced, options);
        match plan.refusal {
            Some(message) => (
                self,
                StepView {
                    commands: plan.commands,
                    next: NextView::Failed(
                        ErrorView { kind: ErrorKind::InvalidInput, message },
                    ),
                },
            ),
            None => (
                StartupView { stage: StartupStage::Readying, skipped_options: plan.skipped, ..self },
                sent(plan.commands.push("isready"@)),
            ),
        }
    }

    /// What comes of a line of the engine that is to be given `options`.
    pub open spec fn heard(self, options: Seq<OptionView>, line: Option<Seq<char>>) -> (
        StartupView,
        StepView,
    ) {
        match (self.stage, line) {
            (StartupStage::Greeting, None) => (
                self,
                quiet(NextView::Failed(uci::stopped_before("uciok"@))),
            ),
            (StartupStage::Greeting, Some(l)) => if uci::is_answer(l, "uciok"@) {
                self.greeted(options)
            } else {
                (
                    StartupView { announced: announced_with(self.announced, l), ..self },
                    quiet(NextView::Listen),
                )
            },
            (StartupStage::Readying, None) => (
                self,
                quiet(NextView::Failed(uci::stopped_before("readyok"@))),
            ),
            (StartupStage::Readying, Some(l)) => if uci::is_answer(l, "readyok"@) {
                (StartupView { stage: StartupStage::Ready, ..self }, quiet(NextView::Finished))
            } else {
                (self, quiet(NextView::Listen))
            },
            (StartupStage::Ready, _) => (self, quiet(NextView::Finished)),
        }
    }
}

impl Startup {
    /// Starts the conversation with an engine.
    pub fn begin() -> (r: (Startup, Step))
        ensures
            r.0@ == greeting(),
            r.0@.valid(),
            r.1@ == sent(seq!["uci"@]),
    {
        let startup = Startup {
            stage: StartupStage::Greeting,
            announced: Vec::new(),
            skipped_options: Vec::new(),
        };
        let mut commands: Vec<String> = Vec::new();
        commands.push("uci".to_owned());
        assert(text::views(commands@) == seq!["uci"@]);
        assert(startup@ == greeting());
        (startup, Step { commands, next: Next::Listen })
    }

    /// Notes the name that a line announces.
    fn note(&mut self, line: &str)
        requires
            old(self)@.valid(),
        ensures
            final(self)@ == (StartupView {
                announced: announced_with(old(self)@.announced, line@),
                ..old(self)@
            }),
            final(self)@.valid(),
    {
        match uci::parse_option_name(line) {
            Some(name) => {
                if !text::is_among(name, self.announced.as_slice()) {
                    let ghost before = text::views(self.announced@);
                    self.announced.push(name.to_owned());
                    assert(text::views(self.announced@) == before.push(name@));
                }
            },
            None => {},
        }
    }

    /// Hears a line of the engine, or that it has stopped, and decides what to do.
    pub fn hear(self, options: &[EngineOption], line: Option<&str>) -> (r: (Startup, Step))
        requires
            self@.valid(),
        ensures
            (r.0@, r.1@) == self@.heard(settings::option_views(options@), text::view_of_str(line)),
            r.0@.valid(),
    {
        let mut startup = self;
        match startup.stage {
            StartupStage::Greeting => match line {
                None => (startup, keep_quiet(Next::Failed(uci::stopped("uciok")))),
                Some(l) => {
                    if !uci::answers(l, "uciok") {
                        startup.note(l);
                        return (startup, keep_quiet(Next::Listen));
                    }
                    let plan = uci::set_options(startup.announced.as_slice(), options);
                    let mut commands = plan.commands;
                    match plan.refusal {
                        Some(message) => {
                            let refusal = Error { kind: ErrorKind::InvalidInput, message };
                            (startup, Step { commands, next: Next::Failed(refusal) })
                        },
                        None => {
                            let ghost settings = text::views(commands@);
                            commands.push("isready".to_owned());
                            assert(text::views(commands@) == settings.push("isready"@));
                            startup.stage = StartupStage::Readying;
                            startup.skipped_options = plan.skipped;
                            (startup, Step { commands, next: Next::Listen })
                        },
                    }
                },
            },
            StartupStage::Readying => match line {
                None => (startup, keep_quiet(Next::Failed(uci::stopped("readyok")))),
                Some(l) => {
                    if uci::answers(l, "readyok") {
                        startup.stage = StartupStage::Ready;
                        (startup, keep_quiet(Next::Finished))
                    } else {
                        (startup, keep_quiet(Next::Listen))
                    }
                },
            },
            StartupStage::Ready => (startup, keep_quiet(Next::Finished)),
        }
    }
}

/// How far the trial of a puzzle has come.
pub enum TrialStage {
    /// The engine prepares for a new game.
    NewGame,
    /// It searches for the move that solves the puzzle.
    Searching,
    /// It searches the position after a move that is not the recorded one, and has or has
    /// not found its side mated there.
    Checking { played: String, mate_score: bool },
    /// The puzzle has been tested: `failure` holds the move played in vain.
    Over { failure: Option<String> },
}

/// The stage of a trial as a mathematical value.
#[verifier::ext_equal]
pub enum TrialStageView {
    NewGame,
    Searching,
    Checking { played: Seq<char>, mate_score: bool },
    Over { failure: Option<Seq<char>> },
}

impl View for TrialStage {
    type V = TrialStageView;

    open spec fn view(&self) -> TrialStageView {
        match self {
            TrialStage::NewGame => TrialStageView::NewGame,
            TrialStage::Searching => TrialStageView::Searching,
            TrialStage::Checking { played, mate_score } => TrialStageView::Checking {
                played: played@,
                mate_score: *mate_score,
            },
            TrialStage::Over { failure } => TrialStageView::Over {
                failure: text::view_of(*failure),
            },
        }
    }
}

/// The trial of a puzzle by an engine.
pub struct Trial {
    pub puzzle: Puzzle,
    pub search_depth: u8,
    pub stage: TrialStage,
}

/// The trial of a puzzle as a mathematical value.
#[verifier::ext_equal]
pub struct TrialView {
    pub puzzle: PuzzleView,
    pub search_depth: nat,
    pub stage: TrialStageView,
}

impl View for Trial {
    type V = TrialView;

    open spec fn view(&self) -> TrialView {
        TrialView {
            puzzle: self.puzzle@,
            search_depth: self.search_depth as nat,
            stage: self.stage@,
        }
    }
}

impl TrialView {
    /// The puzzle has a solution.
    pub open spec fn valid(self) -> bool {
        self.puzzle.solution.len() > 0
    }

    /// The answer that the engine owes.
    pub open spec fn awaited(self) -> Seq<char> {
        match self.stage {
            TrialStageView::NewGame => "readyok"@,
            _ => "bestmove"@,
        }
    }

    pub open spec fn at(self, stage: TrialStageView) -> TrialView {
        TrialView { stage, ..self }
    }

    /// What comes of the answer that the engine owed.
    pub open spec fn answered(self, answer: Seq<char>) -> (TrialView, StepView) {
        let fen = self.puzzle.fen;
        let opponent_move = self.puzzle.opponent_move;
        match self.stage {
            TrialStageView::NewGame => (
                self.at(TrialStageView::Searching),
                sent(uci::search(fen, seq![opponent_move], self.search_depth)),
            ),
            TrialStageView::Searching => match uci::move_in(answer) {
                Err(e) => (self, quiet(NextView::Failed(e))),
                Ok(played) => if played == self.puzzle.solution[0] {
                    (self.at(TrialStageView::Over { failure: None }), quiet(NextView::Finished))
                } else {
                    (
                        self.at(TrialStageView::Checking { played, mate_score: false }),
                        sent(uci::search(fen, seq![opponent_move, played], 1)),
                    )
                },
            },
            TrialStageView::Checking { played, mate_score } => (
                self.at(
                    TrialStageView::Over {
                        failure: if mate_score && uci::has_no_move(answer) {
                            None
                        } else {
                            Some(played)
                        },
                    },
                ),
                quiet(NextView::Finished),
            ),
            TrialStageView::Over { .. } => (self, quiet(NextView::Finished)),
        }
    }

    /// What comes of a line that is not the answer that the engine owes.
    pub open spec fn informed(self, line: Seq<char>) -> TrialView {
        match self.stage {
            TrialStageView::Checking { played, mate_score } => self.at(
                TrialStageView::Checking {
                    played,
                    mate_score: mate_score || uci::scores_mate(line),
                },
            ),
            _ => self,
        }
    }

    /// What comes of a line of the engine, or of its stop.
    pub open spec fn heard(self, line: Option<Seq<char>>) -> (TrialView, StepView) {
        if self.stage is Over {
            (self, quiet(NextView::Finished))
        } else {
            match line {
                None => (self, quiet(NextView::Failed(uci::stopped_before(self.awaited())))),
                Some(l) => if uci::is_answer(l, self.awaited()) {
                    self.answered(l)
                } else {
                    (self.informed(l), quiet(NextView::Listen))
                },
            }
        }
    }
}

impl Trial {
    /// Starts the trial of a puzzle.
    pub fn begin(puzzle: Puzzle, search_depth: u8) -> (r: (Trial, Step))
        requires
            puzzle.solution@.len() > 0,
        ensures
            r.0@ == (TrialView {
                puzzle: puzzle@,
                search_depth: search_depth as nat,
                stage: TrialStageView::NewGame,
            }),
            r.0@.valid(),
            r.1@ == sent(seq!["ucinewgame"@, "isready"@]),
    {
        let mut commands: Vec<String> = Vec::new();
        commands.push("ucinewgame".to_owned());
        commands.push("isready".to_owned());
        assert(text::views(commands@) == seq!["ucinewgame"@, "isready"@]);
        (
            Trial { puzzle, search_depth, stage: TrialStage::NewGame },
            Step { commands, next: Next::Listen },
        )
    }

    /// Hears a line of the engine, or that it has stopped, and decides what to do.
    pub fn hear(self, line: Option<&str>) -> (r: (Trial, Step))
        requires
            self@.valid(),
        ensures
            (r.0@, r.1@) == self@.heard(text::view_of_str(line)),
            r.0@.valid(),
    {
        let Trial { puzzle, search_depth, stage } = self;
        assert(text::views(puzzle.solution@).len() == puzzle.solution@.len());
        let mut moves: Vec<String> = Vec::new();
        moves.push(puzzle.opponent_move.clone());
        assert(text::views(moves@) == seq![puzzle.opponent_move@]);
        match (stage, line) {
            (TrialStage::NewGame, None) => (
                Trial { puzzle, search_depth, stage: TrialStage::NewGame },
                keep_quiet(Next::Failed(uci::stopped("readyok"))),
            ),
            (TrialStage::NewGame, Some(l)) => {
                if !uci::answers(l, "readyok") {
                    return (
                        Trial { puzzle, search_depth, stage: TrialStage::NewGame },
                        keep_quiet(Next::Listen),
                    );
                }
                let commands = uci::go(puzzle.fen.as_str(), moves.as_slice(), search_depth);
                (
                    Trial { puzzle, search_depth, stage: TrialStage::Searching },
                    Step { commands, next: Next::Listen },
                )
            },
            (TrialStage::Searching, None) => (
                Trial { puzzle, search_depth, stage: TrialStage::Searching },
                keep_quiet(Next::Failed(uci::stopped("bestmove"))),
            ),
            (TrialStage::Searching, Some(l)) => {
                if !uci::answers(l, "bestmove") {
                    return (
                        Trial { puzzle, search_depth, stage: TrialStage::Searching },
                        keep_quiet(Next::Listen),
                    );
                }
                match uci::best_move(l) {
                    Err(e) => (
                        Trial { puzzle, search_depth, stage: TrialStage::Searching },
                        keep_quiet(Next::Failed(e)),
                    ),
                    Ok(played) => {
                        if text::same(played.as_str(), puzzle.solution[0].as_str()) {
                            return (
                                Trial {
                                    puzzle,
                                    search_depth,
                                    stage: TrialStage::Over { failure: None },
                                },
                                keep_quiet(Next::Finished),
                            );
                        }
                        moves.push(played.clone());
                        assert(text::views(moves@) == seq![puzzle.opponent_move@, played@]);
                        let commands = uci::go(puzzle.fen.as_str(), moves.as_slice(), 1);
                        (
                            Trial {
                                puzzle,
                                search_depth,
                                stage: TrialStage::Checking { played, mate_score: false },
                            },
                            Step { commands, next: Next::Listen },
                        )
                    },
                }
            },
            (TrialStage::Checking { played, mate_score }, None) => (
                Trial { puzzle, search_depth, stage: TrialStage::Checking { played, mate_score } },
                keep_quiet(Next::Failed(uci::stopped("bestmove"))),
            ),
            (TrialStage::Checking { played, mate_score }, Some(l)) => {
                if !uci::answers(l, "bestmove") {
                    let mate_score = mate_score || text::contains(l, "score mate 0");
                    return (
                        Trial {
                            puzzle,
                            search_depth,
                            stage: TrialStage::Checking { played, mate_score },
                        },
                        keep_quiet(Next::Listen),
                    );
                }
                let failure = if mate_score && text::contains(l, "(none)") {
                    None
                } else {
                    Some(played)
                };
                (
                    Trial { puzzle, search_depth, stage: TrialStage::Over { failure } },
                    keep_quiet(Next::Finished),
                )
            },
            (TrialStage::Over { failure }, _) => (
                Trial { puzzle, search_depth, stage: TrialStage::Over { failure } },
                keep_quiet(Next::Finished),
            ),
        }
    }
}

} // verus!
