//! How far the run has come, and what is shown of it.

use crate::number;
use crate::puzzle;
use crate::puzzle::{failed_puzzle_line, Puzzle, PuzzleView};
use crate::rounding;
use crate::rounding::Elapsed;
use crate::text;
use vstd::prelude::*;

verus! {

pub const CLEARED_LINE: &'static str = "\r\x1b[K";

pub const LINE_ABOVE: &'static str = "\x1b[A";

pub const BLANK_LINE: &'static str = "\n";

pub const UNSOLVED_HEADING: &'static str = "Unsolved puzzles:\n";

/// The puzzles tested and solved so far, the lines about unsolved puzzles that are kept for the
/// end of the run, and what stands on the screen: whether the list of unsolved puzzles has
/// begun, and whether its last line is the progress line.
#[derive(Debug)]
pub struct Progress {
    pub tested: usize,
    pub solved: usize,
    pub unsolved: Vec<String>,
    pub listed_unsolved: bool,
    pub drawn_in_place: bool,
}

/// The progress of a run as a mathematical value.
#[verifier::ext_equal]
pub struct ProgressView {
    pub tested: nat,
    pub solved: nat,
    pub unsolved: Seq<Seq<char>>,
    pub listed_unsolved: bool,
    pub drawn_in_place: bool,
}

impl View for Progress {
    type V = ProgressView;

    open spec fn view(&self) -> ProgressView {
        ProgressView {
            tested: self.tested as nat,
            solved: self.solved as nat,
            unsolved: text::views(self.unsolved@),
            listed_unsolved: self.listed_unsolved,
            drawn_in_place: self.drawn_in_place,
        }
    }
}

/// What is written about the unsolved puzzles and the progress so far.
impl ProgressView {
    /// Nothing tested and nothing shown.
    pub open spec fn none() -> ProgressView {
        ProgressView {
            tested: 0,
            solved: 0,
            unsolved: seq![],
            listed_unsolved: false,
            drawn_in_place: false,
        }
    }

    /// No more puzzles have been solved than tested.
    pub open spec fn valid(self) -> bool {
        self.solved <= self.tested
    }

    /// The progress line of a run over `total` puzzles: none before the first is tested.
    pub open spec fn progress_line(self, total: nat, elapsed: Elapsed) -> Option<Seq<char>> {
        if self.tested > 0 {
            Some(
                "puzzle "@ + number::decimal(self.tested) + " of "@ + number::decimal(total) + " ("@
                    + rounding::percentage(self.tested, total) + "%), solved "@ + number::decimal(
                    self.solved,
                ) + " ("@ + rounding::percentage(self.solved, self.tested) + "%) in "@
                    + elapsed.seconds() + "s"@,
            )
        } else {
            None
        }
    }

    /// What goes before the progress line: over the one that stands there, or on a line
    /// below a blank one.
    pub open spec fn opening_text(self) -> Seq<char> {
        if self.drawn_in_place {
            CLEARED_LINE@
        } else {
            BLANK_LINE@
        }
    }

    /// The progress line with what goes before it.
    pub open spec fn opened_line(self, total: nat, elapsed: Elapsed) -> Option<Seq<char>> {
        match self.progress_line(total, elapsed) {
            Some(line) => Some(self.opening_text() + line),
            None => None,
        }
    }

    /// What removes the progress line and the blank line above it.
    pub open spec fn clearing(self) -> Seq<char> {
        if self.drawn_in_place {
            CLEARED_LINE@ + LINE_ABOVE@ + CLEARED_LINE@
        } else {
            seq![]
        }
    }

    /// The heading of the unsolved puzzles, unless it has been written.
    pub open spec fn heading(self) -> Seq<char> {
        if self.listed_unsolved {
            seq![]
        } else {
            UNSOLVED_HEADING@
        }
    }

    /// What is written to list `lines`.
    pub open spec fn listing(self, lines: Seq<char>) -> Seq<char> {
        self.clearing() + self.heading() + lines
    }

    /// The progress once lines have been listed.
    pub open spec fn listed(self) -> ProgressView {
        ProgressView { listed_unsolved: true, drawn_in_place: false, ..self }
    }

    /// The progress once a puzzle has been tested: `failure` is the move played in vain, and
    /// the line about it is kept where unsolved puzzles are shown.
    pub open spec fn reported(
        self,
        puzzle: PuzzleView,
        failure: Option<Seq<char>>,
        show_failed: bool,
        search_depth: nat,
    ) -> ProgressView {
        let counted = ProgressView { tested: self.tested + 1, ..self };
        match failure {
            None => ProgressView { solved: self.solved + 1, ..counted },
            Some(played) => if show_failed {
                ProgressView {
                    unsolved: self.unsolved.push(
                        puzzle::failed_line(puzzle, played, search_depth),
                    ),
                    ..counted
                }
            } else {
                counted
            },
        }
    }

    /// The progress once its line has been redrawn, if there is one.
    pub open spec fn redrawn(self) -> ProgressView {
        ProgressView { drawn_in_place: self.drawn_in_place || self.tested > 0, ..self }
    }

    /// The list of the unsolved puzzles that were kept, each on its own line: none where none
    /// was kept.
    pub open spec fn list(self) -> Option<Seq<char>> {
        if self.unsolved.len() > 0 {
            Some(self.listing(text::joined(self.unsolved, "\n"@)))
        } else {
            None
        }
    }

    /// The progress once the list of unsolved puzzles has been written, if there is one.
    pub open spec fn after_list(self) -> ProgressView {
        if self.unsolved.len() > 0 {
            ProgressView { unsolved: seq![], ..self.listed() }
        } else {
            self
        }
    }
}

impl Default for Progress {
    fn default() -> (r: Progress)
        ensures
            r@ == ProgressView::none(),
    {
        Progress {
            tested: 0,
            solved: 0,
            unsolved: Vec::new(),
            listed_unsolved: false,
            drawn_in_place: false,
        }
    }
}

impl Progress {
    /// Writes the progress line of a run over `total` puzzles.
    pub fn line(&self, total: usize, elapsed: Elapsed) -> (r: Option<String>)
        requires
            elapsed.valid(),
        ensures
            text::view_of(r) == self@.progress_line(total as nat, elapsed),
    {
        if self.tested > 0 {
            let tested = number::write_decimal(self.tested as u128);
            let all = number::write_decimal(total as u128);
            let solved = number::write_decimal(self.solved as u128);
            let done = rounding::write_percentage(self.tested, total);
            let success = rounding::write_percentage(self.solved, self.tested);
            let seconds = elapsed.write_seconds();
            Some(
                "puzzle ".to_owned().concat(tested.as_str()).concat(" of ").concat(
                    all.as_str(),
                ).concat(" (").concat(done.as_str()).concat("%), solved ").concat(
                    solved.as_str(),
                ).concat(" (").concat(success.as_str()).concat("%) in ").concat(
                    seconds.as_str(),
                ).concat("s"),
            )
        } else {
            None
        }
    }

    /// Lists some lines, below the heading if they are the first.
    fn list_lines(&mut self, lines: &str) -> (r: String)
        ensures
            r@ == old(self)@.listing(lines@),
            final(self)@ == old(self)@.listed(),
    {
        let opening = if self.drawn_in_place {
            CLEARED_LINE.to_owned().concat(LINE_ABOVE).concat(CLEARED_LINE)
        } else {
            String::new()
        };
        let heading = if self.listed_unsolved {
            String::new()
        } else {
            UNSOLVED_HEADING.to_owned()
        };
        self.listed_unsolved = true;
        self.drawn_in_place = false;
        opening.concat(heading.as_str()).concat(lines)
    }

    /// Writes about an unsolved puzzle.
    pub fn unsolved_report(&mut self, puzzle: &Puzzle, played: &str, search_depth: u8) -> (r:
        String)
        ensures
            r@ == old(self)@.listing(
                puzzle::failed_line(puzzle@, played@, search_depth as nat),
            ),
            final(self)@ == old(self)@.listed(),
    {
        let line = failed_puzzle_line(puzzle, played, search_depth);
        self.list_lines(line.as_str())
    }

    /// Gives what goes before the progress line.
    pub fn opening(&self) -> (r: &'static str)
        ensures
            r@ == self@.opening_text(),
    {
        if self.drawn_in_place {
            CLEARED_LINE
        } else {
            BLANK_LINE
        }
    }

    /// Counts a tested puzzle, for which `failure` holds the move played in vain. Nothing is
    /// written about it yet: where unsolved puzzles are shown, its line is kept for the list
    /// at the end of the run.
    pub fn report(
        &mut self,
        puzzle: &Puzzle,
        failure: Option<String>,
        show_failed: bool,
        search_depth: u8,
    )
        requires
            old(self).tested < usize::MAX,
            failure is None ==> old(self).solved < usize::MAX,
        ensures
            final(self)@ == old(self)@.reported(
                puzzle@,
                text::view_of(failure),
                show_failed,
                search_depth as nat,
            ),
    {
        self.tested = self.tested + 1;
        match failure {
            None => {
                self.solved = self.solved + 1;
            },
            Some(played) => {
                if show_failed {
                    self.unsolved.push(failed_puzzle_line(puzzle, played.as_str(), search_depth));
                }
            },
        }
    }

    /// Gives what is to be written to redraw the progress line, where it is redrawn in
    /// place.
    pub fn redraw(&mut self, redraws_progress: bool, total: usize, elapsed: Elapsed) -> (r: Option<
        String,
    >)
        requires
            elapsed.valid(),
        ensures
            text::view_of(r) == if redraws_progress {
                old(self)@.opened_line(total as nat, elapsed)
            } else {
                None
            },
            final(self)@ == if redraws_progress {
                old(self)@.redrawn()
            } else {
                old(self)@
            },
    {
        if !redraws_progress {
            return None;
        }
        let r = self.closing(total, elapsed);
        if r.is_some() {
            self.drawn_in_place = true;
        }
        r
    }

    /// Gives the list of the unsolved puzzles, in the order in which they were reported. It is
    /// written once the run is over, before the last progress line.
    pub fn unsolved_list(&mut self) -> (r: Option<String>)
        ensures
            text::view_of(r) == old(self)@.list(),
            final(self)@ == old(self)@.after_list(),
    {
        if self.unsolved.len() == 0 {
            return None;
        }
        let lines = text::join(self.unsolved.as_slice(), "\n");
        self.unsolved = Vec::new();
        Some(self.list_lines(lines.as_str()))
    }

    /// Gives what is to be written at the end of the run, below the unsolved puzzles.
    pub fn closing(&self, total: usize, elapsed: Elapsed) -> (r: Option<String>)
        requires
            elapsed.valid(),
        ensures
            text::view_of(r) == self@.opened_line(total as nat, elapsed),
    {
        match self.line(total, elapsed) {
            Some(line) => Some(self.opening().to_owned().concat(line.as_str())),
            None => None,
        }
    }
}

} // verus!
