//! Which rows of the database become puzzles to test.

use crate::error::{Error, ErrorKind, ErrorView};
use crate::number;
use crate::puzzle;
use crate::puzzle::{parse_puzzle, Puzzle, PuzzleView};
use crate::settings::Settings;
use vstd::prelude::*;

verus! {

/// The state of reading the database: whether its first line has been read, how many
/// puzzles have been passed over and how many handed out, and whether the run has been
/// stopped.
pub struct PuzzleSource<'a> {
    pub settings: &'a Settings,
    pub opened: bool,
    pub skipped: usize,
    pub taken: usize,
    pub stopped: bool,
}

/// The state of reading the database as a mathematical value.
#[verifier::ext_equal]
pub struct SourceView {
    pub database_path: Seq<char>,
    pub skip_count: nat,
    pub puzzle_count: nat,
    pub opened: bool,
    pub skipped: nat,
    pub taken: nat,
    pub stopped: bool,
}

impl<'a> View for PuzzleSource<'a> {
    type V = SourceView;

    open spec fn view(&self) -> SourceView {
        SourceView {
            database_path: self.settings.database_path@,
            skip_count: self.settings.skip_count as nat,
            puzzle_count: self.settings.puzzle_count as nat,
            opened: self.opened,
            skipped: self.skipped as nat,
            taken: self.taken as nat,
            stopped: self.stopped,
        }
    }
}

impl SourceView {
    /// No more puzzles have been passed over or handed out than were asked for.
    pub open spec fn valid(self) -> bool {
        self.skipped <= self.skip_count && self.taken <= self.puzzle_count
    }

    /// Whether the next line is passed over: the first line always is, and then as many
    /// puzzles as are to be skipped.
    pub open spec fn skips(self) -> bool {
        !self.opened || self.skipped < self.skip_count
    }

    /// The state once a line has been passed over.
    pub open spec fn passed(self, line: Seq<char>) -> SourceView {
        if !self.opened {
            SourceView { opened: true, ..self }
        } else if puzzle::puzzle_in(line) is Some {
            SourceView { skipped: self.skipped + 1, ..self }
        } else {
            self
        }
    }

    /// Whether another puzzle is handed out.
    pub open spec fn takes(self) -> bool {
        !self.stopped && self.taken < self.puzzle_count
    }

    /// The puzzle that is handed out of a line: none out of the first line.
    pub open spec fn handed_out(self, line: Seq<char>) -> Option<PuzzleView> {
        if self.opened {
            puzzle::puzzle_in(line)
        } else {
            None
        }
    }

    /// The state once a line has been read for the puzzle in it.
    pub open spec fn offered(self, line: Seq<char>) -> SourceView {
        if !self.opened {
            SourceView { opened: true, ..self }
        } else if puzzle::puzzle_in(line) is Some {
            SourceView { taken: self.taken + 1, ..self }
        } else {
            self
        }
    }

    /// What is said of the puzzles that were skipped.
    pub open spec fn skipped_text(self) -> Seq<char> {
        if self.skipped == 0 {
            seq![]
        } else {
            " after skipping "@ + number::decimal(self.skipped)
        }
    }

    /// The error of a database that holds too few puzzles.
    pub open spec fn shortage(self) -> ErrorView {
        ErrorView {
            kind: ErrorKind::InvalidData,
            message: self.database_path + ": read "@ + number::decimal(self.taken) + " puzzles"@
                + self.skipped_text() + ", expected "@ + number::decimal(self.puzzle_count),
        }
    }
}

impl<'a> PuzzleSource<'a> {
    /// Starts at the beginning of the database.
    pub fn open(settings: &'a Settings) -> (r: PuzzleSource<'a>)
        ensures
            r@ == (SourceView {
                database_path: settings.database_path@,
                skip_count: settings.skip_count as nat,
                puzzle_count: settings.puzzle_count as nat,
                opened: false,
                skipped: 0,
                taken: 0,
                stopped: false,
            }),
            r.settings == settings,
            r@.valid(),
    {
        PuzzleSource { settings, opened: false, skipped: 0, taken: 0, stopped: false }
    }

    /// Whether the next line is to be passed over.
    pub fn is_skipping(&self) -> (r: bool)
        ensures
            r == self@.skips(),
    {
        !self.opened || self.skipped < self.settings.skip_count
    }

    /// Passes over a line.
    pub fn skip_ahead(&mut self, line: &str)
        requires
            old(self)@.valid(),
            old(self)@.skips(),
        ensures
            final(self)@ == old(self)@.passed(line@),
            final(self).settings == old(self).settings,
            final(self)@.valid(),
    {
        if !self.opened {
            self.opened = true;
        } else if parse_puzzle(line).is_some() {
            self.skipped = self.skipped + 1;
        }
    }

    /// Whether another puzzle is to be handed out.
    pub fn is_taking(&self) -> (r: bool)
        ensures
            r == self@.takes(),
    {
        !self.stopped && self.taken < self.settings.puzzle_count
    }

    /// Hands out the puzzle in a line, unless it is the first line of the database.
    pub fn next_puzzle(&mut self, line: &str) -> (r: Option<Puzzle>)
        requires
            old(self)@.valid(),
            old(self)@.takes(),
        ensures
            puzzle::view_of(r) == old(self)@.handed_out(line@),
            final(self)@ == old(self)@.offered(line@),
            final(self).settings == old(self).settings,
            final(self)@.valid(),
    {
        if !self.opened {
            self.opened = true;
            return None;
        }
        let r = parse_puzzle(line);
        if r.is_some() {
            self.taken = self.taken + 1;
        }
        r
    }

    /// Hands out no more puzzles.
    pub fn stop(&mut self)
        ensures
            final(self)@ == (SourceView { stopped: true, ..old(self)@ }),
            final(self).settings == old(self).settings,
    {
        self.stopped = true;
    }

    /// Whether as many puzzles have been handed out as were asked for.
    pub fn shortfall(&self) -> (r: Result<(), Error>)
        ensures
            match r {
                Ok(()) => self@.taken >= self@.puzzle_count,
                Err(e) => self@.taken < self@.puzzle_count && e@ == self@.shortage(),
            },
    {
        let expected = self.settings.puzzle_count;
        if self.taken >= expected {
            return Ok(());
        }
        let skipped = if self.skipped == 0 {
            String::new()
        } else {
            " after skipping ".to_owned().concat(number::write_decimal(self.skipped as u128).as_str())
        };
        let message = self.settings.database_path.clone().concat(": read ").concat(
            number::write_decimal(self.taken as u128).as_str(),
        ).concat(" puzzles").concat(skipped.as_str()).concat(", expected ").concat(
            number::write_decimal(expected as u128).as_str(),
        );
        Err(Error { kind: ErrorKind::InvalidData, message })
    }
}

/// The puzzles in some lines, in order.
pub open spec fn puzzles_in(lines: Seq<Seq<char>>) -> Seq<PuzzleView>
    decreases lines.len(),
{
    if lines.len() == 0 {
        seq![]
    } else {
        match puzzle::puzzle_in(lines[0]) {
            Some(p) => seq![p] + puzzles_in(lines.drop_first()),
            None => puzzles_in(lines.drop_first()),
        }
    }
}

impl SourceView {
    /// The state once lines have been passed over for as long as any is to be, and the lines
    /// that remain.
    pub open spec fn ahead(self, lines: Seq<Seq<char>>) -> (SourceView, Seq<Seq<char>>)
        decreases lines.len(),
    {
        if !self.skips() || lines.len() == 0 {
            (self, lines)
        } else {
            self.passed(lines[0]).ahead(lines.drop_first())
        }
    }

    /// The state once puzzles have been handed out for as long as any is to be, and the
    /// puzzles handed out, in order.
    pub open spec fn exhausted(self, lines: Seq<Seq<char>>) -> (SourceView, Seq<PuzzleView>)
        decreases lines.len(),
    {
        if !self.takes() || lines.len() == 0 {
            (self, seq![])
        } else {
            let (end, more) = self.offered(lines[0]).exhausted(lines.drop_first());
            match self.handed_out(lines[0]) {
                Some(p) => (end, seq![p] + more),
                None => (end, more),
            }
        }
    }
}

proof fn lemma_ahead(source: SourceView, lines: Seq<Seq<char>>)
    requires
        source.valid(),
        source.opened,
    ensures
        ({
            let (end, rest) = source.ahead(lines);
            let n = vstd::math::min(source.skip_count - source.skipped, puzzles_in(lines).len() as int);
            &&& end == (SourceView { skipped: (source.skipped + n) as nat, ..source })
            &&& puzzles_in(rest) == puzzles_in(lines).skip(n)
        }),
    decreases lines.len(),
{
    if !source.skips() || lines.len() == 0 {
        assert(puzzles_in(lines).skip(0) == puzzles_in(lines));
    } else {
        let rest = lines.drop_first();
        lemma_ahead(source.passed(lines[0]), rest);
        match puzzle::puzzle_in(lines[0]) {
            Some(p) => {
                let n = vstd::math::min(source.skip_count - source.skipped, puzzles_in(lines).len() as int);
                assert((seq![p] + puzzles_in(rest)).skip(n) == puzzles_in(rest).skip(n - 1));
            },
            None => {},
        }
    }
}

proof fn lemma_exhausted(source: SourceView, lines: Seq<Seq<char>>)
    requires
        source.valid(),
        source.opened,
        !source.stopped,
    ensures
        ({
            let (end, out) = source.exhausted(lines);
            let n = vstd::math::min(source.puzzle_count - source.taken, puzzles_in(lines).len() as int);
            &&& end == (SourceView { taken: (source.taken + n) as nat, ..source })
            &&& out == puzzles_in(lines).take(n)
        }),
    decreases lines.len(),
{
    if !source.takes() || lines.len() == 0 {
        assert(puzzles_in(lines).take(0) == Seq::<PuzzleView>::empty());
    } else {
        let rest = lines.drop_first();
        lemma_exhausted(source.offered(lines[0]), rest);
        match puzzle::puzzle_in(lines[0]) {
            Some(p) => {
                let n = vstd::math::min(source.puzzle_count - source.taken, puzzles_in(lines).len() as int);
                assert((seq![p] + puzzles_in(rest)).take(n) == seq![p] + puzzles_in(rest).take(
                    n - 1,
                ));
            },
            None => {},
        }
    }
}

/// Of the puzzles below the first line of a database, those behind the skipped ones are
/// handed out, each once and in order, up to the number asked for. The database falls short
/// of any such number if and only if it holds fewer than were to be skipped and handed out.
pub proof fn law_hands_out_the_puzzles_asked_for(
    source: SourceView,
    first: Seq<char>,
    below: Seq<Seq<char>>,
)
    requires
        !source.opened,
        !source.stopped,
        source.skipped == 0,
        source.taken == 0,
    ensures
        ({
            let (ready, rest) = source.ahead(seq![first] + below);
            let (end, out) = ready.exhausted(rest);
            let all = puzzles_in(below);
            let skipped = vstd::math::min(source.skip_count as int, all.len() as int);
            let taken = vstd::math::min(source.puzzle_count as int, all.len() - skipped);
            &&& out == all.subrange(skipped, skipped + taken)
            &&& end.skipped == skipped
            &&& end.taken == taken
            &&& (end.taken < end.puzzle_count <==> 0 < source.puzzle_count && all.len()
                < source.skip_count + source.puzzle_count)
        }),
{
    let lines = seq![first] + below;
    let opened = source.passed(first);
    assert(lines.drop_first() == below);
    assert(lines[0] == first);
    lemma_ahead(opened, below);
    let (ready, rest) = opened.ahead(below);
    lemma_exhausted(ready, rest);
    let all = puzzles_in(below);
    let skipped = vstd::math::min(source.skip_count as int, all.len() as int);
    let taken = vstd::math::min(source.puzzle_count as int, all.len() - skipped);
    assert(all.skip(skipped).take(taken) == all.subrange(skipped, skipped + taken));
}

/// The first line of a database is never handed out, whatever it holds: the puzzles handed out
/// are those handed out of the lines below it.
pub proof fn law_the_first_line_is_never_handed_out(
    source: SourceView,
    first: Seq<char>,
    below: Seq<Seq<char>>,
)
    requires
        !source.opened,
    ensures
        source.exhausted(seq![first] + below).1 == (SourceView { opened: true, ..source }).exhausted(
            below,
        ).1,
{
    let lines = seq![first] + below;
    assert(lines.drop_first() == below);
}

/// Once the run has been stopped, no puzzle is handed out.
pub proof fn law_hands_out_nothing_once_stopped(source: SourceView, lines: Seq<Seq<char>>)
    requires
        source.stopped,
    ensures
        source.exhausted(lines) == (source, Seq::<PuzzleView>::empty()),
{
}

} // verus!
