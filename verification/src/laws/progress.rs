//! What holds of the progress of a run, whatever happens in it.

use crate::progress::{ProgressView, BLANK_LINE, CLEARED_LINE, LINE_ABOVE, UNSOLVED_HEADING};
use crate::puzzle;
use crate::puzzle::PuzzleView;
use crate::rounding::Elapsed;
use crate::text;
use vstd::prelude::*;

verus! {

/// What can happen in a run.
pub enum Event {
    /// A puzzle was tested; `failure` is the move played in vain.
    Tested { puzzle: PuzzleView, failure: Option<Seq<char>> },
    /// The progress line was redrawn.
    Redrawn { elapsed: Elapsed },
}

/// What a run was asked for.
pub struct Request {
    pub total: nat,
    pub search_depth: nat,
    pub show_failed: bool,
}

/// The progress once `events` have happened, in this order, from `start` on.
pub open spec fn after(start: ProgressView, request: Request, events: Seq<Event>) -> ProgressView
    decreases events.len(),
{
    if events.len() == 0 {
        start
    } else {
        let before = after(start, request, events.drop_last());
        match events.last() {
            Event::Tested { puzzle, failure } => before.reported(
                puzzle,
                failure,
                request.show_failed,
                request.search_depth,
            ),
            Event::Redrawn { .. } => before.redrawn(),
        }
    }
}

/// What has been written once `events` have happened from the beginning of a run.
pub open spec fn written(request: Request, events: Seq<Event>) -> Seq<char>
    decreases events.len(),
{
    if events.len() == 0 {
        seq![]
    } else {
        let before = events.drop_last();
        written(request, before) + match events.last() {
            Event::Tested { .. } => seq![],
            Event::Redrawn { elapsed } => match after(
                ProgressView::none(),
                request,
                before,
            ).opened_line(request.total, elapsed) {
                Some(line) => line,
                None => seq![],
            },
        }
    }
}

/// How many puzzles have been tested.
pub open spec fn tests(events: Seq<Event>) -> nat
    decreases events.len(),
{
    if events.len() == 0 {
        0
    } else {
        tests(events.drop_last()) + if events.last() is Tested {
            1nat
        } else {
            0
        }
    }
}

/// How many puzzles have been solved.
pub open spec fn solutions(events: Seq<Event>) -> nat
    decreases events.len(),
{
    if events.len() == 0 {
        0
    } else {
        solutions(events.drop_last()) + match events.last() {
            Event::Tested { failure: None, .. } => 1nat,
            _ => 0,
        }
    }
}

/// The lines about the puzzles that were not solved, in the order in which they were tested.
pub open spec fn failures(events: Seq<Event>, search_depth: nat) -> Seq<Seq<char>>
    decreases events.len(),
{
    if events.len() == 0 {
        seq![]
    } else {
        let before = failures(events.drop_last(), search_depth);
        match events.last() {
            Event::Tested { puzzle, failure: Some(played) } => before.push(
                puzzle::failed_line(puzzle, played, search_depth),
            ),
            _ => before,
        }
    }
}

/// Every tested puzzle is counted once, and every solved one once as solved, so that no more
/// are solved than tested. As many are unsolved as there are lines about them.
pub proof fn law_every_puzzle_is_counted_once(request: Request, events: Seq<Event>)
    ensures
        ({
            let end = after(ProgressView::none(), request, events);
            &&& end.tested == tests(events)
            &&& end.solved == solutions(events)
            &&& end.valid()
            &&& end.tested == end.solved + failures(events, request.search_depth).len()
        }),
    decreases events.len(),
{
    if events.len() > 0 {
        law_every_puzzle_is_counted_once(request, events.drop_last());
    }
}

/// While the run goes on, no unsolved puzzle is listed: what is written is the same whether
/// unsolved puzzles are shown or not, and their list has not begun.
pub proof fn law_nothing_is_listed_before_the_run_is_over(
    total: nat,
    search_depth: nat,
    events: Seq<Event>,
)
    ensures
        ({
            let showing = Request { total, search_depth, show_failed: true };
            let silent = Request { total, search_depth, show_failed: false };
            let shown = after(ProgressView::none(), showing, events);
            &&& written(showing, events) == written(silent, events)
            &&& !shown.listed_unsolved
            &&& after(ProgressView::none(), silent, events) == (ProgressView {
                unsolved: seq![],
                ..shown
            })
        }),
    decreases events.len(),
{
    if events.len() > 0 {
        law_nothing_is_listed_before_the_run_is_over(total, search_depth, events.drop_last());
    }
}

/// Once the run is over, the list holds the line about every unsolved puzzle once, in the
/// order in which they were tested, below the heading. It is written where unsolved puzzles
/// are shown and there is one, and it is not written again.
pub proof fn law_every_unsolved_puzzle_is_listed_once(request: Request, events: Seq<Event>)
    ensures
        ({
            let end = after(ProgressView::none(), request, events);
            let lines = failures(events, request.search_depth);
            &&& end.list() == if request.show_failed && lines.len() > 0 {
                Some(end.clearing() + UNSOLVED_HEADING@ + text::joined(lines, "\n"@))
            } else {
                None
            }
            &&& end.after_list().list() is None
        }),
{
    lemma_lines_are_kept(request, events);
}

proof fn lemma_lines_are_kept(request: Request, events: Seq<Event>)
    ensures
        ({
            let end = after(ProgressView::none(), request, events);
            &&& end.unsolved == if request.show_failed {
                failures(events, request.search_depth)
            } else {
                seq![]
            }
            &&& !end.listed_unsolved
        }),
    decreases events.len(),
{
    if events.len() > 0 {
        lemma_lines_are_kept(request, events.drop_last());
    }
}

/// The heading stands above what is listed first, and above nothing that is listed later,
/// whatever happens in between.
pub proof fn law_the_heading_is_written_once(
    start: ProgressView,
    request: Request,
    events: Seq<Event>,
)
    ensures
        ProgressView::none().heading() == UNSOLVED_HEADING@,
        after(start.listed(), request, events).heading() == Seq::<char>::empty(),
    decreases events.len(),
{
    if events.len() > 0 {
        law_the_heading_is_written_once(start, request, events.drop_last());
    }
}

/// A blank line always stands above the progress line: before it is drawn and after puzzles
/// have been listed, the line is drawn below a blank one; once drawn, it is drawn over, and
/// what is listed first clears it and the blank line above.
pub proof fn law_a_blank_line_stands_above_the_progress_line(p: ProgressView, lines: Seq<char>)
    ensures
        ProgressView::none().opening_text() == BLANK_LINE@,
        p.listed().opening_text() == BLANK_LINE@,
        p.list() is Some ==> p.after_list().opening_text() == BLANK_LINE@,
        p.tested > 0 ==> {
            &&& p.redrawn().opening_text() == CLEARED_LINE@
            &&& p.redrawn().listing(lines) == CLEARED_LINE@ + LINE_ABOVE@ + CLEARED_LINE@
                + p.heading() + lines
        },
        p.listed().listing(lines) == lines,
{
    let none: Seq<char> = seq![];
    assert(none + none + lines == lines);
}

} // verus!
