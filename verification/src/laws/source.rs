//! What becomes of each line of the database.

use crate::error::{Error, ErrorKind};
use crate::laws::text::{lemma_same_texts, same_texts};
use crate::number;
use crate::puzzle;
use crate::puzzle::Puzzle;
use crate::settings::Settings;
use crate::source::PuzzleSource;
use vstd::prelude::*;

verus! {

/// The two puzzles hold the same.
pub open spec fn same_puzzle(a: Puzzle, b: Puzzle) -> bool {
    &&& a.id@ == b.id@
    &&& a.fen@ == b.fen@
    &&& a.opponent_move@ == b.opponent_move@
    &&& same_texts(a.solution@, b.solution@)
    &&& a.rating == b.rating
    &&& a.url@ == b.url@
}

proof fn lemma_same_puzzle(a: Puzzle, b: Puzzle)
    requires
        a@ == b@,
    ensures
        same_puzzle(a, b),
{
    lemma_same_texts(a.solution@, b.solution@);
}

/// Reading starts before the first line, with nothing skipped or handed out.
pub proof fn law_reading_starts_before_the_first_line<'a>(
    settings: &'a Settings,
    r: PuzzleSource<'a>,
)
    requires
        call_ensures(PuzzleSource::<'a>::open, (settings,), r),
    ensures
        r.settings == settings,
        !r.opened,
        r.skipped == 0,
        r.taken == 0,
        !r.stopped,
{
}

/// Lines are passed over until the first has been and as many puzzles as were to be skipped;
/// puzzles are handed out until there are as many as were asked for, unless the run is stopped.
pub proof fn law_when_lines_are_skipped_and_puzzles_taken<'a>(
    source: PuzzleSource<'a>,
    skips: bool,
    takes: bool,
)
    requires
        call_ensures(PuzzleSource::<'a>::is_skipping, (&source,), skips),
        call_ensures(PuzzleSource::<'a>::is_taking, (&source,), takes),
    ensures
        skips <==> !source.opened || source.skipped < source.settings.skip_count,
        takes <==> !source.stopped && source.taken < source.settings.puzzle_count,
{
}

/// The first line that is passed over counts as no puzzle; of the others, those that hold one do.
pub proof fn law_skipped_puzzles_are_counted<'a>(
    source: &mut PuzzleSource<'a>,
    line: &str,
    found: Option<Puzzle>,
)
    requires
        old(source)@.valid(),
        old(source)@.skips(),
        call_ensures(PuzzleSource::<'a>::skip_ahead, (source, line), ()),
        call_ensures(puzzle::parse_puzzle, (line,), found),
    ensures
        final(source).opened,
        final(source).skipped == old(source).skipped + if old(source).opened && found is Some {
            1int
        } else {
            0
        },
        final(source).taken == old(source).taken,
        final(source).stopped == old(source).stopped,
        final(source).settings == old(source).settings,
{
}

/// The puzzle in a line is handed out, and counted, unless it is the first line.
pub proof fn law_the_puzzle_in_a_line_is_handed_out<'a>(
    source: &mut PuzzleSource<'a>,
    line: &str,
    r: Option<Puzzle>,
    found: Option<Puzzle>,
)
    requires
        old(source)@.valid(),
        old(source)@.takes(),
        call_ensures(PuzzleSource::<'a>::next_puzzle, (source, line), r),
        call_ensures(puzzle::parse_puzzle, (line,), found),
    ensures
        r is Some <==> old(source).opened && found is Some,
        r matches Some(p) ==> same_puzzle(p, found->0),
        final(source).opened,
        final(source).taken == old(source).taken + if r is Some {
            1int
        } else {
            0
        },
        final(source).skipped == old(source).skipped,
        final(source).stopped == old(source).stopped,
        final(source).settings == old(source).settings,
{
    if let Some(p) = r {
        lemma_same_puzzle(p, found->0);
    }
}

/// A run that is stopped is stopped, and nothing else.
pub proof fn law_a_stopped_run_is_stopped<'a>(source: &mut PuzzleSource<'a>)
    requires
        call_ensures(PuzzleSource::<'a>::stop, (source,), ()),
    ensures
        final(source).stopped,
        final(source).opened == old(source).opened,
        final(source).skipped == old(source).skipped,
        final(source).taken == old(source).taken,
        final(source).settings == old(source).settings,
{
}

/// The database falls short if and only if fewer puzzles were handed out than were asked for; the
/// error tells its path, both numbers, and how many were skipped, if any.
pub proof fn law_a_shortfall_tells_what_was_read<'a>(
    source: PuzzleSource<'a>,
    r: Result<(), Error>,
    taken: String,
    skipped: String,
    expected: String,
)
    requires
        call_ensures(PuzzleSource::<'a>::shortfall, (&source,), r),
        call_ensures(number::write_decimal, (source.taken as u128,), taken),
        call_ensures(number::write_decimal, (source.skipped as u128,), skipped),
        call_ensures(number::write_decimal, (source.settings.puzzle_count as u128,), expected),
    ensures
        r is Err <==> source.taken < source.settings.puzzle_count,
        r matches Err(e) ==> e.kind == ErrorKind::InvalidData && e.message@
            == source.settings.database_path@ + ": read "@ + taken@ + " puzzles"@ + (
        if source.skipped == 0 {
            seq![]
        } else {
            " after skipping "@ + skipped@
        }) + ", expected "@ + expected@,
{
}

} // verus!
