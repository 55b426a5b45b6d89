//! What is written to the user, piece by piece.

use crate::banner;
use crate::laws::decimals::{is_near, lemma_span_is_near, reads_as};
use crate::laws::text::{lemma_same_texts, lemma_views, same_texts};
use crate::laws::uci::names;
use crate::number;
use crate::progress::Progress;
use crate::puzzle;
use crate::puzzle::Puzzle;
use crate::rounding;
use crate::rounding::{Elapsed, LEAST};
use crate::settings;
use crate::settings::{EngineOption, OptionView, Settings};
use crate::text;
use vstd::prelude::*;

verus! {

/// The progress line tells how many puzzles were tested, of how many, which share that is, how
/// many of them were solved, which share that is, and how much time has passed in all. There is
/// none before the first puzzle was tested.
pub proof fn law_the_progress_line_tells_counts_shares_and_time(
    p: Progress,
    total: usize,
    elapsed: Elapsed,
    r: Option<String>,
    tested: String,
    all: String,
    done: String,
    solved: String,
    success: String,
    seconds: String,
)
    requires
        elapsed.valid(),
        call_ensures(Progress::line, (&p, total, elapsed), r),
        call_ensures(number::write_decimal, (p.tested as u128,), tested),
        call_ensures(number::write_decimal, (total as u128,), all),
        call_ensures(rounding::write_percentage, (p.tested, total), done),
        call_ensures(number::write_decimal, (p.solved as u128,), solved),
        call_ensures(rounding::write_percentage, (p.solved, p.tested), success),
        call_ensures(Elapsed::write_seconds, (&elapsed,), seconds),
    ensures
        p.tested == 0 ==> r is None,
        p.tested > 0 ==> r is Some && r->0@ == "puzzle "@ + tested@ + " of "@ + all@ + " ("@ + done@
            + "%), solved "@ + solved@ + " ("@ + success@ + "%) in "@ + seconds@ + "s"@,
{
}

/// A line that ends with a number of tenths of a second.
pub open spec fn ends_with_seconds(line: Seq<char>, front: Seq<char>, tenths: nat) -> bool {
    exists|seconds: Seq<char>|
        #[trigger] reads_as(seconds, tenths) && line == front + " in "@ + seconds + "s"@
}

/// The time at the end of the progress line is the whole time that has passed: read back, it is as
/// near to it as a tenth of a second can be.
pub proof fn law_the_progress_line_ends_with_the_whole_time(
    p: Progress,
    total: usize,
    elapsed: Elapsed,
    line: String,
)
    requires
        elapsed.valid(),
        elapsed.secs < LEAST,
        call_ensures(Progress::line, (&p, total, elapsed), Some(line)),
    ensures
        exists|front: Seq<char>, t: nat|
            #[trigger] ends_with_seconds(line@, front, t) && is_near(t, elapsed),
{
    lemma_span_is_near(elapsed);
    let t = choose|t: nat| #[trigger] reads_as(elapsed.seconds(), t) && is_near(t, elapsed);
    let before = "puzzle "@ + number::decimal(p.tested as nat) + " of "@ + number::decimal(
        total as nat,
    ) + " ("@ + rounding::percentage(p.tested as nat, total as nat) + "%), solved "@
        + number::decimal(p.solved as nat) + " ("@ + rounding::percentage(
        p.solved as nat,
        p.tested as nat,
    );
    let front = before + "%)"@;
    assert("%) in "@ == "%)"@ + " in "@) by {
        reveal_strlit("%) in ");
        reveal_strlit("%)");
        reveal_strlit(" in ");
    }
    assert(before + "%) in "@ == front + " in "@);
    assert(line@ == front + " in "@ + elapsed.seconds() + "s"@);
    assert(ends_with_seconds(line@, front, t));
}

/// What a fresh run has achieved: nothing.
pub proof fn law_a_run_starts_with_nothing(r: Progress)
    requires
        call_ensures(Progress::default, (), r),
    ensures
        r.tested == 0,
        r.solved == 0,
        r.unsolved@.len() == 0,
        !r.listed_unsolved,
        !r.drawn_in_place,
{
    lemma_views(r.unsolved@);
    assert(text::views(r.unsolved@).len() == 0);
}

/// What goes before the progress line clears the line, if it was drawn in place; otherwise it is
/// a line break.
pub open spec fn opens(p: Progress, s: Seq<char>) -> bool {
    s == if p.drawn_in_place {
        "\r\x1b[K"@
    } else {
        "\n"@
    }
}

/// The progress line is drawn over the one that stands there, or below a blank line.
pub proof fn law_the_progress_line_is_opened(p: Progress, r: &'static str)
    requires
        call_ensures(Progress::opening, (&p,), r),
    ensures
        opens(p, r@),
{
}

/// The last thing written is the progress line, with what goes before it, where there is one.
pub proof fn law_the_run_closes_with_the_progress_line(
    p: Progress,
    total: usize,
    elapsed: Elapsed,
    r: Option<String>,
    line: Option<String>,
    opening: &'static str,
)
    requires
        elapsed.valid(),
        call_ensures(Progress::closing, (&p, total, elapsed), r),
        call_ensures(Progress::line, (&p, total, elapsed), line),
        call_ensures(Progress::opening, (&p,), opening),
    ensures
        r is Some <==> line is Some,
        line matches Some(l) ==> r->0@ == opening@ + l@,
{
}

/// The counts and the kept lines of both are the same.
pub open spec fn same_achievements(a: Progress, b: Progress) -> bool {
    &&& a.tested == b.tested
    &&& a.solved == b.solved
    &&& same_texts(a.unsolved@, b.unsolved@)
}

/// Where the progress line is redrawn in place, it is, whenever there is one, with what goes
/// before it, and stands on the screen from then on. Where it is not, nothing is written.
pub proof fn law_the_progress_line_is_redrawn(
    p: &mut Progress,
    redraws: bool,
    total: usize,
    elapsed: Elapsed,
    r: Option<String>,
    before: Progress,
    line: Option<String>,
    opening: &'static str,
)
    requires
        elapsed.valid(),
        before == *old(p),
        call_ensures(Progress::redraw, (p, redraws, total, elapsed), r),
        call_ensures(Progress::line, (&before, total, elapsed), line),
        call_ensures(Progress::opening, (&before,), opening),
    ensures
        r is Some <==> redraws && line is Some,
        r matches Some(s) ==> s@ == opening@ + line->0@,
        final(p).drawn_in_place == (before.drawn_in_place || r is Some),
        final(p).listed_unsolved == before.listed_unsolved,
        same_achievements(*final(p), before),
{
    lemma_same_texts(final(p).unsolved@, before.unsolved@);
}

/// A tested puzzle is counted as tested, and as solved unless a move was played in vain. Where
/// unsolved puzzles are shown, the line about it is kept behind the others. Nothing else
/// changes.
pub proof fn law_a_tested_puzzle_is_counted(
    p: &mut Progress,
    puzzle: Puzzle,
    failure: Option<String>,
    show_failed: bool,
    depth: u8,
    played: &str,
    line: String,
)
    requires
        old(p).tested < usize::MAX,
        old(p).solved < usize::MAX,
        call_ensures(Progress::report, (p, &puzzle, failure, show_failed, depth), ()),
        failure matches Some(f) ==> f@ == played@,
        call_ensures(puzzle::failed_puzzle_line, (&puzzle, played, depth), line),
    ensures
        final(p).tested == old(p).tested + 1,
        final(p).solved == old(p).solved + if failure is None {
            1int
        } else {
            0
        },
        final(p).listed_unsolved == old(p).listed_unsolved,
        final(p).drawn_in_place == old(p).drawn_in_place,
        if failure is Some && show_failed {
            &&& final(p).unsolved@.len() == old(p).unsolved@.len() + 1
            &&& same_texts(final(p).unsolved@.drop_last(), old(p).unsolved@)
            &&& final(p).unsolved@.last()@ == line@
        } else {
            same_texts(final(p).unsolved@, old(p).unsolved@)
        },
{
    let before = old(p).unsolved@;
    let now = final(p).unsolved@;
    lemma_same_texts(now, before);
    if failure is Some && show_failed {
        lemma_views(now);
        lemma_views(before);
        assert(text::views(now) == text::views(before).push(line@));
        assert(text::views(now)[now.len() - 1] == now.last()@);
        assert(text::views(now.drop_last()) == text::views(now).drop_last());
        assert(text::views(before).push(line@).drop_last() == text::views(before));
        lemma_same_texts(now.drop_last(), before);
    }
}

/// What is listed first clears the progress line and the blank line above it, if they stand
/// there, and writes the heading, unless it was written before.
pub open spec fn lists(p: Progress, s: Seq<char>, lines: Seq<char>) -> bool {
    s == (if p.drawn_in_place {
        "\r\x1b[K"@ + "\x1b[A"@ + "\r\x1b[K"@
    } else {
        seq![]
    }) + (if p.listed_unsolved {
        seq![]
    } else {
        "Unsolved puzzles:\n"@
    }) + lines
}

/// The list at the end holds all lines that were kept, each on its own line and in order, and
/// there is one if and only if any was. From then on, none is kept, and the progress line is no
/// longer on the screen.
pub proof fn law_the_list_holds_all_kept_lines(
    p: &mut Progress,
    r: Option<String>,
    kept: &[String],
    lines: String,
)
    requires
        kept@ == old(p).unsolved@,
        call_ensures(Progress::unsolved_list, (p,), r),
        call_ensures(text::join, (kept, "\n"), lines),
    ensures
        r is Some <==> kept@.len() > 0,
        r matches Some(s) ==> {
            &&& lists(*old(p), s@, lines@)
            &&& final(p).listed_unsolved
            &&& !final(p).drawn_in_place
        },
        r is None ==> {
            &&& final(p).listed_unsolved == old(p).listed_unsolved
            &&& final(p).drawn_in_place == old(p).drawn_in_place
        },
        final(p).unsolved@.len() == 0,
        final(p).tested == old(p).tested,
        final(p).solved == old(p).solved,
{
    lemma_views(kept@);
    lemma_views(final(p).unsolved@);
}

/// An unsolved puzzle is written about as a list of its line alone.
pub proof fn law_a_puzzle_is_written_about(
    p: &mut Progress,
    puzzle: Puzzle,
    played: &str,
    depth: u8,
    r: String,
    line: String,
)
    requires
        call_ensures(Progress::unsolved_report, (p, &puzzle, played, depth), r),
        call_ensures(puzzle::failed_puzzle_line, (&puzzle, played, depth), line),
    ensures
        lists(*old(p), r@, line@),
        final(p).listed_unsolved,
        !final(p).drawn_in_place,
        same_achievements(*final(p), *old(p)),
{
    lemma_same_texts(final(p).unsolved@, old(p).unsolved@);
}

/// The options that are not skipped, as `NAME=VALUE`, in order.
pub open spec fn shown_options(options: Seq<EngineOption>, skipped: Seq<String>) -> Seq<Seq<char>>
    decreases options.len(),
{
    if options.len() == 0 {
        seq![]
    } else {
        let before = shown_options(options.drop_last(), skipped);
        let last = options.last();
        if names(skipped, last.name@) {
            before
        } else {
            before.push(last.name@ + "="@ + last.value@)
        }
    }
}

proof fn lemma_shown_options(options: Seq<EngineOption>, skipped: Seq<String>)
    ensures
        banner::listed_options(settings::option_views(options), text::views(skipped))
            == shown_options(options, skipped),
    decreases options.len(),
{
    reveal_with_fuel(Seq::filter, 1);
    let all = settings::option_views(options);
    let out = text::views(skipped);
    if options.len() == 0 {
        assert(banner::listed_options(all, out) == shown_options(options, skipped));
    } else {
        let front = options.drop_last();
        lemma_shown_options(front, skipped);
        assert(all.drop_last() == settings::option_views(front));
        let last = options.last();
        assert(all.last() == last@);
        lemma_views(skipped);
        if names(skipped, last.name@) {
            let i = choose|i: int|
                0 <= i < skipped.len() && (#[trigger] skipped[i])@ == last.name@;
            assert(out[i] == last.name@);
        }
        if out.contains(last.name@) {
            let i = choose|i: int| 0 <= i < out.len() && out[i] == last.name@;
            assert(skipped[i]@ == last.name@);
        }
        let keep = |o: OptionView| !out.contains(o.name);
        let write = |o: OptionView| banner::listed_option(o);
        assert(all.filter(keep) == if keep(all.last()) {
            all.drop_last().filter(keep).push(all.last())
        } else {
            all.drop_last().filter(keep)
        });
        assert(banner::listed_options(all, out) == shown_options(options, skipped));
    }
}

/// The banner tells the command of the engine, the depth, the options that it is given, if any,
/// and the number of processes.
pub proof fn law_the_banner_tells_engine_depth_options_and_processes(
    s: Settings,
    workers: usize,
    skipped: &[String],
    r: String,
    depth: String,
    shown: &[String],
    listed: String,
    count: String,
)
    requires
        call_ensures(banner::startup_banner, (&s, workers, skipped), r),
        call_ensures(number::write_decimal, (s.search_depth as u128,), depth),
        text::views(shown@) == shown_options(s.engine_options@, skipped@),
        call_ensures(text::join, (shown, " "), listed),
        call_ensures(number::write_decimal, (workers as u128,), count),
    ensures
        r@ == s.engine@ + " at Depth "@ + depth@ + (if shown@.len() == 0 {
            seq![]
        } else {
            " with "@ + listed@
        }) + " in "@ + count@ + " "@ + (if workers == 1 {
            "process"@
        } else {
            "processes"@
        }),
{
    lemma_shown_options(s.engine_options@, skipped@);
    lemma_views(shown@);
}

/// The notice about a default that is left out names it.
pub proof fn law_the_notice_names_the_option(name: &str, r: String)
    requires
        call_ensures(banner::skipped_option_notice, (name,), r),
    ensures
        r@ == "cps: engine does not support option `"@ + name@ + "`, keeping the engine default"@,
{
}

} // verus!
