//! What comes of each line that an engine writes, told by what the line says.

use crate::error::{Error, ErrorKind};
use crate::laws::puzzle::is_word;
use crate::laws::text::{
    ends_a_word, lemma_index_of_text, lemma_led_by, lemma_same_texts, lemma_views, same_texts,
    stands_at,
};
use crate::laws::uci::{lemma_bestmove, lemma_move_in, names};
use crate::number;
use crate::puzzle::Puzzle;
use crate::session::{Next, Startup, Step, Trial, TrialStage};
use crate::settings::EngineOption;
use crate::text;
use crate::uci;
use crate::uci::Plan;
use vstd::prelude::*;

verus! {

/// Nothing is sent, and the next line is awaited.
pub open spec fn listens(step: Step) -> bool {
    step.commands@.len() == 0 && step.next is Listen
}

/// Nothing is sent, and the work is done.
pub open spec fn finishes(step: Step) -> bool {
    step.commands@.len() == 0 && step.next is Finished
}

/// Nothing is sent, and the work has failed because the engine stopped before it had given
/// the answer `token`.
pub open spec fn misses(step: Step, token: Seq<char>) -> bool {
    &&& step.commands@.len() == 0
    &&& step.next matches Next::Failed(e) && e.kind == ErrorKind::Other && e.message@
        == "engine stopped before `"@ + token + "`"@
}

/// The position of a puzzle is searched, after `moves`, to `depth` plies.
pub open spec fn searches(step: Step, puzzle: Puzzle, moves: Seq<char>, depth: Seq<char>) -> bool {
    &&& step.commands@.len() == 2
    &&& step.commands@[0]@ == "position fen "@ + puzzle.fen@ + " moves "@ + moves
    &&& step.commands@[1]@ == "go depth "@ + depth
    &&& step.next is Listen
}

/// The same puzzle is searched to the same depth.
pub open spec fn same_trial(a: Trial, b: Trial) -> bool {
    &&& a.puzzle.id@ == b.puzzle.id@
    &&& a.puzzle.fen@ == b.puzzle.fen@
    &&& a.puzzle.opponent_move@ == b.puzzle.opponent_move@
    &&& same_texts(a.puzzle.solution@, b.puzzle.solution@)
    &&& a.puzzle.rating == b.puzzle.rating
    &&& a.puzzle.url@ == b.puzzle.url@
    &&& a.search_depth == b.search_depth
}

/// Trials with the same view are the same.
proof fn lemma_same_trial(a: Trial, b: Trial)
    requires
        a@.puzzle == b@.puzzle,
        a@.search_depth == b@.search_depth,
    ensures
        same_trial(a, b),
{
    lemma_same_texts(a.puzzle.solution@, b.puzzle.solution@);
}

proof fn lemma_commands(step: Step)
    ensures
        step@.commands.len() == step.commands@.len(),
        forall|i: int|
            0 <= i < step.commands@.len() ==> #[trigger] step@.commands[i] == step.commands@[i]@,
{
    lemma_views(step.commands@);
}

/// A trial starts with a new game for the puzzle, and the engine is to say when it is ready.
pub proof fn law_a_trial_starts_with_a_new_game(puzzle: Puzzle, depth: u8, r: (Trial, Step))
    requires
        call_ensures(Trial::begin, (puzzle, depth), r),
    ensures
        same_trial(r.0, (Trial { puzzle, search_depth: depth, stage: TrialStage::NewGame })),
        r.0.stage is NewGame,
        r.1.commands@.len() == 2,
        r.1.commands@[0]@ == "ucinewgame"@,
        r.1.commands@[1]@ == "isready"@,
        r.1.next is Listen,
{
    lemma_commands(r.1);
    assert(r.1@.commands[0] == r.1.commands@[0]@);
    assert(r.1@.commands[1] == r.1.commands@[1]@);
    lemma_same_trial(r.0, Trial { puzzle, search_depth: depth, stage: TrialStage::NewGame });
}

/// Whatever an engine says, the trial stays that of its puzzle at its depth; once it is over,
/// it stays over, with the same outcome.
pub proof fn law_a_trial_keeps_its_puzzle<'a>(
    trial: Trial,
    line: Option<&'a str>,
    r: (Trial, Step),
)
    requires
        trial.puzzle.solution@.len() > 0,
        call_ensures(Trial::hear, (trial, line), r),
    ensures
        same_trial(r.0, trial),
        trial.stage matches TrialStage::Over { failure } ==> {
            &&& finishes(r.1)
            &&& r.0.stage matches TrialStage::Over { failure: f } && text::view_of(f)
                == text::view_of(failure)
        },
{
    lemma_commands(r.1);
    lemma_same_trial(r.0, trial);
}

/// An engine that stops fails the trial, and the error names the answer that it owed: that it
/// is ready for the new game, or the move it found.
pub proof fn law_a_stop_fails_the_trial<'a>(trial: Trial, r: (Trial, Step))
    requires
        trial.puzzle.solution@.len() > 0,
        call_ensures(Trial::hear, (trial, None::<&'a str>), r),
    ensures
        trial.stage is NewGame ==> misses(r.1, "readyok"@),
        trial.stage is Searching ==> misses(r.1, "bestmove"@),
        trial.stage is Checking ==> misses(r.1, "bestmove"@),
{
    lemma_commands(r.1);
}

/// An engine that is ready for the new game is asked to search the position after the
/// opponent's move, to the depth asked for. Until then, it is listened to.
pub proof fn law_the_position_after_the_opponents_move_is_searched<'a>(
    trial: Trial,
    line: &'a str,
    r: (Trial, Step),
    ready: bool,
    depth: String,
)
    requires
        trial.puzzle.solution@.len() > 0,
        trial.stage is NewGame,
        call_ensures(Trial::hear, (trial, Some(line)), r),
        call_ensures(uci::answers, (line, "readyok"), ready),
        call_ensures(number::write_decimal, (trial.search_depth as u128,), depth),
    ensures
        if ready {
            &&& r.0.stage is Searching
            &&& searches(r.1, trial.puzzle, trial.puzzle.opponent_move@, depth@)
        } else {
            r.0.stage is NewGame && listens(r.1)
        },
{
    lemma_commands(r.1);
    if ready {
        assert(r.1@.commands[0] == r.1.commands@[0]@);
        assert(r.1@.commands[1] == r.1.commands@[1]@);
    }
}

/// An engine that plays the move with which the solution starts has solved the puzzle, without
/// another search. After any other move, the position behind it is searched for one ply. Both
/// hold for every move, whatever the engine says behind it.
pub proof fn law_a_move_is_judged_as_played<'a>(
    trial: Trial,
    line: &'a str,
    r: (Trial, Step),
    played: Seq<char>,
    rest: Seq<char>,
)
    requires
        trial.puzzle.solution@.len() > 0,
        trial.stage is Searching,
        call_ensures(Trial::hear, (trial, Some(line)), r),
        line@ == "bestmove "@ + played + rest,
        is_word(played),
        played != "(none)"@,
        ends_a_word(rest),
    ensures
        if played == trial.puzzle.solution@[0]@ {
            &&& r.0.stage matches TrialStage::Over { failure } && failure is None
            &&& finishes(r.1)
        } else {
            &&& r.0.stage matches TrialStage::Checking { played: p, mate_score } && p@ == played
                && !mate_score
            &&& searches(
                r.1,
                trial.puzzle,
                trial.puzzle.opponent_move@ + " "@ + played,
                seq!['1'],
            )
        },
{
    let none: Seq<char> = seq![];
    lemma_commands(r.1);
    lemma_bestmove(played, rest);
    lemma_led_by(line@, none, "bestmove"@, " "@ + played + rest);
    lemma_move_in(line@, none, "bestmove"@, " "@, played, rest);
    lemma_views(trial.puzzle.solution@);
    assert(text::views(trial.puzzle.solution@)[0] == trial.puzzle.solution@[0]@);
    if played != trial.puzzle.solution@[0]@ {
        lemma_two_moves(trial.puzzle.opponent_move@, played);
        assert(number::decimal(1) == seq!['1']);
        assert(r.1@.commands[0] == r.1.commands@[0]@);
        assert(r.1@.commands[1] == r.1.commands@[1]@);
    }
}

/// Whatever the line that answers the search looks like, it is the move found in it that is
/// judged.
pub proof fn law_the_move_found_is_judged<'a>(
    trial: Trial,
    line: &'a str,
    r: (Trial, Step),
    answered: bool,
    played: String,
)
    requires
        trial.puzzle.solution@.len() > 0,
        trial.stage is Searching,
        call_ensures(Trial::hear, (trial, Some(line)), r),
        call_ensures(uci::answers, (line, "bestmove"), answered),
        answered,
        call_ensures(uci::best_move, (line,), Ok(played)),
    ensures
        if played@ == trial.puzzle.solution@[0]@ {
            &&& r.0.stage matches TrialStage::Over { failure } && failure is None
            &&& finishes(r.1)
        } else {
            &&& r.0.stage matches TrialStage::Checking { played: p, mate_score } && p@ == played@
                && !mate_score
            &&& searches(
                r.1,
                trial.puzzle,
                trial.puzzle.opponent_move@ + " "@ + played@,
                seq!['1'],
            )
        },
{
    lemma_commands(r.1);
    lemma_views(trial.puzzle.solution@);
    assert(text::views(trial.puzzle.solution@)[0] == trial.puzzle.solution@[0]@);
    if played@ != trial.puzzle.solution@[0]@ {
        lemma_two_moves(trial.puzzle.opponent_move@, played@);
        assert(number::decimal(1) == seq!['1']);
        assert(r.1@.commands[0] == r.1.commands@[0]@);
        assert(r.1@.commands[1] == r.1.commands@[1]@);
    }
}

/// Two moves are joined by a space.
proof fn lemma_two_moves(first: Seq<char>, second: Seq<char>)
    ensures
        text::joined(seq![first, second], " "@) == first + " "@ + second,
{
    assert(seq![first, second].drop_last() == seq![first]);
    reveal_with_fuel(text::joined, 2);
}

/// An answer in which no move is found fails the trial, with the error about it.
pub proof fn law_a_missing_move_fails_the_trial<'a>(
    trial: Trial,
    line: &'a str,
    r: (Trial, Step),
    answered: bool,
    found: Result<String, Error>,
)
    requires
        trial.puzzle.solution@.len() > 0,
        trial.stage is Searching,
        call_ensures(Trial::hear, (trial, Some(line)), r),
        call_ensures(uci::answers, (line, "bestmove"), answered),
        answered,
        call_ensures(uci::best_move, (line,), found),
    ensures
        found matches Err(error) ==> {
            &&& r.1.commands@.len() == 0
            &&& r.1.next matches Next::Failed(e) && e.kind == error.kind && e.message@
                == error.message@
        },
{
    lemma_commands(r.1);
}

/// While the engine searches for the move, all other lines are passed over.
pub proof fn law_thoughts_are_passed_over<'a>(
    trial: Trial,
    line: &'a str,
    r: (Trial, Step),
    answered: bool,
)
    requires
        trial.puzzle.solution@.len() > 0,
        trial.stage is Searching,
        call_ensures(Trial::hear, (trial, Some(line)), r),
        call_ensures(uci::answers, (line, "bestmove"), answered),
        !answered,
    ensures
        r.0.stage is Searching,
        listens(r.1),
{
    lemma_commands(r.1);
}

/// A move that is not the recorded one solves the puzzle if and only if it mates: some line
/// before the answer says `score mate 0`, and the answer says `(none)`. Otherwise that move is
/// the one played in vain.
pub proof fn law_another_move_must_mate<'a>(
    trial: Trial,
    line: &'a str,
    r: (Trial, Step),
    answered: bool,
)
    requires
        trial.puzzle.solution@.len() > 0,
        trial.stage is Checking,
        call_ensures(Trial::hear, (trial, Some(line)), r),
        call_ensures(uci::answers, (line, "bestmove"), answered),
    ensures
        trial.stage matches TrialStage::Checking { played, mate_score } ==> if answered {
            &&& finishes(r.1)
            &&& r.0.stage matches TrialStage::Over { failure } && {
                &&& failure is None <==> mate_score && exists|k: int|
                    #[trigger] stands_at(line@, "(none)"@, k)
                &&& failure is Some ==> failure->0@ == played@
            }
        } else {
            &&& listens(r.1)
            &&& r.0.stage matches TrialStage::Checking { played: p, mate_score: m } && {
                &&& p@ == played@
                &&& m <==> mate_score || exists|k: int|
                    #[trigger] stands_at(line@, "score mate 0"@, k)
            }
        },
{
    lemma_commands(r.1);
    lemma_index_of_text(line@, "score mate 0"@);
    lemma_index_of_text(line@, "(none)"@);
}

/// The start of an engine asks for its options, of which it has announced none.
pub proof fn law_an_engine_is_asked_for_its_options(r: (Startup, Step))
    requires
        call_ensures(Startup::begin, (), r),
    ensures
        r.0.stage is Greeting,
        r.0.announced@.len() == 0,
        r.0.skipped_options@.len() == 0,
        r.1.commands@.len() == 1,
        r.1.commands@[0]@ == "uci"@,
        r.1.next is Listen,
{
    lemma_commands(r.1);
    lemma_views(r.0.announced@);
    lemma_views(r.0.skipped_options@);
    assert(r.1@.commands[0] == r.1.commands@[0]@);
}

/// What a line announces is noted behind what was announced before, unless it was; whatever
/// else the engine says before it has announced all is passed over.
pub proof fn law_announcements_are_noted<'a>(
    startup: Startup,
    options: &[EngineOption],
    line: &'a str,
    r: (Startup, Step),
    done: bool,
    name: Option<&'a str>,
)
    requires
        startup@.valid(),
        startup.stage is Greeting,
        call_ensures(Startup::hear, (startup, options, Some(line)), r),
        call_ensures(uci::answers, (line, "uciok"), done),
        !done,
        call_ensures(uci::parse_option_name, (line,), name),
    ensures
        r.0.stage is Greeting,
        same_texts(r.0.skipped_options@, startup.skipped_options@),
        listens(r.1),
        name is None ==> same_texts(r.0.announced@, startup.announced@),
        name matches Some(n) ==> if names(startup.announced@, n@) {
            same_texts(r.0.announced@, startup.announced@)
        } else {
            &&& r.0.announced@.len() == startup.announced@.len() + 1
            &&& same_texts(r.0.announced@.drop_last(), startup.announced@)
            &&& r.0.announced@.last()@ == n@
        },
{
    lemma_commands(r.1);
    let before = startup.announced@;
    let now = r.0.announced@;
    lemma_views(before);
    lemma_views(now);
    lemma_same_texts(r.0.skipped_options@, startup.skipped_options@);
    lemma_same_texts(now, before);
    if let Some(n) = name {
        if names(before, n@) {
            let i = choose|i: int| 0 <= i < before.len() && (#[trigger] before[i])@ == n@;
            assert(text::views(before)[i] == n@);
        } else {
            if text::views(before).contains(n@) {
                let i = choose|i: int|
                    0 <= i < text::views(before).len() && text::views(before)[i] == n@;
                assert(before[i]@ == n@);
            }
            assert(text::views(now) == text::views(before).push(n@));
            assert(text::views(now)[now.len() - 1] == now.last()@);
            assert(text::views(now.drop_last()) == text::views(now).drop_last());
            assert(text::views(before).push(n@).drop_last() == text::views(before));
            lemma_same_texts(now.drop_last(), before);
        }
    }
}

/// An engine that has announced all is set the options that it is to be set, in order, and
/// told to get ready; but one that lacks an option that was demanded has failed, with the
/// message about that option.
pub proof fn law_options_are_set_once_all_are_announced<'a>(
    startup: Startup,
    options: &[EngineOption],
    line: &'a str,
    r: (Startup, Step),
    done: bool,
    announced: &[String],
    plan: Plan,
)
    requires
        startup@.valid(),
        startup.stage is Greeting,
        call_ensures(Startup::hear, (startup, options, Some(line)), r),
        call_ensures(uci::answers, (line, "uciok"), done),
        done,
        announced@ == startup.announced@,
        call_ensures(uci::set_options, (announced, options), plan),
    ensures
        same_texts(r.0.announced@, startup.announced@),
        match plan.refusal {
            Some(message) => {
                &&& same_texts(r.1.commands@, plan.commands@)
                &&& r.1.next matches Next::Failed(e) && e.kind == ErrorKind::InvalidInput
                    && e.message@ == message@
            },
            None => {
                &&& r.0.stage is Readying
                &&& same_texts(r.0.skipped_options@, plan.skipped@)
                &&& r.1.commands@.len() == plan.commands@.len() + 1
                &&& same_texts(r.1.commands@.drop_last(), plan.commands@)
                &&& r.1.commands@.last()@ == "isready"@
                &&& r.1.next is Listen
            },
        },
{
    let sent = r.1.commands@;
    lemma_commands(r.1);
    lemma_views(plan.commands@);
    lemma_same_texts(r.0.announced@, startup.announced@);
    lemma_same_texts(r.0.skipped_options@, plan.skipped@);
    lemma_same_texts(sent, plan.commands@);
    if plan.refusal is None {
        let planned = text::views(plan.commands@);
        assert(text::views(sent) == planned.push("isready"@));
        assert(text::views(sent)[sent.len() - 1] == sent.last()@);
        assert(text::views(sent.drop_last()) == text::views(sent).drop_last());
        assert(planned.push("isready"@).drop_last() == planned);
        lemma_same_texts(sent.drop_last(), plan.commands@);
    }
}

/// An engine that says that it is ready is; until then, it is listened to, and once it is,
/// there is nothing more to do.
pub proof fn law_an_engine_is_ready_when_it_says_so<'a>(
    startup: Startup,
    options: &[EngineOption],
    line: &'a str,
    r: (Startup, Step),
    ready: bool,
)
    requires
        startup@.valid(),
        !(startup.stage is Greeting),
        call_ensures(Startup::hear, (startup, options, Some(line)), r),
        call_ensures(uci::answers, (line, "readyok"), ready),
    ensures
        same_texts(r.0.announced@, startup.announced@),
        same_texts(r.0.skipped_options@, startup.skipped_options@),
        if ready || startup.stage is Ready {
            r.0.stage is Ready && finishes(r.1)
        } else {
            r.0.stage is Readying && listens(r.1)
        },
{
    lemma_commands(r.1);
    lemma_same_texts(r.0.announced@, startup.announced@);
    lemma_same_texts(r.0.skipped_options@, startup.skipped_options@);
}

/// An engine that stops is not ready, and the error names the answer that it owed.
pub proof fn law_a_stop_fails_the_start<'a>(
    startup: Startup,
    options: &[EngineOption],
    r: (Startup, Step),
)
    requires
        startup@.valid(),
        call_ensures(Startup::hear, (startup, options, None::<&'a str>), r),
    ensures
        startup.stage is Greeting ==> misses(r.1, "uciok"@),
        startup.stage is Readying ==> misses(r.1, "readyok"@),
        startup.stage is Ready ==> finishes(r.1),
{
    lemma_commands(r.1);
}

} // verus!
