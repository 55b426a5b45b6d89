//! What holds of the conversation with an engine, whatever the engine says.

use crate::banner;
use crate::error::{ErrorKind, ErrorView};
use crate::session;
use crate::session::{NextView, StartupStage, StartupView, TrialStageView, TrialView};
use crate::settings::OptionView;
use crate::uci;
use vstd::prelude::*;

verus! {

/// Whether an option is no reason to refuse the engine: the engine has announced it, or the
/// user did not demand it.
pub open spec fn is_spared(announced: Seq<Seq<char>>, option: OptionView) -> bool {
    announced.contains(option.name) || !option.demanded
}

proof fn lemma_filter_front(options: Seq<OptionView>, keep: spec_fn(OptionView) -> bool)
    requires
        options.len() > 0,
    ensures
        options.filter(keep) == if keep(options[0]) {
            seq![options[0]] + options.drop_first().filter(keep)
        } else {
            options.drop_first().filter(keep)
        },
{
    let first = seq![options[0]];
    assert(options == first + options.drop_first());
    Seq::filter_distributes_over_add(first, options.drop_first(), keep);
    reveal_with_fuel(Seq::filter, 2);
    assert(first.drop_last() == Seq::<OptionView>::empty());
    let none: Seq<OptionView> = seq![];
    assert(none + options.drop_first().filter(keep) == options.drop_first().filter(keep));
}

/// An engine is refused if and only if it lacks an option that the user demanded. An engine
/// that is not is given all options that it has announced, in order, and the others are
/// skipped, none of them demanded.
pub proof fn law_options_are_set_or_skipped(announced: Seq<Seq<char>>, options: Seq<OptionView>)
    ensures
        ({
            let plan = uci::plan(announced, options);
            &&& plan.refusal is None <==> forall|i: int|
                0 <= i < options.len() ==> is_spared(announced, #[trigger] options[i])
            &&& plan.refusal is None ==> {
                &&& plan.commands == options.filter(
                    |o: OptionView| announced.contains(o.name),
                ).map_values(|o: OptionView| uci::setting(o))
                &&& plan.skipped == options.filter(
                    |o: OptionView| !announced.contains(o.name),
                ).map_values(|o: OptionView| o.name)
            }
        }),
    decreases options.len(),
{
    let plan = uci::plan(announced, options);
    let set = |o: OptionView| announced.contains(o.name);
    let unset = |o: OptionView| !announced.contains(o.name);
    if options.len() == 0 {
        reveal_with_fuel(Seq::filter, 1);
        assert(plan.commands == options.filter(set).map_values(|o: OptionView| uci::setting(o)));
        assert(plan.skipped == options.filter(unset).map_values(|o: OptionView| o.name));
    } else {
        let rest = options.drop_first();
        law_options_are_set_or_skipped(announced, rest);
        lemma_filter_front(options, set);
        lemma_filter_front(options, unset);
        let tail = uci::plan(announced, rest);
        if is_spared(announced, options[0]) {
            if tail.refusal is None {
                assert forall|i: int| 0 <= i < options.len() implies is_spared(
                    announced,
                    #[trigger] options[i],
                ) by {
                    if i > 0 {
                        assert(options[i] == rest[i - 1]);
                    }
                }
                assert(plan.commands == options.filter(set).map_values(
                    |o: OptionView| uci::setting(o),
                ));
                assert(plan.skipped == options.filter(unset).map_values(|o: OptionView| o.name));
            } else {
                let i = choose|i: int|
                    0 <= i < rest.len() && !is_spared(announced, #[trigger] rest[i]);
                assert(options[i + 1] == rest[i]);
            }
        }
    }
}

/// The refusal names the first option that the user demanded and the engine lacks, and only
/// options before that one have been set.
pub proof fn law_the_first_unsupported_option_is_named(
    announced: Seq<Seq<char>>,
    options: Seq<OptionView>,
    i: int,
)
    requires
        0 <= i < options.len(),
        !is_spared(announced, options[i]),
        forall|j: int| 0 <= j < i ==> is_spared(announced, #[trigger] options[j]),
    ensures
        uci::plan(announced, options).refusal == Some(uci::unsupported(options[i].name)),
        uci::plan(announced, options).commands == uci::plan(announced, options.take(i)).commands,
    decreases i,
{
    if i > 0 {
        let rest = options.drop_first();
        assert(is_spared(announced, options[0]));
        assert forall|j: int| 0 <= j < i - 1 implies is_spared(announced, #[trigger] rest[j]) by {
            assert(rest[j] == options[j + 1]);
        }
        law_the_first_unsupported_option_is_named(announced, rest, i - 1);
        assert(options.take(i).drop_first() == rest.take(i - 1));
    }
}

proof fn lemma_filters_agree(
    options: Seq<OptionView>,
    a: spec_fn(OptionView) -> bool,
    b: spec_fn(OptionView) -> bool,
)
    requires
        forall|i: int| 0 <= i < options.len() ==> a(#[trigger] options[i]) == b(options[i]),
    ensures
        options.filter(a) == options.filter(b),
    decreases options.len(),
{
    reveal_with_fuel(Seq::filter, 1);
    if options.len() > 0 {
        let front = options.drop_last();
        assert forall|i: int| 0 <= i < front.len() implies a(#[trigger] front[i]) == b(
            front[i],
        ) by {
            assert(front[i] == options[i]);
        }
        lemma_filters_agree(front, a, b);
        assert(options.last() == options[options.len() - 1]);
    }
}

/// The banner lists the options that the engine is given, and no other.
pub proof fn law_the_banner_lists_the_options_set(
    announced: Seq<Seq<char>>,
    options: Seq<OptionView>,
)
    requires
        uci::plan(announced, options).refusal is None,
    ensures
        banner::listed_options(options, uci::plan(announced, options).skipped) == options.filter(
            |o: OptionView| announced.contains(o.name),
        ).map_values(|o: OptionView| banner::listed_option(o)),
{
    law_options_are_set_or_skipped(announced, options);
    let skipped = uci::plan(announced, options).skipped;
    let set = |o: OptionView| announced.contains(o.name);
    let unset = |o: OptionView| !announced.contains(o.name);
    let listed = |o: OptionView| !skipped.contains(o.name);
    let left_out = options.filter(unset);
    assert forall|i: int| 0 <= i < options.len() implies listed(#[trigger] options[i]) == set(
        options[i],
    ) by {
        let option = options[i];
        if unset(option) {
            options.lemma_filter_contains(unset, i);
            let j = choose|j: int| 0 <= j < left_out.len() && left_out[j] == option;
            assert(skipped[j] == option.name);
        } else if skipped.contains(option.name) {
            let j = choose|j: int| 0 <= j < skipped.len() && skipped[j] == option.name;
            options.lemma_filter_pred(unset, j);
            assert(left_out[j].name == option.name);
        }
    }
    lemma_filters_agree(options, listed, set);
}

/// What comes of the start of an engine that writes `lines` and then stops: where it ends,
/// the commands sent on the way, and how.
pub open spec fn started(s: StartupView, options: Seq<OptionView>, lines: Seq<Seq<char>>) -> (
    StartupView,
    Seq<Seq<char>>,
    NextView,
)
    decreases lines.len(),
{
    let line = if lines.len() == 0 {
        None
    } else {
        Some(lines[0])
    };
    let (heard, step) = s.heard(options, line);
    if step.next is Listen && lines.len() > 0 {
        let (end, more, next) = started(heard, options, lines.drop_first());
        (end, step.commands + more, next)
    } else {
        (heard, step.commands, step.next)
    }
}

/// No line is the answer that starts with `token`.
pub open spec fn is_chatter(lines: Seq<Seq<char>>, token: Seq<char>) -> bool {
    forall|i: int| 0 <= i < lines.len() ==> !uci::is_answer(#[trigger] lines[i], token)
}

/// The names that lines announce.
pub open spec fn announced_in(lines: Seq<Seq<char>>) -> Seq<Seq<char>>
    decreases lines.len(),
{
    if lines.len() == 0 {
        seq![]
    } else {
        session::announced_with(announced_in(lines.drop_last()), lines.last())
    }
}

/// A name is among those announced if and only if a line announces it.
pub proof fn law_a_name_is_announced_by_a_line(lines: Seq<Seq<char>>, name: Seq<char>)
    ensures
        announced_in(lines).contains(name) <==> exists|i: int|
            0 <= i < lines.len() && uci::option_name_in(#[trigger] lines[i]) == Some(name),
    decreases lines.len(),
{
    if lines.len() > 0 {
        let front = lines.drop_last();
        law_a_name_is_announced_by_a_line(front, name);
        let before = announced_in(front);
        let now = announced_in(lines);
        if before.contains(name) {
            let j = choose|j: int| 0 <= j < before.len() && before[j] == name;
            assert(now[j] == name);
            let i = choose|i: int|
                0 <= i < front.len() && uci::option_name_in(#[trigger] front[i]) == Some(name);
            assert(lines[i] == front[i]);
        }
        if uci::option_name_in(lines.last()) == Some(name) {
            assert(lines[lines.len() - 1] == lines.last());
            if !before.contains(name) {
                assert(now[now.len() - 1] == name);
            }
        }
        if now.contains(name) && !before.contains(name) {
            let j = choose|j: int| 0 <= j < now.len() && now[j] == name;
            assert(j < before.len() ==> before[j] == name);
            assert(lines[lines.len() - 1] == lines.last());
        }
        if exists|i: int|
            0 <= i < lines.len() && uci::option_name_in(#[trigger] lines[i]) == Some(name) {
            let i = choose|i: int|
                0 <= i < lines.len() && uci::option_name_in(#[trigger] lines[i]) == Some(name);
            assert(i < front.len() ==> front[i] == lines[i]);
        }
    }
}

/// The start after the announcements in some lines.
pub open spec fn announcing(lines: Seq<Seq<char>>) -> StartupView {
    StartupView { announced: announced_in(lines), ..session::greeting() }
}

proof fn lemma_announcing(
    options: Seq<OptionView>,
    before: Seq<Seq<char>>,
    chatter: Seq<Seq<char>>,
    rest: Seq<Seq<char>>,
)
    requires
        is_chatter(chatter, "uciok"@),
    ensures
        started(announcing(before), options, chatter + rest) == started(
            announcing(before + chatter),
            options,
            rest,
        ),
    decreases chatter.len(),
{
    let lines = chatter + rest;
    if chatter.len() == 0 {
        assert(lines == rest);
        assert(before + chatter == before);
    } else {
        let line = chatter[0];
        let others = chatter.drop_first();
        assert(lines[0] == line);
        assert(lines.drop_first() == others + rest);
        assert(!uci::is_answer(line, "uciok"@));
        let heard = before.push(line);
        assert(heard.drop_last() == before);
        assert(announcing(heard).announced == session::announced_with(announced_in(before), line));
        assert forall|i: int| 0 <= i < others.len() implies !uci::is_answer(
            #[trigger] others[i],
            "uciok"@,
        ) by {
            assert(others[i] == chatter[i + 1]);
        }
        lemma_announcing(options, heard, others, rest);
        assert(heard + others == before + chatter);
        let none: Seq<Seq<char>> = seq![];
        let more = started(announcing(heard), options, others + rest).1;
        assert(none + more == more);
    }
}

proof fn lemma_readying(
    s: StartupView,
    options: Seq<OptionView>,
    chatter: Seq<Seq<char>>,
    rest: Seq<Seq<char>>,
)
    requires
        s.stage is Readying,
        is_chatter(chatter, "readyok"@),
    ensures
        started(s, options, chatter + rest) == started(s, options, rest),
    decreases chatter.len(),
{
    let lines = chatter + rest;
    if chatter.len() == 0 {
        assert(lines == rest);
    } else {
        let others = chatter.drop_first();
        assert(lines[0] == chatter[0]);
        assert(lines.drop_first() == others + rest);
        assert(!uci::is_answer(chatter[0], "readyok"@));
        assert forall|i: int| 0 <= i < others.len() implies !uci::is_answer(
            #[trigger] others[i],
            "readyok"@,
        ) by {
            assert(others[i] == chatter[i + 1]);
        }
        lemma_readying(s, options, others, rest);
        let none: Seq<Seq<char>> = seq![];
        let more = started(s, options, others + rest).1;
        assert(none + more == more);
    }
}

/// An engine that announces its options, says that this was all, and then that it is ready,
/// is ready once it has been given those of the options that it announced, and the others
/// are the skipped ones; what else it says in between makes no difference.
pub proof fn law_an_engine_gets_ready(
    options: Seq<OptionView>,
    announcements: Seq<Seq<char>>,
    uciok: Seq<char>,
    chatter: Seq<Seq<char>>,
    readyok: Seq<char>,
    rest: Seq<Seq<char>>,
)
    requires
        is_chatter(announcements, "uciok"@),
        uci::is_answer(uciok, "uciok"@),
        is_chatter(chatter, "readyok"@),
        uci::is_answer(readyok, "readyok"@),
        uci::plan(announced_in(announcements), options).refusal is None,
    ensures
        ({
            let plan = uci::plan(announced_in(announcements), options);
            started(
                session::greeting(),
                options,
                announcements + (seq![uciok] + (chatter + (seq![readyok] + rest))),
            ) == (
                StartupView {
                    stage: StartupStage::Ready,
                    announced: announced_in(announcements),
                    skipped_options: plan.skipped,
                },
                plan.commands.push("isready"@),
                NextView::Finished,
            )
        }),
{
    let plan = uci::plan(announced_in(announcements), options);
    let end = seq![readyok] + rest;
    let tail = seq![uciok] + (chatter + end);
    let none: Seq<Seq<char>> = seq![];
    assert(announcing(none) == session::greeting());
    lemma_announcing(options, none, announcements, tail);
    assert(none + announcements == announcements);
    assert(tail[0] == uciok);
    assert(tail.drop_first() == chatter + end);
    let readying = announcing(announcements).greeted(options).0;
    lemma_readying(readying, options, chatter, end);
    assert(end[0] == readyok);
    assert(started(readying, options, end).1 == none);
    assert(plan.commands.push("isready"@) + none == plan.commands.push("isready"@));
}

/// An engine that lacks an option that the user demanded is refused as soon as it has
/// announced all it has, and is not told to get ready.
pub proof fn law_an_engine_without_a_demanded_option_is_refused(
    options: Seq<OptionView>,
    announcements: Seq<Seq<char>>,
    uciok: Seq<char>,
    rest: Seq<Seq<char>>,
    message: Seq<char>,
)
    requires
        is_chatter(announcements, "uciok"@),
        uci::is_answer(uciok, "uciok"@),
        uci::plan(announced_in(announcements), options).refusal == Some(message),
    ensures
        ({
            let (_, commands, next) = started(
                session::greeting(),
                options,
                announcements + (seq![uciok] + rest),
            );
            &&& commands == uci::plan(announced_in(announcements), options).commands
            &&& next == NextView::Failed(ErrorView { kind: ErrorKind::InvalidInput, message })
        }),
{
    let tail = seq![uciok] + rest;
    let none: Seq<Seq<char>> = seq![];
    assert(announcing(none) == session::greeting());
    lemma_announcing(options, none, announcements, tail);
    assert(none + announcements == announcements);
    assert(tail[0] == uciok);
}

/// An engine that stops before it has announced all it has, or before it is ready, fails, and
/// the error names the answer that it still owed.
pub proof fn law_an_engine_that_stops_is_not_ready(
    options: Seq<OptionView>,
    announcements: Seq<Seq<char>>,
    uciok: Seq<char>,
    chatter: Seq<Seq<char>>,
)
    requires
        is_chatter(announcements, "uciok"@),
        uci::is_answer(uciok, "uciok"@),
        is_chatter(chatter, "readyok"@),
    ensures
        started(session::greeting(), options, announcements).1 == Seq::<Seq<char>>::empty(),
        started(session::greeting(), options, announcements).2 == NextView::Failed(
            uci::stopped_before("uciok"@),
        ),
        uci::plan(announced_in(announcements), options).refusal is None ==> started(
            session::greeting(),
            options,
            announcements + (seq![uciok] + chatter),
        ).2 == NextView::Failed(uci::stopped_before("readyok"@)),
{
    let none: Seq<Seq<char>> = seq![];
    assert(announcing(none) == session::greeting());
    lemma_announcing(options, none, announcements, none);
    assert(none + announcements == announcements);
    assert(announcements + none == announcements);
    if uci::plan(announced_in(announcements), options).refusal is None {
        let tail = seq![uciok] + chatter;
        lemma_announcing(options, none, announcements, tail);
        assert(tail[0] == uciok);
        assert(tail.drop_first() == chatter);
        let readying = announcing(announcements).greeted(options).0;
        lemma_readying(readying, options, chatter, none);
        assert(chatter + none == chatter);
    }
}

/// What comes of the trial of a puzzle by an engine that writes `lines` and then stops: where
/// it ends, the commands sent on the way, and how.
pub open spec fn tried(t: TrialView, lines: Seq<Seq<char>>) -> (TrialView, Seq<Seq<char>>, NextView)
    decreases lines.len(),
{
    let line = if lines.len() == 0 {
        None
    } else {
        Some(lines[0])
    };
    let (heard, step) = t.heard(line);
    if step.next is Listen && lines.len() > 0 {
        let (end, more, next) = tried(heard, lines.drop_first());
        (end, step.commands + more, next)
    } else {
        (heard, step.commands, step.next)
    }
}

/// Whether a line gives the score of a side that has been mated.
pub open spec fn any_scores_mate(lines: Seq<Seq<char>>) -> bool {
    exists|i: int| 0 <= i < lines.len() && uci::scores_mate(#[trigger] lines[i])
}

/// The trial after lines that are not the answer that the engine owes.
pub open spec fn informed(t: TrialView, lines: Seq<Seq<char>>) -> TrialView {
    match t.stage {
        TrialStageView::Checking { played, mate_score } => t.at(
            TrialStageView::Checking { played, mate_score: mate_score || any_scores_mate(lines) },
        ),
        _ => t,
    }
}

proof fn lemma_informed(t: TrialView, chatter: Seq<Seq<char>>, rest: Seq<Seq<char>>)
    requires
        !(t.stage is Over),
        is_chatter(chatter, t.awaited()),
    ensures
        tried(t, chatter + rest) == tried(informed(t, chatter), rest),
    decreases chatter.len(),
{
    let lines = chatter + rest;
    if chatter.len() == 0 {
        assert(lines == rest);
        assert(informed(t, chatter) == t);
    } else {
        let line = chatter[0];
        let others = chatter.drop_first();
        assert(lines[0] == line);
        assert(lines.drop_first() == others + rest);
        assert(!uci::is_answer(line, t.awaited()));
        let heard = t.informed(line);
        assert(heard.awaited() == t.awaited());
        assert forall|i: int| 0 <= i < others.len() implies !uci::is_answer(
            #[trigger] others[i],
            t.awaited(),
        ) by {
            assert(others[i] == chatter[i + 1]);
        }
        lemma_informed(heard, others, rest);
        if any_scores_mate(others) {
            let i = choose|i: int| 0 <= i < others.len() && uci::scores_mate(#[trigger] others[i]);
            assert(chatter[i + 1] == others[i]);
        }
        if any_scores_mate(chatter) && !uci::scores_mate(line) {
            let i = choose|i: int|
                0 <= i < chatter.len() && uci::scores_mate(#[trigger] chatter[i]);
            assert(others[i - 1] == chatter[i]);
        }
        assert(informed(heard, others) == informed(t, chatter));
        let none: Seq<Seq<char>> = seq![];
        let more = tried(heard, others + rest).1;
        assert(none + more == more);
    }
}

/// The lines of an engine that gets ready for a new game and answers the search.
pub open spec fn searched(
    preparations: Seq<Seq<char>>,
    readyok: Seq<char>,
    thoughts: Seq<Seq<char>>,
    answer: Seq<char>,
    rest: Seq<Seq<char>>,
) -> Seq<Seq<char>> {
    preparations + (seq![readyok] + (thoughts + (seq![answer] + rest)))
}

/// The lines are those of an engine that gets ready for a new game and answers the search.
pub open spec fn is_searched(
    preparations: Seq<Seq<char>>,
    readyok: Seq<char>,
    thoughts: Seq<Seq<char>>,
    answer: Seq<char>,
) -> bool {
    &&& is_chatter(preparations, "readyok"@)
    &&& uci::is_answer(readyok, "readyok"@)
    &&& is_chatter(thoughts, "bestmove"@)
    &&& uci::is_answer(answer, "bestmove"@)
}

/// The commands that have the engine search the position that the puzzle asks about.
pub open spec fn asked(t: TrialView) -> Seq<Seq<char>> {
    uci::search(t.puzzle.fen, seq![t.puzzle.opponent_move], t.search_depth)
}

proof fn lemma_searched(
    t: TrialView,
    preparations: Seq<Seq<char>>,
    readyok: Seq<char>,
    thoughts: Seq<Seq<char>>,
    answer: Seq<char>,
    rest: Seq<Seq<char>>,
)
    requires
        t.stage is NewGame,
        is_searched(preparations, readyok, thoughts, answer),
    ensures
        ({
            let (end, more, next) = tried(
                t.at(TrialStageView::Searching),
                seq![answer] + rest,
            );
            tried(t, searched(preparations, readyok, thoughts, answer, rest)) == (
                end,
                asked(t) + more,
                next,
            )
        }),
{
    let end = seq![answer] + rest;
    let tail = seq![readyok] + (thoughts + end);
    lemma_informed(t, preparations, tail);
    assert(tail[0] == readyok);
    assert(tail.drop_first() == thoughts + end);
    lemma_informed(t.at(TrialStageView::Searching), thoughts, end);
}

/// A puzzle is solved by the move with which its solution starts, without another search.
pub proof fn law_the_recorded_move_solves_the_puzzle(
    t: TrialView,
    preparations: Seq<Seq<char>>,
    readyok: Seq<char>,
    thoughts: Seq<Seq<char>>,
    answer: Seq<char>,
    rest: Seq<Seq<char>>,
)
    requires
        t.valid(),
        t.stage is NewGame,
        is_searched(preparations, readyok, thoughts, answer),
        uci::move_in(answer) == Ok::<Seq<char>, ErrorView>(t.puzzle.solution[0]),
    ensures
        tried(t, searched(preparations, readyok, thoughts, answer, rest)) == (
            t.at(TrialStageView::Over { failure: None }),
            asked(t),
            NextView::Finished,
        ),
{
    lemma_searched(t, preparations, readyok, thoughts, answer, rest);
    assert((seq![answer] + rest)[0] == answer);
    let none: Seq<Seq<char>> = seq![];
    assert(asked(t) + none == asked(t));
}

/// A puzzle is solved by any other move if and only if it mates: asked for one more ply, the
/// engine scores the position as a mate and finds no move.
pub proof fn law_another_move_solves_the_puzzle_if_it_mates(
    t: TrialView,
    preparations: Seq<Seq<char>>,
    readyok: Seq<char>,
    thoughts: Seq<Seq<char>>,
    answer: Seq<char>,
    played: Seq<char>,
    scores: Seq<Seq<char>>,
    last: Seq<char>,
    rest: Seq<Seq<char>>,
)
    requires
        t.valid(),
        t.stage is NewGame,
        is_searched(preparations, readyok, thoughts, answer),
        uci::move_in(answer) == Ok::<Seq<char>, ErrorView>(played),
        played != t.puzzle.solution[0],
        is_chatter(scores, "bestmove"@),
        uci::is_answer(last, "bestmove"@),
    ensures
        tried(
            t,
            searched(preparations, readyok, thoughts, answer, scores + (seq![last] + rest)),
        ) == (
            t.at(
                TrialStageView::Over {
                    failure: if any_scores_mate(scores) && uci::has_no_move(last) {
                        None
                    } else {
                        Some(played)
                    },
                },
            ),
            asked(t) + uci::search(t.puzzle.fen, seq![t.puzzle.opponent_move, played], 1),
            NextView::Finished,
        ),
{
    let end = seq![last] + rest;
    let more = scores + end;
    lemma_searched(t, preparations, readyok, thoughts, answer, more);
    let lines = seq![answer] + more;
    assert(lines[0] == answer);
    assert(lines.drop_first() == more);
    let checking = t.at(TrialStageView::Checking { played, mate_score: false });
    lemma_informed(checking, scores, end);
    assert(end[0] == last);
    let none: Seq<Seq<char>> = seq![];
    let search = uci::search(t.puzzle.fen, seq![t.puzzle.opponent_move, played], 1);
    assert(search + none == search);
}

/// An answer without a move fails the trial.
pub proof fn law_an_answer_without_a_move_fails(
    t: TrialView,
    preparations: Seq<Seq<char>>,
    readyok: Seq<char>,
    thoughts: Seq<Seq<char>>,
    answer: Seq<char>,
    rest: Seq<Seq<char>>,
    error: ErrorView,
)
    requires
        t.stage is NewGame,
        is_searched(preparations, readyok, thoughts, answer),
        uci::move_in(answer) == Err::<Seq<char>, ErrorView>(error),
    ensures
        tried(t, searched(preparations, readyok, thoughts, answer, rest)).2 == NextView::Failed(
            error,
        ),
{
    lemma_searched(t, preparations, readyok, thoughts, answer, rest);
    assert((seq![answer] + rest)[0] == answer);
}

/// An engine that stops before it has given the answer that it owes fails the trial, and the
/// error names that answer.
pub proof fn law_an_engine_that_stops_fails_the_trial(t: TrialView, chatter: Seq<Seq<char>>)
    requires
        !(t.stage is Over),
        is_chatter(chatter, t.awaited()),
    ensures
        tried(t, chatter).2 == NextView::Failed(uci::stopped_before(t.awaited())),
{
    let none: Seq<Seq<char>> = seq![];
    lemma_informed(t, chatter, none);
    assert(chatter + none == chatter);
}

} // verus!
