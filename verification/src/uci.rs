//! The conversation with an engine in the Universal Chess Interface.

use crate::error::{Error, ErrorKind, ErrorView};
use crate::number;
use crate::settings;
use crate::settings::{EngineOption, OptionView};
use crate::text;
use vstd::prelude::*;

verus! {

/// The command that ends an engine.
pub const QUIT: &'static str = "quit";

/// The name of the option that a line of the engine announces.
pub open spec fn option_name_in(line: Seq<char>) -> Option<Seq<char>> {
    match text::after_prefix(text::trimmed(line), "option "@) {
        Some(declaration) => match text::after_prefix(text::trimmed_start(declaration), "name "@) {
            Some(named) => match text::index_of_text(named, " type "@) {
                Some(end) => Some(text::trimmed(named.take(end))),
                None => None,
            },
            None => None,
        },
        None => None,
    }
}

/// Reads the name of the option that a line of the engine announces.
pub fn parse_option_name(line: &str) -> (r: Option<&str>)
    ensures
        text::view_of_str(r) == option_name_in(line@),
{
    match text::strip_prefix(text::trim(line), "option ") {
        Some(declaration) => match text::strip_prefix(
            text::trim_start(declaration),
            "name ",
        ) {
            Some(named) => match text::find(named, " type ") {
                Some(end) => {
                    let name = named.substring_char(0, end);
                    assert(name@ == named@.take(end as int));
                    Some(text::trim(name))
                },
                None => None,
            },
            None => None,
        },
        None => None,
    }
}

/// Whether a line of the engine is the answer that starts with `token`.
pub open spec fn is_answer(line: Seq<char>, token: Seq<char>) -> bool {
    text::first_word_of(line) == Some(token)
}

/// Tells the answer that starts with `token` from other lines.
pub fn answers(line: &str, token: &str) -> (r: bool)
    ensures
        r == is_answer(line@, token@),
{
    match text::first_word(line) {
        Some(word) => text::same(word, token),
        None => false,
    }
}

/// The error of an engine that stops before it has given the answer `token`.
pub open spec fn stopped_before(token: Seq<char>) -> ErrorView {
    ErrorView { kind: ErrorKind::Other, message: "engine stopped before `"@ + token + "`"@ }
}

pub(crate) fn stopped(token: &str) -> (r: Error)
    ensures
        r@ == stopped_before(token@),
{
    Error {
        kind: ErrorKind::Other,
        message: "engine stopped before `".to_owned().concat(token).concat("`"),
    }
}

/// The program to run for an engine command, and its arguments.
pub fn command_words(command: &str) -> (r: Result<(String, Vec<String>), Error>)
    ensures
        match r {
            Ok((program, arguments)) => text::words(command@) == seq![program@] + text::views(
                arguments@,
            ),
            Err(e) => text::words(command@).len() == 0 && e@ == (ErrorView {
                kind: ErrorKind::InvalidInput,
                message: "--engine needs a command"@,
            }),
        },
{
    let mut words = text::split_words(command);
    assert(text::views(words@).len() == words@.len());
    if words.len() == 0 {
        return Err(
            Error {
                kind: ErrorKind::InvalidInput,
                message: "--engine needs a command".to_owned(),
            },
        );
    }
    let ghost all = words@;
    let program = words.remove(0);
    assert(text::views(all) == seq![program@] + text::views(words@));
    Ok((program, words))
}

/// The commands that have the engine search a position, reached from `fen` by `moves`, to
/// `depth` plies.
pub open spec fn search(fen: Seq<char>, moves: Seq<Seq<char>>, depth: nat) -> Seq<Seq<char>> {
    seq![
        "position fen "@ + fen + " moves "@ + text::joined(moves, " "@),
        "go depth "@ + number::decimal(depth),
    ]
}

/// Gives the commands that have the engine search a position.
pub fn go(fen: &str, moves: &[String], depth: u8) -> (r: Vec<String>)
    ensures
        text::views(r@) == search(fen@, text::views(moves@), depth as nat),
{
    let mut r: Vec<String> = Vec::new();
    r.push(
        "position fen ".to_owned().concat(fen).concat(" moves ").concat(
            text::join(moves, " ").as_str(),
        ),
    );
    r.push("go depth ".to_owned().concat(number::write_decimal(depth as u128).as_str()));
    assert(text::views(r@) == search(fen@, text::views(moves@), depth as nat));
    r
}

/// The move in the answer to a search, or the error for an answer without one.
pub open spec fn move_in(answer: Seq<char>) -> Result<Seq<char>, ErrorView> {
    let words = text::words(answer);
    if words.len() > 1 && words[1] != "(none)"@ {
        Ok(words[1])
    } else {
        Err(
            ErrorView {
                kind: ErrorKind::Other,
                message: "engine answered `"@ + text::trimmed(answer) + "`"@,
            },
        )
    }
}

/// Reads the move in the answer to a search.
pub fn best_move(answer: &str) -> (r: Result<String, Error>)
    ensures
        match r {
            Ok(played) => move_in(answer@) == Ok::<Seq<char>, ErrorView>(played@),
            Err(e) => move_in(answer@) == Err::<Seq<char>, ErrorView>(e@),
        },
{
    let words = text::split_words(answer);
    assert(text::views(words@).len() == words@.len());
    if words.len() > 1 && !text::same(words[1].as_str(), "(none)") {
        Ok(words[1].clone())
    } else {
        Err(
            Error {
                kind: ErrorKind::Other,
                message: "engine answered `".to_owned().concat(text::trim(answer)).concat("`"),
            },
        )
    }
}

/// Whether a line of the engine gives the score of a side that has been mated.
pub open spec fn scores_mate(line: Seq<char>) -> bool {
    text::holds(line, "score mate 0"@)
}

/// Whether the answer to a search says that there is no move.
pub open spec fn has_no_move(answer: Seq<char>) -> bool {
    text::holds(answer, "(none)"@)
}

/// What comes of the options that are to be set: the commands that set them, the names of
/// those that are left out, and the message about the first that the user demanded and the
/// engine does not support. No option behind that one is considered.
#[verifier::ext_equal]
pub struct PlanView {
    pub commands: Seq<Seq<char>>,
    pub skipped: Seq<Seq<char>>,
    pub refusal: Option<Seq<char>>,
}

/// The command that sets an option.
pub open spec fn setting(option: OptionView) -> Seq<char> {
    "setoption name "@ + option.name + " value "@ + option.value
}

/// The message about an option that the user demanded and the engine does not support.
pub open spec fn unsupported(name: Seq<char>) -> Seq<char> {
    "engine does not support option `"@ + name + "`"@
}

/// What comes of `options` in an engine that has announced the options `announced`.
pub open spec fn plan(announced: Seq<Seq<char>>, options: Seq<OptionView>) -> PlanView
    decreases options.len(),
{
    if options.len() == 0 {
        PlanView { commands: seq![], skipped: seq![], refusal: None }
    } else {
        let option = options[0];
        let rest = plan(announced, options.drop_first());
        if announced.contains(option.name) {
            PlanView { commands: seq![setting(option)] + rest.commands, ..rest }
        } else if option.demanded {
            PlanView { commands: seq![], skipped: seq![], refusal: Some(unsupported(option.name)) }
        } else {
            PlanView { skipped: seq![option.name] + rest.skipped, ..rest }
        }
    }
}

/// What comes of the options that are to be set.
pub struct Plan {
    pub commands: Vec<String>,
    pub skipped: Vec<String>,
    pub refusal: Option<String>,
}

impl View for Plan {
    type V = PlanView;

    open spec fn view(&self) -> PlanView {
        PlanView {
            commands: text::views(self.commands@),
            skipped: text::views(self.skipped@),
            refusal: text::view_of(self.refusal),
        }
    }
}

/// Decides what comes of `options` in an engine that has announced the options
/// `announced`.
pub fn set_options(announced: &[String], options: &[EngineOption]) -> (r: Plan)
    ensures
        r@ == plan(text::views(announced@), settings::option_views(options@)),
{
    let ghost known = text::views(announced@);
    let ghost all = settings::option_views(options@);
    let mut commands: Vec<String> = Vec::new();
    let mut skipped: Vec<String> = Vec::new();
    let mut i: usize = 0;
    assert(all.skip(0) == all);
    assert(plan(known, all) == (PlanView {
        commands: text::views(commands@) + plan(known, all).commands,
        skipped: text::views(skipped@) + plan(known, all).skipped,
        ..plan(known, all)
    }));
    while i < options.len()
        invariant
            known == text::views(announced@),
            all == settings::option_views(options@),
            i <= options@.len(),
            plan(known, all) == (PlanView {
                commands: text::views(commands@) + plan(known, all.skip(i as int)).commands,
                skipped: text::views(skipped@) + plan(known, all.skip(i as int)).skipped,
                ..plan(known, all.skip(i as int))
            }),
        decreases options@.len() - i,
    {
        let option = &options[i];
        let ghost rest = all.skip(i as int);
        let ghost commands_before = text::views(commands@);
        let ghost skipped_before = text::views(skipped@);
        assert(rest[0] == option@);
        assert(rest.drop_first() == all.skip(i + 1));
        if text::is_among(option.name.as_str(), announced) {
            let command = "setoption name ".to_owned().concat(option.name.as_str()).concat(
                " value ",
            ).concat(option.value.as_str());
            commands.push(command);
            proof {
                let tail = plan(known, all.skip(i + 1));
                assert(text::views(commands@) == commands_before.push(setting(option@)));
                assert(text::views(commands@) + tail.commands == commands_before + (seq![
                    setting(option@),
                ] + tail.commands));
            }
        } else if option.demanded {
            let refusal = "engine does not support option `".to_owned().concat(
                option.name.as_str(),
            ).concat("`");
            proof {
                let none: Seq<Seq<char>> = seq![];
                assert(commands_before + none == commands_before);
                assert(skipped_before + none == skipped_before);
            }
            return Plan { commands, skipped, refusal: Some(refusal) };
        } else {
            skipped.push(option.name.clone());
            proof {
                let tail = plan(known, all.skip(i + 1));
                assert(text::views(skipped@) == skipped_before.push(option.name@));
                assert(text::views(skipped@) + tail.skipped == skipped_before + (seq![option.name@]
                    + tail.skipped));
            }
        }
        i = i + 1;
    }
    proof {
        let none: Seq<Seq<char>> = seq![];
        assert(text::views(commands@) + none == text::views(commands@));
        assert(text::views(skipped@) + none == text::views(skipped@));
    }
    Plan { commands, skipped, refusal: None }
}

} // verus!
