//! What the user asks for on the command line.

use crate::error::{Error, ErrorKind};
use crate::number;
use crate::text;
use vstd::prelude::*;

verus! {

pub const DEFAULT_DATABASE_PATH: &'static str = "data/lichess_db_puzzle.csv";

pub const DEFAULT_SEARCH_DEPTH: u8 = 16;

pub const DEFAULT_PUZZLE_COUNT: usize = 100;

pub const DEFAULT_HASH: usize = 16;

pub const USAGE: &'static str = "usage: cps --engine \"COMMAND [ARGUMENTS]\" [--database PATH] [--depth PLIES] [--count NUMBER] [--skip NUMBER] [--workers NUMBER] [--hash MEGABYTES] [--option NAME=VALUE] [--show-failed]";

/// An option to set in the engine. One that the user demanded must be supported by the
/// engine; any other is left out where it is not.
#[derive(Debug, PartialEq)]
pub struct EngineOption {
    pub name: String,
    pub value: String,
    pub demanded: bool,
}

/// An engine option as a mathematical value.
#[verifier::ext_equal]
pub struct OptionView {
    pub name: Seq<char>,
    pub value: Seq<char>,
    pub demanded: bool,
}

impl View for EngineOption {
    type V = OptionView;

    open spec fn view(&self) -> OptionView {
        OptionView { name: self.name@, value: self.value@, demanded: self.demanded }
    }
}

/// The views of the options of a sequence.
pub open spec fn option_views(v: Seq<EngineOption>) -> Seq<OptionView> {
    v.map_values(|o: EngineOption| o@)
}

/// How to test an engine, and on which puzzles.
pub struct Settings {
    pub engine: String,
    pub database_path: String,
    pub search_depth: u8,
    pub puzzle_count: usize,
    pub skip_count: usize,
    pub workers: usize,
    pub engine_options: Vec<EngineOption>,
    pub show_failed: bool,
}

/// Settings as a mathematical value.
#[verifier::ext_equal]
pub struct SettingsView {
    pub engine: Seq<char>,
    pub database_path: Seq<char>,
    pub search_depth: nat,
    pub puzzle_count: nat,
    pub skip_count: nat,
    pub workers: nat,
    pub engine_options: Seq<OptionView>,
    pub show_failed: bool,
}

impl View for Settings {
    type V = SettingsView;

    open spec fn view(&self) -> SettingsView {
        SettingsView {
            engine: self.engine@,
            database_path: self.database_path@,
            search_depth: self.search_depth as nat,
            puzzle_count: self.puzzle_count as nat,
            skip_count: self.skip_count as nat,
            workers: self.workers as nat,
            engine_options: option_views(self.engine_options@),
            show_failed: self.show_failed,
        }
    }
}

/// The settings before any flag, on a machine with `cores` cores.
pub open spec fn defaults(cores: nat) -> SettingsView {
    SettingsView {
        engine: seq![],
        database_path: DEFAULT_DATABASE_PATH@,
        search_depth: DEFAULT_SEARCH_DEPTH as nat,
        puzzle_count: DEFAULT_PUZZLE_COUNT as nat,
        skip_count: 0,
        workers: cores,
        engine_options: seq![
            OptionView {
                name: "Hash"@,
                value: number::decimal(DEFAULT_HASH as nat),
                demanded: false,
            },
        ],
        show_failed: false,
    }
}

/// The index of the first option called `name`; the number of options where there is none.
pub open spec fn option_index(options: Seq<OptionView>, name: Seq<char>) -> nat
    decreases options.len(),
{
    if options.len() == 0 || options[0].name == name {
        0
    } else {
        1 + option_index(options.drop_first(), name)
    }
}

/// The options once the user has demanded `value` for `name`: in the place of the option
/// of that name, or behind all others.
pub open spec fn with_option(
    options: Seq<OptionView>,
    name: Seq<char>,
    value: Seq<char>,
) -> Seq<OptionView> {
    let i = option_index(options, name) as int;
    let demanded = OptionView { name, value, demanded: true };
    if i < options.len() {
        options.update(i, demanded)
    } else {
        options.push(demanded)
    }
}

/// The full message for a command line that cannot be followed.
pub open spec fn refusal(message: Seq<char>) -> Seq<char> {
    message + "\n"@ + USAGE@
}

/// Whether a flag stands before a value.
pub open spec fn takes_value(flag: Seq<char>) -> bool {
    ||| flag == "--engine"@
    ||| flag == "--database"@
    ||| flag == "--depth"@
    ||| flag == "--count"@
    ||| flag == "--skip"@
    ||| flag == "--workers"@
    ||| flag == "--hash"@
    ||| flag == "--option"@
}

/// The number that follows a flag, or what is wrong with it.
pub open spec fn number_asked(
    flag: Seq<char>,
    value: Seq<char>,
    least: nat,
    most: nat,
    expectation: Seq<char>,
) -> Result<nat, Seq<char>> {
    match number::number_in(value, u64::MAX as nat) {
        None => Err(flag + " needs a number, not `"@ + value + "`"@),
        Some(n) => if least <= n <= most {
            Ok(n)
        } else {
            Err(flag + " needs "@ + expectation)
        },
    }
}

/// The settings once a flag and its value have been followed, or what is wrong with the
/// value.
pub open spec fn value_followed(s: SettingsView, flag: Seq<char>, value: Seq<char>) -> Result<
    SettingsView,
    Seq<char>,
> {
    let most = usize::MAX as nat;
    if flag == "--engine"@ {
        if text::words(value).len() == 0 {
            Err(flag + " needs a command"@)
        } else {
            Ok(SettingsView { engine: value, ..s })
        }
    } else if flag == "--database"@ {
        Ok(SettingsView { database_path: value, ..s })
    } else if flag == "--depth"@ {
        match number_asked(flag, value, 1, 255, "a depth between 1 and 255 plies"@) {
            Ok(n) => Ok(SettingsView { search_depth: n, ..s }),
            Err(e) => Err(e),
        }
    } else if flag == "--count"@ {
        match number_asked(flag, value, 1, most, "at least one puzzle"@) {
            Ok(n) => Ok(SettingsView { puzzle_count: n, ..s }),
            Err(e) => Err(e),
        }
    } else if flag == "--skip"@ {
        match number_asked(flag, value, 0, most, "a number of puzzles"@) {
            Ok(n) => Ok(SettingsView { skip_count: n, ..s }),
            Err(e) => Err(e),
        }
    } else if flag == "--workers"@ {
        match number_asked(flag, value, 1, most, "at least one engine"@) {
            Ok(n) => Ok(SettingsView { workers: n, ..s }),
            Err(e) => Err(e),
        }
    } else if flag == "--hash"@ {
        match number_asked(flag, value, 1, most, "at least one megabyte"@) {
            Ok(n) => Ok(
                SettingsView {
                    engine_options: with_option(s.engine_options, "Hash"@, number::decimal(n)),
                    ..s
                },
            ),
            Err(e) => Err(e),
        }
    } else {
        match option_assigned(value) {
            Some((name, setting)) => Ok(
                SettingsView { engine_options: with_option(s.engine_options, name, setting), ..s },
            ),
            None => Err(flag + " needs NAME=VALUE, not `"@ + value + "`"@),
        }
    }
}

/// The name and the value of an option written as `NAME=VALUE`.
pub open spec fn option_assigned(assignment: Seq<char>) -> Option<(Seq<char>, Seq<char>)> {
    match text::parted(assignment, '=') {
        Some((name, value)) => if text::trimmed(name).len() > 0 {
            Some((text::trimmed(name), value))
        } else {
            None
        },
        None => None,
    }
}

/// The settings once all flags have been followed from left to right, or the message about
/// the first that cannot be.
pub open spec fn flags_followed(s: SettingsView, arguments: Seq<Seq<char>>) -> Result<
    SettingsView,
    Seq<char>,
>
    decreases arguments.len(),
{
    if arguments.len() == 0 {
        Ok(s)
    } else {
        let flag = arguments[0];
        if flag == "--show-failed"@ {
            flags_followed(SettingsView { show_failed: true, ..s }, arguments.skip(1))
        } else if !takes_value(flag) {
            Err(refusal("unknown flag `"@ + flag + "`"@))
        } else if arguments.len() == 1 {
            Err(refusal(flag + " needs a value"@))
        } else {
            match value_followed(s, flag, arguments[1]) {
                Ok(t) => flags_followed(t, arguments.skip(2)),
                Err(message) => Err(refusal(message)),
            }
        }
    }
}

/// What the command line asks for on a machine with `cores` cores, or the message about
/// what is wrong with it.
pub open spec fn settings_asked(arguments: Seq<Seq<char>>, cores: nat) -> Result<
    SettingsView,
    Seq<char>,
> {
    match flags_followed(defaults(cores), arguments) {
        Ok(s) => if s.engine.len() == 0 {
            Err(refusal("--engine is required"@))
        } else {
            Ok(s)
        },
        Err(message) => Err(message),
    }
}

impl Settings {
    /// The settings before any flag, on a machine with `cores` cores.
    pub fn default(cores: usize) -> (r: Settings)
        ensures
            r@ == defaults(cores as nat),
    {
        let hash = EngineOption {
            name: "Hash".to_owned(),
            value: number::write_decimal(DEFAULT_HASH as u128),
            demanded: false,
        };
        let mut engine_options: Vec<EngineOption> = Vec::new();
        engine_options.push(hash);
        let r = Settings {
            engine: String::new(),
            database_path: DEFAULT_DATABASE_PATH.to_owned(),
            search_depth: DEFAULT_SEARCH_DEPTH,
            puzzle_count: DEFAULT_PUZZLE_COUNT,
            skip_count: 0,
            workers: cores,
            engine_options,
            show_failed: false,
        };
        assert(r@.engine_options == defaults(cores as nat).engine_options);
        r
    }

    /// Demands `value` for the option called `name`.
    pub fn set_option(&mut self, name: &str, value: &str)
        ensures
            final(self)@ == (SettingsView {
                engine_options: with_option(old(self)@.engine_options, name@, value@),
                ..old(self)@
            }),
    {
        let ghost options = option_views(self.engine_options@);
        let mut i: usize = 0;
        assert(options.skip(0) == options);
        while i < self.engine_options.len() && !text::same(
            self.engine_options[i].name.as_str(),
            name,
        )
            invariant
                *self == *old(self),
                options == option_views(self.engine_options@),
                i <= options.len(),
                i + option_index(options.skip(i as int), name@) == option_index(options, name@),
            decreases options.len() - i,
        {
            assert(options.skip(i as int).drop_first() == options.skip(i + 1));
            i = i + 1;
        }
        let demanded = EngineOption {
            name: name.to_owned(),
            value: value.to_owned(),
            demanded: true,
        };
        if i < self.engine_options.len() {
            self.engine_options.set(i, demanded);
        } else {
            self.engine_options.push(demanded);
        }
        assert(option_views(self.engine_options@) == with_option(options, name@, value@));
    }
}

/// The error for a command line that cannot be followed.
fn invalid(message: String) -> (r: Error)
    ensures
        r.kind == ErrorKind::InvalidInput,
        r.message@ == refusal(message@),
{
    Error { kind: ErrorKind::InvalidInput, message: message.concat("\n").concat(USAGE) }
}

/// Reads the number that follows a flag.
fn number(flag: &str, value: &str, least: u64, most: u64, expectation: &str) -> (r: Result<
    u64,
    String,
>)
    ensures
        match r {
            Ok(n) => n <= most && number_asked(
                flag@,
                value@,
                least as nat,
                most as nat,
                expectation@,
            ) == Ok::<nat, Seq<char>>(n as nat),
            Err(message) => number_asked(flag@, value@, least as nat, most as nat, expectation@)
                == Err::<nat, Seq<char>>(message@),
        },
{
    match number::read_decimal(value, u64::MAX) {
        None => Err(flag.to_owned().concat(" needs a number, not `").concat(value).concat("`")),
        Some(n) => if least <= n && n <= most {
            Ok(n)
        } else {
            Err(flag.to_owned().concat(" needs ").concat(expectation))
        },
    }
}

/// Splits an assignment `NAME=VALUE`.
fn assignment(value: &str) -> (r: Option<(String, String)>)
    ensures
        match r {
            Some((name, setting)) => option_assigned(value@) == Some((name@, setting@)),
            None => option_assigned(value@) is None,
        },
{
    match text::split_once(value, '=') {
        Some((name, setting)) => {
            let name = text::trim(name);
            if !name.is_empty() {
                Some((name.to_owned(), setting.to_owned()))
            } else {
                None
            }
        },
        None => None,
    }
}

/// Tells the flags that stand before a value.
fn needs_value(flag: &str) -> (r: bool)
    ensures
        r == takes_value(flag@),
{
    text::same(flag, "--engine") || text::same(flag, "--database") || text::same(flag, "--depth")
        || text::same(flag, "--count") || text::same(flag, "--skip") || text::same(
        flag,
        "--workers",
    ) || text::same(flag, "--hash") || text::same(flag, "--option")
}

impl Settings {
    /// Follows a flag and its value.
    fn follow(self, flag: &str, value: &str) -> (r: Result<Settings, String>)
        requires
            takes_value(flag@),
        ensures
            match r {
                Ok(s) => value_followed(self@, flag@, value@) == Ok::<SettingsView, Seq<char>>(s@),
                Err(message) => value_followed(self@, flag@, value@) == Err::<
                    SettingsView,
                    Seq<char>,
                >(message@),
            },
    {
        let mut settings = self;
        let most = usize::MAX as u64;
        if text::same(flag, "--engine") {
            if text::first_word(value).is_none() {
                return Err(flag.to_owned().concat(" needs a command"));
            }
            settings.engine = value.to_owned();
        } else if text::same(flag, "--database") {
            settings.database_path = value.to_owned();
        } else if text::same(flag, "--depth") {
            match number(flag, value, 1, 255, "a depth between 1 and 255 plies") {
                Ok(n) => settings.search_depth = n as u8,
                Err(message) => return Err(message),
            }
        } else if text::same(flag, "--count") {
            match number(flag, value, 1, most, "at least one puzzle") {
                Ok(n) => settings.puzzle_count = n as usize,
                Err(message) => return Err(message),
            }
        } else if text::same(flag, "--skip") {
            match number(flag, value, 0, most, "a number of puzzles") {
                Ok(n) => settings.skip_count = n as usize,
                Err(message) => return Err(message),
            }
        } else if text::same(flag, "--workers") {
            match number(flag, value, 1, most, "at least one engine") {
                Ok(n) => settings.workers = n as usize,
                Err(message) => return Err(message),
            }
        } else if text::same(flag, "--hash") {
            match number(flag, value, 1, most, "at least one megabyte") {
                Ok(n) => settings.set_option("Hash", number::write_decimal(n as u128).as_str()),
                Err(message) => return Err(message),
            }
        } else {
            match assignment(value) {
                Some((name, setting)) => settings.set_option(name.as_str(), setting.as_str()),
                None => return Err(
                    flag.to_owned().concat(" needs NAME=VALUE, not `").concat(value).concat("`"),
                ),
            }
        }
        Ok(settings)
    }
}

/// Reads the command line, on a machine with `cores` cores.
pub fn parse_settings(arguments: &[String], cores: usize) -> (r: Result<Settings, Error>)
    ensures
        match r {
            Ok(s) => settings_asked(text::views(arguments@), cores as nat) == Ok::<
                SettingsView,
                Seq<char>,
            >(s@),
            Err(e) => e.kind == ErrorKind::InvalidInput && settings_asked(
                text::views(arguments@),
                cores as nat,
            ) == Err::<SettingsView, Seq<char>>(e.message@),
        },
{
    let ghost given = text::views(arguments@);
    let mut settings = Settings::default(cores);
    let mut i: usize = 0;
    assert(given.skip(0) == given);
    while i < arguments.len()
        invariant
            given == text::views(arguments@),
            i <= arguments@.len(),
            flags_followed(settings@, given.skip(i as int)) == flags_followed(
                defaults(cores as nat),
                given,
            ),
        decreases arguments@.len() - i,
    {
        let ghost rest = given.skip(i as int);
        let flag = arguments[i].as_str();
        assert(rest[0] == flag@);
        if text::same(flag, "--show-failed") {
            assert(rest.skip(1) == given.skip(i + 1));
            settings.show_failed = true;
            i = i + 1;
        } else if !needs_value(flag) {
            return Err(invalid("unknown flag `".to_owned().concat(flag).concat("`")));
        } else if arguments.len() - i == 1 {
            return Err(invalid(flag.to_owned().concat(" needs a value")));
        } else {
            assert(rest[1] == arguments@[i + 1]@);
            assert(rest.skip(2) == given.skip(i + 2));
            match settings.follow(flag, arguments[i + 1].as_str()) {
                Ok(followed) => settings = followed,
                Err(message) => return Err(invalid(message)),
            }
            i = i + 2;
        }
    }
    if settings.engine.as_str().is_empty() {
        return Err(invalid("--engine is required".to_owned()));
    }
    Ok(settings)
}

impl Settings {
    /// The number of engines to run: as many as asked for, but no more than puzzles.
    pub fn worker_count(&self) -> (r: usize)
        ensures
            r == vstd::math::min(self.workers as int, self.puzzle_count as int),
    {
        if self.workers <= self.puzzle_count {
            self.workers
        } else {
            self.puzzle_count
        }
    }
}

/// Whether the command line asks for the usage line, wherever in it and whatever else it
/// holds.
pub fn asks_for_help(arguments: &[String]) -> (r: bool)
    ensures
        r == text::views(arguments@).contains("--help"@),
{
    text::is_among("--help", arguments)
}

} // verus!
