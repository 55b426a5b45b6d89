//! What each flag of the command line does, told by what it is given.

use crate::error::{Error, ErrorKind};
use crate::laws::settings::{
    gives, law_flags_are_followed_in_order, lemma_changed_by_flags, lemma_option_index,
};
use crate::laws::text::{
    ends_bare, is_blank, is_led_by, lemma_blank_has_no_words, lemma_led_by, lemma_parted_at,
    lemma_trimmed, lemma_views, lemma_words_lead, starts_bare,
};
use crate::number;
use crate::settings;
use crate::settings::{EngineOption, OptionView, Settings, SettingsView, USAGE};
use crate::text;
use vstd::prelude::*;

verus! {

/// The settings before any flag: a depth of 16 plies, 100 puzzles, none of them skipped, as many
/// workers as there are cores, a hash of 16 megabytes, which the user has not demanded, and no
/// failed puzzles shown.
pub proof fn law_defaults(cores: usize, r: Settings)
    requires
        call_ensures(Settings::default, (cores,), r),
    ensures
        r.engine@.len() == 0,
        r.database_path@ == "data/lichess_db_puzzle.csv"@,
        r.search_depth == 16,
        r.puzzle_count == 100,
        r.skip_count == 0,
        r.workers == cores,
        r.engine_options@.len() == 1,
        r.engine_options@[0].name@ == "Hash"@,
        r.engine_options@[0].value@ == "16"@,
        !r.engine_options@[0].demanded,
        !r.show_failed,
{
    let options = settings::option_views(r.engine_options@);
    assert(options == settings::defaults(cores as nat).engine_options);
    assert(options.len() == r.engine_options@.len());
    assert(options[0] == r.engine_options@[0]@);
    reveal_strlit("16");
    reveal_with_fuel(number::decimal, 2);
    assert(number::decimal(16) == "16"@);
}

/// The options once `value` has been demanded for `name`: in the place of the first option of
/// that name, or behind all others where there is none, and the others as they were.
pub open spec fn is_demanded(
    options: Seq<OptionView>,
    now: Seq<OptionView>,
    name: Seq<char>,
    value: Seq<char>,
) -> bool {
    let demanded = OptionView { name, value, demanded: true };
    ||| exists|i: int|
        {
            &&& 0 <= i < options.len()
            &&& (#[trigger] options[i]).name == name
            &&& now == options.update(i, demanded)
            &&& forall|j: int| 0 <= j < i ==> (#[trigger] options[j]).name != name
        }
    ||| now == options.push(demanded) && forall|j: int|
        0 <= j < options.len() ==> (#[trigger] options[j]).name != name
}

/// Demanding a value for an option changes that option and nothing else.
pub proof fn lemma_demanded(options: Seq<OptionView>, name: Seq<char>, value: Seq<char>)
    ensures
        is_demanded(options, settings::with_option(options, name, value), name, value),
{
    lemma_option_index(options, name);
    let i = settings::option_index(options, name) as int;
    if i < options.len() {
        assert(options[i].name == name);
    }
}

/// `set_option` demands a value for an option and leaves all else as it was.
pub proof fn law_set_option_demands_a_value(s: &mut Settings, name: &str, value: &str)
    requires
        call_ensures(Settings::set_option, (s, name, value), ()),
    ensures
        is_demanded(
            settings::option_views(old(s).engine_options@),
            settings::option_views(final(s).engine_options@),
            name@,
            value@,
        ),
        final(s).engine@ == old(s).engine@,
        final(s).database_path@ == old(s).database_path@,
        final(s).search_depth == old(s).search_depth,
        final(s).puzzle_count == old(s).puzzle_count,
        final(s).skip_count == old(s).skip_count,
        final(s).workers == old(s).workers,
        final(s).show_failed == old(s).show_failed,
{
    lemma_demanded(settings::option_views(old(s).engine_options@), name@, value@);
}

/// What is read of the options is what they hold.
pub proof fn law_options_are_seen_as_they_are(options: Seq<EngineOption>, i: int)
    requires
        0 <= i < options.len(),
    ensures
        settings::option_views(options).len() == options.len(),
        settings::option_views(options)[i].name == options[i].name@,
        settings::option_views(options)[i].value == options[i].value@,
        settings::option_views(options)[i].demanded == options[i].demanded,
{
}

/// The flags are spelt differently.
proof fn lemma_spelling()
    ensures
        "--engine"@ != "--database"@,
        "--engine"@ != "--depth"@,
        "--engine"@ != "--count"@,
        "--engine"@ != "--skip"@,
        "--engine"@ != "--workers"@,
        "--engine"@ != "--hash"@,
        "--engine"@ != "--option"@,
        "--engine"@ != "--show-failed"@,
        "--database"@ != "--depth"@,
        "--database"@ != "--count"@,
        "--database"@ != "--skip"@,
        "--database"@ != "--workers"@,
        "--database"@ != "--hash"@,
        "--database"@ != "--option"@,
        "--database"@ != "--show-failed"@,
        "--depth"@ != "--count"@,
        "--depth"@ != "--skip"@,
        "--depth"@ != "--workers"@,
        "--depth"@ != "--hash"@,
        "--depth"@ != "--option"@,
        "--depth"@ != "--show-failed"@,
        "--count"@ != "--skip"@,
        "--count"@ != "--workers"@,
        "--count"@ != "--hash"@,
        "--count"@ != "--option"@,
        "--count"@ != "--show-failed"@,
        "--skip"@ != "--workers"@,
        "--skip"@ != "--hash"@,
        "--skip"@ != "--option"@,
        "--skip"@ != "--show-failed"@,
        "--workers"@ != "--hash"@,
        "--workers"@ != "--option"@,
        "--workers"@ != "--show-failed"@,
        "--hash"@ != "--option"@,
        "--hash"@ != "--show-failed"@,
        "--option"@ != "--show-failed"@,
{
    reveal_strlit("--show-failed");
    reveal_strlit("--engine");
    reveal_strlit("--database");
    reveal_strlit("--depth");
    reveal_strlit("--count");
    reveal_strlit("--skip");
    reveal_strlit("--workers");
    reveal_strlit("--hash");
    reveal_strlit("--option");
    assert("--engine"@[2] == 'e');
    assert("--database"@[2] == 'd');
    assert("--database"@[3] == 'a');
    assert("--depth"@[2] == 'd');
    assert("--depth"@[3] == 'e');
    assert("--count"@[2] == 'c');
    assert("--skip"@[2] == 's');
    assert("--skip"@[3] == 'k');
    assert("--workers"@[2] == 'w');
    assert("--hash"@[2] == 'h');
    assert("--option"@[2] == 'o');
    assert("--show-failed"@[2] == 's');
    assert("--show-failed"@[3] == 'h');
}

/// The settings, or the message of the error.
pub open spec fn outcome(r: Result<Settings, Error>) -> Result<SettingsView, Seq<char>> {
    match r {
        Ok(s) => Ok(s@),
        Err(e) => Err(e.message@),
    }
}

/// The command line is refused as the user's mistake, with a message above the usage line.
pub open spec fn is_refused(r: Result<Settings, Error>, message: Seq<char>) -> bool {
    r matches Err(e) && e.kind == ErrorKind::InvalidInput && e.message@ == message + "\n"@ + USAGE@
}

/// What comes of one more flag and its value behind a command line that is accepted.
proof fn lemma_one_more(
    before: &[String],
    cores: usize,
    s: Settings,
    arguments: &[String],
    flag: String,
    value: String,
    r: Result<Settings, Error>,
)
    requires
        call_ensures(settings::parse_settings, (before, cores), Ok(s)),
        call_ensures(settings::parse_settings, (arguments, cores), r),
        arguments@ == before@.push(flag).push(value),
        settings::takes_value(flag@),
    ensures
        match settings::value_followed(s@, flag@, value@) {
            Ok(t) => t.engine.len() > 0 ==> r is Ok && r->Ok_0@ == t,
            Err(message) => is_refused(r, message),
        },
        s.engine@.len() > 0,
{
    lemma_spelling();
    let first = text::views(before@);
    let last = seq![flag@, value@];
    let start = settings::defaults(cores as nat);
    lemma_views(before@);
    lemma_views(arguments@);
    assert(text::views(arguments@) == first + last);
    law_flags_are_followed_in_order(start, first, last);
    let none = last.skip(2);
    assert(none.len() == 0);
    if let Ok(t) = settings::value_followed(s@, flag@, value@) {
        assert(settings::flags_followed(t, none) == Ok::<SettingsView, Seq<char>>(t));
    }
}

/// `--database` sets the path of the database to its value, whatever it is, and nothing else.
pub proof fn law_database_sets_the_path(
    before: &[String],
    cores: usize,
    s: Settings,
    arguments: &[String],
    flag: String,
    value: String,
    r: Result<Settings, Error>,
)
    requires
        call_ensures(settings::parse_settings, (before, cores), Ok(s)),
        call_ensures(settings::parse_settings, (arguments, cores), r),
        arguments@ == before@.push(flag).push(value),
        flag@ == "--database"@,
    ensures
        r is Ok,
        r->Ok_0.database_path@ == value@,
        r->Ok_0@ == (SettingsView { database_path: value@, ..s@ }),
{
    lemma_spelling();
    lemma_one_more(before, cores, s, arguments, flag, value, r);
}

/// `--engine` sets the command of the engine to its value, and nothing else; a value of white
/// space alone is refused.
pub proof fn law_engine_sets_the_command(
    before: &[String],
    cores: usize,
    s: Settings,
    arguments: &[String],
    flag: String,
    value: String,
    r: Result<Settings, Error>,
)
    requires
        call_ensures(settings::parse_settings, (before, cores), Ok(s)),
        call_ensures(settings::parse_settings, (arguments, cores), r),
        arguments@ == before@.push(flag).push(value),
        flag@ == "--engine"@,
    ensures
        is_blank(value@) ==> is_refused(r, "--engine needs a command"@),
        !is_blank(value@) ==> {
            &&& r is Ok
            &&& r->Ok_0.engine@ == value@
            &&& r->Ok_0@ == (SettingsView { engine: value@, ..s@ })
        },
{
    lemma_spelling();
    lemma_one_more(before, cores, s, arguments, flag, value, r);
    lemma_blank_or_words(value@);
    assert("--engine"@ + " needs a command"@ == "--engine needs a command"@) by {
        reveal_strlit("--engine");
        reveal_strlit(" needs a command");
        reveal_strlit("--engine needs a command");
    }
}

proof fn lemma_blank_or_words(value: Seq<char>)
    ensures
        is_blank(value) <==> text::words(value).len() == 0,
        !is_blank(value) ==> value.len() > 0,
{
    if is_blank(value) {
        lemma_blank_has_no_words(value);
    } else {
        lemma_words_lead(value);
        let (b, w, t) = choose|b: Seq<char>, w: Seq<char>, t: Seq<char>|
            is_led_by(value, b, w, t);
        lemma_led_by(value, b, w, t);
    }
}

/// A flag that takes a number sets its setting to the number that is written, and nothing else.
/// A number out of bounds is refused, and so is whatever is no number.
pub proof fn law_a_number_is_set_as_written(
    before: &[String],
    cores: usize,
    s: Settings,
    arguments: &[String],
    flag: String,
    value: String,
    r: Result<Settings, Error>,
    written: &str,
    number: Option<u64>,
)
    requires
        call_ensures(settings::parse_settings, (before, cores), Ok(s)),
        call_ensures(settings::parse_settings, (arguments, cores), r),
        arguments@ == before@.push(flag).push(value),
        written@ == value@,
        call_ensures(number::read_decimal, (written, u64::MAX), number),
        flag@ == "--depth"@ || flag@ == "--count"@ || flag@ == "--skip"@ || flag@ == "--workers"@
            || flag@ == "--hash"@,
    ensures
        number is None ==> is_refused(r, flag@ + " needs a number, not `"@ + value@ + "`"@),
        number matches Some(n) ==> {
            &&& flag@ == "--depth"@ ==> if 1 <= n <= 255 {
                &&& r is Ok
                &&& r->Ok_0.search_depth == n
                &&& r->Ok_0@ == (SettingsView { search_depth: n as nat, ..s@ })
            } else {
                is_refused(r, "--depth needs a depth between 1 and 255 plies"@)
            }
            &&& flag@ == "--count"@ ==> if 1 <= n <= usize::MAX {
                &&& r is Ok
                &&& r->Ok_0.puzzle_count == n
                &&& r->Ok_0@ == (SettingsView { puzzle_count: n as nat, ..s@ })
            } else {
                is_refused(r, "--count needs at least one puzzle"@)
            }
            &&& flag@ == "--skip"@ ==> if n <= usize::MAX {
                &&& r is Ok
                &&& r->Ok_0.skip_count == n
                &&& r->Ok_0@ == (SettingsView { skip_count: n as nat, ..s@ })
            } else {
                is_refused(r, "--skip needs a number of puzzles"@)
            }
            &&& flag@ == "--workers"@ ==> if 1 <= n <= usize::MAX {
                &&& r is Ok
                &&& r->Ok_0.workers == n
                &&& r->Ok_0@ == (SettingsView { workers: n as nat, ..s@ })
            } else {
                is_refused(r, "--workers needs at least one engine"@)
            }
            &&& flag@ == "--hash"@ && !(1 <= n <= usize::MAX) ==> is_refused(
                r,
                "--hash needs at least one megabyte"@,
            )
        },
{
    lemma_spelling();
    lemma_one_more(before, cores, s, arguments, flag, value, r);
    lemma_expectations();
}

/// What is said of numbers out of bounds.
proof fn lemma_expectations()
    ensures
        "--depth"@ + " needs "@ + "a depth between 1 and 255 plies"@
            == "--depth needs a depth between 1 and 255 plies"@,
        "--count"@ + " needs "@ + "at least one puzzle"@ == "--count needs at least one puzzle"@,
        "--skip"@ + " needs "@ + "a number of puzzles"@ == "--skip needs a number of puzzles"@,
        "--workers"@ + " needs "@ + "at least one engine"@
            == "--workers needs at least one engine"@,
        "--hash"@ + " needs "@ + "at least one megabyte"@ == "--hash needs at least one megabyte"@,
{
    reveal_strlit(" needs ");
    assert("--depth"@ + " needs "@ + "a depth between 1 and 255 plies"@
        == "--depth needs a depth between 1 and 255 plies"@) by {
        reveal_strlit("--depth");
        reveal_strlit("a depth between 1 and 255 plies");
        reveal_strlit("--depth needs a depth between 1 and 255 plies");
    }
    assert("--count"@ + " needs "@ + "at least one puzzle"@ == "--count needs at least one puzzle"@)
        by {
        reveal_strlit("--count");
        reveal_strlit("at least one puzzle");
        reveal_strlit("--count needs at least one puzzle");
    }
    assert("--skip"@ + " needs "@ + "a number of puzzles"@ == "--skip needs a number of puzzles"@)
        by {
        reveal_strlit("--skip");
        reveal_strlit("a number of puzzles");
        reveal_strlit("--skip needs a number of puzzles");
    }
    assert("--workers"@ + " needs "@ + "at least one engine"@
        == "--workers needs at least one engine"@) by {
        reveal_strlit("--workers");
        reveal_strlit("at least one engine");
        reveal_strlit("--workers needs at least one engine");
    }
    assert("--hash"@ + " needs "@ + "at least one megabyte"@
        == "--hash needs at least one megabyte"@) by {
        reveal_strlit("--hash");
        reveal_strlit("at least one megabyte");
        reveal_strlit("--hash needs at least one megabyte");
    }
}

/// `--hash` demands the number of megabytes, in plain decimal notation, for the option `Hash`,
/// and changes nothing else.
pub proof fn law_hash_demands_the_megabytes(
    before: &[String],
    cores: usize,
    s: Settings,
    arguments: &[String],
    flag: String,
    value: String,
    r: Result<Settings, Error>,
    written: &str,
    number: u64,
    plain: String,
)
    requires
        call_ensures(settings::parse_settings, (before, cores), Ok(s)),
        call_ensures(settings::parse_settings, (arguments, cores), r),
        arguments@ == before@.push(flag).push(value),
        written@ == value@,
        call_ensures(number::read_decimal, (written, u64::MAX), Some(number)),
        1 <= number <= usize::MAX,
        call_ensures(number::write_decimal, (number as u128,), plain),
        flag@ == "--hash"@,
    ensures
        r is Ok,
        is_demanded(
            settings::option_views(s.engine_options@),
            settings::option_views(r->Ok_0.engine_options@),
            "Hash"@,
            plain@,
        ),
        r->Ok_0@ == (SettingsView { engine_options: r->Ok_0@.engine_options, ..s@ }),
{
    lemma_spelling();
    lemma_one_more(before, cores, s, arguments, flag, value, r);
    lemma_demanded(s@.engine_options, "Hash"@, plain@);
}

/// `--option NAME=VALUE` demands the value, all that stands behind the first equals sign, for the
/// name, without the white space around it, and changes nothing else. A value without an equals
/// sign or without a name is refused.
pub proof fn law_option_demands_a_value(
    before: &[String],
    cores: usize,
    s: Settings,
    arguments: &[String],
    flag: String,
    value: String,
    r: Result<Settings, Error>,
    front: Seq<char>,
    name: Seq<char>,
    back: Seq<char>,
    setting: Seq<char>,
)
    requires
        call_ensures(settings::parse_settings, (before, cores), Ok(s)),
        call_ensures(settings::parse_settings, (arguments, cores), r),
        arguments@ == before@.push(flag).push(value),
        flag@ == "--option"@,
        is_blank(front),
        is_blank(back),
        starts_bare(name),
        ends_bare(name),
        !(front + name + back).contains('='),
    ensures
        value@ == front + name + back + seq!['='] + setting ==> if name.len() > 0 {
            &&& r is Ok
            &&& is_demanded(
                settings::option_views(s.engine_options@),
                settings::option_views(r->Ok_0.engine_options@),
                name,
                setting,
            )
            &&& r->Ok_0@ == (SettingsView { engine_options: r->Ok_0@.engine_options, ..s@ })
        } else {
            is_refused(r, "--option needs NAME=VALUE, not `"@ + value@ + "`"@)
        },
        !value@.contains('=') ==> is_refused(
            r,
            "--option needs NAME=VALUE, not `"@ + value@ + "`"@,
        ),
{
    lemma_spelling();
    lemma_one_more(before, cores, s, arguments, flag, value, r);
    assert("--option"@ + " needs NAME=VALUE, not `"@ == "--option needs NAME=VALUE, not `"@) by {
        reveal_strlit("--option");
        reveal_strlit(" needs NAME=VALUE, not `");
        reveal_strlit("--option needs NAME=VALUE, not `");
    }
    lemma_parted_at(value@, '=');
    if value@ == front + name + back + seq!['='] + setting {
        text::lemma_parted(front + name + back, '=', setting);
        lemma_trimmed(front, name, back);
        lemma_demanded(s@.engine_options, name, setting);
    }
    if !value@.contains('=') {
        if let Some((a, b)) = text::parted(value@, '=') {
            assert((a + seq!['='] + b)[a.len() as int] == '=');
        }
    }
}

/// `--show-failed` has failed puzzles shown, and changes nothing else.
pub proof fn law_show_failed_shows_failed_puzzles(
    before: &[String],
    cores: usize,
    s: Settings,
    arguments: &[String],
    flag: String,
    r: Result<Settings, Error>,
)
    requires
        call_ensures(settings::parse_settings, (before, cores), Ok(s)),
        call_ensures(settings::parse_settings, (arguments, cores), r),
        arguments@ == before@.push(flag),
        flag@ == "--show-failed"@,
    ensures
        r is Ok,
        r->Ok_0.show_failed,
        r->Ok_0@ == (SettingsView { show_failed: true, ..s@ }),
{
    let first = text::views(before@);
    let last = seq![flag@];
    let start = settings::defaults(cores as nat);
    lemma_views(before@);
    lemma_views(arguments@);
    assert(text::views(arguments@) == first + last);
    law_flags_are_followed_in_order(start, first, last);
    let none = last.skip(1);
    let t = SettingsView { show_failed: true, ..s@ };
    assert(none.len() == 0);
    assert(settings::flags_followed(t, none) == Ok::<SettingsView, Seq<char>>(t));
}

/// The flags that stand before a value.
pub open spec fn is_flag_with_value(flag: Seq<char>) -> bool {
    ||| flag == "--engine"@
    ||| flag == "--database"@
    ||| flag == "--depth"@
    ||| flag == "--count"@
    ||| flag == "--skip"@
    ||| flag == "--workers"@
    ||| flag == "--hash"@
    ||| flag == "--option"@
}

/// A flag that needs a value and is the last argument is refused, and so is every other text
/// that stands where a flag is looked for, whatever stands behind it.
pub proof fn law_other_flags_are_refused(
    before: &[String],
    cores: usize,
    s: Settings,
    arguments: &[String],
    flag: String,
    behind: Seq<String>,
    r: Result<Settings, Error>,
)
    requires
        call_ensures(settings::parse_settings, (before, cores), Ok(s)),
        call_ensures(settings::parse_settings, (arguments, cores), r),
        arguments@ == before@.push(flag) + behind,
        flag@ != "--show-failed"@,
    ensures
        is_flag_with_value(flag@) && behind.len() == 0 ==> is_refused(r, flag@ + " needs a value"@),
        !is_flag_with_value(flag@) ==> is_refused(r, "unknown flag `"@ + flag@ + "`"@),
{
    let first = text::views(before@);
    let last = seq![flag@] + text::views(behind);
    let start = settings::defaults(cores as nat);
    lemma_views(before@);
    lemma_views(behind);
    lemma_views(arguments@);
    assert(text::views(arguments@) == first + last);
    law_flags_are_followed_in_order(start, first, last);
    assert(last[0] == flag@);
}

/// With an engine alone, the command line is accepted, and all but the engine is as it is
/// without any flag.
pub proof fn law_an_engine_is_enough(
    cores: usize,
    start: Settings,
    arguments: &[String],
    flag: String,
    engine: String,
    r: Result<Settings, Error>,
)
    requires
        call_ensures(Settings::default, (cores,), start),
        call_ensures(settings::parse_settings, (arguments, cores), r),
        arguments@ == seq![flag, engine],
        flag@ == "--engine"@,
        !is_blank(engine@),
    ensures
        r is Ok,
        r->Ok_0.engine@ == engine@,
        r->Ok_0@ == (SettingsView { engine: engine@, ..start@ }),
{
    lemma_spelling();
    lemma_blank_or_words(engine@);
    let given = text::views(arguments@);
    lemma_views(arguments@);
    assert(given[0] == arguments@[0]@ && given[1] == arguments@[1]@);
    let none = given.skip(2);
    let t = SettingsView { engine: engine@, ..start@ };
    assert(none.len() == 0);
    assert(settings::flags_followed(t, none) == Ok::<SettingsView, Seq<char>>(t));
}

/// The order of a flag with its value and the others does not matter to it: behind any flags
/// that can be followed, from any settings on, `--database` sets the path and `--engine` the
/// command, a number is set as written, and an option is demanded.
pub proof fn law_flags_do_the_same_from_any_settings_on(
    s: SettingsView,
    name: Seq<char>,
    value: Seq<char>,
    n: nat,
)
    ensures
        settings::flags_followed(s, seq!["--database"@, value]) == Ok::<SettingsView, Seq<char>>(
            SettingsView { database_path: value, ..s },
        ),
        !is_blank(value) ==> settings::flags_followed(s, seq!["--engine"@, value]) == Ok::<
            SettingsView,
            Seq<char>,
        >(SettingsView { engine: value, ..s }),
        settings::flags_followed(s, seq!["--show-failed"@]) == Ok::<SettingsView, Seq<char>>(
            SettingsView { show_failed: true, ..s },
        ),
        number::number_in(value, u64::MAX as nat) == Some(n) ==> {
            &&& 1 <= n <= 255 ==> settings::flags_followed(s, seq!["--depth"@, value]) == Ok::<
                SettingsView,
                Seq<char>,
            >(SettingsView { search_depth: n, ..s })
            &&& 1 <= n <= usize::MAX ==> settings::flags_followed(s, seq!["--count"@, value])
                == Ok::<SettingsView, Seq<char>>(SettingsView { puzzle_count: n, ..s })
            &&& n <= usize::MAX ==> settings::flags_followed(s, seq!["--skip"@, value]) == Ok::<
                SettingsView,
                Seq<char>,
            >(SettingsView { skip_count: n, ..s })
            &&& 1 <= n <= usize::MAX ==> settings::flags_followed(s, seq!["--workers"@, value])
                == Ok::<SettingsView, Seq<char>>(SettingsView { workers: n, ..s })
            &&& 1 <= n <= usize::MAX ==> (settings::flags_followed(s, seq!["--hash"@, value])
                matches Ok(t) && is_demanded(
                s.engine_options,
                t.engine_options,
                "Hash"@,
                number::decimal(n),
            ) && t == (SettingsView { engine_options: t.engine_options, ..s }))
        },
        name.len() > 0 && starts_bare(name) && ends_bare(name) && !name.contains('=') ==> (
        settings::flags_followed(s, seq!["--option"@, name + seq!['='] + value]) matches Ok(t)
            && is_demanded(s.engine_options, t.engine_options, name, value) && t == (SettingsView {
            engine_options: t.engine_options,
            ..s
        })),
{
    lemma_spelling();
    lemma_blank_or_words(value);
    lemma_demanded(s.engine_options, "Hash"@, number::decimal(n));
    lemma_demanded(s.engine_options, name, value);
    if !name.contains('=') {
        text::lemma_parted(name, '=', value);
    }
    if starts_bare(name) && ends_bare(name) {
        text::lemma_nothing_to_trim(name);
    }
    assert(seq!["--option"@, name + seq!['='] + value].skip(2).len() == 0);
    assert(seq!["--database"@, value].skip(2).len() == 0);
    assert(seq!["--engine"@, value].skip(2).len() == 0);
    assert(seq!["--show-failed"@].skip(1).len() == 0);
    assert(seq!["--depth"@, value].skip(2).len() == 0);
    assert(seq!["--count"@, value].skip(2).len() == 0);
    assert(seq!["--skip"@, value].skip(2).len() == 0);
    assert(seq!["--workers"@, value].skip(2).len() == 0);
    assert(seq!["--hash"@, value].skip(2).len() == 0);
    reveal_with_fuel(settings::flags_followed, 2);
}

/// Whatever cannot be followed is refused from any settings on, with a message above the usage
/// line, whatever stands behind it.
pub proof fn law_flags_are_refused_from_any_settings_on(
    s: SettingsView,
    flag: Seq<char>,
    value: Seq<char>,
    behind: Seq<Seq<char>>,
)
    requires
        flag != "--show-failed"@,
    ensures
        !is_flag_with_value(flag) ==> refuses(
            settings::flags_followed(s, seq![flag] + behind),
            "unknown flag `"@ + flag + "`"@,
        ),
        is_flag_with_value(flag) ==> refuses(
            settings::flags_followed(s, seq![flag]),
            flag + " needs a value"@,
        ),
        flag == "--engine"@ && is_blank(value) ==> refuses(
            settings::flags_followed(s, seq![flag, value] + behind),
            "--engine needs a command"@,
        ),
        flag == "--option"@ && !value.contains('=') ==> refuses(
            settings::flags_followed(s, seq![flag, value] + behind),
            "--option needs NAME=VALUE, not `"@ + value + "`"@,
        ),
        number::number_in(value, u64::MAX as nat) is None && (flag == "--depth"@ || flag
            == "--count"@ || flag == "--skip"@ || flag == "--workers"@ || flag == "--hash"@)
            ==> refuses(
            settings::flags_followed(s, seq![flag, value] + behind),
            flag + " needs a number, not `"@ + value + "`"@,
        ),
        number::number_in(value, u64::MAX as nat) matches Some(n) ==> {
            &&& flag == "--depth"@ && !(1 <= n <= 255) ==> refuses(
                settings::flags_followed(s, seq![flag, value] + behind),
                "--depth needs a depth between 1 and 255 plies"@,
            )
            &&& flag == "--count"@ && !(1 <= n <= usize::MAX) ==> refuses(
                settings::flags_followed(s, seq![flag, value] + behind),
                "--count needs at least one puzzle"@,
            )
            &&& flag == "--skip"@ && !(n <= usize::MAX) ==> refuses(
                settings::flags_followed(s, seq![flag, value] + behind),
                "--skip needs a number of puzzles"@,
            )
            &&& flag == "--workers"@ && !(1 <= n <= usize::MAX) ==> refuses(
                settings::flags_followed(s, seq![flag, value] + behind),
                "--workers needs at least one engine"@,
            )
            &&& flag == "--hash"@ && !(1 <= n <= usize::MAX) ==> refuses(
                settings::flags_followed(s, seq![flag, value] + behind),
                "--hash needs at least one megabyte"@,
            )
        },
{
    lemma_spelling();
    lemma_expectations();
    lemma_blank_or_words(value);
    let alone = seq![flag] + behind;
    let with_value = seq![flag, value] + behind;
    assert(alone[0] == flag);
    assert(with_value[0] == flag && with_value[1] == value);
    assert("--engine"@ + " needs a command"@ == "--engine needs a command"@) by {
        reveal_strlit("--engine");
        reveal_strlit(" needs a command");
        reveal_strlit("--engine needs a command");
    }
    assert("--option"@ + " needs NAME=VALUE, not `"@ == "--option needs NAME=VALUE, not `"@) by {
        reveal_strlit("--option");
        reveal_strlit(" needs NAME=VALUE, not `");
        reveal_strlit("--option needs NAME=VALUE, not `");
    }
    lemma_parted_at(value, '=');
    if !value.contains('=') {
        if let Some((a, b)) = text::parted(value, '=') {
            assert((a + seq!['='] + b)[a.len() as int] == '=');
        }
    }
}

/// Flags are refused with a message above the usage line.
pub open spec fn refuses(r: Result<SettingsView, Seq<char>>, message: Seq<char>) -> bool {
    r == Err::<SettingsView, Seq<char>>(message + "\n"@ + USAGE@)
}

/// The command line is followed from the settings before any flag, and accepted if and only if
/// all flags can be followed and there is an engine among them; where only the engine lacks, it
/// is asked for.
pub proof fn law_the_command_line_is_followed_from_the_defaults(
    cores: usize,
    start: Settings,
    arguments: &[String],
    r: Result<Settings, Error>,
)
    requires
        call_ensures(Settings::default, (cores,), start),
        call_ensures(settings::parse_settings, (arguments, cores), r),
    ensures
        r matches Err(e) ==> e.kind == ErrorKind::InvalidInput,
        match settings::flags_followed(start@, text::views(arguments@)) {
            Err(message) => outcome(r) == Err::<SettingsView, Seq<char>>(message),
            Ok(t) => if gives(text::views(arguments@), "--engine"@) {
                outcome(r) == Ok::<SettingsView, Seq<char>>(t)
            } else {
                is_refused(r, "--engine is required"@)
            },
        },
{
    lemma_changed_by_flags(start@, text::views(arguments@));
    lemma_engine_given(start@, text::views(arguments@));
}

/// Where an engine is given, the settings have one.
proof fn lemma_engine_given(s: SettingsView, arguments: Seq<Seq<char>>)
    ensures
        settings::flags_followed(s, arguments) matches Ok(t) ==> s.engine.len() > 0 || gives(
            arguments,
            "--engine"@,
        ) ==> t.engine.len() > 0,
    decreases arguments.len(),
{
    if arguments.len() > 0 {
        let flag = arguments[0];
        lemma_spelling();
        if flag == "--show-failed"@ {
            lemma_engine_given(SettingsView { show_failed: true, ..s }, arguments.skip(1));
        } else if settings::takes_value(flag) && arguments.len() > 1 {
            lemma_blank_or_words(arguments[1]);
            if let Ok(t) = settings::value_followed(s, flag, arguments[1]) {
                lemma_engine_given(t, arguments.skip(2));
            }
        }
    }
}

/// As many engines are run as workers were asked for, but no more than there are puzzles.
pub proof fn law_no_more_engines_than_puzzles(s: Settings, r: usize)
    requires
        call_ensures(Settings::worker_count, (&s,), r),
    ensures
        r <= s.workers,
        r <= s.puzzle_count,
        r == s.workers || r == s.puzzle_count,
{
}

/// The usage line is asked for if and only if one of the arguments is `--help`.
pub proof fn law_help_is_asked_for_anywhere(arguments: &[String], r: bool)
    requires
        call_ensures(settings::asks_for_help, (arguments,), r),
    ensures
        r <==> exists|i: int| 0 <= i < arguments@.len() && (#[trigger] arguments@[i])@ == "--help"@,
{
    let views = text::views(arguments@);
    lemma_views(arguments@);
    if r {
        let i = choose|i: int| 0 <= i < views.len() && views[i] == "--help"@;
        assert(arguments@[i]@ == "--help"@);
    }
    if exists|i: int| 0 <= i < arguments@.len() && (#[trigger] arguments@[i])@ == "--help"@ {
        let i = choose|i: int|
            0 <= i < arguments@.len() && (#[trigger] arguments@[i])@ == "--help"@;
        assert(views[i] == "--help"@);
    }
}

} // verus!
