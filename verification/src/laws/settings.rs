//! What holds of the settings, whatever the command line.

use crate::number;
use crate::settings;
use crate::settings::{OptionView, SettingsView};
use crate::text;
use vstd::prelude::*;

verus! {

/// Flags are followed from left to right: once some have been followed, the others are
/// followed as if they were alone, from where the first have led.
pub proof fn law_flags_are_followed_in_order(
    s: SettingsView,
    first: Seq<Seq<char>>,
    second: Seq<Seq<char>>,
)
    requires
        settings::flags_followed(s, first) is Ok,
    ensures
        settings::flags_followed(s, first + second) == settings::flags_followed(
            settings::flags_followed(s, first)->Ok_0,
            second,
        ),
    decreases first.len(),
{
    let all = first + second;
    if first.len() == 0 {
        assert(all == second);
    } else {
        let flag = first[0];
        assert(all[0] == flag);
        if flag == "--show-failed"@ {
            assert(all.skip(1) == first.skip(1) + second);
            law_flags_are_followed_in_order(
                SettingsView { show_failed: true, ..s },
                first.skip(1),
                second,
            );
        } else {
            assert(all[1] == first[1]);
            assert(all.skip(2) == first.skip(2) + second);
            law_flags_are_followed_in_order(
                settings::value_followed(s, flag, first[1])->Ok_0,
                first.skip(2),
                second,
            );
        }
    }
}

/// A flag that is unknown or whose value is refused decides, whatever stands behind it.
pub proof fn law_a_flag_that_cannot_be_followed_decides(
    s: SettingsView,
    first: Seq<Seq<char>>,
    flag: Seq<char>,
    value: Seq<char>,
    behind: Seq<Seq<char>>,
)
    requires
        settings::flags_followed(s, first) is Ok,
        flag != "--show-failed"@,
        !settings::takes_value(flag) || settings::value_followed(
            settings::flags_followed(s, first)->Ok_0,
            flag,
            value,
        ) is Err,
    ensures
        settings::flags_followed(s, first + seq![flag, value]) is Err,
        settings::flags_followed(s, first + seq![flag, value] + behind) == settings::flags_followed(
            s,
            first + seq![flag, value],
        ),
{
    let refused = seq![flag, value];
    law_flags_are_followed_in_order(s, first, refused);
    law_flags_are_followed_in_order(s, first, refused + behind);
    assert(first + refused + behind == first + (refused + behind));
    assert((refused + behind)[0] == flag);
    assert((refused + behind)[1] == value);
}

/// No two options have the same name.
pub open spec fn distinct_names(options: Seq<OptionView>) -> bool {
    forall|i: int, j: int|
        0 <= i < j < options.len() ==> #[trigger] options[i].name != #[trigger] options[j].name
}

/// The index found for a name is that of an option of that name, and no earlier option has
/// it.
pub proof fn lemma_option_index(options: Seq<OptionView>, name: Seq<char>)
    ensures
        settings::option_index(options, name) <= options.len(),
        settings::option_index(options, name) < options.len()
            ==> options[settings::option_index(options, name) as int].name == name,
        forall|i: int|
            0 <= i < settings::option_index(options, name) ==> #[trigger] options[i].name != name,
    decreases options.len(),
{
    if options.len() > 0 && options[0].name != name {
        let rest = options.drop_first();
        lemma_option_index(rest, name);
        assert forall|i: int| 0 <= i < settings::option_index(options, name) implies
            #[trigger] options[i].name != name by {
            if i > 0 {
                assert(options[i] == rest[i - 1]);
            }
        }
    }
}

/// What the options say of a name: the value, and whether it was demanded.
pub open spec fn looked_up(options: Seq<OptionView>, name: Seq<char>) -> Option<OptionView> {
    let i = settings::option_index(options, name) as int;
    if i < options.len() {
        Some(options[i])
    } else {
        None
    }
}

/// The index found is the only one that fits.
proof fn lemma_option_index_is(options: Seq<OptionView>, name: Seq<char>, i: int)
    requires
        0 <= i <= options.len(),
        i < options.len() ==> options[i].name == name,
        forall|j: int| 0 <= j < i ==> #[trigger] options[j].name != name,
    ensures
        settings::option_index(options, name) == i,
{
    lemma_option_index(options, name);
    let k = settings::option_index(options, name) as int;
    if k < i {
        assert(options[k].name != name);
    }
    if i < k {
        assert(options[i].name != name);
    }
}

/// Demanding a value for a name makes the options say that value, demanded, and leaves what
/// they say of every other name.
pub proof fn law_a_demanded_option_is_found(
    options: Seq<OptionView>,
    name: Seq<char>,
    value: Seq<char>,
    other: Seq<char>,
)
    ensures
        looked_up(settings::with_option(options, name, value), name) == Some(
            OptionView { name, value, demanded: true },
        ),
        other != name ==> looked_up(settings::with_option(options, name, value), other)
            == looked_up(options, other),
{
    let after = settings::with_option(options, name, value);
    lemma_option_index(options, name);
    let i = settings::option_index(options, name) as int;
    assert forall|j: int| 0 <= j < i implies #[trigger] after[j].name != name by {
        assert(after[j] == options[j]);
    }
    lemma_option_index_is(after, name, i);
    if other != name {
        lemma_option_index(options, other);
        let k = settings::option_index(options, other) as int;
        let l = if k < options.len() {
            k
        } else {
            after.len() as int
        };
        assert forall|j: int| 0 <= j < l implies #[trigger] after[j].name != other by {
            if j < options.len() && j != i {
                assert(after[j] == options[j]);
            }
        }
        if k < options.len() {
            assert(k != i);
            assert(after[k] == options[k]);
        }
        lemma_option_index_is(after, other, l);
    }
}

/// Of two demands for the same name, only the last leaves a trace.
pub proof fn law_the_last_demand_for_a_name_wins(
    options: Seq<OptionView>,
    name: Seq<char>,
    first: Seq<char>,
    last: Seq<char>,
)
    ensures
        settings::with_option(settings::with_option(options, name, first), name, last)
            == settings::with_option(options, name, last),
{
    let between = settings::with_option(options, name, first);
    lemma_option_index(options, name);
    let i = settings::option_index(options, name) as int;
    assert forall|j: int| 0 <= j < i implies #[trigger] between[j].name != name by {
        assert(between[j] == options[j]);
    }
    lemma_option_index_is(between, name, i);
}

/// Demanding a value for an option replaces it or adds it, and never repeats a name.
pub proof fn law_option_names_stay_distinct(
    options: Seq<OptionView>,
    name: Seq<char>,
    value: Seq<char>,
)
    requires
        distinct_names(options),
    ensures
        distinct_names(settings::with_option(options, name, value)),
{
    let after = settings::with_option(options, name, value);
    lemma_option_index(options, name);
    let k = settings::option_index(options, name) as int;
    assert forall|i: int, j: int| 0 <= i < j < after.len() implies #[trigger] after[i].name
        != #[trigger] after[j].name by {
        if i < options.len() && j < options.len() {
            assert(options[i].name != options[j].name);
        }
        assert(i != k ==> after[i] == options[i]);
        assert(j < options.len() && j != k ==> after[j] == options[j]);
    }
}

/// What holds of all settings that flags can lead to.
pub open spec fn sound(s: SettingsView) -> bool {
    &&& 1 <= s.search_depth <= 255
    &&& 1 <= s.puzzle_count
    &&& 1 <= s.workers
    &&& s.engine.len() > 0 ==> text::words(s.engine).len() > 0
    &&& distinct_names(s.engine_options)
    &&& s.engine_options.len() > 0
    &&& s.engine_options[0].name == "Hash"@
}

proof fn lemma_flags_keep_sound(s: SettingsView, arguments: Seq<Seq<char>>)
    requires
        sound(s),
    ensures
        settings::flags_followed(s, arguments) matches Ok(t) ==> sound(t),
    decreases arguments.len(),
{
    if arguments.len() > 0 {
        let flag = arguments[0];
        if flag == "--show-failed"@ {
            lemma_flags_keep_sound(SettingsView { show_failed: true, ..s }, arguments.skip(1));
        } else if settings::takes_value(flag) && arguments.len() > 1 {
            let value = arguments[1];
            match settings::value_followed(s, flag, value) {
                Ok(t) => {
                    if t.engine_options != s.engine_options {
                        let (name, setting) = if flag == "--hash"@ {
                            (
                                "Hash"@,
                                number::decimal(number::number_in(value, u64::MAX as nat).unwrap()),
                            )
                        } else {
                            settings::option_assigned(value).unwrap()
                        };
                        assert(t.engine_options == settings::with_option(
                            s.engine_options,
                            name,
                            setting,
                        ));
                        law_option_names_stay_distinct(s.engine_options, name, setting);
                        lemma_option_index(s.engine_options, name);
                    }
                    lemma_flags_keep_sound(t, arguments.skip(2));
                },
                Err(_) => {},
            }
        }
    }
}

/// Settings that the command line leads to can be run: there is a command for the engine, a
/// depth between 1 and 255 plies, at least one puzzle and at least one worker. Their options
/// start with the hash size and hold no name twice.
pub proof fn law_settings_can_be_run(arguments: Seq<Seq<char>>, cores: nat)
    requires
        1 <= cores,
    ensures
        settings::settings_asked(arguments, cores) matches Ok(s) ==> {
            &&& sound(s)
            &&& text::words(s.engine).len() > 0
            &&& 1 <= vstd::math::min(s.workers as int, s.puzzle_count as int)
        },
{
    lemma_flags_keep_sound(settings::defaults(cores), arguments);
}

/// Without any flag but the engine, everything is left at its default.
pub proof fn law_defaults_stand_beside_the_engine(engine: Seq<char>, cores: nat)
    requires
        text::words(engine).len() > 0,
    ensures
        settings::settings_asked(seq!["--engine"@, engine], cores) == Ok::<
            SettingsView,
            Seq<char>,
        >(SettingsView { engine, ..settings::defaults(cores) }),
{
    let arguments = seq!["--engine"@, engine];
    let s = SettingsView { engine, ..settings::defaults(cores) };
    reveal_strlit("--engine");
    reveal_strlit("--show-failed");
    assert("--engine"@.len() != "--show-failed"@.len());
    assert(settings::flags_followed(s, arguments.skip(2)) == Ok::<SettingsView, Seq<char>>(s));
    if engine.len() == 0 {
        assert(text::words(engine).len() == 0);
    }
}

/// `--hash MEGABYTES` is short for `--option Hash=MEGABYTES`, for every number of megabytes
/// in plain decimal notation.
pub proof fn law_hash_is_an_option(s: SettingsView, megabytes: nat, rest: Seq<Seq<char>>)
    requires
        1 <= megabytes <= usize::MAX,
    ensures
        settings::flags_followed(s, seq!["--hash"@, number::decimal(megabytes)] + rest)
            == settings::flags_followed(
            s,
            seq!["--option"@, "Hash="@ + number::decimal(megabytes)] + rest,
        ),
{
    let size = number::decimal(megabytes);
    let short = seq!["--hash"@, size] + rest;
    let long = seq!["--option"@, "Hash="@ + size] + rest;
    lemma_flags_differ();
    number::lemma_read_after_write(megabytes, u64::MAX as nat);
    assert("Hash="@ + size == "Hash"@ + seq!['='] + size && !"Hash"@.contains('=')
        && text::trimmed("Hash"@) == "Hash"@ && "Hash"@.len() > 0) by {
        reveal_strlit("Hash=");
        reveal_strlit("Hash");
        text::lemma_nothing_to_trim("Hash"@);
    }
    text::lemma_parted("Hash"@, '=', size);
    assert(short.skip(2) == rest);
    assert(long.skip(2) == rest);
    assert(short[0] == "--hash"@ && short[1] == size);
    assert(long[0] == "--option"@ && long[1] == "Hash="@ + size);
}

/// The flags are spelt differently.
proof fn lemma_flags_differ()
    ensures
        "--hash"@ != "--show-failed"@,
        "--option"@ != "--show-failed"@,
        "--engine"@ != "--show-failed"@,
        "--hash"@ != "--engine"@,
        "--hash"@ != "--database"@,
        "--hash"@ != "--depth"@,
        "--hash"@ != "--count"@,
        "--hash"@ != "--skip"@,
        "--hash"@ != "--workers"@,
        "--option"@ != "--engine"@,
        "--option"@ != "--database"@,
        "--option"@ != "--depth"@,
        "--option"@ != "--count"@,
        "--option"@ != "--skip"@,
        "--option"@ != "--workers"@,
        "--option"@ != "--hash"@,
{
    reveal_strlit("--show-failed");
    reveal_strlit("--engine");
    reveal_strlit("--database");
    reveal_strlit("--depth");
    reveal_strlit("--count");
    reveal_strlit("--skip");
    reveal_strlit("--workers");
    reveal_strlit("--hash");
    reveal_strlit("--option");
    assert("--hash"@[2] == 'h');
    assert("--option"@[2] == 'o');
    assert("--engine"@[2] == 'e');
    assert("--show-failed"@[2] == 's');
    assert("--database"@[2] == 'd');
    assert("--depth"@[2] == 'd');
    assert("--count"@[2] == 'c');
    assert("--skip"@[2] == 's');
    assert("--workers"@[2] == 'w');
}

/// Where a flag other than `--option` is given twice, only the last value leaves a trace.
pub proof fn law_the_last_value_of_a_flag_wins(
    s: SettingsView,
    flag: Seq<char>,
    first: Seq<char>,
    last: Seq<char>,
)
    requires
        settings::takes_value(flag),
        flag != "--option"@,
        settings::value_followed(s, flag, first) is Ok,
    ensures
        settings::value_followed(settings::value_followed(s, flag, first)->Ok_0, flag, last)
            == settings::value_followed(s, flag, last),
{
    if flag == "--hash"@ {
        lemma_flags_differ();
        let most = u64::MAX as nat;
        if let Some(n) = number::number_in(first, most) {
            if let Some(m) = number::number_in(last, most) {
                law_the_last_demand_for_a_name_wins(
                    s.engine_options,
                    "Hash"@,
                    number::decimal(n),
                    number::decimal(m),
                );
            }
        }
    }
}

/// A flag changes its own setting and no other.
pub proof fn law_a_flag_changes_only_its_setting(
    s: SettingsView,
    flag: Seq<char>,
    value: Seq<char>,
)
    requires
        settings::takes_value(flag),
    ensures
        settings::value_followed(s, flag, value) matches Ok(t) ==> {
            &&& flag != "--engine"@ ==> t.engine == s.engine
            &&& flag != "--database"@ ==> t.database_path == s.database_path
            &&& flag != "--depth"@ ==> t.search_depth == s.search_depth
            &&& flag != "--count"@ ==> t.puzzle_count == s.puzzle_count
            &&& flag != "--skip"@ ==> t.skip_count == s.skip_count
            &&& flag != "--workers"@ ==> t.workers == s.workers
            &&& flag != "--hash"@ && flag != "--option"@ ==> t.engine_options == s.engine_options
            &&& t.show_failed == s.show_failed
        },
{
}

/// Whether a flag stands among the arguments where a flag is looked for.
pub open spec fn gives(arguments: Seq<Seq<char>>, flag: Seq<char>) -> bool
    decreases arguments.len(),
{
    if arguments.len() == 0 {
        false
    } else if arguments[0] == flag {
        true
    } else if arguments[0] == "--show-failed"@ {
        gives(arguments.skip(1), flag)
    } else {
        arguments.len() > 1 && gives(arguments.skip(2), flag)
    }
}

/// A setting is changed only by its flag, and failed puzzles are shown from the flag on.
pub open spec fn changed_by_flags(
    s: SettingsView,
    t: SettingsView,
    arguments: Seq<Seq<char>>,
) -> bool {
    &&& !gives(arguments, "--engine"@) ==> t.engine == s.engine
    &&& !gives(arguments, "--database"@) ==> t.database_path == s.database_path
    &&& !gives(arguments, "--depth"@) ==> t.search_depth == s.search_depth
    &&& !gives(arguments, "--count"@) ==> t.puzzle_count == s.puzzle_count
    &&& !gives(arguments, "--skip"@) ==> t.skip_count == s.skip_count
    &&& !gives(arguments, "--workers"@) ==> t.workers == s.workers
    &&& !gives(arguments, "--hash"@) && !gives(arguments, "--option"@) ==> t.engine_options
        == s.engine_options
    &&& t.show_failed == (s.show_failed || gives(arguments, "--show-failed"@))
}

/// Following flags changes only what they are for.
pub proof fn lemma_changed_by_flags(s: SettingsView, arguments: Seq<Seq<char>>)
    ensures
        settings::flags_followed(s, arguments) matches Ok(t) ==> changed_by_flags(s, t, arguments),
    decreases arguments.len(),
{
    if arguments.len() > 0 {
        let flag = arguments[0];
        if flag == "--show-failed"@ {
            lemma_changed_by_flags(SettingsView { show_failed: true, ..s }, arguments.skip(1));
        } else if settings::takes_value(flag) && arguments.len() > 1 {
            law_a_flag_changes_only_its_setting(s, flag, arguments[1]);
            if let Ok(t) = settings::value_followed(s, flag, arguments[1]) {
                lemma_changed_by_flags(t, arguments.skip(2));
            }
        }
    }
}

/// Every setting whose flag is not given has its default, and failed puzzles are shown if and
/// only if the flag for it is given. The flag for the engine always is.
pub proof fn law_settings_without_a_flag_have_their_default(
    arguments: Seq<Seq<char>>,
    cores: nat,
)
    ensures
        settings::settings_asked(arguments, cores) matches Ok(s) ==> {
            &&& gives(arguments, "--engine"@)
            &&& changed_by_flags(settings::defaults(cores), s, arguments)
        },
{
    lemma_changed_by_flags(settings::defaults(cores), arguments);
}

} // verus!
