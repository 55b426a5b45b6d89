//! What is written before the run.

use crate::number;
use crate::settings;
use crate::settings::{OptionView, Settings, SettingsView};
use crate::text;
use vstd::prelude::*;

verus! {

/// An option and its value, as they are listed.
pub open spec fn listed_option(option: OptionView) -> Seq<char> {
    option.name + "="@ + option.value
}

/// The options that are not among those skipped, as they are listed.
pub open spec fn listed_options(options: Seq<OptionView>, skipped: Seq<Seq<char>>) -> Seq<
    Seq<char>,
> {
    options.filter(|o: OptionView| !skipped.contains(o.name)).map_values(
        |o: OptionView| listed_option(o),
    )
}

/// The line that says which engine is run, how, and in how many processes.
pub open spec fn banner(settings: SettingsView, workers: nat, skipped: Seq<Seq<char>>) -> Seq<
    char,
> {
    let options = listed_options(settings.engine_options, skipped);
    let listed = if options.len() == 0 {
        seq![]
    } else {
        " with "@ + text::joined(options, " "@)
    };
    settings.engine + " at Depth "@ + number::decimal(settings.search_depth) + listed + " in "@
        + number::decimal(workers) + " "@ + if workers == 1 {
        "process"@
    } else {
        "processes"@
    }
}

/// Writes the line that says which engine is run.
pub fn startup_banner(settings: &Settings, workers: usize, skipped: &[String]) -> (r: String)
    ensures
        r@ == banner(settings@, workers as nat, text::views(skipped@)),
{
    let ghost all = settings::option_views(settings.engine_options@);
    let ghost out = text::views(skipped@);
    let mut options: Vec<String> = Vec::new();
    let mut i: usize = 0;
    proof {
        reveal_with_fuel(Seq::filter, 1);
        assert(text::views(options@) == listed_options(all.take(0), out));
    }
    while i < settings.engine_options.len()
        invariant
            all == settings::option_views(settings.engine_options@),
            out == text::views(skipped@),
            i <= settings.engine_options@.len(),
            text::views(options@) == listed_options(all.take(i as int), out),
        decreases settings.engine_options@.len() - i,
    {
        let option = &settings.engine_options[i];
        let ghost before = text::views(options@);
        proof {
            assert(all.take(i + 1).drop_last() == all.take(i as int));
            assert(all.take(i + 1).last() == option@);
            reveal_with_fuel(Seq::filter, 1);
        }
        if !text::is_among(option.name.as_str(), skipped) {
            options.push(
                option.name.clone().concat("=").concat(option.value.as_str()),
            );
            assert(text::views(options@) == before.push(listed_option(option@)));
        }
        assert(text::views(options@) == listed_options(all.take(i + 1), out));
        i = i + 1;
    }
    assert(all.take(i as int) == all);
    assert(text::views(options@).len() == options@.len());
    let listed = if options.len() == 0 {
        String::new()
    } else {
        " with ".to_owned().concat(text::join(options.as_slice(), " ").as_str())
    };
    settings.engine.clone().concat(" at Depth ").concat(
        number::write_decimal(settings.search_depth as u128).as_str(),
    ).concat(listed.as_str()).concat(" in ").concat(number::write_decimal(workers as u128).as_str()).concat(
        " ",
    ).concat(
        if workers == 1 {
            "process"
        } else {
            "processes"
        },
    )
}

/// Writes the notice about a default that the engine does not support.
pub fn skipped_option_notice(name: &str) -> (r: String)
    ensures
        r@ == "cps: engine does not support option `"@ + name@
            + "`, keeping the engine default"@,
{
    "cps: engine does not support option `".to_owned().concat(name).concat(
        "`, keeping the engine default",
    )
}

} // verus!
