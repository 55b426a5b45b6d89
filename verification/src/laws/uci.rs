//! What the lines of an engine are read as, and what the commands to it are made of.

use crate::error::{Error, ErrorKind};
use crate::laws::puzzle::{is_word, lemma_joined_front, lemma_words_of_joined};
use crate::laws::text::{
    ends_a_word, ends_bare, is_blank, is_framed, is_led_by, lemma_after_prefix,
    lemma_blank_has_no_words, lemma_end_of, lemma_framed, lemma_index_of_text, lemma_led_by,
    lemma_same_texts, lemma_start_of, lemma_trimmed, lemma_trimmed_end, lemma_trimmed_start,
    lemma_views, lemma_words_lead, same_texts, stands_at, starts_bare,
};
use crate::number;
use crate::settings;
use crate::settings::EngineOption;
use crate::text;
use crate::uci;
use crate::uci::Plan;
use vstd::prelude::*;

verus! {

/// `line` announces an option: the word `option`, the word `name`, the name in white space, the
/// word `type`, and something behind it. The name ends where the word `type` first stands
/// between spaces.
pub open spec fn is_announcement(
    line: Seq<char>,
    indent: Seq<char>,
    gap: Seq<char>,
    before: Seq<char>,
    name: Seq<char>,
    after: Seq<char>,
    kind: Seq<char>,
) -> bool {
    &&& line == indent + ("option "@ + (gap + ("name "@ + (before + name + after + (" type "@
        + kind)))))
    &&& is_blank(indent)
    &&& is_blank(gap)
    &&& is_blank(before)
    &&& is_blank(after)
    &&& starts_bare(name)
    &&& ends_bare(name)
    &&& !is_blank(kind)
    &&& forall|k: int| !#[trigger] stands_at(before + name + after + " "@, " type "@, k)
}

/// White space at the end of a text is removed from what is no white space alone.
proof fn lemma_trimmed_end_behind(a: Seq<char>, b: Seq<char>)
    requires
        !is_blank(b),
    ensures
        text::trimmed_end(a + b) == a + text::trimmed_end(b),
        text::trimmed_end(b).len() > 0,
{
    lemma_end_of(b);
    let t = text::trimmed_end(b);
    let blank = b.skip(t.len() as int);
    if t.len() == 0 {
        assert(t + blank == blank);
    }
    assert(a + (t + blank) == a + t + blank);
    assert((a + t).last() == t.last());
    lemma_trimmed_end(a + t, blank);
}

/// The word `type` between spaces holds a space at its start, at its end, and nowhere else.
proof fn lemma_type_between_spaces()
    ensures
        " type "@.len() == 6,
        " type "@[0] == ' ',
        " type "@[1] != ' ',
        " type "@[2] != ' ',
        " type "@[3] != ' ',
        " type "@[4] != ' ',
        " type "@[5] == ' ',
        " "@ == seq![' '],
{
    reveal_strlit(" type ");
    reveal_strlit(" ");
}

/// A pattern that stands across the end of a text would have to hold a space where it does
/// not.
proof fn lemma_stands_before(padded: Seq<char>, pattern: Seq<char>, rest: Seq<char>, k: int)
    requires
        pattern.len() == 6,
        pattern[0] == ' ',
        pattern[1] != ' ',
        pattern[2] != ' ',
        pattern[3] != ' ',
        pattern[4] != ' ',
        pattern[5] == ' ',
        stands_at(padded + (pattern + rest), pattern, k),
        k < padded.len(),
    ensures
        stands_at(padded + seq![' '], pattern, k),
{
    let named = padded + (pattern + rest);
    let n = padded.len() as int;
    assert(named[n] == ' ');
    if k + 5 > n {
        let j = n - k;
        assert(named[k + j] == pattern[j]);
    }
    assert forall|j: int| 0 <= j < pattern.len() implies (padded + seq![' '])[k + j]
        == #[trigger] pattern[j] by {
        assert(named[k + j] == pattern[j]);
    }
}

/// The word `type` stands first where what comes before it does not hold it.
proof fn lemma_type_stands_first(padded: Seq<char>, kind: Seq<char>)
    requires
        forall|k: int| !#[trigger] stands_at(padded + " "@, " type "@, k),
    ensures
        text::index_of_text(padded + (" type "@ + kind), " type "@) == Some(padded.len() as int),
{
    let named = padded + (" type "@ + kind);
    let n = padded.len() as int;
    let pattern = " type "@;
    lemma_type_between_spaces();
    lemma_index_of_text(named, pattern);
    assert(stands_at(named, pattern, n)) by {
        assert forall|j: int| 0 <= j < pattern.len() implies named[n + j]
            == #[trigger] pattern[j] by {}
    }
    let i = text::index_of_text(named, pattern)->0;
    assert(text::index_of_text(named, pattern) is Some);
    if i < n {
        lemma_stands_before(padded, pattern, kind, i);
        assert(!stands_at(padded + " "@, pattern, i));
    }
    if n < i {
        assert(!stands_at(named, pattern, n));
    }
}

proof fn lemma_announcement(
    line: Seq<char>,
    indent: Seq<char>,
    gap: Seq<char>,
    before: Seq<char>,
    name: Seq<char>,
    after: Seq<char>,
    kind: Seq<char>,
)
    requires
        is_announcement(line, indent, gap, before, name, after, kind),
    ensures
        uci::option_name_in(line) == Some(name),
{
    let padded = before + name + after;
    let named = padded + (" type "@ + kind);
    let declaration = gap + ("name "@ + named);
    let body = "option "@ + declaration;
    let t = text::trimmed_end(kind);
    let short = padded + (" type "@ + t);
    reveal_strlit("option ");
    reveal_strlit("name ");
    assert(body[0] == 'o');
    lemma_trimmed_start(indent, body);
    let front = "option "@ + (gap + ("name "@ + (padded + " type "@)));
    assert(body == front + kind);
    lemma_trimmed_end_behind(front, kind);
    let trimmed = "option "@ + (gap + ("name "@ + short));
    assert(front + t == trimmed);
    assert(text::trimmed(line) == trimmed);
    lemma_after_prefix("option "@, gap + ("name "@ + short));
    assert(("name "@ + short)[0] == 'n');
    lemma_trimmed_start(gap, "name "@ + short);
    lemma_after_prefix("name "@, short);
    lemma_type_stands_first(padded, t);
    assert(short.take(padded.len() as int) == padded);
    lemma_trimmed(before, name, after);
}

/// A text is what stands before the first place of a pattern, the pattern, and the rest, and
/// the pattern does not stand in the first of these and a space.
proof fn lemma_cut_at(named: Seq<char>, pattern: Seq<char>, n: int)
    requires
        stands_at(named, pattern, n),
        forall|k: int| 0 <= k < n ==> !#[trigger] stands_at(named, pattern, k),
        pattern.len() > 1,
        pattern[0] == ' ',
    ensures
        named == named.take(n) + (pattern + named.skip(n + pattern.len())),
        forall|k: int| !#[trigger] stands_at(named.take(n) + seq![' '], pattern, k),
{
    let padded = named.take(n);
    let rest = named.skip(n + pattern.len());
    assert(named == padded + (pattern + rest)) by {
        assert forall|i: int| 0 <= i < named.len() implies named[i] == (padded + (pattern
            + rest))[i] by {
            if n <= i < n + pattern.len() {
                assert(named[n + (i - n)] == pattern[i - n]);
            }
        }
    }
    assert(named[n + 0] == pattern[0]);
    assert forall|k: int| !#[trigger] stands_at(padded + seq![' '], pattern, k) by {
        if stands_at(padded + seq![' '], pattern, k) {
            assert forall|j: int| 0 <= j < pattern.len() implies named[k + j]
                == #[trigger] pattern[j] by {
                assert((padded + seq![' '])[k + j] == pattern[j]);
            }
            assert(stands_at(named, pattern, k));
        }
    }
}

/// What stands at the end of nested texts stands behind the last of them.
proof fn lemma_end_of_nested(
    a: Seq<char>,
    b: Seq<char>,
    c: Seq<char>,
    d: Seq<char>,
    e: Seq<char>,
    rest: Seq<char>,
    end: Seq<char>,
)
    requires
        e.len() > 0,
    ensures
        (a + (b + (c + (d + (e + rest))))) + end == a + (b + (c + (d + (e + (rest + end))))),
        (a + (b + (c + (d + (e + rest))))).last() == if rest.len() > 0 {
            rest.last()
        } else {
            e.last()
        },
{
    assert((e + rest) + end == e + (rest + end));
    assert((d + (e + rest)) + end == d + (e + (rest + end)));
    assert((c + (d + (e + rest))) + end == c + (d + (e + (rest + end))));
    assert((b + (c + (d + (e + rest)))) + end == b + (c + (d + (e + (rest + end)))));
}

/// A name in white space, the word `type`, and the rest.
pub open spec fn is_named(
    named: Seq<char>,
    before: Seq<char>,
    name: Seq<char>,
    after: Seq<char>,
    rest: Seq<char>,
) -> bool {
    &&& named == before + name + after + (" type "@ + rest)
    &&& is_blank(before)
    &&& is_blank(after)
    &&& starts_bare(name)
    &&& ends_bare(name)
    &&& forall|k: int| !#[trigger] stands_at(before + name + after + " "@, " type "@, k)
}

proof fn lemma_named(named: Seq<char>, n: int)
    requires
        text::index_of_text(named, " type "@) == Some(n),
    ensures
        exists|before: Seq<char>, after: Seq<char>, rest: Seq<char>|
            is_named(named, before, text::trimmed(named.take(n)), after, rest),
{
    let pattern = " type "@;
    lemma_type_between_spaces();
    lemma_index_of_text(named, pattern);
    lemma_cut_at(named, pattern, n);
    let padded = named.take(n);
    let rest = named.skip(n + pattern.len());
    let name = text::trimmed(padded);
    lemma_framed(padded);
    let (before, after) = choose|before: Seq<char>, after: Seq<char>|
        is_framed(padded, before, text::trimmed(padded), after);
    assert(is_named(named, before, name, after, rest));
}

proof fn lemma_announced(line: Seq<char>)
    requires
        uci::option_name_in(line) is Some,
    ensures
        exists|
            indent: Seq<char>,
            gap: Seq<char>,
            before: Seq<char>,
            after: Seq<char>,
            kind: Seq<char>,
        |
            is_announcement(
                line,
                indent,
                gap,
                before,
                uci::option_name_in(line)->0,
                after,
                kind,
            ),
{
    let trimmed = text::trimmed(line);
    lemma_framed(line);
    let (indent, end) = choose|indent: Seq<char>, end: Seq<char>|
        is_framed(line, indent, text::trimmed(line), end);
    let declaration = trimmed.skip("option "@.len() as int);
    assert(trimmed == "option "@ + declaration);
    lemma_start_of(declaration);
    let d = text::trimmed_start(declaration);
    let gap = declaration.take(declaration.len() - d.len());
    let named = d.skip("name "@.len() as int);
    assert(d == "name "@ + named);
    let n = text::index_of_text(named, " type "@)->0;
    let name = text::trimmed(named.take(n));
    lemma_named(named, n);
    let (before, after, rest) = choose|before: Seq<char>, after: Seq<char>, rest: Seq<char>|
        is_named(named, before, text::trimmed(named.take(n)), after, rest);
    lemma_assembled(line, indent, gap, before, name, after, rest, end);
    assert(uci::option_name_in(line) == Some(name));
    assert(is_announcement(
        line,
        indent,
        gap,
        before,
        uci::option_name_in(line)->0,
        after,
        rest + end,
    ));
}

/// The pieces of a line make an announcement.
proof fn lemma_assembled(
    line: Seq<char>,
    indent: Seq<char>,
    gap: Seq<char>,
    before: Seq<char>,
    name: Seq<char>,
    after: Seq<char>,
    rest: Seq<char>,
    end: Seq<char>,
)
    requires
        is_framed(
            line,
            indent,
            "option "@ + (gap + ("name "@ + (before + name + after + (" type "@ + rest)))),
            end,
        ),
        is_blank(gap),
        is_named(before + name + after + (" type "@ + rest), before, name, after, rest),
    ensures
        is_announcement(line, indent, gap, before, name, after, rest + end),
{
    let padded = before + name + after;
    let body = "option "@ + (gap + ("name "@ + (padded + (" type "@ + rest))));
    let kind = rest + end;
    lemma_type_between_spaces();
    lemma_end_of_nested("option "@, gap, "name "@, padded, " type "@, rest, end);
    assert(body.len() > 0);
    assert(!is_blank(kind)) by {
        if rest.len() > 0 {
            assert(kind[rest.len() - 1] == rest.last());
        }
    }
    assert(indent + body + end == indent + (body + end));
}

/// A line is read as announcing a name if and only if it does: whatever the name is, and
/// whatever stands behind the word `type`.
pub proof fn law_a_line_announces_the_name_it_holds<'a>(
    line: &'a str,
    r: Option<&'a str>,
    name: Seq<char>,
)
    requires
        call_ensures(uci::parse_option_name, (line,), r),
    ensures
        (r matches Some(found) && found@ == name) <==> exists|
            indent: Seq<char>,
            gap: Seq<char>,
            before: Seq<char>,
            after: Seq<char>,
            kind: Seq<char>,
        |
            is_announcement(line@, indent, gap, before, name, after, kind),
{
    if uci::option_name_in(line@) == Some(name) {
        lemma_announced(line@);
    }
    if exists|
        indent: Seq<char>,
        gap: Seq<char>,
        before: Seq<char>,
        after: Seq<char>,
        kind: Seq<char>,
    |
        is_announcement(line@, indent, gap, before, name, after, kind) {
        let (indent, gap, before, after, kind) = choose|
            indent: Seq<char>,
            gap: Seq<char>,
            before: Seq<char>,
            after: Seq<char>,
            kind: Seq<char>,
        |
            is_announcement(line@, indent, gap, before, name, after, kind);
        lemma_announcement(line@, indent, gap, before, name, after, kind);
    }
}

/// The word `type` does not stand between spaces in words of which none but the first is it.
proof fn lemma_no_type_among(words: Seq<Seq<char>>)
    requires
        words.len() > 0,
        forall|i: int| 0 <= i < words.len() ==> is_word(#[trigger] words[i]),
        forall|i: int| 1 <= i < words.len() ==> #[trigger] words[i] != "type"@,
    ensures
        forall|k: int|
            !#[trigger] stands_at(text::joined(words, " "@) + " "@, " type "@, k),
    decreases words.len(),
{
    reveal_strlit(" type ");
    reveal_strlit(" ");
    reveal_strlit("type");
    let pattern = " type "@;
    let s = text::joined(words, " "@) + " "@;
    let word = words[0];
    assert(is_word(word));
    let n = word.len() as int;
    if words.len() == 1 {
        assert forall|k: int| !#[trigger] stands_at(s, pattern, k) by {
            if stands_at(s, pattern, k) {
                assert(s[k + 0] == pattern[0]);
                assert(s[k + 1] == pattern[1]);
                assert(s[k] == word[k]);
            }
        }
    } else {
        let others = words.drop_first();
        assert forall|i: int| 0 <= i < others.len() implies is_word(#[trigger] others[i]) by {
            assert(others[i] == words[i + 1]);
        }
        assert forall|i: int| 1 <= i < others.len() implies #[trigger] others[i] != "type"@ by {
            assert(others[i] == words[i + 1]);
        }
        lemma_no_type_among(others);
        lemma_joined_front(words, " "@);
        let tail = text::joined(others, " "@) + " "@;
        assert(s == word + (" "@ + tail));
        let next = words[1];
        assert(next == others[0]);
        assert(is_word(next));
        let m = next.len() as int;
        assert(tail.len() > m && tail[m] == ' ' && forall|i: int|
            0 <= i < m ==> tail[i] == next[i]) by {
            if others.len() > 1 {
                lemma_joined_front(others, " "@);
            }
        }
        assert forall|k: int| !#[trigger] stands_at(s, pattern, k) by {
            if stands_at(s, pattern, k) {
                assert(s[k + 0] == pattern[0]);
                if k < n {
                    assert(s[k] == word[k]);
                } else if k == n {
                    assert(s[k + 1] == pattern[1] && s[k + 2] == pattern[2] && s[k + 3]
                        == pattern[3] && s[k + 4] == pattern[4] && s[k + 5] == pattern[5]);
                    assert(tail[0] == 't' && tail[1] == 'y' && tail[2] == 'p' && tail[3] == 'e'
                        && tail[4] == ' ');
                    if m > 4 {
                        assert(tail[4] == next[4]);
                    }
                    assert(m == 4);
                    assert(next == "type"@);
                } else {
                    assert forall|j: int| 0 <= j < pattern.len() implies tail[k - n - 1 + j]
                        == #[trigger] pattern[j] by {
                        assert(s[k + j] == pattern[j]);
                    }
                    assert(stands_at(tail, pattern, k - n - 1));
                }
            }
        }
    }
}

/// A name of one or more words, of which none but the first is `type`, is announced by the line
/// that holds it between `option name` and `type`, for options of every kind.
pub proof fn law_every_name_can_be_announced<'a>(
    line: &'a str,
    r: Option<&'a str>,
    name: Seq<Seq<char>>,
    kind: Seq<char>,
)
    requires
        call_ensures(uci::parse_option_name, (line,), r),
        name.len() > 0,
        forall|i: int| 0 <= i < name.len() ==> is_word(#[trigger] name[i]),
        forall|i: int| 1 <= i < name.len() ==> #[trigger] name[i] != "type"@,
        !is_blank(kind),
        line@ == "option name "@ + text::joined(name, " "@) + " type "@ + kind,
    ensures
        r is Some,
        r->0@ == text::joined(name, " "@),
{
    let none: Seq<char> = seq![];
    let full = text::joined(name, " "@);
    lemma_words_of_joined(name);
    lemma_no_type_among(name);
    assert(none + full + none == full);
    assert(line@ == none + ("option "@ + (none + ("name "@ + (none + full + none + (" type "@
        + kind)))))) by {
        reveal_strlit("option name ");
        reveal_strlit("option ");
        reveal_strlit("name ");
        assert("option name "@ == "option "@ + "name "@);
    }
    lemma_announcement(line@, none, none, none, full, none, kind);
}

/// A line is the answer that starts with a word if and only if that is its first word.
pub proof fn law_an_answer_starts_with_its_word(line: &str, token: &str, r: bool)
    requires
        call_ensures(uci::answers, (line, token), r),
    ensures
        r <==> exists|blank: Seq<char>, rest: Seq<char>| is_led_by(line@, blank, token@, rest),
{
    if is_blank(line@) {
        lemma_blank_has_no_words(line@);
        assert forall|blank: Seq<char>, rest: Seq<char>|
            !is_led_by(line@, blank, token@, rest) by {
            if is_led_by(line@, blank, token@, rest) {
                lemma_led_by(line@, blank, token@, rest);
            }
        }
    } else {
        lemma_words_lead(line@);
        let (blank, word, rest) = choose|blank: Seq<char>, word: Seq<char>, rest: Seq<char>|
            is_led_by(line@, blank, word, rest);
        lemma_led_by(line@, blank, word, rest);
        if exists|blank: Seq<char>, rest: Seq<char>| is_led_by(line@, blank, token@, rest) {
            let (b, t) = choose|b: Seq<char>, t: Seq<char>| is_led_by(line@, b, token@, t);
            lemma_led_by(line@, b, token@, t);
        }
    }
}

/// The program of a command is the word that it starts with, and its arguments are the words
/// behind; only a command of white space alone has none.
pub proof fn law_a_command_is_its_words(
    command: &str,
    r: Result<(String, Vec<String>), Error>,
    blank: Seq<char>,
    program: Seq<char>,
    rest: &str,
    arguments: Vec<String>,
)
    requires
        call_ensures(uci::command_words, (command,), r),
        call_ensures(text::split_words, (rest,), arguments),
    ensures
        r is Err <==> is_blank(command@),
        r matches Err(e) ==> e.kind == ErrorKind::InvalidInput && e.message@
            == "--engine needs a command"@,
        is_led_by(command@, blank, program, rest@) ==> {
            &&& r is Ok
            &&& r->Ok_0.0@ == program
            &&& same_texts(r->Ok_0.1@, arguments@)
        },
{
    if is_blank(command@) {
        lemma_blank_has_no_words(command@);
        if let Ok((p, a)) = r {
            assert((seq![p@] + text::views(a@)).len() > 0);
        }
    } else {
        lemma_words_lead(command@);
        let (b, w, t) = choose|b: Seq<char>, w: Seq<char>, t: Seq<char>|
            is_led_by(command@, b, w, t);
        lemma_led_by(command@, b, w, t);
    }
    if is_led_by(command@, blank, program, rest@) {
        lemma_led_by(command@, blank, program, rest@);
        if let Ok((p, a)) = r {
            let given = seq![p@] + text::views(a@);
            assert(given[0] == p@);
            assert(given.drop_first() == text::views(a@));
            assert((seq![program] + text::words(rest@)).drop_first() == text::words(rest@));
            lemma_views(a@);
            lemma_views(arguments@);
            assert forall|i: int| 0 <= i < a@.len() implies (#[trigger] a@[i])@
                == arguments@[i]@ by {
                assert(text::views(a@)[i] == text::views(arguments@)[i]);
            }
        }
    }
}

/// A search is asked for by the position and all moves that lead on from it, then the depth.
pub proof fn law_a_search_names_the_moves_and_the_depth(
    fen: &str,
    moves: &[String],
    depth: u8,
    r: Vec<String>,
    listed: String,
    number: String,
)
    requires
        call_ensures(uci::go, (fen, moves, depth), r),
        call_ensures(text::join, (moves, " "), listed),
        call_ensures(number::write_decimal, (depth as u128,), number),
    ensures
        r@.len() == 2,
        r@[0]@ == "position fen "@ + fen@ + " moves "@ + listed@,
        r@[1]@ == "go depth "@ + number@,
{
    lemma_views(r@);
    assert(text::views(r@)[0] == r@[0]@);
    assert(text::views(r@)[1] == r@[1]@);
}

/// The move in an answer is the whole of its second word, whatever stands behind it, unless
/// that word says that there is none.
pub proof fn lemma_move_in(
    answer: Seq<char>,
    blank: Seq<char>,
    word: Seq<char>,
    gap: Seq<char>,
    played: Seq<char>,
    rest: Seq<char>,
)
    requires
        is_led_by(answer, blank, word, gap + played + rest),
        is_led_by(gap + played + rest, gap, played, rest),
        played != "(none)"@,
    ensures
        uci::move_in(answer) is Ok,
        uci::move_in(answer)->Ok_0 == played,
{
    lemma_led_by(answer, blank, word, gap + played + rest);
    lemma_led_by(gap + played + rest, gap, played, rest);
    assert(text::words(answer)[1] == text::words(gap + played + rest)[0]);
}

/// The move read from an answer is the whole of its second word, for every move and whatever
/// stands behind it; an answer whose second word says that there is none, or that has no
/// second word, gives the error that quotes it.
pub proof fn law_the_move_is_the_second_word<'a>(
    answer: &'a str,
    r: Result<String, Error>,
    trimmed: &'a str,
    blank: Seq<char>,
    word: Seq<char>,
    gap: Seq<char>,
    played: Seq<char>,
    rest: Seq<char>,
)
    requires
        call_ensures(uci::best_move, (answer,), r),
        call_ensures(text::trim, (answer,), trimmed),
    ensures
        is_led_by(answer@, blank, word, gap + played + rest) && is_led_by(
            gap + played + rest,
            gap,
            played,
            rest,
        ) && played != "(none)"@ ==> r is Ok && r->Ok_0@ == played,
        is_led_by(answer@, blank, word, gap + played + rest) && is_led_by(
            gap + played + rest,
            gap,
            played,
            rest,
        ) && played == "(none)"@ ==> r is Err,
        is_led_by(answer@, blank, word, gap) && is_blank(gap) ==> r is Err,
        is_blank(answer@) ==> r is Err,
        r matches Err(e) ==> e.kind == ErrorKind::Other && e.message@ == "engine answered `"@
            + trimmed@ + "`"@,
{
    if is_led_by(answer@, blank, word, gap + played + rest) && is_led_by(
        gap + played + rest,
        gap,
        played,
        rest,
    ) {
        lemma_led_by(answer@, blank, word, gap + played + rest);
        lemma_led_by(gap + played + rest, gap, played, rest);
        assert(text::words(answer@)[1] == text::words(gap + played + rest)[0]);
    }
    if is_led_by(answer@, blank, word, gap) && is_blank(gap) {
        lemma_led_by(answer@, blank, word, gap);
        lemma_blank_has_no_words(gap);
    }
    if is_blank(answer@) {
        lemma_blank_has_no_words(answer@);
    }
}

/// The move read from `bestmove`, a space, a move and whatever follows it is that move.
pub proof fn law_a_move_behind_bestmove_is_read(
    answer: &str,
    r: Result<String, Error>,
    played: Seq<char>,
    rest: Seq<char>,
)
    requires
        call_ensures(uci::best_move, (answer,), r),
        answer@ == "bestmove "@ + played + rest,
        is_word(played),
        played != "(none)"@,
        ends_a_word(rest),
    ensures
        r is Ok,
        r->Ok_0@ == played,
{
    let none: Seq<char> = seq![];
    lemma_bestmove(played, rest);
    lemma_move_in(answer@, none, "bestmove"@, " "@, played, rest);
}

/// `bestmove`, a space, a move and whatever follows are words in this order.
pub proof fn lemma_bestmove(played: Seq<char>, rest: Seq<char>)
    requires
        is_word(played),
        ends_a_word(rest),
    ensures
        is_led_by(
            "bestmove "@ + played + rest,
            Seq::<char>::empty(),
            "bestmove"@,
            " "@ + played + rest,
        ),
        is_led_by(" "@ + played + rest, " "@, played, rest),
{
    reveal_strlit("bestmove ");
    reveal_strlit("bestmove");
    reveal_strlit(" ");
    let none: Seq<char> = seq![];
    assert("bestmove "@ + played + rest == none + "bestmove"@ + (" "@ + played + rest));
}

/// The line of an engine scores a mate, or the answer has no move, if and only if it says so
/// somewhere.
pub proof fn law_a_mate_is_told_by_score_and_missing_move(line: Seq<char>)
    ensures
        uci::scores_mate(line) <==> exists|k: int| #[trigger] stands_at(line, "score mate 0"@, k),
        uci::has_no_move(line) <==> exists|k: int| #[trigger] stands_at(line, "(none)"@, k),
{
    lemma_index_of_text(line, "score mate 0"@);
    lemma_index_of_text(line, "(none)"@);
}

/// One of the names is `name`.
pub open spec fn names(announced: Seq<String>, name: Seq<char>) -> bool {
    exists|i: int| 0 <= i < announced.len() && (#[trigger] announced[i])@ == name
}

/// Options are considered one after another: one that the engine has announced is set before
/// those behind it, by the command that gives its name and value; one that it has not is
/// skipped, or ends it all with a refusal that names it if the user demanded it.
pub proof fn law_options_are_considered_in_order(
    announced: &[String],
    options: &[EngineOption],
    r: Plan,
    first: EngineOption,
    others: &[EngineOption],
    rest: Plan,
)
    requires
        call_ensures(uci::set_options, (announced, options), r),
        call_ensures(uci::set_options, (announced, others), rest),
    ensures
        options@.len() == 0 ==> r.commands@.len() == 0 && r.skipped@.len() == 0 && r.refusal is None,
        options@ == seq![first] + others@ ==> if names(announced@, first.name@) {
            &&& r.commands@.len() == rest.commands@.len() + 1
            &&& r.commands@[0]@ == "setoption name "@ + first.name@ + " value "@ + first.value@
            &&& same_texts(r.commands@.drop_first(), rest.commands@)
            &&& same_texts(r.skipped@, rest.skipped@)
            &&& text::view_of(r.refusal) == text::view_of(rest.refusal)
        } else if first.demanded {
            &&& r.commands@.len() == 0
            &&& r.skipped@.len() == 0
            &&& r.refusal is Some
            &&& r.refusal->0@ == "engine does not support option `"@ + first.name@ + "`"@
        } else {
            &&& same_texts(r.commands@, rest.commands@)
            &&& r.skipped@.len() == rest.skipped@.len() + 1
            &&& r.skipped@[0]@ == first.name@
            &&& same_texts(r.skipped@.drop_first(), rest.skipped@)
            &&& text::view_of(r.refusal) == text::view_of(rest.refusal)
        },
{
    let known = text::views(announced@);
    let all = settings::option_views(options@);
    lemma_views(r.commands@);
    lemma_views(r.skipped@);
    lemma_views(rest.commands@);
    lemma_views(rest.skipped@);
    lemma_views(announced@);
    assert(all.len() == options@.len());
    if options@ == seq![first] + others@ {
        assert(options@[0] == first);
        assert(all[0] == first@);
        assert(all.drop_first() == settings::option_views(others@));
        if names(announced@, first.name@) {
            let i = choose|i: int|
                0 <= i < announced@.len() && (#[trigger] announced@[i])@ == first.name@;
            assert(known[i] == first.name@);
        }
        if known.contains(first.name@) {
            let i = choose|i: int| 0 <= i < known.len() && known[i] == first.name@;
            assert(announced@[i]@ == first.name@);
        }
        lemma_same_texts(r.commands@, rest.commands@);
        lemma_same_texts(r.skipped@, rest.skipped@);
        lemma_one_more_text(r.commands@, rest.commands@);
        lemma_one_more_text(r.skipped@, rest.skipped@);
    }
}

/// Strings hold the same texts behind one more if their views do.
proof fn lemma_one_more_text(a: Seq<String>, b: Seq<String>)
    ensures
        forall|first: Seq<char>|
            #![trigger seq![first] + text::views(b)]
            text::views(a) == seq![first] + text::views(b) ==> a.len() == b.len() + 1 && a[0]@
                == first && same_texts(a.drop_first(), b),
{
    lemma_views(a);
    lemma_views(b);
    assert forall|first: Seq<char>|
        #![trigger seq![first] + text::views(b)]
        text::views(a) == seq![first] + text::views(b) implies a.len() == b.len() + 1 && a[0]@
        == first && same_texts(a.drop_first(), b) by {
        let joined = seq![first] + text::views(b);
        assert(text::views(a)[0] == joined[0]);
        let tail = a.drop_first();
        assert forall|i: int| 0 <= i < tail.len() implies (#[trigger] tail[i])@ == b[i]@ by {
            assert(text::views(a)[i + 1] == joined[i + 1]);
        }
    }
}

/// The error of an engine that stops names the answer that it still owed.
pub proof fn law_a_stop_names_the_answer_owed(token: Seq<char>)
    ensures
        uci::stopped_before(token).kind == ErrorKind::Other,
        uci::stopped_before(token).message == "engine stopped before `"@ + token + "`"@,
{
}

} // verus!
