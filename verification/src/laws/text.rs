//! What the operations on text give, told by what their results are made of.

use crate::laws::puzzle::{is_word, lemma_word_len};
use crate::text;
use vstd::prelude::*;

verus! {

/// A text of nothing but white space.
pub open spec fn is_blank(s: Seq<char>) -> bool {
    forall|i: int| 0 <= i < s.len() ==> text::white_space(#[trigger] s[i])
}

/// A text that ends the word before it: empty, or starting with white space.
pub open spec fn ends_a_word(s: Seq<char>) -> bool {
    s.len() > 0 ==> text::white_space(s[0])
}

/// A text without white space at its start.
pub open spec fn starts_bare(s: Seq<char>) -> bool {
    s.len() > 0 ==> !text::white_space(s[0])
}

/// A text without white space at its end.
pub open spec fn ends_bare(s: Seq<char>) -> bool {
    s.len() > 0 ==> !text::white_space(s.last())
}

/// The white space below 128 is the space and what is numbered 9 to 13; from there on, it is the
/// next line, the no-break space and the spaces and separators of wider scripts.
pub proof fn law_white_space(c: char, r: bool)
    requires
        call_ensures(text::is_white_space, (c,), r),
    ensures
        (c as u32) < 128 ==> (r <==> 9 <= c as u32 <= 13 || c as u32 == 32),
        128 <= c as u32 ==> (r <==> c as u32 == 0x85 || c as u32 == 0xa0 || c as u32 == 0x1680
            || 0x2000 <= c as u32 <= 0x200a || 0x2028 <= c as u32 <= 0x2029 || c as u32 == 0x202f
            || c as u32 == 0x205f || c as u32 == 0x3000),
{
}

/// White space before a text is all that is removed from its start.
pub proof fn lemma_trimmed_start(blank: Seq<char>, s: Seq<char>)
    requires
        is_blank(blank),
        starts_bare(s),
    ensures
        text::trimmed_start(blank + s) == s,
    decreases blank.len(),
{
    if blank.len() == 0 {
        assert(blank + s == s);
    } else {
        assert((blank + s)[0] == blank[0]);
        assert((blank + s).drop_first() == blank.drop_first() + s);
        lemma_trimmed_start(blank.drop_first(), s);
    }
}

/// White space after a text is all that is removed from its end.
pub proof fn lemma_trimmed_end(s: Seq<char>, blank: Seq<char>)
    requires
        is_blank(blank),
        ends_bare(s),
    ensures
        text::trimmed_end(s + blank) == s,
    decreases blank.len(),
{
    if blank.len() == 0 {
        assert(s + blank == s);
    } else {
        assert((s + blank).last() == blank.last());
        assert((s + blank).drop_last() == s + blank.drop_last());
        lemma_trimmed_end(s, blank.drop_last());
    }
}

/// White space on either side of a text is all that is removed from it.
pub proof fn lemma_trimmed(before: Seq<char>, s: Seq<char>, after: Seq<char>)
    requires
        is_blank(before),
        is_blank(after),
        starts_bare(s),
        ends_bare(s),
    ensures
        text::trimmed(before + s + after) == s,
{
    if s.len() == 0 {
        let all = before + s + after;
        let none: Seq<char> = seq![];
        assert forall|i: int| 0 <= i < all.len() implies text::white_space(#[trigger] all[i]) by {
            if i < before.len() {
                assert(all[i] == before[i]);
            } else {
                assert(all[i] == after[i - before.len()]);
            }
        }
        lemma_trimmed_start(all, none);
        assert(all + none == all);
        assert(s == none);
    } else {
        assert(before + s + after == before + (s + after));
        assert((s + after)[0] == s[0]);
        lemma_trimmed_start(before, s + after);
        lemma_trimmed_end(s, after);
    }
}

/// What stands at the start of a text is white space, then what remains without it.
pub proof fn lemma_start_of(s: Seq<char>)
    ensures
        ({
            let t = text::trimmed_start(s);
            let n = s.len() - t.len();
            &&& 0 <= n
            &&& is_blank(s.take(n))
            &&& s.skip(n) == t
            &&& s == s.take(n) + t
            &&& starts_bare(t)
        }),
    decreases s.len(),
{
    let t = text::trimmed_start(s);
    if s.len() > 0 && text::white_space(s[0]) {
        let rest = s.drop_first();
        lemma_start_of(rest);
        let n = s.len() - t.len();
        assert(s.skip(n) == rest.skip(n - 1));
        assert forall|i: int| 0 <= i < n implies text::white_space(#[trigger] s.take(n)[i]) by {
            if i > 0 {
                assert(s.take(n)[i] == rest.take(n - 1)[i - 1]);
            }
        }
        assert(s == s.take(n) + s.skip(n));
    } else {
        assert(s.skip(0) == s);
        assert(s.take(0) + s == s);
    }
}

/// What stands at the end of a text is what remains without white space there, then white
/// space.
pub proof fn lemma_end_of(s: Seq<char>)
    ensures
        ({
            let t = text::trimmed_end(s);
            &&& t.len() <= s.len()
            &&& s.take(t.len() as int) == t
            &&& is_blank(s.skip(t.len() as int))
            &&& s == t + s.skip(t.len() as int)
            &&& ends_bare(t)
        }),
    decreases s.len(),
{
    let t = text::trimmed_end(s);
    if s.len() > 0 && text::white_space(s.last()) {
        let rest = s.drop_last();
        lemma_end_of(rest);
        let n = t.len() as int;
        assert(s.take(n) == rest.take(n));
        assert forall|i: int| 0 <= i < s.skip(n).len() implies text::white_space(
            #[trigger] s.skip(n)[i],
        ) by {
            if i < rest.skip(n).len() {
                assert(s.skip(n)[i] == rest.skip(n)[i]);
            }
        }
        assert(s == s.take(n) + s.skip(n));
    } else {
        assert(s.take(s.len() as int) == s);
        assert(s + s.skip(s.len() as int) == s);
    }
}

/// `s` is `middle` between white space.
pub open spec fn is_framed(
    s: Seq<char>,
    before: Seq<char>,
    middle: Seq<char>,
    after: Seq<char>,
) -> bool {
    &&& s == before + middle + after
    &&& is_blank(before)
    &&& is_blank(after)
    &&& starts_bare(middle)
    &&& ends_bare(middle)
}

/// Every text is what remains of it without white space at either end, between white space.
pub proof fn lemma_framed(s: Seq<char>)
    ensures
        exists|before: Seq<char>, after: Seq<char>|
            is_framed(s, before, text::trimmed(s), after),
{
    lemma_start_of(s);
    let t = text::trimmed_start(s);
    lemma_end_of(t);
    let middle = text::trimmed_end(t);
    let before = s.take(s.len() - t.len());
    let after = t.skip(middle.len() as int);
    assert(before + (middle + after) == before + middle + after);
    assert(middle.len() > 0 ==> middle[0] == t[0]);
    assert(text::trimmed(s) == middle);
    assert(is_framed(s, before, text::trimmed(s), after));
}

/// `trim_start` removes the white space at the start of a text, all of it and nothing else.
pub proof fn law_trim_start_removes_leading_white_space<'a>(s: &'a str, r: &'a str)
    requires
        call_ensures(text::trim_start, (s,), r),
    ensures
        r@.len() <= s@.len(),
        is_blank(s@.take(s@.len() - r@.len())),
        s@.skip(s@.len() - r@.len()) == r@,
        starts_bare(r@),
{
    lemma_start_of(s@);
}

/// `trim_end` removes the white space at the end of a text, all of it and nothing else.
pub proof fn law_trim_end_removes_trailing_white_space<'a>(s: &'a str, r: &'a str)
    requires
        call_ensures(text::trim_end, (s,), r),
    ensures
        r@.len() <= s@.len(),
        s@.take(r@.len() as int) == r@,
        is_blank(s@.skip(r@.len() as int)),
        ends_bare(r@),
{
    lemma_end_of(s@);
}

/// `trim` removes the white space at either end of a text, all of it and nothing else.
pub proof fn law_trim_removes_white_space_at_either_end<'a>(s: &'a str, r: &'a str)
    requires
        call_ensures(text::trim, (s,), r),
    ensures
        exists|before: Seq<char>, after: Seq<char>| is_framed(s@, before, r@, after),
{
    lemma_framed(s@);
}

/// `s` starts with `word`, behind white space, and `rest` follows.
pub open spec fn is_led_by(
    s: Seq<char>,
    blank: Seq<char>,
    word: Seq<char>,
    rest: Seq<char>,
) -> bool {
    &&& s == blank + word + rest
    &&& is_blank(blank)
    &&& is_word(word)
    &&& ends_a_word(rest)
}

/// The words of a text are the one that it starts with, then those of what follows.
pub proof fn lemma_led_by(s: Seq<char>, blank: Seq<char>, word: Seq<char>, rest: Seq<char>)
    requires
        is_led_by(s, blank, word, rest),
    ensures
        text::words(s) == seq![word] + text::words(rest),
        text::words(s)[0] == word,
        text::first_word_of(s) == Some(word),
{
    assert(blank + word + rest == blank + (word + rest));
    assert((word + rest)[0] == word[0]);
    lemma_trimmed_start(blank, word + rest);
    lemma_word_len(word, rest);
    assert((word + rest).take(word.len() as int) == word);
    assert((word + rest).skip(word.len() as int) == rest);
}

/// White space holds no words.
pub proof fn lemma_blank_has_no_words(s: Seq<char>)
    requires
        is_blank(s),
    ensures
        text::words(s).len() == 0,
        text::first_word_of(s) is None,
{
    let none: Seq<char> = seq![];
    lemma_trimmed_start(s, none);
    assert(s + none == s);
}

proof fn lemma_word_at_start(s: Seq<char>)
    requires
        s.len() > 0,
        starts_bare(s),
    ensures
        ({
            let n = text::word_len(s) as int;
            &&& 0 < n <= s.len()
            &&& is_word(s.take(n))
            &&& ends_a_word(s.skip(n))
        }),
    decreases s.len(),
{
    let rest = s.drop_first();
    let n = text::word_len(s) as int;
    if rest.len() == 0 || text::white_space(rest[0]) {
        assert(text::word_len(rest) == 0);
        assert(s.skip(1) == rest);
    } else {
        lemma_word_at_start(rest);
        assert(s.skip(n) == rest.skip(n - 1));
        assert forall|i: int| 0 <= i < n implies !text::white_space(#[trigger] s.take(n)[i]) by {
            if i > 0 {
                assert(s.take(n)[i] == rest.take(n - 1)[i - 1]);
            }
        }
    }
}

/// A text that has words starts with the first of them.
pub proof fn lemma_words_lead(s: Seq<char>)
    requires
        !is_blank(s),
    ensures
        exists|blank: Seq<char>, word: Seq<char>, rest: Seq<char>|
            is_led_by(s, blank, word, rest),
{
    lemma_start_of(s);
    let t = text::trimmed_start(s);
    let blank = s.take(s.len() - t.len());
    if t.len() == 0 {
        assert(blank + t == blank);
    } else {
        lemma_word_at_start(t);
        let n = text::word_len(t) as int;
        assert(t == t.take(n) + t.skip(n));
        assert(blank + (t.take(n) + t.skip(n)) == blank + t.take(n) + t.skip(n));
        assert(is_led_by(s, blank, t.take(n), t.skip(n)));
    }
}

/// The same words stand in both.
pub open spec fn same_texts(a: Seq<String>, b: Seq<String>) -> bool {
    &&& a.len() == b.len()
    &&& forall|i: int| 0 <= i < a.len() ==> (#[trigger] a[i])@ == b[i]@
}

/// What the views say of strings is what they hold.
pub proof fn lemma_views(v: Seq<String>)
    ensures
        text::views(v).len() == v.len(),
        forall|i: int| 0 <= i < v.len() ==> #[trigger] text::views(v)[i] == v[i]@,
{
}

/// Strings with the same views hold the same texts.
pub proof fn lemma_same_texts(a: Seq<String>, b: Seq<String>)
    ensures
        text::views(a) == text::views(b) ==> same_texts(a, b),
{
    if text::views(a) == text::views(b) {
        lemma_views(a);
        lemma_views(b);
        assert forall|i: int| 0 <= i < a.len() implies (#[trigger] a[i])@ == b[i]@ by {
            assert(text::views(a)[i] == text::views(b)[i]);
        }
    }
}

/// `split_words` gives the word that a text starts with, then the words of what follows it.
pub proof fn law_words_follow_one_another(
    s: &str,
    r: Vec<String>,
    blank: Seq<char>,
    word: Seq<char>,
    rest: &str,
    others: Vec<String>,
)
    requires
        call_ensures(text::split_words, (s,), r),
        is_led_by(s@, blank, word, rest@),
        call_ensures(text::split_words, (rest,), others),
    ensures
        r@.len() == others@.len() + 1,
        r@[0]@ == word,
        same_texts(r@.drop_first(), others@),
{
    lemma_led_by(s@, blank, word, rest@);
    lemma_views(r@);
    lemma_views(others@);
    let tail = r@.drop_first();
    assert(text::views(r@)[0] == r@[0]@);
    assert forall|i: int| 0 <= i < tail.len() implies (#[trigger] tail[i])@ == others@[i]@ by {
        assert(text::views(r@)[i + 1] == text::views(others@)[i]);
    }
}

/// `split_words` and `first_word` find a word in a text if and only if it holds more than
/// white space; what they find first is the word that it starts with.
pub proof fn law_the_first_word_leads<'a>(s: &'a str, all: Vec<String>, r: Option<&'a str>)
    requires
        call_ensures(text::split_words, (s,), all),
        call_ensures(text::first_word, (s,), r),
    ensures
        is_blank(s@) <==> r is None,
        is_blank(s@) <==> all@.len() == 0,
        r matches Some(word) ==> {
            &&& all@[0]@ == word@
            &&& exists|blank: Seq<char>, rest: Seq<char>| is_led_by(s@, blank, word@, rest)
        },
{
    lemma_views(all@);
    if is_blank(s@) {
        lemma_blank_has_no_words(s@);
    } else {
        lemma_words_lead(s@);
        let (blank, word, rest) = choose|blank: Seq<char>, word: Seq<char>, rest: Seq<char>|
            is_led_by(s@, blank, word, rest);
        lemma_led_by(s@, blank, word, rest);
        assert(text::views(all@)[0] == all@[0]@);
    }
}

/// What stands before the first `c` is free of it; where there is none, nothing is parted.
pub proof fn lemma_parted_at(s: Seq<char>, c: char)
    ensures
        match text::parted(s, c) {
            Some((a, b)) => s == a + seq![c] + b && !a.contains(c),
            None => !s.contains(c),
        },
    decreases s.len(),
{
    if s.len() > 0 && s[0] != c {
        let rest = s.drop_first();
        lemma_parted_at(rest, c);
        let i = text::index_of(s, c) as int;
        match text::parted(rest, c) {
            Some((a, b)) => {
                assert(text::parted(s, c) == Some((s.take(i), s.skip(i + 1))));
                assert(s.take(i) == seq![s[0]] + a);
                assert(s.skip(i + 1) == b);
                assert(rest[i - 1] == (a + seq![c] + b)[i - 1]);
                assert(s == s.take(i) + seq![c] + b);
                if s.take(i).contains(c) {
                    let j = choose|j: int| 0 <= j < i && s.take(i)[j] == c;
                    assert(a[j - 1] == c);
                }
            },
            None => {
                if s.contains(c) {
                    let j = choose|j: int| 0 <= j < s.len() && s[j] == c;
                    assert(rest[j - 1] == c);
                }
            },
        }
    } else if s.len() > 0 {
        assert(s.take(0) + seq![c] + s.skip(1) == s);
    }
}

/// `split_once` cuts a text at the first `c`, which is all that is lost, and finds one
/// wherever there is one.
pub proof fn law_a_text_is_split_at_the_first<'a>(
    s: &'a str,
    c: char,
    r: Option<(&'a str, &'a str)>,
)
    requires
        call_ensures(text::split_once, (s, c), r),
    ensures
        match r {
            Some((a, b)) => s@ == a@ + seq![c] + b@ && !a@.contains(c),
            None => !s@.contains(c),
        },
{
    lemma_parted_at(s@, c);
}

/// `field` counts the pieces into which a character cuts a text: the first stands before the
/// first of the characters, and the others are those of what stands behind it.
pub proof fn law_fields_are_counted_from_the_start<'a>(
    s: &'a str,
    c: char,
    n: usize,
    r: Option<&'a str>,
    a: Seq<char>,
    rest: &'a str,
    next: Option<&'a str>,
)
    requires
        call_ensures(text::field, (s, c, n), r),
        !a.contains(c),
    ensures
        s@ == a && n == 0 ==> r is Some && r->0@ == a,
        s@ == a && n > 0 ==> r is None,
        s@ == a + seq![c] + rest@ && n == 0 ==> r is Some && r->0@ == a,
        s@ == a + seq![c] + rest@ && n > 0 && call_ensures(
            text::field,
            (rest, c, (n - 1) as usize),
            next,
        ) ==> {
            &&& r is Some <==> next is Some
            &&& r is Some ==> r->0@ == next->0@
        },
{
    lemma_parted_at(s@, c);
    if s@ == a {
        if let Some((x, y)) = text::parted(a, c) {
            assert((x + seq![c] + y)[x.len() as int] == c);
        }
    } else if s@ == a + seq![c] + rest@ {
        text::lemma_parted(a, c, rest@);
    }
}

/// `strip_prefix` gives what follows a prefix, wherever a text starts with it.
pub proof fn law_a_prefix_is_removed<'a>(s: &'a str, prefix: &str, r: Option<&'a str>)
    requires
        call_ensures(text::strip_prefix, (s, prefix), r),
    ensures
        match r {
            Some(t) => s@ == prefix@ + t@,
            None => !prefix@.is_prefix_of(s@),
        },
{
    if prefix@.is_prefix_of(s@) {
        assert(s@ == prefix@ + s@.skip(prefix@.len() as int));
    }
}

/// What follows a prefix is found.
pub proof fn lemma_after_prefix(prefix: Seq<char>, rest: Seq<char>)
    ensures
        text::after_prefix(prefix + rest, prefix) == Some(rest),
{
    assert((prefix + rest).skip(prefix.len() as int) == rest);
    assert(prefix.is_prefix_of(prefix + rest));
}

/// `pattern` stands in `s` at index `i`.
pub open spec fn stands_at(s: Seq<char>, pattern: Seq<char>, i: int) -> bool {
    &&& 0 <= i
    &&& i + pattern.len() <= s.len()
    &&& forall|j: int| 0 <= j < pattern.len() ==> s[i + j] == #[trigger] pattern[j]
}

/// The index found is that of the first place, and one is found wherever there is any.
pub proof fn lemma_index_of_text(s: Seq<char>, pattern: Seq<char>)
    ensures
        match text::index_of_text(s, pattern) {
            Some(i) => stands_at(s, pattern, i) && forall|k: int|
                0 <= k < i ==> !#[trigger] stands_at(s, pattern, k),
            None => forall|k: int| !#[trigger] stands_at(s, pattern, k),
        },
    decreases s.len(),
{
    if pattern.is_prefix_of(s) {
        assert forall|j: int| 0 <= j < pattern.len() implies s[0 + j] == #[trigger] pattern[j] by {
            assert(s.subrange(0, pattern.len() as int)[j] == pattern[j]);
        }
        assert(stands_at(s, pattern, 0));
    } else {
        assert(!stands_at(s, pattern, 0)) by {
            if stands_at(s, pattern, 0) {
                assert forall|j: int| 0 <= j < pattern.len() implies s.subrange(
                    0,
                    pattern.len() as int,
                )[j] == pattern[j] by {
                    assert(s[0 + j] == pattern[j]);
                }
                assert(s.subrange(0, pattern.len() as int) == pattern);
            }
        }
        if s.len() > 0 {
            let rest = s.drop_first();
            lemma_index_of_text(rest, pattern);
            assert forall|k: int| k > 0 implies #[trigger] stands_at(s, pattern, k) == stands_at(
                rest,
                pattern,
                k - 1,
            ) by {
                if stands_at(s, pattern, k) {
                    assert forall|j: int| 0 <= j < pattern.len() implies rest[k - 1 + j]
                        == #[trigger] pattern[j] by {
                        assert(s[k + j] == pattern[j]);
                    }
                }
                if stands_at(rest, pattern, k - 1) {
                    assert forall|j: int| 0 <= j < pattern.len() implies s[k + j]
                        == #[trigger] pattern[j] by {
                        assert(rest[k - 1 + j] == pattern[j]);
                    }
                }
            }
        }
    }
}

/// `find` gives the first place at which a pattern stands, wherever it stands anywhere, and
/// `contains` tells whether it does.
pub proof fn law_a_pattern_is_found_where_it_stands_first(
    s: &str,
    pattern: &str,
    r: Option<usize>,
    held: bool,
)
    requires
        call_ensures(text::find, (s, pattern), r),
        call_ensures(text::contains, (s, pattern), held),
    ensures
        match r {
            Some(i) => stands_at(s@, pattern@, i as int) && forall|k: int|
                0 <= k < i ==> !#[trigger] stands_at(s@, pattern@, k),
            None => forall|k: int| !#[trigger] stands_at(s@, pattern@, k),
        },
        held <==> exists|k: int| #[trigger] stands_at(s@, pattern@, k),
{
    lemma_index_of_text(s@, pattern@);
}

/// `is_among` tells whether one of the names is the name.
pub proof fn law_a_name_is_among_those_it_equals(name: &str, names: &[String], r: bool)
    requires
        call_ensures(text::is_among, (name, names), r),
    ensures
        r <==> exists|i: int| 0 <= i < names@.len() && (#[trigger] names@[i])@ == name@,
{
    lemma_views(names@);
    let views = text::views(names@);
    if r {
        let i = choose|i: int| 0 <= i < views.len() && views[i] == name@;
        assert(names@[i]@ == name@);
    }
    if exists|i: int| 0 <= i < names@.len() && (#[trigger] names@[i])@ == name@ {
        let i = choose|i: int| 0 <= i < names@.len() && (#[trigger] names@[i])@ == name@;
        assert(views[i] == name@);
    }
}

/// `same` tells whether two texts are equal.
pub proof fn law_texts_are_the_same_if_equal(a: &str, b: &str, r: bool)
    requires
        call_ensures(text::same, (a, b), r),
    ensures
        r <==> a@ == b@,
{
}

/// Nothing joined is empty, and one text is itself; another text stands behind the others and
/// the separator.
pub proof fn law_joined_texts_follow_one_another(
    texts: &[String],
    separator: &str,
    r: String,
    front: &[String],
    before: String,
    last: String,
)
    requires
        call_ensures(text::join, (texts, separator), r),
        call_ensures(text::join, (front, separator), before),
    ensures
        texts@.len() == 0 ==> r@.len() == 0,
        texts@.len() == 1 ==> r@ == texts@[0]@,
        front@.len() > 0 && texts@ == front@.push(last) ==> r@ == before@ + separator@ + last@,
{
    lemma_views(texts@);
    lemma_views(front@);
    if texts@.len() == 1 {
        assert(text::views(texts@)[0] == texts@[0]@);
    }
    if front@.len() > 0 && texts@ == front@.push(last) {
        assert(text::views(texts@).drop_last() == text::views(front@));
        assert(text::views(texts@).last() == texts@[texts@.len() - 1]@);
    }
}

} // verus!
