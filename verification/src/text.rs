//! Text as sequences of characters: trimming, splitting, searching, joining.

use vstd::prelude::*;

verus! {

/// Whether a character has the Unicode property White_Space.
pub open spec fn white_space(c: char) -> bool {
    ||| '\u{9}' <= c <= '\u{d}'
    ||| c == ' '
    ||| c == '\u{85}'
    ||| c == '\u{a0}'
    ||| c == '\u{1680}'
    ||| '\u{2000}' <= c <= '\u{200a}'
    ||| c == '\u{2028}'
    ||| c == '\u{2029}'
    ||| c == '\u{202f}'
    ||| c == '\u{205f}'
    ||| c == '\u{3000}'
}

/// `s` without its leading white space.
pub open spec fn trimmed_start(s: Seq<char>) -> Seq<char>
    decreases s.len(),
{
    if s.len() > 0 && white_space(s[0]) {
        trimmed_start(s.drop_first())
    } else {
        s
    }
}

/// `s` without its trailing white space.
pub open spec fn trimmed_end(s: Seq<char>) -> Seq<char>
    decreases s.len(),
{
    if s.len() > 0 && white_space(s.last()) {
        trimmed_end(s.drop_last())
    } else {
        s
    }
}

/// `s` without the white space at either end.
pub open spec fn trimmed(s: Seq<char>) -> Seq<char> {
    trimmed_end(trimmed_start(s))
}

/// The characters of a string.
fn characters(s: &str) -> (r: Vec<char>)
    ensures
        r@ == s@,
{
    let mut r: Vec<char> = Vec::new();
    for c in it: s.chars()
        invariant
            it.seq() == s@,
            r@ == it.seq().take(it.index()),
    {
        r.push(c);
    }
    r
}

/// Tells white space from other characters.
pub fn is_white_space(c: char) -> (r: bool)
    ensures
        r == white_space(c),
{
    ('\u{9}' <= c && c <= '\u{d}') || c == ' ' || c == '\u{85}' || c == '\u{a0}' || c == '\u{1680}'
        || ('\u{2000}' <= c && c <= '\u{200a}') || c == '\u{2028}' || c == '\u{2029}' || c
        == '\u{202f}' || c == '\u{205f}' || c == '\u{3000}'
}

/// Removes leading white space.
pub fn trim_start<'a>(s: &'a str) -> (r: &'a str)
    ensures
        r@ == trimmed_start(s@),
{
    let mut i: usize = 0;
    let n = s.unicode_len();
    assert(s@.skip(0) == s@);
    for c in it: s.chars()
        invariant
            it.seq() == s@,
            i == it.index(),
            n == s@.len(),
            trimmed_start(s@.skip(i as int)) == trimmed_start(s@),
    {
        if !is_white_space(c) {
            return s.substring_char(i, n);
        }
        assert(s@.skip(i as int).drop_first() == s@.skip(i + 1));
        i = i + 1;
    }
    s.substring_char(n, n)
}

/// Removes trailing white space.
pub fn trim_end<'a>(s: &'a str) -> (r: &'a str)
    ensures
        r@ == trimmed_end(s@),
{
    let mut i: usize = 0;
    let mut end: usize = 0;
    let n = s.unicode_len();
    for c in it: s.chars()
        invariant
            it.seq() == s@,
            i == it.index(),
            n == s@.len(),
            end <= i,
            trimmed_end(s@.take(i as int)) == s@.take(end as int),
    {
        assert(s@.take(i + 1).drop_last() == s@.take(i as int));
        i = i + 1;
        if !is_white_space(c) {
            end = i;
        }
    }
    assert(s@.take(i as int) == s@);
    s.substring_char(0, end)
}

/// Removes the white space at either end.
pub fn trim<'a>(s: &'a str) -> (r: &'a str)
    ensures
        r@ == trimmed(s@),
{
    trim_end(trim_start(s))
}

/// The length of the run of characters at the start of `s` that are no white space.
pub open spec fn word_len(s: Seq<char>) -> nat
    decreases s.len(),
{
    if s.len() == 0 || white_space(s[0]) {
        0
    } else {
        1 + word_len(s.drop_first())
    }
}

/// What remains without leading white space does not start with any.
pub proof fn lemma_trimmed_start_shape(s: Seq<char>)
    ensures
        trimmed_start(s).len() <= s.len(),
        trimmed_start(s).len() > 0 ==> !white_space(trimmed_start(s)[0]),
    decreases s.len(),
{
    if s.len() > 0 && white_space(s[0]) {
        lemma_trimmed_start_shape(s.drop_first());
    }
}

/// The word at the start of a text is no longer than the text, and is one unless white space
/// stands there.
pub proof fn lemma_word_len_bound(s: Seq<char>)
    ensures
        word_len(s) <= s.len(),
        s.len() > 0 && !white_space(s[0]) ==> word_len(s) > 0,
    decreases s.len(),
{
    if s.len() > 0 && !white_space(s[0]) {
        lemma_word_len_bound(s.drop_first());
    }
}

/// The maximal runs of characters that are no white space, in order.
pub open spec fn words(s: Seq<char>) -> Seq<Seq<char>>
    decreases s.len(),
{
    let t = trimmed_start(s);
    if t.len() == 0 {
        seq![]
    } else {
        let n = word_len(t) as int;
        proof {
            lemma_trimmed_start_shape(s);
            lemma_word_len_bound(t);
        }
        seq![t.take(n)] + words(t.skip(n))
    }
}

/// The first of the words, where there is one.
pub open spec fn first_word_of(s: Seq<char>) -> Option<Seq<char>> {
    if words(s).len() > 0 {
        Some(words(s)[0])
    } else {
        None
    }
}

/// Measures the word at the start of `s`.
fn measure_word(s: &str) -> (n: usize)
    ensures
        n == word_len(s@),
        n <= s@.len(),
{
    let len = s.unicode_len();
    let mut n: usize = 0;
    assert(s@.skip(0) == s@);
    for c in it: s.chars()
        invariant
            it.seq() == s@,
            n == it.index(),
            len == s@.len(),
            n + word_len(s@.skip(n as int)) == word_len(s@),
    {
        if is_white_space(c) {
            return n;
        }
        assert(s@.skip(n as int).drop_first() == s@.skip(n + 1));
        n = n + 1;
    }
    n
}

/// The views of the strings of a sequence.
pub open spec fn views(v: Seq<String>) -> Seq<Seq<char>> {
    v.map_values(|s: String| s@)
}

/// The view of an optional string.
pub open spec fn view_of(o: Option<String>) -> Option<Seq<char>> {
    match o {
        Some(s) => Some(s@),
        None => None,
    }
}

/// The view of an optional string slice.
pub open spec fn view_of_str(o: Option<&str>) -> Option<Seq<char>> {
    match o {
        Some(s) => Some(s@),
        None => None,
    }
}

/// Splits `s` into its words.
pub fn split_words(s: &str) -> (r: Vec<String>)
    ensures
        views(r@) == words(s@),
{
    let mut r: Vec<String> = Vec::new();
    let mut rest = s;
    assert(views(r@) + words(rest@) == words(s@));
    loop
        invariant
            views(r@) + words(rest@) == words(s@),
        decreases rest@.len(),
    {
        let ghost before = rest@;
        let t = trim_start(rest);
        proof {
            lemma_trimmed_start_shape(before);
            lemma_word_len_bound(t@);
        }
        if t.is_empty() {
            assert(views(r@) + words(before) == views(r@));
            return r;
        }
        let n = measure_word(t);
        let ghost found = views(r@);
        r.push(t.substring_char(0, n).to_owned());
        rest = t.substring_char(n, t.unicode_len());
        proof {
            assert(t@.subrange(0, n as int) == t@.take(n as int));
            assert(rest@ == t@.skip(n as int));
            assert(views(r@) == found.push(t@.take(n as int)));
            assert(views(r@) + words(rest@) == found + (seq![t@.take(n as int)] + words(rest@)));
        }
    }
}

/// The first word of `s`.
pub fn first_word<'a>(s: &'a str) -> (r: Option<&'a str>)
    ensures
        view_of_str(r) == first_word_of(s@),
{
    let t = trim_start(s);
    proof {
        lemma_trimmed_start_shape(s@);
        lemma_word_len_bound(t@);
    }
    if t.is_empty() {
        None
    } else {
        let w = t.substring_char(0, measure_word(t));
        assert(w@ == t@.take(word_len(t@) as int));
        Some(w)
    }
}

/// The index of the first `c` in `s`; the length of `s` where there is none.
pub open spec fn index_of(s: Seq<char>, c: char) -> nat
    decreases s.len(),
{
    if s.len() == 0 || s[0] == c {
        0
    } else {
        1 + index_of(s.drop_first(), c)
    }
}

/// What stands before and after the first `c` in `s`.
pub open spec fn parted(s: Seq<char>, c: char) -> Option<(Seq<char>, Seq<char>)> {
    let i = index_of(s, c) as int;
    if i < s.len() {
        Some((s.take(i), s.skip(i + 1)))
    } else {
        None
    }
}

/// Splits `s` at the first `c`.
pub fn split_once<'a>(s: &'a str, c: char) -> (r: Option<(&'a str, &'a str)>)
    ensures
        match r {
            Some((a, b)) => parted(s@, c) == Some((a@, b@)),
            None => parted(s@, c) is None,
        },
{
    let n = s.unicode_len();
    let mut i: usize = 0;
    assert(s@.skip(0) == s@);
    for d in it: s.chars()
        invariant
            it.seq() == s@,
            i == it.index(),
            n == s@.len(),
            i + index_of(s@.skip(i as int), c) == index_of(s@, c),
    {
        if d == c {
            let a = s.substring_char(0, i);
            let b = s.substring_char(i + 1, n);
            assert(a@ == s@.take(i as int));
            assert(b@ == s@.skip(i + 1));
            return Some((a, b));
        }
        assert(s@.skip(i as int).drop_first() == s@.skip(i + 1));
        i = i + 1;
    }
    None
}

/// The piece with index `n` of those into which every `c` cuts `s`.
pub open spec fn field_of(s: Seq<char>, c: char, n: nat) -> Option<Seq<char>>
    decreases n,
{
    match parted(s, c) {
        Some((a, b)) => if n == 0 {
            Some(a)
        } else {
            field_of(b, c, (n - 1) as nat)
        },
        None => if n == 0 {
            Some(s)
        } else {
            None
        },
    }
}

/// Takes the piece with index `n` out of `s`, cut at every `c`.
pub fn field<'a>(s: &'a str, c: char, n: usize) -> (r: Option<&'a str>)
    ensures
        view_of_str(r) == field_of(s@, c, n as nat),
    decreases n,
{
    match split_once(s, c) {
        Some((a, b)) => if n == 0 {
            Some(a)
        } else {
            field(b, c, n - 1)
        },
        None => if n == 0 {
            Some(s)
        } else {
            None
        },
    }
}

/// What follows `prefix` in `s`, where `s` starts with it.
pub open spec fn after_prefix(s: Seq<char>, prefix: Seq<char>) -> Option<Seq<char>> {
    if prefix.is_prefix_of(s) {
        Some(s.skip(prefix.len() as int))
    } else {
        None
    }
}

/// Whether `pattern` stands in `s` from index `i` on.
fn stands_at(s: &[char], pattern: &[char], i: usize) -> (r: bool)
    requires
        i <= s@.len(),
    ensures
        r == pattern@.is_prefix_of(s@.skip(i as int)),
{
    if pattern.len() > s.len() - i {
        return false;
    }
    let len = s.len();
    let mut n: usize = 0;
    while n < pattern.len()
        invariant
            i + pattern@.len() <= s@.len() == len,
            n <= pattern@.len(),
            pattern@.take(n as int) == s@.skip(i as int).take(n as int),
        decreases pattern@.len() - n,
    {
        if s[i + n] != pattern[n] {
            assert(s@.skip(i as int)[n as int] != pattern@[n as int]);
            assert(!pattern@.is_prefix_of(s@.skip(i as int)));
            return false;
        }
        assert(pattern@.take(n + 1) == pattern@.take(n as int).push(pattern@[n as int]));
        assert(s@.skip(i as int).take(n + 1) == s@.skip(i as int).take(n as int).push(
            s@.skip(i as int)[n as int],
        ));
        n = n + 1;
    }
    assert(pattern@.take(n as int) == pattern@);
    assert(s@.skip(i as int).take(n as int) == s@.skip(i as int).subrange(0, n as int));
    true
}

/// Removes `prefix` from the start of `s`.
pub fn strip_prefix<'a>(s: &'a str, prefix: &str) -> (r: Option<&'a str>)
    ensures
        view_of_str(r) == after_prefix(s@, prefix@),
{
    let chars = characters(s);
    let p = characters(prefix);
    assert(s@.skip(0) == s@);
    if stands_at(chars.as_slice(), p.as_slice(), 0) {
        let t = s.substring_char(p.len(), chars.len());
        assert(t@ == s@.skip(prefix@.len() as int));
        Some(t)
    } else {
        None
    }
}

/// The first index from which `pattern` stands in `s`.
pub open spec fn index_of_text(s: Seq<char>, pattern: Seq<char>) -> Option<int>
    decreases s.len(),
{
    if pattern.is_prefix_of(s) {
        Some(0)
    } else if s.len() == 0 {
        None
    } else {
        match index_of_text(s.drop_first(), pattern) {
            Some(i) => Some(i + 1),
            None => None,
        }
    }
}

/// Whether `pattern` stands anywhere in `s`.
pub open spec fn holds(s: Seq<char>, pattern: Seq<char>) -> bool {
    index_of_text(s, pattern) is Some
}

/// Finds the first place at which `pattern` stands in `s`.
pub fn find(s: &str, pattern: &str) -> (r: Option<usize>)
    ensures
        match r {
            Some(i) => i <= s@.len() && index_of_text(s@, pattern@) == Some(i as int),
            None => index_of_text(s@, pattern@) is None,
        },
{
    let chars = characters(s);
    let p = characters(pattern);
    let mut i: usize = 0;
    assert(s@.skip(0) == s@);
    loop
        invariant
            i <= s@.len(),
            chars@ == s@,
            p@ == pattern@,
            index_of_text(s@, pattern@) == match index_of_text(s@.skip(i as int), pattern@) {
                Some(j) => Some(j + i),
                None => None::<int>,
            },
        decreases s@.len() - i,
    {
        if stands_at(chars.as_slice(), p.as_slice(), i) {
            return Some(i);
        }
        if i == chars.len() {
            return None;
        }
        assert(s@.skip(i as int).drop_first() == s@.skip(i + 1));
        i = i + 1;
    }
}

/// Whether `pattern` stands anywhere in `s`.
pub fn contains(s: &str, pattern: &str) -> (r: bool)
    ensures
        r == holds(s@, pattern@),
{
    find(s, pattern).is_some()
}

/// Compares two strings.
pub fn same(a: &str, b: &str) -> (r: bool)
    ensures
        r == (a@ == b@),
{
    a.to_owned() == b.to_owned()
}

/// Whether `name` is one of `names`.
pub fn is_among(name: &str, names: &[String]) -> (r: bool)
    ensures
        r == views(names@).contains(name@),
{
    let mut i: usize = 0;
    while i < names.len()
        invariant
            i <= names@.len(),
            forall|j: int| 0 <= j < i ==> #[trigger] views(names@)[j] != name@,
        decreases names@.len() - i,
    {
        assert(views(names@)[i as int] == names@[i as int]@);
        if same(names[i].as_str(), name) {
            return true;
        }
        i = i + 1;
    }
    false
}

/// The texts one after another, with `separator` between neighbours.
pub open spec fn joined(texts: Seq<Seq<char>>, separator: Seq<char>) -> Seq<char>
    decreases texts.len(),
{
    if texts.len() == 0 {
        seq![]
    } else if texts.len() == 1 {
        texts[0]
    } else {
        joined(texts.drop_last(), separator) + separator + texts.last()
    }
}

/// Joins strings with `separator` between neighbours.
pub fn join(texts: &[String], separator: &str) -> (r: String)
    ensures
        r@ == joined(views(texts@), separator@),
{
    let mut r = String::new();
    let mut i: usize = 0;
    while i < texts.len()
        invariant
            i <= texts@.len(),
            r@ == joined(views(texts@).take(i as int), separator@),
        decreases texts@.len() - i,
    {
        proof {
            let next = views(texts@).take(i + 1);
            assert(next.drop_last() == views(texts@).take(i as int));
            assert(next.last() == texts@[i as int]@);
            assert(Seq::<char>::empty() + texts@[i as int]@ == texts@[i as int]@);
        }
        if i > 0 {
            r.append(separator);
        }
        r.append(texts[i].as_str());
        i = i + 1;
    }
    assert(views(texts@).take(i as int) == views(texts@));
    r
}

/// A text is parted at the first of the characters, whatever stands behind it.
pub proof fn lemma_parted(a: Seq<char>, c: char, b: Seq<char>)
    requires
        !a.contains(c),
    ensures
        parted(a + seq![c] + b, c) == Some((a, b)),
{
    lemma_index_of(a, c, seq![c] + b);
    let whole = a + seq![c] + b;
    assert(whole == a + (seq![c] + b));
    assert(index_of(seq![c] + b, c) == 0);
    assert(whole.take(a.len() as int) == a);
    assert(whole.skip(a.len() as int + 1) == b);
}

/// A beginning without the character shifts its first index.
proof fn lemma_index_of(a: Seq<char>, c: char, b: Seq<char>)
    requires
        !a.contains(c),
    ensures
        index_of(a + b, c) == a.len() + index_of(b, c),
    decreases a.len(),
{
    if a.len() == 0 {
        assert(a + b == b);
    } else {
        let rest = a.drop_first();
        assert(a[0] != c) by {
            assert(a.contains(a[0]));
        }
        assert forall|x: char| rest.contains(x) implies a.contains(x) by {
            let i = choose|i: int| 0 <= i < rest.len() && rest[i] == x;
            assert(a[i + 1] == x);
        }
        assert((a + b).drop_first() == rest + b);
        lemma_index_of(rest, c, b);
    }
}

/// A text without white space at either end is left as it is.
pub proof fn lemma_nothing_to_trim(s: Seq<char>)
    requires
        s.len() > 0 ==> !white_space(s[0]) && !white_space(s.last()),
    ensures
        trimmed(s) == s,
        trimmed_start(s) == s,
        trimmed_end(s) == s,
{
}

} // verus!
