//! What holds of the rows of the database and of the lines about unsolved puzzles.

use crate::number;
use crate::puzzle;
use crate::puzzle::PuzzleView;
use crate::text;
use vstd::prelude::*;

verus! {

/// A text that is one word: not empty, and without white space.
pub open spec fn is_word(s: Seq<char>) -> bool {
    &&& s.len() > 0
    &&& forall|i: int| 0 <= i < s.len() ==> !text::white_space(#[trigger] s[i])
}

/// A text that can stand in a column: without a comma.
pub open spec fn is_column(s: Seq<char>) -> bool {
    !s.contains(',')
}

/// A column, a comma, and what follows.
#[verifier::opaque]
pub open spec fn column(s: Seq<char>, rest: Seq<char>) -> Seq<char> {
    s + seq![','] + rest
}

/// A row of the database in the order of its columns: id, position, moves, rating, rating
/// deviation, popularity, number of plays, themes, address of the game, and whatever
/// follows, the end of the line among it.
pub open spec fn row(
    id: Seq<char>,
    fen: Seq<char>,
    moves: Seq<Seq<char>>,
    rating: nat,
    deviation: Seq<char>,
    popularity: Seq<char>,
    plays: Seq<char>,
    themes: Seq<char>,
    url: Seq<char>,
    rest: Seq<char>,
) -> Seq<char> {
    column(
        id,
        column(
            fen,
            column(
                text::joined(moves, " "@),
                column(
                    number::decimal(rating),
                    column(
                        deviation,
                        column(popularity, column(plays, column(themes, column(url, rest)))),
                    ),
                ),
            ),
        ),
    )
}

/// White space at the end of a row stands behind its last comma.
pub proof fn lemma_trimmed_end_behind_comma(s: Seq<char>, rest: Seq<char>)
    ensures
        text::trimmed_end(column(s, rest)) == column(s, text::trimmed_end(rest)),
    decreases rest.len(),
{
    reveal(column);
    let whole = column(s, rest);
    if rest.len() == 0 {
        assert(whole.last() == ',');
    } else {
        assert(whole.last() == rest.last());
        if text::white_space(rest.last()) {
            assert(whole.drop_last() == column(s, rest.drop_last()));
            lemma_trimmed_end_behind_comma(s, rest.drop_last());
        }
    }
}

/// A column is parted from what follows it.
pub proof fn lemma_parted_column(s: Seq<char>, rest: Seq<char>)
    requires
        is_column(s),
    ensures
        text::parted(column(s, rest), ',') == Some((s, rest)),
{
    reveal(column);
    text::lemma_parted(s, ',', rest);
}

/// Joined texts start with the first, then the separator, then the others joined.
pub proof fn lemma_joined_front(texts: Seq<Seq<char>>, separator: Seq<char>)
    requires
        texts.len() > 1,
    ensures
        text::joined(texts, separator) == texts[0] + separator + text::joined(
            texts.drop_first(),
            separator,
        ),
    decreases texts.len(),
{
    let front = texts.drop_last();
    if texts.len() == 2 {
        assert(text::joined(front, separator) == texts[0]);
        assert(text::joined(texts.drop_first(), separator) == texts[1]);
    } else {
        lemma_joined_front(front, separator);
        assert(front.drop_first() == texts.drop_first().drop_last());
        assert(texts[0] + separator + text::joined(front.drop_first(), separator) + separator
            + texts.last() == texts[0] + separator + (text::joined(front.drop_first(), separator)
            + separator + texts.last()));
    }
}

/// The word at the start of a text reaches to the white space behind it.
pub proof fn lemma_word_len(word: Seq<char>, rest: Seq<char>)
    requires
        forall|i: int| 0 <= i < word.len() ==> !text::white_space(#[trigger] word[i]),
        rest.len() > 0 ==> text::white_space(rest[0]),
    ensures
        text::word_len(word + rest) == word.len(),
    decreases word.len(),
{
    if word.len() == 0 {
        assert(word + rest == rest);
    } else {
        assert((word + rest)[0] == word[0]);
        assert((word + rest).drop_first() == word.drop_first() + rest);
        lemma_word_len(word.drop_first(), rest);
    }
}

/// Words joined by single spaces are found again, in order, and where there are any, there is
/// no white space at either end.
pub proof fn lemma_words_of_joined(words: Seq<Seq<char>>)
    requires
        forall|i: int| 0 <= i < words.len() ==> is_word(#[trigger] words[i]),
    ensures
        text::words(text::joined(words, " "@)) == words,
        ({
            let s = text::joined(words, " "@);
            words.len() > 0 ==> s.len() > 0 && !text::white_space(s[0]) && !text::white_space(
                s.last(),
            )
        }),
    decreases words.len(),
{
    reveal_strlit(" ");
    let s = text::joined(words, " "@);
    if words.len() == 0 {
        assert(s.len() == 0);
    } else {
        let word = words[0];
        assert(is_word(word));
        let rest: Seq<char> = if words.len() == 1 {
            seq![]
        } else {
            " "@ + text::joined(words.drop_first(), " "@)
        };
        if words.len() > 1 {
            lemma_joined_front(words, " "@);
            assert(word + " "@ + text::joined(words.drop_first(), " "@) == word + rest);
        } else {
            assert(word + rest == word);
        }
        assert(s == word + rest);
        assert(s[0] == word[0]);
        lemma_word_len(word, rest);
        assert(s.take(word.len() as int) == word);
        assert(s.skip(word.len() as int) == rest);
        let others = words.drop_first();
        assert forall|i: int| 0 <= i < others.len() implies is_word(#[trigger] others[i]) by {
            assert(others[i] == words[i + 1]);
        }
        lemma_words_of_joined(others);
        if words.len() > 1 {
            let tail = text::joined(others, " "@);
            assert(rest[0] == ' ');
            assert(rest.drop_first() == tail);
            assert(text::trimmed_start(rest) == text::trimmed_start(tail));
            assert(text::words(rest) == text::words(tail));
            assert(s.last() == tail.last());
        } else {
            assert(s.last() == word.last());
        }
        assert(seq![word] + others == words);
    }
}

proof fn lemma_joined_columns(texts: Seq<Seq<char>>)
    requires
        forall|i: int| 0 <= i < texts.len() ==> is_column(#[trigger] texts[i]),
    ensures
        is_column(text::joined(texts, " "@)),
    decreases texts.len(),
{
    reveal_strlit(" ");
    let s = text::joined(texts, " "@);
    if texts.len() == 1 {
        assert(is_column(texts[0]));
    } else if texts.len() > 1 {
        let front = texts.drop_last();
        assert forall|i: int| 0 <= i < front.len() implies is_column(#[trigger] front[i]) by {
            assert(front[i] == texts[i]);
        }
        lemma_joined_columns(front);
        let a = text::joined(front, " "@);
        assert(is_column(texts[texts.len() - 1]));
        assert forall|i: int| 0 <= i < s.len() implies s[i] != ',' by {
            if i < a.len() {
                assert(a.contains(a[i]));
            } else if i > a.len() {
                assert(texts.last().contains(texts.last()[i - a.len() - 1]));
            }
        }
    }
}

proof fn lemma_moves_of_joined(moves: Seq<Seq<char>>)
    requires
        moves.len() >= 2,
        forall|i: int| 0 <= i < moves.len() ==> is_word(#[trigger] moves[i]),
    ensures
        puzzle::moves_in(text::joined(moves, " "@)) == Some((moves[0], moves.drop_first())),
{
    let s = text::joined(moves, " "@);
    lemma_words_of_joined(moves);
    text::lemma_nothing_to_trim(s);
    lemma_joined_front(moves, " "@);
    reveal_strlit(" ");
    let others = moves.drop_first();
    assert forall|i: int| 0 <= i < others.len() implies is_word(#[trigger] others[i]) by {
        assert(others[i] == moves[i + 1]);
    }
    lemma_words_of_joined(others);
    assert(" "@ == seq![' ']);
    assert(is_word(moves[0]));
    assert(!moves[0].contains(' '));
    text::lemma_parted(moves[0], ' ', text::joined(others, " "@));
}

/// A row of the database is read as the puzzle that it holds: the first of its moves is the
/// opponent's, and the solution starts with the second.
pub proof fn law_a_row_holds_its_puzzle(
    id: Seq<char>,
    fen: Seq<char>,
    moves: Seq<Seq<char>>,
    rating: nat,
    deviation: Seq<char>,
    popularity: Seq<char>,
    plays: Seq<char>,
    themes: Seq<char>,
    url: Seq<char>,
    rest: Seq<char>,
)
    requires
        is_column(id),
        is_column(fen),
        moves.len() >= 2,
        forall|i: int|
            0 <= i < moves.len() ==> is_word(#[trigger] moves[i]) && is_column(moves[i]),
        rating <= u32::MAX,
        is_column(deviation),
        is_column(popularity),
        is_column(plays),
        is_column(themes),
        is_column(url),
    ensures
        puzzle::puzzle_in(
            row(id, fen, moves, rating, deviation, popularity, plays, themes, url, rest),
        ) == Some(
            PuzzleView {
                id,
                fen,
                opponent_move: moves[0],
                solution: moves.drop_first(),
                rating,
                url,
            },
        ),
{
    let list = text::joined(moves, " "@);
    let number = number::decimal(rating);
    let end = text::trimmed_end(rest);
    let r9 = column(url, rest);
    let r8 = column(themes, r9);
    let r7 = column(plays, r8);
    let r6 = column(popularity, r7);
    let r5 = column(deviation, r6);
    let r4 = column(number, r5);
    let r3 = column(list, r4);
    let r2 = column(fen, r3);
    lemma_trimmed_end_behind_comma(url, rest);
    lemma_trimmed_end_behind_comma(themes, r9);
    lemma_trimmed_end_behind_comma(plays, r8);
    lemma_trimmed_end_behind_comma(popularity, r7);
    lemma_trimmed_end_behind_comma(deviation, r6);
    lemma_trimmed_end_behind_comma(number, r5);
    lemma_trimmed_end_behind_comma(list, r4);
    lemma_trimmed_end_behind_comma(fen, r3);
    lemma_trimmed_end_behind_comma(id, r2);
    let t9 = column(url, end);
    let t8 = column(themes, t9);
    let t7 = column(plays, t8);
    let t6 = column(popularity, t7);
    let t5 = column(deviation, t6);
    let t4 = column(number, t5);
    let t3 = column(list, t4);
    let t2 = column(fen, t3);
    lemma_parted_column(id, t2);
    lemma_parted_column(fen, t3);
    lemma_joined_columns(moves);
    lemma_parted_column(list, t4);
    number::lemma_decimal_value(rating);
    assert(is_column(number)) by {
        assert forall|i: int| 0 <= i < number.len() implies number[i] != ',' by {
            assert(number::is_digit(number[i]));
        }
    }
    lemma_parted_column(number, t5);
    lemma_parted_column(deviation, t6);
    lemma_parted_column(popularity, t7);
    lemma_parted_column(plays, t8);
    lemma_parted_column(themes, t9);
    lemma_parted_column(url, end);
    assert(text::field_of(t9, ',', 0) == Some(url));
    assert(text::field_of(t8, ',', 1) == Some(url));
    assert(text::field_of(t7, ',', 2) == Some(url));
    assert(text::field_of(t6, ',', 3) == Some(url));
    assert(text::field_of(t5, ',', 4) == Some(url));
    lemma_moves_of_joined(moves);
    number::lemma_read_after_write(rating, u32::MAX as nat);
}

/// White space at the end of a row, such as the end of the line, makes no difference.
pub proof fn law_the_end_of_a_row_is_ignored(line: Seq<char>, end: Seq<char>)
    requires
        forall|i: int| 0 <= i < end.len() ==> text::white_space(#[trigger] end[i]),
    ensures
        puzzle::puzzle_in(line + end) == puzzle::puzzle_in(line),
    decreases end.len(),
{
    if end.len() == 0 {
        assert(line + end == line);
    } else {
        assert((line + end).last() == end.last());
        assert((line + end).drop_last() == line + end.drop_last());
        law_the_end_of_a_row_is_ignored(line, end.drop_last());
    }
}

proof fn lemma_words_are_words(s: Seq<char>)
    ensures
        forall|i: int| 0 <= i < text::words(s).len() ==> is_word(#[trigger] text::words(s)[i]),
    decreases s.len(),
{
    let t = text::trimmed_start(s);
    if t.len() > 0 {
        text::lemma_trimmed_start_shape(s);
        text::lemma_word_len_bound(t);
        let n = text::word_len(t) as int;
        lemma_words_are_words(t.skip(n));
        lemma_word_len_is_free_of_white_space(t);
        let rest = text::words(t.skip(n));
        assert(is_word(t.take(n)));
        assert forall|i: int| 0 <= i < text::words(s).len() implies is_word(
            #[trigger] text::words(s)[i],
        ) by {
            if i > 0 {
                assert(text::words(s)[i] == rest[i - 1]);
            }
        }
    }
}

proof fn lemma_word_len_is_free_of_white_space(s: Seq<char>)
    ensures
        forall|i: int| 0 <= i < text::word_len(s) ==> !text::white_space(#[trigger] s[i]),
    decreases s.len(),
{
    text::lemma_word_len_bound(s);
    if s.len() > 0 && !text::white_space(s[0]) {
        let rest = s.drop_first();
        lemma_word_len_is_free_of_white_space(rest);
        assert forall|i: int| 0 <= i < text::word_len(s) implies !text::white_space(
            #[trigger] s[i],
        ) by {
            if i > 0 {
                assert(s[i] == rest[i - 1]);
            }
        }
    }
}

/// Every puzzle that a row holds has a solution, each move of which is one word, and its
/// rating fits 32 bits.
pub proof fn law_every_puzzle_has_a_solution(line: Seq<char>)
    ensures
        puzzle::puzzle_in(line) matches Some(p) ==> {
            &&& p.solution.len() > 0
            &&& forall|i: int| 0 <= i < p.solution.len() ==> is_word(#[trigger] p.solution[i])
            &&& p.rating <= u32::MAX
        },
{
    if let Some((_, rest)) = text::parted(text::trimmed_end(line), ',') {
        if let Some((_, rest)) = text::parted(rest, ',') {
            if let Some((moves, _)) = text::parted(rest, ',') {
                if let Some((_, solution)) = text::parted(text::trimmed(moves), ' ') {
                    lemma_words_are_words(solution);
                }
            }
        }
    }
}

/// A search that is too shallow for a solution is told the depth that it takes, behind what
/// is written of the puzzle after a search that is deep enough.
pub proof fn law_a_shallow_search_is_told_the_depth(
    p: PuzzleView,
    played: Seq<char>,
    shallow: nat,
    deep: nat,
)
    requires
        shallow < p.solution.len() <= deep,
    ensures
        puzzle::failed_line(p, played, shallow) == puzzle::failed_line(p, played, deep)
            + " | needs depth "@ + number::decimal(p.solution.len()),
{
}

} // verus!
