//! What a row of the database is read as, and what is written about an unsolved puzzle, column
//! by column.

use crate::laws::puzzle::{
    column, is_column, is_word, lemma_joined_front, lemma_parted_column,
    lemma_trimmed_end_behind_comma, lemma_words_of_joined,
};
use crate::laws::text::{
    ends_bare, is_blank, is_led_by, lemma_blank_has_no_words, lemma_end_of,
    lemma_led_by, lemma_parted_at, lemma_same_texts, lemma_trimmed, lemma_trimmed_end,
    lemma_trimmed_start, lemma_views, lemma_words_lead, same_texts, starts_bare,
};
use crate::number;
use crate::puzzle;
use crate::puzzle::Puzzle;
use crate::text;
use vstd::prelude::*;

verus! {

/// White space behind a text adds no word.
pub proof fn lemma_words_before_blank(s: Seq<char>, blank: Seq<char>)
    requires
        is_blank(blank),
    ensures
        text::words(s + blank) == text::words(s),
    decreases s.len(),
{
    if is_blank(s) {
        let all = s + blank;
        assert forall|i: int| 0 <= i < all.len() implies text::white_space(#[trigger] all[i]) by {
            if i < s.len() {
                assert(all[i] == s[i]);
            } else {
                assert(all[i] == blank[i - s.len()]);
            }
        }
        lemma_blank_has_no_words(all);
        lemma_blank_has_no_words(s);
        assert(text::words(all) == text::words(s));
    } else {
        lemma_words_lead(s);
        let (front, word, rest) = choose|front: Seq<char>, word: Seq<char>, rest: Seq<char>|
            is_led_by(s, front, word, rest);
        assert(s + blank == front + word + (rest + blank));
        assert(rest.len() > 0 ==> (rest + blank)[0] == rest[0]);
        assert(rest.len() == 0 && blank.len() > 0 ==> (rest + blank)[0] == blank[0]);
        lemma_led_by(s, front, word, rest);
        lemma_led_by(s + blank, front, word, rest + blank);
        lemma_words_before_blank(rest, blank);
    }
}

/// White space before a text adds no word.
pub proof fn lemma_words_behind_blank(blank: Seq<char>, s: Seq<char>)
    requires
        is_blank(blank),
        starts_bare(s),
    ensures
        text::words(blank + s) == text::words(s),
{
    let none: Seq<char> = seq![];
    lemma_trimmed_start(blank, s);
    lemma_trimmed_start(none, s);
    assert(none + s == s);
}

/// The moves are the opponent's, up to the first space, then those of the solution.
proof fn lemma_moves_in(front: Seq<char>, opponent_move: Seq<char>, rest: Seq<char>)
    requires
        is_blank(front),
        opponent_move.len() > 0,
        starts_bare(opponent_move),
        !opponent_move.contains(' '),
        !is_blank(rest),
    ensures
        puzzle::moves_in(front + opponent_move + seq![' '] + rest) == Some(
            (opponent_move, text::words(rest)),
        ),
{
    let moves = front + opponent_move + seq![' '] + rest;
    let body = opponent_move + seq![' '] + rest;
    assert(moves == front + body);
    assert(body[0] == opponent_move[0]);
    lemma_trimmed_start(front, body);
    lemma_end_of(rest);
    let t = text::trimmed_end(rest);
    let blank = rest.skip(t.len() as int);
    if t.len() == 0 {
        assert(t + blank == blank);
    }
    let bare = opponent_move + seq![' '] + t;
    assert(body == bare + blank);
    assert(bare.last() == t.last());
    lemma_trimmed_end(bare, blank);
    assert(text::trimmed(moves) == bare);
    text::lemma_parted(opponent_move, ' ', t);
    lemma_words_before_blank(t, blank);
    lemma_words_lead(rest);
    let (b, w, e) = choose|b: Seq<char>, w: Seq<char>, e: Seq<char>| is_led_by(rest, b, w, e);
    lemma_led_by(rest, b, w, e);
}

/// There is no solution where no space stands between moves.
proof fn lemma_no_moves_in(front: Seq<char>, moves: Seq<char>, back: Seq<char>)
    requires
        is_blank(front),
        is_blank(back),
        starts_bare(moves),
        ends_bare(moves),
        !moves.contains(' '),
    ensures
        puzzle::moves_in(front + moves + back) is None,
{
    lemma_trimmed(front, moves, back);
    lemma_parted_at(moves, ' ');
    if let Some((a, b)) = text::parted(moves, ' ') {
        assert((a + seq![' '] + b)[a.len() as int] == ' ');
    }
}

/// A row is read column by column: id, position, moves, rating, and the address in the ninth
/// column, which is empty where there are fewer. The opponent's move stands before the first
/// space of the moves, and the solution is all words behind it. Whatever else the columns hold,
/// and whatever white space stands at the end, there is a puzzle in the row if and only if there
/// is such a solution and the rating is a number.
pub proof fn law_a_row_is_read_column_by_column<'a>(
    line: &'a str,
    r: Option<Puzzle>,
    id: Seq<char>,
    fen: Seq<char>,
    front: Seq<char>,
    opponent_move: Seq<char>,
    others: &'a str,
    solution: Vec<String>,
    tail: &'a str,
    cut: Option<(&'a str, &'a str)>,
    rating: Option<u64>,
    url: Option<&'a str>,
    end: Seq<char>,
)
    requires
        call_ensures(puzzle::parse_puzzle, (line,), r),
        line@ == column(
            id,
            column(fen, column(front + opponent_move + seq![' '] + others@, tail@ + end)),
        ),
        is_column(id),
        is_column(fen),
        is_column(front + opponent_move + seq![' '] + others@),
        is_blank(front),
        opponent_move.len() > 0,
        starts_bare(opponent_move),
        !opponent_move.contains(' '),
        !is_blank(others@),
        call_ensures(text::split_words, (others,), solution),
        ends_bare(tail@),
        is_blank(end),
        call_ensures(text::split_once, (tail, ','), cut),
        call_ensures(
            number::read_decimal,
            (
                match cut {
                    Some((first, _)) => first,
                    None => tail,
                },
                u32::MAX as u64,
            ),
            rating,
        ),
        cut matches Some((_, behind)) ==> call_ensures(text::field, (behind, ',', 4usize), url),
        cut is None ==> url is None,
    ensures
        match rating {
            None => r is None,
            Some(n) => r matches Some(p) && {
                &&& p.id@ == id
                &&& p.fen@ == fen
                &&& p.opponent_move@ == opponent_move
                &&& same_texts(p.solution@, solution@)
                &&& p.rating == n
                &&& p.url@ == match url {
                    Some(u) => u@,
                    None => seq![],
                }
            },
        },
{
    let moves = front + opponent_move + seq![' '] + others@;
    lemma_row_cut(id, fen, moves, tail@, end);
    lemma_moves_in(front, opponent_move, others@);
    let none: Seq<char> = seq![];
    assert(text::parted(none, ',') is None);
    assert(text::field_of(none, ',', 4) is None) by {
        reveal_with_fuel(text::field_of, 2);
    }
    if let Some(p) = r {
        lemma_same_texts(p.solution@, solution@);
    }
}

/// A row is cut at its first three commas.
proof fn lemma_row_cut(
    id: Seq<char>,
    fen: Seq<char>,
    moves: Seq<char>,
    tail: Seq<char>,
    end: Seq<char>,
)
    requires
        is_column(id),
        is_column(fen),
        is_column(moves),
        ends_bare(tail),
        is_blank(end),
    ensures
        ({
            let line = column(id, column(fen, column(moves, tail + end)));
            let r1 = column(fen, column(moves, tail));
            let r2 = column(moves, tail);
            &&& text::parted(text::trimmed_end(line), ',') == Some((id, r1))
            &&& text::parted(r1, ',') == Some((fen, r2))
            &&& text::parted(r2, ',') == Some((moves, tail))
        }),
{
    lemma_trimmed_end(tail, end);
    lemma_trimmed_end_behind_comma(moves, tail + end);
    lemma_trimmed_end_behind_comma(fen, column(moves, tail + end));
    lemma_trimmed_end_behind_comma(id, column(fen, column(moves, tail + end)));
    lemma_parted_column(id, column(fen, column(moves, tail)));
    lemma_parted_column(fen, column(moves, tail));
    lemma_parted_column(moves, tail);
}

/// A row whose moves are not parted by a space holds no puzzle.
pub proof fn law_a_row_needs_a_solution(
    line: &str,
    r: Option<Puzzle>,
    id: Seq<char>,
    fen: Seq<char>,
    front: Seq<char>,
    moves: Seq<char>,
    back: Seq<char>,
    tail: Seq<char>,
    end: Seq<char>,
)
    requires
        call_ensures(puzzle::parse_puzzle, (line,), r),
        line@ == column(id, column(fen, column(front + moves + back, tail + end))),
        is_column(id),
        is_column(fen),
        is_column(front + moves + back),
        is_blank(front),
        is_blank(back),
        starts_bare(moves),
        ends_bare(moves),
        !moves.contains(' '),
        ends_bare(tail),
        is_blank(end),
    ensures
        r is None,
{
    lemma_row_cut(id, fen, front + moves + back, tail, end);
    lemma_no_moves_in(front, moves, back);
}

/// A row of fewer than four columns holds no puzzle.
pub proof fn law_a_row_needs_four_columns(
    line: &str,
    r: Option<Puzzle>,
    first: Seq<char>,
    second: Seq<char>,
    third: Seq<char>,
    end: Seq<char>,
)
    requires
        call_ensures(puzzle::parse_puzzle, (line,), r),
        is_column(first),
        is_column(second),
        is_column(third),
        ends_bare(third),
        is_blank(end),
        line@ == third + end || line@ == column(second, third + end) || line@ == column(
            first,
            column(second, third + end),
        ),
    ensures
        r is None,
{
    lemma_trimmed_end(third, end);
    lemma_trimmed_end_behind_comma(second, third + end);
    lemma_trimmed_end_behind_comma(first, column(second, third + end));
    lemma_parted_at(third, ',');
    if let Some((a, b)) = text::parted(third, ',') {
        assert((a + seq![','] + b)[a.len() as int] == ',');
    }
    lemma_parted_column(second, third);
    lemma_parted_column(first, column(second, third));
}

/// The recorded moves of a puzzle: the opponent's, then those of the solution.
pub open spec fn are_moves(moves: Seq<String>, p: Puzzle) -> bool {
    &&& moves.len() == p.solution@.len() + 1
    &&& moves[0]@ == p.opponent_move@
    &&& same_texts(moves.drop_first(), p.solution@)
}

/// The line about an unsolved puzzle holds, between bars, its id, its position, all its moves,
/// its rating, the move that was played and the address; then, where the solution is longer than
/// the search was deep, its length.
pub proof fn law_the_line_about_a_puzzle_holds_all_of_it(
    p: Puzzle,
    played: &str,
    depth: u8,
    r: String,
    moves: &[String],
    listed: String,
    rating: String,
    plies: String,
)
    requires
        call_ensures(puzzle::failed_puzzle_line, (&p, played, depth), r),
        p.solution@.len() > 0,
        are_moves(moves@, p),
        call_ensures(text::join, (moves, " "), listed),
        call_ensures(number::write_aligned, (p.rating as u128, 4usize), rating),
        call_ensures(number::write_decimal, (p.solution@.len() as u128,), plies),
        p.solution@.len() <= usize::MAX,
    ensures
        r@ == p.id@ + " | "@ + p.fen@ + " | "@ + listed@ + " | "@ + rating@ + " | played "@ + played@
            + " | "@ + p.url@ + if p.solution@.len() > depth {
            " | needs depth "@ + plies@
        } else {
            seq![]
        },
{
    lemma_listed_moves(moves@, p);
    let line = p.id@ + " | "@ + p.fen@ + " | "@ + listed@ + " | "@ + rating@ + " | played "@
        + played@ + " | "@ + p.url@;
    let solution = text::joined(text::views(p.solution@), " "@);
    lemma_views(p.solution@);
    assert(p.id@ + " | "@ + p.fen@ + " | "@ + p.opponent_move@ + " "@ + solution == p.id@ + " | "@
        + p.fen@ + " | "@ + listed@);
    assert(line == puzzle::failed_puzzle(p@, played@));
    let none: Seq<char> = seq![];
    assert(line + none == line);
    assert(line + " | needs depth "@ + plies@ == line + (" | needs depth "@ + plies@));
}

proof fn lemma_listed_moves(moves: Seq<String>, p: Puzzle)
    requires
        are_moves(moves, p),
        p.solution@.len() > 0,
    ensures
        text::joined(text::views(moves), " "@) == p.opponent_move@ + " "@ + text::joined(
            text::views(p.solution@),
            " "@,
        ),
        text::views(moves) == seq![p.opponent_move@] + text::views(p.solution@),
{
    lemma_views(moves);
    lemma_views(p.solution@);
    let all = text::views(moves);
    assert(all[0] == moves[0]@);
    assert(all.drop_first() == text::views(p.solution@)) by {
        assert forall|i: int| 0 <= i < p.solution@.len() implies all.drop_first()[i]
            == text::views(p.solution@)[i] by {
            assert(moves.drop_first()[i]@ == p.solution@[i]@);
            assert(all[i + 1] == moves[i + 1]@);
        }
    }
    lemma_joined_front(all, " "@);
}

/// No bar stands in a text.
pub open spec fn is_barless(s: Seq<char>) -> bool {
    !s.contains('|')
}

/// A piece before a bar is the first, and the others are those of what stands behind it.
proof fn lemma_piece(a: Seq<char>, rest: Seq<char>, n: nat)
    requires
        is_barless(a),
    ensures
        text::field_of(a + seq!['|'] + rest, '|', 0) == Some(a),
        text::field_of(a + seq!['|'] + rest, '|', n + 1) == text::field_of(rest, '|', n),
{
    text::lemma_parted(a, '|', rest);
}

/// Texts between bars are the pieces into which the bars cut the whole.
proof fn lemma_pieces(
    a: Seq<char>,
    b: Seq<char>,
    c: Seq<char>,
    d: Seq<char>,
    e: Seq<char>,
    rest: Seq<char>,
)
    requires
        is_barless(a),
        is_barless(b),
        is_barless(c),
        is_barless(d),
        is_barless(e),
    ensures
        ({
            let line = a + " | "@ + b + " | "@ + c + " | "@ + d + " | played "@ + e + " | "@ + rest;
            &&& text::field_of(line, '|', 0) == Some(a + " "@)
            &&& text::field_of(line, '|', 1) == Some(" "@ + b + " "@)
            &&& text::field_of(line, '|', 2) == Some(" "@ + c + " "@)
            &&& text::field_of(line, '|', 3) == Some(" "@ + d + " "@)
            &&& text::field_of(line, '|', 4) == Some(" played "@ + e + " "@)
        }),
{
    let line = a + " | "@ + b + " | "@ + c + " | "@ + d + " | played "@ + e + " | "@ + rest;
    let bar = seq!['|'];
    let r5 = " "@ + rest;
    let r4 = (" played "@ + e + " "@) + bar + r5;
    let r3 = (" "@ + d + " "@) + bar + r4;
    let r2 = (" "@ + c + " "@) + bar + r3;
    let r1 = (" "@ + b + " "@) + bar + r2;
    assert(" | "@ == " "@ + bar + " "@ && " | played "@ == " "@ + bar + " played "@ && is_barless(
        " "@,
    ) && is_barless(" played "@)) by {
        reveal_strlit(" | ");
        reveal_strlit(" ");
        reveal_strlit(" | played ");
        reveal_strlit(" played ");
    }
    assert(line == (a + " "@) + bar + r1);
    lemma_barless(a, " "@);
    lemma_barless(" "@, b);
    lemma_barless(" "@ + b, " "@);
    lemma_barless(" "@, c);
    lemma_barless(" "@ + c, " "@);
    lemma_barless(" "@, d);
    lemma_barless(" "@ + d, " "@);
    lemma_barless(" played "@, e);
    lemma_barless(" played "@ + e, " "@);
    lemma_piece(a + " "@, r1, 0);
    lemma_piece(a + " "@, r1, 1);
    lemma_piece(a + " "@, r1, 2);
    lemma_piece(a + " "@, r1, 3);
    lemma_piece(" "@ + b + " "@, r2, 0);
    lemma_piece(" "@ + b + " "@, r2, 1);
    lemma_piece(" "@ + b + " "@, r2, 2);
    lemma_piece(" "@ + c + " "@, r3, 0);
    lemma_piece(" "@ + c + " "@, r3, 1);
    lemma_piece(" "@ + d + " "@, r4, 0);
    lemma_piece(" played "@ + e + " "@, r5, 0);
}

/// An aligned number stands between white space, free of bars.
proof fn lemma_aligned(n: nat, width: nat)
    ensures
        is_barless(number::right_aligned(number::decimal(n), width)),
        text::trimmed(" "@ + number::right_aligned(number::decimal(n), width) + " "@)
            == number::decimal(n),
{
    let digits = number::decimal(n);
    let aligned = number::right_aligned(digits, width);
    number::lemma_decimal_value(n);
    reveal_strlit(" ");
    let missing = if digits.len() < width {
        (width - digits.len()) as nat
    } else {
        0
    };
    let spaces = Seq::new(missing, |i: int| ' ');
    assert(aligned == spaces + digits);
    assert forall|i: int| 0 <= i < aligned.len() implies aligned[i] != '|' by {
        if i >= missing {
            assert(number::is_digit(digits[i - missing]));
        }
    }
    assert(number::is_digit(digits[0]) && number::is_digit(digits[digits.len() - 1]));
    assert(" "@ + aligned + " "@ == (" "@ + spaces) + digits + " "@);
    lemma_trimmed(" "@ + spaces, digits, " "@);
}

/// The line about an unsolved puzzle can be read back: cut at the bars, its pieces are the id, the
/// position, the moves, the rating and the move that was played, for a solution of any length.
pub proof fn law_the_line_about_a_puzzle_can_be_read_back<'a>(
    p: Puzzle,
    played: &'a str,
    depth: u8,
    r: String,
    line: &'a str,
    id: Option<&'a str>,
    fen: Option<&'a str>,
    moves: Option<&'a str>,
    words: Vec<String>,
    rating: Option<&'a str>,
    digits: &'a str,
    number: Option<u64>,
    tried: Option<&'a str>,
)
    requires
        call_ensures(puzzle::failed_puzzle_line, (&p, played, depth), r),
        p.solution@.len() > 0,
        is_barless(p.id@),
        is_barless(p.fen@),
        is_word(p.opponent_move@),
        is_barless(p.opponent_move@),
        forall|i: int|
            0 <= i < p.solution@.len() ==> is_word((#[trigger] p.solution@[i])@) && is_barless(
                p.solution@[i]@,
            ),
        is_barless(played@),
        line@ == r@,
        call_ensures(text::field, (line, '|', 0usize), id),
        call_ensures(text::field, (line, '|', 1usize), fen),
        call_ensures(text::field, (line, '|', 2usize), moves),
        moves matches Some(m) ==> call_ensures(text::split_words, (m,), words),
        call_ensures(text::field, (line, '|', 3usize), rating),
        rating matches Some(m) ==> call_ensures(text::trim, (m,), digits),
        call_ensures(number::read_decimal, (digits, u32::MAX as u64), number),
        call_ensures(text::field, (line, '|', 4usize), tried),
    ensures
        id is Some,
        id->0@ == p.id@ + " "@,
        fen is Some,
        fen->0@ == " "@ + p.fen@ + " "@,
        moves is Some,
        are_moves(words@, p),
        rating is Some,
        number == Some(p.rating as u64),
        tried is Some,
        tried->0@ == " played "@ + played@ + " "@,
{
    let all = seq![p.opponent_move@] + text::views(p.solution@);
    let listed = text::joined(all, " "@);
    lemma_line_between_bars(p, played@, depth as nat);
    lemma_all_moves(p, all);
    let aligned = number::right_aligned(number::decimal(p.rating as nat), 4);
    let rest = p.url@ + if p.solution@.len() > depth {
        " | needs depth "@ + number::decimal(p.solution@.len())
    } else {
        seq![]
    };
    lemma_aligned(p.rating as nat, 4);
    lemma_pieces(p.id@, p.fen@, listed, aligned, played@, rest);
    number::lemma_read_after_write(p.rating as nat, u32::MAX as nat);
    lemma_views(words@);
    lemma_views(p.solution@);
    assert(text::views(words@) == all);
    assert(text::views(words@)[0] == words@[0]@);
    let tail = words@.drop_first();
    assert forall|i: int| 0 <= i < tail.len() implies (#[trigger] tail[i])@ == p.solution@[i]@ by {
        assert(text::views(words@)[i + 1] == all[i + 1]);
    }
}

/// The line about a puzzle as texts between bars.
proof fn lemma_line_between_bars(p: Puzzle, played: Seq<char>, depth: nat)
    requires
        p.solution@.len() > 0,
    ensures
        ({
            let all = seq![p.opponent_move@] + text::views(p.solution@);
            let aligned = number::right_aligned(number::decimal(p.rating as nat), 4);
            puzzle::failed_line(p@, played, depth) == p.id@ + " | "@ + p.fen@ + " | "@
                + text::joined(all, " "@) + " | "@ + aligned + " | played "@ + played + " | "@ + (
            p.url@ + if p.solution@.len() > depth {
                " | needs depth "@ + number::decimal(p.solution@.len())
            } else {
                seq![]
            })
        }),
{
    let all = seq![p.opponent_move@] + text::views(p.solution@);
    let solution = text::joined(text::views(p.solution@), " "@);
    let aligned = number::right_aligned(number::decimal(p.rating as nat), 4);
    lemma_views(p.solution@);
    assert(all.drop_first() == text::views(p.solution@));
    lemma_joined_front(all, " "@);
    assert(p.id@ + " | "@ + p.fen@ + " | "@ + p.opponent_move@ + " "@ + solution == p.id@ + " | "@
        + p.fen@ + " | "@ + text::joined(all, " "@));
    let head = p.id@ + " | "@ + p.fen@ + " | "@ + text::joined(all, " "@) + " | "@ + aligned
        + " | played "@ + played + " | "@;
    let none: Seq<char> = seq![];
    let needs = " | needs depth "@ + number::decimal(p.solution@.len());
    assert(puzzle::failed_puzzle(p@, played) == head + p.url@);
    assert(head + p.url@ == head + (p.url@ + none));
    assert(head + p.url@ + " | needs depth "@ + number::decimal(p.solution@.len()) == head + (p.url@
        + needs));
}

/// The moves of a puzzle, joined by spaces and between spaces, are found again.
proof fn lemma_all_moves(p: Puzzle, all: Seq<Seq<char>>)
    requires
        all == seq![p.opponent_move@] + text::views(p.solution@),
        is_word(p.opponent_move@),
        is_barless(p.opponent_move@),
        forall|i: int|
            0 <= i < p.solution@.len() ==> is_word((#[trigger] p.solution@[i])@) && is_barless(
                p.solution@[i]@,
            ),
    ensures
        is_barless(text::joined(all, " "@)),
        text::words(" "@ + text::joined(all, " "@) + " "@) == all,
{
    lemma_views(p.solution@);
    let listed = text::joined(all, " "@);
    assert forall|i: int| 0 <= i < all.len() implies is_word(#[trigger] all[i]) && is_barless(
        all[i],
    ) by {
        if i > 0 {
            assert(all[i] == p.solution@[i - 1]@);
        }
    }
    lemma_joined_barless(all);
    lemma_words_of_joined(all);
    reveal_strlit(" ");
    assert(" "@ + listed + " "@ == " "@ + (listed + " "@));
    assert((listed + " "@)[0] == listed[0]);
    lemma_words_behind_blank(" "@, listed + " "@);
    lemma_words_before_blank(listed, " "@);
}

proof fn lemma_barless(a: Seq<char>, b: Seq<char>)
    requires
        is_barless(a),
        is_barless(b),
    ensures
        is_barless(a + b),
{
    assert forall|i: int| 0 <= i < (a + b).len() implies (a + b)[i] != '|' by {
        if i < a.len() {
            assert(a.contains(a[i]));
        } else {
            assert(b.contains(b[i - a.len()]));
        }
    }
}

proof fn lemma_joined_barless(texts: Seq<Seq<char>>)
    requires
        forall|i: int| 0 <= i < texts.len() ==> is_barless(#[trigger] texts[i]),
    ensures
        is_barless(text::joined(texts, " "@)),
    decreases texts.len(),
{
    if texts.len() == 1 {
        assert(is_barless(texts[0]));
    } else if texts.len() > 1 {
        let front = texts.drop_last();
        assert forall|i: int| 0 <= i < front.len() implies is_barless(#[trigger] front[i]) by {
            assert(front[i] == texts[i]);
        }
        lemma_joined_barless(front);
        assert(is_barless(texts[texts.len() - 1]));
        reveal_strlit(" ");
        assert(is_barless(" "@));
        lemma_barless(text::joined(front, " "@), " "@);
        lemma_barless(text::joined(front, " "@) + " "@, texts.last());
    }
}

} // verus!
