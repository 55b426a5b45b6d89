//! Puzzles and the rows of the database that hold them.

use crate::number;
use crate::text;
use vstd::prelude::*;

verus! {

/// A puzzle: a position, the move that the opponent makes in it, and the moves that solve
/// what comes of it.
pub struct Puzzle {
    pub id: String,
    pub fen: String,
    pub opponent_move: String,
    pub solution: Vec<String>,
    pub rating: u32,
    pub url: String,
}

/// A puzzle as a mathematical value.
#[verifier::ext_equal]
pub struct PuzzleView {
    pub id: Seq<char>,
    pub fen: Seq<char>,
    pub opponent_move: Seq<char>,
    pub solution: Seq<Seq<char>>,
    pub rating: nat,
    pub url: Seq<char>,
}

impl View for Puzzle {
    type V = PuzzleView;

    open spec fn view(&self) -> PuzzleView {
        PuzzleView {
            id: self.id@,
            fen: self.fen@,
            opponent_move: self.opponent_move@,
            solution: text::views(self.solution@),
            rating: self.rating as nat,
            url: self.url@,
        }
    }
}

/// The view of an optional puzzle.
pub open spec fn view_of(o: Option<Puzzle>) -> Option<PuzzleView> {
    match o {
        Some(p) => Some(p@),
        None => None,
    }
}

/// The opponent's move and the solution in a list of moves.
pub open spec fn moves_in(moves: Seq<char>) -> Option<(Seq<char>, Seq<Seq<char>>)> {
    match text::parted(text::trimmed(moves), ' ') {
        Some((opponent_move, rest)) => if text::words(rest).len() > 0 {
            Some((opponent_move, text::words(rest)))
        } else {
            None
        },
        None => None,
    }
}

/// The rating and the address of the game in what follows the moves.
pub open spec fn rating_and_url_in(rest: Seq<char>) -> Option<(nat, Seq<char>)> {
    let (rating, after) = match text::parted(rest, ',') {
        Some(parts) => parts,
        None => (rest, seq![]),
    };
    match number::number_in(rating, u32::MAX as nat) {
        Some(n) => Some(
            (
                n,
                match text::field_of(after, ',', 4) {
                    Some(url) => url,
                    None => seq![],
                },
            ),
        ),
        None => None,
    }
}

/// The puzzle in a row of the database: id, position, moves and rating, each behind the
/// comma after the one before, and the address in the fifth column behind the rating.
pub open spec fn puzzle_in(line: Seq<char>) -> Option<PuzzleView> {
    match text::parted(text::trimmed_end(line), ',') {
        Some((id, rest)) => match text::parted(rest, ',') {
            Some((fen, rest)) => match text::parted(rest, ',') {
                Some((moves, rest)) => match (moves_in(moves), rating_and_url_in(rest)) {
                    (Some((opponent_move, solution)), Some((rating, url))) => Some(
                        PuzzleView { id, fen, opponent_move, solution, rating, url },
                    ),
                    _ => None,
                },
                None => None,
            },
            None => None,
        },
        None => None,
    }
}

/// Reads the opponent's move and the solution.
fn parse_moves(moves: &str) -> (r: Option<(String, Vec<String>)>)
    ensures
        match r {
            Some((opponent_move, solution)) => moves_in(moves@) == Some(
                (opponent_move@, text::views(solution@)),
            ),
            None => moves_in(moves@) is None,
        },
{
    match text::split_once(text::trim(moves), ' ') {
        Some((opponent_move, rest)) => {
            let solution = text::split_words(rest);
            assert(text::views(solution@).len() == solution@.len());
            if solution.len() > 0 {
                Some((opponent_move.to_owned(), solution))
            } else {
                None
            }
        },
        None => None,
    }
}

/// Reads the rating and the address of the game.
fn parse_rating_and_url(rest: &str) -> (r: Option<(u32, String)>)
    ensures
        match r {
            Some((rating, url)) => rating_and_url_in(rest@) == Some((rating as nat, url@)),
            None => rating_and_url_in(rest@) is None,
        },
{
    let (rating, url) = match text::split_once(rest, ',') {
        Some((rating, after)) => match text::field(after, ',', 4) {
            Some(url) => (rating, url.to_owned()),
            None => (rating, String::new()),
        },
        None => (rest, String::new()),
    };
    proof {
        let none: Seq<char> = seq![];
        assert(text::parted(none, ',') is None);
        reveal_with_fuel(text::field_of, 5);
    }
    match number::read_decimal(rating, u32::MAX as u64) {
        Some(n) => Some((n as u32, url)),
        None => None,
    }
}

/// Reads the puzzle in a row of the database.
pub fn parse_puzzle(line: &str) -> (r: Option<Puzzle>)
    ensures
        view_of(r) == puzzle_in(line@),
{
    match text::split_once(text::trim_end(line), ',') {
        Some((id, rest)) => match text::split_once(rest, ',') {
            Some((fen, rest)) => match text::split_once(rest, ',') {
                Some((moves, rest)) => match (parse_moves(moves), parse_rating_and_url(rest)) {
                    (Some((opponent_move, solution)), Some((rating, url))) => Some(
                        Puzzle {
                            id: id.to_owned(),
                            fen: fen.to_owned(),
                            opponent_move,
                            solution,
                            rating,
                            url,
                        },
                    ),
                    _ => None,
                },
                None => None,
            },
            None => None,
        },
        None => None,
    }
}

/// The line that lists an unsolved puzzle, without the depth that it needs.
pub open spec fn failed_puzzle(puzzle: PuzzleView, played: Seq<char>) -> Seq<char> {
    puzzle.id + " | "@ + puzzle.fen + " | "@ + puzzle.opponent_move + " "@ + text::joined(
        puzzle.solution,
        " "@,
    ) + " | "@ + number::right_aligned(number::decimal(puzzle.rating), 4) + " | played "@ + played
        + " | "@ + puzzle.url
}

/// The line that lists an unsolved puzzle: id, position, recorded moves and rating, the
/// move that the engine played, the address of the game and, where the search did not reach
/// the end of the solution, the depth that it takes to.
pub open spec fn failed_line(puzzle: PuzzleView, played: Seq<char>, search_depth: nat) -> Seq<
    char,
> {
    if puzzle.solution.len() > search_depth {
        failed_puzzle(puzzle, played) + " | needs depth "@ + number::decimal(puzzle.solution.len())
    } else {
        failed_puzzle(puzzle, played)
    }
}

/// Writes the line that lists an unsolved puzzle.
pub fn failed_puzzle_line(puzzle: &Puzzle, played: &str, search_depth: u8) -> (r: String)
    ensures
        r@ == failed_line(puzzle@, played@, search_depth as nat),
{
    let solution = text::join(puzzle.solution.as_slice(), " ");
    let rating = number::write_aligned(puzzle.rating as u128, 4);
    let line = puzzle.id.clone().concat(" | ").concat(puzzle.fen.as_str()).concat(" | ").concat(
        puzzle.opponent_move.as_str(),
    ).concat(" ").concat(solution.as_str()).concat(" | ").concat(rating.as_str()).concat(
        " | played ",
    ).concat(played).concat(" | ").concat(puzzle.url.as_str());
    let plies = puzzle.solution.len();
    assert(text::views(puzzle.solution@).len() == plies);
    if plies > search_depth as usize {
        line.concat(" | needs depth ").concat(number::write_decimal(plies as u128).as_str())
    } else {
        line
    }
}

} // verus!
