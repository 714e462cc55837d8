//! The move providers around the search: the opening book's state, the
//! endgame tablebase's gate, turning service answers into moves, and the
//! choice of the recommended move.

use vstd::prelude::*;
use crate::board::{Board, BoardModel};
use crate::converter::{Converter, fen_board, fen_ok, sanitized, start_position, uci_move};
use crate::pieces::ChessMove;

verus! {

/// The moves named by the valid ones among `texts`, in order, each with a
/// castling in king-takes-rook form rewritten.
pub open spec fn moves_from_texts(b: BoardModel, texts: Seq<Seq<char>>) -> Seq<ChessMove>
    decreases texts.len(),
{
    if texts.len() == 0 {
        Seq::empty()
    } else {
        moves_from_texts(b, texts.drop_last()) + match uci_move(texts.last()) {
            Some(m) => seq![sanitized(b, m)],
            None => Seq::empty(),
        }
    }
}

/// The views of a vector of strings.
pub open spec fn texts_of(v: Seq<String>) -> Seq<Seq<char>> {
    Seq::new(v.len(), |i: int| v[i]@)
}

/// Turns the UCI texts of a service answer into moves on `board`, keeping
/// their order and skipping text that names no move.
pub fn moves_from_answer(board: &Board, texts: &Vec<String>) -> (r: Vec<ChessMove>)
    ensures
        r@ == moves_from_texts(board@, texts_of(texts@)),
{
    let mut moves: Vec<ChessMove> = Vec::new();
    let mut i: usize = 0;
    while i < texts.len()
        invariant
            0 <= i <= texts@.len(),
            moves@ == moves_from_texts(board@, texts_of(texts@).take(i as int)),
        decreases texts@.len() - i,
    {
        proof {
            assert(texts_of(texts@).take(i as int + 1).drop_last() =~= texts_of(texts@).take(i as int));
        }
        match Converter::convert_string_to_move(&texts[i]) {
            Some(m) => moves.push(Converter::sanitize_move(board, &m)),
            None => {},
        }
        i = i + 1;
    }
    assert(texts_of(texts@).take(texts@.len() as int) =~= texts_of(texts@));
    moves
}

/// The position a `position` command names: `startpos` or a FEN text.
pub open spec fn named_position(s: Seq<char>) -> Option<BoardModel> {
    if s == "startpos"@ {
        Some(start_position())
    } else if fen_ok(s) {
        Some(fen_board(s))
    } else {
        None
    }
}

/// The position after playing the moves named by `texts` in turn; `None`
/// if a text names no move or a move starts on an empty square.
pub open spec fn after_moves(start: Option<BoardModel>, texts: Seq<Seq<char>>) -> Option<BoardModel>
    decreases texts.len(),
{
    if texts.len() == 0 {
        start
    } else {
        match after_moves(start, texts.drop_last()) {
            None => None,
            Some(b) => match uci_move(texts.last()) {
                Some(m) => if b.at(m.from_field) is Some {
                    Some(b.played(m))
                } else {
                    None
                },
                None => None,
            },
        }
    }
}

/// Builds the position of a `position` command and plays its moves.
pub fn position_after(position: String, moves: &Vec<String>) -> (r: Option<Board>)
    ensures
        r is Some <==> after_moves(named_position(position@), texts_of(moves@)) is Some,
        r is Some ==> r->0@ == after_moves(named_position(position@), texts_of(moves@))->0,
{
    let ghost named = position@;
    let mut board = match Converter::convert_string_to_board(position) {
        Some(b) => b,
        None => {
            proof {
                lemma_after_none(named_position(named), texts_of(moves@), 0);
            }
            return None;
        },
    };
    let mut i: usize = 0;
    while i < moves.len()
        invariant
            0 <= i <= moves@.len(),
            named == position@,
            after_moves(named_position(named), texts_of(moves@).take(i as int)) == Some(board@),
        decreases moves@.len() - i,
    {
        proof {
            assert(texts_of(moves@).take(i as int + 1).drop_last() =~= texts_of(moves@).take(i as int));
        }
        let m = match Converter::convert_string_to_move(&moves[i]) {
            Some(m) => m,
            None => {
                proof {
                    lemma_after_none(named_position(named), texts_of(moves@), i as int + 1);
                }
                return None;
            },
        };
        if board.get_piece(m.from_field()).is_none() {
            proof {
                lemma_after_none(named_position(named), texts_of(moves@), i as int + 1);
            }
            return None;
        }
        board.play_move(&m);
        i = i + 1;
    }
    assert(texts_of(moves@).take(moves@.len() as int) =~= texts_of(moves@));
    Some(board)
}

proof fn lemma_after_none(start: Option<BoardModel>, texts: Seq<Seq<char>>, i: int)
    requires
        0 <= i <= texts.len(),
        after_moves(start, texts.take(i)) is None,
    ensures
        after_moves(start, texts) is None,
    decreases texts.len() - i,
{
    if i < texts.len() {
        assert(texts.take(i + 1).drop_last() =~= texts.take(i));
        lemma_after_none(start, texts, i + 1);
    } else {
        assert(texts.take(i) =~= texts);
    }
}

/// The opening-book provider. Once the book has answered a position with
/// no move, it is not asked again.
pub struct Openings {
    out_of_opening: bool,
}

impl Openings {
    pub closed spec fn spec_out_of_opening(&self) -> bool {
        self.out_of_opening
    }

    pub fn new() -> (r: Openings)
        ensures
            !r.spec_out_of_opening(),
    {
        Openings { out_of_opening: false }
    }

    /// Whether the book is still to be asked.
    pub fn in_opening(&self) -> (r: bool)
        ensures
            r == !self.spec_out_of_opening(),
    {
        !self.out_of_opening
    }

    /// Takes the book's answer for `board`: its UCI moves, best first. An
    /// empty answer ends the opening for good.
    pub fn accept_answer(&mut self, board: &Board, texts: &Vec<String>) -> (r: Vec<ChessMove>)
        ensures
            final(self).spec_out_of_opening() == (old(self).spec_out_of_opening() || texts@.len() == 0),
            r@ == moves_from_texts(board@, texts_of(texts@)),
    {
        if texts.len() == 0 {
            self.out_of_opening = true;
        }
        moves_from_answer(board, texts)
    }
}

/// The endgame-tablebase provider.
pub struct Endgame;

/// The largest number of pieces for which the tablebase is asked.
pub const ENDGAME_MAX_PIECES: u16 = 7;

impl Endgame {
    /// Whether the tablebase is to be asked about `board`: it holds at most
    /// seven pieces.
    pub fn applies(board: &Board) -> (r: bool)
        ensures
            r == (board@.piece_count() <= ENDGAME_MAX_PIECES),
    {
        board.piece_count() <= ENDGAME_MAX_PIECES
    }

    /// Takes the tablebase's answer for `board`: its UCI moves in the
    /// order of preference it gives.
    pub fn accept_answer(board: &Board, texts: &Vec<String>) -> (r: Vec<ChessMove>)
        ensures
            r@ == moves_from_texts(board@, texts_of(texts@)),
    {
        moves_from_answer(board, texts)
    }
}

/// The result of a computation that was cancelled before it finished.
pub struct CancellationError;

/// Chooses the recommended move.
pub struct Controller;

impl Controller {
    /// The candidates of the first provider that has any: the lists are
    /// the providers' answers in the order the providers are asked.
    pub fn first_candidates(answers: &Vec<Vec<ChessMove>>) -> (r: Vec<ChessMove>)
        ensures
            r@.len() == 0 <==> forall|i: int| 0 <= i < answers@.len() ==> (#[trigger] answers@[i])@.len() == 0,
            r@.len() > 0 ==> exists|i: int| 0 <= i < answers@.len() && r@ == (#[trigger] answers@[i])@
                && forall|j: int| 0 <= j < i ==> (#[trigger] answers@[j])@.len() == 0,
    {
        let mut i: usize = 0;
        while i < answers.len()
            invariant
                0 <= i <= answers@.len(),
                forall|j: int| 0 <= j < i ==> (#[trigger] answers@[j])@.len() == 0,
            decreases answers@.len() - i,
        {
            if answers[i].len() > 0 {
                return answers[i].clone();
            }
            i = i + 1;
        }
        Vec::new()
    }

    /// The candidate at `index` (0 is the best), if there is one.
    pub fn pick(moves: &Vec<ChessMove>, index: usize) -> (r: Option<ChessMove>)
        ensures
            index < moves@.len() ==> r == Some(moves@[index as int]),
            index >= moves@.len() ==> r is None,
    {
        if index < moves.len() {
            Some(moves[index])
        } else {
            None
        }
    }
}

} // verus!
