//! The position: piece placement, side to move, castling rights, en-passant
//! target and move counter, and the operation that plays a move on it.

use vstd::prelude::*;
use crate::pieces::{ChessMove, Color, Field, File, Piece, PieceType, Rank, square};

verus! {

/// The mathematical content of a board.
pub struct BoardModel {
    /// Square contents, indexed by `Field::sq` (`a1` is 0, `h8` is 63).
    pub squares: Seq<Option<Piece>>,
    pub next_color: Color,
    pub move_counter: u16,
    pub en_passant: Option<Field>,
    pub white_short: bool,
    pub white_long: bool,
    pub black_short: bool,
    pub black_long: bool,
}

/// Number of occupied entries in a sequence of squares.
pub open spec fn count_pieces(s: Seq<Option<Piece>>) -> nat
    decreases s.len(),
{
    if s.len() == 0 {
        0
    } else {
        count_pieces(s.drop_last()) + if s.last() is Some {
            1nat
        } else {
            0nat
        }
    }
}

/// The rank on which the pieces of a side start.
pub open spec fn home_rank(c: Color) -> Rank {
    match c {
        Color::WHITE => Rank::ONE,
        Color::BLACK => Rank::EIGHT,
    }
}

impl BoardModel {
    pub open spec fn at(self, f: Field) -> Option<Piece> {
        self.squares[f.sq()]
    }

    pub open spec fn set(self, f: Field, p: Option<Piece>) -> BoardModel {
        BoardModel { squares: self.squares.update(f.sq(), p), ..self }
    }

    pub open spec fn piece_count(self) -> nat {
        count_pieces(self.squares)
    }

    /// Castling rights after the piece `p` leaves the square `from`.
    pub open spec fn rights_after(self, p: Piece, from: Field) -> BoardModel {
        if p.piece_type == PieceType::KING {
            match p.color {
                Color::WHITE => BoardModel { white_short: false, white_long: false, ..self },
                Color::BLACK => BoardModel { black_short: false, black_long: false, ..self },
            }
        } else if p.piece_type == PieceType::ROOK && from.rank == home_rank(p.color) {
            if from.file == File::A {
                match p.color {
                    Color::WHITE => BoardModel { white_long: false, ..self },
                    Color::BLACK => BoardModel { black_long: false, ..self },
                }
            } else if from.file == File::H {
                match p.color {
                    Color::WHITE => BoardModel { white_short: false, ..self },
                    Color::BLACK => BoardModel { black_short: false, ..self },
                }
            } else {
                self
            }
        } else {
            self
        }
    }

    /// Removes the pawn taken en passant, if the move is one.
    pub open spec fn after_en_passant_capture(self, p: Piece, m: ChessMove) -> BoardModel {
        if p.piece_type == PieceType::PAWN && m.to_field.file != m.from_field.file && self.at(
            m.to_field,
        ) is None {
            self.set(Field { rank: m.from_field.rank, file: m.to_field.file }, None)
        } else {
            self
        }
    }

    /// Moves the rook when a king has just made a castling move.
    pub open spec fn after_rook_swing(self, m: ChessMove) -> BoardModel {
        let from = m.from_field;
        let to = m.to_field;
        if self.at(to) is Some && self.at(to)->0.piece_type == PieceType::KING && from.file
            == File::E {
            if from.rank == Rank::ONE && to.rank == Rank::ONE && to.file == File::G {
                self.set(square(0, 5), Some(Piece { color: Color::WHITE, piece_type: PieceType::ROOK })).set(square(0, 7), None)
            } else if from.rank == Rank::ONE && to.rank == Rank::ONE && to.file == File::C {
                self.set(square(0, 3), Some(Piece { color: Color::WHITE, piece_type: PieceType::ROOK })).set(square(0, 0), None)
            } else if from.rank == Rank::EIGHT && to.rank == Rank::EIGHT && to.file == File::G {
                self.set(square(7, 5), Some(Piece { color: Color::BLACK, piece_type: PieceType::ROOK })).set(square(7, 7), None)
            } else if from.rank == Rank::EIGHT && to.rank == Rank::EIGHT && to.file == File::C {
                self.set(square(7, 3), Some(Piece { color: Color::BLACK, piece_type: PieceType::ROOK })).set(square(7, 0), None)
            } else {
                self
            }
        } else {
            self
        }
    }

    /// The en-passant target after the piece `p` made the move `m`.
    pub open spec fn en_passant_after(p: Piece, m: ChessMove) -> Option<Field> {
        if p.piece_type == PieceType::PAWN && p.color == Color::WHITE && m.from_field.rank
            == Rank::TWO && m.to_field.rank == Rank::FOUR {
            Some(Field { rank: Rank::THREE, file: m.from_field.file })
        } else if p.piece_type == PieceType::PAWN && p.color == Color::BLACK && m.from_field.rank
            == Rank::SEVEN && m.to_field.rank == Rank::FIVE {
            Some(Field { rank: Rank::SIX, file: m.from_field.file })
        } else {
            None
        }
    }

    /// The board after playing `m`, whose source square must hold a piece.
    pub open spec fn played(self, m: ChessMove) -> BoardModel {
        let p = self.at(m.from_field)->0;
        let b1 = self.rights_after(p, m.from_field);
        let b2 = b1.after_en_passant_capture(p, m);
        let b3 = b2.set(m.to_field, Some(p)).set(m.from_field, None);
        let b4 = b3.after_rook_swing(m);
        let b5 = match m.promote_to {
            Some(k) => b4.set(m.to_field, Some(Piece { color: p.color, piece_type: k })),
            None => b4,
        };
        BoardModel {
            en_passant: BoardModel::en_passant_after(p, m),
            next_color: self.next_color.other(),
            move_counter: if self.move_counter < u16::MAX {
                (self.move_counter + 1) as u16
            } else {
                u16::MAX
            },
            ..b5
        }
    }
}

/// A chess position.
#[derive(Copy, Clone)]
pub struct Board {
    /// The square a pawn just passed over, if any.
    en_passant_field: Option<Field>,
    /// Square contents, rank-major: index `rank * 8 + file`.
    pieces: [Option<Piece>; 64],
    /// The side to move.
    next_color: Color,
    /// Number of the next move; counted per ply.
    move_counter: u16,
    white_can_castle_short: bool,
    white_can_castle_long: bool,
    black_can_castle_short: bool,
    black_can_castle_long: bool,
}

impl View for Board {
    type V = BoardModel;

    closed spec fn view(&self) -> BoardModel {
        BoardModel {
            squares: self.pieces@,
            next_color: self.next_color,
            move_counter: self.move_counter,
            en_passant: self.en_passant_field,
            white_short: self.white_can_castle_short,
            white_long: self.white_can_castle_long,
            black_short: self.black_can_castle_short,
            black_long: self.black_can_castle_long,
        }
    }
}

/// Every board has exactly 64 squares.
pub broadcast proof fn lemma_board_squares(b: Board)
    ensures
        #[trigger] b@.squares.len() == 64,
{
}

/// Index of a square in the piece array.
fn index_of(field: &Field) -> (r: usize)
    ensures
        r as int == field.sq(),
        r < 64,
{
    field.rank().to_index() * 8 + field.file().to_index()
}

impl Board {
    /// An empty board: white to move, every castling right held, no
    /// en-passant target, move counter 1.
    pub fn new() -> (r: Board)
        ensures
            r@.squares == Seq::new(64, |i: int| None::<Piece>),
            r@.next_color == Color::WHITE,
            r@.move_counter == 1,
            r@.en_passant is None,
            r@.white_short && r@.white_long && r@.black_short && r@.black_long,
    {
        let b = Board {
            en_passant_field: None,
            pieces: [None;64],
            next_color: Color::WHITE,
            move_counter: 1,
            white_can_castle_short: true,
            white_can_castle_long: true,
            black_can_castle_short: true,
            black_can_castle_long: true,
        };
        assert(b@.squares =~= Seq::new(64, |i: int| None::<Piece>));
        b
    }

    pub fn get_piece(&self, field: &Field) -> (r: &Option<Piece>)
        ensures
            *r == self@.at(*field),
    {
        &self.pieces[index_of(field)]
    }

    pub fn set_piece(&mut self, piece: Option<Piece>, field: &Field)
        ensures
            final(self)@ == old(self)@.set(*field, piece),
    {
        let i = index_of(field);
        self.pieces[i] = piece;
    }

    /// Clears the castling rights that the piece `p` loses by leaving `from`.
    fn update_castling_rights(&mut self, p: Piece, from: Field)
        ensures
            final(self)@ == old(self)@.rights_after(p, from),
    {
        if p.piece_type() == PieceType::KING {
            match p.color() {
                Color::WHITE => {
                    self.white_can_castle_long = false;
                    self.white_can_castle_short = false;
                },
                Color::BLACK => {
                    self.black_can_castle_long = false;
                    self.black_can_castle_short = false;
                },
            }
        } else if p.piece_type() == PieceType::ROOK && from.rank() == match p.color() {
            Color::WHITE => Rank::ONE,
            Color::BLACK => Rank::EIGHT,
        } {
            if from.file() == File::A {
                match p.color() {
                    Color::WHITE => self.white_can_castle_long = false,
                    Color::BLACK => self.black_can_castle_long = false,
                }
            } else if from.file() == File::H {
                match p.color() {
                    Color::WHITE => self.white_can_castle_short = false,
                    Color::BLACK => self.black_can_castle_short = false,
                }
            }
        }
    }

    /// Moves the rook over the king when the king has just castled.
    fn swing_castling_rook(&mut self, m: &ChessMove)
        ensures
            final(self)@ == old(self)@.after_rook_swing(*m),
    {
        let from = m.from_field;
        let to = m.to_field;
        let landed = *self.get_piece(&to);
        if landed.is_some() && landed.unwrap().piece_type() == PieceType::KING && from.file()
            == File::E {
            if from.rank() == Rank::ONE && to.rank() == Rank::ONE && to.file() == File::G {
                self.set_piece(
                    Some(Piece::new(Color::WHITE, PieceType::ROOK)),
                    &Field::new(File::F, Rank::ONE),
                );
                self.set_piece(None, &Field::new(File::H, Rank::ONE));
            } else if from.rank() == Rank::ONE && to.rank() == Rank::ONE && to.file() == File::C {
                self.set_piece(
                    Some(Piece::new(Color::WHITE, PieceType::ROOK)),
                    &Field::new(File::D, Rank::ONE),
                );
                self.set_piece(None, &Field::new(File::A, Rank::ONE));
            } else if from.rank() == Rank::EIGHT && to.rank() == Rank::EIGHT && to.file()
                == File::G {
                self.set_piece(
                    Some(Piece::new(Color::BLACK, PieceType::ROOK)),
                    &Field::new(File::F, Rank::EIGHT),
                );
                self.set_piece(None, &Field::new(File::H, Rank::EIGHT));
            } else if from.rank() == Rank::EIGHT && to.rank() == Rank::EIGHT && to.file()
                == File::C {
                self.set_piece(
                    Some(Piece::new(Color::BLACK, PieceType::ROOK)),
                    &Field::new(File::D, Rank::EIGHT),
                );
                self.set_piece(None, &Field::new(File::A, Rank::EIGHT));
            }
        }
    }

    /// The en-passant target that the piece `p` leaves by making the move `m`.
    fn en_passant_target(p: Piece, m: &ChessMove) -> (r: Option<Field>)
        ensures
            r == BoardModel::en_passant_after(p, *m),
    {
        let from = m.from_field;
        let to = m.to_field;
        if p.piece_type() == PieceType::PAWN && p.color() == Color::WHITE && from.rank()
            == Rank::TWO && to.rank() == Rank::FOUR {
            Some(Field::new(from.file(), Rank::THREE))
        } else if p.piece_type() == PieceType::PAWN && p.color() == Color::BLACK && from.rank()
            == Rank::SEVEN && to.rank() == Rank::FIVE {
            Some(Field::new(from.file(), Rank::SIX))
        } else {
            None
        }
    }

    /// Plays a move whose source square holds a piece.
    pub fn play_move(&mut self, chess_move: &ChessMove)
        requires
            old(self)@.at(chess_move.from_field) is Some,
        ensures
            final(self)@ == old(self)@.played(*chess_move),
    {
        let ghost b0 = self@;
        let from = chess_move.from_field;
        let to = chess_move.to_field;
        let piece_from = self.get_piece(&from).unwrap();

        self.update_castling_rights(piece_from, from);
        let ghost b1 = self@;

        // a pawn moving diagonally onto an empty square takes en passant
        if piece_from.piece_type() == PieceType::PAWN && to.file() != from.file()
            && self.get_piece(&to).is_none() {
            self.set_piece(None, &Field::new(to.file(), from.rank()));
        }
        assert(self@ == b1.after_en_passant_capture(piece_from, *chess_move));

        self.set_piece(Some(piece_from), &to);
        self.set_piece(None, &from);
        self.swing_castling_rook(chess_move);

        match chess_move.promote_to() {
            Some(kind) => {
                self.set_piece(Some(Piece::new(piece_from.color(), *kind)), &to);
            },
            None => {},
        }

        self.en_passant_field = Board::en_passant_target(piece_from, chess_move);
        self.next_color = self.next_color.opponent();
        self.move_counter = self.move_counter.saturating_add(1);
    }

    /// Number of pieces on the board.
    pub fn piece_count(&self) -> (r: u16)
        ensures
            r as nat == self@.piece_count(),
    {
        let mut n: u16 = 0;
        let mut i: usize = 0;
        while i < 64
            invariant
                0 <= i <= 64,
                n as nat == count_pieces(self.pieces@.take(i as int)),
                n <= i,
            decreases 64 - i,
        {
            proof {
                assert(self.pieces@.take(i as int + 1).drop_last() =~= self.pieces@.take(i as int));
            }
            if self.pieces[i].is_some() {
                n = n + 1;
            }
            i = i + 1;
        }
        assert(self.pieces@.take(64) =~= self.pieces@);
        n
    }

    pub fn black_can_castle_long(&self) -> (r: bool)
        ensures
            r == self@.black_long,
    {
        self.black_can_castle_long
    }

    pub fn black_can_castle_short(&self) -> (r: bool)
        ensures
            r == self@.black_short,
    {
        self.black_can_castle_short
    }

    pub fn white_can_castle_long(&self) -> (r: bool)
        ensures
            r == self@.white_long,
    {
        self.white_can_castle_long
    }

    pub fn white_can_castle_short(&self) -> (r: bool)
        ensures
            r == self@.white_short,
    {
        self.white_can_castle_short
    }

    pub fn move_counter(&self) -> (r: u16)
        ensures
            r == self@.move_counter,
    {
        self.move_counter
    }

    pub fn next_color(&self) -> (r: Color)
        ensures
            r == self@.next_color,
    {
        self.next_color
    }

    pub fn en_passant_field(&self) -> (r: &Option<Field>)
        ensures
            *r == self@.en_passant,
    {
        &self.en_passant_field
    }

    pub fn set_en_passant_field(&mut self, en_passant_field: Option<Field>)
        ensures
            final(self)@ == (BoardModel { en_passant: en_passant_field, ..old(self)@ }),
    {
        self.en_passant_field = en_passant_field;
    }

    pub fn set_next_color(&mut self, next_color: Color)
        ensures
            final(self)@ == (BoardModel { next_color, ..old(self)@ }),
    {
        self.next_color = next_color;
    }

    pub fn set_move_counter(&mut self, move_counter: u16)
        ensures
            final(self)@ == (BoardModel { move_counter, ..old(self)@ }),
    {
        self.move_counter = move_counter;
    }

    pub fn set_white_can_castle_short(&mut self, white_can_castle_short: bool)
        ensures
            final(self)@ == (BoardModel { white_short: white_can_castle_short, ..old(self)@ }),
    {
        self.white_can_castle_short = white_can_castle_short;
    }

    pub fn set_white_can_castle_long(&mut self, white_can_castle_long: bool)
        ensures
            final(self)@ == (BoardModel { white_long: white_can_castle_long, ..old(self)@ }),
    {
        self.white_can_castle_long = white_can_castle_long;
    }

    pub fn set_black_can_castle_short(&mut self, black_can_castle_short: bool)
        ensures
            final(self)@ == (BoardModel { black_short: black_can_castle_short, ..old(self)@ }),
    {
        self.black_can_castle_short = black_can_castle_short;
    }

    pub fn set_black_can_castle_long(&mut self, black_can_castle_long: bool)
        ensures
            final(self)@ == (BoardModel { black_long: black_can_castle_long, ..old(self)@ }),
    {
        self.black_can_castle_long = black_can_castle_long;
    }
}

} // verus!
