//! What playing a legal move does to the number of pieces, and where a
//! castling puts the rook.

use vstd::prelude::*;
use crate::board::{BoardModel, count_pieces, lemma_board_squares};
use crate::pieces::{ChessMove, Color, Field, File, Piece, PieceType, Rank, square};
use crate::rules::{
    castling_moves, en_passant_moves, enemy_on, is_empty, jumps, king_moves, king_offsets,
    knight_offsets, legal_moves, moves_of_piece, moves_onto, on_board, one_if, open_for, pawn_dir,
    pawn_home, pawn_moves, pawn_to, piece_on, visible,
};

verus! {

broadcast use lemma_board_squares;

/// Number of squares holding exactly the piece `x`.
pub open spec fn count_piece(s: Seq<Option<Piece>>, x: Piece) -> nat
    decreases s.len(),
{
    if s.len() == 0 {
        0
    } else {
        count_piece(s.drop_last(), x) + if s.last() == Some(x) {
            1nat
        } else {
            0nat
        }
    }
}

/// Whether a move takes a piece: its target square is occupied, or it is a
/// pawn's diagonal step (taking en passant).
pub open spec fn is_capture(b: BoardModel, m: ChessMove) -> bool {
    b.at(m.to_field) is Some || (b.at(m.from_field) is Some && b.at(m.from_field)->0.piece_type
        == PieceType::PAWN && m.to_field.file != m.from_field.file)
}

pub open spec fn king_of(c: Color) -> Option<Piece> {
    Some(Piece { color: c, piece_type: PieceType::KING })
}

pub open spec fn rook_of(c: Color) -> Option<Piece> {
    Some(Piece { color: c, piece_type: PieceType::ROOK })
}

pub open spec fn pawn_of(c: Color) -> Option<Piece> {
    Some(Piece { color: c, piece_type: PieceType::PAWN })
}

/// The rank index on which the pieces of color `c` start.
pub open spec fn home_row(c: Color) -> int {
    if c == Color::WHITE {
        0
    } else {
        7
    }
}

/// Whether the side to move's castling rights and king, and the
/// en-passant target, agree with the pieces: each right held means the
/// side's king and that rook stand on their starting squares, the side has
/// at most one king, and an en-passant target lies just behind a pawn of
/// the other side.
pub open spec fn consistent(b: BoardModel) -> bool {
    let c = b.next_color;
    let r = home_row(c);
    &&& b.squares.len() == 64
    &&& (if c == Color::WHITE { b.white_short } else { b.black_short }) ==> b.at(square(r, 4)) == king_of(c) && b.at(square(r, 7)) == rook_of(c)
    &&& (if c == Color::WHITE { b.white_long } else { b.black_long }) ==> b.at(square(r, 4)) == king_of(c) && b.at(square(r, 0)) == rook_of(c)
    &&& match b.en_passant {
        Some(t) => (c == Color::WHITE && t.rank == Rank::SIX && b.at(Field { rank: Rank::FIVE, file: t.file })
            == pawn_of(Color::BLACK)) || (c == Color::BLACK && t.rank == Rank::THREE && b.at(
            Field { rank: Rank::FOUR, file: t.file },
        ) == pawn_of(Color::WHITE)),
        None => true,
    }
    &&& forall|i: int, j: int|
        0 <= i < 64 && 0 <= j < 64 && b.squares[i] == king_of(c) && b.squares[j] == king_of(c) ==> i == j
}

proof fn lemma_count_update(s: Seq<Option<Piece>>, i: int, v: Option<Piece>)
    requires
        0 <= i < s.len(),
    ensures
        count_pieces(s.update(i, v)) + (if s[i] is Some { 1int } else { 0int }) == count_pieces(s) + (if v is Some { 1int } else { 0int }),
    decreases s.len(),
{
    if i == s.len() - 1 {
        assert(s.update(i, v).drop_last() =~= s.drop_last());
    } else {
        lemma_count_update(s.drop_last(), i, v);
        assert(s.update(i, v).drop_last() =~= s.drop_last().update(i, v));
    }
}

proof fn lemma_count_piece_update(s: Seq<Option<Piece>>, i: int, v: Option<Piece>, x: Piece)
    requires
        0 <= i < s.len(),
    ensures
        count_piece(s.update(i, v), x) + (if s[i] == Some(x) { 1int } else { 0int }) == count_piece(s, x) + (if v == Some(x) { 1int } else { 0int }),
    decreases s.len(),
{
    if i == s.len() - 1 {
        assert(s.update(i, v).drop_last() =~= s.drop_last());
    } else {
        lemma_count_piece_update(s.drop_last(), i, v, x);
        assert(s.update(i, v).drop_last() =~= s.drop_last().update(i, v));
    }
}

proof fn lemma_set_count(b: BoardModel, t: Field, v: Option<Piece>)
    requires
        b.squares.len() == 64,
    ensures
        count_pieces(b.set(t, v).squares) + (if b.at(t) is Some { 1int } else { 0int }) == count_pieces(b.squares) + (if v is Some { 1int } else { 0int }),
        b.set(t, v).squares.len() == 64,
        b.set(t, v).at(t) == v,
{
    lemma_count_update(b.squares, t.sq(), v);
}

proof fn lemma_set_count_piece(b: BoardModel, t: Field, v: Option<Piece>, x: Piece)
    requires
        b.squares.len() == 64,
    ensures
        count_piece(b.set(t, v).squares, x) + (if b.at(t) == Some(x) { 1int } else { 0int }) == count_piece(b.squares, x) + (if v == Some(x) { 1int } else { 0int }),
{
    lemma_count_piece_update(b.squares, t.sq(), v, x);
}

proof fn lemma_fields_differ(a: Field, c: Field)
    ensures
        a != c ==> a.sq() != c.sq(),
        a.sq() != c.sq() ==> a != c,
{
}

/// The count after moving the piece on `from` to `to`, overwriting what
/// stood there.
proof fn lemma_relocate(b: BoardModel, from: Field, to: Field, p: Piece)
    requires
        b.squares.len() == 64,
        from != to,
        b.at(from) is Some,
    ensures
        count_pieces(b.set(to, Some(p)).set(from, None).squares) + (if b.at(to) is Some { 1int } else { 0int }) == count_pieces(b.squares),
        b.set(to, Some(p)).set(from, None).at(to) == Some(p),
{
    lemma_fields_differ(from, to);
    lemma_set_count(b, to, Some(p));
    lemma_set_count(b.set(to, Some(p)), from, None);
}

/// A move of a piece other than a pawn onto a square open to it, which is
/// not a king's two-file step and promotes nothing, takes what stood there.
proof fn lemma_plain_move_count(b: BoardModel, m: ChessMove)
    requires
        consistent(b),
        b.at(m.from_field) is Some,
        b.at(m.from_field)->0.piece_type != PieceType::PAWN,
        b.at(m.to_field) is None || b.at(m.to_field)->0.color != b.at(m.from_field)->0.color,
        m.promote_to is None,
        b.at(m.from_field)->0.piece_type == PieceType::KING ==> -1 <= m.to_field.file.idx() - m.from_field.file.idx() <= 1,
    ensures
        count_pieces(b.played(m).squares) + (if is_capture(b, m) { 1int } else { 0int }) == count_pieces(b.squares),
{
    let p = b.at(m.from_field)->0;
    let b1 = b.rights_after(p, m.from_field);
    assert(b1.squares == b.squares);
    let b2 = b1.after_en_passant_capture(p, m);
    assert(b2 == b1);
    assert(m.from_field != m.to_field);
    lemma_relocate(b1, m.from_field, m.to_field, p);
    let b3 = b2.set(m.to_field, Some(p)).set(m.from_field, None);
    assert(b3.after_rook_swing(m) == b3);
}

/// A pawn's move onto an empty square of its own file: nothing is taken.
proof fn lemma_pawn_step_count(b: BoardModel, m: ChessMove)
    requires
        consistent(b),
        b.at(m.from_field) is Some,
        b.at(m.from_field)->0.piece_type == PieceType::PAWN,
        b.at(m.to_field) is None,
        m.to_field.file == m.from_field.file,
        m.to_field != m.from_field,
    ensures
        count_pieces(b.played(m).squares) + (if is_capture(b, m) { 1int } else { 0int }) == count_pieces(b.squares),
{
    let p = b.at(m.from_field)->0;
    let b1 = b.rights_after(p, m.from_field);
    let b2 = b1.after_en_passant_capture(p, m);
    assert(b2 == b1);
    lemma_relocate(b1, m.from_field, m.to_field, p);
    let b3 = b2.set(m.to_field, Some(p)).set(m.from_field, None);
    assert(b3.after_rook_swing(m) == b3);
    match m.promote_to {
        Some(k) => {
            lemma_set_count(b3, m.to_field, Some(Piece { color: p.color, piece_type: k }));
        },
        None => {},
    }
}

/// A pawn's capture onto an occupied square: one piece is taken.
proof fn lemma_pawn_capture_count(b: BoardModel, m: ChessMove)
    requires
        consistent(b),
        b.at(m.from_field) is Some,
        b.at(m.from_field)->0.piece_type == PieceType::PAWN,
        b.at(m.to_field) is Some,
        m.to_field != m.from_field,
    ensures
        count_pieces(b.played(m).squares) + (if is_capture(b, m) { 1int } else { 0int }) == count_pieces(b.squares),
{
    let p = b.at(m.from_field)->0;
    let b1 = b.rights_after(p, m.from_field);
    let b2 = b1.after_en_passant_capture(p, m);
    assert(b2 == b1);
    lemma_relocate(b1, m.from_field, m.to_field, p);
    let b3 = b2.set(m.to_field, Some(p)).set(m.from_field, None);
    assert(b3.after_rook_swing(m) == b3);
    match m.promote_to {
        Some(k) => {
            lemma_set_count(b3, m.to_field, Some(Piece { color: p.color, piece_type: k }));
        },
        None => {},
    }
}

/// A pawn's capture en passant: the pawn behind the target is taken.
proof fn lemma_en_passant_count(b: BoardModel, m: ChessMove)
    requires
        consistent(b),
        b.at(m.from_field) is Some,
        b.at(m.from_field)->0.piece_type == PieceType::PAWN,
        b.at(m.from_field)->0.color == b.next_color,
        b.en_passant == Some(m.to_field),
        b.at(m.to_field) is None,
        m.to_field.file != m.from_field.file,
        (b.next_color == Color::WHITE && m.from_field.rank == Rank::FIVE && m.to_field.rank == Rank::SIX)
            || (b.next_color == Color::BLACK && m.from_field.rank == Rank::FOUR && m.to_field.rank == Rank::THREE),
        m.promote_to is None,
    ensures
        count_pieces(b.played(m).squares) + (if is_capture(b, m) { 1int } else { 0int }) == count_pieces(b.squares),
{
    let p = b.at(m.from_field)->0;
    let b1 = b.rights_after(p, m.from_field);
    let taken = Field { rank: m.from_field.rank, file: m.to_field.file };
    let b2 = b1.after_en_passant_capture(p, m);
    assert(b1.at(m.to_field) is None);
    assert(b2 == b1.set(taken, None));
    assert(b1.at(taken) is Some);
    lemma_set_count(b1, taken, None);
    lemma_fields_differ(taken, m.from_field);
    lemma_fields_differ(taken, m.to_field);
    assert(b2.at(m.from_field) is Some);
    assert(b2.at(m.to_field) is None);
    assert(m.from_field != m.to_field);
    lemma_relocate(b2, m.from_field, m.to_field, p);
    let b3 = b2.set(m.to_field, Some(p)).set(m.from_field, None);
    assert(b3.after_rook_swing(m) == b3);
}

/// The king of color `c` on `(r, f)` holding a castling right stands on its
/// starting square.
proof fn lemma_castling_king_home(b: BoardModel, r: int, f: int, c: Color)
    requires
        consistent(b),
        on_board(r, f),
        piece_on(b, r, f) == king_of(c),
        c == b.next_color,
        if c == Color::WHITE { b.white_short || b.white_long } else { b.black_short || b.black_long },
    ensures
        r == (if c == Color::WHITE { 0int } else { 7int }),
        f == 4,
{
    let home = home_row(c);
    assert(b.squares[home * 8 + 4] == king_of(c));
    assert(b.squares[r * 8 + f] == king_of(c));
    assert(r * 8 + f == home * 8 + 4);
}

/// What a castling of the king of color `c` from its starting square does:
/// no piece is taken, the side keeps its rooks, and one of them stands next
/// to the king on the inner side.
proof fn lemma_castle_effect(b: BoardModel, m: ChessMove, c: Color)
    requires
        consistent(b),
        c == b.next_color,
        b.at(m.from_field) == king_of(c),
        m.from_field == square(if c == Color::WHITE { 0int } else { 7int }, 4),
        m.promote_to is None,
        ({
            let r = if c == Color::WHITE { 0int } else { 7int };
            ||| (m.to_field == square(r, 2) && (if c == Color::WHITE { b.white_long } else { b.black_long }) && is_empty(b, r, 1) && is_empty(b, r, 2) && is_empty(b, r, 3))
            ||| (m.to_field == square(r, 6) && (if c == Color::WHITE { b.white_short } else { b.black_short }) && is_empty(b, r, 5) && is_empty(b, r, 6))
        }),
    ensures
        count_pieces(b.played(m).squares) + (if is_capture(b, m) { 1int } else { 0int }) == count_pieces(b.squares),
        count_piece(b.played(m).squares, Piece { color: c, piece_type: PieceType::ROOK }) == count_piece(b.squares, Piece { color: c, piece_type: PieceType::ROOK }),
        b.played(m).at(Field { rank: m.from_field.rank, file: if m.to_field.file == File::G { File::F } else { File::D } }) == rook_of(c),
{
    let r = if c == Color::WHITE { 0int } else { 7int };
    let rook = Piece { color: c, piece_type: PieceType::ROOK };
    let k = b.at(m.from_field)->0;
    let b1 = b.rights_after(k, m.from_field);
    assert(b1.squares == b.squares);
    let b2 = b1.after_en_passant_capture(k, m);
    assert(b2 == b1);
    assert(b1.at(m.to_field) is None);
    lemma_fields_differ(m.from_field, m.to_field);
    lemma_relocate(b1, m.from_field, m.to_field, k);
    let b3 = b2.set(m.to_field, Some(k)).set(m.from_field, None);
    lemma_set_count_piece(b2, m.to_field, Some(k), rook);
    lemma_set_count_piece(b2.set(m.to_field, Some(k)), m.from_field, None, rook);
    let long = m.to_field == square(r, 2);
    let inner = if long { square(r, 3) } else { square(r, 5) };
    let corner = if long { square(r, 0) } else { square(r, 7) };
    lemma_fields_differ(inner, m.to_field);
    lemma_fields_differ(inner, m.from_field);
    lemma_fields_differ(corner, m.to_field);
    lemma_fields_differ(corner, m.from_field);
    lemma_fields_differ(corner, inner);
    assert(b3.at(inner) is None);
    assert(b3.at(corner) == rook_of(c));
    let b4 = b3.after_rook_swing(m);
    assert(b4 == b3.set(inner, rook_of(c)).set(corner, None));
    lemma_set_count(b3, inner, rook_of(c));
    lemma_set_count(b3.set(inner, rook_of(c)), corner, None);
    lemma_set_count_piece(b3, inner, rook_of(c), rook);
    lemma_set_count_piece(b3.set(inner, rook_of(c)), corner, None, rook);
    assert(b4.at(inner) == rook_of(c));
}

proof fn lemma_moves_onto_open(b: BoardModel, from: Field, ts: Seq<Field>, c: Color)
    ensures
        forall|i: int| 0 <= i < moves_onto(b, from, ts, c).len() ==> {
            let m = #[trigger] moves_onto(b, from, ts, c)[i];
            &&& m.promote_to is None
            &&& m.from_field == from
            &&& open_for(b, m.to_field.rank.idx(), m.to_field.file.idx(), c)
        },
    decreases ts.len(),
{
    if ts.len() > 0 {
        lemma_moves_onto_open(b, from, ts.drop_last(), c);
        let prev = moves_onto(b, from, ts.drop_last(), c);
        assert forall|i: int| 0 <= i < moves_onto(b, from, ts, c).len() implies {
            let m = #[trigger] moves_onto(b, from, ts, c)[i];
            &&& m.promote_to is None
            &&& m.from_field == from
            &&& open_for(b, m.to_field.rank.idx(), m.to_field.file.idx(), c)
        } by {
            if i < prev.len() {
                assert(moves_onto(b, from, ts, c)[i] == prev[i]);
            }
        }
    }
}

proof fn lemma_jumps_open(b: BoardModel, r: int, f: int, offs: Seq<(isize, isize)>, n: int, c: Color, guarded: bool)
    requires
        n <= offs.len(),
    ensures
        forall|i: int| 0 <= i < jumps(b, r, f, offs, n, c, guarded).len() ==> {
            let m = #[trigger] jumps(b, r, f, offs, n, c, guarded)[i];
            &&& m.promote_to is None
            &&& m.from_field == square(r, f)
            &&& exists|j: int| 0 <= j < n && open_for(b, r + offs[j].0, f + offs[j].1, c) && m.to_field == square(r + offs[j].0, f + offs[j].1)
        },
    decreases n,
{
    if n > 0 {
        lemma_jumps_open(b, r, f, offs, n - 1, c, guarded);
        let prev = jumps(b, r, f, offs, n - 1, c, guarded);
        assert forall|i: int| 0 <= i < jumps(b, r, f, offs, n, c, guarded).len() implies {
            let m = #[trigger] jumps(b, r, f, offs, n, c, guarded)[i];
            &&& m.promote_to is None
            &&& m.from_field == square(r, f)
            &&& exists|j: int| 0 <= j < n && open_for(b, r + offs[j].0, f + offs[j].1, c) && m.to_field == square(r + offs[j].0, f + offs[j].1)
        } by {
            if i < prev.len() {
                assert(jumps(b, r, f, offs, n, c, guarded)[i] == prev[i]);
            } else {
                let j = n - 1;
                assert(open_for(b, r + offs[j].0, f + offs[j].1, c));
            }
        }
    }
}

/// Whether `m` has the shape of a castling: the king steps two files from
/// the e-file along its rank.
pub open spec fn is_castling(b: BoardModel, m: ChessMove) -> bool {
    &&& b.at(m.from_field) is Some
    &&& b.at(m.from_field)->0.piece_type == PieceType::KING
    &&& m.from_field.file == File::E
    &&& (m.to_field.file == File::G || m.to_field.file == File::C)
    &&& m.to_field.rank == m.from_field.rank
}

/// What a move does to the number of pieces.
pub open spec fn count_kept(b: BoardModel, m: ChessMove) -> bool {
    count_pieces(b.played(m).squares) + (if is_capture(b, m) { 1int } else { 0int }) == count_pieces(b.squares)
}

/// What a castling does to the castling side's rooks.
pub open spec fn rook_kept(b: BoardModel, m: ChessMove) -> bool {
    let c = b.at(m.from_field)->0.color;
    is_castling(b, m) ==> count_piece(b.played(m).squares, Piece { color: c, piece_type: PieceType::ROOK })
        == count_piece(b.squares, Piece { color: c, piece_type: PieceType::ROOK }) && b.played(m).at(
        Field { rank: m.from_field.rank, file: if m.to_field.file == File::G { File::F } else { File::D } },
    ) == rook_of(c)
}

proof fn lemma_slider(b: BoardModel, r: int, f: int, dirs: Seq<(isize, isize)>)
    requires
        consistent(b),
        on_board(r, f),
        piece_on(b, r, f) is Some,
        piece_on(b, r, f)->0.piece_type != PieceType::PAWN,
        piece_on(b, r, f)->0.piece_type != PieceType::KING,
    ensures
        forall|i: int| 0 <= i < moves_onto(b, square(r, f), visible(b, r, f, dirs), piece_on(b, r, f)->0.color).len() ==> {
            let m = #[trigger] moves_onto(b, square(r, f), visible(b, r, f, dirs), piece_on(b, r, f)->0.color)[i];
            count_kept(b, m) && rook_kept(b, m)
        },
{
    let c = piece_on(b, r, f)->0.color;
    let ms = moves_onto(b, square(r, f), visible(b, r, f, dirs), c);
    lemma_moves_onto_open(b, square(r, f), visible(b, r, f, dirs), c);
    assert(b.at(square(r, f)) == piece_on(b, r, f));
    assert forall|i: int| 0 <= i < ms.len() implies count_kept(b, #[trigger] ms[i]) && rook_kept(b, ms[i]) by {
        let m = ms[i];
        assert(b.at(m.to_field) == piece_on(b, m.to_field.rank.idx(), m.to_field.file.idx()));
        lemma_plain_move_count(b, m);
    }
}

proof fn lemma_square_idx(r: int, f: int)
    requires
        on_board(r, f),
    ensures
        square(r, f).rank.idx() == r,
        square(r, f).file.idx() == f,
        square(r, f).sq() == r * 8 + f,
{
}

/// One jump of a piece other than a pawn from `(r, f)` onto the open
/// square `(tr, tf)`; a king's jump stays within one file.
proof fn lemma_jump_step(b: BoardModel, r: int, f: int, tr: int, tf: int, m: ChessMove)
    requires
        consistent(b),
        on_board(r, f),
        piece_on(b, r, f) is Some,
        piece_on(b, r, f)->0.piece_type != PieceType::PAWN,
        open_for(b, tr, tf, piece_on(b, r, f)->0.color),
        m.promote_to is None,
        m.from_field == square(r, f),
        m.to_field == square(tr, tf),
        piece_on(b, r, f)->0.piece_type == PieceType::KING ==> -1 <= tf - f <= 1,
    ensures
        count_kept(b, m),
        rook_kept(b, m),
{
    lemma_square_idx(r, f);
    lemma_square_idx(tr, tf);
    assert(b.at(m.from_field) == piece_on(b, r, f));
    assert(b.at(m.to_field) == piece_on(b, tr, tf));
    lemma_plain_move_count(b, m);
}

proof fn lemma_jumper(b: BoardModel, r: int, f: int, offs: Seq<(isize, isize)>, guarded: bool)
    requires
        consistent(b),
        on_board(r, f),
        piece_on(b, r, f) is Some,
        piece_on(b, r, f)->0.piece_type != PieceType::PAWN,
        offs.len() == 8,
        piece_on(b, r, f)->0.piece_type == PieceType::KING ==> forall|j: int| 0 <= j < 8 ==> -1 <= (#[trigger] offs[j]).1 <= 1,
    ensures
        forall|i: int| 0 <= i < jumps(b, r, f, offs, 8, piece_on(b, r, f)->0.color, guarded).len() ==> {
            let m = #[trigger] jumps(b, r, f, offs, 8, piece_on(b, r, f)->0.color, guarded)[i];
            count_kept(b, m) && rook_kept(b, m)
        },
{
    let c = piece_on(b, r, f)->0.color;
    let ms = jumps(b, r, f, offs, 8, c, guarded);
    lemma_jumps_open(b, r, f, offs, 8, c, guarded);
    assert(b.at(square(r, f)) == piece_on(b, r, f));
    assert forall|i: int| 0 <= i < ms.len() implies count_kept(b, #[trigger] ms[i]) && rook_kept(b, ms[i]) by {
        let m = ms[i];
        let j = choose|j: int| 0 <= j < 8 && open_for(b, r + offs[j].0, f + offs[j].1, c) && m.to_field == square(r + offs[j].0, f + offs[j].1);
        lemma_jump_step(b, r, f, r + offs[j].0, f + offs[j].1, m);
    }
}

proof fn lemma_king(b: BoardModel, r: int, f: int)
    requires
        consistent(b),
        on_board(r, f),
        piece_on(b, r, f) is Some,
        piece_on(b, r, f)->0.piece_type == PieceType::KING,
        piece_on(b, r, f)->0.color == b.next_color,
    ensures
        forall|i: int| 0 <= i < king_moves(b, r, f).len() ==> {
            let m = #[trigger] king_moves(b, r, f)[i];
            count_kept(b, m) && rook_kept(b, m)
        },
{
    let c = piece_on(b, r, f)->0.color;
    assert(piece_on(b, r, f) == king_of(c));
    assert(forall|j: int| 0 <= j < 8 ==> -1 <= (#[trigger] king_offsets()[j]).1 <= 1);
    lemma_jumper(b, r, f, king_offsets(), true);
    let cm = castling_moves(b, r, f, c);
    let jm = jumps(b, r, f, king_offsets(), 8, c, true);
    let ms = king_moves(b, r, f);
    assert(ms == cm + jm);
    assert(b.at(square(r, f)) == piece_on(b, r, f));
    assert forall|i: int| 0 <= i < cm.len() implies count_kept(b, #[trigger] cm[i]) && rook_kept(b, cm[i]) by {
        let m = cm[i];
        lemma_castling_king_home(b, r, f, c);
        lemma_castle_effect(b, m, c);
    }
    assert forall|i: int| 0 <= i < ms.len() implies count_kept(b, #[trigger] ms[i]) && rook_kept(b, ms[i]) by {
        if i < cm.len() {
            assert(ms[i] == cm[i]);
        } else {
            assert(ms[i] == jm[i - cm.len()]);
        }
    }
}

/// Whether every move of `ms` keeps the count law and the rook law.
pub open spec fn all_kept(b: BoardModel, ms: Seq<ChessMove>) -> bool {
    forall|i: int| 0 <= i < ms.len() ==> count_kept(b, #[trigger] ms[i]) && rook_kept(b, ms[i])
}

proof fn lemma_pawn_step(b: BoardModel, r: int, f: int, tr: int)
    requires
        consistent(b),
        on_board(r, f),
        piece_on(b, r, f) is Some,
        piece_on(b, r, f)->0.piece_type == PieceType::PAWN,
        tr != r,
    ensures
        all_kept(b, one_if(on_board(tr, f) && is_empty(b, tr, f), pawn_to(r, f, piece_on(b, r, f)->0.color, tr, f))),
{
    let c = piece_on(b, r, f)->0.color;
    let s1 = one_if(on_board(tr, f) && is_empty(b, tr, f), pawn_to(r, f, c, tr, f));
    if s1.len() > 0 {
        lemma_square_idx(r, f);
        lemma_square_idx(tr, f);
        assert(b.at(square(r, f)) == piece_on(b, r, f));
        assert(b.at(square(tr, f)) == piece_on(b, tr, f));
        lemma_pawn_step_count(b, s1[0]);
    }
}

proof fn lemma_pawn_take(b: BoardModel, r: int, f: int, tr: int, tf: int)
    requires
        consistent(b),
        on_board(r, f),
        piece_on(b, r, f) is Some,
        piece_on(b, r, f)->0.piece_type == PieceType::PAWN,
    ensures
        all_kept(b, one_if(enemy_on(b, tr, tf, piece_on(b, r, f)->0.color), pawn_to(r, f, piece_on(b, r, f)->0.color, tr, tf))),
{
    let c = piece_on(b, r, f)->0.color;
    let s2 = one_if(enemy_on(b, tr, tf, c), pawn_to(r, f, c, tr, tf));
    if s2.len() > 0 {
        lemma_square_idx(r, f);
        lemma_square_idx(tr, tf);
        assert(b.at(square(r, f)) == piece_on(b, r, f));
        assert(b.at(square(tr, tf)) == piece_on(b, tr, tf));
        assert(s2[0].to_field != s2[0].from_field);
        lemma_pawn_capture_count(b, s2[0]);
    }
}

proof fn lemma_pawn_double(b: BoardModel, r: int, f: int)
    requires
        consistent(b),
        on_board(r, f),
        piece_on(b, r, f) is Some,
        piece_on(b, r, f)->0.piece_type == PieceType::PAWN,
    ensures
        ({
            let c = piece_on(b, r, f)->0.color;
            let d = pawn_dir(c);
            all_kept(b, one_if(
                pawn_home(r, c) && on_board(r + d, f) && is_empty(b, r + d, f) && on_board(r + 2 * d, f) && is_empty(b, r + 2 * d, f),
                pawn_to(r, f, c, r + 2 * d, f),
            ))
        }),
{
    let c = piece_on(b, r, f)->0.color;
    let d = pawn_dir(c);
    let s4 = one_if(
        pawn_home(r, c) && on_board(r + d, f) && is_empty(b, r + d, f) && on_board(r + 2 * d, f) && is_empty(b, r + 2 * d, f),
        pawn_to(r, f, c, r + 2 * d, f),
    );
    if s4.len() > 0 {
        lemma_square_idx(r, f);
        lemma_square_idx(r + 2 * d, f);
        assert(b.at(square(r, f)) == piece_on(b, r, f));
        assert(b.at(square(r + 2 * d, f)) == piece_on(b, r + 2 * d, f));
        lemma_pawn_step_count(b, s4[0]);
    }
}

proof fn lemma_pawn_en_passant(b: BoardModel, r: int, f: int)
    requires
        consistent(b),
        on_board(r, f),
        piece_on(b, r, f) is Some,
        piece_on(b, r, f)->0.piece_type == PieceType::PAWN,
        piece_on(b, r, f)->0.color == b.next_color,
    ensures
        all_kept(b, en_passant_moves(b, r, f, piece_on(b, r, f)->0.color)),
{
    let c = piece_on(b, r, f)->0.color;
    let s5 = en_passant_moves(b, r, f, c);
    if s5.len() > 0 {
        lemma_square_idx(r, f);
        assert(b.at(square(r, f)) == piece_on(b, r, f));
        let t = b.en_passant->0;
        assert(s5[0].to_field == t);
        assert(s5[0].promote_to is None);
        if b.at(t) is None {
            lemma_en_passant_count(b, s5[0]);
        } else {
            assert(s5[0].to_field.rank != s5[0].from_field.rank);
            lemma_pawn_capture_count(b, s5[0]);
        }
    }
}

proof fn lemma_all_kept_concat(b: BoardModel, x: Seq<ChessMove>, y: Seq<ChessMove>)
    requires
        all_kept(b, x),
        all_kept(b, y),
    ensures
        all_kept(b, x + y),
{
    assert forall|i: int| 0 <= i < (x + y).len() implies count_kept(b, #[trigger] (x + y)[i]) && rook_kept(b, (x + y)[i]) by {
        if i < x.len() {
            assert((x + y)[i] == x[i]);
        } else {
            assert((x + y)[i] == y[i - x.len()]);
        }
    }
}

proof fn lemma_pawn(b: BoardModel, r: int, f: int)
    requires
        consistent(b),
        on_board(r, f),
        piece_on(b, r, f) is Some,
        piece_on(b, r, f)->0.piece_type == PieceType::PAWN,
        piece_on(b, r, f)->0.color == b.next_color,
    ensures
        all_kept(b, pawn_moves(b, r, f)),
{
    let c = piece_on(b, r, f)->0.color;
    let d = pawn_dir(c);
    let s1 = one_if(on_board(r + d, f) && is_empty(b, r + d, f), pawn_to(r, f, c, r + d, f));
    let s2 = one_if(enemy_on(b, r + d, f - 1, c), pawn_to(r, f, c, r + d, f - 1));
    let s3 = one_if(enemy_on(b, r + d, f + 1, c), pawn_to(r, f, c, r + d, f + 1));
    let s4 = one_if(
        pawn_home(r, c) && on_board(r + d, f) && is_empty(b, r + d, f) && on_board(r + 2 * d, f) && is_empty(b, r + 2 * d, f),
        pawn_to(r, f, c, r + 2 * d, f),
    );
    let s5 = en_passant_moves(b, r, f, c);
    lemma_pawn_step(b, r, f, r + d);
    lemma_pawn_take(b, r, f, r + d, f - 1);
    lemma_pawn_take(b, r, f, r + d, f + 1);
    lemma_pawn_double(b, r, f);
    lemma_pawn_en_passant(b, r, f);
    lemma_all_kept_concat(b, s1, s2);
    lemma_all_kept_concat(b, s1 + s2, s3);
    lemma_all_kept_concat(b, s1 + s2 + s3, s4);
    lemma_all_kept_concat(b, s1 + s2 + s3 + s4, s5);
    assert(pawn_moves(b, r, f) == s1 + s2 + s3 + s4 + s5);
}

proof fn lemma_piece(b: BoardModel, r: int, f: int)
    requires
        consistent(b),
        on_board(r, f),
        piece_on(b, r, f) is Some,
        piece_on(b, r, f)->0.color == b.next_color,
    ensures
        forall|i: int| 0 <= i < moves_of_piece(b, r, f).len() ==> {
            let m = #[trigger] moves_of_piece(b, r, f)[i];
            count_kept(b, m) && rook_kept(b, m)
        },
{
    match piece_on(b, r, f)->0.piece_type {
        PieceType::PAWN => {
            lemma_pawn(b, r, f);
        },
        PieceType::ROOK => lemma_slider(b, r, f, crate::rules::rook_dirs()),
        PieceType::BISHOP => lemma_slider(b, r, f, crate::rules::bishop_dirs()),
        PieceType::QUEEN => lemma_slider(b, r, f, crate::rules::queen_dirs()),
        PieceType::KNIGHT => lemma_jumper(b, r, f, knight_offsets(), false),
        PieceType::KING => lemma_king(b, r, f),
    }
}

/// In a consistent position, each legal move of the side to move leaves
/// one piece fewer on the board if it takes one (en passant included), and
/// as many pieces otherwise.
pub proof fn lemma_piece_count_after_move(b: BoardModel)
    requires
        consistent(b),
    ensures
        forall|i: int| 0 <= i < legal_moves(b, b.next_color).len() ==> {
            let m = #[trigger] legal_moves(b, b.next_color)[i];
            b.played(m).piece_count() == b.piece_count() - (if is_capture(b, m) { 1int } else { 0int })
        },
{
    let p = |m: ChessMove| count_kept(b, m) && rook_kept(b, m);
    assert forall|sq: int| 0 <= sq < 64 && b.squares[sq] is Some && b.squares[sq]->0.color == b.next_color implies forall|i: int|
        0 <= i < moves_of_piece(b, sq / 8, sq % 8).len() ==> p(#[trigger] moves_of_piece(b, sq / 8, sq % 8)[i]) by {
        lemma_piece(b, sq / 8, sq % 8);
    }
    crate::laws::lemma_legal_all(b, b.next_color, p);
}

/// In a consistent position, a castling of the side to move keeps that
/// side's number of rooks and puts a rook on the square the king crossed
/// (the f-file on the king's side, the d-file on the queen's side).
pub proof fn lemma_castling_rook(b: BoardModel)
    requires
        consistent(b),
    ensures
        forall|i: int| 0 <= i < legal_moves(b, b.next_color).len() ==> rook_kept(b, #[trigger] legal_moves(b, b.next_color)[i]),
{
    let p = |m: ChessMove| count_kept(b, m) && rook_kept(b, m);
    assert forall|sq: int| 0 <= sq < 64 && b.squares[sq] is Some && b.squares[sq]->0.color == b.next_color implies forall|i: int|
        0 <= i < moves_of_piece(b, sq / 8, sq % 8).len() ==> p(#[trigger] moves_of_piece(b, sq / 8, sq % 8)[i]) by {
        lemma_piece(b, sq / 8, sq % 8);
    }
    crate::laws::lemma_legal_all(b, b.next_color, p);
}

} // verus!
