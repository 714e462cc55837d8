//! Move rules: sight lines, attacked squares, pseudo-legal moves of each
//! piece kind, castling, check, checkmate and the legal-move filter.

use vstd::prelude::*;
use crate::board::{Board, BoardModel, lemma_board_squares};
use crate::pieces::{ChessMove, Color, Field, File, Piece, PieceType, Rank, square};

verus! {

broadcast use lemma_board_squares;

/// Whether integer coordinates lie on the board.
pub open spec fn on_board(r: int, f: int) -> bool {
    0 <= r < 8 && 0 <= f < 8
}

/// Contents of the square at the given rank and file indices.
pub open spec fn piece_on(b: BoardModel, r: int, f: int) -> Option<Piece> {
    b.squares[r * 8 + f]
}

/// Whether the square at `(r, f)` is on the board and holds a piece of color
/// `c` and kind `k`.
pub open spec fn holds(b: BoardModel, r: int, f: int, c: Color, k: PieceType) -> bool {
    on_board(r, f) && piece_on(b, r, f) == Some(Piece { color: c, piece_type: k })
}

/// Whether a piece of color `c` may move to `(r, f)`: on the board, and empty
/// or held by the other side.
pub open spec fn open_for(b: BoardModel, r: int, f: int, c: Color) -> bool {
    on_board(r, f) && (piece_on(b, r, f) is None || piece_on(b, r, f)->0.color != c)
}

pub open spec fn rook_dirs() -> Seq<(isize, isize)> {
    seq![(0isize, 1isize), (0isize, -1isize), (1isize, 0isize), (-1isize, 0isize)]
}

pub open spec fn bishop_dirs() -> Seq<(isize, isize)> {
    seq![(1isize, 1isize), (-1isize, 1isize), (1isize, -1isize), (-1isize, -1isize)]
}

pub open spec fn queen_dirs() -> Seq<(isize, isize)> {
    rook_dirs() + bishop_dirs()
}

/// Knight jumps as (rank, file) offsets.
pub open spec fn knight_offsets() -> Seq<(isize, isize)> {
    seq![(-2isize, -1isize), (-2isize, 1isize), (2isize, -1isize), (2isize, 1isize), (-1isize, -2isize), (-1isize, 2isize), (1isize, -2isize), (1isize, 2isize)]
}

/// The eight neighbouring squares as (rank, file) offsets.
pub open spec fn king_offsets() -> Seq<(isize, isize)> {
    seq![(-1isize, -1isize), (-1isize, 0isize), (-1isize, 1isize), (0isize, -1isize), (0isize, 1isize), (1isize, -1isize), (1isize, 0isize), (1isize, 1isize)]
}

/// The squares seen from `(r, f)` in steps of `(dr, df)`, at most `n` of
/// them, up to and including the first occupied one.
pub open spec fn sight(b: BoardModel, r: int, f: int, dr: int, df: int, n: nat) -> Seq<Field>
    decreases n,
{
    if n == 0 || !on_board(r + dr, f + df) {
        Seq::empty()
    } else if piece_on(b, r + dr, f + df) is Some {
        seq![square(r + dr, f + df)]
    } else {
        seq![square(r + dr, f + df)] + sight(b, r + dr, f + df, dr, df, (n - 1) as nat)
    }
}

/// The squares seen from `(r, f)` along each direction of `dirs`, in order.
pub open spec fn visible(b: BoardModel, r: int, f: int, dirs: Seq<(isize, isize)>) -> Seq<Field>
    decreases dirs.len(),
{
    if dirs.len() == 0 {
        Seq::empty()
    } else {
        visible(b, r, f, dirs.drop_last()) + sight(
            b,
            r,
            f,
            dirs.last().0 as int,
            dirs.last().1 as int,
            7,
        )
    }
}

/// Whether a square holds a piece of color `c` of kind `k1` or `k2`.
pub open spec fn holds_either(b: BoardModel, t: Field, c: Color, k1: PieceType, k2: PieceType) -> bool {
    match b.at(t) {
        Some(p) => p.color == c && (p.piece_type == k1 || p.piece_type == k2),
        None => false,
    }
}

/// Whether one of the squares in `ts` holds a piece of color `c` of kind `k1` or `k2`.
pub open spec fn any_holds(b: BoardModel, ts: Seq<Field>, c: Color, k1: PieceType, k2: PieceType) -> bool {
    exists|i: int| 0 <= i < ts.len() && holds_either(b, #[trigger] ts[i], c, k1, k2)
}

/// Whether a piece of color `c` stands at one of the offsets from `(r, f)`.
pub open spec fn holds_at_offset(b: BoardModel, r: int, f: int, offs: Seq<(isize, isize)>, c: Color, k: PieceType) -> bool {
    exists|i: int| 0 <= i < offs.len() && holds(b, r + (#[trigger] offs[i]).0, f + offs[i].1, c, k)
}

/// Whether a pawn of color `c` attacks `(r, f)`.
pub open spec fn pawn_attacks(b: BoardModel, r: int, f: int, c: Color) -> bool {
    let pr = if c == Color::WHITE { r - 1 } else { r + 1 };
    holds(b, pr, f - 1, c, PieceType::PAWN) || holds(b, pr, f + 1, c, PieceType::PAWN)
}

/// Whether the square `(r, f)` is attacked by a piece of color `c`.
#[verifier::opaque]
pub open spec fn attacked(b: BoardModel, r: int, f: int, c: Color) -> bool {
    ||| pawn_attacks(b, r, f, c)
    ||| holds_at_offset(b, r, f, knight_offsets(), c, PieceType::KNIGHT)
    ||| any_holds(b, visible(b, r, f, rook_dirs()), c, PieceType::QUEEN, PieceType::ROOK)
    ||| any_holds(b, visible(b, r, f, bishop_dirs()), c, PieceType::QUEEN, PieceType::BISHOP)
    ||| holds_at_offset(b, r, f, king_offsets(), c, PieceType::KING)
}

/// A move without promotion.
pub open spec fn plain(from: Field, to: Field) -> ChessMove {
    ChessMove { from_field: from, to_field: to, promote_to: None }
}

/// Moves from `from` to those of the squares `ts` that a piece of color `c`
/// may enter.
pub open spec fn moves_onto(b: BoardModel, from: Field, ts: Seq<Field>, c: Color) -> Seq<ChessMove>
    decreases ts.len(),
{
    if ts.len() == 0 {
        Seq::empty()
    } else {
        let t = ts.last();
        moves_onto(b, from, ts.drop_last(), c) + if open_for(b, t.rank.idx(), t.file.idx(), c) {
            seq![plain(from, t)]
        } else {
            Seq::empty()
        }
    }
}

/// Moves of a rook, bishop or queen on `(r, f)` sliding along `dirs`.
pub open spec fn slider_moves(b: BoardModel, r: int, f: int, dirs: Seq<(isize, isize)>) -> Seq<ChessMove> {
    moves_onto(b, square(r, f), visible(b, r, f, dirs), piece_on(b, r, f)->0.color)
}

/// Jumps from `(r, f)` by the first `n` of `offs` onto squares open for `c`;
/// with `guarded`, only onto squares that the other side does not attack.
pub open spec fn jumps(b: BoardModel, r: int, f: int, offs: Seq<(isize, isize)>, n: int, c: Color, guarded: bool) -> Seq<ChessMove>
    decreases n,
{
    if n <= 0 {
        Seq::empty()
    } else {
        let tr = r + offs[n - 1].0;
        let tf = f + offs[n - 1].1;
        jumps(b, r, f, offs, n - 1, c, guarded) + if open_for(b, tr, tf, c) && (!guarded
            || !attacked(b, tr, tf, c.other())) {
            seq![plain(square(r, f), square(tr, tf))]
        } else {
            Seq::empty()
        }
    }
}

pub open spec fn knight_moves(b: BoardModel, r: int, f: int) -> Seq<ChessMove> {
    jumps(b, r, f, knight_offsets(), 8, piece_on(b, r, f)->0.color, false)
}

pub open spec fn is_empty(b: BoardModel, r: int, f: int) -> bool {
    piece_on(b, r, f) is None
}

/// Castling moves of the king of color `c` standing on `(r, f)`.
pub open spec fn castling_moves(b: BoardModel, r: int, f: int, c: Color) -> Seq<ChessMove> {
    let o = c.other();
    let long_right = if c == Color::WHITE { b.white_long } else { b.black_long };
    let short_right = if c == Color::WHITE { b.white_short } else { b.black_short };
    if attacked(b, r, f, o) {
        Seq::empty()
    } else {
        (if long_right && is_empty(b, r, 1) && is_empty(b, r, 2) && is_empty(b, r, 3) && !attacked(b, r, 2, o)
            && !attacked(b, r, 3, o) {
            seq![plain(square(r, f), square(r, 2))]
        } else {
            Seq::empty()
        }) + (if short_right && is_empty(b, r, 5) && is_empty(b, r, 6) && !attacked(b, r, 5, o)
            && !attacked(b, r, 6, o) {
            seq![plain(square(r, f), square(r, 6))]
        } else {
            Seq::empty()
        })
    }
}

pub open spec fn king_moves(b: BoardModel, r: int, f: int) -> Seq<ChessMove> {
    let c = piece_on(b, r, f)->0.color;
    castling_moves(b, r, f, c) + jumps(b, r, f, king_offsets(), 8, c, true)
}

/// The promotion carried by a pawn move from rank index `r`.
pub open spec fn promotion_from(r: int, c: Color) -> Option<PieceType> {
    if (r == 6 && c == Color::WHITE) || (r == 1 && c == Color::BLACK) {
        Some(PieceType::QUEEN)
    } else {
        None
    }
}

pub open spec fn one_if(cond: bool, m: ChessMove) -> Seq<ChessMove> {
    if cond {
        seq![m]
    } else {
        Seq::empty()
    }
}

/// Whether the square holds a piece of the side other than `c`.
pub open spec fn enemy_on(b: BoardModel, r: int, f: int, c: Color) -> bool {
    on_board(r, f) && piece_on(b, r, f) is Some && piece_on(b, r, f)->0.color != c
}

/// The en-passant capture of a pawn of color `c` on `(r, f)`, if one is open.
pub open spec fn en_passant_moves(b: BoardModel, r: int, f: int, c: Color) -> Seq<ChessMove> {
    match b.en_passant {
        Some(t) => one_if(
            ((c == Color::WHITE && r == 4 && t.rank.idx() == 5) || (c == Color::BLACK && r == 3
                && t.rank.idx() == 2)) && (f - t.file.idx() == 1 || t.file.idx() - f == 1),
            ChessMove { from_field: square(r, f), to_field: t, promote_to: promotion_from(r, c) },
        ),
        None => Seq::empty(),
    }
}

/// Rank direction in which pawns of color `c` advance.
pub open spec fn pawn_dir(c: Color) -> int {
    if c == Color::WHITE {
        1
    } else {
        -1
    }
}

/// The move of a pawn of color `c` from `(r, f)` to `(tr, tf)`.
pub open spec fn pawn_to(r: int, f: int, c: Color, tr: int, tf: int) -> ChessMove {
    ChessMove { from_field: square(r, f), to_field: square(tr, tf), promote_to: promotion_from(r, c) }
}

/// Whether a pawn of color `c` on rank index `r` stands on its home rank.
pub open spec fn pawn_home(r: int, c: Color) -> bool {
    (r == 1 && c == Color::WHITE) || (r == 6 && c == Color::BLACK)
}

pub open spec fn pawn_moves(b: BoardModel, r: int, f: int) -> Seq<ChessMove> {
    let c = piece_on(b, r, f)->0.color;
    let d = pawn_dir(c);
    one_if(on_board(r + d, f) && is_empty(b, r + d, f), pawn_to(r, f, c, r + d, f))
        + one_if(enemy_on(b, r + d, f - 1, c), pawn_to(r, f, c, r + d, f - 1))
        + one_if(enemy_on(b, r + d, f + 1, c), pawn_to(r, f, c, r + d, f + 1))
        + one_if(
        pawn_home(r, c) && on_board(r + d, f) && is_empty(b, r + d, f) && on_board(r + 2 * d, f) && is_empty(b, r + 2 * d, f),
        pawn_to(r, f, c, r + 2 * d, f),
    ) + en_passant_moves(b, r, f, c)
}

/// Pseudo-legal moves of the piece on `(r, f)` (none for an empty square).
pub open spec fn moves_of_piece(b: BoardModel, r: int, f: int) -> Seq<ChessMove> {
    match piece_on(b, r, f) {
        Some(p) => match p.piece_type {
            PieceType::PAWN => pawn_moves(b, r, f),
            PieceType::ROOK => slider_moves(b, r, f, rook_dirs()),
            PieceType::KNIGHT => knight_moves(b, r, f),
            PieceType::BISHOP => slider_moves(b, r, f, bishop_dirs()),
            PieceType::QUEEN => slider_moves(b, r, f, queen_dirs()),
            PieceType::KING => king_moves(b, r, f),
        },
        None => Seq::empty(),
    }
}

/// Pseudo-legal moves of the pieces of color `c` on the first `n` squares,
/// in square order.
pub open spec fn pseudo_moves(b: BoardModel, c: Color, n: int) -> Seq<ChessMove>
    decreases n,
{
    if n <= 0 {
        Seq::empty()
    } else {
        let i = n - 1;
        pseudo_moves(b, c, n - 1) + if b.squares[i] is Some && b.squares[i]->0.color == c {
            moves_of_piece(b, i / 8, i % 8)
        } else {
            Seq::empty()
        }
    }
}

/// Index of the first square at or after `i` holding the king of color `c`.
pub open spec fn king_from(b: BoardModel, c: Color, i: int) -> Option<int>
    decreases 64 - i,
{
    if i >= 64 || i < 0 {
        None
    } else if b.squares[i] == Some(Piece { color: c, piece_type: PieceType::KING }) {
        Some(i)
    } else {
        king_from(b, c, i + 1)
    }
}

/// Whether the king of color `c` is attacked; false where there is no such king.
pub open spec fn in_check(b: BoardModel, c: Color) -> bool {
    match king_from(b, c, 0) {
        Some(i) => attacked(b, i / 8, i % 8, c.other()),
        None => false,
    }
}

/// The moves of `ms` after which the king of color `c` is not in check.
pub open spec fn keep_safe(b: BoardModel, c: Color, ms: Seq<ChessMove>) -> Seq<ChessMove>
    decreases ms.len(),
{
    if ms.len() == 0 {
        Seq::empty()
    } else {
        keep_safe(b, c, ms.drop_last()) + if in_check(b.played(ms.last()), c) {
            Seq::empty()
        } else {
            seq![ms.last()]
        }
    }
}

/// The legal moves of the side of color `c`.
pub open spec fn legal_moves(b: BoardModel, c: Color) -> Seq<ChessMove> {
    keep_safe(b, c, pseudo_moves(b, c, 64))
}

pub open spec fn checkmated(b: BoardModel, c: Color) -> bool {
    in_check(b, c) && legal_moves(b, c).len() == 0 && b.next_color == c
}

/// The square at integer coordinates on the board.
fn field_at(r: isize, f: isize) -> (res: Field)
    requires
        on_board(r as int, f as int),
    ensures
        res == square(r as int, f as int),
        res.sq() == r * 8 + f,
{
    Field::new(File::from_index(f as usize), Rank::from_index(r as usize))
}

proof fn lemma_square_sq(r: int, f: int)
    requires
        on_board(r, f),
    ensures
        square(r, f).sq() == r * 8 + f,
        square(r, f).rank.idx() == r,
        square(r, f).file.idx() == f,
{
}

proof fn lemma_field_square(t: Field)
    ensures
        square(t.rank.idx(), t.file.idx()) == t,
        on_board(t.rank.idx(), t.file.idx()),
        t.sq() == t.rank.idx() * 8 + t.file.idx(),
{
}

fn rook_directions() -> (r: Vec<(isize, isize)>)
    ensures
        r@ == rook_dirs(),
{
    let mut v: Vec<(isize, isize)> = Vec::new();
    v.push((0, 1));
    v.push((0, -1));
    v.push((1, 0));
    v.push((-1, 0));
    assert(v@ =~= rook_dirs());
    v
}

fn bishop_directions() -> (r: Vec<(isize, isize)>)
    ensures
        r@ == bishop_dirs(),
{
    let mut v: Vec<(isize, isize)> = Vec::new();
    v.push((1, 1));
    v.push((-1, 1));
    v.push((1, -1));
    v.push((-1, -1));
    assert(v@ =~= bishop_dirs());
    v
}

fn queen_directions() -> (r: Vec<(isize, isize)>)
    ensures
        r@ == queen_dirs(),
{
    let mut v = rook_directions();
    let mut w = bishop_directions();
    v.append(&mut w);
    v
}

fn knight_jumps() -> (r: Vec<(isize, isize)>)
    ensures
        r@ == knight_offsets(),
{
    let mut v: Vec<(isize, isize)> = Vec::new();
    v.push((-2, -1));
    v.push((-2, 1));
    v.push((2, -1));
    v.push((2, 1));
    v.push((-1, -2));
    v.push((-1, 2));
    v.push((1, -2));
    v.push((1, 2));
    assert(v@ =~= knight_offsets());
    v
}

fn king_steps() -> (r: Vec<(isize, isize)>)
    ensures
        r@ == king_offsets(),
{
    let mut v: Vec<(isize, isize)> = Vec::new();
    let mut dr: isize = -1;
    while dr <= 1
        invariant
            -1 <= dr <= 2,
            v@ == king_offsets().take((dr + 1) * 3 - if dr >= 1 { 1int } else { 0int }),
        decreases 2 - dr,
    {
        let mut df: isize = -1;
        while df <= 1
            invariant
                -1 <= dr <= 1,
                -1 <= df <= 2,
                v@ == king_offsets().take(
                    (dr + 1) * 3 + (df + 1) - if dr >= 1 || (dr == 0 && df >= 1) { 1int } else { 0int },
                ),
            decreases 2 - df,
        {
            if dr != 0 || df != 0 {
                v.push((dr, df));
            }
            df = df + 1;
        }
        dr = dr + 1;
    }
    v
}

/// Returns the squares visible from `field` along each of `directions`: for
/// each direction, the squares up to and including the first occupied one.
fn get_visible_fields_along_direction(board: &Board, field: &Field, directions: &Vec<(isize, isize)>) -> (r: Vec<Field>)
    requires
        forall|i: int| 0 <= i < directions@.len() ==> -1 <= (#[trigger] directions@[i]).0 <= 1 && -1 <= directions@[i].1 <= 1,
    ensures
        r@ == visible(board@, field.rank.idx(), field.file.idx(), directions@),
{
    let ghost b = board@;
    let ghost r0 = field.rank.idx();
    let ghost f0 = field.file.idx();
    let mut visible_fields: Vec<Field> = Vec::new();
    let field_rank = field.rank().to_index() as isize;
    let field_file = field.file().to_index() as isize;
    let mut i: usize = 0;
    while i < directions.len()
        invariant
            0 <= i <= directions@.len(),
            field_rank == r0,
            field_file == f0,
            0 <= r0 < 8,
            0 <= f0 < 8,
            b == board@,
            forall|i: int| 0 <= i < directions@.len() ==> -1 <= (#[trigger] directions@[i]).0 <= 1 && -1 <= directions@[i].1 <= 1,
            visible_fields@ == visible(b, r0, f0, directions@.take(i as int)),
        decreases directions@.len() - i,
    {
        let direction = directions[i];
        let ghost before = visible_fields@;
        let mut rank = field_rank;
        let mut file = field_file;
        let mut steps: usize = 0;
        while steps < 7 && rank + direction.0 >= 0 && rank + direction.0 < 8 && file + direction.1 >= 0
            && file + direction.1 < 8
            invariant
                0 <= steps <= 7,
                0 <= rank < 8,
                0 <= file < 8,
                -1 <= direction.0 <= 1,
                -1 <= direction.1 <= 1,
                b == board@,
                before + sight(b, r0, f0, direction.0 as int, direction.1 as int, 7)
                    == visible_fields@ + sight(b, rank as int, file as int, direction.0 as int, direction.1 as int, (7 - steps) as nat),
            decreases 7 - steps,
        {
            let next_field = field_at(rank + direction.0, file + direction.1);
            let ghost vf = visible_fields@;
            visible_fields.push(next_field);
            if board.get_piece(&next_field).is_none() {
                rank = rank + direction.0;
                file = file + direction.1;
                steps = steps + 1;
                assert(vf + sight(b, (rank - direction.0) as int, (file - direction.1) as int, direction.0 as int, direction.1 as int, (7 - (steps - 1)) as nat)
                    =~= visible_fields@ + sight(b, rank as int, file as int, direction.0 as int, direction.1 as int, (7 - steps) as nat));
            } else {
                assert(vf + sight(b, rank as int, file as int, direction.0 as int, direction.1 as int, (7 - steps) as nat) =~= visible_fields@);
                assert(sight(b, rank as int, file as int, direction.0 as int, direction.1 as int, (7 - 7) as nat) =~= Seq::empty());
                steps = 7;
                assert(sight(b, rank as int, file as int, direction.0 as int, direction.1 as int, (7 - steps) as nat) =~= Seq::empty());
                assert(visible_fields@ + sight(b, rank as int, file as int, direction.0 as int, direction.1 as int, (7 - steps) as nat) =~= visible_fields@);
            }
        }
        assert(sight(b, rank as int, file as int, direction.0 as int, direction.1 as int, (7 - steps) as nat) =~= Seq::empty());
        assert(visible_fields@ =~= before + sight(b, r0, f0, direction.0 as int, direction.1 as int, 7));
        assert(directions@.take(i as int + 1).drop_last() =~= directions@.take(i as int));
        i = i + 1;
    }
    assert(directions@.take(directions@.len() as int) =~= directions@);
    visible_fields
}

/// Whether `(r, f)` is on the board and holds a piece of color `c` and kind `k`.
fn holds_piece(board: &Board, r: isize, f: isize, c: Color, k: PieceType) -> (res: bool)
    ensures
        res == holds(board@, r as int, f as int, c, k),
{
    if 0 <= r && r < 8 && 0 <= f && f < 8 {
        match board.get_piece(&field_at(r, f)) {
            Some(p) => p.color() == c && p.piece_type() == k,
            None => false,
        }
    } else {
        false
    }
}

/// Whether a piece of color `c` and kind `k` stands at one of the offsets
/// `offs` from `field`.
fn any_at_offsets(board: &Board, field: &Field, offs: &Vec<(isize, isize)>, c: Color, k: PieceType) -> (res: bool)
    requires
        forall|i: int| 0 <= i < offs@.len() ==> -2 <= (#[trigger] offs@[i]).0 <= 2 && -2 <= offs@[i].1 <= 2,
    ensures
        res == holds_at_offset(board@, field.rank.idx(), field.file.idx(), offs@, c, k),
{
    let field_rank = field.rank().to_index() as isize;
    let field_file = field.file().to_index() as isize;
    let mut i: usize = 0;
    while i < offs.len()
        invariant
            0 <= i <= offs@.len(),
            field_rank == field.rank.idx(),
            field_file == field.file.idx(),
            forall|i: int| 0 <= i < offs@.len() ==> -2 <= (#[trigger] offs@[i]).0 <= 2 && -2 <= offs@[i].1 <= 2,
            forall|j: int| 0 <= j < i ==> !holds(board@, field_rank + (#[trigger] offs@[j]).0, field_file + offs@[j].1, c, k),
        decreases offs@.len() - i,
    {
        let d = offs[i];
        if holds_piece(board, field_rank + d.0, field_file + d.1, c, k) {
            return true;
        }
        i = i + 1;
    }
    false
}

/// Whether one of the squares `fields` holds a piece of color `c` of kind `k1` or `k2`.
fn any_on_fields(board: &Board, fields: &Vec<Field>, c: Color, k1: PieceType, k2: PieceType) -> (res: bool)
    ensures
        res == any_holds(board@, fields@, c, k1, k2),
{
    let mut i: usize = 0;
    while i < fields.len()
        invariant
            0 <= i <= fields@.len(),
            forall|j: int| 0 <= j < i ==> !holds_either(board@, #[trigger] fields@[j], c, k1, k2),
        decreases fields@.len() - i,
    {
        match board.get_piece(&fields[i]) {
            Some(p) => {
                if p.color() == c && (p.piece_type() == k1 || p.piece_type() == k2) {
                    return true;
                }
            },
            None => {},
        }
        i = i + 1;
    }
    false
}

/// Returns whether a king of the given color stands next to the given field.
fn is_king_in_range(board: &Board, field: &Field, color: Color) -> (r: bool)
    ensures
        r == holds_at_offset(board@, field.rank.idx(), field.file.idx(), king_offsets(), color, PieceType::KING),
{
    any_at_offsets(board, field, &king_steps(), color, PieceType::KING)
}

/// Returns whether the given field is attacked by a piece of the given color.
fn is_field_covered(board: &Board, field: &Field, color: Color) -> (r: bool)
    ensures
        r == attacked(board@, field.rank.idx(), field.file.idx(), color),
{
    proof {
        reveal(attacked);
    }
    let field_rank = field.rank().to_index() as isize;
    let field_file = field.file().to_index() as isize;
    let pawn_rank: isize = match color {
        Color::WHITE => field_rank - 1,
        Color::BLACK => field_rank + 1,
    };

    // a pawn attacks diagonally forward
    if holds_piece(board, pawn_rank, field_file - 1, color, PieceType::PAWN)
        || holds_piece(board, pawn_rank, field_file + 1, color, PieceType::PAWN) {
        return true;
    }
    if any_at_offsets(board, field, &knight_jumps(), color, PieceType::KNIGHT) {
        return true;
    }
    let orthogonal = get_visible_fields_along_direction(board, field, &rook_directions());
    if any_on_fields(board, &orthogonal, color, PieceType::QUEEN, PieceType::ROOK) {
        return true;
    }
    let diagonal = get_visible_fields_along_direction(board, field, &bishop_directions());
    if any_on_fields(board, &diagonal, color, PieceType::QUEEN, PieceType::BISHOP) {
        return true;
    }
    is_king_in_range(board, field, color)
}

/// Moves from `from` onto those of `targets` that a piece of color `c` may enter.
fn moves_onto_fields(board: &Board, from: &Field, targets: &Vec<Field>, c: Color) -> (r: Vec<ChessMove>)
    ensures
        r@ == moves_onto(board@, *from, targets@, c),
        forall|i: int| 0 <= i < r@.len() ==> (#[trigger] r@[i]).from_field == *from,
{
    let mut moves: Vec<ChessMove> = Vec::new();
    let mut i: usize = 0;
    while i < targets.len()
        invariant
            0 <= i <= targets@.len(),
            moves@ == moves_onto(board@, *from, targets@.take(i as int), c),
            forall|j: int| 0 <= j < moves@.len() ==> (#[trigger] moves@[j]).from_field == *from,
        decreases targets@.len() - i,
    {
        let t = targets[i];
        proof {
            assert(targets@.take(i as int + 1).drop_last() =~= targets@.take(i as int));
            lemma_field_square(t);
        }
        let open = match board.get_piece(&t) {
            Some(p) => p.color() != c,
            None => true,
        };
        if open {
            moves.push(ChessMove::new(*from, t, None));
        }
        i = i + 1;
    }
    assert(targets@.take(targets@.len() as int) =~= targets@);
    moves
}

/// Moves of a sliding piece on `field` along `directions`.
fn slide(board: &Board, field: &Field, directions: &Vec<(isize, isize)>) -> (r: Vec<ChessMove>)
    requires
        board@.at(*field) is Some,
        forall|i: int| 0 <= i < directions@.len() ==> -1 <= (#[trigger] directions@[i]).0 <= 1 && -1 <= directions@[i].1 <= 1,
    ensures
        r@ == slider_moves(board@, field.rank.idx(), field.file.idx(), directions@),
        forall|i: int| 0 <= i < r@.len() ==> (#[trigger] r@[i]).from_field == *field,
{
    let color = board.get_piece(field).unwrap().color();
    let visible_fields = get_visible_fields_along_direction(board, field, directions);
    proof {
        lemma_field_square(*field);
    }
    moves_onto_fields(board, field, &visible_fields, color)
}

fn get_legal_moves_queen(board: &Board, field: &Field) -> (r: Vec<ChessMove>)
    requires
        board@.at(*field) is Some,
    ensures
        r@ == slider_moves(board@, field.rank.idx(), field.file.idx(), queen_dirs()),
        forall|i: int| 0 <= i < r@.len() ==> (#[trigger] r@[i]).from_field == *field,
{
    slide(board, field, &queen_directions())
}

fn get_legal_moves_bishop(board: &Board, field: &Field) -> (r: Vec<ChessMove>)
    requires
        board@.at(*field) is Some,
    ensures
        r@ == slider_moves(board@, field.rank.idx(), field.file.idx(), bishop_dirs()),
        forall|i: int| 0 <= i < r@.len() ==> (#[trigger] r@[i]).from_field == *field,
{
    slide(board, field, &bishop_directions())
}

fn get_legal_moves_rook(board: &Board, field: &Field) -> (r: Vec<ChessMove>)
    requires
        board@.at(*field) is Some,
    ensures
        r@ == slider_moves(board@, field.rank.idx(), field.file.idx(), rook_dirs()),
        forall|i: int| 0 <= i < r@.len() ==> (#[trigger] r@[i]).from_field == *field,
{
    slide(board, field, &rook_directions())
}

/// Jumps from `field` by each of `offs` onto squares open for `c`; with
/// `guarded`, only onto squares that the other side does not attack.
fn jump_moves(board: &Board, field: &Field, offs: &Vec<(isize, isize)>, c: Color, guarded: bool) -> (r: Vec<ChessMove>)
    requires
        forall|i: int| 0 <= i < offs@.len() ==> -2 <= (#[trigger] offs@[i]).0 <= 2 && -2 <= offs@[i].1 <= 2,
    ensures
        r@ == jumps(board@, field.rank.idx(), field.file.idx(), offs@, offs@.len() as int, c, guarded),
        forall|i: int| 0 <= i < r@.len() ==> (#[trigger] r@[i]).from_field == *field,
{
    let mut moves: Vec<ChessMove> = Vec::new();
    let field_rank = field.rank().to_index() as isize;
    let field_file = field.file().to_index() as isize;
    proof {
        lemma_field_square(*field);
    }
    let mut i: usize = 0;
    while i < offs.len()
        invariant
            0 <= i <= offs@.len(),
            field_rank == field.rank.idx(),
            field_file == field.file.idx(),
            square(field_rank as int, field_file as int) == *field,
            forall|i: int| 0 <= i < offs@.len() ==> -2 <= (#[trigger] offs@[i]).0 <= 2 && -2 <= offs@[i].1 <= 2,
            moves@ == jumps(board@, field_rank as int, field_file as int, offs@, i as int, c, guarded),
            forall|j: int| 0 <= j < moves@.len() ==> (#[trigger] moves@[j]).from_field == *field,
        decreases offs@.len() - i,
    {
        let d = offs[i];
        let tr = field_rank + d.0;
        let tf = field_file + d.1;
        if 0 <= tr && tr < 8 && 0 <= tf && tf < 8 {
            let target = field_at(tr, tf);
            let open = match board.get_piece(&target) {
                Some(p) => p.color() != c,
                None => true,
            };
            if open && (!guarded || !is_field_covered(board, &target, c.opponent())) {
                moves.push(ChessMove::new(*field, target, None));
            }
        }
        i = i + 1;
    }
    moves
}

fn get_legal_moves_knight(board: &Board, field: &Field) -> (r: Vec<ChessMove>)
    requires
        board@.at(*field) is Some,
    ensures
        r@ == knight_moves(board@, field.rank.idx(), field.file.idx()),
        forall|i: int| 0 <= i < r@.len() ==> (#[trigger] r@[i]).from_field == *field,
{
    let color = board.get_piece(field).unwrap().color();
    jump_moves(board, field, &knight_jumps(), color, false)
}

/// Returns the castling moves of the king on `field`: the side holds the
/// right, the squares between king and rook are empty, and neither the
/// king's square nor the two squares it crosses are attacked.
fn get_castling_moves(board: &Board, field: &Field) -> (r: Vec<ChessMove>)
    requires
        board@.at(*field) is Some,
    ensures
        r@ == castling_moves(board@, field.rank.idx(), field.file.idx(), board@.at(*field)->0.color),
        forall|i: int| 0 <= i < r@.len() ==> (#[trigger] r@[i]).from_field == *field,
{
    let mut moves: Vec<ChessMove> = Vec::new();
    let color = board.get_piece(field).unwrap().color();
    let opponent_color = color.opponent();
    let has_kingside_castling_rights = match color {
        Color::BLACK => board.black_can_castle_short(),
        Color::WHITE => board.white_can_castle_short(),
    };
    let has_queenside_castling_rights = match color {
        Color::BLACK => board.black_can_castle_long(),
        Color::WHITE => board.white_can_castle_long(),
    };
    proof {
        lemma_field_square(*field);
    }
    if !is_field_covered(board, field, opponent_color) {
        let field_b = Field::new(File::B, field.rank());
        let field_c = Field::new(File::C, field.rank());
        let field_d = Field::new(File::D, field.rank());
        let field_f = Field::new(File::F, field.rank());
        let field_g = Field::new(File::G, field.rank());
        let ghost rr = field.rank.idx();
        assert(field_b == square(rr, 1) && field_c == square(rr, 2) && field_d == square(rr, 3));
        assert(field_f == square(rr, 5) && field_g == square(rr, 6));

        if has_queenside_castling_rights && board.get_piece(&field_b).is_none()
            && board.get_piece(&field_c).is_none() && board.get_piece(&field_d).is_none()
            && !is_field_covered(board, &field_c, opponent_color) && !is_field_covered(
            board,
            &field_d,
            opponent_color,
        ) {
            moves.push(ChessMove::new(*field, field_c, None));
        }
        if has_kingside_castling_rights && board.get_piece(&field_f).is_none()
            && board.get_piece(&field_g).is_none() && !is_field_covered(
            board,
            &field_f,
            opponent_color,
        ) && !is_field_covered(board, &field_g, opponent_color) {
            moves.push(ChessMove::new(*field, field_g, None));
        }
        assert(moves@ =~= castling_moves(board@, rr, field.file.idx(), color));
    }
    moves
}

fn get_legal_moves_king(board: &Board, field: &Field) -> (r: Vec<ChessMove>)
    requires
        board@.at(*field) is Some,
    ensures
        r@ == king_moves(board@, field.rank.idx(), field.file.idx()),
        forall|i: int| 0 <= i < r@.len() ==> (#[trigger] r@[i]).from_field == *field,
{
    let color = board.get_piece(field).unwrap().color();
    let mut moves = get_castling_moves(board, field);
    let mut steps = jump_moves(board, field, &king_steps(), color, true);
    moves.append(&mut steps);
    moves
}

/// Appends the pawn move from `from` to `(r, f)` when `cond` holds.
fn push_if(moves: &mut Vec<ChessMove>, cond: bool, from: &Field, r: isize, f: isize, promo: Option<PieceType>)
    requires
        cond ==> on_board(r as int, f as int),
        forall|i: int| 0 <= i < old(moves)@.len() ==> (#[trigger] old(moves)@[i]).from_field == *from,
    ensures
        final(moves)@ == old(moves)@ + one_if(cond, ChessMove { from_field: *from, to_field: square(r as int, f as int), promote_to: promo }),
        forall|i: int| 0 <= i < final(moves)@.len() ==> (#[trigger] final(moves)@[i]).from_field == *from,
{
    let ghost m0 = moves@;
    if cond {
        moves.push(ChessMove::new(*from, field_at(r, f), promo));
    }
    assert(moves@ =~= m0 + one_if(cond, ChessMove { from_field: *from, to_field: square(r as int, f as int), promote_to: promo }));
}

/// Whether `(r, f)` is on the board and holds a piece of the side other than `c`.
fn enemy_at(board: &Board, r: isize, f: isize, c: Color) -> (res: bool)
    ensures
        res == enemy_on(board@, r as int, f as int, c),
{
    if 0 <= r && r < 8 && 0 <= f && f < 8 {
        match board.get_piece(&field_at(r, f)) {
            Some(p) => p.color() != c,
            None => false,
        }
    } else {
        false
    }
}

/// Whether `(r, f)` is on the board and empty.
fn empty_at(board: &Board, r: isize, f: isize) -> (res: bool)
    ensures
        res == (on_board(r as int, f as int) && is_empty(board@, r as int, f as int)),
{
    if 0 <= r && r < 8 && 0 <= f && f < 8 {
        board.get_piece(&field_at(r, f)).is_none()
    } else {
        false
    }
}

/// Appends the en-passant capture of the pawn of color `color` on `field`,
/// if one is open.
fn push_en_passant(moves: &mut Vec<ChessMove>, board: &Board, field: &Field, color: Color, promo: Option<PieceType>)
    requires
        promo == promotion_from(field.rank.idx(), color),
        forall|i: int| 0 <= i < old(moves)@.len() ==> (#[trigger] old(moves)@[i]).from_field == *field,
    ensures
        final(moves)@ == old(moves)@ + en_passant_moves(board@, field.rank.idx(), field.file.idx(), color),
        forall|i: int| 0 <= i < final(moves)@.len() ==> (#[trigger] final(moves)@[i]).from_field == *field,
{
    let ghost m0 = moves@;
    let field_rank = field.rank().to_index() as isize;
    let field_file = field.file().to_index() as isize;
    proof {
        lemma_field_square(*field);
    }
    match board.en_passant_field() {
        Some(target) => {
            let tf = target.file().to_index() as isize;
            let tr = target.rank().to_index() as isize;
            if ((color == Color::WHITE && field_rank == 4 && tr == 5) || (color == Color::BLACK
                && field_rank == 3 && tr == 2)) && (field_file - tf == 1 || tf - field_file == 1) {
                moves.push(ChessMove::new(*field, *target, promo));
            }
        },
        None => {},
    }
    assert(moves@ =~= m0 + en_passant_moves(board@, field.rank.idx(), field.file.idx(), color));
}

/// Returns the pseudo-legal moves of the pawn on `field`: one step forward,
/// diagonal captures, two steps from the home rank, and the en-passant
/// capture; a move from the rank before the last carries a queen promotion.
fn get_legal_moves_pawn(board: &Board, field: &Field) -> (r: Vec<ChessMove>)
    requires
        board@.at(*field) is Some,
    ensures
        r@ == pawn_moves(board@, field.rank.idx(), field.file.idx()),
        forall|i: int| 0 <= i < r@.len() ==> (#[trigger] r@[i]).from_field == *field,
{
    let mut moves: Vec<ChessMove> = Vec::new();
    let color = board.get_piece(field).unwrap().color();
    let field_rank = field.rank().to_index() as isize;
    let field_file = field.file().to_index() as isize;
    let ghost b = board@;
    let ghost r0 = field_rank as int;
    let ghost f0 = field_file as int;
    proof {
        lemma_field_square(*field);
    }
    let direction: isize = match color {
        Color::WHITE => 1,
        Color::BLACK => -1,
    };
    let promotion_type: Option<PieceType> = if (field_rank == 6 && color == Color::WHITE) || (
    field_rank == 1 && color == Color::BLACK) {
        Some(PieceType::QUEEN)
    } else {
        None
    };
    let ahead = field_rank + direction;
    assert(ahead == r0 + pawn_dir(color));

    let forward_free = empty_at(board, ahead, field_file);
    push_if(&mut moves, forward_free, field, ahead, field_file, promotion_type);
    let ghost s1 = moves@;
    assert(s1 == one_if(on_board(ahead as int, f0) && is_empty(b, ahead as int, f0), pawn_to(r0, f0, color, ahead as int, f0)));
    // diagonal captures; there is no diagonal beyond the edge of the board
    let left = enemy_at(board, ahead, field_file - 1, color);
    push_if(&mut moves, left, field, ahead, field_file - 1, promotion_type);
    let ghost s2 = moves@;
    assert(s2 == s1 + one_if(enemy_on(b, ahead as int, f0 - 1, color), pawn_to(r0, f0, color, ahead as int, f0 - 1)));
    let right = enemy_at(board, ahead, field_file + 1, color);
    push_if(&mut moves, right, field, ahead, field_file + 1, promotion_type);
    let ghost s3 = moves@;
    assert(s3 == s2 + one_if(enemy_on(b, ahead as int, f0 + 1, color), pawn_to(r0, f0, color, ahead as int, f0 + 1)));

    let home = (field_rank == 1 && color == Color::WHITE) || (field_rank == 6 && color
        == Color::BLACK);
    let far = field_rank + 2 * direction;
    let double = home && forward_free && empty_at(board, far, field_file);
    push_if(&mut moves, double, field, far, field_file, promotion_type);
    let ghost s4 = moves@;
    assert(s4 == s3 + one_if(pawn_home(r0, color) && on_board(ahead as int, f0) && is_empty(b, ahead as int, f0) && on_board(far as int, f0) && is_empty(b, far as int, f0), pawn_to(r0, f0, color, far as int, f0)));

    push_en_passant(&mut moves, board, field, color, promotion_type);
    moves
}

/// Moves that a piece of each kind makes, dispatched on the piece on `field`.
pub struct PieceRule;

impl PieceRule {
    /// Returns all pseudo-legal moves of the piece on the given field (none
    /// for an empty field); they may leave the own king in check.
    pub fn get_moves_of_piece(board: &Board, field: &Field) -> (r: Vec<ChessMove>)
        ensures
            r@ == moves_of_piece(board@, field.rank.idx(), field.file.idx()),
            forall|i: int| 0 <= i < r@.len() ==> (#[trigger] r@[i]).from_field == *field,
    {
        proof {
            lemma_field_square(*field);
        }
        match board.get_piece(field) {
            Some(p) => match p.piece_type() {
                PieceType::PAWN => get_legal_moves_pawn(board, field),
                PieceType::ROOK => get_legal_moves_rook(board, field),
                PieceType::KNIGHT => get_legal_moves_knight(board, field),
                PieceType::BISHOP => get_legal_moves_bishop(board, field),
                PieceType::QUEEN => get_legal_moves_queen(board, field),
                PieceType::KING => get_legal_moves_king(board, field),
            },
            None => Vec::new(),
        }
    }

    /// Returns whether the king of the given color is attacked; false when
    /// the board holds no such king.
    pub fn is_checked(board: &Board, color: &Color) -> (r: bool)
        ensures
            r == in_check(board@, *color),
    {
        let ghost b = board@;
        let opponent_color = color.opponent();
        let mut i: usize = 0;
        while i < 64
            invariant
                0 <= i <= 64,
                b == board@,
                opponent_color == color.other(),
                king_from(b, *color, 0) == king_from(b, *color, i as int),
            decreases 64 - i,
        {
            let field = field_at((i / 8) as isize, (i % 8) as isize);
            let found = match board.get_piece(&field) {
                Some(p) => p.piece_type() == PieceType::KING && p.color() == *color,
                None => false,
            };
            proof {
                lemma_square_sq(i as int / 8, i as int % 8);
                assert(field.sq() == i as int);
            }
            if found {
                proof {
                    assert(b.squares[i as int] == Some(Piece { color: *color, piece_type: PieceType::KING }));
                    assert(king_from(b, *color, i as int) == Some(i as int));
                }
                let covered = is_field_covered(board, &field, opponent_color);
                assert(field.rank.idx() == i as int / 8 && field.file.idx() == i as int % 8);
                return covered;
            }
            i = i + 1;
        }
        false
    }

    /// Returns whether the king of the given color is checkmated: it is in
    /// check, its side has no legal move, and its side is to move.
    pub fn is_checkmated(board: &Board, color: &Color) -> (r: bool)
        ensures
            r == checkmated(board@, *color),
    {
        Self::is_checked(board, color) && Self::get_legal_moves(board, color).len() == 0
            && board.next_color() == *color
    }
}

/// Computes the legal moves of one side in a position.
pub trait RulesProvider {
    /// Returns the legal moves of the side of the given color.
    fn get_legal_moves(board: &Board, color: &Color) -> (r: Vec<ChessMove>)
        ensures
            r@ == legal_moves(board@, *color),
            forall|i: int| 0 <= i < r@.len() ==> board@.at((#[trigger] r@[i]).from_field) is Some,
    ;
}

impl RulesProvider for PieceRule {
    /// The pseudo-legal moves of every piece of the color, in square order,
    /// without those after which the own king would be in check.
    fn get_legal_moves(board: &Board, color: &Color) -> (r: Vec<ChessMove>) {
        let ghost b = board@;
        let c = *color;
        let mut moves: Vec<ChessMove> = Vec::new();
        let mut i: usize = 0;
        while i < 64
            invariant
                0 <= i <= 64,
                b == board@,
                c == *color,
                moves@ == pseudo_moves(b, c, i as int),
                forall|j: int| 0 <= j < moves@.len() ==> b.at((#[trigger] moves@[j]).from_field) is Some,
            decreases 64 - i,
        {
            let field = field_at((i / 8) as isize, (i % 8) as isize);
            proof {
                lemma_field_square(field);
            }
            let own = match board.get_piece(&field) {
                Some(p) => p.color() == c,
                None => false,
            };
            proof {
                assert(field.sq() == i as int);
                assert(own == (b.squares[i as int] is Some && b.squares[i as int]->0.color == c));
            }
            if own {
                let mut piece_moves = PieceRule::get_moves_of_piece(board, &field);
                let ghost m0 = moves@;
                let ghost pm = piece_moves@;
                moves.append(&mut piece_moves);
                proof {
                    assert(field.sq() == i as int);
                    assert forall|j: int| 0 <= j < moves@.len() implies b.at((#[trigger] moves@[j]).from_field) is Some by {
                        if j >= m0.len() {
                            assert(moves@[j] == pm[j - m0.len()]);
                        }
                    }
                }
            }
            i = i + 1;
        }

        let mut legal: Vec<ChessMove> = Vec::new();
        let mut j: usize = 0;
        while j < moves.len()
            invariant
                0 <= j <= moves@.len(),
                b == board@,
                c == *color,
                forall|k: int| 0 <= k < moves@.len() ==> b.at((#[trigger] moves@[k]).from_field) is Some,
                legal@ == keep_safe(b, c, moves@.take(j as int)),
                forall|k: int| 0 <= k < legal@.len() ==> b.at((#[trigger] legal@[k]).from_field) is Some,
            decreases moves@.len() - j,
        {
            let m = moves[j];
            proof {
                assert(moves@.take(j as int + 1).drop_last() =~= moves@.take(j as int));
            }
            let mut cloned_board = *board;
            cloned_board.play_move(&m);
            // the own king must not be in check after the move
            if !PieceRule::is_checked(&cloned_board, color) {
                legal.push(m);
            }
            j = j + 1;
        }
        assert(moves@.take(moves@.len() as int) =~= moves@);
        legal
    }
}

} // verus!
