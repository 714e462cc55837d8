//! Properties that relate several operations of the library, stated over
//! the models and proved.

use vstd::prelude::*;
use core::cmp::Ordering;
use crate::board::{BoardModel, lemma_board_squares};
use crate::converter::{move_text, sanitized, uci_move};
use crate::pieces::{ChessMove, Color, Field, File, PieceType, Rank, digit_rank, file_letter, letter_file, rank_digit, square};
use crate::rules::{
    castling_moves, checkmated, en_passant_moves, enemy_on, in_check, jumps, keep_safe, king_moves,
    legal_moves, moves_of_piece, moves_onto, on_board, one_if, pawn_dir, pawn_moves, pawn_to,
    piece_on, pseudo_moves,
};
use crate::search::{Evaluation, compare, negamax, rating_of, root_evaluations};

verus! {

broadcast use lemma_board_squares;

/// Evaluations are totally ordered: comparing in the other order gives the
/// opposite answer, the order is transitive, and two evaluations compare
/// equal only when they are the same, except that a draw and a rating of
/// zero compare equal.
pub proof fn lemma_evaluation_order(a: Evaluation, b: Evaluation, c: Evaluation)
    ensures
        compare(a, b) == Ordering::Less <==> compare(b, a) == Ordering::Greater,
        compare(a, b) == Ordering::Equal <==> compare(b, a) == Ordering::Equal,
        compare(a, b) != Ordering::Greater && compare(b, c) != Ordering::Greater ==> compare(a, c) != Ordering::Greater,
        compare(a, b) == Ordering::Less && compare(b, c) != Ordering::Greater ==> compare(a, c) == Ordering::Less,
        compare(a, b) == Ordering::Equal ==> a == b || (a == Evaluation::Draw && b == Evaluation::Rating(0))
            || (a == Evaluation::Rating(0) && b == Evaluation::Draw),
{
}

proof fn lemma_keep_safe_safe(b: BoardModel, c: Color, ms: Seq<ChessMove>)
    ensures
        forall|i: int| 0 <= i < keep_safe(b, c, ms).len() ==> !in_check(b.played(#[trigger] keep_safe(b, c, ms)[i]), c),
    decreases ms.len(),
{
    if ms.len() > 0 {
        lemma_keep_safe_safe(b, c, ms.drop_last());
        let prev = keep_safe(b, c, ms.drop_last());
        assert forall|i: int| 0 <= i < keep_safe(b, c, ms).len() implies !in_check(b.played(#[trigger] keep_safe(b, c, ms)[i]), c) by {
            if i < prev.len() {
                assert(keep_safe(b, c, ms)[i] == prev[i]);
            }
        }
    }
}

/// No legal move of a side leaves that side's king in check.
pub proof fn lemma_legal_moves_leave_no_check(b: BoardModel, c: Color)
    ensures
        forall|i: int| 0 <= i < legal_moves(b, c).len() ==> !in_check(b.played(#[trigger] legal_moves(b, c)[i]), c),
{
    lemma_keep_safe_safe(b, c, crate::rules::pseudo_moves(b, c, 64));
}

/// When the side to move has no legal move, it is checkmated exactly when
/// it is in check; otherwise the position is scored as a draw.
pub proof fn lemma_no_legal_move(b: BoardModel)
    requires
        legal_moves(b, b.next_color).len() == 0,
    ensures
        checkmated(b, b.next_color) <==> in_check(b, b.next_color),
{
}

/// A search of depth one evaluates each move by its static rating.
pub proof fn lemma_depth_one(b: BoardModel, m: ChessMove, c: Color)
    ensures
        negamax(b, m, 1, c, 1) == rating_of(b, m, c),
        forall|i: int| 0 <= i < root_evaluations(b, 1).len() ==> #[trigger] root_evaluations(b, 1)[i]
            == rating_of(b, legal_moves(b, b.next_color)[i], b.next_color),
{
}

/// A pawn on the a-file makes no move to the left of the board's edge, and
/// one on the h-file none to the right: every move of a pawn on the a-file
/// ends on the a- or b-file, every move of one on the h-file on the g- or
/// h-file.
pub proof fn lemma_pawn_edges(b: BoardModel, r: int, f: int)
    requires
        on_board(r, f),
        piece_on(b, r, f) is Some,
        piece_on(b, r, f)->0.piece_type == PieceType::PAWN,
    ensures
        f == 0 ==> forall|i: int| 0 <= i < pawn_moves(b, r, f).len() ==> (#[trigger] pawn_moves(b, r, f)[i]).to_field.file.idx() <= 1,
        f == 7 ==> forall|i: int| 0 <= i < pawn_moves(b, r, f).len() ==> (#[trigger] pawn_moves(b, r, f)[i]).to_field.file.idx() >= 6,
{
    let c = piece_on(b, r, f)->0.color;
    let d = pawn_dir(c);
    let ms = pawn_moves(b, r, f);
    let s1 = one_if(on_board(r + d, f) && crate::rules::is_empty(b, r + d, f), pawn_to(r, f, c, r + d, f));
    let s2 = one_if(enemy_on(b, r + d, f - 1, c), pawn_to(r, f, c, r + d, f - 1));
    let s3 = one_if(enemy_on(b, r + d, f + 1, c), pawn_to(r, f, c, r + d, f + 1));
    let s4 = one_if(
        crate::rules::pawn_home(r, c) && on_board(r + d, f) && crate::rules::is_empty(b, r + d, f) && on_board(r + 2 * d, f) && crate::rules::is_empty(b, r + 2 * d, f),
        pawn_to(r, f, c, r + 2 * d, f),
    );
    let s5 = en_passant_moves(b, r, f, c);
    assert(ms == s1 + s2 + s3 + s4 + s5);
    assert forall|i: int| 0 <= i < ms.len() implies (f == 0 ==> (#[trigger] ms[i]).to_field.file.idx() <= 1) && (f == 7 ==> ms[i].to_field.file.idx() >= 6) by {
        let n1 = s1.len();
        let n2 = n1 + s2.len();
        let n3 = n2 + s3.len();
        let n4 = n3 + s4.len();
        if i < n1 {
            assert(ms[i] == s1[i]);
        } else if i < n2 {
            assert(ms[i] == s2[i - n1]);
        } else if i < n3 {
            assert(ms[i] == s3[i - n2]);
        } else if i < n4 {
            assert(ms[i] == s4[i - n3]);
        } else {
            assert(ms[i] == s5[i - n4]);
        }
    }
}

proof fn lemma_letters(i: int)
    requires
        0 <= i < 8,
    ensures
        letter_file(file_letter(i)) == i,
        digit_rank(rank_digit(i)) == i,
{
}

proof fn lemma_square_of_field(t: Field)
    ensures
        square(t.rank.idx(), t.file.idx()) == t,
{
}

/// Reading back the UCI text of a move gives the move, for every move
/// whose promotion, if any, is to a queen, rook, bishop or knight.
pub proof fn lemma_uci_round_trip(m: ChessMove)
    requires
        m.promote_to != Some(PieceType::PAWN),
        m.promote_to != Some(PieceType::KING),
    ensures
        uci_move(move_text(m)) == Some(m),
{
    lemma_letters(m.from_field.file.idx());
    lemma_letters(m.from_field.rank.idx());
    lemma_letters(m.to_field.file.idx());
    lemma_letters(m.to_field.rank.idx());
    lemma_square_of_field(m.from_field);
    lemma_square_of_field(m.to_field);
    let t = move_text(m);
    assert(t[0] == file_letter(m.from_field.file.idx()));
    assert(t[1] == rank_digit(m.from_field.rank.idx()));
    assert(t[2] == file_letter(m.to_field.file.idx()));
    assert(t[3] == rank_digit(m.to_field.rank.idx()));
}

/// A castling sent as the king taking its own rook (`e1h1`, `e1a1`,
/// `e8h8`, `e8a8`) becomes the king's two-file move, and the two-file move
/// itself is kept as it is.
pub proof fn lemma_castling_text(b: BoardModel, rank: Rank)
    requires
        rank == Rank::ONE || rank == Rank::EIGHT,
        b.at(Field { rank, file: File::E }) is Some,
        b.at(Field { rank, file: File::E })->0.piece_type == PieceType::KING,
    ensures
        sanitized(b, ChessMove { from_field: Field { rank, file: File::E }, to_field: Field { rank, file: File::H }, promote_to: None })
            == (ChessMove { from_field: Field { rank, file: File::E }, to_field: Field { rank, file: File::G }, promote_to: None }),
        sanitized(b, ChessMove { from_field: Field { rank, file: File::E }, to_field: Field { rank, file: File::A }, promote_to: None })
            == (ChessMove { from_field: Field { rank, file: File::E }, to_field: Field { rank, file: File::C }, promote_to: None }),
        sanitized(b, ChessMove { from_field: Field { rank, file: File::E }, to_field: Field { rank, file: File::G }, promote_to: None })
            == (ChessMove { from_field: Field { rank, file: File::E }, to_field: Field { rank, file: File::G }, promote_to: None }),
        sanitized(b, ChessMove { from_field: Field { rank, file: File::E }, to_field: Field { rank, file: File::C }, promote_to: None })
            == (ChessMove { from_field: Field { rank, file: File::E }, to_field: Field { rank, file: File::C }, promote_to: None }),
{
}

proof fn lemma_keep_safe_all(b: BoardModel, c: Color, ms: Seq<ChessMove>, p: spec_fn(ChessMove) -> bool)
    requires
        forall|i: int| 0 <= i < ms.len() ==> p(#[trigger] ms[i]),
    ensures
        forall|i: int| 0 <= i < keep_safe(b, c, ms).len() ==> p(#[trigger] keep_safe(b, c, ms)[i]),
    decreases ms.len(),
{
    if ms.len() > 0 {
        assert(forall|i: int| 0 <= i < ms.drop_last().len() ==> ms.drop_last()[i] == ms[i]);
        lemma_keep_safe_all(b, c, ms.drop_last(), p);
        let prev = keep_safe(b, c, ms.drop_last());
        assert forall|i: int| 0 <= i < keep_safe(b, c, ms).len() implies p(#[trigger] keep_safe(b, c, ms)[i]) by {
            if i < prev.len() {
                assert(keep_safe(b, c, ms)[i] == prev[i]);
            } else {
                assert(keep_safe(b, c, ms)[i] == ms.last());
            }
        }
    }
}

proof fn lemma_pseudo_all(b: BoardModel, c: Color, n: int, p: spec_fn(ChessMove) -> bool)
    requires
        0 <= n <= 64,
        forall|sq: int| 0 <= sq < 64 && b.squares[sq] is Some && b.squares[sq]->0.color == c ==> forall|i: int|
            0 <= i < moves_of_piece(b, sq / 8, sq % 8).len() ==> p(#[trigger] moves_of_piece(b, sq / 8, sq % 8)[i]),
    ensures
        forall|i: int| 0 <= i < pseudo_moves(b, c, n).len() ==> p(#[trigger] pseudo_moves(b, c, n)[i]),
    decreases n,
{
    if n > 0 {
        lemma_pseudo_all(b, c, n - 1, p);
        let prev = pseudo_moves(b, c, n - 1);
        let sq = n - 1;
        assert forall|i: int| 0 <= i < pseudo_moves(b, c, n).len() implies p(#[trigger] pseudo_moves(b, c, n)[i]) by {
            if i < prev.len() {
                assert(pseudo_moves(b, c, n)[i] == prev[i]);
            } else {
                assert(pseudo_moves(b, c, n)[i] == moves_of_piece(b, sq / 8, sq % 8)[i - prev.len()]);
            }
        }
    }
}

/// Every move of a side's legal moves satisfies `p` where every
/// pseudo-legal move of each of its pieces does.
pub(crate) proof fn lemma_legal_all(b: BoardModel, c: Color, p: spec_fn(ChessMove) -> bool)
    requires
        forall|sq: int| 0 <= sq < 64 && b.squares[sq] is Some && b.squares[sq]->0.color == c ==> forall|i: int|
            0 <= i < moves_of_piece(b, sq / 8, sq % 8).len() ==> p(#[trigger] moves_of_piece(b, sq / 8, sq % 8)[i]),
    ensures
        forall|i: int| 0 <= i < legal_moves(b, c).len() ==> p(#[trigger] legal_moves(b, c)[i]),
{
    lemma_pseudo_all(b, c, 64, p);
    lemma_keep_safe_all(b, c, pseudo_moves(b, c, 64), p);
}

proof fn lemma_moves_onto_plain(b: BoardModel, from: Field, ts: Seq<Field>, c: Color)
    ensures
        forall|i: int| 0 <= i < moves_onto(b, from, ts, c).len() ==> (#[trigger] moves_onto(b, from, ts, c)[i]).promote_to is None
            && moves_onto(b, from, ts, c)[i].from_field == from,
    decreases ts.len(),
{
    if ts.len() > 0 {
        lemma_moves_onto_plain(b, from, ts.drop_last(), c);
        let prev = moves_onto(b, from, ts.drop_last(), c);
        assert forall|i: int| 0 <= i < moves_onto(b, from, ts, c).len() implies (#[trigger] moves_onto(b, from, ts, c)[i]).promote_to is None
            && moves_onto(b, from, ts, c)[i].from_field == from by {
            if i < prev.len() {
                assert(moves_onto(b, from, ts, c)[i] == prev[i]);
            }
        }
    }
}

proof fn lemma_jumps_plain(b: BoardModel, r: int, f: int, offs: Seq<(isize, isize)>, n: int, c: Color, guarded: bool)
    ensures
        forall|i: int| 0 <= i < jumps(b, r, f, offs, n, c, guarded).len() ==> (#[trigger] jumps(b, r, f, offs, n, c, guarded)[i]).promote_to is None
            && jumps(b, r, f, offs, n, c, guarded)[i].from_field == square(r, f),
    decreases n,
{
    if n > 0 {
        lemma_jumps_plain(b, r, f, offs, n - 1, c, guarded);
        let prev = jumps(b, r, f, offs, n - 1, c, guarded);
        assert forall|i: int| 0 <= i < jumps(b, r, f, offs, n, c, guarded).len() implies (#[trigger] jumps(b, r, f, offs, n, c, guarded)[i]).promote_to is None
            && jumps(b, r, f, offs, n, c, guarded)[i].from_field == square(r, f) by {
            if i < prev.len() {
                assert(jumps(b, r, f, offs, n, c, guarded)[i] == prev[i]);
            }
        }
    }
}

/// Whether `m` promotes only a pawn that steps onto its last rank: a white
/// pawn from rank 7 to rank 8 or a black pawn from rank 2 to rank 1.
pub open spec fn promotes_properly(b: BoardModel, m: ChessMove) -> bool {
    m.promote_to is Some ==> (b.at(m.from_field) is Some && b.at(m.from_field)->0.piece_type == PieceType::PAWN && (
    (b.at(m.from_field)->0.color == Color::WHITE && m.from_field.rank == Rank::SEVEN && m.to_field.rank
        == Rank::EIGHT) || (b.at(m.from_field)->0.color == Color::BLACK && m.from_field.rank == Rank::TWO
        && m.to_field.rank == Rank::ONE)))
}

proof fn lemma_pawn_promotions(b: BoardModel, r: int, f: int)
    requires
        on_board(r, f),
        piece_on(b, r, f) is Some,
        piece_on(b, r, f)->0.piece_type == PieceType::PAWN,
    ensures
        forall|i: int| 0 <= i < pawn_moves(b, r, f).len() ==> promotes_properly(b, #[trigger] pawn_moves(b, r, f)[i]),
{
    let ms = pawn_moves(b, r, f);
    let c = piece_on(b, r, f)->0.color;
    assert(b.at(square(r, f)) == piece_on(b, r, f));
    let d = pawn_dir(c);
    let s1 = one_if(on_board(r + d, f) && crate::rules::is_empty(b, r + d, f), pawn_to(r, f, c, r + d, f));
    let s2 = one_if(enemy_on(b, r + d, f - 1, c), pawn_to(r, f, c, r + d, f - 1));
    let s3 = one_if(enemy_on(b, r + d, f + 1, c), pawn_to(r, f, c, r + d, f + 1));
    let s4 = one_if(
        crate::rules::pawn_home(r, c) && on_board(r + d, f) && crate::rules::is_empty(b, r + d, f) && on_board(r + 2 * d, f)
            && crate::rules::is_empty(b, r + 2 * d, f),
        pawn_to(r, f, c, r + 2 * d, f),
    );
    let s5 = en_passant_moves(b, r, f, c);
    assert(ms == s1 + s2 + s3 + s4 + s5);
    assert forall|i: int| 0 <= i < ms.len() implies promotes_properly(b, #[trigger] ms[i]) by {
        let n1 = s1.len();
        let n2 = n1 + s2.len();
        let n3 = n2 + s3.len();
        let n4 = n3 + s4.len();
        if i < n1 {
            assert(ms[i] == s1[i]);
        } else if i < n2 {
            assert(ms[i] == s2[i - n1]);
        } else if i < n3 {
            assert(ms[i] == s3[i - n2]);
        } else if i < n4 {
            assert(ms[i] == s4[i - n3]);
        } else {
            assert(ms[i] == s5[i - n4]);
        }
    }
}

proof fn lemma_king_plain(b: BoardModel, r: int, f: int)
    requires
        on_board(r, f),
        piece_on(b, r, f) is Some,
    ensures
        forall|i: int| 0 <= i < king_moves(b, r, f).len() ==> (#[trigger] king_moves(b, r, f)[i]).promote_to is None
            && king_moves(b, r, f)[i].from_field == square(r, f),
{
    let c = piece_on(b, r, f)->0.color;
    lemma_jumps_plain(b, r, f, crate::rules::king_offsets(), 8, c, true);
    let ms = king_moves(b, r, f);
    let cm = castling_moves(b, r, f, c);
    let jm = jumps(b, r, f, crate::rules::king_offsets(), 8, c, true);
    assert(ms == cm + jm);
    assert forall|i: int| 0 <= i < ms.len() implies (#[trigger] ms[i]).promote_to is None && ms[i].from_field == square(r, f) by {
        if i >= cm.len() {
            assert(ms[i] == jm[i - cm.len()]);
        }
    }
}

proof fn lemma_piece_promotions(b: BoardModel, r: int, f: int)
    requires
        on_board(r, f),
        piece_on(b, r, f) is Some,
    ensures
        forall|i: int| 0 <= i < moves_of_piece(b, r, f).len() ==> promotes_properly(b, #[trigger] moves_of_piece(b, r, f)[i]),
{
    let pc = piece_on(b, r, f)->0;
    let c = pc.color;
    match pc.piece_type {
        PieceType::PAWN => {
            lemma_pawn_promotions(b, r, f);
        },
        PieceType::KNIGHT => {
            lemma_jumps_plain(b, r, f, crate::rules::knight_offsets(), 8, c, false);
        },
        PieceType::KING => {
            lemma_king_plain(b, r, f);
        },
        PieceType::ROOK => {
            lemma_moves_onto_plain(b, square(r, f), crate::rules::visible(b, r, f, crate::rules::rook_dirs()), c);
        },
        PieceType::BISHOP => {
            lemma_moves_onto_plain(b, square(r, f), crate::rules::visible(b, r, f, crate::rules::bishop_dirs()), c);
        },
        PieceType::QUEEN => {
            lemma_moves_onto_plain(b, square(r, f), crate::rules::visible(b, r, f, crate::rules::queen_dirs()), c);
        },
    }
}

/// Every legal move that promotes is a white pawn's move from rank 7 to
/// rank 8 or a black pawn's move from rank 2 to rank 1.
pub proof fn lemma_promotions(b: BoardModel, c: Color)
    ensures
        forall|i: int| 0 <= i < legal_moves(b, c).len() ==> promotes_properly(b, #[trigger] legal_moves(b, c)[i]),
{
    let p = |m: ChessMove| promotes_properly(b, m);
    assert forall|sq: int| 0 <= sq < 64 && b.squares[sq] is Some && b.squares[sq]->0.color == c implies forall|i: int|
        0 <= i < moves_of_piece(b, sq / 8, sq % 8).len() ==> p(#[trigger] moves_of_piece(b, sq / 8, sq % 8)[i]) by {
        lemma_piece_promotions(b, sq / 8, sq % 8);
    }
    lemma_legal_all(b, c, p);
}

} // verus!
