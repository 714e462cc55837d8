//! The FEN text of a position reads back as the same position.

use vstd::prelude::*;
use crate::board::{BoardModel, lemma_board_squares};
use crate::converter::{
    castling_rights, castling_text, decimal, decimal_value, digit_char, en_passant_of,
    en_passant_text, expand, fen_board, fen_ok, fen_text, letter_of, piece_letter,
    placement_ok, placement_text, row_text, run_length, run_text, side_of, split, all_digits,
};
use crate::pieces::{Color, Piece, square};

verus! {

broadcast use lemma_board_squares;

/// Splitting at a separator between two texts splits each of them.
proof fn lemma_split_concat(a: Seq<char>, b: Seq<char>, sep: char)
    ensures
        split(a + seq![sep] + b, sep) == split(a, sep) + split(b, sep),
    decreases b.len(),
{
    if b.len() == 0 {
        assert(a + seq![sep] + b =~= a.push(sep));
        assert((a.push(sep)).drop_last() =~= a);
        assert(split(b, sep) == seq![Seq::<char>::empty()]);
        assert(split(a, sep).push(Seq::empty()) =~= split(a, sep) + split(b, sep));
    } else {
        let s = a + seq![sep] + b;
        assert(s.drop_last() =~= a + seq![sep] + b.drop_last());
        assert(s.last() == b.last());
        lemma_split_concat(a, b.drop_last(), sep);
        lemma_split_len(b.drop_last(), sep);
        let x = split(a, sep);
        let y = split(b.drop_last(), sep);
        if b.last() == sep {
            assert((x + y).push(Seq::empty()) =~= x + y.push(Seq::empty()));
        } else {
            assert((x + y).update((x + y).len() - 1, (x + y).last().push(b.last())) =~= x + y.update(y.len() - 1, y.last().push(b.last())));
        }
    }
}

proof fn lemma_split_len(s: Seq<char>, sep: char)
    ensures
        split(s, sep).len() >= 1,
    decreases s.len(),
{
    if s.len() > 0 {
        lemma_split_len(s.drop_last(), sep);
    }
}

/// A text without the separator is one piece.
proof fn lemma_split_none(s: Seq<char>, sep: char)
    requires
        forall|i: int| 0 <= i < s.len() ==> s[i] != sep,
    ensures
        split(s, sep) == seq![s],
    decreases s.len(),
{
    if s.len() > 0 {
        lemma_split_none(s.drop_last(), sep);
        assert(s.last() == s[s.len() - 1]);
        assert(s.last() != sep);
        assert(s.drop_last().push(s.last()) =~= s);
        assert(seq![s.drop_last()].update(0, s.drop_last().push(s.last())) =~= seq![s]);
    } else {
        assert(s =~= Seq::<char>::empty());
    }
}

proof fn lemma_letter_round_trip(p: Piece)
    ensures
        piece_letter(letter_of(p)) == Some(p),
        run_length(letter_of(p)) == 0,
        letter_of(p) != '/',
        letter_of(p) != ' ',
{
}

proof fn lemma_digit(n: int)
    requires
        1 <= n <= 8,
    ensures
        run_length(digit_char(n)) == n,
        digit_char(n) != '/',
        digit_char(n) != ' ',
{
}

/// Reading a text made of two parts reads each part.
proof fn lemma_expand_concat(a: Seq<char>, b: Seq<char>)
    requires
        expand(a) is Some,
        expand(b) is Some,
    ensures
        expand(a + b) == Some(expand(a)->0 + expand(b)->0),
    decreases b.len(),
{
    if b.len() == 0 {
        assert(a + b =~= a);
        assert(expand(a)->0 + expand(b)->0 =~= expand(a)->0);
    } else {
        assert((a + b).drop_last() =~= a + b.drop_last());
        assert(expand(b.drop_last()) is Some);
        lemma_expand_concat(a, b.drop_last());
        let x = expand(a)->0;
        let y = expand(b.drop_last())->0;
        let c = b.last();
        if run_length(c) > 0 {
            assert(x + y + Seq::new(run_length(c) as nat, |i: int| None::<Piece>) =~= x + (y + Seq::new(run_length(c) as nat, |i: int| None::<Piece>)));
        } else {
            assert((x + y).push(Some(piece_letter(c)->0)) =~= x + y.push(Some(piece_letter(c)->0)));
        }
    }
}

proof fn lemma_run_text(e: int)
    requires
        0 <= e <= 8,
    ensures
        expand(run_text(e)) == Some(Seq::new(e as nat, |i: int| None::<Piece>)),
        forall|i: int| 0 <= i < run_text(e).len() ==> run_text(e)[i] != '/' && run_text(e)[i] != ' ',
{
    assert(expand(Seq::<char>::empty()) == Some(Seq::<Option<Piece>>::empty()));
    if e > 0 {
        lemma_digit(e);
        assert(run_text(e).drop_last() =~= Seq::<char>::empty());
        assert(run_text(e).last() == digit_char(e));
        assert(Seq::<Option<Piece>>::empty() + Seq::new(e as nat, |i: int| None::<Piece>) =~= Seq::new(e as nat, |i: int| None::<Piece>));
    } else {
        assert(Seq::new(0, |i: int| None::<Piece>) =~= Seq::<Option<Piece>>::empty());
    }
}

/// The FEN text of a rank reads back as the rank's squares.
proof fn lemma_row_text(b: BoardModel, r: int, f: int, e: int)
    requires
        0 <= r < 8,
        0 <= f <= 8,
        0 <= e <= f,
        b.squares.len() == 64,
    ensures
        expand(row_text(b, r, f, e)) == Some(Seq::new(e as nat, |i: int| None::<Piece>) + b.squares.subrange(r * 8 + f, r * 8 + 8)),
        forall|i: int| 0 <= i < row_text(b, r, f, e).len() ==> row_text(b, r, f, e)[i] != '/' && row_text(b, r, f, e)[i] != ' ',
    decreases 8 - f,
{
    lemma_run_text(e);
    if f >= 8 {
        assert(Seq::new(e as nat, |i: int| None::<Piece>) + b.squares.subrange(r * 8 + f, r * 8 + 8) =~= Seq::new(e as nat, |i: int| None::<Piece>));
    } else {
        match b.squares[r * 8 + f] {
            Some(p) => {
                lemma_row_text(b, r, f + 1, 0);
                lemma_letter_round_trip(p);
                let head = run_text(e) + seq![letter_of(p)];
                assert(seq![letter_of(p)].drop_last() =~= Seq::<char>::empty());
                assert(expand(seq![letter_of(p)]) == Some(seq![Some(p)])) by {
                    assert(expand(Seq::<char>::empty()) == Some(Seq::<Option<Piece>>::empty()));
                    assert(seq![letter_of(p)].last() == letter_of(p));
                    assert(Seq::<Option<Piece>>::empty().push(Some(p)) =~= seq![Some(p)]);
                }
                lemma_expand_concat(run_text(e), seq![letter_of(p)]);
                lemma_expand_concat(head, row_text(b, r, f + 1, 0));
                assert(Seq::new(e as nat, |i: int| None::<Piece>) + seq![Some(p)] + (Seq::new(0, |i: int| None::<Piece>) + b.squares.subrange(r * 8 + f + 1, r * 8 + 8))
                    =~= Seq::new(e as nat, |i: int| None::<Piece>) + b.squares.subrange(r * 8 + f, r * 8 + 8));
                assert forall|i: int| 0 <= i < row_text(b, r, f, e).len() implies row_text(b, r, f, e)[i] != '/' && row_text(b, r, f, e)[i] != ' ' by {
                    let t = row_text(b, r, f + 1, 0);
                    assert(row_text(b, r, f, e) == head + t);
                    if i >= head.len() {
                        assert(row_text(b, r, f, e)[i] == t[i - head.len()]);
                    } else if i >= run_text(e).len() {
                        assert(row_text(b, r, f, e)[i] == letter_of(p));
                    } else {
                        assert(row_text(b, r, f, e)[i] == run_text(e)[i]);
                    }
                }
            },
            None => {
                lemma_row_text(b, r, f + 1, e + 1);
                assert(Seq::new((e + 1) as nat, |i: int| None::<Piece>) + b.squares.subrange(r * 8 + f + 1, r * 8 + 8)
                    =~= Seq::new(e as nat, |i: int| None::<Piece>) + b.squares.subrange(r * 8 + f, r * 8 + 8));
            },
        }
    }
}

/// The rows of the placement text of ranks `r` down to 1, first row first.
proof fn lemma_placement_rows(b: BoardModel, r: int)
    requires
        0 <= r < 8,
        b.squares.len() == 64,
    ensures
        split(placement_text(b, r), '/') == Seq::new((r + 1) as nat, |j: int| row_text(b, r - j, 0, 0)),
        forall|i: int| 0 <= i < placement_text(b, r).len() ==> placement_text(b, r)[i] != ' ',
    decreases r,
{
    lemma_row_text(b, r, 0, 0);
    if r == 0 {
        lemma_split_none(row_text(b, 0, 0, 0), '/');
        assert(seq![row_text(b, 0, 0, 0)] =~= Seq::new(1, |j: int| row_text(b, 0 - j, 0, 0)));
    } else {
        lemma_placement_rows(b, r - 1);
        lemma_split_none(row_text(b, r, 0, 0), '/');
        lemma_split_concat(row_text(b, r, 0, 0), placement_text(b, r - 1), '/');
        assert(seq![row_text(b, r, 0, 0)] + Seq::new(r as nat, |j: int| row_text(b, r - 1 - j, 0, 0))
            =~= Seq::new((r + 1) as nat, |j: int| row_text(b, r - j, 0, 0)));
        let x = row_text(b, r, 0, 0);
        let y = placement_text(b, r - 1);
        assert forall|i: int| 0 <= i < placement_text(b, r).len() implies placement_text(b, r)[i] != ' ' by {
            assert(placement_text(b, r) == x + seq!['/'] + y);
            if i < x.len() {
                assert(placement_text(b, r)[i] == x[i]);
            } else if i > x.len() {
                assert(placement_text(b, r)[i] == y[i - x.len() - 1]);
            }
        }
    }
}

proof fn lemma_digit_value(k: int)
    requires
        0 <= k < 10,
    ensures
        digit_char(k) as int - '0' as int == k,
        '0' <= digit_char(k) && digit_char(k) <= '9',
{
}

proof fn lemma_decimal(n: nat)
    ensures
        decimal(n).len() > 0,
        all_digits(decimal(n)),
        decimal_value(decimal(n)) == n,
        forall|i: int| 0 <= i < decimal(n).len() ==> decimal(n)[i] != ' ',
    decreases n,
{
    lemma_digit_value((n % 10) as int);
    if n >= 10 {
        lemma_decimal(n / 10);
        assert(decimal(n).drop_last() =~= decimal(n / 10));
        assert(decimal(n).last() == digit_char((n % 10) as int));
        assert(decimal_value(decimal(n)) == decimal_value(decimal(n / 10)) * 10 + (n % 10));
        assert(all_digits(decimal(n))) by {
            assert forall|i: int| 0 <= i < decimal(n).len() implies '0' <= #[trigger] decimal(n)[i] && decimal(n)[i] <= '9' by {
                if i < decimal(n / 10).len() {
                    assert(decimal(n)[i] == decimal(n / 10)[i]);
                }
            }
        }
        assert forall|i: int| 0 <= i < decimal(n).len() implies decimal(n)[i] != ' ' by {
            if i < decimal(n / 10).len() {
                assert(decimal(n)[i] == decimal(n / 10)[i]);
            }
        }
    } else {
        lemma_digit_value(n as int);
        assert(decimal(n).drop_last() =~= Seq::<char>::empty());
        assert(decimal(n).last() == digit_char(n as int));
        assert(decimal_value(Seq::<char>::empty()) == 0);
    }
}

proof fn lemma_castling_text(b: BoardModel)
    ensures
        castling_rights(castling_text(b)) == Some((b.white_short, b.white_long, b.black_short, b.black_long)),
        forall|i: int| 0 <= i < castling_text(b).len() ==> castling_text(b)[i] != ' ',
{
    let t = castling_text(b);
    reveal_with_fuel(castling_rights, 5);
    if !b.white_short && !b.white_long && !b.black_short && !b.black_long {
        assert(t.drop_last() =~= Seq::<char>::empty());
    } else {
        let k = if b.white_short { seq!['K'] } else { Seq::empty() };
        let q = if b.white_long { seq!['Q'] } else { Seq::empty() };
        let k2 = if b.black_short { seq!['k'] } else { Seq::empty() };
        let q2 = if b.black_long { seq!['q'] } else { Seq::empty() };
        assert(t == k + q + k2 + q2);
        let t1 = k;
        let t2 = k + q;
        let t3 = k + q + k2;
        assert(castling_rights(t1) == Some((b.white_short, false, false, false))) by {
            if b.white_short {
                assert(t1.drop_last() =~= Seq::<char>::empty());
            } else {
                assert(t1 =~= Seq::<char>::empty());
            }
        }
        assert(castling_rights(t2) == Some((b.white_short, b.white_long, false, false))) by {
            if b.white_long {
                assert(t2.drop_last() =~= t1);
            } else {
                assert(t2 =~= t1);
            }
        }
        assert(castling_rights(t3) == Some((b.white_short, b.white_long, b.black_short, false))) by {
            if b.black_short {
                assert(t3.drop_last() =~= t2);
            } else {
                assert(t3 =~= t2);
            }
        }
        if b.black_long {
            assert(t.drop_last() =~= t3);
        } else {
            assert(t =~= t3);
        }
    }
}

proof fn lemma_parts_have_no_space(b: BoardModel)
    requires
        b.squares.len() == 64,
    ensures
        forall|i: int| 0 <= i < placement_text(b, 7).len() ==> placement_text(b, 7)[i] != ' ',
        forall|i: int| 0 <= i < castling_text(b).len() ==> castling_text(b)[i] != ' ',
        forall|i: int| 0 <= i < en_passant_text(b).len() ==> en_passant_text(b)[i] != ' ',
        forall|i: int| 0 <= i < decimal(b.move_counter as nat).len() ==> decimal(b.move_counter as nat)[i] != ' ',
{
    lemma_placement_rows(b, 7);
    lemma_castling_text(b);
    lemma_decimal(b.move_counter as nat);
}

/// The six fields of the FEN text of a position.
#[verifier::rlimit(40)]
proof fn lemma_fen_fields(b: BoardModel)
    requires
        b.squares.len() == 64,
    ensures
        split(fen_text(b), ' ') == seq![
            placement_text(b, 7),
            seq![if b.next_color == Color::WHITE { 'w' } else { 'b' }],
            castling_text(b),
            en_passant_text(b),
            seq!['0'],
            decimal(b.move_counter as nat),
        ],
{
    let placement = placement_text(b, 7);
    let side = seq![if b.next_color == Color::WHITE { 'w' } else { 'b' }];
    let castle = castling_text(b);
    let ep = en_passant_text(b);
    let zero = seq!['0'];
    let counter = decimal(b.move_counter as nat);
    lemma_parts_have_no_space(b);
    let s = fen_text(b);
    assert(s =~= placement + seq![' '] + (side + seq![' '] + (castle + seq![' '] + (ep + seq![' '] + (zero + seq![' '] + counter)))));
    lemma_split_none(side, ' ');
    lemma_split_none(ep, ' ');
    lemma_split_none(zero, ' ');
    lemma_split_none(placement, ' ');
    lemma_split_none(castle, ' ');
    lemma_split_none(counter, ' ');
    lemma_split_concat(zero, counter, ' ');
    lemma_split_concat(ep, zero + seq![' '] + counter, ' ');
    lemma_split_concat(castle, ep + seq![' '] + (zero + seq![' '] + counter), ' ');
    lemma_split_concat(side, castle + seq![' '] + (ep + seq![' '] + (zero + seq![' '] + counter)), ' ');
    lemma_split_concat(placement, side + seq![' '] + (castle + seq![' '] + (ep + seq![' '] + (zero + seq![' '] + counter))), ' ');
    assert(split(s, ' ') =~= seq![placement, side, castle, ep, zero, counter]);
}

/// The rows of the placement text read back as the ranks, rank 8 first.
proof fn lemma_fen_rows(b: BoardModel)
    requires
        b.squares.len() == 64,
    ensures
        placement_ok(split(placement_text(b, 7), '/')),
        forall|i: int| 0 <= i < 64 ==> #[trigger] expand(split(placement_text(b, 7), '/')[7 - i / 8])->0[i % 8] == b.squares[i],
{
    lemma_placement_rows(b, 7);
    let rows = split(placement_text(b, 7), '/');
    assert forall|j: int| 0 <= j < 8 implies (#[trigger] expand(rows[j])) is Some && expand(rows[j])->0.len() == 8 by {
        lemma_row_text(b, 7 - j, 0, 0);
        assert(Seq::new(0, |i: int| None::<Piece>) + b.squares.subrange((7 - j) * 8, (7 - j) * 8 + 8) =~= b.squares.subrange((7 - j) * 8, (7 - j) * 8 + 8));
    }
    assert forall|i: int| 0 <= i < 64 implies #[trigger] expand(rows[7 - i / 8])->0[i % 8] == b.squares[i] by {
        let r = i / 8;
        lemma_row_text(b, r, 0, 0);
        assert(rows[7 - r] == row_text(b, r, 0, 0));
        assert(Seq::new(0, |k: int| None::<Piece>) + b.squares.subrange(r * 8, r * 8 + 8) =~= b.squares.subrange(r * 8, r * 8 + 8));
    }
}

/// The FEN text of a position reads back as that position: it is
/// accepted, and it describes the same board, side to move, castling
/// rights, en-passant target and move counter.
pub proof fn lemma_fen_round_trip(b: BoardModel)
    requires
        b.squares.len() == 64,
    ensures
        fen_ok(fen_text(b)),
        fen_board(fen_text(b)) == b,
{
    lemma_fen_fields(b);
    lemma_fen_rows(b);
    lemma_castling_text(b);
    lemma_decimal(b.move_counter as nat);
    let s = fen_text(b);
    let ep = en_passant_text(b);
    assert(en_passant_of(ep) == Some(b.en_passant)) by {
        match b.en_passant {
            Some(t) => {
                assert(ep == seq![crate::pieces::file_letter(t.file.idx()), crate::pieces::rank_digit(t.rank.idx())]);
                assert(square(t.rank.idx(), t.file.idx()) == t);
            },
            None => {},
        }
    }
    let side = seq![if b.next_color == Color::WHITE { 'w' } else { 'b' }];
    assert(side_of(side) == Some(b.next_color)) by {
        if b.next_color == Color::BLACK {
            assert(side[0] != seq!['w'][0]);
            assert(side != seq!['w']);
        }
    }
    assert(fen_ok(s));
    let fb = fen_board(s);
    assert(fb.squares =~= b.squares);
    assert(fb.next_color == b.next_color);
    assert(fb.move_counter == b.move_counter);
    assert(fb.en_passant == b.en_passant);
    assert(fb.white_short == b.white_short && fb.white_long == b.white_long);
    assert(fb.black_short == b.black_short && fb.black_long == b.black_long);
}

/// On the texts this library writes, reading a FEN text and writing the
/// position again gives the same text.
pub proof fn lemma_fen_text_round_trip(s: Seq<char>, b: BoardModel)
    requires
        b.squares.len() == 64,
        s == fen_text(b),
    ensures
        fen_ok(s),
        fen_text(fen_board(s)) == s,
{
    lemma_fen_round_trip(b);
}

} // verus!
