//! Text forms: FEN positions and UCI move text.

use vstd::prelude::*;
use vstd::string::*;
use crate::board::{Board, BoardModel, lemma_board_squares};
use crate::options::text_is;
use crate::pieces::{
    ChessMove, Color, Field, File, Piece, PieceType, Rank, digit_rank, file_letter, letter_file,
    rank_digit, square,
};

verus! {

broadcast use lemma_board_squares;

/// Relies on `String::push`: appends one character to the string.
#[verifier::external_body]
pub(crate) fn push_char(s: &mut String, c: char)
    ensures
        final(s)@ == old(s)@.push(c),
{
    s.push(c);
}

/// The characters of a string, in order.
pub(crate) fn chars_of(s: &str) -> (r: Vec<char>)
    ensures
        r@ == s@,
{
    let n = s.unicode_len();
    let mut v: Vec<char> = Vec::new();
    let mut i: usize = 0;
    while i < n
        invariant
            0 <= i <= n,
            n == s@.len(),
            v@ == s@.take(i as int),
        decreases n - i,
    {
        v.push(s.get_char(i));
        i = i + 1;
        assert(v@ =~= s@.take(i as int));
    }
    assert(s@.take(n as int) =~= s@);
    v
}

/// The pieces of `s` between occurrences of `sep` (one piece more than
/// there are separators).
pub open spec fn split(s: Seq<char>, sep: char) -> Seq<Seq<char>>
    decreases s.len(),
{
    if s.len() == 0 {
        seq![Seq::empty()]
    } else {
        let rest = split(s.drop_last(), sep);
        if s.last() == sep {
            rest.push(Seq::empty())
        } else {
            rest.update(rest.len() - 1, rest.last().push(s.last()))
        }
    }
}

proof fn lemma_split_nonempty(s: Seq<char>, sep: char)
    ensures
        split(s, sep).len() >= 1,
    decreases s.len(),
{
    if s.len() > 0 {
        lemma_split_nonempty(s.drop_last(), sep);
    }
}

/// Splits `s` at each occurrence of `sep`.
fn split_chars(s: &Vec<char>, sep: char) -> (r: Vec<Vec<char>>)
    ensures
        r@.len() == split(s@, sep).len(),
        forall|i: int| 0 <= i < r@.len() ==> (#[trigger] r@[i])@ == split(s@, sep)[i],
{
    let mut parts: Vec<Vec<char>> = Vec::new();
    let mut cur: Vec<char> = Vec::new();
    let mut i: usize = 0;
    while i < s.len()
        invariant
            0 <= i <= s@.len(),
            parts@.len() + 1 == split(s@.take(i as int), sep).len(),
            forall|j: int| 0 <= j < parts@.len() ==> (#[trigger] parts@[j])@ == split(s@.take(i as int), sep)[j],
            cur@ == split(s@.take(i as int), sep).last(),
        decreases s@.len() - i,
    {
        proof {
            assert(s@.take(i as int + 1).drop_last() =~= s@.take(i as int));
            lemma_split_nonempty(s@.take(i as int), sep);
        }
        let c = s[i];
        if c == sep {
            let done = cur;
            parts.push(done);
            cur = Vec::new();
        } else {
            cur.push(c);
        }
        i = i + 1;
    }
    assert(s@.take(s@.len() as int) =~= s@);
    parts.push(cur);
    parts
}

/// The piece a FEN letter names: lower case for black, upper case for white.
pub open spec fn piece_letter(c: char) -> Option<Piece> {
    let kind = if c == 'r' || c == 'R' {
        Some(PieceType::ROOK)
    } else if c == 'n' || c == 'N' {
        Some(PieceType::KNIGHT)
    } else if c == 'b' || c == 'B' {
        Some(PieceType::BISHOP)
    } else if c == 'q' || c == 'Q' {
        Some(PieceType::QUEEN)
    } else if c == 'k' || c == 'K' {
        Some(PieceType::KING)
    } else if c == 'p' || c == 'P' {
        Some(PieceType::PAWN)
    } else {
        None
    };
    match kind {
        Some(k) => Some(
            Piece {
                color: if 'A' <= c && c <= 'Z' {
                    Color::WHITE
                } else {
                    Color::BLACK
                },
                piece_type: k,
            },
        ),
        None => None,
    }
}

/// The FEN letter of a piece.
pub open spec fn letter_of(p: Piece) -> char {
    match p.color {
        Color::WHITE => match p.piece_type {
            PieceType::ROOK => 'R',
            PieceType::KNIGHT => 'N',
            PieceType::BISHOP => 'B',
            PieceType::QUEEN => 'Q',
            PieceType::KING => 'K',
            PieceType::PAWN => 'P',
        },
        Color::BLACK => match p.piece_type {
            PieceType::ROOK => 'r',
            PieceType::KNIGHT => 'n',
            PieceType::BISHOP => 'b',
            PieceType::QUEEN => 'q',
            PieceType::KING => 'k',
            PieceType::PAWN => 'p',
        },
    }
}

/// The number of empty squares a FEN digit stands for (`1` to `8`), or 0.
pub open spec fn run_length(c: char) -> int {
    if '1' <= c && c <= '8' {
        c as int - '0' as int
    } else {
        0
    }
}

/// The squares of one FEN rank row, file `a` first; `None` where the row
/// holds a character that is neither a digit `1`-`8` nor a piece letter.
pub open spec fn expand(row: Seq<char>) -> Option<Seq<Option<Piece>>>
    decreases row.len(),
{
    if row.len() == 0 {
        Some(Seq::empty())
    } else {
        match expand(row.drop_last()) {
            None => None,
            Some(prefix) => {
                let c = row.last();
                if run_length(c) > 0 {
                    Some(prefix + Seq::new(run_length(c) as nat, |i: int| None::<Piece>))
                } else {
                    match piece_letter(c) {
                        Some(p) => Some(prefix.push(Some(p))),
                        None => None,
                    }
                }
            },
        }
    }
}

fn letter_piece(c: char) -> (r: Option<Piece>)
    ensures
        r == piece_letter(c),
{
    let kind = match c {
        'r' | 'R' => PieceType::ROOK,
        'n' | 'N' => PieceType::KNIGHT,
        'b' | 'B' => PieceType::BISHOP,
        'q' | 'Q' => PieceType::QUEEN,
        'k' | 'K' => PieceType::KING,
        'p' | 'P' => PieceType::PAWN,
        _ => {
            return None;
        },
    };
    let color = if 'A' <= c && c <= 'Z' {
        Color::WHITE
    } else {
        Color::BLACK
    };
    Some(Piece::new(color, kind))
}

fn digit_run(c: char) -> (r: usize)
    ensures
        r as int == run_length(c),
{
    match c {
        '1' => 1,
        '2' => 2,
        '3' => 3,
        '4' => 4,
        '5' => 5,
        '6' => 6,
        '7' => 7,
        '8' => 8,
        _ => 0,
    }
}

proof fn lemma_expand_prefix_none(s: Seq<char>, i: int)
    requires
        0 <= i <= s.len(),
        expand(s.take(i)) is None,
    ensures
        expand(s) is None,
    decreases s.len() - i,
{
    if i < s.len() {
        assert(s.take(i + 1).drop_last() =~= s.take(i));
        lemma_expand_prefix_none(s, i + 1);
    } else {
        assert(s.take(i) =~= s);
    }
}

proof fn lemma_rights_prefix_none(s: Seq<char>, i: int)
    requires
        0 <= i <= s.len(),
        castling_rights(s.take(i)) is None,
    ensures
        castling_rights(s) is None,
    decreases s.len() - i,
{
    if i < s.len() {
        assert(s.take(i + 1).drop_last() =~= s.take(i));
        lemma_rights_prefix_none(s, i + 1);
    } else {
        assert(s.take(i) =~= s);
    }
}

/// The squares of one FEN rank row.
fn expand_row(row: &Vec<char>) -> (r: Option<Vec<Option<Piece>>>)
    ensures
        r is Some <==> expand(row@) is Some,
        r matches Some(v) ==> v@ == expand(row@)->0,
{
    let mut squares: Vec<Option<Piece>> = Vec::new();
    let mut i: usize = 0;
    while i < row.len()
        invariant
            0 <= i <= row@.len(),
            expand(row@.take(i as int)) == Some(squares@),
        decreases row@.len() - i,
    {
        proof {
            assert(row@.take(i as int + 1).drop_last() =~= row@.take(i as int));
        }
        let c = row[i];
        let run = digit_run(c);
        if run > 0 {
            let ghost before = squares@;
            let mut k: usize = 0;
            while k < run
                invariant
                    0 <= k <= run,
                    squares@ == before + Seq::new(k as nat, |j: int| None::<Piece>),
                decreases run - k,
            {
                squares.push(None);
                k = k + 1;
                assert(squares@ =~= before + Seq::new(k as nat, |j: int| None::<Piece>));
            }
        } else {
            match letter_piece(c) {
                Some(p) => squares.push(Some(p)),
                None => {
                    proof {
                        lemma_expand_prefix_none(row@, i as int + 1);
                    }
                    return None;
                },
            }
        }
        i = i + 1;
    }
    assert(row@.take(row@.len() as int) =~= row@);
    Some(squares)
}

/// The decimal value of a string of digits.
pub open spec fn decimal_value(s: Seq<char>) -> int
    decreases s.len(),
{
    if s.len() == 0 {
        0
    } else {
        decimal_value(s.drop_last()) * 10 + (s.last() as int - '0' as int)
    }
}

pub open spec fn all_digits(s: Seq<char>) -> bool {
    forall|i: int| 0 <= i < s.len() ==> '0' <= #[trigger] s[i] && s[i] <= '9'
}

/// Whether `s` is a decimal number from 0 to 65535.
pub open spec fn is_counter(s: Seq<char>) -> bool {
    s.len() > 0 && all_digits(s) && decimal_value(s) <= u16::MAX
}

proof fn lemma_decimal_prefix(s: Seq<char>, i: int)
    requires
        all_digits(s),
        0 <= i <= s.len(),
    ensures
        decimal_value(s.take(i)) <= decimal_value(s),
        decimal_value(s.take(i)) >= 0,
    decreases s.len() - i,
{
    if i < s.len() {
        lemma_decimal_prefix(s, i + 1);
        assert(s.take(i + 1).drop_last() =~= s.take(i));
        assert(decimal_value(s.take(i + 1)) == decimal_value(s.take(i)) * 10 + (s[i] as int - '0' as int));
    } else {
        assert(s.take(i) =~= s);
    }
    if i == 0 {
        assert(s.take(0) =~= Seq::<char>::empty());
    } else {
        lemma_decimal_prefix_nonneg(s.take(i));
    }
}

proof fn lemma_decimal_prefix_nonneg(s: Seq<char>)
    requires
        all_digits(s),
    ensures
        decimal_value(s) >= 0,
    decreases s.len(),
{
    if s.len() > 0 {
        lemma_decimal_prefix_nonneg(s.drop_last());
    }
}

/// Reads a move counter.
pub(crate) fn parse_counter(s: &Vec<char>) -> (r: Option<u16>)
    ensures
        r is Some <==> is_counter(s@),
        r matches Some(n) ==> n as int == decimal_value(s@),
{
    if s.len() == 0 {
        return None;
    }
    let mut i: usize = 0;
    while i < s.len()
        invariant
            0 <= i <= s@.len(),
            forall|j: int| 0 <= j < i ==> '0' <= #[trigger] s@[j] && s@[j] <= '9',
        decreases s@.len() - i,
    {
        if !('0' <= s[i] && s[i] <= '9') {
            return None;
        }
        i = i + 1;
    }
    let mut value: u32 = 0;
    let mut k: usize = 0;
    while k < s.len()
        invariant
            0 <= k <= s@.len(),
            all_digits(s@),
            value as int == decimal_value(s@.take(k as int)),
            value <= u16::MAX,
        decreases s@.len() - k,
    {
        proof {
            assert(s@.take(k as int + 1).drop_last() =~= s@.take(k as int));
        }
        let d: u32 = match s[k] {
            '0' => 0,
            '1' => 1,
            '2' => 2,
            '3' => 3,
            '4' => 4,
            '5' => 5,
            '6' => 6,
            '7' => 7,
            '8' => 8,
            _ => 9,
        };
        assert(d as int == s@[k as int] as int - '0' as int);
        value = value * 10 + d;
        k = k + 1;
        if value > 65535 {
            proof {
                lemma_decimal_prefix(s@, k as int);
            }
            return None;
        }
    }
    assert(s@.take(s@.len() as int) =~= s@);
    Some(value as u16)
}

/// The castling rights that a FEN castling field grants, or `None` for a
/// character other than `K`, `Q`, `k`, `q` and `-`.
pub open spec fn castling_rights(s: Seq<char>) -> Option<(bool, bool, bool, bool)>
    decreases s.len(),
{
    if s.len() == 0 {
        Some((false, false, false, false))
    } else {
        match castling_rights(s.drop_last()) {
            None => None,
            Some(r) => {
                let c = s.last();
                if c == 'K' {
                    Some((true, r.1, r.2, r.3))
                } else if c == 'Q' {
                    Some((r.0, true, r.2, r.3))
                } else if c == 'k' {
                    Some((r.0, r.1, true, r.3))
                } else if c == 'q' {
                    Some((r.0, r.1, r.2, true))
                } else if c == '-' {
                    Some(r)
                } else {
                    None
                }
            },
        }
    }
}

/// The en-passant square of a FEN field: `Some(None)` for `-`,
/// `Some(Some(f))` for a square, `None` for anything else.
pub open spec fn en_passant_of(s: Seq<char>) -> Option<Option<Field>> {
    if s == seq!['-'] {
        Some(None)
    } else if s.len() == 2 && 0 <= letter_file(s[0]) && 0 <= digit_rank(s[1]) {
        Some(Some(square(digit_rank(s[1]), letter_file(s[0]))))
    } else {
        None
    }
}

/// The side to move named by a FEN field.
pub open spec fn side_of(s: Seq<char>) -> Option<Color> {
    if s == seq!['w'] {
        Some(Color::WHITE)
    } else if s == seq!['b'] {
        Some(Color::BLACK)
    } else {
        None
    }
}

/// Whether the rows of a FEN placement field each describe eight squares.
pub open spec fn placement_ok(rows: Seq<Seq<char>>) -> bool {
    rows.len() == 8 && forall|i: int| 0 <= i < 8 ==> (#[trigger] expand(rows[i])) is Some && expand(rows[i])->0.len() == 8
}

/// Whether `s` is a FEN text that this library reads: six or more fields
/// separated by single spaces (placement, side, castling, en passant,
/// halfmove clock, move number); the halfmove clock and further fields are
/// not read.
pub open spec fn fen_ok(s: Seq<char>) -> bool {
    let fields = split(s, ' ');
    &&& fields.len() >= 6
    &&& placement_ok(split(fields[0], '/'))
    &&& side_of(fields[1]) is Some
    &&& castling_rights(fields[2]) is Some
    &&& en_passant_of(fields[3]) is Some
    &&& is_counter(fields[5])
}

/// The position a FEN text describes (where `fen_ok` holds). The first row
/// is rank 8.
pub open spec fn fen_board(s: Seq<char>) -> BoardModel {
    let fields = split(s, ' ');
    let rows = split(fields[0], '/');
    let rights = castling_rights(fields[2])->0;
    BoardModel {
        squares: Seq::new(64, |i: int| expand(rows[7 - i / 8])->0[i % 8]),
        next_color: side_of(fields[1])->0,
        move_counter: decimal_value(fields[5]) as u16,
        en_passant: en_passant_of(fields[3])->0,
        white_short: rights.0,
        white_long: rights.1,
        black_short: rights.2,
        black_long: rights.3,
    }
}

/// The starting position.
pub open spec fn start_position() -> BoardModel {
    BoardModel {
        squares: Seq::new(
            64,
            |i: int|
                if i / 8 == 0 || i / 8 == 7 {
                    Some(
                        Piece {
                            color: if i / 8 == 0 {
                                Color::WHITE
                            } else {
                                Color::BLACK
                            },
                            piece_type: back_rank(i % 8),
                        },
                    )
                } else if i / 8 == 1 || i / 8 == 6 {
                    Some(
                        Piece {
                            color: if i / 8 == 1 {
                                Color::WHITE
                            } else {
                                Color::BLACK
                            },
                            piece_type: PieceType::PAWN,
                        },
                    )
                } else {
                    None
                },
        ),
        next_color: Color::WHITE,
        move_counter: 1,
        en_passant: None,
        white_short: true,
        white_long: true,
        black_short: true,
        black_long: true,
    }
}

/// The piece kind that starts on the given file of the back rank.
pub open spec fn back_rank(f: int) -> PieceType {
    if f == 0 || f == 7 {
        PieceType::ROOK
    } else if f == 1 || f == 6 {
        PieceType::KNIGHT
    } else if f == 2 || f == 5 {
        PieceType::BISHOP
    } else if f == 3 {
        PieceType::QUEEN
    } else {
        PieceType::KING
    }
}

fn back_rank_piece(f: usize) -> (r: PieceType)
    ensures
        r == back_rank(f as int),
{
    if f == 0 || f == 7 {
        PieceType::ROOK
    } else if f == 1 || f == 6 {
        PieceType::KNIGHT
    } else if f == 2 || f == 5 {
        PieceType::BISHOP
    } else if f == 3 {
        PieceType::QUEEN
    } else {
        PieceType::KING
    }
}


/// The character of a decimal digit (`0 <= n < 10`).
pub open spec fn digit_char(n: int) -> char {
    if n == 0 {
        '0'
    } else if n == 1 {
        '1'
    } else if n == 2 {
        '2'
    } else if n == 3 {
        '3'
    } else if n == 4 {
        '4'
    } else if n == 5 {
        '5'
    } else if n == 6 {
        '6'
    } else if n == 7 {
        '7'
    } else if n == 8 {
        '8'
    } else {
        '9'
    }
}

/// The decimal form of `n`, without leading zeros.
pub open spec fn decimal(n: nat) -> Seq<char>
    decreases n,
{
    if n < 10 {
        seq![digit_char(n as int)]
    } else {
        decimal(n / 10).push(digit_char((n % 10) as int))
    }
}

/// A run of empty squares as a FEN digit, if there is one.
pub open spec fn run_text(empties: int) -> Seq<char> {
    if empties > 0 {
        seq![digit_char(empties)]
    } else {
        Seq::empty()
    }
}

/// FEN text of rank `r` from file `f` on, after `empties` empty squares.
pub open spec fn row_text(b: BoardModel, r: int, f: int, empties: int) -> Seq<char>
    decreases 8 - f,
{
    if f >= 8 {
        run_text(empties)
    } else {
        match b.squares[r * 8 + f] {
            Some(p) => run_text(empties) + seq![letter_of(p)] + row_text(b, r, f + 1, 0),
            None => row_text(b, r, f + 1, empties + 1),
        }
    }
}

/// FEN placement text of ranks `r` down to 1, separated by `/`.
pub open spec fn placement_text(b: BoardModel, r: int) -> Seq<char>
    decreases r,
{
    if r <= 0 {
        row_text(b, 0, 0, 0)
    } else {
        row_text(b, r, 0, 0) + seq!['/'] + placement_text(b, r - 1)
    }
}

pub open spec fn castling_text(b: BoardModel) -> Seq<char> {
    if !b.white_short && !b.white_long && !b.black_short && !b.black_long {
        seq!['-']
    } else {
        (if b.white_short { seq!['K'] } else { Seq::empty() }) + (if b.white_long { seq!['Q'] } else { Seq::empty() })
            + (if b.black_short { seq!['k'] } else { Seq::empty() }) + (if b.black_long { seq!['q'] } else { Seq::empty() })
    }
}

pub open spec fn en_passant_text(b: BoardModel) -> Seq<char> {
    match b.en_passant {
        Some(t) => seq![file_letter(t.file.idx()), rank_digit(t.rank.idx())],
        None => seq!['-'],
    }
}

/// The FEN text of a position; the halfmove clock is written as 0.
pub open spec fn fen_text(b: BoardModel) -> Seq<char> {
    placement_text(b, 7) + seq![' ', if b.next_color == Color::WHITE { 'w' } else { 'b' }, ' ']
        + castling_text(b) + seq![' '] + en_passant_text(b) + seq![' ', '0', ' '] + decimal(
        b.move_counter as nat,
    )
}

/// The UCI letter of a promotion, if it has one.
pub open spec fn promotion_text(k: Option<PieceType>) -> Seq<char> {
    match k {
        Some(PieceType::ROOK) => seq!['r'],
        Some(PieceType::KNIGHT) => seq!['n'],
        Some(PieceType::BISHOP) => seq!['b'],
        Some(PieceType::QUEEN) => seq!['q'],
        _ => Seq::empty(),
    }
}

/// The UCI text of a move.
pub open spec fn move_text(m: ChessMove) -> Seq<char> {
    seq![
        file_letter(m.from_field.file.idx()),
        rank_digit(m.from_field.rank.idx()),
        file_letter(m.to_field.file.idx()),
        rank_digit(m.to_field.rank.idx()),
    ] + promotion_text(m.promote_to)
}

/// The promotion a UCI letter names, in either case.
pub open spec fn promotion_letter(c: char) -> Option<PieceType> {
    if c == 'q' || c == 'Q' {
        Some(PieceType::QUEEN)
    } else if c == 'b' || c == 'B' {
        Some(PieceType::BISHOP)
    } else if c == 'n' || c == 'N' {
        Some(PieceType::KNIGHT)
    } else if c == 'r' || c == 'R' {
        Some(PieceType::ROOK)
    } else {
        None
    }
}

/// The move a UCI text names: two squares, then optionally a promotion
/// letter; letters in either case.
pub open spec fn uci_move(s: Seq<char>) -> Option<ChessMove> {
    if (s.len() == 4 || s.len() == 5) && letter_file(s[0]) >= 0 && digit_rank(s[1]) >= 0
        && letter_file(s[2]) >= 0 && digit_rank(s[3]) >= 0 && (s.len() == 4 || promotion_letter(s[4]) is Some) {
        Some(
            ChessMove {
                from_field: square(digit_rank(s[1]), letter_file(s[0])),
                to_field: square(digit_rank(s[3]), letter_file(s[2])),
                promote_to: if s.len() == 5 {
                    promotion_letter(s[4])
                } else {
                    None
                },
            },
        )
    } else {
        None
    }
}

/// The move with a castling written as the king taking its own rook
/// (`e1h1`, `e1a1`, `e8h8`, `e8a8`) rewritten as the king moving two files.
pub open spec fn sanitized(b: BoardModel, m: ChessMove) -> ChessMove {
    let from = m.from_field;
    let to = m.to_field;
    if b.at(from) is Some && b.at(from)->0.piece_type == PieceType::KING && from.file == File::E
        && (from.rank == Rank::ONE || from.rank == Rank::EIGHT) && to.rank == from.rank {
        if to.file == File::H {
            ChessMove { to_field: Field { rank: from.rank, file: File::G }, ..m }
        } else if to.file == File::A {
            ChessMove { to_field: Field { rank: from.rank, file: File::C }, ..m }
        } else {
            m
        }
    } else {
        m
    }
}

fn digit_of(n: u16) -> (r: char)
    requires
        n < 10,
    ensures
        r == digit_char(n as int),
{
    match n {
        0 => '0',
        1 => '1',
        2 => '2',
        3 => '3',
        4 => '4',
        5 => '5',
        6 => '6',
        7 => '7',
        8 => '8',
        _ => '9',
    }
}

/// Appends the decimal form of `n`.
pub(crate) fn push_decimal(s: &mut String, n: u16)
    ensures
        final(s)@ == old(s)@ + decimal(n as nat),
    decreases n,
{
    if n >= 10 {
        push_decimal(s, n / 10);
    }
    push_char(s, digit_of(n % 10));
    proof {
        if n < 10 {
            assert(decimal(n as nat) =~= seq![digit_char(n as int)]);
        }
    }
    assert(final(s)@ =~= old(s)@ + decimal(n as nat));
}

/// Appends the FEN text of rank `r`.
fn push_row(s: &mut String, board: &Board, r: usize)
    requires
        r < 8,
    ensures
        final(s)@ == old(s)@ + row_text(board@, r as int, 0, 0),
{
    let ghost s0 = old(s)@;
    let rank = Rank::from_index(r);
    let mut empties: usize = 0;
    let mut f: usize = 0;
    while f < 8
        invariant
            0 <= f <= 8,
            r < 8,
            rank.idx() == r,
            empties <= f,
            s@ + row_text(board@, r as int, f as int, empties as int) == s0 + row_text(board@, r as int, 0, 0),
        decreases 8 - f,
    {
        let ghost before = s@;
        match board.get_piece(&Field::new(File::from_index(f), rank)) {
            Some(p) => {
                if empties > 0 {
                    push_char(s, digit_of(empties as u16));
                }
                push_char(s, fen_letter(*p));
                empties = 0;
            },
            None => {
                empties = empties + 1;
            },
        }
        f = f + 1;
    }
    if empties > 0 {
        push_char(s, digit_of(empties as u16));
    }
    assert(s@ =~= s0 + row_text(board@, r as int, 0, 0));
}

/// The FEN letter of a piece.
fn fen_letter(p: Piece) -> (r: char)
    ensures
        r == letter_of(p),
{
    match p.color() {
        Color::WHITE => match p.piece_type() {
            PieceType::ROOK => 'R',
            PieceType::KNIGHT => 'N',
            PieceType::BISHOP => 'B',
            PieceType::QUEEN => 'Q',
            PieceType::KING => 'K',
            PieceType::PAWN => 'P',
        },
        Color::BLACK => match p.piece_type() {
            PieceType::ROOK => 'r',
            PieceType::KNIGHT => 'n',
            PieceType::BISHOP => 'b',
            PieceType::QUEEN => 'q',
            PieceType::KING => 'k',
            PieceType::PAWN => 'p',
        },
    }
}

fn promotion_of(c: char) -> (r: Option<PieceType>)
    ensures
        r == promotion_letter(c),
{
    match c {
        'q' | 'Q' => Some(PieceType::QUEEN),
        'b' | 'B' => Some(PieceType::BISHOP),
        'n' | 'N' => Some(PieceType::KNIGHT),
        'r' | 'R' => Some(PieceType::ROOK),
        _ => None,
    }
}

/// Appends the FEN placement field.
fn push_placement(fen: &mut String, board: &Board)
    ensures
        final(fen)@ == old(fen)@ + placement_text(board@, 7),
{
    let ghost s0 = old(fen)@;
    let mut r: usize = 8;
    while r > 0
        invariant
            0 <= r <= 8,
            fen@ + (if r > 0 { placement_text(board@, r as int - 1) } else { Seq::empty() }) == s0 + placement_text(board@, 7),
        decreases r,
    {
        let ghost before = fen@;
        push_row(fen, board, r - 1);
        if r > 1 {
            push_char(fen, '/');
        }
        r = r - 1;
        assert(fen@ + (if r > 0 { placement_text(board@, r as int - 1) } else { Seq::empty() }) =~= before + placement_text(board@, r as int));
    }
    assert(fen@ =~= s0 + placement_text(board@, 7));
}

/// Appends the FEN castling field.
fn push_castling(fen: &mut String, board: &Board)
    ensures
        final(fen)@ == old(fen)@ + castling_text(board@),
{
    let ghost s0 = old(fen)@;
    let ws = board.white_can_castle_short();
    let wl = board.white_can_castle_long();
    let bs = board.black_can_castle_short();
    let bl = board.black_can_castle_long();
    if !ws && !wl && !bs && !bl {
        push_char(fen, '-');
    } else {
        if ws {
            push_char(fen, 'K');
        }
        if wl {
            push_char(fen, 'Q');
        }
        if bs {
            push_char(fen, 'k');
        }
        if bl {
            push_char(fen, 'q');
        }
    }
    assert(fen@ =~= s0 + castling_text(board@));
}

/// Appends the FEN en-passant field.
fn push_en_passant(fen: &mut String, board: &Board)
    ensures
        final(fen)@ == old(fen)@ + en_passant_text(board@),
{
    let ghost s0 = old(fen)@;
    match board.en_passant_field() {
        Some(t) => {
            push_char(fen, t.file().to_char());
            push_char(fen, t.rank().to_char());
        },
        None => push_char(fen, '-'),
    }
    assert(fen@ =~= s0 + en_passant_text(board@));
}

/// Text forms of positions and moves.
pub struct Converter;

/// The starting position.
fn start_board() -> (r: Board)
    ensures
        r@ == start_position(),
{
    let mut board = Board::new();
        let mut f: usize = 0;
        while f < 8
            invariant
                0 <= f <= 8,
                board@.next_color == Color::WHITE,
                board@.move_counter == 1,
                board@.en_passant is None,
                board@.white_short && board@.white_long && board@.black_short && board@.black_long,
                forall|i: int| 0 <= i < 64 ==> #[trigger] board@.squares[i] == if i % 8 < f {
                    start_position().squares[i]
                } else {
                    None
                },
            decreases 8 - f,
        {
            let kind = back_rank_piece(f);
            let file = File::from_index(f);
            board.set_piece(Some(Piece::new(Color::WHITE, kind)), &Field::new(file, Rank::ONE));
            board.set_piece(Some(Piece::new(Color::WHITE, PieceType::PAWN)), &Field::new(file, Rank::TWO));
            board.set_piece(Some(Piece::new(Color::BLACK, PieceType::PAWN)), &Field::new(file, Rank::SEVEN));
            board.set_piece(Some(Piece::new(Color::BLACK, kind)), &Field::new(file, Rank::EIGHT));
            f = f + 1;
        }
        assert(board@.squares =~= start_position().squares);
        board
}

/// Reads the castling field of a FEN text.
fn read_castling(rights: &Vec<char>) -> (r: Option<(bool, bool, bool, bool)>)
    ensures
        r == castling_rights(rights@),
{
    let mut white_short = false;
    let mut white_long = false;
    let mut black_short = false;
    let mut black_long = false;
    let mut k: usize = 0;
    while k < rights.len()
        invariant
            0 <= k <= rights@.len(),
            castling_rights(rights@.take(k as int)) == Some((white_short, white_long, black_short, black_long)),
        decreases rights@.len() - k,
    {
        proof {
            assert(rights@.take(k as int + 1).drop_last() =~= rights@.take(k as int));
        }
        let c = rights[k];
        if c == 'K' {
            white_short = true;
        } else if c == 'Q' {
            white_long = true;
        } else if c == 'k' {
            black_short = true;
        } else if c == 'q' {
            black_long = true;
        } else if c != '-' {
            proof {
                lemma_rights_prefix_none(rights@, k as int + 1);
            }
            return None;
        }
        k = k + 1;
    }
    assert(rights@.take(rights@.len() as int) =~= rights@);
    Some((white_short, white_long, black_short, black_long))
}

/// Places the pieces of the eight rows of a FEN placement field on the
/// board, the first row on rank 8; false, with the board in any state, if
/// a row does not describe eight squares.
fn place_rows(board: &mut Board, rows: &Vec<Vec<char>>) -> (r: bool)
    requires
        rows@.len() == 8,
    ensures
        r == placement_ok(Seq::new(8, |j: int| rows@[j]@)),
        r ==> final(board)@ == (BoardModel {
            squares: Seq::new(64, |k: int| expand(rows@[7 - k / 8]@)->0[k % 8]),
            ..old(board)@
        }),
{
    let ghost rs = Seq::new(8, |j: int| rows@[j]@);
    let ghost b0 = board@;
    let mut i: usize = 0;
    while i < 8
        invariant
            0 <= i <= 8,
            rows@.len() == 8,
            rs == Seq::new(8, |j: int| rows@[j]@),
            forall|j: int| 0 <= j < i ==> (#[trigger] expand(rs[j])) is Some && expand(rs[j])->0.len() == 8,
            board@ == (BoardModel { squares: board@.squares, ..b0 }),
            forall|k: int| 0 <= k < 64 ==> #[trigger] board@.squares[k] == if 7 - k / 8 < i {
                expand(rs[7 - k / 8])->0[k % 8]
            } else {
                b0.squares[k]
            },
        decreases 8 - i,
    {
        let squares = match expand_row(&rows[i]) {
            Some(v) => v,
            None => {
                return false;
            },
        };
        if squares.len() != 8 {
            return false;
        }
        let rank = Rank::from_index(7 - i);
        let mut f: usize = 0;
        while f < 8
            invariant
                0 <= f <= 8,
                0 <= i < 8,
                rank.idx() == 7 - i,
                rs == Seq::new(8, |j: int| rows@[j]@),
                squares@ == expand(rs[i as int])->0,
                squares@.len() == 8,
                board@ == (BoardModel { squares: board@.squares, ..b0 }),
                forall|k: int| 0 <= k < 64 ==> #[trigger] board@.squares[k] == if 7 - k / 8 < i || (7 - k / 8 == i && k % 8 < f) {
                    expand(rs[7 - k / 8])->0[k % 8]
                } else {
                    b0.squares[k]
                },
            decreases 8 - f,
        {
            board.set_piece(squares[f], &Field::new(File::from_index(f), rank));
            f = f + 1;
        }
        i = i + 1;
    }
    assert(board@.squares =~= Seq::new(64, |k: int| expand(rows@[7 - k / 8]@)->0[k % 8]));
    true
}

/// Reads a FEN text.
fn parse_fen(input: &str) -> (r: Option<Board>)
    ensures
        r is Some <==> fen_ok(input@),
        r is Some ==> r->0@ == fen_board(input@),
{
    let mut board = Board::new();
    let chars = chars_of(input);
    let fields = split_chars(&chars, ' ');
    if fields.len() < 6 {
        return None;
    }
    let ghost fs = split(input@, ' ');
    let rows = split_chars(&fields[0], '/');
    let ghost rs = split(fs[0], '/');
    if rows.len() != 8 {
        return None;
    }
    if !place_rows(&mut board, &rows) {
        return None;
    }
    assert(Seq::new(8, |j: int| rows@[j]@) =~= rs);
    let side = &fields[1];
    let ghost side_ok = side_of(fs[1]);
    if side.len() == 1 && side[0] == 'w' {
        assert(fs[1] =~= seq!['w']);
    } else if side.len() == 1 && side[0] == 'b' {
        assert(fs[1] =~= seq!['b']);
        board.set_next_color(Color::BLACK);
    } else {
        assert(side_of(fs[1]) is None);
        return None;
    }

    let (white_short, white_long, black_short, black_long) = match read_castling(&fields[2]) {
        Some(r) => r,
        None => {
            return None;
        },
    };
    board.set_white_can_castle_short(white_short);
    board.set_white_can_castle_long(white_long);
    board.set_black_can_castle_short(black_short);
    board.set_black_can_castle_long(black_long);

    let ep = &fields[3];
    if ep.len() == 1 && ep[0] == '-' {
        assert(ep@ =~= seq!['-']);
    } else if ep.len() == 2 {
        assert(ep@ != seq!['-']);
        match (File::from_char(ep[0]), Rank::from_char(ep[1])) {
            (Some(file), Some(rank)) => {
                board.set_en_passant_field(Some(Field::new(file, rank)));
            },
            _ => {
                return None;
            },
        }
    } else {
        assert(ep@ != seq!['-']);
        return None;
    }

    match parse_counter(&fields[5]) {
        Some(n) => board.set_move_counter(n),
        None => {
            return None;
        },
    }
    proof {
        assert(board@.squares =~= fen_board(input@).squares);
    }
    Some(board)
}

impl Converter {
    /// Reads a position: `startpos` or a FEN text; `None` for text that is
    /// neither.
    pub fn convert_string_to_board(input: String) -> (r: Option<Board>)
        ensures
            input@ == "startpos"@ ==> r is Some && r->0@ == start_position(),
            input@ != "startpos"@ ==> (r is Some <==> fen_ok(input@)),
            input@ != "startpos"@ && r is Some ==> r->0@ == fen_board(input@),
    {
        if text_is(input.as_str(), "startpos") {
            Some(start_board())
        } else {
            parse_fen(input.as_str())
        }
    }

    /// Writes the FEN text of a position.
    pub fn convert_board_to_string(board: &Board) -> (r: String)
        ensures
            r@ == fen_text(board@),
    {
        let mut fen = String::new();
        push_placement(&mut fen, board);
        push_char(&mut fen, ' ');
        match board.next_color() {
            Color::WHITE => push_char(&mut fen, 'w'),
            Color::BLACK => push_char(&mut fen, 'b'),
        }
        push_char(&mut fen, ' ');
        push_castling(&mut fen, board);
        push_char(&mut fen, ' ');
        push_en_passant(&mut fen, board);
        push_char(&mut fen, ' ');
        push_char(&mut fen, '0');
        push_char(&mut fen, ' ');
        push_decimal(&mut fen, board.move_counter());
        assert(fen@ =~= fen_text(board@));
        fen
    }

    /// Reads UCI move text: two squares and optionally a promotion letter,
    /// letters in either case; `None` for any other text.
    pub fn convert_string_to_move(input: &String) -> (r: Option<ChessMove>)
        ensures
            r == uci_move(input@),
    {
        let chars = chars_of(input.as_str());
        let n = chars.len();
        if n != 4 && n != 5 {
            return None;
        }
        let from_file = File::from_char(chars[0]);
        let from_rank = Rank::from_char(chars[1]);
        let to_file = File::from_char(chars[2]);
        let to_rank = Rank::from_char(chars[3]);
        if from_file.is_none() || from_rank.is_none() || to_file.is_none() || to_rank.is_none() {
            return None;
        }
        let promote_to = if n == 5 {
            match promotion_of(chars[4]) {
                Some(k) => Some(k),
                None => {
                    return None;
                },
            }
        } else {
            None
        };
        Some(
            ChessMove::new(
                Field::new(from_file.unwrap(), from_rank.unwrap()),
                Field::new(to_file.unwrap(), to_rank.unwrap()),
                promote_to,
            ),
        )
    }

    /// Writes the UCI text of a move; a promotion to a pawn or a king has
    /// no letter and is left out.
    pub fn convert_move_to_string(input: &ChessMove) -> (r: String)
        ensures
            r@ == move_text(*input),
    {
        let mut text = String::new();
        push_char(&mut text, input.from_field.file().to_char());
        push_char(&mut text, input.from_field.rank().to_char());
        push_char(&mut text, input.to_field.file().to_char());
        push_char(&mut text, input.to_field.rank().to_char());
        match input.promote_to() {
            Some(PieceType::ROOK) => push_char(&mut text, 'r'),
            Some(PieceType::KNIGHT) => push_char(&mut text, 'n'),
            Some(PieceType::BISHOP) => push_char(&mut text, 'b'),
            Some(PieceType::QUEEN) => push_char(&mut text, 'q'),
            _ => {},
        }
        assert(text@ =~= move_text(*input));
        text
    }

    /// Rewrites a castling given as the king taking its own rook (`e1h1`)
    /// as the king moving two files (`e1g1`); other moves are kept.
    pub fn sanitize_move(board: &Board, chess_move: &ChessMove) -> (r: ChessMove)
        ensures
            r == sanitized(board@, *chess_move),
    {
        let mut sanitized_move = *chess_move;
        let from = chess_move.from_field;
        let to = chess_move.to_field;
        let is_king = match board.get_piece(&from) {
            Some(p) => p.piece_type() == PieceType::KING,
            None => false,
        };
        if is_king && from.file() == File::E && (from.rank() == Rank::ONE || from.rank()
            == Rank::EIGHT) && to.rank() == from.rank() {
            if to.file() == File::H {
                sanitized_move.set_to_field(Field::new(File::G, from.rank()));
            } else if to.file() == File::A {
                sanitized_move.set_to_field(Field::new(File::C, from.rank()));
            }
        }
        sanitized_move
    }
}

} // verus!
