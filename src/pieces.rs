//! Colors, piece kinds, files, ranks, squares and moves.

use vstd::prelude::*;
use vstd::string::*;

verus! {

/// The two sides.
#[derive(Debug, Copy, Clone, PartialEq, Eq, Structural)]
pub enum Color {
    BLACK,
    WHITE,
}

impl Color {
    /// The other side.
    pub open spec fn other(self) -> Color {
        match self {
            Color::BLACK => Color::WHITE,
            Color::WHITE => Color::BLACK,
        }
    }

    /// Returns the other side.
    pub fn opponent(&self) -> (r: Color)
        ensures
            r == self.other(),
    {
        match self {
            Color::BLACK => Color::WHITE,
            Color::WHITE => Color::BLACK,
        }
    }
}

impl vstd::std_specs::ops::NotSpecImpl for Color {
    open spec fn obeys_not_spec() -> bool {
        true
    }

    open spec fn not_req(self) -> bool {
        true
    }

    open spec fn not_spec(self) -> Color {
        self.other()
    }
}

impl core::ops::Not for Color {
    type Output = Color;

    fn not(self) -> (r: Color)
        ensures
            r == self.other(),
    {
        match self {
            Color::BLACK => Color::WHITE,
            Color::WHITE => Color::BLACK,
        }
    }
}

/// The kinds of chess pieces.
#[derive(Debug, Copy, Clone, PartialEq, Eq, Structural)]
pub enum PieceType {
    PAWN,
    ROOK,
    BISHOP,
    KNIGHT,
    QUEEN,
    KING,
}

impl PieceType {
    /// Material value of a piece kind.
    pub open spec fn material(self) -> int {
        match self {
            PieceType::PAWN => 1,
            PieceType::ROOK => 5,
            PieceType::BISHOP => 3,
            PieceType::KNIGHT => 3,
            PieceType::QUEEN => 9,
            PieceType::KING => 100,
        }
    }

    /// Returns the material value of this piece kind.
    pub fn value(&self) -> (r: u8)
        ensures
            r as int == self.material(),
    {
        match self {
            PieceType::PAWN => 1,
            PieceType::ROOK => 5,
            PieceType::BISHOP => 3,
            PieceType::KNIGHT => 3,
            PieceType::QUEEN => 9,
            PieceType::KING => 100,
        }
    }
}

/// A piece: its color and its kind.
#[derive(Debug, Copy, Clone, PartialEq, Eq, Structural)]
pub struct Piece {
    pub color: Color,
    pub piece_type: PieceType,
}

impl Piece {
    pub fn new(color: Color, piece_type: PieceType) -> (r: Piece)
        ensures
            r.color == color,
            r.piece_type == piece_type,
    {
        Piece { color, piece_type }
    }

    pub fn color(&self) -> (r: Color)
        ensures
            r == self.color,
    {
        self.color
    }

    pub fn piece_type(&self) -> (r: PieceType)
        ensures
            r == self.piece_type,
    {
        self.piece_type
    }

    pub fn set_color(&mut self, color: Color)
        ensures
            *final(self) == (Piece { color, ..*old(self) }),
    {
        self.color = color;
    }

    pub fn set_piece_type(&mut self, piece_type: PieceType)
        ensures
            *final(self) == (Piece { piece_type, ..*old(self) }),
    {
        self.piece_type = piece_type;
    }
}

/// The lower-case letter of the file with the given zero-based index.
pub open spec fn file_letter(i: int) -> char {
    if i == 0 {
        'a'
    } else if i == 1 {
        'b'
    } else if i == 2 {
        'c'
    } else if i == 3 {
        'd'
    } else if i == 4 {
        'e'
    } else if i == 5 {
        'f'
    } else if i == 6 {
        'g'
    } else {
        'h'
    }
}

/// The upper-case letter of the file with the given zero-based index.
pub open spec fn file_upper_letter(i: int) -> char {
    if i == 0 {
        'A'
    } else if i == 1 {
        'B'
    } else if i == 2 {
        'C'
    } else if i == 3 {
        'D'
    } else if i == 4 {
        'E'
    } else if i == 5 {
        'F'
    } else if i == 6 {
        'G'
    } else {
        'H'
    }
}

/// The digit of the rank with the given zero-based index.
pub open spec fn rank_digit(i: int) -> char {
    if i == 0 {
        '1'
    } else if i == 1 {
        '2'
    } else if i == 2 {
        '3'
    } else if i == 3 {
        '4'
    } else if i == 4 {
        '5'
    } else if i == 5 {
        '6'
    } else if i == 6 {
        '7'
    } else {
        '8'
    }
}

/// The index of a file letter (either case), or -1 for any other character.
pub open spec fn letter_file(c: char) -> int {
    if c == 'a' || c == 'A' {
        0
    } else if c == 'b' || c == 'B' {
        1
    } else if c == 'c' || c == 'C' {
        2
    } else if c == 'd' || c == 'D' {
        3
    } else if c == 'e' || c == 'E' {
        4
    } else if c == 'f' || c == 'F' {
        5
    } else if c == 'g' || c == 'G' {
        6
    } else if c == 'h' || c == 'H' {
        7
    } else {
        -1
    }
}

/// The index of a rank digit, or -1 for any other character.
pub open spec fn digit_rank(c: char) -> int {
    if '1' <= c && c <= '8' {
        c as int - '1' as int
    } else {
        -1
    }
}

/// The columns of the board, `a` to `h`.
#[derive(Debug, Copy, Clone, PartialEq, Eq, Structural)]
pub enum File {
    A,
    B,
    C,
    D,
    E,
    F,
    G,
    H,
}

impl File {
    /// Zero-based index of the file.
    pub open spec fn idx(self) -> int {
        match self {
            File::A => 0,
            File::B => 1,
            File::C => 2,
            File::D => 3,
            File::E => 4,
            File::F => 5,
            File::G => 6,
            File::H => 7,
        }
    }

    /// The file with the given zero-based index (`0 <= i < 8`).
    pub open spec fn at(i: int) -> File {
        if i == 0 {
            File::A
        } else if i == 1 {
            File::B
        } else if i == 2 {
            File::C
        } else if i == 3 {
            File::D
        } else if i == 4 {
            File::E
        } else if i == 5 {
            File::F
        } else if i == 6 {
            File::G
        } else {
            File::H
        }
    }

    pub fn to_index(&self) -> (r: usize)
        ensures
            r as int == self.idx(),
            r < 8,
    {
        match self {
            File::A => 0,
            File::B => 1,
            File::C => 2,
            File::D => 3,
            File::E => 4,
            File::F => 5,
            File::G => 6,
            File::H => 7,
        }
    }

    pub fn from_index(i: usize) -> (r: File)
        requires
            i < 8,
        ensures
            r.idx() == i as int,
            r == File::at(i as int),
    {
        match i {
            0 => File::A,
            1 => File::B,
            2 => File::C,
            3 => File::D,
            4 => File::E,
            5 => File::F,
            6 => File::G,
            _ => File::H,
        }
    }

    /// The file named by a one-letter string, upper or lower case.
    pub fn from_string(s: &str) -> (r: Option<File>)
        ensures
            r is Some <==> (s@.len() == 1 && letter_file(s@[0]) >= 0),
            r is Some ==> r->0.idx() == letter_file(s@[0]),
    {
        if s.unicode_len() != 1 {
            return None;
        }
        File::from_char(s.get_char(0))
    }

    /// The file named by a letter, upper or lower case.
    pub fn from_char(c: char) -> (r: Option<File>)
        ensures
            r is Some <==> letter_file(c) >= 0,
            r is Some ==> r->0.idx() == letter_file(c),
    {
        match c {
            'a' | 'A' => Some(File::A),
            'b' | 'B' => Some(File::B),
            'c' | 'C' => Some(File::C),
            'd' | 'D' => Some(File::D),
            'e' | 'E' => Some(File::E),
            'f' | 'F' => Some(File::F),
            'g' | 'G' => Some(File::G),
            'h' | 'H' => Some(File::H),
            _ => None,
        }
    }

    /// The upper-case name of the file.
    pub fn to_str(&self) -> (r: &'static str)
        ensures
            r@ == seq![file_upper_letter(self.idx())],
    {
        match self {
            File::A => {
                proof {
                    reveal_strlit("A");
                }
                "A"
            },
            File::B => {
                proof {
                    reveal_strlit("B");
                }
                "B"
            },
            File::C => {
                proof {
                    reveal_strlit("C");
                }
                "C"
            },
            File::D => {
                proof {
                    reveal_strlit("D");
                }
                "D"
            },
            File::E => {
                proof {
                    reveal_strlit("E");
                }
                "E"
            },
            File::F => {
                proof {
                    reveal_strlit("F");
                }
                "F"
            },
            File::G => {
                proof {
                    reveal_strlit("G");
                }
                "G"
            },
            File::H => {
                proof {
                    reveal_strlit("H");
                }
                "H"
            },
        }
    }

    /// The lower-case letter of the file, as used in FEN and UCI text.
    pub fn to_char(&self) -> (r: char)
        ensures
            r == file_letter(self.idx()),
    {
        match self {
            File::A => 'a',
            File::B => 'b',
            File::C => 'c',
            File::D => 'd',
            File::E => 'e',
            File::F => 'f',
            File::G => 'g',
            File::H => 'h',
        }
    }
}

/// The rows of the board, `1` to `8`.
#[derive(Debug, Copy, Clone, PartialEq, Eq, Structural)]
pub enum Rank {
    ONE,
    TWO,
    THREE,
    FOUR,
    FIVE,
    SIX,
    SEVEN,
    EIGHT,
}

impl Rank {
    /// Zero-based index of the rank.
    pub open spec fn idx(self) -> int {
        match self {
            Rank::ONE => 0,
            Rank::TWO => 1,
            Rank::THREE => 2,
            Rank::FOUR => 3,
            Rank::FIVE => 4,
            Rank::SIX => 5,
            Rank::SEVEN => 6,
            Rank::EIGHT => 7,
        }
    }

    /// The rank with the given zero-based index (`0 <= i < 8`).
    pub open spec fn at(i: int) -> Rank {
        if i == 0 {
            Rank::ONE
        } else if i == 1 {
            Rank::TWO
        } else if i == 2 {
            Rank::THREE
        } else if i == 3 {
            Rank::FOUR
        } else if i == 4 {
            Rank::FIVE
        } else if i == 5 {
            Rank::SIX
        } else if i == 6 {
            Rank::SEVEN
        } else {
            Rank::EIGHT
        }
    }

    pub fn to_index(&self) -> (r: usize)
        ensures
            r as int == self.idx(),
            r < 8,
    {
        match self {
            Rank::ONE => 0,
            Rank::TWO => 1,
            Rank::THREE => 2,
            Rank::FOUR => 3,
            Rank::FIVE => 4,
            Rank::SIX => 5,
            Rank::SEVEN => 6,
            Rank::EIGHT => 7,
        }
    }

    pub fn from_index(i: usize) -> (r: Rank)
        requires
            i < 8,
        ensures
            r.idx() == i as int,
            r == Rank::at(i as int),
    {
        match i {
            0 => Rank::ONE,
            1 => Rank::TWO,
            2 => Rank::THREE,
            3 => Rank::FOUR,
            4 => Rank::FIVE,
            5 => Rank::SIX,
            6 => Rank::SEVEN,
            _ => Rank::EIGHT,
        }
    }

    /// The rank named by a one-digit string.
    pub fn from_string(s: &str) -> (r: Option<Rank>)
        ensures
            r is Some <==> (s@.len() == 1 && digit_rank(s@[0]) >= 0),
            r is Some ==> r->0.idx() == digit_rank(s@[0]),
    {
        if s.unicode_len() != 1 {
            return None;
        }
        Rank::from_char(s.get_char(0))
    }

    /// The rank named by a digit.
    pub fn from_char(c: char) -> (r: Option<Rank>)
        ensures
            r is Some <==> digit_rank(c) >= 0,
            r is Some ==> r->0.idx() == digit_rank(c),
    {
        match c {
            '1' => Some(Rank::ONE),
            '2' => Some(Rank::TWO),
            '3' => Some(Rank::THREE),
            '4' => Some(Rank::FOUR),
            '5' => Some(Rank::FIVE),
            '6' => Some(Rank::SIX),
            '7' => Some(Rank::SEVEN),
            '8' => Some(Rank::EIGHT),
            _ => None,
        }
    }

    /// The digit of the rank as text.
    pub fn to_str(&self) -> (r: &'static str)
        ensures
            r@ == seq![rank_digit(self.idx())],
    {
        match self {
            Rank::ONE => {
                proof {
                    reveal_strlit("1");
                }
                "1"
            },
            Rank::TWO => {
                proof {
                    reveal_strlit("2");
                }
                "2"
            },
            Rank::THREE => {
                proof {
                    reveal_strlit("3");
                }
                "3"
            },
            Rank::FOUR => {
                proof {
                    reveal_strlit("4");
                }
                "4"
            },
            Rank::FIVE => {
                proof {
                    reveal_strlit("5");
                }
                "5"
            },
            Rank::SIX => {
                proof {
                    reveal_strlit("6");
                }
                "6"
            },
            Rank::SEVEN => {
                proof {
                    reveal_strlit("7");
                }
                "7"
            },
            Rank::EIGHT => {
                proof {
                    reveal_strlit("8");
                }
                "8"
            },
        }
    }

    /// The digit of the rank.
    pub fn to_char(&self) -> (r: char)
        ensures
            r == rank_digit(self.idx()),
    {
        match self {
            Rank::ONE => '1',
            Rank::TWO => '2',
            Rank::THREE => '3',
            Rank::FOUR => '4',
            Rank::FIVE => '5',
            Rank::SIX => '6',
            Rank::SEVEN => '7',
            Rank::EIGHT => '8',
        }
    }
}

/// A square of the board.
#[derive(Debug, Copy, Clone, PartialEq, Eq, Structural)]
pub struct Field {
    pub rank: Rank,
    pub file: File,
}

/// The square with the given zero-based rank and file indices.
pub open spec fn square(r: int, f: int) -> Field {
    Field { rank: Rank::at(r), file: File::at(f) }
}

impl Field {
    /// Index of the square in a rank-major layout (`a1` is 0, `h8` is 63).
    pub open spec fn sq(self) -> int {
        self.rank.idx() * 8 + self.file.idx()
    }

    pub fn new(row: File, rank: Rank) -> (r: Field)
        ensures
            r.file == row,
            r.rank == rank,
    {
        Field { rank, file: row }
    }

    pub fn rank(&self) -> (r: Rank)
        ensures
            r == self.rank,
    {
        self.rank
    }

    pub fn file(&self) -> (r: File)
        ensures
            r == self.file,
    {
        self.file
    }

    pub fn set_rank(&mut self, rank: Rank)
        ensures
            *final(self) == (Field { rank, ..*old(self) }),
    {
        self.rank = rank;
    }

    pub fn set_file(&mut self, file: File)
        ensures
            *final(self) == (Field { file, ..*old(self) }),
    {
        self.file = file;
    }
}

/// A move from one square to another, with the kind a pawn promotes to.
#[derive(Debug, Copy, Clone, PartialEq, Eq, Structural)]
pub struct ChessMove {
    pub from_field: Field,
    pub to_field: Field,
    pub promote_to: Option<PieceType>,
}

impl ChessMove {
    pub fn new(from_field: Field, to_field: Field, promote_to: Option<PieceType>) -> (r: Self)
        ensures
            r == (ChessMove { from_field, to_field, promote_to }),
    {
        ChessMove { from_field, to_field, promote_to }
    }

    pub fn from_field(&self) -> (r: &Field)
        ensures
            *r == self.from_field,
    {
        &self.from_field
    }

    pub fn to_field(&self) -> (r: &Field)
        ensures
            *r == self.to_field,
    {
        &self.to_field
    }

    pub fn promote_to(&self) -> (r: &Option<PieceType>)
        ensures
            *r == self.promote_to,
    {
        &self.promote_to
    }

    pub fn set_from_field(&mut self, from_field: Field)
        ensures
            *final(self) == (ChessMove { from_field, ..*old(self) }),
    {
        self.from_field = from_field;
    }

    pub fn set_to_field(&mut self, to_field: Field)
        ensures
            *final(self) == (ChessMove { to_field, ..*old(self) }),
    {
        self.to_field = to_field;
    }

    pub fn set_promote_to(&mut self, promote_to: Option<PieceType>)
        ensures
            *final(self) == (ChessMove { promote_to, ..*old(self) }),
    {
        self.promote_to = promote_to;
    }
}

} // verus!
