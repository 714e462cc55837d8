//! Engine options (difficulty and search depth), logging settings, and
//! comparison of text with a literal.

use vstd::prelude::*;
use vstd::string::*;

verus! {

/// Whether `s` reads exactly as `lit`.
pub fn text_is(s: &str, lit: &str) -> (r: bool)
    ensures
        r == (s@ == lit@),
{
    let n = s.unicode_len();
    if n != lit.unicode_len() {
        return false;
    }
    let mut i: usize = 0;
    while i < n
        invariant
            0 <= i <= n,
            n == s@.len(),
            n == lit@.len(),
            forall|j: int| 0 <= j < i ==> s@[j] == lit@[j],
        decreases n - i,
    {
        if s.get_char(i) != lit.get_char(i) {
            return false;
        }
        i = i + 1;
    }
    assert(s@ =~= lit@);
    true
}

/// How strongly move selection favours the best-ranked move.
#[derive(Debug, Copy, Clone, PartialEq, Eq, Structural)]
pub enum Difficulty {
    EASY,
    NORMAL,
    HARD,
}

/// A text that names no difficulty.
#[derive(Debug, Copy, Clone, PartialEq, Eq, Structural)]
pub struct ConversionError;

impl Difficulty {
    pub open spec fn exponent(self) -> int {
        match self {
            Difficulty::EASY => 1,
            Difficulty::NORMAL => 8,
            Difficulty::HARD => 100,
        }
    }

    /// The name shown to a user.
    pub open spec fn name(self) -> Seq<char> {
        match self {
            Difficulty::EASY => seq!['E', 'a', 's', 'y'],
            Difficulty::NORMAL => seq!['N', 'o', 'r', 'm', 'a', 'l'],
            Difficulty::HARD => seq!['H', 'a', 'r', 'd'],
        }
    }

    /// The name accepted in an option command.
    pub open spec fn keyword(self) -> Seq<char> {
        match self {
            Difficulty::EASY => seq!['E', 'A', 'S', 'Y'],
            Difficulty::NORMAL => seq!['N', 'O', 'R', 'M', 'A', 'L'],
            Difficulty::HARD => seq!['H', 'A', 'R', 'D'],
        }
    }

    /// The exponent used when sampling a move: 1, 8 or 100.
    pub fn value(&self) -> (r: i32)
        ensures
            r as int == self.exponent(),
    {
        match *self {
            Difficulty::EASY => 1,
            Difficulty::NORMAL => 8,
            Difficulty::HARD => 100,
        }
    }

    pub fn readable_string(&self) -> (r: String)
        ensures
            r@ == self.name(),
    {
        match *self {
            Difficulty::EASY => {
                proof {
                    reveal_strlit("Easy");
                }
                String::from_str("Easy")
            },
            Difficulty::NORMAL => {
                proof {
                    reveal_strlit("Normal");
                }
                String::from_str("Normal")
            },
            Difficulty::HARD => {
                proof {
                    reveal_strlit("Hard");
                }
                String::from_str("Hard")
            },
        }
    }

    /// Reads `EASY`, `NORMAL` or `HARD`.
    pub fn from_str(string: &str) -> (r: Result<Difficulty, ConversionError>)
        ensures
            r is Ok <==> (string@ == Difficulty::EASY.keyword() || string@ == Difficulty::NORMAL.keyword()
                || string@ == Difficulty::HARD.keyword()),
            r matches Ok(d) ==> string@ == d.keyword(),
    {
        proof {
            reveal_strlit("EASY");
            reveal_strlit("NORMAL");
            reveal_strlit("HARD");
            assert("EASY"@ =~= Difficulty::EASY.keyword());
            assert("NORMAL"@ =~= Difficulty::NORMAL.keyword());
            assert("HARD"@ =~= Difficulty::HARD.keyword());
        }
        if text_is(string, "EASY") {
            Ok(Difficulty::EASY)
        } else if text_is(string, "NORMAL") {
            Ok(Difficulty::NORMAL)
        } else if text_is(string, "HARD") {
            Ok(Difficulty::HARD)
        } else {
            Err(ConversionError)
        }
    }

    /// All difficulties, from easiest to hardest.
    pub fn all() -> (r: Vec<Difficulty>)
        ensures
            r@ == seq![Difficulty::EASY, Difficulty::NORMAL, Difficulty::HARD],
    {
        let mut v: Vec<Difficulty> = Vec::new();
        v.push(Difficulty::EASY);
        v.push(Difficulty::NORMAL);
        v.push(Difficulty::HARD);
        assert(v@ =~= seq![Difficulty::EASY, Difficulty::NORMAL, Difficulty::HARD]);
        v
    }
}

/// The smallest and largest search depth, in plies.
pub const MIN_DEPTH: u32 = 1;

pub const MAX_DEPTH: u32 = 10;

/// Settings of a computation: difficulty and search depth (1 to 10 plies).
#[derive(Debug, Copy, Clone)]
pub struct Options {
    difficulty: Difficulty,
    recursion_depth: u32,
}

impl Options {
    #[verifier::type_invariant]
    spec fn depth_in_range(self) -> bool {
        MIN_DEPTH <= self.recursion_depth <= MAX_DEPTH
    }

    pub closed spec fn spec_difficulty(self) -> Difficulty {
        self.difficulty
    }

    pub closed spec fn spec_depth(self) -> u32 {
        self.recursion_depth
    }

    pub fn difficulty(&self) -> (r: &Difficulty)
        ensures
            *r == self.spec_difficulty(),
    {
        &self.difficulty
    }

    pub fn recursion_depth(&self) -> (r: u32)
        ensures
            r == self.spec_depth(),
            MIN_DEPTH <= r <= MAX_DEPTH,
    {
        proof {
            use_type_invariant(self);
        }
        self.recursion_depth
    }

    pub fn set_difficulty(&mut self, difficulty: Difficulty)
        ensures
            final(self).spec_difficulty() == difficulty,
            final(self).spec_depth() == old(self).spec_depth(),
    {
        proof {
            use_type_invariant(&*self);
        }
        self.difficulty = difficulty;
    }

    pub fn set_recursion_depth(&mut self, recursion_depth: u32)
        requires
            MIN_DEPTH <= recursion_depth <= MAX_DEPTH,
        ensures
            final(self).spec_depth() == recursion_depth,
            final(self).spec_difficulty() == old(self).spec_difficulty(),
    {
        self.recursion_depth = recursion_depth;
    }

    pub fn new(difficulty: Difficulty, recursion_depth: u32) -> (r: Self)
        requires
            MIN_DEPTH <= recursion_depth <= MAX_DEPTH,
        ensures
            r.spec_difficulty() == difficulty,
            r.spec_depth() == recursion_depth,
    {
        Self { difficulty, recursion_depth }
    }

    /// Normal difficulty, depth 4.
    pub fn from_default() -> (r: Self)
        ensures
            r.spec_difficulty() == Difficulty::NORMAL,
            r.spec_depth() == 4,
    {
        Self { difficulty: Difficulty::NORMAL, recursion_depth: 4 }
    }
}

#[verifier::external_type_specification]
#[verifier::external_body]
pub struct ExLevelFilter(log::LevelFilter);

/// Where log output goes, and how log files are named.
pub struct LoggingConfig {
    uci_enabled: bool,
    console_enabled: bool,
    file_enabled: bool,
    file_timestamp_format: String,
    file_prefix: String,
    log_level: log::LevelFilter,
}

impl LoggingConfig {
    pub closed spec fn spec_uci(&self) -> bool {
        self.uci_enabled
    }

    pub closed spec fn spec_console(&self) -> bool {
        self.console_enabled
    }

    pub closed spec fn spec_file(&self) -> bool {
        self.file_enabled
    }

    pub closed spec fn spec_timestamp_format(&self) -> Seq<char> {
        self.file_timestamp_format@
    }

    pub closed spec fn spec_prefix(&self) -> Seq<char> {
        self.file_prefix@
    }

    pub closed spec fn spec_level(&self) -> log::LevelFilter {
        self.log_level
    }

    pub fn new(
        uci_enabled: bool,
        console_enabled: bool,
        file_enabled: bool,
        file_timestamp_format: String,
        file_prefix: String,
        log_level: log::LevelFilter,
    ) -> (r: Self)
        ensures
            r.spec_uci() == uci_enabled,
            r.spec_console() == console_enabled,
            r.spec_file() == file_enabled,
            r.spec_timestamp_format() == file_timestamp_format@,
            r.spec_prefix() == file_prefix@,
            r.spec_level() == log_level,
    {
        LoggingConfig {
            uci_enabled,
            console_enabled,
            file_enabled,
            file_timestamp_format,
            file_prefix,
            log_level,
        }
    }

    pub fn uci_enabled(&self) -> (r: bool)
        ensures
            r == self.spec_uci(),
    {
        self.uci_enabled
    }

    pub fn console_enabled(&self) -> (r: bool)
        ensures
            r == self.spec_console(),
    {
        self.console_enabled
    }

    pub fn file_enabled(&self) -> (r: bool)
        ensures
            r == self.spec_file(),
    {
        self.file_enabled
    }

    pub fn file_timestamp_format(&self) -> (r: &str)
        ensures
            r@ == self.spec_timestamp_format(),
    {
        self.file_timestamp_format.as_str()
    }

    pub fn file_prefix(&self) -> (r: &str)
        ensures
            r@ == self.spec_prefix(),
    {
        self.file_prefix.as_str()
    }

    pub fn log_level(&self) -> (r: log::LevelFilter)
        ensures
            r == self.spec_level(),
    {
        self.log_level
    }

    pub fn set_uci_enabled(&mut self, uci_enabled: bool)
        ensures
            final(self).spec_uci() == uci_enabled,
            final(self).spec_console() == old(self).spec_console(),
            final(self).spec_file() == old(self).spec_file(),
            final(self).spec_timestamp_format() == old(self).spec_timestamp_format(),
            final(self).spec_prefix() == old(self).spec_prefix(),
            final(self).spec_level() == old(self).spec_level(),
    {
        self.uci_enabled = uci_enabled;
    }

    pub fn set_console_enabled(&mut self, console_enabled: bool)
        ensures
            final(self).spec_console() == console_enabled,
            final(self).spec_uci() == old(self).spec_uci(),
            final(self).spec_file() == old(self).spec_file(),
            final(self).spec_timestamp_format() == old(self).spec_timestamp_format(),
            final(self).spec_prefix() == old(self).spec_prefix(),
            final(self).spec_level() == old(self).spec_level(),
    {
        self.console_enabled = console_enabled;
    }

    pub fn set_file_enabled(&mut self, file_enabled: bool)
        ensures
            final(self).spec_file() == file_enabled,
            final(self).spec_uci() == old(self).spec_uci(),
            final(self).spec_console() == old(self).spec_console(),
            final(self).spec_timestamp_format() == old(self).spec_timestamp_format(),
            final(self).spec_prefix() == old(self).spec_prefix(),
            final(self).spec_level() == old(self).spec_level(),
    {
        self.file_enabled = file_enabled;
    }

    pub fn set_file_timestamp_format(&mut self, file_timestamp_format: String)
        ensures
            final(self).spec_timestamp_format() == file_timestamp_format@,
            final(self).spec_uci() == old(self).spec_uci(),
            final(self).spec_console() == old(self).spec_console(),
            final(self).spec_file() == old(self).spec_file(),
            final(self).spec_prefix() == old(self).spec_prefix(),
            final(self).spec_level() == old(self).spec_level(),
    {
        self.file_timestamp_format = file_timestamp_format;
    }

    pub fn set_file_prefix(&mut self, file_prefix: String)
        ensures
            final(self).spec_prefix() == file_prefix@,
            final(self).spec_uci() == old(self).spec_uci(),
            final(self).spec_console() == old(self).spec_console(),
            final(self).spec_file() == old(self).spec_file(),
            final(self).spec_timestamp_format() == old(self).spec_timestamp_format(),
            final(self).spec_level() == old(self).spec_level(),
    {
        self.file_prefix = file_prefix;
    }
}

} // verus!
