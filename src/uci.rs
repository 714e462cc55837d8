//! The UCI command interpreter: from one input line, split into tokens, to
//! the updated session state and the action to perform.

use vstd::prelude::*;
use vstd::string::*;
use crate::converter::{chars_of, decimal, decimal_value, is_counter, push_decimal};
use crate::options::{Difficulty, Options, text_is};
use crate::providers::texts_of;

verus! {

/// Whether `c` is `l` or, for an ASCII letter, its upper case.
pub open spec fn matches_lower(c: char, l: char) -> bool {
    c == l || ('A' <= c && c <= 'Z' && c as u32 + 32 == l as u32)
}

/// Whether `s`, with ASCII letters in lower case, reads as `lit`.
pub open spec fn is_word(s: Seq<char>, lit: Seq<char>) -> bool {
    s.len() == lit.len() && forall|i: int| 0 <= i < s.len() ==> matches_lower(#[trigger] s[i], lit[i])
}

/// The commands of the protocol.
#[derive(Debug, Copy, Clone, PartialEq, Eq, Structural)]
pub enum Command {
    Uci,
    SetOption,
    IsReady,
    NewGame,
    Position,
    Go,
    Stop,
    Debug,
    Quit,
}

/// The command a token names (in any ASCII case), if any.
pub open spec fn command_of(t: Seq<char>) -> Option<Command> {
    if is_word(t, "uci"@) {
        Some(Command::Uci)
    } else if is_word(t, "setoption"@) {
        Some(Command::SetOption)
    } else if is_word(t, "isready"@) {
        Some(Command::IsReady)
    } else if is_word(t, "ucinewgame"@) {
        Some(Command::NewGame)
    } else if is_word(t, "position"@) {
        Some(Command::Position)
    } else if is_word(t, "go"@) {
        Some(Command::Go)
    } else if is_word(t, "stop"@) {
        Some(Command::Stop)
    } else if is_word(t, "debug"@) {
        Some(Command::Debug)
    } else if is_word(t, "quit"@) {
        Some(Command::Quit)
    } else {
        None
    }
}

/// Whether a token names a command (in any ASCII case).
pub open spec fn is_command(t: Seq<char>) -> bool {
    command_of(t) is Some
}

/// Index of the first token at or after `i` that names a command, or the
/// number of tokens if none does.
pub open spec fn command_start(ts: Seq<Seq<char>>, i: int) -> int
    decreases ts.len() - i,
{
    if i >= ts.len() || i < 0 {
        ts.len() as int
    } else if is_command(ts[i]) {
        i
    } else {
        command_start(ts, i + 1)
    }
}

/// The tokens joined with single spaces.
pub open spec fn join(ts: Seq<Seq<char>>) -> Seq<char>
    decreases ts.len(),
{
    if ts.len() == 0 {
        Seq::empty()
    } else if ts.len() == 1 {
        ts[0]
    } else {
        join(ts.drop_last()) + seq![' '] + ts.last()
    }
}

/// The lines that answer `uci`, with the current search depth as the
/// default depth.
pub open spec fn uci_lines(depth: nat) -> Seq<Seq<char>> {
    seq![
        "id name Flengine"@,
        "id author TeamFlyndre"@,
        "option name Difficulty type combo default Normal var Easy var Normal var Hard"@,
        "option name RecursiveDepth type spin default "@ + decimal(depth) + " min 1 max 10"@,
        "uciok"@,
    ]
}

/// What the program around the interpreter is to do after a command.
pub enum UciAction {
    /// Nothing.
    Nothing,
    /// Print these lines.
    Reply(Vec<String>),
    /// Compute and report the best move for this position (`startpos` or
    /// FEN text) after these moves, with these options.
    Compute { position: String, moves: Vec<String>, options: Options },
    /// Stop the computation in flight.
    Stop,
    /// Switch diagnostic output on or off.
    Debug(bool),
    /// Stop the computation in flight and end the program.
    Quit,
}

/// The state of a UCI session: the options, and the position and moves of
/// the last `position` command.
pub struct RequestHandler {
    pub options: Options,
    pub position: String,
    pub moves: Vec<String>,
}

/// Whether `s`, with ASCII letters in lower case, reads as `lit`.
fn word_is(s: &str, lit: &str) -> (r: bool)
    ensures
        r == is_word(s@, lit@),
{
    let n = s.unicode_len();
    if n != lit.unicode_len() {
        return false;
    }
    let mut i: usize = 0;
    while i < n
        invariant
            0 <= i <= n,
            n == s@.len(),
            n == lit@.len(),
            forall|j: int| 0 <= j < i ==> matches_lower(#[trigger] s@[j], lit@[j]),
        decreases n - i,
    {
        let c = s.get_char(i);
        let l = lit.get_char(i);
        if !(c == l || ('A' <= c && c <= 'Z' && c as u32 + 32 == l as u32)) {
            return false;
        }
        i = i + 1;
    }
    true
}

/// The command a token names, if any.
fn read_command(t: &str) -> (r: Option<Command>)
    ensures
        r == command_of(t@),
{
    if word_is(t, "uci") {
        Some(Command::Uci)
    } else if word_is(t, "setoption") {
        Some(Command::SetOption)
    } else if word_is(t, "isready") {
        Some(Command::IsReady)
    } else if word_is(t, "ucinewgame") {
        Some(Command::NewGame)
    } else if word_is(t, "position") {
        Some(Command::Position)
    } else if word_is(t, "go") {
        Some(Command::Go)
    } else if word_is(t, "stop") {
        Some(Command::Stop)
    } else if word_is(t, "debug") {
        Some(Command::Debug)
    } else if word_is(t, "quit") {
        Some(Command::Quit)
    } else {
        None
    }
}

/// Copies of the tokens from `from` (inclusive) to `to` (exclusive).
fn slice_tokens(tokens: &Vec<String>, from: usize, to: usize) -> (r: Vec<String>)
    requires
        from <= to <= tokens@.len(),
    ensures
        texts_of(r@) == texts_of(tokens@).subrange(from as int, to as int),
{
    let mut out: Vec<String> = Vec::new();
    let mut i: usize = from;
    while i < to
        invariant
            from <= i <= to,
            to <= tokens@.len(),
            out@.len() == i - from,
            forall|j: int| 0 <= j < out@.len() ==> (#[trigger] out@[j])@ == tokens@[from + j]@,
        decreases to - i,
    {
        let t = tokens[i].clone();
        assert(t@ == tokens@[i as int]@);
        out.push(t);
        i = i + 1;
    }
    assert(texts_of(out@) =~= texts_of(tokens@).subrange(from as int, to as int));
    out
}

/// The tokens from `from` to `to` joined with single spaces.
fn join_tokens(tokens: &Vec<String>, from: usize, to: usize) -> (r: String)
    requires
        from <= to <= tokens@.len(),
    ensures
        r@ == join(texts_of(tokens@).subrange(from as int, to as int)),
{
    let mut out = String::new();
    let mut i: usize = from;
    while i < to
        invariant
            from <= i <= to,
            to <= tokens@.len(),
            out@ == join(texts_of(tokens@).subrange(from as int, i as int)),
        decreases to - i,
    {
        let ghost before = out@;
        if i > from {
            crate::converter::push_char(&mut out, ' ');
        }
        out.append(tokens[i].as_str());
        i = i + 1;
        proof {
            let ts = texts_of(tokens@).subrange(from as int, i as int);
            assert(ts.drop_last() =~= texts_of(tokens@).subrange(from as int, i as int - 1));
            if i - 1 == from {
                assert(before =~= Seq::<char>::empty());
            }
        }
        assert(out@ =~= join(texts_of(tokens@).subrange(from as int, i as int)));
    }
    out
}

/// The answer to `uci`.
fn uci_reply(depth: u32) -> (r: Vec<String>)
    requires
        depth <= 10,
    ensures
        texts_of(r@) == uci_lines(depth as nat),
{
    let mut lines: Vec<String> = Vec::new();
    lines.push(String::from_str("id name Flengine"));
    lines.push(String::from_str("id author TeamFlyndre"));
    lines.push(String::from_str("option name Difficulty type combo default Normal var Easy var Normal var Hard"));
    let mut depth_line = String::from_str("option name RecursiveDepth type spin default ");
    push_decimal(&mut depth_line, depth as u16);
    depth_line.append(" min 1 max 10");
    lines.push(depth_line);
    lines.push(String::from_str("uciok"));
    assert(texts_of(lines@) =~= uci_lines(depth as nat));
    lines
}

/// Reads a search depth: a decimal number from 1 to 10.
fn read_depth(s: &str) -> (r: Option<u32>)
    ensures
        r is Some <==> (is_counter(s@) && 1 <= decimal_value(s@) <= 10),
        r matches Some(d) ==> d as int == decimal_value(s@),
{
    match crate::converter::parse_counter(&chars_of(s)) {
        Some(n) => if 1 <= n && n <= 10 {
            Some(n as u32)
        } else {
            None
        },
        None => None,
    }
}

impl RequestHandler {
    /// A session with the default options and the start position.
    pub fn new() -> (r: RequestHandler)
        ensures
            r.options.spec_depth() == 4,
            r.position@ == "startpos"@,
            r.moves@.len() == 0,
    {
        RequestHandler { options: Options::from_default(), position: String::from_str("startpos"), moves: Vec::new() }
    }

    /// Interprets one input line, split into tokens. Tokens before the
    /// first one that names a command (in any ASCII case) are skipped; a
    /// line without one does nothing.
    pub fn handle(&mut self, tokens: &Vec<String>) -> (r: UciAction)
        ensures
            ({
                let ts = texts_of(tokens@);
                let k = command_start(ts, 0);
                let rest = ts.subrange(k, ts.len() as int);
                let cmd = if k < ts.len() { command_of(ts[k]) } else { None };
                &&& k == ts.len() ==> r is Nothing
                &&& cmd == Some(Command::Uci) ==> (r matches UciAction::Reply(lines) && texts_of(lines@) == uci_lines(old(self).options.spec_depth() as nat))
                &&& cmd == Some(Command::IsReady) ==> (r matches UciAction::Reply(lines) && texts_of(lines@) == seq!["readyok"@])
                &&& cmd == Some(Command::Go) ==> (r matches UciAction::Compute { position, moves, options }
                    && position@ == old(self).position@ && texts_of(moves@) == texts_of(old(self).moves@) && options == old(self).options)
                &&& cmd == Some(Command::Quit) ==> r is Quit
                &&& cmd == Some(Command::Stop) ==> r is Stop
                &&& cmd == Some(Command::Debug) && rest.len() > 1 && rest[1] == "on"@ ==> r == UciAction::Debug(true)
                &&& cmd == Some(Command::Debug) && rest.len() > 1 && rest[1] == "off"@ ==> r == UciAction::Debug(false)
                // a setoption command changes only the option it names, when the value is valid
                &&& cmd == Some(Command::SetOption) && rest.len() > 4 && rest[2] == "Difficulty"@ ==> final(self).options.spec_depth() == old(self).options.spec_depth()
                    && (rest[4] == Difficulty::EASY.keyword() ==> final(self).options.spec_difficulty() == Difficulty::EASY)
                    && (rest[4] == Difficulty::NORMAL.keyword() ==> final(self).options.spec_difficulty() == Difficulty::NORMAL)
                    && (rest[4] == Difficulty::HARD.keyword() ==> final(self).options.spec_difficulty() == Difficulty::HARD)
                    && (rest[4] != Difficulty::EASY.keyword() && rest[4] != Difficulty::NORMAL.keyword() && rest[4] != Difficulty::HARD.keyword()
                        ==> final(self).options.spec_difficulty() == old(self).options.spec_difficulty())
                &&& cmd == Some(Command::SetOption) && rest.len() > 4 && rest[2] == "RecursiveDepth"@ ==> final(self).options.spec_difficulty() == old(self).options.spec_difficulty()
                    && final(self).options.spec_depth() == (if is_counter(rest[4]) && 1 <= decimal_value(rest[4]) <= 10 { decimal_value(rest[4]) as u32 } else { old(self).options.spec_depth() })
                // a position command sets the position and the moves that follow it
                &&& cmd == Some(Command::Position) && rest.len() > 1 && rest[1] == "startpos"@ ==> final(self).position@ == "startpos"@
                    && texts_of(final(self).moves@) == (if rest.len() > 3 && rest[2] == "moves"@ { rest.subrange(3, rest.len() as int) } else { Seq::empty() })
                &&& cmd == Some(Command::Position) && rest.len() > 1 && rest[1] == "fen"@ ==> final(self).position@ == join(rest.subrange(2, if rest.len() < 8 { rest.len() as int } else { 8 }))
                    && texts_of(final(self).moves@) == (if rest.len() > 9 && rest[8] == "moves"@ { rest.subrange(9, rest.len() as int) } else { Seq::empty() })
                &&& (cmd == Some(Command::NewGame) || cmd == Some(Command::SetOption) || cmd == Some(Command::Position)) ==> r is Nothing
                &&& cmd == Some(Command::Debug) && !(rest.len() > 1 && (rest[1] == "on"@ || rest[1] == "off"@)) ==> r is Nothing
                // a setoption command with too few tokens or another name changes nothing
                &&& cmd == Some(Command::SetOption) && (rest.len() <= 4 || (rest[2] != "Difficulty"@ && rest[2] != "RecursiveDepth"@)) ==> final(self).options == old(self).options
                // a position command of another kind changes nothing
                &&& cmd == Some(Command::Position) && !(rest.len() > 1 && (rest[1] == "fen"@ || rest[1] == "startpos"@)) ==> final(self).position@ == old(self).position@
                    && texts_of(final(self).moves@) == texts_of(old(self).moves@)
                &&& cmd == Some(Command::SetOption) ==> final(self).position@ == old(self).position@ && texts_of(final(self).moves@) == texts_of(old(self).moves@)
                &&& cmd == Some(Command::Position) ==> final(self).options == old(self).options
                // other commands leave the session as it was
                &&& cmd != Some(Command::SetOption) && cmd != Some(Command::Position) ==> final(self).options == old(self).options
                    && final(self).position@ == old(self).position@ && texts_of(final(self).moves@) == texts_of(old(self).moves@)
            }),
    {
        proof {
            reveal_strlit("on");
            reveal_strlit("off");
            reveal_strlit("Difficulty");
            reveal_strlit("RecursiveDepth");
            reveal_strlit("fen");
            reveal_strlit("startpos");
            reveal_strlit("moves");
        }
        let ghost ts = texts_of(tokens@);
        let mut k: usize = 0;
        while k < tokens.len() && read_command(tokens[k].as_str()).is_none()
            invariant
                0 <= k <= tokens@.len(),
                ts == texts_of(tokens@),
                command_start(ts, 0) == command_start(ts, k as int),
            decreases tokens@.len() - k,
        {
            k = k + 1;
        }
        if k == tokens.len() {
            return UciAction::Nothing;
        }
        let n = tokens.len() - k;
        let ghost rest = ts.subrange(k as int, ts.len() as int);
        assert(ts[k as int] == tokens@[k as int]@);
        let cmd = read_command(tokens[k].as_str());
        if cmd == Some(Command::Uci) {
            UciAction::Reply(uci_reply(self.options.recursion_depth()))
        } else if cmd == Some(Command::IsReady) {
            let mut lines: Vec<String> = Vec::new();
            lines.push(String::from_str("readyok"));
            assert(texts_of(lines@) =~= seq!["readyok"@]);
            UciAction::Reply(lines)
        } else if cmd == Some(Command::Go) {
            UciAction::Compute { position: self.position.clone(), moves: self.moves.clone(), options: self.options }
        } else if cmd == Some(Command::Quit) {
            UciAction::Quit
        } else if cmd == Some(Command::Stop) {
            UciAction::Stop
        } else if cmd == Some(Command::Debug) {
            if n > 1 {
                assert(rest[1] == tokens@[k + 1]@);
                let switch = tokens[k + 1].as_str();
                if text_is(switch, "on") {
                    assert(rest[1] != "off"@);
                    UciAction::Debug(true)
                } else if text_is(switch, "off") {
                    UciAction::Debug(false)
                } else {
                    UciAction::Nothing
                }
            } else {
                UciAction::Nothing
            }
        } else if cmd == Some(Command::SetOption) {
            if n > 4 {
                assert(rest[2] == tokens@[k + 2]@ && rest[4] == tokens@[k + 4]@);
                let name = tokens[k + 2].as_str();
                let value = tokens[k + 4].as_str();
                if text_is(name, "Difficulty") {
                    match Difficulty::from_str(value) {
                        Ok(d) => self.options.set_difficulty(d),
                        Err(_) => {},
                    }
                } else if text_is(name, "RecursiveDepth") {
                    match read_depth(value) {
                        Some(d) => self.options.set_recursion_depth(d),
                        None => {},
                    }
                }
            }
            UciAction::Nothing
        } else if cmd == Some(Command::Position) {
            if n > 1 {
                assert(rest[1] == tokens@[k + 1]@);
                let kind = tokens[k + 1].as_str();
                if text_is(kind, "fen") {
                    let end = if n < 8 {
                        tokens.len()
                    } else {
                        k + 8
                    };
                    self.position = join_tokens(tokens, k + 2, end);
                    assert(texts_of(tokens@).subrange(k + 2, end as int) =~= rest.subrange(2, if rest.len() < 8 { rest.len() as int } else { 8 }));
                    if n > 9 && text_is(tokens[k + 8].as_str(), "moves") {
                        self.moves = slice_tokens(tokens, k + 9, tokens.len());
                        assert(texts_of(tokens@).subrange(k + 9, tokens@.len() as int) =~= rest.subrange(9, rest.len() as int));
                    } else {
                        self.moves = Vec::new();
                        assert(texts_of(self.moves@) =~= Seq::empty());
                    }
                } else if text_is(kind, "startpos") {
                    self.position = String::from_str("startpos");
                    if n > 3 && text_is(tokens[k + 2].as_str(), "moves") {
                        self.moves = slice_tokens(tokens, k + 3, tokens.len());
                        assert(texts_of(tokens@).subrange(k + 3, tokens@.len() as int) =~= rest.subrange(3, rest.len() as int));
                    } else {
                        self.moves = Vec::new();
                        assert(texts_of(self.moves@) =~= Seq::empty());
                    }
                }
            }
            UciAction::Nothing
        } else {
            // ucinewgame needs no preparation
            UciAction::Nothing
        }
    }
}

} // verus!
