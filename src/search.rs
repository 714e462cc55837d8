//! Evaluations, the static rating of a move, and the bounded negamax search.

use vstd::prelude::*;
use core::cmp::Ordering;
use crate::board::{Board, BoardModel, lemma_board_squares};
use crate::options::Options;
use crate::pieces::{ChessMove, Color};
use crate::rules::{PieceRule, RulesProvider, checkmated, in_check, legal_moves};

verus! {

broadcast use lemma_board_squares;

/// The value of a move for the side that made it.
#[derive(Debug, Copy, Clone, PartialEq, Eq, Structural)]
pub enum Evaluation {
    /// A score in material units; positive is good for the mover.
    Rating(i32),
    /// The opponent mates in the given number of plies.
    OpponentHasCheckmateIn(i32),
    /// The mover mates in the given number of plies.
    PlayerHasCheckmateIn(i32),
    /// An assumed forced draw.
    Draw,
}

/// Band of an evaluation in the order: lost, undecided, won.
pub open spec fn band(e: Evaluation) -> int {
    match e {
        Evaluation::OpponentHasCheckmateIn(_) => 0,
        Evaluation::Rating(_) => 1,
        Evaluation::Draw => 1,
        Evaluation::PlayerHasCheckmateIn(_) => 2,
    }
}

/// Position of an evaluation within its band: a later loss, a higher rating
/// (a draw counts as zero) and a sooner win rank higher.
pub open spec fn within(e: Evaluation) -> int {
    match e {
        Evaluation::OpponentHasCheckmateIn(n) => n as int,
        Evaluation::Rating(r) => r as int,
        Evaluation::Draw => 0,
        Evaluation::PlayerHasCheckmateIn(n) => -(n as int),
    }
}

pub open spec fn order_of(a: int, b: int) -> Ordering {
    if a < b {
        Ordering::Less
    } else if a > b {
        Ordering::Greater
    } else {
        Ordering::Equal
    }
}

/// How evaluation `a` compares to `b`.
pub open spec fn compare(a: Evaluation, b: Evaluation) -> Ordering {
    if band(a) != band(b) {
        order_of(band(a), band(b))
    } else {
        order_of(within(a), within(b))
    }
}

/// Whether the magnitudes in an evaluation fit a search of `k` plies.
pub open spec fn bounded(e: Evaluation, k: int) -> bool {
    match e {
        Evaluation::Rating(r) => -102 * k <= r <= 102 * k,
        Evaluation::OpponentHasCheckmateIn(n) => 1 <= n <= k,
        Evaluation::PlayerHasCheckmateIn(n) => 1 <= n <= k,
        Evaluation::Draw => true,
    }
}

/// The evaluation of the same outcome from the other side.
pub open spec fn negated(e: Evaluation) -> Evaluation {
    match e {
        Evaluation::Rating(r) => Evaluation::Rating((-r) as i32),
        Evaluation::OpponentHasCheckmateIn(n) => Evaluation::PlayerHasCheckmateIn(n),
        Evaluation::PlayerHasCheckmateIn(n) => Evaluation::OpponentHasCheckmateIn(n),
        Evaluation::Draw => Evaluation::Draw,
    }
}

/// A move's own evaluation `e` updated with the opponent's best reply `o`.
pub open spec fn combined(e: Evaluation, o: Evaluation) -> Evaluation {
    match e {
        Evaluation::Rating(r) => match o {
            Evaluation::Rating(r2) => Evaluation::Rating((r - r2) as i32),
            Evaluation::OpponentHasCheckmateIn(n) => Evaluation::PlayerHasCheckmateIn((n + 1) as i32),
            Evaluation::PlayerHasCheckmateIn(n) => Evaluation::OpponentHasCheckmateIn(n),
            Evaluation::Draw => Evaluation::Draw,
        },
        _ => e,
    }
}

impl Evaluation {
    pub fn negate(&self) -> (r: Evaluation)
        requires
            *self matches Evaluation::Rating(x) ==> x > i32::MIN,
        ensures
            r == negated(*self),
    {
        match self {
            Evaluation::Rating(rating) => Evaluation::Rating(-*rating),
            Evaluation::OpponentHasCheckmateIn(n) => Evaluation::PlayerHasCheckmateIn(*n),
            Evaluation::PlayerHasCheckmateIn(n) => Evaluation::OpponentHasCheckmateIn(*n),
            Evaluation::Draw => Evaluation::Draw,
        }
    }

    /// Updates this evaluation of a move with the evaluation of the
    /// opponent's best reply: a rating loses the reply's rating; a mate
    /// against the opponent in `n` becomes a mate for us in `n + 1`, a mate
    /// by the opponent stays one, and a draw stays a draw. An evaluation that
    /// is not a rating is kept.
    pub fn update_with_opponents_best_response(self, opponent_move: &Self) -> (r: Self)
        requires
            self matches Evaluation::Rating(x) ==> (*opponent_move matches Evaluation::Rating(y) ==> i32::MIN <= x - y <= i32::MAX),
            self is Rating ==> (*opponent_move matches Evaluation::OpponentHasCheckmateIn(n) ==> n < i32::MAX),
        ensures
            r == combined(self, *opponent_move),
    {
        if let Evaluation::Rating(rating) = self {
            match opponent_move {
                Evaluation::Rating(opponent_rating) => Evaluation::Rating(rating - opponent_rating),
                Evaluation::OpponentHasCheckmateIn(n) => Evaluation::PlayerHasCheckmateIn(*n + 1),
                Evaluation::PlayerHasCheckmateIn(n) => Evaluation::OpponentHasCheckmateIn(*n),
                Evaluation::Draw => Evaluation::Draw,
            }
        } else {
            self
        }
    }

    /// Compares two evaluations: any mate by the opponent is below
    /// everything else, a later one above a sooner one; any mate by the mover
    /// is above everything else, a sooner one above a later one; ratings
    /// compare by value, and a draw compares as a rating of zero.
    pub fn cmp(&self, other: &Self) -> (r: Ordering)
        ensures
            r == compare(*self, *other),
    {
        match self {
            Evaluation::OpponentHasCheckmateIn(n1) => match other {
                Evaluation::OpponentHasCheckmateIn(n2) => cmp_i32(*n1, *n2),
                _ => Ordering::Less,
            },
            Evaluation::PlayerHasCheckmateIn(n1) => match other {
                Evaluation::PlayerHasCheckmateIn(n2) => cmp_i32(*n2, *n1),
                _ => Ordering::Greater,
            },
            Evaluation::Draw => match other {
                Evaluation::Draw => Ordering::Equal,
                Evaluation::PlayerHasCheckmateIn(_) => Ordering::Less,
                Evaluation::OpponentHasCheckmateIn(_) => Ordering::Greater,
                Evaluation::Rating(rating) => cmp_i32(0, *rating),
            },
            Evaluation::Rating(rating) => match other {
                Evaluation::Rating(rating2) => cmp_i32(*rating, *rating2),
                Evaluation::PlayerHasCheckmateIn(_) => Ordering::Less,
                Evaluation::OpponentHasCheckmateIn(_) => Ordering::Greater,
                Evaluation::Draw => cmp_i32(*rating, 0),
            },
        }
    }
}

fn cmp_i32(a: i32, b: i32) -> (r: Ordering)
    ensures
        r == order_of(a as int, b as int),
{
    if a < b {
        Ordering::Less
    } else if a > b {
        Ordering::Greater
    } else {
        Ordering::Equal
    }
}

/// Signed material value of the piece that stood on the target square, for
/// the side of color `c`.
pub open spec fn capture_value(b: BoardModel, m: ChessMove, c: Color) -> int {
    match b.at(m.to_field) {
        Some(p) => if p.color == c {
            -p.piece_type.material()
        } else {
            p.piece_type.material()
        },
        None => 0,
    }
}

/// The static evaluation of the move `m` for the side of color `c`.
pub open spec fn rating_of(b: BoardModel, m: ChessMove, c: Color) -> Evaluation {
    let after = b.played(m);
    if checkmated(after, c.other()) {
        Evaluation::PlayerHasCheckmateIn(1)
    } else {
        Evaluation::Rating(
            (capture_value(b, m, c) + (if in_check(after, c) { -1int } else { 0int }) + (if in_check(
                after,
                c.other(),
            ) { 1int } else { 0int })) as i32,
        )
    }
}

/// Rates the move for the player of the given color: mate in one if the
/// opponent is checkmated after it; otherwise the value of the piece taken
/// (negative for an own piece), minus one if the player is in check after
/// it, plus one if the opponent is. Plays the move on `board`.
fn rate_move(board: &mut Board, chess_move: &ChessMove, player_color: Color) -> (r: Evaluation)
    requires
        old(board)@.at(chess_move.from_field) is Some,
    ensures
        r == rating_of(old(board)@, *chess_move, player_color),
        final(board)@ == old(board)@.played(*chess_move),
        bounded(r, 1),
{
    let ghost b0 = board@;
    let mut rating: i32 = 0;
    let opponent_color = player_color.opponent();
    let piece_to_hit = *board.get_piece(chess_move.to_field());
    board.play_move(chess_move);

    if PieceRule::is_checkmated(board, &opponent_color) {
        return Evaluation::PlayerHasCheckmateIn(1);
    }
    match piece_to_hit {
        Some(p) => {
            if p.color() == player_color {
                rating = rating - p.piece_type().value() as i32;
            } else {
                rating = rating + p.piece_type().value() as i32;
            }
        },
        None => {},
    }
    assert(rating == capture_value(b0, *chess_move, player_color));
    if PieceRule::is_checked(board, &player_color) {
        rating = rating - 1;
    }
    if PieceRule::is_checked(board, &opponent_color) {
        rating = rating + 1;
    }
    Evaluation::Rating(rating)
}

/// The later of the maximal evaluations among `es`, which must not be empty.
pub open spec fn best_of(es: Seq<Evaluation>) -> Evaluation
    decreases es.len(),
{
    if es.len() <= 1 {
        es[0]
    } else {
        let m = best_of(es.drop_last());
        if compare(m, es.last()) == Ordering::Greater {
            m
        } else {
            es.last()
        }
    }
}

/// Negamax value of the move `m` on `b`, made at ply `cur` for the side of
/// color `c`, searching to ply `max`.
pub open spec fn negamax(b: BoardModel, m: ChessMove, cur: int, c: Color, max: int) -> Evaluation
    decreases max - cur, 0nat,
{
    let e = rating_of(b, m, c);
    if cur >= max || !(e is Rating) {
        e
    } else {
        let after = b.played(m);
        let replies = legal_moves(after, after.next_color);
        if replies.len() == 0 {
            Evaluation::Draw
        } else {
            combined(e, best_reply(after, replies, replies.len(), cur + 1, c.other(), max))
        }
    }
}

/// The best evaluation among the first `n` of `replies` on `b`, each made
/// at ply `cur` for the side of color `c`.
pub open spec fn best_reply(b: BoardModel, replies: Seq<ChessMove>, n: nat, cur: int, c: Color, max: int) -> Evaluation
    decreases max - cur, n,
{
    if n == 0 {
        Evaluation::Draw
    } else if n == 1 {
        negamax(b, replies[0], cur, c, max)
    } else {
        let m = best_reply(b, replies, (n - 1) as nat, cur, c, max);
        let x = negamax(b, replies[n - 1], cur, c, max);
        if compare(m, x) == Ordering::Greater {
            m
        } else {
            x
        }
    }
}

/// The work of one node of the search.
pub struct NegamaxTaskContext {
    pub board: Board,
    pub chess_move: ChessMove,
    pub current_level: i32,
    pub player_color: Color,
    pub max_level: i32,
}

/// Evaluates `context.chess_move` on `context.board` for
/// `context.player_color`: its static rating, refined at each further ply
/// below `context.max_level` by the best reply of the other side; a move
/// after which the other side has no legal reply and is not mated counts as
/// a draw.
pub fn recursive_negamax_task(context: NegamaxTaskContext) -> (r: Evaluation)
    requires
        context.board@.at(context.chess_move.from_field) is Some,
        1 <= context.current_level,
        context.max_level <= 10,
    ensures
        r == negamax(
            context.board@,
            context.chess_move,
            context.current_level as int,
            context.player_color,
            context.max_level as int,
        ),
        context.current_level <= context.max_level ==> bounded(r, context.max_level - context.current_level + 1),
        context.current_level > context.max_level ==> bounded(r, 1),
    decreases context.max_level - context.current_level,
{
    let mut new_board = context.board;
    let opponent_color = context.player_color.opponent();
    let evaluation = rate_move(&mut new_board, &context.chess_move, context.player_color);

    if context.current_level >= context.max_level || !matches!(evaluation, Evaluation::Rating(_)) {
        return evaluation;
    }

    let next = new_board.next_color();
    let legal_moves = PieceRule::get_legal_moves(&new_board, &next);
    let ghost after = new_board@;
    let ghost replies = legal_moves@;
    let ghost cur = context.current_level as int + 1;
    let ghost max = context.max_level as int;
    let ghost k = max - cur + 1;
    if legal_moves.len() == 0 {
        return Evaluation::Draw;
    }
    let mut best = recursive_negamax_task(NegamaxTaskContext {
        board: new_board,
        chess_move: legal_moves[0],
        current_level: context.current_level + 1,
        player_color: opponent_color,
        max_level: context.max_level,
    });
    let mut i: usize = 1;
    while i < legal_moves.len()
        invariant
            1 <= i <= legal_moves@.len(),
            replies == legal_moves@,
            after == new_board@,
            forall|j: int| 0 <= j < replies.len() ==> after.at((#[trigger] replies[j]).from_field) is Some,
            cur == context.current_level + 1,
            max == context.max_level,
            cur <= max <= 10,
            k == max - cur + 1,
            1 <= cur,
            opponent_color == context.player_color.other(),
            best == best_reply(after, replies, i as nat, cur, opponent_color, max),
            bounded(best, k),
        decreases legal_moves@.len() - i,
    {
        let x = recursive_negamax_task(NegamaxTaskContext {
            board: new_board,
            chess_move: legal_moves[i],
            current_level: context.current_level + 1,
            player_color: opponent_color,
            max_level: context.max_level,
        });
        let ghost prev = best;
        match best.cmp(&x) {
            Ordering::Greater => {},
            _ => {
                best = x;
            },
        }
        assert(best == best_reply(after, replies, (i + 1) as nat, cur, opponent_color, max)) by {
            assert(prev == best_reply(after, replies, ((i + 1) as nat - 1) as nat, cur, opponent_color, max));
        }
        i = i + 1;
    }
    evaluation.update_with_opponents_best_response(&best)
}

/// Whether the candidate at index `i` goes before the one at index `j`: it
/// is evaluated higher, or equally and was found later.
pub open spec fn goes_before(evals: Seq<Evaluation>, i: int, j: int) -> bool {
    compare(evals[i], evals[j]) == Ordering::Greater || (compare(evals[i], evals[j])
        == Ordering::Equal && i > j)
}

/// Whether `order` lists each index below `n` once, best first.
pub open spec fn ranks(order: Seq<int>, evals: Seq<Evaluation>, n: int) -> bool {
    &&& order.len() == n
    &&& forall|k: int| 0 <= k < n ==> 0 <= #[trigger] order[k] < n
    &&& forall|a: int, b: int| 0 <= a < b < n ==> goes_before(evals, #[trigger] order[a], #[trigger] order[b])
}

/// Whether `ranked` holds the `moves` in the order that `evals` rank them.
pub open spec fn ranked_by(ranked: Seq<ChessMove>, moves: Seq<ChessMove>, evals: Seq<Evaluation>) -> bool {
    exists|order: Seq<int>| #![trigger ranks(order, evals, moves.len() as int)]
        ranks(order, evals, moves.len() as int) && ranked.len() == moves.len() && forall|k: int|
            0 <= k < ranked.len() ==> #[trigger] ranked[k] == moves[order[k]]
}

/// Comparing two evaluations in either order gives opposite answers.
proof fn lemma_compare_flip(a: Evaluation, b: Evaluation)
    ensures
        compare(a, b) == Ordering::Less <==> compare(b, a) == Ordering::Greater,
        compare(a, b) == Ordering::Equal <==> compare(b, a) == Ordering::Equal,
{
}

/// The comparison is transitive.
proof fn lemma_compare_transitive(a: Evaluation, b: Evaluation, c: Evaluation)
    ensures
        compare(a, b) != Ordering::Less && compare(b, c) != Ordering::Less ==> compare(a, c) != Ordering::Less,
        compare(a, b) == Ordering::Greater && compare(b, c) != Ordering::Less ==> compare(a, c) == Ordering::Greater,
        compare(a, b) != Ordering::Less && compare(b, c) == Ordering::Greater ==> compare(a, c) == Ordering::Greater,
{
}

proof fn lemma_goes_before_transitive(evals: Seq<Evaluation>, i: int, j: int, l: int)
    requires
        goes_before(evals, i, j),
        goes_before(evals, j, l),
    ensures
        goes_before(evals, i, l),
{
    lemma_compare_transitive(evals[i], evals[j], evals[l]);
    lemma_compare_flip(evals[i], evals[l]);
    lemma_compare_flip(evals[i], evals[j]);
    lemma_compare_flip(evals[j], evals[l]);
}

/// Orders `moves` by their evaluations, best first; of equally evaluated
/// moves, the one found later goes first.
pub fn rank_moves(moves: &Vec<ChessMove>, evals: &Vec<Evaluation>) -> (r: Vec<ChessMove>)
    requires
        moves@.len() == evals@.len(),
    ensures
        ranked_by(r@, moves@, evals@),
{
    let n = moves.len();
    let ghost ev = evals@;
    let mut order: Vec<usize> = Vec::new();
    let mut k: usize = 0;
    while k < n
        invariant
            0 <= k <= n,
            n == moves@.len(),
            n == evals@.len(),
            ev == evals@,
            order@.len() == k,
            forall|a: int| 0 <= a < k ==> 0 <= #[trigger] order@[a] < k,
            forall|a: int, b: int| 0 <= a < b < k ==> goes_before(ev, #[trigger] order@[a] as int, #[trigger] order@[b] as int),
        decreases n - k,
    {
        let mut pos: usize = 0;
        while pos < order.len() && matches!(evals[k].cmp(&evals[order[pos]]), Ordering::Less)
            invariant
                0 <= pos <= order@.len(),
                order@.len() == k,
                k < n,
                n == evals@.len(),
                ev == evals@,
                forall|a: int| 0 <= a < k ==> 0 <= #[trigger] order@[a] < k,
                forall|a: int| 0 <= a < pos ==> compare(ev[k as int], ev[#[trigger] order@[a] as int]) == Ordering::Less,
            decreases k - pos,
        {
            pos = pos + 1;
        }
        let ghost old_order = order@;
        order.insert(pos, k);
        proof {
            assert forall|a: int| 0 <= a < k + 1 implies 0 <= #[trigger] order@[a] < k + 1 by {
                if a < pos {
                    assert(order@[a] == old_order[a]);
                } else if a > pos {
                    assert(order@[a] == old_order[a - 1]);
                }
            }
            assert forall|a: int, b: int| 0 <= a < b < k + 1 implies goes_before(ev, #[trigger] order@[a] as int, #[trigger] order@[b] as int) by {
                let x = order@[a] as int;
                let y = order@[b] as int;
                if a < pos && b < pos {
                    assert(x == old_order[a] && y == old_order[b]);
                } else if a < pos && b == pos {
                    assert(x == old_order[a]);
                    lemma_compare_flip(ev[k as int], ev[x]);
                } else if a < pos && b > pos {
                    assert(x == old_order[a] && y == old_order[b - 1]);
                } else if a == pos {
                    assert(y == old_order[b - 1]);
                    // the new index goes before the element it was placed in front of
                    assert(compare(ev[k as int], ev[old_order[pos as int] as int]) != Ordering::Less);
                    assert(goes_before(ev, k as int, old_order[pos as int] as int));
                    if b - 1 > pos {
                        lemma_goes_before_transitive(ev, k as int, old_order[pos as int] as int, y);
                    }
                } else {
                    assert(x == old_order[a - 1] && y == old_order[b - 1]);
                }
            }
        }
        k = k + 1;
    }

    let mut ranked: Vec<ChessMove> = Vec::new();
    let mut i: usize = 0;
    while i < n
        invariant
            0 <= i <= n,
            n == moves@.len(),
            order@.len() == n,
            forall|a: int| 0 <= a < n ==> 0 <= #[trigger] order@[a] < n,
            ranked@.len() == i,
            forall|a: int| 0 <= a < i ==> #[trigger] ranked@[a] == moves@[order@[a] as int],
        decreases n - i,
    {
        ranked.push(moves[order[i]]);
        i = i + 1;
    }
    let ghost ord = Seq::new(n as nat, |a: int| order@[a] as int);
    assert(ranks(ord, ev, n as int));
    ranked
}

/// The negamax value of each legal move of the side to move, searched to
/// `depth` plies.
pub open spec fn root_evaluations(b: BoardModel, depth: int) -> Seq<Evaluation> {
    let ms = legal_moves(b, b.next_color);
    Seq::new(ms.len(), |i: int| negamax(b, ms[i], 1, b.next_color, depth))
}

/// The move provider that searches the game tree.
pub struct Negamax;

impl Negamax {
    /// Returns the legal moves of the side to move, best first by their
    /// negamax evaluation to the depth that `options` sets.
    pub fn get_recommended_moves(&mut self, board: &Board, options: Options) -> (r: Vec<ChessMove>)
        ensures
            ranked_by(r@, legal_moves(board@, board@.next_color), root_evaluations(board@, options.spec_depth() as int)),
    {
        let color = board.next_color();
        let moves = PieceRule::get_legal_moves(board, &color);
        let depth = options.recursion_depth();
        let mut evals: Vec<Evaluation> = Vec::new();
        let mut i: usize = 0;
        while i < moves.len()
            invariant
                0 <= i <= moves@.len(),
                moves@ == legal_moves(board@, board@.next_color),
                forall|j: int| 0 <= j < moves@.len() ==> board@.at((#[trigger] moves@[j]).from_field) is Some,
                color == board@.next_color,
                depth == options.spec_depth(),
                1 <= depth <= 10,
                evals@.len() == i,
                forall|j: int| 0 <= j < i ==> #[trigger] evals@[j] == negamax(board@, moves@[j], 1, color, depth as int),
            decreases moves@.len() - i,
        {
            let e = recursive_negamax_task(NegamaxTaskContext {
                board: *board,
                chess_move: moves[i],
                current_level: 1,
                player_color: color,
                max_level: depth as i32,
            });
            evals.push(e);
            i = i + 1;
        }
        assert(evals@ =~= root_evaluations(board@, depth as int));
        rank_moves(&moves, &evals)
    }
}

} // verus!
