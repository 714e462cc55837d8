use std::cmp::Ordering;
use flengine::board::Board;
use flengine::converter::Converter;
use flengine::options::{Difficulty, Options};
use flengine::pieces::{ChessMove, Color, Field, File, Piece, PieceType, Rank};
use flengine::providers::{Controller, Endgame, Openings, position_after};
use flengine::rules::{PieceRule, RulesProvider};
use flengine::search::{Evaluation, Negamax, NegamaxTaskContext, rank_moves, recursive_negamax_task};

fn board(fen: &str) -> Board {
    Converter::convert_string_to_board(fen.to_string()).expect("valid position")
}

fn texts(moves: &[ChessMove]) -> Vec<String> {
    moves.iter().map(|m| Converter::convert_move_to_string(m)).collect()
}

fn legal_texts(b: &Board) -> Vec<String> {
    let color = b.next_color();
    texts(&PieceRule::get_legal_moves(b, &color))
}

fn mv(text: &str) -> ChessMove {
    Converter::convert_string_to_move(&text.to_string()).expect("valid move text")
}

#[test]
fn startpos_has_twenty_knight_and_pawn_moves() {
    let b = board("startpos");
    let moves = PieceRule::get_legal_moves(&b, &Color::WHITE);
    assert_eq!(moves.len(), 20);
    for m in &moves {
        let kind = b.get_piece(m.from_field()).unwrap().piece_type();
        assert!(kind == PieceType::PAWN || kind == PieceType::KNIGHT);
    }
}

#[test]
fn hard_depth_one_search_from_startpos_ranks_legal_moves() {
    let b = board("startpos");
    let options = Options::new(Difficulty::HARD, 1);
    let ranked = Negamax.get_recommended_moves(&b, options);
    let legal = legal_texts(&b);
    assert_eq!(ranked.len(), 20);
    let best = Converter::convert_move_to_string(&ranked[0]);
    assert!(legal.contains(&best));
    let mut sorted_ranked = texts(&ranked);
    sorted_ranked.sort();
    let mut sorted_legal = legal.clone();
    sorted_legal.sort();
    assert_eq!(sorted_ranked, sorted_legal);
}

#[test]
fn three_piece_endgame_asks_tablebase_and_search_finds_white_move() {
    let b = board("4k3/8/8/8/8/8/4P3/4K3 w - - 0 1");
    assert_eq!(b.piece_count(), 3);
    assert!(Endgame::applies(&b));
    let ranked = Negamax.get_recommended_moves(&b, Options::new(Difficulty::NORMAL, 3));
    assert!(!ranked.is_empty());
    let best = ranked[0];
    assert_eq!(b.get_piece(best.from_field()).unwrap().color(), Color::WHITE);
    assert!(legal_texts(&b).contains(&Converter::convert_move_to_string(&best)));
}

#[test]
fn start_position_is_not_an_endgame() {
    let b = board("startpos");
    assert_eq!(b.piece_count(), 32);
    assert!(!Endgame::applies(&b));
}

#[test]
fn both_castlings_are_legal_when_paths_are_free() {
    let b = board("r3k2r/8/8/8/8/8/8/R3K2R w KQkq - 0 1");
    let legal = legal_texts(&b);
    assert!(legal.contains(&"e1g1".to_string()));
    assert!(legal.contains(&"e1c1".to_string()));
}

#[test]
fn castling_through_attacked_square_is_not_legal() {
    let b = board("r3k2r/8/8/8/8/8/5r2/R3K2R w KQkq - 0 1");
    let legal = legal_texts(&b);
    assert!(!legal.contains(&"e1g1".to_string()));
}

#[test]
fn king_cannot_step_next_to_the_other_king() {
    let b = board("8/8/8/8/8/k1K5/8/8 b - - 0 1");
    let mut legal = legal_texts(&b);
    legal.sort();
    assert_eq!(legal, vec!["a3a2".to_string(), "a3a4".to_string()]);
}

#[test]
fn pipeline_falls_through_to_search_when_book_is_silent() {
    let b = board("startpos");
    let mut openings = Openings::new();
    assert!(openings.in_opening());
    let book = openings.accept_answer(&b, &Vec::new());
    assert!(book.is_empty());
    assert!(!openings.in_opening());
    let search = Negamax.get_recommended_moves(&b, Options::new(Difficulty::HARD, 1));
    let chosen = Controller::first_candidates(&vec![book, Vec::new(), search.clone()]);
    assert_eq!(chosen, search);
    assert_eq!(Controller::pick(&chosen, 0), Some(search[0]));
    assert_eq!(Controller::pick(&chosen, 20), None);
}

#[test]
fn book_answer_keeps_order_and_skips_bad_text() {
    let b = board("startpos");
    let mut openings = Openings::new();
    let answer = vec!["e2e4".to_string(), "xx".to_string(), "d2d4".to_string()];
    let moves = openings.accept_answer(&b, &answer);
    assert_eq!(texts(&moves), vec!["e2e4".to_string(), "d2d4".to_string()]);
    assert!(openings.in_opening());
}

#[test]
fn tablebase_castling_in_rook_form_is_rewritten() {
    let b = board("r3k2r/8/8/8/8/8/8/R3K2R w KQkq - 0 1");
    let moves = Endgame::accept_answer(&b, &vec!["e1h1".to_string(), "e1a1".to_string()]);
    assert_eq!(texts(&moves), vec!["e1g1".to_string(), "e1c1".to_string()]);
}

#[test]
fn fen_round_trip_of_start_position() {
    let text = "rnbqkbnr/pppppppp/8/8/8/8/PPPPPPPP/RNBQKBNR w KQkq - 0 1";
    let b = board(text);
    assert_eq!(Converter::convert_board_to_string(&b), text);
    assert_eq!(Converter::convert_board_to_string(&board("startpos")), text);
}

#[test]
fn fen_round_trip_writes_halfmove_clock_as_zero() {
    let b = board("r3k2r/8/8/3pP3/8/8/8/R3K2R w Kq d6 12 40");
    assert_eq!(Converter::convert_board_to_string(&b), "r3k2r/8/8/3pP3/8/8/8/R3K2R w Kq d6 0 40");
    assert_eq!(b.en_passant_field().unwrap(), Field::new(File::D, Rank::SIX));
    assert_eq!(b.move_counter(), 40);
    assert!(b.white_can_castle_short() && !b.white_can_castle_long());
    assert!(!b.black_can_castle_short() && b.black_can_castle_long());
}

#[test]
fn malformed_fen_is_rejected() {
    assert!(Converter::convert_string_to_board("rnbqkbnr/pppppppp/8/8/8/8/PPPPPPPP w KQkq - 0 1".to_string()).is_none());
    assert!(Converter::convert_string_to_board("8/8/8/8/8/8/8/8 x - - 0 1".to_string()).is_none());
    assert!(Converter::convert_string_to_board("8/8/8/8/8/8/8/8 w KX - 0 1".to_string()).is_none());
    assert!(Converter::convert_string_to_board("8/8/8/8/8/8/8/8 w - z9 0 1".to_string()).is_none());
    assert!(Converter::convert_string_to_board("8/8/8/8/8/8/8/8 w - - 0 70000".to_string()).is_none());
    assert!(Converter::convert_string_to_board("8/8/8/8/8/8/8/8 w - -".to_string()).is_none());
    assert!(Converter::convert_string_to_board("9/8/8/8/8/8/8/8 w - - 0 1".to_string()).is_none());
}

#[test]
fn uci_text_round_trip() {
    for text in ["e2e4", "a7a8q", "h2h1n", "b7b8r", "c7c8b"] {
        assert_eq!(Converter::convert_move_to_string(&mv(text)), text);
    }
    assert_eq!(Converter::convert_move_to_string(&mv("E2E4")), "e2e4");
    let promo = mv("a7a8Q");
    assert_eq!(*promo.promote_to(), Some(PieceType::QUEEN));
}

#[test]
fn bad_uci_text_is_rejected() {
    assert!(Converter::convert_string_to_move(&"e9e4".to_string()).is_none());
    assert!(Converter::convert_string_to_move(&"e7e8x".to_string()).is_none());
    assert!(Converter::convert_string_to_move(&"e2".to_string()).is_none());
    assert!(Converter::convert_string_to_move(&"e2e4qq".to_string()).is_none());
}

#[test]
fn sanitize_rewrites_king_takes_rook() {
    let b = board("r3k2r/8/8/8/8/8/8/R3K2R w KQkq - 0 1");
    assert_eq!(Converter::convert_move_to_string(&Converter::sanitize_move(&b, &mv("e1h1"))), "e1g1");
    assert_eq!(Converter::convert_move_to_string(&Converter::sanitize_move(&b, &mv("e8a8"))), "e8c8");
    assert_eq!(Converter::convert_move_to_string(&Converter::sanitize_move(&b, &mv("e1g1"))), "e1g1");
    assert_eq!(Converter::convert_move_to_string(&Converter::sanitize_move(&b, &mv("a1b1"))), "a1b1");
}

#[test]
fn double_step_sets_en_passant_target() {
    let mut b = board("startpos");
    b.play_move(&mv("e2e4"));
    assert_eq!(*b.en_passant_field(), Some(Field::new(File::E, Rank::THREE)));
    assert_eq!(b.next_color(), Color::BLACK);
    assert_eq!(b.move_counter(), 2);
    b.play_move(&mv("g8f6"));
    assert_eq!(*b.en_passant_field(), None);
}

#[test]
fn en_passant_capture_removes_pawn() {
    let mut b = board("4k3/8/8/3pP3/8/8/8/4K3 w - d6 0 1");
    assert!(legal_texts(&b).contains(&"e5d6".to_string()));
    assert_eq!(b.piece_count(), 4);
    b.play_move(&mv("e5d6"));
    assert_eq!(b.piece_count(), 3);
    assert_eq!(*b.get_piece(&Field::new(File::D, Rank::FIVE)), None);
    assert_eq!(*b.get_piece(&Field::new(File::D, Rank::SIX)), Some(Piece::new(Color::WHITE, PieceType::PAWN)));
}

#[test]
fn castling_moves_rook_and_clears_rights() {
    let mut b = board("r3k2r/8/8/8/8/8/8/R3K2R w KQkq - 0 1");
    b.play_move(&mv("e1g1"));
    assert_eq!(*b.get_piece(&Field::new(File::F, Rank::ONE)), Some(Piece::new(Color::WHITE, PieceType::ROOK)));
    assert_eq!(*b.get_piece(&Field::new(File::H, Rank::ONE)), None);
    assert!(!b.white_can_castle_short() && !b.white_can_castle_long());
    b.play_move(&mv("e8c8"));
    assert_eq!(*b.get_piece(&Field::new(File::D, Rank::EIGHT)), Some(Piece::new(Color::BLACK, PieceType::ROOK)));
    assert_eq!(*b.get_piece(&Field::new(File::A, Rank::EIGHT)), None);
    assert!(!b.black_can_castle_short() && !b.black_can_castle_long());
}

#[test]
fn rook_move_from_corner_clears_one_right() {
    let mut b = board("r3k2r/8/8/8/8/8/8/R3K2R w KQkq - 0 1");
    b.play_move(&mv("h1h5"));
    assert!(!b.white_can_castle_short());
    assert!(b.white_can_castle_long());
}

#[test]
fn promotion_is_generated_and_played_as_queen() {
    let mut b = board("8/P3k3/8/8/8/8/8/4K3 w - - 0 1");
    let legal = legal_texts(&b);
    assert!(legal.contains(&"a7a8q".to_string()));
    b.play_move(&mv("a7a8q"));
    assert_eq!(*b.get_piece(&Field::new(File::A, Rank::EIGHT)), Some(Piece::new(Color::WHITE, PieceType::QUEEN)));
}

#[test]
fn edge_pawns_capture_only_inwards() {
    let b = board("4k3/8/8/8/8/1p5p/P6P/4K3 w - - 0 1");
    let legal = legal_texts(&b);
    assert!(legal.contains(&"a2b3".to_string()));
    assert!(!legal.iter().any(|t| t.starts_with("h2g")));
    assert!(legal.contains(&"a2a3".to_string()));
}

#[test]
fn fools_mate_is_checkmate() {
    let b = board("rnb1kbnr/pppp1ppp/8/4p3/6Pq/5P2/PPPPP2P/RNBQKBNR w KQkq - 1 3");
    assert!(PieceRule::is_checked(&b, &Color::WHITE));
    assert!(PieceRule::get_legal_moves(&b, &Color::WHITE).is_empty());
    assert!(PieceRule::is_checkmated(&b, &Color::WHITE));
    assert!(!PieceRule::is_checkmated(&b, &Color::BLACK));
}

#[test]
fn stalemate_is_not_checkmate() {
    let b = board("7k/5Q2/6K1/8/8/8/8/8 b - - 0 1");
    assert!(PieceRule::get_legal_moves(&b, &Color::BLACK).is_empty());
    assert!(!PieceRule::is_checked(&b, &Color::BLACK));
    assert!(!PieceRule::is_checkmated(&b, &Color::BLACK));
}

#[test]
fn missing_king_is_never_in_check() {
    let b = board("8/8/8/8/8/8/8/R3K3 w - - 0 1");
    assert!(!PieceRule::is_checked(&b, &Color::BLACK));
}

#[test]
fn pinned_piece_cannot_move() {
    let b = board("4r1k1/8/8/8/8/8/4N3/4K3 w - - 0 1");
    let legal = legal_texts(&b);
    assert!(!legal.iter().any(|t| t.starts_with("e2")));
}

#[test]
fn search_finds_mate_in_one() {
    let b = board("6k1/5ppp/8/8/8/8/8/R5K1 w - - 0 1");
    let ranked = Negamax.get_recommended_moves(&b, Options::new(Difficulty::HARD, 2));
    assert_eq!(Converter::convert_move_to_string(&ranked[0]), "a1a8");
    let e = recursive_negamax_task(NegamaxTaskContext {
        board: b,
        chess_move: mv("a1a8"),
        current_level: 1,
        player_color: Color::WHITE,
        max_level: 2,
    });
    assert_eq!(e, Evaluation::PlayerHasCheckmateIn(1));
}

#[test]
fn capture_is_rated_by_material() {
    let b = board("4k3/8/8/3q4/4P3/8/8/4K3 w - - 0 1");
    let e = recursive_negamax_task(NegamaxTaskContext {
        board: b,
        chess_move: mv("e4d5"),
        current_level: 1,
        player_color: Color::WHITE,
        max_level: 1,
    });
    assert_eq!(e, Evaluation::Rating(9));
}

#[test]
fn evaluation_order() {
    let win1 = Evaluation::PlayerHasCheckmateIn(1);
    let win3 = Evaluation::PlayerHasCheckmateIn(3);
    let loss1 = Evaluation::OpponentHasCheckmateIn(1);
    let loss4 = Evaluation::OpponentHasCheckmateIn(4);
    assert_eq!(win1.cmp(&win3), Ordering::Greater);
    assert_eq!(loss1.cmp(&loss4), Ordering::Less);
    assert_eq!(Evaluation::Rating(-100).cmp(&loss4), Ordering::Greater);
    assert_eq!(Evaluation::Rating(500).cmp(&win3), Ordering::Less);
    assert_eq!(Evaluation::Draw.cmp(&Evaluation::Rating(-1)), Ordering::Greater);
    assert_eq!(Evaluation::Draw.cmp(&Evaluation::Rating(1)), Ordering::Less);
    assert_eq!(Evaluation::Draw.cmp(&Evaluation::Rating(0)), Ordering::Equal);
    assert_eq!(Evaluation::Rating(3).cmp(&Evaluation::Rating(2)), Ordering::Greater);
}

#[test]
fn update_with_best_reply() {
    let r = Evaluation::Rating(3);
    assert_eq!(r.update_with_opponents_best_response(&Evaluation::Rating(5)), Evaluation::Rating(-2));
    assert_eq!(r.update_with_opponents_best_response(&Evaluation::OpponentHasCheckmateIn(1)), Evaluation::PlayerHasCheckmateIn(2));
    assert_eq!(r.update_with_opponents_best_response(&Evaluation::PlayerHasCheckmateIn(2)), Evaluation::OpponentHasCheckmateIn(2));
    assert_eq!(r.update_with_opponents_best_response(&Evaluation::Draw), Evaluation::Draw);
    assert_eq!(Evaluation::Draw.update_with_opponents_best_response(&Evaluation::Rating(5)), Evaluation::Draw);
    assert_eq!(Evaluation::Rating(4).negate(), Evaluation::Rating(-4));
    assert_eq!(Evaluation::PlayerHasCheckmateIn(2).negate(), Evaluation::OpponentHasCheckmateIn(2));
}

#[test]
fn ranking_puts_best_first_and_later_ties_first() {
    let a = mv("a2a3");
    let b = mv("b2b3");
    let c = mv("c2c3");
    let d = mv("d2d3");
    let evals = vec![Evaluation::Rating(1), Evaluation::PlayerHasCheckmateIn(2), Evaluation::Rating(1), Evaluation::OpponentHasCheckmateIn(1)];
    let ranked = rank_moves(&vec![a, b, c, d], &evals);
    assert_eq!(ranked, vec![b, c, a, d]);
}

#[test]
fn difficulty_text_and_values() {
    assert!(matches!(Difficulty::from_str("EASY"), Ok(Difficulty::EASY)));
    assert!(matches!(Difficulty::from_str("HARD"), Ok(Difficulty::HARD)));
    assert!(Difficulty::from_str("easy").is_err());
    assert!(Difficulty::from_str("MEDIUM").is_err());
    assert_eq!(Difficulty::EASY.value(), 1);
    assert_eq!(Difficulty::NORMAL.value(), 8);
    assert_eq!(Difficulty::HARD.value(), 100);
    assert_eq!(Difficulty::NORMAL.readable_string(), "Normal");
}

#[test]
fn options_defaults_and_setters() {
    let mut o = Options::from_default();
    assert_eq!(*o.difficulty(), Difficulty::NORMAL);
    assert_eq!(o.recursion_depth(), 4);
    o.set_recursion_depth(10);
    o.set_difficulty(Difficulty::EASY);
    assert_eq!(o.recursion_depth(), 10);
    assert_eq!(*o.difficulty(), Difficulty::EASY);
}

#[test]
fn empty_board_defaults() {
    let b = Board::new();
    assert_eq!(b.piece_count(), 0);
    assert_eq!(b.next_color(), Color::WHITE);
    assert_eq!(b.move_counter(), 1);
    assert!(b.white_can_castle_short() && b.white_can_castle_long() && b.black_can_castle_short() && b.black_can_castle_long());
    assert_eq!(*b.en_passant_field(), None);
    assert_eq!(Converter::convert_board_to_string(&b), "8/8/8/8/8/8/8/8 w KQkq - 0 1");
}

#[test]
fn file_and_rank_text() {
    assert_eq!(File::from_string("c"), Some(File::C));
    assert_eq!(File::from_string("C"), Some(File::C));
    assert_eq!(File::from_string("i"), None);
    assert_eq!(File::C.to_str(), "C");
    assert_eq!(File::from_index(7), File::H);
    assert_eq!(File::G.to_index(), 6);
    assert_eq!(Rank::from_string("5"), Some(Rank::FIVE));
    assert_eq!(Rank::from_string("9"), None);
    assert_eq!(Rank::SEVEN.to_str(), "7");
    assert_eq!(Rank::from_index(0), Rank::ONE);
    assert_eq!(!Color::WHITE, Color::BLACK);
    assert_eq!(PieceType::QUEEN.value(), 9);
}

#[test]
fn position_command_plays_its_moves() {
    let b = position_after("startpos".to_string(), &vec!["e2e4".to_string(), "e7e5".to_string(), "g1f3".to_string()]).unwrap();
    assert_eq!(Converter::convert_board_to_string(&b), "rnbqkbnr/pppp1ppp/8/4p3/4P3/5N2/PPPP1PPP/RNBQKB1R b KQkq - 0 4");
    assert!(position_after("startpos".to_string(), &vec!["e3e4".to_string()]).is_none());
    assert!(position_after("startpos".to_string(), &vec!["zz".to_string()]).is_none());
    assert!(position_after("nonsense".to_string(), &Vec::new()).is_none());
    let fen = position_after("4k3/8/8/8/8/8/4P3/4K3 w - - 0 1".to_string(), &Vec::new()).unwrap();
    assert_eq!(fen.piece_count(), 3);
}
