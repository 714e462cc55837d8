use flengine::options::Difficulty;
use flengine::uci::{UciAction, RequestHandler};

fn tokens(line: &str) -> Vec<String> {
    line.split_whitespace().map(|s| s.to_string()).collect()
}

#[test]
fn uci_command_lists_identity_and_options() {
    let mut session = RequestHandler::new();
    match session.handle(&tokens("uci")) {
        UciAction::Reply(lines) => assert_eq!(
            lines,
            vec![
                "id name Flengine".to_string(),
                "id author TeamFlyndre".to_string(),
                "option name Difficulty type combo default Normal var Easy var Normal var Hard".to_string(),
                "option name RecursiveDepth type spin default 4 min 1 max 10".to_string(),
                "uciok".to_string(),
            ]
        ),
        _ => panic!("expected a reply"),
    }
}

#[test]
fn isready_is_answered() {
    let mut session = RequestHandler::new();
    match session.handle(&tokens("isready")) {
        UciAction::Reply(lines) => assert_eq!(lines, vec!["readyok".to_string()]),
        _ => panic!("expected a reply"),
    }
}

#[test]
fn setoption_changes_difficulty_and_depth() {
    let mut session = RequestHandler::new();
    assert!(matches!(session.handle(&tokens("setoption name Difficulty value EASY")), UciAction::Nothing));
    assert_eq!(*session.options.difficulty(), Difficulty::EASY);
    session.handle(&tokens("setoption name RecursiveDepth value 7"));
    assert_eq!(session.options.recursion_depth(), 7);
    session.handle(&tokens("setoption name RecursiveDepth value 11"));
    assert_eq!(session.options.recursion_depth(), 7);
    session.handle(&tokens("setoption name Difficulty value SILLY"));
    assert_eq!(*session.options.difficulty(), Difficulty::EASY);
}

#[test]
fn position_and_go_hand_over_the_computation() {
    let mut session = RequestHandler::new();
    session.handle(&tokens("position startpos moves e2e4 e7e5"));
    match session.handle(&tokens("go")) {
        UciAction::Compute { position, moves, options } => {
            assert_eq!(position, "startpos");
            assert_eq!(moves, vec!["e2e4".to_string(), "e7e5".to_string()]);
            assert_eq!(options.recursion_depth(), 4);
        }
        _ => panic!("expected a computation"),
    }
}

#[test]
fn position_fen_joins_six_fields() {
    let mut session = RequestHandler::new();
    session.handle(&tokens("position fen 4k3/8/8/8/8/8/4P3/4K3 w - - 0 1 moves e2e4"));
    assert_eq!(session.position, "4k3/8/8/8/8/8/4P3/4K3 w - - 0 1");
    assert_eq!(session.moves, vec!["e2e4".to_string()]);
    session.handle(&tokens("position fen 8/8/8/8/8/k1K5/8/8 b - - 0 1"));
    assert_eq!(session.position, "8/8/8/8/8/k1K5/8/8 b - - 0 1");
    assert!(session.moves.is_empty());
}

#[test]
fn unknown_leading_tokens_are_skipped() {
    let mut session = RequestHandler::new();
    assert!(matches!(session.handle(&tokens("hello there QUIT")), UciAction::Quit));
    assert!(matches!(session.handle(&tokens("nonsense")), UciAction::Nothing));
    assert!(matches!(session.handle(&tokens("")), UciAction::Nothing));
    assert!(matches!(session.handle(&tokens("stop")), UciAction::Stop));
    assert!(matches!(session.handle(&tokens("debug on")), UciAction::Debug(true)));
    assert!(matches!(session.handle(&tokens("debug off")), UciAction::Debug(false)));
    assert!(matches!(session.handle(&tokens("ucinewgame")), UciAction::Nothing));
}
