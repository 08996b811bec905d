use pijersi_rs::search::openings::OpeningBook;
use pijersi_rs::ugi::{GoArgs, PositionArgs, QueryArgs, SetoptionArgs, UgiEngine, UgiOutput};

fn lines(outputs: &[UgiOutput]) -> Vec<String> {
    outputs
        .iter()
        .filter_map(|o| match o {
            UgiOutput::Line(l) => Some(l.clone()),
            _ => None,
        })
        .collect()
}

#[test]
fn test_ugi_identification() {
    let engine = UgiEngine::new();
    let out = engine.ugi();
    assert_eq!(out.len(), 6);
    assert_eq!(out[0], "id name Natural Selection 0.1.0");
    assert_eq!(out[5], "ugiok");
    assert!(out[2].starts_with("info target platform "));
}

#[test]
fn test_ugi_queries() {
    let mut engine = UgiEngine::new();
    assert_eq!(engine.isready(OpeningBook::default()), "readyok");
    assert_eq!(lines(&engine.query(QueryArgs::Gameover)), vec!["response false"]);
    assert_eq!(lines(&engine.query(QueryArgs::P1turn)), vec!["response true"]);
    assert_eq!(lines(&engine.query(QueryArgs::Result)), vec!["response none"]);
    assert_eq!(
        lines(&engine.query(QueryArgs::Islegal { action_string: "a1b1".to_owned() })),
        vec!["response true"]
    );
    assert_eq!(
        lines(&engine.query(QueryArgs::Islegal { action_string: "a1a1".to_owned() })),
        vec!["response false"]
    );
    assert_eq!(
        lines(&engine.query(QueryArgs::Fen)),
        vec!["s-p-r-s-p-r-/p-r-s-wwr-s-p-/6/7/6/P-S-R-WWS-R-P-/R-P-S-R-P-S- w 0 1"]
    );
}

#[test]
fn test_ugi_position() {
    let mut engine = UgiEngine::new();
    let out = engine.position(PositionArgs::Startpos {
        moves: vec!["moves".to_owned(), "a1b1".to_owned(), "g1f1".to_owned()],
    });
    assert!(out.is_empty());
    assert_eq!(lines(&engine.query(QueryArgs::P1turn)), vec!["response true"]);
    let out = engine.position(PositionArgs::Startpos { moves: vec!["a1b1".to_owned()] });
    assert_eq!(out.len(), 1);
    assert!(matches!(out[0], UgiOutput::Error(_)));
    // an action that cannot be played brings the board back to the position set
    let out = engine.position(PositionArgs::Startpos {
        moves: vec!["moves".to_owned(), "a1b1".to_owned(), "a1a2".to_owned()],
    });
    assert_eq!(out.len(), 1);
    assert_eq!(
        lines(&engine.query(QueryArgs::Fen)),
        vec!["s-p-r-s-p-r-/p-r-s-wwr-s-p-/6/7/6/P-S-R-WWS-R-P-/R-P-S-R-P-S- w 0 1"]
    );
    let out = engine.position(PositionArgs::Fen {
        fen: "6/7/6/7/6/7/5S-".to_owned(),
        player: "b".to_owned(),
        half_moves: 4,
        full_moves: 9,
        moves: vec![],
    });
    assert!(out.is_empty());
    assert_eq!(lines(&engine.query(QueryArgs::Fen)), vec!["6/7/6/7/6/7/5S- b 4 9"]);
    let out = engine.position(PositionArgs::Fen {
        fen: "6/7".to_owned(),
        player: "x".to_owned(),
        half_moves: 0,
        full_moves: 1,
        moves: vec![],
    });
    assert_eq!(out.len(), 2);
}

#[test]
fn test_ugi_go_and_options() {
    let mut engine = UgiEngine::new();
    assert!(engine.setoption(SetoptionArgs::Verbose { value: "false".to_owned() }).is_empty());
    assert!(engine.setoption(SetoptionArgs::UseBook { value: "false".to_owned() }).is_empty());
    assert_eq!(engine.setoption(SetoptionArgs::UseBook { value: "maybe".to_owned() }).len(), 1);
    let out = engine.go(GoArgs::Depth { depth: 2 });
    let l = lines(&out);
    assert_eq!(l.len(), 1);
    assert!(l[0].starts_with("bestmove "));
    let out = engine.go(GoArgs::Manual { action_string: "a1b1".to_owned() });
    assert!(out.is_empty());
    assert_eq!(lines(&engine.query(QueryArgs::P1turn)), vec!["response false"]);
    let out = engine.go(GoArgs::Manual { action_string: "a1b1".to_owned() });
    assert_eq!(out.len(), 1);
    engine.uginewgame();
    assert_eq!(lines(&engine.query(QueryArgs::P1turn)), vec!["response true"]);
}

/// Actions after a position in PSN are played as after the starting position.
#[test]
fn test_ugi_position_fen_moves() {
    let moves = vec!["moves".to_owned(), "a1b1".to_owned(), "g1f1".to_owned()];
    let mut from_start = UgiEngine::new();
    assert!(from_start.position(PositionArgs::Startpos { moves: moves.clone() }).is_empty());
    let mut from_fen = UgiEngine::new();
    let out = from_fen.position(PositionArgs::Fen {
        fen: "s-p-r-s-p-r-/p-r-s-wwr-s-p-/6/7/6/P-S-R-WWS-R-P-/R-P-S-R-P-S-".to_owned(),
        player: "w".to_owned(),
        half_moves: 0,
        full_moves: 1,
        moves,
    });
    assert!(out.is_empty());
    assert_eq!(lines(&from_fen.query(QueryArgs::Fen)), lines(&from_start.query(QueryArgs::Fen)));
    // an illegal action leaves the position that the notation set
    let out = from_fen.position(PositionArgs::Fen {
        fen: "6/7/6/7/6/7/5S-".to_owned(),
        player: "w".to_owned(),
        half_moves: 3,
        full_moves: 7,
        moves: vec!["moves".to_owned(), "g1f1".to_owned()],
    });
    assert_eq!(out.len(), 1);
    assert_eq!(lines(&from_fen.query(QueryArgs::Fen)), vec!["6/7/6/7/6/7/5S- w 3 7"]);
}
