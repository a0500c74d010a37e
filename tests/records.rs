use termichess::{Board, Move, Piece, PieceColor, PieceKind, Square, Status};

fn sq(f: usize, r: usize) -> Square {
    Square::new(f, r).unwrap()
}

fn after(texts: &[&str]) -> Board {
    let mut board = Board::new();
    for t in texts {
        let mv = board.translate(t).unwrap();
        board = board.perform(mv).unwrap();
    }
    board
}

fn same_position(a: &Board, b: &Board) {
    assert_eq!(a.squares, b.squares);
    assert_eq!(a.turn, b.turn);
    assert_eq!(a.status, b.status);
}

#[test]
fn start_record_text() {
    let text = Board::new().serialize();
    assert_eq!(
        text,
        "Rw0Pw0----Pb0Rb0Nw0Pw0----Pb0Nb0Bw0Pw0----Pb0Bb0Qw0Pw0----Pb0Qb0Kw0Pw0----Pb0Kb0Bw0Pw0----Pb0Bb0Nw0Pw0----Pb0Nb0Rw0Pw0----Pb0Rb0//1/P/f"
    );
}

#[test]
fn round_trip_start() {
    let board = Board::new();
    let back = Board::deserialize(board.serialize()).unwrap();
    same_position(&board, &back);
    assert_eq!(back.moves.len(), 0);
}

#[test]
fn round_trip_after_moves() {
    let board = after(&["e4", "e5", "Nf3", "Nc6", "Bc4", "Bc5", "00", "d6", "c3", "Bg4"]);
    let text = board.serialize();
    let back = Board::deserialize(text.clone()).unwrap();
    same_position(&board, &back);
    assert_eq!(back.moves, board.moves);
    assert_eq!(back.serialize(), text);
}

#[test]
fn round_trip_mate() {
    let board = after(&["f3", "e5", "g4", "Qh4"]);
    let back = Board::deserialize(board.serialize()).unwrap();
    same_position(&board, &back);
    assert_eq!(back.status, Status::Black);
    assert!(back.check);
}

#[test]
fn malformed_records() {
    assert!(Board::deserialize(String::from("")).is_none());
    assert!(Board::deserialize(String::from("a/b/c/d")).is_none());
    let good = Board::new().serialize();
    assert!(Board::deserialize(good.replace("/1/", "/x/")).is_none());
    assert!(Board::deserialize(good.replace("/P/", "/Z/")).is_none());
    assert!(Board::deserialize(good.replace("/P/f", "/P/")).is_none());
    assert!(Board::deserialize(good.replace("Kb0", "Xb0")).is_none());
    assert!(Board::deserialize(good.replace("//", "/e2e/")).is_none());
    assert!(Board::deserialize(good.replace("//", "/e2z4/")).is_none());
    assert!(Board::deserialize(good[3..].to_string()).is_none());
}

#[test]
fn record_fields_are_read() {
    let good = Board::new().serialize();
    let board = Board::deserialize(good.replace("//1/P/f", "/e2e4/2/P/t")).unwrap();
    assert_eq!(board.turn, 2);
    assert!(board.draw_offer);
    assert_eq!(board.moves, vec![Move::new(sq(4, 1), sq(4, 3), None)]);
    assert_eq!(board.which_color(), PieceColor::Black);
    let board = Board::deserialize(good.replace("/P/f", "/W/f")).unwrap();
    assert_eq!(board.status, Status::White);
}

#[test]
fn piece_records() {
    let king = Piece { kind: PieceKind::King, color: PieceColor::White, previous: 12 };
    assert_eq!(king.serialize(), "Kw12");
    assert_eq!(Piece::deserialize(String::from("Kw12")), Some(king));
    assert_eq!(Piece::empty().serialize(), "-");
    assert_eq!(Piece::deserialize(String::from("-")), Some(Piece::empty()));
    assert_eq!(
        Piece::deserialize(String::from("Pb+7")),
        Some(Piece { kind: PieceKind::Pawn, color: PieceColor::Black, previous: 7 })
    );
    assert_eq!(Piece::deserialize(String::from("Kw")), None);
    assert_eq!(Piece::deserialize(String::from("Xw1")), None);
    assert_eq!(Piece::deserialize(String::from("Kx1")), None);
    assert_eq!(Piece::deserialize(String::from("Kwa")), None);
    assert_eq!(Piece::deserialize(String::from("Kw99999999999999999999999")), None);
}

#[test]
fn move_records() {
    let mv = Move::new_normal(sq(4, 1), sq(4, 3));
    assert_eq!(mv.serialize(), "e2e4");
    assert_eq!(Move::deserialize(String::from("e2e4")), Some(mv));
    assert_eq!(Move::deserialize(String::from("e2e")), None);
    assert_eq!(Move::deserialize(String::from("e2e9")), None);
    let promo = Move::new_promotion(sq(0, 6), sq(0, 7), PieceKind::Queen).unwrap();
    assert_eq!(promo.serialize(), "a7a8");
    assert_eq!(Move::deserialize(promo.serialize()).unwrap().promotion, None);
}

#[test]
fn status_records() {
    assert_eq!(Status::Playing.serialize(), "P");
    assert_eq!(Status::White.serialize(), "W");
    assert_eq!(Status::Black.serialize(), "B");
    assert_eq!(Status::Draw.serialize(), "D");
    assert_eq!(Status::deserialize(String::from("D")), Some(Status::Draw));
    assert_eq!(Status::deserialize(String::from("DD")), None);
    assert_eq!(Status::deserialize(String::from("x")), None);
}
