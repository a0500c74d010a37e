use termichess::notation::{
    MSG_AMBIGUOUS, MSG_CANNOT_MOVE, MSG_INCOMPLETE_SQUARE, MSG_INVALID_PIECE,
    MSG_INVALID_PROMOTION, MSG_LAST_RANK_ONLY, MSG_MUST_PROMOTE, MSG_NOTHING_TO_TAKE,
    MSG_NOT_EMPTY, MSG_NO_PIECE, MSG_NO_TARGET, MSG_ONLY_PAWNS, MSG_PIECE_REQUIRED,
    MSG_PROMOTION_MISSING, MSG_SHORTCUT, MSG_SQUARE_REQUIRED,
};
use termichess::{Board, Move, NotationError, PieceKind, Square};

fn sq(f: usize, r: usize) -> Square {
    Square::new(f, r).unwrap()
}

fn err(board: &Board, text: &str) -> String {
    board.translate(text).unwrap_err().msg
}

fn after(texts: &[&str]) -> Board {
    let mut board = Board::new();
    for t in texts {
        let mv = board.translate(t).unwrap();
        board = board.perform(mv).unwrap();
    }
    board
}

fn record(pieces: &[(usize, usize, &str)], turn: usize) -> String {
    let mut s = String::new();
    for f in 0..8 {
        for r in 0..8 {
            match pieces.iter().find(|p| p.0 == f && p.1 == r) {
                Some(p) => s.push_str(p.2),
                None => s.push('-'),
            }
        }
    }
    format!("{}//{}/P/f", s, turn)
}

#[test]
fn notation_error_new_keeps_message() {
    assert_eq!(NotationError::new("abc").msg, "abc");
}

#[test]
fn explicit_origin_and_shortcut_origin() {
    let board = Board::new();
    assert_eq!(board.translate("e2e4").unwrap(), Move::new(sq(4, 1), sq(4, 3), None));
    assert_eq!(board.translate("Ngf3").unwrap(), Move::new(sq(6, 0), sq(5, 2), None));
    assert_eq!(board.translate("Ng1f3").unwrap(), Move::new(sq(6, 0), sq(5, 2), None));
}

#[test]
fn lexical_errors() {
    let board = Board::new();
    assert_eq!(err(&board, ""), MSG_PIECE_REQUIRED);
    assert_eq!(err(&board, "Xe4"), MSG_INVALID_PIECE);
    assert_eq!(err(&board, "N"), MSG_SQUARE_REQUIRED);
    assert_eq!(err(&board, "e"), MSG_INCOMPLETE_SQUARE);
    assert_eq!(err(&board, "Nd"), MSG_INCOMPLETE_SQUARE);
    assert_eq!(err(&board, "Nax3"), MSG_SHORTCUT);
    assert_eq!(err(&board, "N1f3"), MSG_SHORTCUT);
    assert_eq!(err(&board, "x"), MSG_NO_TARGET);
    assert_eq!(err(&board, "e4="), MSG_PROMOTION_MISSING);
    assert_eq!(err(&board, "e4=Z"), MSG_INVALID_PROMOTION);
}

#[test]
fn resolution_errors() {
    let board = Board::new();
    assert_eq!(err(&board, "e5"), MSG_NO_PIECE);
    assert_eq!(err(&board, "e2e5"), MSG_CANNOT_MOVE);
    assert_eq!(err(&board, "xe4"), MSG_NOTHING_TO_TAKE);
    assert_eq!(err(&board, "e4=Q"), MSG_LAST_RANK_ONLY);
    assert_eq!(err(&board, "Nf3=Q"), MSG_ONLY_PAWNS);
    let board = after(&["e4", "d5"]);
    assert_eq!(err(&board, "d5"), MSG_NOT_EMPTY);
    assert_eq!(board.translate("exd5").unwrap(), Move::new(sq(4, 3), sq(3, 4), None));
}

#[test]
fn ambiguous_origin() {
    // two white rooks on a1 and h1 both reach d1
    let s = record(&[(0, 0, "Rw3"), (7, 0, "Rw3"), (4, 1, "Kw2"), (4, 7, "Kb0")], 9);
    let board = Board::deserialize(s).unwrap();
    assert_eq!(err(&board, "Rd1"), MSG_AMBIGUOUS);
    assert_eq!(board.translate("Rad1").unwrap(), Move::new(sq(0, 0), sq(3, 0), None));
    assert_eq!(board.translate("Rhd1").unwrap(), Move::new(sq(7, 0), sq(3, 0), None));
}

#[test]
fn promotion_errors() {
    let s = record(&[(0, 6, "Pw5"), (4, 0, "Kw0"), (4, 7, "Kb0")], 7);
    let board = Board::deserialize(s).unwrap();
    assert_eq!(err(&board, "a8"), MSG_MUST_PROMOTE);
    assert_eq!(err(&board, "a8=K"), MSG_INVALID_PROMOTION);
    assert_eq!(err(&board, "a8=P"), MSG_INVALID_PROMOTION);
    assert_eq!(
        board.translate("a8=N").unwrap(),
        Move::new(sq(0, 6), sq(0, 7), Some(PieceKind::Knight))
    );
}

#[test]
fn split_notation_parts() {
    let board = Board::new();
    let n = board.split_notation("Nxf3=Q").unwrap();
    assert_eq!(n.piece, PieceKind::Knight);
    assert!(n.take);
    assert_eq!(n.from, None);
    assert_eq!(n.to, sq(5, 2));
    assert_eq!(n.promotion, Some(PieceKind::Queen));
    let n = board.split_notation("00").unwrap();
    assert_eq!(n.from, Some(sq(4, 0)));
    assert_eq!(n.to, sq(6, 0));
    let board = after(&["e4"]);
    let n = board.split_notation("000").unwrap();
    assert_eq!(n.from, Some(sq(4, 7)));
    assert_eq!(n.to, sq(2, 7));
}

#[test]
fn rank_digit_names_origin() {
    let s = record(&[(0, 0, "Rw3"), (0, 4, "Rw3"), (7, 1, "Kw2"), (4, 7, "Kb0")], 9);
    let board = Board::deserialize(s).unwrap();
    assert_eq!(board.translate("R1e1").unwrap(), Move::new(sq(0, 0), sq(4, 0), None));
    assert_eq!(err(&board, "Ra3"), MSG_AMBIGUOUS);
    assert_eq!(board.translate("R5a3").unwrap(), Move::new(sq(0, 4), sq(0, 2), None));
    assert_eq!(board.translate("R1a3").unwrap(), Move::new(sq(0, 0), sq(0, 2), None));
    assert_eq!(err(&board, "R2a3"), MSG_SHORTCUT);
}

#[test]
fn non_ascii_capital_is_a_piece_code() {
    let board = Board::new();
    assert_eq!(err(&board, "\u{c9}e4"), MSG_INVALID_PIECE);
    assert_eq!(err(&board, "\u{e9}4"), MSG_NO_TARGET);
}
