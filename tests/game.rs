use termichess::{Board, Move, PieceColor, PieceKind, Square, SquareSet, Status};

fn sq(f: usize, r: usize) -> Square {
    Square::new(f, r).unwrap()
}

fn count(set: &SquareSet) -> usize {
    let mut n = 0;
    for f in 0..8 {
        for r in 0..8 {
            if set.contains(sq(f, r)) {
                n += 1;
            }
        }
    }
    n
}

fn play(board: &Board, text: &str) -> Board {
    let mv = board.translate(text).unwrap();
    board.perform(mv).unwrap()
}

fn play_all(texts: &[&str]) -> Board {
    let mut board = Board::new();
    for t in texts {
        board = play(&board, t);
    }
    board
}

/// A record with the given pieces and everything else empty.
fn record(pieces: &[(usize, usize, &str)], moves: &str, turn: usize) -> String {
    let mut s = String::new();
    for f in 0..8 {
        for r in 0..8 {
            match pieces.iter().find(|p| p.0 == f && p.1 == r) {
                Some(p) => s.push_str(p.2),
                None => s.push('-'),
            }
        }
    }
    format!("{}/{}/{}/P/f", s, moves, turn)
}

#[test]
fn start_position_basics() {
    let board = Board::new();
    assert_eq!(board.turn, 1);
    assert_eq!(board.which_color(), PieceColor::White);
    assert!(!board.is_check());
    assert_eq!(board.status, Status::Playing);
    for f in 0..8 {
        for r in 0..8 {
            let piece = board.get(sq(f, r));
            let n = count(&board.reachable[f][r]);
            match piece.kind {
                PieceKind::Pawn | PieceKind::Knight => assert_eq!(n, 2),
                _ => assert_eq!(n, 0),
            }
        }
    }
    assert_eq!(board.get(sq(4, 0)).kind, PieceKind::King);
    assert_eq!(board.get(sq(3, 7)).kind, PieceKind::Queen);
    assert_eq!(board.get(sq(3, 7)).color, PieceColor::Black);
}

#[test]
fn start_threatened_squares() {
    let board = Board::new();
    // Black pawns and knights reach rank 5 (index 5) and a6, c6, f6, h6.
    for f in 0..8 {
        assert!(board.is_threatened(sq(f, 5)));
        assert!(board.is_threatened(sq(f, 4)));
        assert!(!board.is_threatened(sq(f, 3)));
    }
}

#[test]
fn notation_e4_and_nf3() {
    let board = Board::new();
    let mv = board.translate("e4").unwrap();
    assert_eq!(mv, Move::new(sq(4, 1), sq(4, 3), None));
    let mv = board.translate("Nf3").unwrap();
    assert_eq!(mv, Move::new(sq(6, 0), sq(5, 2), None));
}

#[test]
fn perform_advances_turn_and_records_move() {
    let board = Board::new();
    let next = play(&board, "e4");
    assert_eq!(next.turn, 2);
    assert_eq!(next.which_color(), PieceColor::Black);
    assert_eq!(next.moves.len(), 1);
    assert_eq!(next.get(sq(4, 3)).kind, PieceKind::Pawn);
    assert_eq!(next.get(sq(4, 3)).previous, 1);
    assert!(next.get(sq(4, 1)).is_empty());
    // the board played from is untouched
    assert_eq!(board.turn, 1);
    assert_eq!(board.get(sq(4, 1)).kind, PieceKind::Pawn);
}

#[test]
fn illegal_move_into_check_is_refused() {
    // A king may not step onto a square that the enemy queen holds.
    let s = record(&[(4, 0, "Kw0"), (4, 7, "Kb0"), (3, 2, "Qb5")], "", 1);
    let board = Board::deserialize(s).unwrap();
    // d1 lies on the d-file that the queen on d3 holds
    assert!(board.perform(Move::new(sq(4, 0), sq(3, 0), None)).is_none());
    // e1 to f2 is safe
    assert!(board.perform(Move::new(sq(4, 0), sq(5, 1), None)).is_some());
}

#[test]
fn fools_mate_is_checkmate() {
    let board = play_all(&["f3", "e5", "g4", "Qh4"]);
    assert!(board.is_check());
    assert!(board.no_safe);
    assert_eq!(board.status, Status::Black);
}

#[test]
fn constructed_stalemate_is_draw() {
    // White king h1, black king f2, black queen g3, White to move.
    let s = record(&[(7, 0, "Kw5"), (5, 1, "Kb9"), (6, 2, "Qb8")], "", 11);
    let board = Board::deserialize(s).unwrap();
    assert!(!board.is_check());
    assert!(board.no_safe);
    assert_eq!(board.status, Status::Draw);
}

#[test]
fn castling_available_when_clear() {
    let s = record(
        &[(4, 0, "Kw0"), (7, 0, "Rw0"), (0, 0, "Rw0"), (4, 7, "Kb0")],
        "",
        1,
    );
    let board = Board::deserialize(s).unwrap();
    assert!(board.reachable[4][0].contains(sq(6, 0)));
    assert!(board.reachable[4][0].contains(sq(2, 0)));
    let mv = board.translate("00").unwrap();
    assert_eq!(mv, Move::new(sq(4, 0), sq(6, 0), None));
    let next = board.perform(mv).unwrap();
    assert_eq!(next.get(sq(6, 0)).kind, PieceKind::King);
    assert_eq!(next.get(sq(5, 0)).kind, PieceKind::Rook);
    assert!(next.get(sq(7, 0)).is_empty());
    let mv = board.translate("000").unwrap();
    let next = board.perform(mv).unwrap();
    assert_eq!(next.get(sq(2, 0)).kind, PieceKind::King);
    assert_eq!(next.get(sq(3, 0)).kind, PieceKind::Rook);
}

#[test]
fn moved_king_loses_castling() {
    let s = record(
        &[(4, 0, "Kw3"), (7, 0, "Rw0"), (0, 0, "Rw0"), (4, 7, "Kb0")],
        "",
        5,
    );
    let board = Board::deserialize(s).unwrap();
    assert!(!board.reachable[4][0].contains(sq(6, 0)));
    assert!(!board.reachable[4][0].contains(sq(2, 0)));
}

#[test]
fn moved_rook_loses_castling_on_its_side() {
    let s = record(
        &[(4, 0, "Kw0"), (7, 0, "Rw4"), (0, 0, "Rw0"), (4, 7, "Kb0")],
        "",
        9,
    );
    let board = Board::deserialize(s).unwrap();
    assert!(!board.reachable[4][0].contains(sq(6, 0)));
    assert!(board.reachable[4][0].contains(sq(2, 0)));
}

#[test]
fn castling_refused_through_threat() {
    // a black rook on f8 holds f1
    let s = record(
        &[(4, 0, "Kw0"), (7, 0, "Rw0"), (5, 7, "Rb0"), (4, 7, "Kb0")],
        "",
        1,
    );
    let board = Board::deserialize(s).unwrap();
    assert!(!board.reachable[4][0].contains(sq(6, 0)));
}

#[test]
fn en_passant_after_double_advance() {
    let board = play_all(&["e4", "a6", "e5", "d5"]);
    // the white pawn on e5 may take on d6
    assert!(board.reachable[4][4].contains(sq(3, 5)));
    assert_eq!(board.possible_en_passant(), Some(sq(3, 5)));
    // an en passant capture lands on an empty square, so it is written without `x`
    assert!(board.translate("exd6").is_err());
    let mv = board.translate("e5d6").unwrap();
    let next = board.perform(mv).unwrap();
    assert!(next.get(sq(3, 4)).is_empty());
    assert_eq!(next.get(sq(3, 5)).kind, PieceKind::Pawn);
    assert_eq!(next.get(sq(3, 5)).color, PieceColor::White);
}

#[test]
fn en_passant_expires_after_other_move() {
    let board = play_all(&["e4", "a6", "e5", "d5", "h3", "h6"]);
    assert!(!board.reachable[4][4].contains(sq(3, 5)));
    assert_eq!(board.possible_en_passant(), None);
}

#[test]
fn promotion_replaces_pawn() {
    let s = record(&[(0, 6, "Pw5"), (4, 0, "Kw0"), (4, 7, "Kb0")], "", 7);
    let board = Board::deserialize(s).unwrap();
    assert!(board.translate("a8").is_err());
    let mv = board.translate("a8=Q").unwrap();
    assert_eq!(mv, Move::new(sq(0, 6), sq(0, 7), Some(PieceKind::Queen)));
    let next = board.perform(mv).unwrap();
    assert_eq!(next.get(sq(0, 7)).kind, PieceKind::Queen);
    assert_eq!(next.get(sq(0, 7)).color, PieceColor::White);
    assert!(next.get(sq(0, 6)).is_empty());
}

#[test]
fn knight_and_bishop_reach() {
    let board = play_all(&["e4", "e5"]);
    // bishop f1 now reaches e2, d3, c4, b5, a6
    let set = &board.reachable[5][0];
    assert_eq!(count(set), 5);
    assert!(set.contains(sq(0, 5)));
    // queen d1 reaches e2, f3, g4, h5
    assert_eq!(count(&board.reachable[3][0]), 4);
    // king e1 reaches e2
    assert_eq!(count(&board.reachable[4][0]), 1);
}

#[test]
fn resign_and_draw_flags() {
    let mut board = Board::new();
    board.draw();
    assert!(board.draw_offer);
    assert_eq!(board.status, Status::Playing);
    board.decline_draw();
    assert!(!board.draw_offer);
    board.draw();
    board.draw();
    assert_eq!(board.status, Status::Draw);
    let mut board = Board::new();
    board.resign();
    assert_eq!(board.status, Status::Black);
}

#[test]
fn force_and_set() {
    let mut board = Board::new();
    assert!(board.force(sq(4, 3), sq(4, 4)).is_none());
    assert!(board.force(sq(6, 0), sq(5, 2)).is_some());
    assert_eq!(board.get(sq(5, 2)).kind, PieceKind::Knight);
    assert_eq!(board.get(sq(5, 2)).previous, 1);
    assert!(board.get(sq(6, 0)).is_empty());
    board.set(sq(0, 3), termichess::Piece::new(PieceKind::Rook, PieceColor::Black));
    assert_eq!(board.get(sq(0, 3)).kind, PieceKind::Rook);
}

#[test]
fn shortcut_finds_unique_piece() {
    let board = Board::new();
    assert_eq!(board.find_piece_shortcut('g', PieceKind::Knight), Some(sq(6, 0)));
    assert_eq!(board.find_piece_shortcut('1', PieceKind::Knight), None);
    assert_eq!(board.find_piece_shortcut('1', PieceKind::King), Some(sq(4, 0)));
    assert_eq!(board.find_piece_shortcut('z', PieceKind::King), None);
}

#[test]
fn en_passant_only_for_pawn_beside() {
    let board = play(&Board::new(), "e4");
    assert_eq!(board.possible_en_passant(), Some(sq(4, 2)));
    // White's own pawns on d2 and f2 do not reach e3
    assert!(!board.reachable[3][1].contains(sq(4, 2)));
    assert!(!board.reachable[5][1].contains(sq(4, 2)));
    assert_eq!(count(&board.reachable[3][1]), 2);
    // a black pawn on d4, beside the pawn on e4, does
    let s = record(
        &[(4, 3, "Pw1"), (3, 3, "Pb4"), (4, 0, "Kw0"), (4, 7, "Kb0")],
        "e2e4",
        2,
    );
    let board = Board::deserialize(s).unwrap();
    assert!(board.reachable[3][3].contains(sq(4, 2)));
    // a black pawn on d5 is not beside it
    let s = record(
        &[(4, 3, "Pw1"), (3, 4, "Pb4"), (4, 0, "Kw0"), (4, 7, "Kb0")],
        "e2e4",
        2,
    );
    let board = Board::deserialize(s).unwrap();
    assert!(!board.reachable[3][4].contains(sq(4, 2)));
}

#[test]
fn cornered_king_stalemate() {
    // Black king h8, White queen g6, White king a1, Black to move.
    let s = record(&[(7, 7, "Kb5"), (6, 5, "Qw4"), (0, 0, "Kw3")], "", 10);
    let board = Board::deserialize(s).unwrap();
    assert!(!board.is_check());
    assert!(board.no_safe);
    assert_eq!(board.status, Status::Draw);
}
