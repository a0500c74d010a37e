use termichess::{parse_raw, Command, Config, Move, Piece, PieceColor, PieceKind, Square};

#[test]
fn square_notation() {
    let e4 = Square::new(4, 3).unwrap();
    assert_eq!(e4.to_notation(), "e4");
    assert_eq!(Square::from_notation("e4"), Some(e4));
    assert_eq!(Square::from_notation("i4"), None);
    assert_eq!(Square::from_notation("e9"), None);
    assert_eq!(Square::from_notation("e44"), None);
    assert_eq!(Square::new(8, 0), None);
    assert_eq!(e4.file(), 4);
    assert_eq!(e4.rank(), 3);
    assert_eq!(Square::new(0, 0).unwrap().to_notation(), "a1");
    assert_eq!(Square::new(7, 7).unwrap().to_notation(), "h8");
}

#[test]
fn square_offset() {
    let e4 = Square::new(4, 3).unwrap();
    assert_eq!(e4.offset(1, 2), Square::new(5, 5));
    assert_eq!(e4.offset(-4, -3), Square::new(0, 0));
    assert_eq!(e4.offset(4, 0), None);
    assert_eq!(e4.offset(0, -4), None);
    assert_eq!(e4.offset(isize::MAX, 0), None);
}

#[test]
fn kinds_and_colors() {
    assert!(PieceKind::Empty.is_empty());
    assert!(!PieceKind::Pawn.is_empty());
    assert_eq!(PieceKind::Knight.to_notation(), Some("N"));
    assert_eq!(PieceKind::Pawn.to_notation(), Some(""));
    assert_eq!(PieceKind::Empty.to_notation(), None);
    assert_eq!(PieceKind::from_notation("R"), Some(PieceKind::Rook));
    assert_eq!(PieceKind::from_notation(""), Some(PieceKind::Pawn));
    assert_eq!(PieceKind::from_notation("P"), Some(PieceKind::Pawn));
    assert_eq!(PieceKind::from_notation("X"), None);
    assert_eq!(PieceKind::from_notation("KQ"), None);
    assert_eq!(PieceColor::White.opposite(), PieceColor::Black);
    assert_eq!(PieceColor::Black.name(), "Black");
}

#[test]
fn piece_predicates() {
    let p = Piece::new(PieceKind::Bishop, PieceColor::Black);
    assert_eq!(p.previous, 0);
    assert!(p.is_friend(PieceColor::Black));
    assert!(p.is_enemy(PieceColor::White));
    assert!(p.is_replaceable(PieceColor::White));
    assert!(!p.is_replaceable(PieceColor::Black));
    assert!(p.is_kind(PieceKind::Bishop));
    assert!(p.is_color(PieceColor::Black));
    let e = Piece::empty();
    assert!(e.is_empty());
    assert!(!e.is_friend(PieceColor::White));
    assert!(!e.is_enemy(PieceColor::Black));
    assert!(e.is_replaceable(PieceColor::White));
}

#[test]
fn piece_symbols() {
    let p = Piece::new(PieceKind::Queen, PieceColor::Black);
    assert_eq!(p.unicode(true), "♛");
    assert_eq!(p.unicode(false), "Q");
    assert_eq!(Piece::new(PieceKind::King, PieceColor::White).unicode(true), "♔");
    assert_eq!(Piece::empty().unicode(true), "-");
}

#[test]
fn move_constructors() {
    let a = Square::new(0, 6).unwrap();
    let b = Square::new(0, 7).unwrap();
    assert_eq!(Move::new_normal(a, b).promotion, None);
    assert_eq!(Move::new_promotion(a, b, PieceKind::Rook).unwrap().promotion, Some(PieceKind::Rook));
    assert_eq!(Move::new_promotion(a, b, PieceKind::King), None);
    assert_eq!(Move::new_promotion(a, b, PieceKind::Pawn), None);
}

#[test]
fn commands() {
    assert_eq!(parse_raw(String::from("resign")), Command::Resign);
    assert_eq!(parse_raw(String::from("quit")), Command::Resign);
    assert_eq!(parse_raw(String::from("exit")), Command::Resign);
    assert_eq!(parse_raw(String::from("draw")), Command::Draw);
    assert_eq!(parse_raw(String::from("chat  hello there ")), Command::Chat(String::from("hello there")));
    assert_eq!(parse_raw(String::from("chat")), Command::Chess(String::from("cha")));
    assert_eq!(parse_raw(String::from(" N f3!")), Command::Chess(String::from("Nf3")));
    assert_eq!(parse_raw(String::from("e9 O-O")), Command::Chess(String::from("e")));
}

#[test]
fn config_spacing() {
    let c = Config::default();
    assert!(!c.unicode);
    assert_eq!(c.spacing, 3);
    assert_eq!(c.address, "http://127.0.0.1:8080");
    assert_eq!(c.get_spaces(), "  ");
    let wide = Config { unicode: false, address: String::new(), spacing: 6 }.modify();
    assert_eq!(wide.spacing, 3);
    let glyphs = Config { unicode: true, address: String::new(), spacing: 6 }.modify();
    assert_eq!(glyphs.spacing, 6);
    assert_eq!(glyphs.get_spaces(), "     ");
}
