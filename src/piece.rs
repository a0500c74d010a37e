use vstd::prelude::*;
use vstd::string::*;

verus! {

/// The kind of a piece; an empty square holds a piece of kind `Empty`.
#[derive(Debug, Clone, Copy, PartialEq, Eq, Hash, Structural)]
pub enum PieceKind {
    Empty,
    King,
    Queen,
    Bishop,
    Knight,
    Rook,
    Pawn,
}

#[derive(Debug, Clone, Copy, PartialEq, Eq, Hash, Structural)]
pub enum PieceColor {
    White,
    Black,
}

/// A piece on a square. `previous` is the turn on which the piece last moved,
/// 0 when it never has.
#[derive(Debug, Clone, Copy, PartialEq, Eq, Hash, Structural)]
pub struct Piece {
    pub kind: PieceKind,
    pub color: PieceColor,
    pub previous: usize,
}

/// Whether a character beyond ASCII has the Unicode `Uppercase` property.
pub uninterp spec fn unicode_uppercase(c: char) -> bool;

/// Upper case as `char::is_uppercase` decides it: `A` to `Z` among ASCII
/// characters, the Unicode `Uppercase` property beyond.
pub open spec fn is_upper(c: char) -> bool {
    ('A' <= c <= 'Z') || (c as u32 > 127 && unicode_uppercase(c))
}

/// Relies on `char::is_uppercase`, which answers `A` to `Z` for ASCII
/// characters and the Unicode `Uppercase` property for the others.
#[verifier::external_body]
pub(crate) fn upper_case(c: char) -> (r: bool)
    ensures
        r == (('A' <= c <= 'Z') || (c as u32 > 127 && unicode_uppercase(c))),
{
    c.is_uppercase()
}

/// The letter of a kind in move notation; a pawn has none.
pub open spec fn kind_letter(k: PieceKind) -> Seq<char> {
    match k {
        PieceKind::Empty => seq![],
        PieceKind::King => seq!['K'],
        PieceKind::Queen => seq!['Q'],
        PieceKind::Bishop => seq!['B'],
        PieceKind::Knight => seq!['N'],
        PieceKind::Rook => seq!['R'],
        PieceKind::Pawn => seq![],
    }
}

/// The kind named by a letter of move notation (nothing, or `P`, is a pawn).
pub open spec fn kind_of_letter(c: char) -> Option<PieceKind> {
    if c == 'K' {
        Some(PieceKind::King)
    } else if c == 'Q' {
        Some(PieceKind::Queen)
    } else if c == 'B' {
        Some(PieceKind::Bishop)
    } else if c == 'N' {
        Some(PieceKind::Knight)
    } else if c == 'R' {
        Some(PieceKind::Rook)
    } else if c == 'P' {
        Some(PieceKind::Pawn)
    } else {
        None
    }
}

pub open spec fn kind_of_notation(s: Seq<char>) -> Option<PieceKind> {
    if s.len() == 0 {
        Some(PieceKind::Pawn)
    } else if s.len() == 1 {
        kind_of_letter(s[0])
    } else {
        None
    }
}

pub open spec fn opposite_color(c: PieceColor) -> PieceColor {
    match c {
        PieceColor::White => PieceColor::Black,
        PieceColor::Black => PieceColor::White,
    }
}

/// The symbol of a piece on screen: a chess glyph, or a plain letter.
pub open spec fn piece_symbol(p: Piece, unicode: bool) -> Seq<char> {
    if p.kind == PieceKind::Empty {
        seq!['-']
    } else if !unicode {
        match p.kind {
            PieceKind::King => seq!['K'],
            PieceKind::Queen => seq!['Q'],
            PieceKind::Bishop => seq!['B'],
            PieceKind::Knight => seq!['N'],
            PieceKind::Rook => seq!['R'],
            _ => seq!['P'],
        }
    } else if p.color == PieceColor::White {
        match p.kind {
            PieceKind::King => seq!['♔'],
            PieceKind::Queen => seq!['♕'],
            PieceKind::Bishop => seq!['♗'],
            PieceKind::Knight => seq!['♘'],
            PieceKind::Rook => seq!['♖'],
            _ => seq!['♙'],
        }
    } else {
        match p.kind {
            PieceKind::King => seq!['♚'],
            PieceKind::Queen => seq!['♛'],
            PieceKind::Bishop => seq!['♝'],
            PieceKind::Knight => seq!['♞'],
            PieceKind::Rook => seq!['♜'],
            _ => seq!['♟'],
        }
    }
}

impl Piece {
    pub open spec fn friend_of(self, color: PieceColor) -> bool {
        self.kind != PieceKind::Empty && self.color == color
    }

    pub open spec fn enemy_of(self, color: PieceColor) -> bool {
        self.kind != PieceKind::Empty && self.color != color
    }

    pub open spec fn replaceable_by(self, color: PieceColor) -> bool {
        self.kind == PieceKind::Empty || self.color != color
    }

    pub open spec fn blank() -> Piece {
        Piece { kind: PieceKind::Empty, color: PieceColor::White, previous: 0 }
    }
}

impl PieceKind {
    pub fn is_empty(&self) -> (r: bool)
        ensures
            r == (*self == PieceKind::Empty),
    {
        matches!(self, PieceKind::Empty)
    }

    pub fn to_notation(&self) -> (r: Option<&'static str>)
        ensures
            r.is_none() == (*self == PieceKind::Empty),
            r.is_some() ==> r.unwrap()@ == kind_letter(*self),
    {
        let r = match self {
            PieceKind::Empty => None,
            PieceKind::King => Some("K"),
            PieceKind::Queen => Some("Q"),
            PieceKind::Bishop => Some("B"),
            PieceKind::Knight => Some("N"),
            PieceKind::Rook => Some("R"),
            PieceKind::Pawn => Some(""),
        };
        proof {
            reveal_strlit("K");
            reveal_strlit("Q");
            reveal_strlit("B");
            reveal_strlit("N");
            reveal_strlit("R");
            reveal_strlit("");
        }
        r
    }

    pub fn from_letter(c: char) -> (r: Option<PieceKind>)
        ensures
            r == kind_of_letter(c),
    {
        match c {
            'K' => Some(PieceKind::King),
            'Q' => Some(PieceKind::Queen),
            'B' => Some(PieceKind::Bishop),
            'N' => Some(PieceKind::Knight),
            'R' => Some(PieceKind::Rook),
            'P' => Some(PieceKind::Pawn),
            _ => None,
        }
    }

    pub fn from_notation(notation: &str) -> (r: Option<PieceKind>)
        ensures
            r == kind_of_notation(notation@),
    {
        let n = notation.unicode_len();
        if n == 0 {
            Some(PieceKind::Pawn)
        } else if n == 1 {
            PieceKind::from_letter(notation.get_char(0))
        } else {
            None
        }
    }
}

impl PieceColor {
    pub fn opposite(&self) -> (r: PieceColor)
        ensures
            r == opposite_color(*self),
    {
        match self {
            PieceColor::White => PieceColor::Black,
            PieceColor::Black => PieceColor::White,
        }
    }

    pub fn name(&self) -> (r: &'static str)
        ensures
            *self == PieceColor::White ==> r@ == seq!['W', 'h', 'i', 't', 'e'],
            *self == PieceColor::Black ==> r@ == seq!['B', 'l', 'a', 'c', 'k'],
    {
        proof {
            reveal_strlit("White");
            reveal_strlit("Black");
        }
        match self {
            PieceColor::White => "White",
            PieceColor::Black => "Black",
        }
    }
}

impl Piece {
    pub fn new(kind: PieceKind, color: PieceColor) -> (r: Piece)
        ensures
            r == (Piece { kind, color, previous: 0 }),
    {
        Piece { kind, color, previous: 0 }
    }

    pub fn empty() -> (r: Piece)
        ensures
            r == Piece::blank(),
    {
        Piece { kind: PieceKind::Empty, color: PieceColor::White, previous: 0 }
    }

    /// The symbol that shows this piece: a chess glyph when `unicode` is set,
    /// else its letter; `-` for an empty square.
    pub fn unicode(&self, unicode: bool) -> (r: &'static str)
        ensures
            r@ == piece_symbol(*self, unicode),
    {
        proof {
            reveal_strlit("-");
            reveal_strlit("K");
            reveal_strlit("Q");
            reveal_strlit("B");
            reveal_strlit("N");
            reveal_strlit("R");
            reveal_strlit("P");
            reveal_strlit("♔");
            reveal_strlit("♕");
            reveal_strlit("♗");
            reveal_strlit("♘");
            reveal_strlit("♖");
            reveal_strlit("♙");
            reveal_strlit("♚");
            reveal_strlit("♛");
            reveal_strlit("♝");
            reveal_strlit("♞");
            reveal_strlit("♜");
            reveal_strlit("♟");
        }
        if self.is_empty() {
            "-"
        } else if !unicode {
            match self.kind {
                PieceKind::King => "K",
                PieceKind::Queen => "Q",
                PieceKind::Bishop => "B",
                PieceKind::Knight => "N",
                PieceKind::Rook => "R",
                _ => "P",
            }
        } else {
            match self.color {
                PieceColor::White => match self.kind {
                    PieceKind::King => "♔",
                    PieceKind::Queen => "♕",
                    PieceKind::Bishop => "♗",
                    PieceKind::Knight => "♘",
                    PieceKind::Rook => "♖",
                    _ => "♙",
                },
                PieceColor::Black => match self.kind {
                    PieceKind::King => "♚",
                    PieceKind::Queen => "♛",
                    PieceKind::Bishop => "♝",
                    PieceKind::Knight => "♞",
                    PieceKind::Rook => "♜",
                    _ => "♟",
                },
            }
        }
    }

    pub fn is_empty(&self) -> (r: bool)
        ensures
            r == (self.kind == PieceKind::Empty),
    {
        self.kind.is_empty()
    }

    pub fn is_color(&self, color: PieceColor) -> (r: bool)
        ensures
            r == (self.color == color),
    {
        self.color == color
    }

    pub fn is_kind(&self, kind: PieceKind) -> (r: bool)
        ensures
            r == (self.kind == kind),
    {
        self.kind == kind
    }

    pub fn is_friend(&self, color: PieceColor) -> (r: bool)
        ensures
            r == self.friend_of(color),
    {
        !self.is_empty() && self.is_color(color)
    }

    pub fn is_enemy(&self, color: PieceColor) -> (r: bool)
        ensures
            r == self.enemy_of(color),
    {
        !self.is_empty() && !self.is_color(color)
    }

    pub fn is_replaceable(&self, color: PieceColor) -> (r: bool)
        ensures
            r == self.replaceable_by(color),
    {
        self.is_empty() || !self.is_color(color)
    }
}

} // verus!
