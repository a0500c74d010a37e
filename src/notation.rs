//! Reading a move written in short notation ("e4", "Nf3", "exd5", "Rae1",
//! "e8=Q", "00", "000") against a board.
use vstd::prelude::*;
use vstd::string::*;
use crate::board::Board;
use crate::moves::{promotable, Move};
use crate::piece::{is_upper, kind_of_letter, upper_case, PieceColor, PieceKind};
use crate::update::before;
use crate::square::{file_from_char, file_of_char, rank_from_char, rank_of_char, Square};

verus! {

pub const MSG_PIECE_REQUIRED: &'static str = "Piece code required";

pub const MSG_INVALID_PIECE: &'static str = "Invalid piece code";

pub const MSG_SQUARE_REQUIRED: &'static str = "At least one square code is required";

pub const MSG_INCOMPLETE_SQUARE: &'static str = "Incomplete square code";

pub const MSG_SHORTCUT: &'static str =
    "Shortcut square cannot be found, it either is ambiguous or does not exist";

pub const MSG_NO_TARGET: &'static str = "Target square is not specified";

pub const MSG_PROMOTION_MISSING: &'static str = "Promotion code is missing";

pub const MSG_INVALID_PROMOTION: &'static str = "Invalid promotion code";

pub const MSG_AMBIGUOUS: &'static str = "Ambiguous move, please specify the source square";

pub const MSG_NO_PIECE: &'static str = "No piece can move to the target square";

pub const MSG_CANNOT_MOVE: &'static str = "The explicitly specified piece cannot move to the target square";

pub const MSG_NOTHING_TO_TAKE: &'static str = "No piece to take, remove 'x' from the notation";

pub const MSG_NOT_EMPTY: &'static str = "Target square is not empty, add 'x' in between to take the piece";

pub const MSG_ONLY_PAWNS: &'static str = "Only pawns can be promoted";

pub const MSG_LAST_RANK_ONLY: &'static str =
    "Pawns can only be promoted on the last rank, remove '=...' from the notation";

pub const MSG_MUST_PROMOTE: &'static str =
    "Pawns must be promoted on the last rank, add '=...' to the notation";

/// Why a notation was refused, in words.
#[derive(Debug, Clone)]
pub struct NotationError {
    pub msg: String,
}

impl NotationError {
    pub fn new(msg: &str) -> (r: NotationError)
        ensures
            r.msg@ == msg@,
    {
        NotationError { msg: msg.to_owned() }
    }
}

/// A notation split into its parts, squares resolved but the origin possibly
/// left open.
#[derive(Debug, Clone, Copy, PartialEq, Eq, Hash, Structural)]
pub struct Notation {
    pub piece: PieceKind,
    pub from: Option<Square>,
    pub take: bool,
    pub to: Square,
    pub promotion: Option<PieceKind>,
}

/// An exec result agrees with a spec result whose error is a message.
pub open spec fn agrees<T>(r: Result<T, NotationError>, s: Result<T, Seq<char>>) -> bool {
    match r {
        Ok(v) => s == Ok::<T, Seq<char>>(v),
        Err(e) => s == Err::<T, Seq<char>>(e.msg@),
    }
}

/// The king of the side to move from file 4 of its home rank to `file`.
pub open spec fn castle_notation(b: Board, file: usize) -> Notation {
    let rank: usize = if b.side() == PieceColor::White {
        0
    } else {
        7
    };
    Notation {
        piece: PieceKind::King,
        from: Some(Square(4, rank)),
        take: false,
        to: Square(file, rank),
        promotion: None,
    }
}

/// A square code at `cur`, if one starts there: a file letter and a rank
/// digit, or a file letter or rank digit alone naming the one piece of
/// `kind` of the side to move on that file or rank. Gives the square and where reading goes on.
pub open spec fn square_code(b: Board, s: Seq<char>, cur: int, kind: PieceKind) -> Result<
    (Option<Square>, int),
    Seq<char>,
> {
    if 0 <= cur < s.len() && file_of_char(s[cur]).is_some() {
        if cur + 1 >= s.len() {
            Err(MSG_INCOMPLETE_SQUARE@)
        } else if rank_of_char(s[cur + 1]).is_some() {
            Ok(
                (
                    Some(Square(file_of_char(s[cur]).unwrap(), rank_of_char(s[cur + 1]).unwrap())),
                    cur + 2,
                ),
            )
        } else {
            match b.shortcut_of(s[cur], kind) {
                Some(q) => Ok((Some(q), cur + 1)),
                None => Err(MSG_SHORTCUT@),
            }
        }
    } else if 0 <= cur < s.len() && rank_of_char(s[cur]).is_some() {
        match b.shortcut_of(s[cur], kind) {
            Some(q) => Ok((Some(q), cur + 1)),
            None => Err(MSG_SHORTCUT@),
        }
    } else {
        Ok((None, cur))
    }
}

/// The promotion suffix at `cur`, if any: `=` and a piece letter.
pub open spec fn promotion_code(s: Seq<char>, cur: int) -> Result<Option<PieceKind>, Seq<char>> {
    if 0 <= cur < s.len() && s[cur] == '=' {
        if cur + 1 >= s.len() {
            Err(MSG_PROMOTION_MISSING@)
        } else {
            match kind_of_letter(s[cur + 1]) {
                Some(k) => Ok(Some(k)),
                None => Err(MSG_INVALID_PROMOTION@),
            }
        }
    } else {
        Ok(None)
    }
}

/// The parts of a notation: an optional piece letter, an optional origin, an
/// optional `x`, a destination, an optional promotion; `00` and `000` castle.
pub open spec fn parse_notation(b: Board, s: Seq<char>) -> Result<Notation, Seq<char>> {
    if s == seq!['0', '0'] {
        Ok(castle_notation(b, 6))
    } else if s == seq!['0', '0', '0'] {
        Ok(castle_notation(b, 2))
    } else if s.len() == 0 {
        Err(MSG_PIECE_REQUIRED@)
    } else if is_upper(s[0]) && kind_of_letter(s[0]).is_none() {
        Err(MSG_INVALID_PIECE@)
    } else {
        let piece = if is_upper(s[0]) {
            kind_of_letter(s[0]).unwrap()
        } else {
            PieceKind::Pawn
        };
        let cur0: int = if is_upper(s[0]) {
            1
        } else {
            0
        };
        if cur0 >= s.len() {
            Err(MSG_SQUARE_REQUIRED@)
        } else {
            match square_code(b, s, cur0, piece) {
                Err(m) => Err(m),
                Ok((first, cur1)) => {
                    let take = cur1 < s.len() && s[cur1] == 'x';
                    let cur2 = if take {
                        cur1 + 1
                    } else {
                        cur1
                    };
                    match square_code(b, s, cur2, piece) {
                        Err(m) => Err(m),
                        Ok((second, cur3)) => {
                            if first.is_none() && second.is_none() {
                                Err(MSG_NO_TARGET@)
                            } else {
                                let from = if second.is_some() {
                                    first
                                } else {
                                    None
                                };
                                let to = if second.is_some() {
                                    second.unwrap()
                                } else {
                                    first.unwrap()
                                };
                                match promotion_code(s, cur3) {
                                    Err(m) => Err(m),
                                    Ok(promotion) => Ok(
                                        Notation { piece, from, take, to, promotion },
                                    ),
                                }
                            }
                        },
                    }
                },
            }
        }
    }
}

/// A piece of the side to move, of the notation's kind, whose reachable set
/// holds the destination.
pub open spec fn origin_candidate(b: Board, n: Notation, q: Square) -> bool {
    &&& q.wf()
    &&& b.grid()(q).friend_of(b.side())
    &&& b.grid()(q).kind == n.piece
    &&& b.reachable[q.0 as int][q.1 as int].has(n.to)
}

/// The origin of the move: the one given, if it reaches the destination, or
/// else the one candidate.
pub open spec fn resolve_origin(b: Board, n: Notation) -> Result<Square, Seq<char>> {
    match n.from {
        Some(f) => if b.reachable[f.0 as int][f.1 as int].has(n.to) {
            Ok(f)
        } else {
            Err(MSG_CANNOT_MOVE@)
        },
        None => if !exists|q: Square| #[trigger] origin_candidate(b, n, q) {
            Err(MSG_NO_PIECE@)
        } else if exists|q: Square|
            #[trigger] origin_candidate(b, n, q) && forall|p: Square|
                #[trigger] origin_candidate(b, n, p) ==> p == q {
            Ok(
                choose|q: Square|
                    #[trigger] origin_candidate(b, n, q) && forall|p: Square|
                        #[trigger] origin_candidate(b, n, p) ==> p == q,
            )
        } else {
            Err(MSG_AMBIGUOUS@)
        },
    }
}

/// The move that a split notation names on the board, or why there is none:
/// `x` must match an enemy piece on the destination, and a promotion is
/// given exactly when a pawn reaches the last rank.
pub open spec fn resolve(b: Board, n: Notation) -> Result<Move, Seq<char>> {
    match resolve_origin(b, n) {
        Err(m) => Err(m),
        Ok(from) => {
            let target = b.grid()(n.to);
            let piece = b.grid()(from);
            let last_rank = n.to.1 == 0 || n.to.1 == 7;
            if n.take && (target.kind == PieceKind::Empty || target.color == b.side()) {
                Err(MSG_NOTHING_TO_TAKE@)
            } else if !n.take && target.kind != PieceKind::Empty {
                Err(MSG_NOT_EMPTY@)
            } else {
                match n.promotion {
                    Some(k) => if piece.kind != PieceKind::Pawn {
                        Err(MSG_ONLY_PAWNS@)
                    } else if !last_rank {
                        Err(MSG_LAST_RANK_ONLY@)
                    } else if !promotable(k) {
                        Err(MSG_INVALID_PROMOTION@)
                    } else {
                        Ok(Move { from, to: n.to, promotion: Some(k) })
                    },
                    None => if piece.kind == PieceKind::Pawn && last_rank {
                        Err(MSG_MUST_PROMOTE@)
                    } else {
                        Ok(Move { from, to: n.to, promotion: None })
                    },
                }
            }
        },
    }
}

/// Two different candidates leave the origin ambiguous.
proof fn lemma_two_candidates(b: Board, n: Notation, c: Square, d: Square)
    requires
        n.from.is_none(),
        origin_candidate(b, n, c),
        origin_candidate(b, n, d),
        c != d,
    ensures
        resolve_origin(b, n) == Err::<Square, Seq<char>>(MSG_AMBIGUOUS@),
{
    assert(!exists|q: Square|
        #[trigger] origin_candidate(b, n, q) && forall|p: Square|
            #[trigger] origin_candidate(b, n, p) ==> p == q);
}

/// One candidate alone is the origin.
proof fn lemma_one_candidate(b: Board, n: Notation, c: Square)
    requires
        n.from.is_none(),
        origin_candidate(b, n, c),
        forall|p: Square| #[trigger] origin_candidate(b, n, p) ==> p == c,
    ensures
        resolve_origin(b, n) == Ok::<Square, Seq<char>>(c),
{
    let d = choose|q: Square|
        #[trigger] origin_candidate(b, n, q) && forall|p: Square|
            #[trigger] origin_candidate(b, n, p) ==> p == q;
    assert(origin_candidate(b, n, d));
}

pub open spec fn translate_notation(b: Board, s: Seq<char>) -> Result<Move, Seq<char>> {
    match parse_notation(b, s) {
        Err(m) => Err(m),
        Ok(n) => resolve(b, n),
    }
}

impl Board {
    /// Reads the square code at `cur`, if one starts there.
    fn read_square(&self, s: &str, len: usize, cur: usize, kind: PieceKind) -> (r: Result<
        (Option<Square>, usize),
        NotationError,
    >)
        requires
            len == s@.len(),
            cur <= len,
        ensures
            r matches Ok((q, c)) ==> square_code(*self, s@, cur as int, kind) == Ok::<
                (Option<Square>, int),
                Seq<char>,
            >((q, c as int)) && c <= len && (q matches Some(sq) ==> sq.wf()),
            r matches Err(e) ==> square_code(*self, s@, cur as int, kind) == Err::<
                (Option<Square>, int),
                Seq<char>,
            >(e.msg@),
    {
        if cur < len {
            let c = s.get_char(cur);
            if let Some(f) = file_from_char(c) {
                if cur + 1 >= len {
                    return Err(NotationError::new(MSG_INCOMPLETE_SQUARE));
                }
                if let Some(r) = rank_from_char(s.get_char(cur + 1)) {
                    return Ok((Some(Square(f, r)), cur + 2));
                }
                return match self.find_piece_shortcut(c, kind) {
                    Some(q) => Ok((Some(q), cur + 1)),
                    None => Err(NotationError::new(MSG_SHORTCUT)),
                };
            }
            if rank_from_char(c).is_some() {
                return match self.find_piece_shortcut(c, kind) {
                    Some(q) => Ok((Some(q), cur + 1)),
                    None => Err(NotationError::new(MSG_SHORTCUT)),
                };
            }
        }
        Ok((None, cur))
    }

    /// The castling notation of the side to move, toward `file`.
    fn castle_split(&self, file: usize) -> (r: Notation)
        requires
            file < 8,
        ensures
            r == castle_notation(*self, file),
    {
        let rank: usize = if self.which_color() == PieceColor::White {
            0
        } else {
            7
        };
        Notation {
            piece: PieceKind::King,
            from: Some(Square(4, rank)),
            take: false,
            to: Square(file, rank),
            promotion: None,
        }
    }

    /// Splits a notation into its parts, resolving square codes.
    pub fn split_notation(&self, notation: &str) -> (r: Result<Notation, NotationError>)
        ensures
            agrees(r, parse_notation(*self, notation@)),
            r matches Ok(n) ==> n.to.wf() && (n.from matches Some(f) ==> f.wf()),
    {
        let ghost s = notation@;
        let len = notation.unicode_len();
        if len == 2 && notation.get_char(0) == '0' && notation.get_char(1) == '0' {
            assert(s =~= seq!['0', '0']);
            return Ok(self.castle_split(6));
        }
        if len == 3 && notation.get_char(0) == '0' && notation.get_char(1) == '0'
            && notation.get_char(2) == '0' {
            assert(s =~= seq!['0', '0', '0']);
            return Ok(self.castle_split(2));
        }
        assert(s != seq!['0', '0']);
        assert(s != seq!['0', '0', '0']);
        if len == 0 {
            return Err(NotationError::new(MSG_PIECE_REQUIRED));
        }
        let lead = notation.get_char(0);
        let upper = upper_case(lead);
        let mut piece = PieceKind::Pawn;
        let mut cur: usize = 0;
        if upper {
            match PieceKind::from_letter(lead) {
                Some(k) => {
                    piece = k;
                },
                None => {
                    return Err(NotationError::new(MSG_INVALID_PIECE));
                },
            }
            cur = 1;
        }
        if cur >= len {
            return Err(NotationError::new(MSG_SQUARE_REQUIRED));
        }
        let (first, cur) = match self.read_square(notation, len, cur, piece) {
            Ok(v) => v,
            Err(e) => {
                return Err(e);
            },
        };
        let take = cur < len && notation.get_char(cur) == 'x';
        let cur = if take {
            cur + 1
        } else {
            cur
        };
        let (second, cur) = match self.read_square(notation, len, cur, piece) {
            Ok(v) => v,
            Err(e) => {
                return Err(e);
            },
        };
        if first.is_none() && second.is_none() {
            return Err(NotationError::new(MSG_NO_TARGET));
        }
        let (from, to) = match second {
            Some(t) => (first, t),
            None => (None, first.unwrap()),
        };
        let mut promotion = None;
        if cur < len && notation.get_char(cur) == '=' {
            if cur + 1 >= len {
                return Err(NotationError::new(MSG_PROMOTION_MISSING));
            }
            match PieceKind::from_letter(notation.get_char(cur + 1)) {
                Some(k) => {
                    promotion = Some(k);
                },
                None => {
                    return Err(NotationError::new(MSG_INVALID_PROMOTION));
                },
            }
        }
        Ok(Notation { piece, from, take, to, promotion })
    }

    fn is_origin_candidate(&self, n: Notation, square: Square) -> (r: bool)
        requires
            square.wf(),
        ensures
            r == origin_candidate(*self, n, square),
    {
        let piece = self.get(square);
        !piece.is_empty() && piece.is_color(self.which_color()) && piece.is_kind(n.piece)
            && self.reachable[square.0][square.1].contains(n.to)
    }

    /// The one piece that can make the move when the notation gives no origin.
    fn find_origin(&self, n: Notation) -> (r: Result<Square, NotationError>)
        requires
            n.from.is_none(),
        ensures
            agrees(r, resolve_origin(*self, n)),
    {
        let mut candidate: Option<Square> = None;
        let mut f: usize = 0;
        while f < 8
            invariant
                0 <= f <= 8,
                n.from.is_none(),
                candidate matches Some(c) ==> origin_candidate(*self, n, c) && before(c, f as int, 0),
                forall|q: Square|
                    #[trigger] origin_candidate(*self, n, q) && before(q, f as int, 0) ==> candidate
                        == Some(q),
            decreases 8 - f,
        {
            let mut r: usize = 0;
            while r < 8
                invariant
                    0 <= f < 8,
                    0 <= r <= 8,
                    n.from.is_none(),
                    candidate matches Some(c) ==> origin_candidate(*self, n, c) && before(
                        c,
                        f as int,
                        r as int,
                    ),
                    forall|q: Square|
                        #[trigger] origin_candidate(*self, n, q) && before(q, f as int, r as int)
                            ==> candidate == Some(q),
                decreases 8 - r,
            {
                let square = Square(f, r);
                if self.is_origin_candidate(n, square) {
                    if candidate.is_some() {
                        proof {
                            lemma_two_candidates(*self, n, candidate.unwrap(), square);
                        }
                        return Err(NotationError::new(MSG_AMBIGUOUS));
                    }
                    candidate = Some(square);
                }
                r += 1;
            }
            f += 1;
        }
        match candidate {
            None => {
                assert(!exists|q: Square| #[trigger] origin_candidate(*self, n, q));
                Err(NotationError::new(MSG_NO_PIECE))
            },
            Some(c) => {
                assert(forall|p: Square| #[trigger] origin_candidate(*self, n, p) ==> p == c);
                proof {
                    lemma_one_candidate(*self, n, c);
                }
                Ok(c)
            },
        }
    }

    /// The move that `notation` names on this board, or why there is none.
    /// Origins are judged by the cached reachable sets.
    pub fn translate(&self, notation: &str) -> (r: Result<Move, NotationError>)
        ensures
            agrees(r, translate_notation(*self, notation@)),
    {
        let n = match self.split_notation(notation) {
            Ok(n) => n,
            Err(e) => {
                return Err(e);
            },
        };
        let color = self.which_color();
        let from = match n.from {
            Some(f) => {
                if self.reachable[f.0][f.1].contains(n.to) {
                    f
                } else {
                    return Err(NotationError::new(MSG_CANNOT_MOVE));
                }
            },
            None => match self.find_origin(n) {
                Ok(c) => c,
                Err(e) => {
                    return Err(e);
                },
            },
        };
        assert(resolve_origin(*self, n) == Ok::<Square, Seq<char>>(from));
        assert(from.wf());
        let to = n.to;
        let target = self.get(to);
        if n.take {
            if target.is_empty() || target.is_color(color) {
                return Err(NotationError::new(MSG_NOTHING_TO_TAKE));
            }
        } else if !target.is_empty() {
            return Err(NotationError::new(MSG_NOT_EMPTY));
        }
        let piece = self.get(from);
        let last_rank = to.1 == 0 || to.1 == 7;
        match n.promotion {
            Some(k) => {
                if !piece.is_kind(PieceKind::Pawn) {
                    return Err(NotationError::new(MSG_ONLY_PAWNS));
                }
                if !last_rank {
                    return Err(NotationError::new(MSG_LAST_RANK_ONLY));
                }
                match Move::new_promotion(from, to, k) {
                    Some(mv) => Ok(mv),
                    None => Err(NotationError::new(MSG_INVALID_PROMOTION)),
                }
            },
            None => {
                if piece.is_kind(PieceKind::Pawn) && last_rank {
                    return Err(NotationError::new(MSG_MUST_PROMOTE));
                }
                Ok(Move::new_normal(from, to))
            },
        }
    }
}

} // verus!
