use vstd::prelude::*;
use crate::moves::Move;
use crate::piece::{Piece, PieceColor, PieceKind};
use crate::rules::{blank_empties, en_passant_target, force_grid, grid_of, full_reach, put, side_of_turn, threat};
use crate::update::lemma_start_has_reply;
use crate::square::{file_from_char, file_of_char, rank_from_char, rank_of_char, Square, SquareSet};

verus! {

/// Where a game stands: still played, won by one side, or drawn.
#[derive(Debug, Clone, Copy, PartialEq, Eq, Hash, Structural)]
pub enum Status {
    Playing,
    White,
    Black,
    Draw,
}

/// A position with its history and the sets derived from it.
///
/// `reachable` holds, for every square, the squares that its piece reaches
/// (pseudo-legally); `threatened` the squares reached by the side that does
/// not move; `check` whether the king of the side to move stands on one.
#[derive(Clone)]
pub struct Board {
    pub squares: [[Piece; 8]; 8],
    pub turn: usize,
    pub reachable: [[SquareSet; 8]; 8],
    pub threatened: SquareSet,
    pub moves: Vec<Move>,
    pub check: bool,
    pub status: Status,
    pub draw_offer: bool,
    pub no_safe: bool,
}

/// The kind on the back rank, file by file: rook, knight, bishop, queen,
/// king, bishop, knight, rook.
pub open spec fn back_rank_kind(f: int) -> PieceKind {
    if f == 0 || f == 7 {
        PieceKind::Rook
    } else if f == 1 || f == 6 {
        PieceKind::Knight
    } else if f == 2 || f == 5 {
        PieceKind::Bishop
    } else if f == 3 {
        PieceKind::Queen
    } else {
        PieceKind::King
    }
}

/// The piece on a square in the standard starting position.
pub open spec fn start_piece(q: Square) -> Piece {
    if !q.wf() {
        Piece::blank()
    } else if q.1 == 0 {
        Piece { kind: back_rank_kind(q.0 as int), color: PieceColor::White, previous: 0 }
    } else if q.1 == 1 {
        Piece { kind: PieceKind::Pawn, color: PieceColor::White, previous: 0 }
    } else if q.1 == 6 {
        Piece { kind: PieceKind::Pawn, color: PieceColor::Black, previous: 0 }
    } else if q.1 == 7 {
        Piece { kind: back_rank_kind(q.0 as int), color: PieceColor::Black, previous: 0 }
    } else {
        Piece::blank()
    }
}

pub open spec fn grid_of_start() -> spec_fn(Square) -> Piece {
    |q: Square| start_piece(q)
}

/// The pieces of one file in the starting position, rank 0 first.
fn start_file(f: usize, kind: PieceKind) -> (r: [Piece; 8])
    requires
        f < 8,
        kind == back_rank_kind(f as int),
    ensures
        forall|i: int| 0 <= i < 8 ==> #[trigger] r[i] == start_piece(Square(f, i as usize)),
{
    let e = Piece::empty();
    [
        Piece::new(kind, PieceColor::White),
        Piece::new(PieceKind::Pawn, PieceColor::White),
        e,
        e,
        e,
        e,
        Piece::new(PieceKind::Pawn, PieceColor::Black),
        Piece::new(kind, PieceColor::Black),
    ]
}

impl Board {
    pub open spec fn grid(self) -> spec_fn(Square) -> Piece {
        grid_of(self.squares)
    }

    pub open spec fn side(self) -> PieceColor {
        side_of_turn(self.turn as int)
    }

    pub open spec fn last_move(self) -> Option<Move> {
        if self.moves@.len() == 0 {
            None
        } else {
            Some(self.moves@.last())
        }
    }

    /// Every recorded move names squares of the board.
    pub open spec fn wf(self) -> bool {
        forall|i: int| 0 <= i < self.moves@.len() ==> (#[trigger] self.moves@[i]).wf()
    }

    pub open spec fn threat_at(self, t: Square) -> bool {
        threat(self.grid(), self.side(), self.last_move(), t)
    }

    pub open spec fn threat_fn(self) -> spec_fn(Square) -> bool {
        |q: Square| self.threat_at(q)
    }

    /// The squares that the piece on `sq` reaches, by the rules.
    pub open spec fn reach_at(self, sq: Square, t: Square) -> bool {
        full_reach(self.grid(), self.side(), self.last_move(), self.threat_fn(), sq, t)
    }

    /// The king of the side to move stands on a threatened square.
    pub open spec fn in_check(self) -> bool {
        exists|k: Square|
            k.wf() && self.grid()(k).friend_of(self.side()) && self.grid()(k).kind
                == PieceKind::King && #[trigger] self.threat_at(k)
    }

    /// The cached sets and `check` agree with the position.
    pub open spec fn is_updated(self) -> bool {
        &&& self.wf()
        &&& forall|t: Square| #[trigger] self.threatened.has(t) == self.threat_at(t)
        &&& forall|sq: Square, t: Square|
            sq.wf() ==> (#[trigger] self.reachable[sq.0 as int][sq.1 as int].has(t)
                == self.reach_at(sq, t))
        &&& self.check == self.in_check()
    }

    /// The piece of the side to move, of kind `kind`, on the file or rank that
    /// `short` names.
    pub open spec fn shortcut_candidate(self, short: char, kind: PieceKind, q: Square) -> bool {
        &&& q.wf()
        &&& (file_of_char(short) == Some(q.0) || rank_of_char(short) == Some(q.1))
        &&& self.grid()(q).friend_of(self.side())
        &&& self.grid()(q).kind == kind
    }

    /// The one candidate for a shortcut, if there is exactly one.
    pub open spec fn shortcut_of(self, short: char, kind: PieceKind) -> Option<Square> {
        if exists|sq: Square|
            #[trigger] self.shortcut_candidate(short, kind, sq) && forall|q: Square|
                #[trigger] self.shortcut_candidate(short, kind, q) ==> q == sq {
            Some(
                choose|sq: Square|
                    #[trigger] self.shortcut_candidate(short, kind, sq) && forall|q: Square|
                        #[trigger] self.shortcut_candidate(short, kind, q) ==> q == sq,
            )
        } else {
            None
        }
    }

    /// A board with no piece on it, on turn 1.
    pub fn new_empty() -> (r: Board)
        ensures
            r.turn == 1,
            r.moves@.len() == 0,
            forall|q: Square| #[trigger] r.grid()(q) == Piece::blank(),
            r.status == Status::Playing,
            !r.draw_offer,
            !r.no_safe,
    {
        let e = Piece::empty();
        let set = SquareSet::new();
        Board {
            squares: [[e; 8]; 8],
            turn: 1,
            reachable: [[set; 8]; 8],
            threatened: set,
            moves: Vec::new(),
            check: false,
            status: Status::Playing,
            draw_offer: false,
            no_safe: false,
        }
    }

    /// The standard starting position, White to move on turn 1.
    pub fn new() -> (r: Board)
        ensures
            r.grid() == grid_of_start(),
            blank_empties(r.grid()),
            r.has_safe_reply(),
            r.settled(),
            r.turn == 1,
            r.moves@.len() == 0,
            r.is_updated(),
            r.status == Status::Playing,
            !r.draw_offer,
            !r.no_safe,
    {
        let mut board = Board::new_empty();
        board.squares = [
            start_file(0, PieceKind::Rook),
            start_file(1, PieceKind::Knight),
            start_file(2, PieceKind::Bishop),
            start_file(3, PieceKind::Queen),
            start_file(4, PieceKind::King),
            start_file(5, PieceKind::Bishop),
            start_file(6, PieceKind::Knight),
            start_file(7, PieceKind::Rook),
        ];
        assert(board.grid() =~= grid_of_start());
        board.update();
        proof {
            lemma_start_has_reply(board);
        }
        board
    }

    pub fn which_color(&self) -> (r: PieceColor)
        ensures
            r == self.side(),
    {
        if self.turn % 2 == 0 {
            PieceColor::Black
        } else {
            PieceColor::White
        }
    }

    pub fn get(&self, square: Square) -> (r: Piece)
        requires
            square.wf(),
        ensures
            r == self.grid()(square),
    {
        self.squares[square.0][square.1]
    }

    pub fn set(&mut self, square: Square, piece: Piece)
        requires
            square.wf(),
        ensures
            final(self).grid() == put(old(self).grid(), square, piece),
            final(self).turn == old(self).turn,
            final(self).moves@ == old(self).moves@,
            final(self).status == old(self).status,
            final(self).draw_offer == old(self).draw_offer,
            final(self).no_safe == old(self).no_safe,
            final(self).reachable == old(self).reachable,
            final(self).threatened == old(self).threatened,
            final(self).check == old(self).check,
    {
        let mut row = self.squares[square.0];
        row[square.1] = piece;
        self.squares[square.0] = row;
        assert(self.grid() =~= put(old(self).grid(), square, piece));
    }

    /// The square that a pawn may take en passant now: the one behind a pawn
    /// whose two-rank advance was the last move.
    pub fn possible_en_passant(&self) -> (r: Option<Square>)
        requires
            self.wf(),
        ensures
            r == en_passant_target(self.grid(), self.last_move()),
    {
        let n = self.moves.len();
        if n == 0 {
            return None;
        }
        let last = self.moves[n - 1];
        assert(last.wf());
        if last.to.1 == 3 && last.from.1 == 1 && self.get(last.to).kind == PieceKind::Pawn {
            Some(Square(last.to.0, 2))
        } else if last.to.1 == 4 && last.from.1 == 6 && self.get(last.to).kind
            == PieceKind::Pawn {
            Some(Square(last.to.0, 5))
        } else {
            None
        }
    }

    /// Carries the piece on `from` to `to`, stamped with the current turn;
    /// `None`, and nothing changed, when `from` is empty.
    pub fn force(&mut self, from: Square, to: Square) -> (r: Option<()>)
        requires
            from.wf(),
            to.wf(),
        ensures
            r.is_none() == (old(self).grid()(from).kind == PieceKind::Empty),
            final(self).grid() == force_grid(old(self).grid(), from, to, old(self).turn as int),
            final(self).turn == old(self).turn,
            final(self).moves@ == old(self).moves@,
            final(self).status == old(self).status,
            final(self).draw_offer == old(self).draw_offer,
            final(self).no_safe == old(self).no_safe,
            final(self).reachable == old(self).reachable,
            final(self).threatened == old(self).threatened,
            final(self).check == old(self).check,
    {
        let mut piece = self.get(from);
        if piece.is_empty() {
            return None;
        }
        piece.previous = self.turn;
        self.set(to, piece);
        self.set(from, Piece::empty());
        Some(())
    }

    pub fn push_move(&mut self, movement: Move)
        ensures
            final(self).moves@ == old(self).moves@.push(movement),
            final(self).squares == old(self).squares,
            final(self).turn == old(self).turn,
            final(self).status == old(self).status,
            final(self).draw_offer == old(self).draw_offer,
            final(self).no_safe == old(self).no_safe,
            final(self).reachable == old(self).reachable,
            final(self).threatened == old(self).threatened,
            final(self).check == old(self).check,
    {
        self.moves.push(movement);
    }

    /// The one piece of the side to move, of kind `kind`, on the file (`a`..`h`)
    /// or rank (`1`..`8`) that `short` names; `None` when there is none or more
    /// than one.
    pub fn find_piece_shortcut(&self, short: char, kind: PieceKind) -> (r: Option<Square>)
        ensures
            r == self.shortcut_of(short, kind),
            r matches Some(sq) ==> self.shortcut_candidate(short, kind, sq) && forall|q: Square|
                #[trigger] self.shortcut_candidate(short, kind, q) ==> q == sq,
            r.is_none() ==> !exists|sq: Square|
                #[trigger] self.shortcut_candidate(short, kind, sq) && forall|q: Square|
                    #[trigger] self.shortcut_candidate(short, kind, q) ==> q == sq,
    {
        let fixed_file = file_from_char(short);
        let fixed_rank = rank_from_char(short);
        if fixed_file.is_none() && fixed_rank.is_none() {
            return None;
        }
        let color = self.which_color();
        let mut candidate: Option<Square> = None;
        let mut i: usize = 0;
        while i < 8
            invariant
                0 <= i <= 8,
                fixed_file == file_of_char(short),
                fixed_rank == rank_of_char(short),
                fixed_file.is_some() || fixed_rank.is_some(),
                color == self.side(),
                candidate matches Some(c) ==> self.shortcut_candidate(short, kind, c) && (if fixed_file.is_some() { c.1 < i } else { c.0 < i }),
                forall|q: Square|
                    #[trigger] self.shortcut_candidate(short, kind, q) && (if fixed_file.is_some() {
                        q.1 < i
                    } else {
                        q.0 < i
                    }) ==> candidate == Some(q),
            decreases 8 - i,
        {
            let square = match fixed_file {
                Some(f) => Square(f, i),
                None => Square(i, fixed_rank.unwrap()),
            };
            let piece = self.get(square);
            if !piece.is_empty() && piece.is_color(color) && piece.is_kind(kind) {
                if candidate.is_some() {
                    let c = candidate.unwrap();
                    assert(self.shortcut_candidate(short, kind, c));
                    assert(self.shortcut_candidate(short, kind, square));
                    assert(c != square);
                    return None;
                }
                candidate = Some(square);
            }
            i += 1;
        }
        if candidate.is_some() {
            let c = candidate.unwrap();
            assert(self.shortcut_candidate(short, kind, c) && forall|q: Square|
                #[trigger] self.shortcut_candidate(short, kind, q) ==> q == c);
            let ghost d = choose|sq: Square|
                #[trigger] self.shortcut_candidate(short, kind, sq) && forall|q: Square|
                    #[trigger] self.shortcut_candidate(short, kind, q) ==> q == sq;
            assert(self.shortcut_candidate(short, kind, d));
        }
        candidate
    }

    pub fn is_threatened(&self, square: Square) -> (r: bool)
        ensures
            r == self.threatened.has(square),
    {
        self.threatened.contains(square)
    }

    pub fn is_check(&self) -> (r: bool)
        ensures
            r == self.check,
    {
        self.check
    }

    /// The side to move gives up: the other side wins.
    pub fn resign(&mut self)
        ensures
            final(self).status == (if old(self).side() == PieceColor::White {
                Status::Black
            } else {
                Status::White
            }),
            final(self).squares == old(self).squares,
            final(self).turn == old(self).turn,
            final(self).moves@ == old(self).moves@,
            final(self).draw_offer == old(self).draw_offer,
    {
        self.status = match self.which_color() {
            PieceColor::White => Status::Black,
            PieceColor::Black => Status::White,
        };
    }

    /// Offers a draw, or takes the one on offer: a draw offered twice ends the
    /// game drawn.
    pub fn draw(&mut self)
        ensures
            old(self).draw_offer ==> final(self).status == Status::Draw && !final(self).draw_offer,
            !old(self).draw_offer ==> final(self).status == old(self).status
                && final(self).draw_offer,
            final(self).squares == old(self).squares,
            final(self).turn == old(self).turn,
            final(self).moves@ == old(self).moves@,
    {
        if self.draw_offer {
            self.status = Status::Draw;
            self.draw_offer = false;
        } else {
            self.draw_offer = true;
        }
    }

    pub fn decline_draw(&mut self)
        ensures
            !final(self).draw_offer,
            final(self).status == old(self).status,
            final(self).squares == old(self).squares,
            final(self).turn == old(self).turn,
            final(self).moves@ == old(self).moves@,
    {
        self.draw_offer = false;
    }

    /// A copy of the board, field by field.
    pub fn duplicate(&self) -> (r: Board)
        ensures
            r.squares == self.squares,
            r.turn == self.turn,
            r.reachable == self.reachable,
            r.threatened == self.threatened,
            r.moves@ == self.moves@,
            r.check == self.check,
            r.status == self.status,
            r.draw_offer == self.draw_offer,
            r.no_safe == self.no_safe,
    {
        let mut moves: Vec<Move> = Vec::new();
        let mut i: usize = 0;
        while i < self.moves.len()
            invariant
                0 <= i <= self.moves@.len(),
                moves@ == self.moves@.subrange(0, i as int),
            decreases self.moves@.len() - i,
        {
            moves.push(self.moves[i]);
            i += 1;
            assert(moves@ =~= self.moves@.subrange(0, i as int));
        }
        assert(moves@ =~= self.moves@);
        Board {
            squares: self.squares,
            turn: self.turn,
            reachable: self.reachable,
            threatened: self.threatened,
            moves,
            check: self.check,
            status: self.status,
            draw_offer: self.draw_offer,
            no_safe: self.no_safe,
        }
    }
}

} // verus!
