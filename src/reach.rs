//! The squares that each piece reaches.
use vstd::prelude::*;
use crate::board::Board;
use crate::piece::{Piece, PieceColor, PieceKind};
use crate::rules::{
    bishop_reach, en_passant_reach, en_passant_target, castle_kingside, castle_queenside, distance,
    full_reach, king_step, knight_jump, pawn_dir, pawn_reach, path_clear, ray_square,
    rook_reach, rook_unmoved, slide, step,
};
use crate::square::{Square, SquareSet};

verus! {

/// A ray square at `k` steps lies `k` king steps away.
proof fn lemma_ray_distance(sq: Square, df: int, dr: int, k: int, t: Square)
    requires
        -1 <= df <= 1,
        -1 <= dr <= 1,
        !(df == 0 && dr == 0),
        1 <= k,
        t.0 == sq.0 + step(k, df),
        t.1 == sq.1 + step(k, dr),
    ensures
        distance(sq, t) == k,
{
}

/// A king that has moved reaches only the squares one step away: castling
/// is gone, however clear the way.
pub proof fn lemma_moved_king_cannot_castle(b: Board, sq: Square, t: Square)
    requires
        sq.wf(),
        b.grid()(sq).kind == PieceKind::King,
        b.grid()(sq).previous != 0,
    ensures
        b.reach_at(sq, t) ==> king_step(sq, t),
{
}

/// A rook that has moved takes away the castling destination on its side of
/// the king, however clear the way.
pub proof fn lemma_moved_rook_blocks_castling(b: Board, sq: Square)
    requires
        sq.wf(),
        b.grid()(sq).kind == PieceKind::King,
    ensures
        b.grid()(Square(7, sq.1)).previous != 0 ==> !b.reach_at(sq, Square((sq.0 + 2) as usize, sq.1)),
        b.grid()(Square(0, sq.1)).previous != 0 && sq.0 >= 2 ==> !b.reach_at(
            sq,
            Square((sq.0 - 2) as usize, sq.1),
        ),
{
}

/// Right after a pawn's two-square advance, a pawn of the other color beside
/// it reaches the square that the advancing pawn passed over.
pub proof fn lemma_en_passant_open(b: Board, p: Square)
    requires
        b.wf(),
        b.last_move() matches Some(m) && {
            let g = b.grid();
            &&& g(m.to).kind == PieceKind::Pawn
            &&& ((m.from.1 == 1 && m.to.1 == 3 && g(p).color == PieceColor::Black) || (m.from.1
                == 6 && m.to.1 == 4 && g(p).color == PieceColor::White))
            &&& p.1 == m.to.1
            &&& (p.0 == m.to.0 + 1 || p.0 + 1 == m.to.0)
            &&& g(m.to).color != g(p).color
            &&& g(Square(m.to.0, if m.to.1 == 3 {
                2
            } else {
                5
            })).kind == PieceKind::Empty
        },
        p.wf(),
        b.grid()(p).kind == PieceKind::Pawn,
    ensures
        ({
            let m = b.last_move().unwrap();
            let behind = Square(m.to.0, if m.to.1 == 3 {
                2
            } else {
                5
            });
            b.reach_at(p, behind)
        }),
{
    let m = b.last_move().unwrap();
    assert(b.moves@[b.moves@.len() - 1].wf());
}

/// A pawn reaches an empty square off its own file only as the en passant
/// target of the last move, so the capture lasts one move.
pub proof fn lemma_en_passant_only_after_advance(b: Board, p: Square, t: Square)
    requires
        p.wf(),
        t.wf(),
        b.grid()(p).kind == PieceKind::Pawn,
        b.grid()(t).kind == PieceKind::Empty,
        t.0 != p.0,
    ensures
        b.reach_at(p, t) ==> en_passant_target(b.grid(), b.last_move()) == Some(t),
{
}

impl Board {
    /// The threatened squares as the board has them cached.
    pub open spec fn cached_threat(self) -> spec_fn(Square) -> bool {
        |q: Square| self.threatened.has(q)
    }

    /// The squares that the piece on `square` reaches, castling judged by the
    /// cached threatened squares.
    pub fn reachable(&self, square: Square) -> (r: SquareSet)
        requires
            self.wf(),
            square.wf(),
        ensures
            forall|t: Square|
                #[trigger] r.has(t) == full_reach(
                    self.grid(),
                    self.side(),
                    self.last_move(),
                    self.cached_threat(),
                    square,
                    t,
                ),
    {
        let piece = self.get(square);
        match piece.kind {
            PieceKind::Empty => SquareSet::new(),
            PieceKind::King => self.reachable_king(square, piece),
            PieceKind::Queen => self.reachable_queen(square, piece),
            PieceKind::Bishop => self.reachable_bishop(square, piece),
            PieceKind::Knight => self.reachable_knight(square, piece),
            PieceKind::Rook => self.reachable_rook(square, piece),
            PieceKind::Pawn => self.reachable_pawn(square, piece),
        }
    }

    /// Adds the square `(df, dr)` away when it is on the board and holds no
    /// piece of `color`.
    fn add_step(&self, set: &mut SquareSet, square: Square, color: PieceColor, df: isize, dr: isize)
        requires
            square.wf(),
            -2 <= df <= 2,
            -2 <= dr <= 2,
        ensures
            forall|t: Square|
                #[trigger] final(set).has(t) == (old(set).has(t) || (t.wf() && t.0 == square.0
                    + df && t.1 == square.1 + dr && self.grid()(t).replaceable_by(color))),
    {
        if let Some(target) = square.offset(df, dr) {
            if self.get(target).is_replaceable(color) {
                set.insert(target);
            }
        }
    }

    fn reachable_king(&self, square: Square, piece: Piece) -> (r: SquareSet)
        requires
            self.wf(),
            square.wf(),
            piece == self.grid()(square),
            piece.kind == PieceKind::King,
        ensures
            forall|t: Square|
                #[trigger] r.has(t) == full_reach(
                    self.grid(),
                    self.side(),
                    self.last_move(),
                    self.cached_threat(),
                    square,
                    t,
                ),
    {
        let ghost g = self.grid();
        let mut squares = SquareSet::new();
        let c = piece.color;
        self.add_step(&mut squares, square, c, -1, -1);
        self.add_step(&mut squares, square, c, -1, 0);
        self.add_step(&mut squares, square, c, -1, 1);
        self.add_step(&mut squares, square, c, 0, -1);
        self.add_step(&mut squares, square, c, 0, 1);
        self.add_step(&mut squares, square, c, 1, -1);
        self.add_step(&mut squares, square, c, 1, 0);
        self.add_step(&mut squares, square, c, 1, 1);
        assert(forall|t: Square|
            #[trigger] squares.has(t) == (t.wf() && king_step(square, t) && g(t).replaceable_by(c)));

        if piece.previous == 0 && piece.color == self.which_color() {
            if self.castle_kingside_ok(square) {
                squares.insert(Square(square.0 + 2, square.1));
            }
            if self.castle_queenside_ok(square) {
                squares.insert(Square(square.0 - 2, square.1));
            }
        }
        squares
    }

    /// Whether the king on `square` may castle toward the rook on file 7.
    fn castle_kingside_ok(&self, square: Square) -> (r: bool)
        requires
            square.wf(),
        ensures
            r == castle_kingside(self.grid(), self.cached_threat(), square),
    {
        let ghost g = self.grid();
        let rank = square.1;
        if square.0 + 2 >= 7 || self.get_kingside_rook(rank).is_none() {
            return false;
        }
        let mut ok = true;
        let mut x: usize = square.0;
        while x <= square.0 + 2
            invariant
                square.wf(),
                rank == square.1,
                square.0 <= x <= square.0 + 3,
                square.0 + 2 < 7,
                ok == forall|y: usize|
                    square.0 <= y < x ==> !#[trigger] self.cached_threat()(Square(y, rank)),
            decreases square.0 + 3 - x,
        {
            assert(self.cached_threat()(Square(x, rank)) == self.threatened.has(Square(x, rank)));
            if self.is_threatened(Square(x, rank)) {
                ok = false;
            }
            x += 1;
        }
        let mut clear = true;
        let mut x: usize = square.0 + 1;
        while x < 7
            invariant
                square.wf(),
                rank == square.1,
                g == self.grid(),
                square.0 + 1 <= x <= 7,
                clear == forall|y: usize|
                    square.0 < y < x ==> (#[trigger] g(Square(y, rank))).kind == PieceKind::Empty,
            decreases 7 - x,
        {
            if !self.get(Square(x, rank)).is_empty() {
                clear = false;
            }
            x += 1;
        }
        ok && clear
    }

    /// Whether the king on `square` may castle toward the rook on file 0.
    fn castle_queenside_ok(&self, square: Square) -> (r: bool)
        requires
            square.wf(),
        ensures
            r == castle_queenside(self.grid(), self.cached_threat(), square),
    {
        let ghost g = self.grid();
        let rank = square.1;
        if square.0 <= 2 || self.get_queenside_rook(rank).is_none() {
            return false;
        }
        let mut ok = true;
        let mut x: usize = square.0 - 2;
        while x <= square.0
            invariant
                square.wf(),
                rank == square.1,
                square.0 > 2,
                square.0 - 2 <= x <= square.0 + 1,
                ok == forall|y: usize|
                    square.0 - 2 <= y < x ==> !#[trigger] self.cached_threat()(Square(y, rank)),
            decreases square.0 + 1 - x,
        {
            assert(self.cached_threat()(Square(x, rank)) == self.threatened.has(Square(x, rank)));
            if self.is_threatened(Square(x, rank)) {
                ok = false;
            }
            x += 1;
        }
        let mut clear = true;
        let mut x: usize = 1;
        while x < square.0
            invariant
                square.wf(),
                rank == square.1,
                g == self.grid(),
                1 <= x <= square.0,
                clear == forall|y: usize|
                    0 < y < x ==> (#[trigger] g(Square(y, rank))).kind == PieceKind::Empty,
            decreases square.0 - x,
        {
            if !self.get(Square(x, rank)).is_empty() {
                clear = false;
            }
            x += 1;
        }
        ok && clear
    }

    /// The unmoved rook in the corner of file 7 on `rank`.
    fn get_kingside_rook(&self, rank: usize) -> (r: Option<Piece>)
        requires
            rank < 8,
        ensures
            r.is_some() == rook_unmoved(self.grid(), Square(7, rank)),
    {
        let piece = self.get(Square(7, rank));
        if piece.kind != PieceKind::Rook || piece.previous != 0 {
            return None;
        }
        Some(piece)
    }

    /// The unmoved rook in the corner of file 0 on `rank`.
    fn get_queenside_rook(&self, rank: usize) -> (r: Option<Piece>)
        requires
            rank < 8,
        ensures
            r.is_some() == rook_unmoved(self.grid(), Square(0, rank)),
    {
        let piece = self.get(Square(0, rank));
        if piece.kind != PieceKind::Rook || piece.previous != 0 {
            return None;
        }
        Some(piece)
    }

    fn reachable_queen(&self, square: Square, piece: Piece) -> (r: SquareSet)
        requires
            square.wf(),
            piece == self.grid()(square),
        ensures
            forall|t: Square|
                #[trigger] r.has(t) == (t.wf() && (bishop_reach(self.grid(), square, piece.color, t)
                    || rook_reach(self.grid(), square, piece.color, t))),
    {
        let mut squares = SquareSet::new();
        let diagonal = self.reachable_bishop(square, piece);
        let straight = self.reachable_rook(square, piece);
        squares.extend(&diagonal);
        squares.extend(&straight);
        squares
    }

    /// Adds the squares that a piece of `color` on `square` reaches sliding in
    /// direction `(df, dr)`.
    fn add_ray(&self, set: &mut SquareSet, square: Square, color: PieceColor, df: isize, dr: isize)
        requires
            square.wf(),
            -1 <= df <= 1,
            -1 <= dr <= 1,
            !(df == 0 && dr == 0),
        ensures
            forall|t: Square|
                #[trigger] final(set).has(t) == (old(set).has(t) || (t.wf() && slide(
                    self.grid(),
                    square,
                    color,
                    df as int,
                    dr as int,
                    t,
                ))),
    {
        let ghost g = self.grid();
        let ghost start = *set;
        let mut k: isize = 1;
        let mut done = false;
        while k <= 7 && !done
            invariant
                square.wf(),
                -1 <= df <= 1,
                -1 <= dr <= 1,
                !(df == 0 && dr == 0),
                1 <= k <= 8,
                g == self.grid(),
                !done ==> path_clear(g, square, df as int, dr as int, k as int),
                done ==> forall|t: Square|
                    #![trigger slide(g, square, color, df as int, dr as int, t)]
                    t.wf() && slide(g, square, color, df as int, dr as int, t) ==> distance(
                        square,
                        t,
                    ) < k,
                forall|t: Square|
                    #[trigger] set.has(t) == (start.has(t) || (t.wf() && slide(
                        g,
                        square,
                        color,
                        df as int,
                        dr as int,
                        t,
                    ) && distance(square, t) < k)),
            decreases 8 - k,
        {
            let sf: isize = if df > 0 {
                k
            } else if df < 0 {
                -k
            } else {
                0
            };
            let sr: isize = if dr > 0 {
                k
            } else if dr < 0 {
                -k
            } else {
                0
            };
            assert(sf == step(k as int, df as int));
            assert(sr == step(k as int, dr as int));
            match square.offset(sf, sr) {
                None => {
                    assert forall|t: Square|
                        t.wf() && slide(g, square, color, df as int, dr as int, t) implies distance(
                            square,
                            t,
                        ) < k by {
                        if distance(square, t) >= k {
                            let d = distance(square, t);
                            assert(t.0 == square.0 + step(d, df as int));
                            assert(t.1 == square.1 + step(d, dr as int));
                        }
                    }
                    done = true;
                },
                Some(target) => {
                    assert(target == ray_square(square, df as int, dr as int, k as int));
                    proof {
                        lemma_ray_distance(square, df as int, dr as int, k as int, target);
                    }
                    let p = self.get(target);
                    if p.is_friend(color) {
                        assert forall|t: Square|
                            t.wf() && slide(
                                g,
                                square,
                                color,
                                df as int,
                                dr as int,
                                t,
                            ) implies distance(square, t) < k by {
                            if distance(square, t) > k {
                                assert(g(ray_square(square, df as int, dr as int, k as int)).kind
                                    == PieceKind::Empty);
                            }
                            if distance(square, t) == k {
                                let d = distance(square, t);
                                assert(t.0 == square.0 + step(d, df as int));
                                assert(t == target);
                            }
                        }
                        done = true;
                    } else {
                        set.insert(target);
                        assert forall|t: Square|
                            t.wf() && slide(g, square, color, df as int, dr as int, t) && distance(
                                square,
                                t,
                            ) == k implies t == target by {
                            let d = distance(square, t);
                            assert(t.0 == square.0 + step(d, df as int));
                        }
                        assert(slide(g, square, color, df as int, dr as int, target));
                        if p.is_enemy(color) {
                            assert forall|t: Square|
                                t.wf() && slide(
                                    g,
                                    square,
                                    color,
                                    df as int,
                                    dr as int,
                                    t,
                                ) implies distance(square, t) < k + 1 by {
                                if distance(square, t) > k {
                                    assert(g(ray_square(square, df as int, dr as int, k as int)).kind
                                        == PieceKind::Empty);
                                }
                            }
                            done = true;
                        } else {
                            assert forall|j: int|
                                1 <= j < k + 1 implies (#[trigger] g(
                                    ray_square(square, df as int, dr as int, j),
                                )).kind == PieceKind::Empty by {
                                if j < k {
                                    assert(path_clear(g, square, df as int, dr as int, k as int));
                                }
                            }
                        }
                    }
                },
            }
            k += 1;
        }
        assert forall|t: Square|
            #[trigger] set.has(t) == (start.has(t) || (t.wf() && slide(
                g,
                square,
                color,
                df as int,
                dr as int,
                t,
            ))) by {
            if t.wf() && slide(g, square, color, df as int, dr as int, t) {
                assert(distance(square, t) <= 7);
            }
        }
    }

    fn reachable_bishop(&self, square: Square, piece: Piece) -> (r: SquareSet)
        requires
            square.wf(),
            piece == self.grid()(square),
        ensures
            forall|t: Square|
                #[trigger] r.has(t) == (t.wf() && bishop_reach(self.grid(), square, piece.color, t)),
    {
        let mut squares = SquareSet::new();
        self.add_ray(&mut squares, square, piece.color, 1, 1);
        self.add_ray(&mut squares, square, piece.color, 1, -1);
        self.add_ray(&mut squares, square, piece.color, -1, 1);
        self.add_ray(&mut squares, square, piece.color, -1, -1);
        squares
    }

    fn reachable_knight(&self, square: Square, piece: Piece) -> (r: SquareSet)
        requires
            square.wf(),
            piece == self.grid()(square),
        ensures
            forall|t: Square|
                #[trigger] r.has(t) == (t.wf() && knight_jump(square, t) && self.grid()(
                    t,
                ).replaceable_by(piece.color)),
    {
        let mut squares = SquareSet::new();
        let c = piece.color;
        self.add_step(&mut squares, square, c, -2, -1);
        self.add_step(&mut squares, square, c, -2, 1);
        self.add_step(&mut squares, square, c, -1, -2);
        self.add_step(&mut squares, square, c, -1, 2);
        self.add_step(&mut squares, square, c, 1, -2);
        self.add_step(&mut squares, square, c, 1, 2);
        self.add_step(&mut squares, square, c, 2, -1);
        self.add_step(&mut squares, square, c, 2, 1);
        squares
    }

    fn reachable_rook(&self, square: Square, piece: Piece) -> (r: SquareSet)
        requires
            square.wf(),
            piece == self.grid()(square),
        ensures
            forall|t: Square|
                #[trigger] r.has(t) == (t.wf() && rook_reach(self.grid(), square, piece.color, t)),
    {
        let mut squares = SquareSet::new();
        self.add_ray(&mut squares, square, piece.color, 1, 0);
        self.add_ray(&mut squares, square, piece.color, -1, 0);
        self.add_ray(&mut squares, square, piece.color, 0, 1);
        self.add_ray(&mut squares, square, piece.color, 0, -1);
        squares
    }

    /// Adds the en passant capture of the pawn on `square`, if it has one.
    fn add_en_passant(&self, set: &mut SquareSet, square: Square, piece: Piece, direction: isize)
        requires
            self.wf(),
            square.wf(),
            piece == self.grid()(square),
            direction == pawn_dir(piece.color),
        ensures
            forall|t: Square|
                #[trigger] final(set).has(t) == (old(set).has(t) || (t.wf() && en_passant_reach(
                    self.grid(),
                    self.last_move(),
                    square,
                    t,
                ))),
    {
        if let Some(target) = self.possible_en_passant() {
            assert(target.wf());
            let last = self.moves[self.moves.len() - 1];
            assert(last.wf());
            if last.to.1 == square.1 && self.get(last.to).color != piece.color && !self.get(
                target,
            ).is_friend(piece.color) {
                if let Some(pawn) = target.offset(1, -direction) {
                    if pawn == square {
                        set.insert(target);
                    }
                }
                if let Some(pawn) = target.offset(-1, -direction) {
                    if pawn == square {
                        set.insert(target);
                    }
                }
            }
        }
    }

    fn reachable_pawn(&self, square: Square, piece: Piece) -> (r: SquareSet)
        requires
            self.wf(),
            square.wf(),
            piece == self.grid()(square),
        ensures
            forall|t: Square|
                #[trigger] r.has(t) == (t.wf() && pawn_reach(self.grid(), self.last_move(), square, t)),
    {
        let ghost g = self.grid();
        let mut squares = SquareSet::new();
        let direction: isize = match piece.color {
            PieceColor::White => 1,
            PieceColor::Black => -1,
        };
        assert(direction == pawn_dir(piece.color));

        if let Some(target) = square.offset(0, direction) {
            if self.get(target).is_empty() {
                squares.insert(target);
            }
        }
        if let Some(target) = square.offset(1, direction) {
            if self.get(target).is_enemy(piece.color) {
                squares.insert(target);
            }
        }
        if let Some(target) = square.offset(-1, direction) {
            if self.get(target).is_enemy(piece.color) {
                squares.insert(target);
            }
        }
        if piece.previous == 0 {
            if let (Some(target), Some(passage)) = (
                square.offset(0, direction * 2),
                square.offset(0, direction),
            ) {
                if self.get(target).is_empty() && self.get(passage).is_empty() {
                    squares.insert(target);
                }
            }
        }
        self.add_en_passant(&mut squares, square, piece, direction);
        squares
    }
}

} // verus!
