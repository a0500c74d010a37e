//! The rules of piece movement, stated over a position as a map from squares
//! to pieces.
use vstd::prelude::*;
use crate::piece::{Piece, PieceColor, PieceKind};
use crate::square::Square;
use crate::moves::Move;

verus! {

/// The position held by an 8x8 grid, file first.
pub open spec fn grid_of(squares: [[Piece; 8]; 8]) -> spec_fn(Square) -> Piece {
    |q: Square|
        if q.wf() {
            squares[q.0 as int][q.1 as int]
        } else {
            Piece::blank()
        }
}

/// Every empty square holds the blank piece, as play leaves them.
pub open spec fn blank_empties(g: spec_fn(Square) -> Piece) -> bool {
    forall|q: Square| q.wf() && (#[trigger] g(q)).kind == PieceKind::Empty ==> g(q) == Piece::blank()
}

/// White moves on odd turns, Black on even ones.
pub open spec fn side_of_turn(turn: int) -> PieceColor {
    if turn % 2 == 0 {
        PieceColor::Black
    } else {
        PieceColor::White
    }
}

pub open spec fn pawn_dir(c: PieceColor) -> int {
    match c {
        PieceColor::White => 1,
        PieceColor::Black => -1,
    }
}

/// The position with `p` put on `sq`.
pub open spec fn put(g: spec_fn(Square) -> Piece, sq: Square, p: Piece) -> spec_fn(Square) -> Piece {
    |q: Square| if q == sq { p } else { g(q) }
}

/// The position after the piece on `from` is carried to `to` and stamped with
/// `turn`; nothing changes when `from` is empty.
pub open spec fn force_grid(
    g: spec_fn(Square) -> Piece,
    from: Square,
    to: Square,
    turn: int,
) -> spec_fn(Square) -> Piece {
    let p = g(from);
    if p.kind == PieceKind::Empty {
        g
    } else {
        put(put(g, to, Piece { previous: turn as usize, ..p }), from, Piece::blank())
    }
}

/// The square behind a pawn that has just advanced two ranks, if the last
/// move was such an advance.
pub open spec fn en_passant_target(g: spec_fn(Square) -> Piece, last: Option<Move>) -> Option<Square> {
    match last {
        None => None,
        Some(m) => if m.to.1 == 3 && m.from.1 == 1 && g(m.to).kind == PieceKind::Pawn {
            Some(Square(m.to.0, 2))
        } else if m.to.1 == 4 && m.from.1 == 6 && g(m.to).kind == PieceKind::Pawn {
            Some(Square(m.to.0, 5))
        } else {
            None
        },
    }
}

pub open spec fn file_delta(sq: Square, t: Square) -> int {
    t.0 as int - sq.0 as int
}

pub open spec fn rank_delta(sq: Square, t: Square) -> int {
    t.1 as int - sq.1 as int
}

pub open spec fn king_step(sq: Square, t: Square) -> bool {
    let df = file_delta(sq, t);
    let dr = rank_delta(sq, t);
    -1 <= df <= 1 && -1 <= dr <= 1 && !(df == 0 && dr == 0)
}

pub open spec fn knight_jump(sq: Square, t: Square) -> bool {
    let df = file_delta(sq, t);
    let dr = rank_delta(sq, t);
    ((df == 1 || df == -1) && (dr == 2 || dr == -2)) || ((df == 2 || df == -2) && (dr == 1
        || dr == -1))
}

/// `k` steps along a direction component of -1, 0 or 1.
pub open spec fn step(k: int, d: int) -> int {
    if d > 0 {
        k
    } else if d < 0 {
        -k
    } else {
        0
    }
}

pub open spec fn ray_square(sq: Square, df: int, dr: int, k: int) -> Square {
    Square((sq.0 + step(k, df)) as usize, (sq.1 + step(k, dr)) as usize)
}

/// The number of king steps between two squares.
pub open spec fn distance(sq: Square, t: Square) -> int {
    let df = if file_delta(sq, t) < 0 {
        -file_delta(sq, t)
    } else {
        file_delta(sq, t)
    };
    let dr = if rank_delta(sq, t) < 0 {
        -rank_delta(sq, t)
    } else {
        rank_delta(sq, t)
    };
    if df < dr {
        dr
    } else {
        df
    }
}

/// Every square strictly before step `k` of the ray is empty.
pub open spec fn path_clear(g: spec_fn(Square) -> Piece, sq: Square, df: int, dr: int, k: int) -> bool {
    forall|j: int| 1 <= j < k ==> (#[trigger] g(ray_square(sq, df, dr, j))).kind == PieceKind::Empty
}

/// A piece of `color` sliding from `sq` in direction (df, dr) reaches `t`:
/// `t` lies on the ray, every square before it is empty, and `t` holds no
/// piece of `color`.
pub open spec fn slide(
    g: spec_fn(Square) -> Piece,
    sq: Square,
    color: PieceColor,
    df: int,
    dr: int,
    t: Square,
) -> bool {
    let k = distance(sq, t);
    1 <= k && t.0 == sq.0 + step(k, df) && t.1 == sq.1 + step(k, dr) && path_clear(
        g,
        sq,
        df,
        dr,
        k,
    ) && !g(t).friend_of(color)
}

pub open spec fn bishop_reach(g: spec_fn(Square) -> Piece, sq: Square, color: PieceColor, t: Square) -> bool {
    slide(g, sq, color, 1, 1, t) || slide(g, sq, color, 1, -1, t) || slide(g, sq, color, -1, 1, t)
        || slide(g, sq, color, -1, -1, t)
}

pub open spec fn rook_reach(g: spec_fn(Square) -> Piece, sq: Square, color: PieceColor, t: Square) -> bool {
    slide(g, sq, color, 1, 0, t) || slide(g, sq, color, -1, 0, t) || slide(g, sq, color, 0, 1, t)
        || slide(g, sq, color, 0, -1, t)
}

/// The pawn on `sq` takes en passant on `t`: `t` is the square behind the
/// pawn whose two-rank advance was the last move, diagonally ahead of the
/// taker, which stands beside that pawn and is of the other color.
pub open spec fn en_passant_reach(g: spec_fn(Square) -> Piece, last: Option<Move>, sq: Square, t: Square) -> bool {
    let p = g(sq);
    let df = file_delta(sq, t);
    let dr = rank_delta(sq, t);
    &&& (df == 1 || df == -1)
    &&& dr == pawn_dir(p.color)
    &&& en_passant_target(g, last) == Some(t)
    &&& last.unwrap().to.1 == sq.1
    &&& g(last.unwrap().to).color != p.color
    &&& !g(t).friend_of(p.color)
}

pub open spec fn pawn_reach(g: spec_fn(Square) -> Piece, last: Option<Move>, sq: Square, t: Square) -> bool {
    let p = g(sq);
    let dir = pawn_dir(p.color);
    let df = file_delta(sq, t);
    let dr = rank_delta(sq, t);
    ||| (df == 0 && dr == dir && g(t).kind == PieceKind::Empty)
    ||| ((df == 1 || df == -1) && dr == dir && g(t).enemy_of(p.color))
    ||| (p.previous == 0 && df == 0 && dr == 2 * dir && g(t).kind == PieceKind::Empty && g(
        Square(sq.0, (sq.1 + dir) as usize),
    ).kind == PieceKind::Empty)
    ||| en_passant_reach(g, last, sq, t)
}

/// The squares that the piece on `sq` reaches by its own movement, castling
/// left aside.
pub open spec fn basic_reach(g: spec_fn(Square) -> Piece, last: Option<Move>, sq: Square, t: Square) -> bool {
    let p = g(sq);
    sq.wf() && t.wf() && match p.kind {
        PieceKind::Empty => false,
        PieceKind::King => king_step(sq, t) && g(t).replaceable_by(p.color),
        PieceKind::Queen => bishop_reach(g, sq, p.color, t) || rook_reach(g, sq, p.color, t),
        PieceKind::Bishop => bishop_reach(g, sq, p.color, t),
        PieceKind::Knight => knight_jump(sq, t) && g(t).replaceable_by(p.color),
        PieceKind::Rook => rook_reach(g, sq, p.color, t),
        PieceKind::Pawn => pawn_reach(g, last, sq, t),
    }
}

/// `t` is reached by a piece of the side that does not move.
pub open spec fn threat(g: spec_fn(Square) -> Piece, side: PieceColor, last: Option<Move>, t: Square) -> bool {
    exists|sq: Square| sq.wf() && g(sq).enemy_of(side) && #[trigger] basic_reach(g, last, sq, t)
}

pub open spec fn rook_unmoved(g: spec_fn(Square) -> Piece, q: Square) -> bool {
    g(q).kind == PieceKind::Rook && g(q).previous == 0
}

/// Castling toward the rook on file 7: king and rook unmoved, the squares
/// that the king passes (its own included) not threatened, and every square
/// between king and rook empty.
pub open spec fn castle_kingside(
    g: spec_fn(Square) -> Piece,
    threatened: spec_fn(Square) -> bool,
    sq: Square,
) -> bool {
    &&& sq.0 + 2 < 7
    &&& rook_unmoved(g, Square(7, sq.1))
    &&& forall|x: usize| sq.0 <= x <= sq.0 + 2 ==> !#[trigger] threatened(Square(x, sq.1))
    &&& forall|x: usize| sq.0 < x < 7 ==> (#[trigger] g(Square(x, sq.1))).kind == PieceKind::Empty
}

/// Castling toward the rook on file 0, in the same way.
pub open spec fn castle_queenside(
    g: spec_fn(Square) -> Piece,
    threatened: spec_fn(Square) -> bool,
    sq: Square,
) -> bool {
    &&& sq.0 > 2
    &&& rook_unmoved(g, Square(0, sq.1))
    &&& forall|x: usize| sq.0 - 2 <= x <= sq.0 ==> !#[trigger] threatened(Square(x, sq.1))
    &&& forall|x: usize| 0 < x < sq.0 ==> (#[trigger] g(Square(x, sq.1))).kind == PieceKind::Empty
}

/// The castling destinations of an unmoved king of the side to move.
pub open spec fn castle_reach(
    g: spec_fn(Square) -> Piece,
    side: PieceColor,
    threatened: spec_fn(Square) -> bool,
    sq: Square,
    t: Square,
) -> bool {
    let p = g(sq);
    &&& sq.wf()
    &&& p.kind == PieceKind::King
    &&& p.previous == 0
    &&& p.color == side
    &&& t.1 == sq.1
    &&& ((t.0 == sq.0 + 2 && castle_kingside(g, threatened, sq)) || (t.0 + 2 == sq.0
        && castle_queenside(g, threatened, sq)))
}

/// The reachable squares of the piece on `sq`, given the threatened squares.
pub open spec fn full_reach(
    g: spec_fn(Square) -> Piece,
    side: PieceColor,
    last: Option<Move>,
    threatened: spec_fn(Square) -> bool,
    sq: Square,
    t: Square,
) -> bool {
    basic_reach(g, last, sq, t) || castle_reach(g, side, threatened, sq, t)
}

/// The position after a move, before the check test: castling carries the
/// rook too, a pawn on the last rank becomes the promotion piece, and a pawn
/// that changes file onto an empty square takes the pawn beside it.
pub open spec fn moved_grid(g: spec_fn(Square) -> Piece, mv: Move, turn: int) -> spec_fn(Square) -> Piece {
    let p = g(mv.from);
    let rank = mv.from.1;
    if p.kind == PieceKind::King {
        if mv.to.0 as int - mv.from.0 as int == -2 {
            force_grid(force_grid(g, mv.from, mv.to, turn), Square(0, rank), Square(3, rank), turn)
        } else if mv.to.0 as int - mv.from.0 as int == 2 {
            force_grid(force_grid(g, mv.from, mv.to, turn), Square(7, rank), Square(5, rank), turn)
        } else {
            force_grid(g, mv.from, mv.to, turn)
        }
    } else if p.kind == PieceKind::Pawn {
        if mv.to.1 == 0 || mv.to.1 == 7 {
            put(
                put(g, mv.to, Piece { kind: mv.promotion.unwrap(), color: p.color, previous: 0 }),
                mv.from,
                Piece::blank(),
            )
        } else if mv.to.0 != mv.from.0 && g(mv.to).kind == PieceKind::Empty {
            force_grid(put(g, Square(mv.to.0, rank), Piece::blank()), mv.from, mv.to, turn)
        } else {
            force_grid(g, mv.from, mv.to, turn)
        }
    } else {
        force_grid(g, mv.from, mv.to, turn)
    }
}

/// A move that promotes to no empty piece leaves every empty square blank.
pub proof fn lemma_moved_blank_empties(g: spec_fn(Square) -> Piece, mv: Move, turn: int)
    requires
        blank_empties(g),
        mv.wf(),
        mv.promotion != Some(PieceKind::Empty),
        g(mv.from).kind == PieceKind::Pawn && (mv.to.1 == 0 || mv.to.1 == 7) ==> mv.promotion.is_some(),
    ensures
        blank_empties(moved_grid(g, mv, turn)),
{
    let p = g(mv.from);
    let rank = mv.from.1;
    lemma_force_blank_empties(g, mv.from, mv.to, turn);
    if p.kind == PieceKind::King {
        let g1 = force_grid(g, mv.from, mv.to, turn);
        lemma_force_blank_empties(g1, Square(0, rank), Square(3, rank), turn);
        lemma_force_blank_empties(g1, Square(7, rank), Square(5, rank), turn);
    } else if p.kind == PieceKind::Pawn {
        if mv.to.1 == 0 || mv.to.1 == 7 {
            let np = Piece { kind: mv.promotion.unwrap(), color: p.color, previous: 0 };
            lemma_put_blank_empties(g, mv.to, np);
            lemma_put_blank_empties(put(g, mv.to, np), mv.from, Piece::blank());
        } else {
            lemma_put_blank_empties(g, Square(mv.to.0, rank), Piece::blank());
            lemma_force_blank_empties(put(g, Square(mv.to.0, rank), Piece::blank()), mv.from, mv.to, turn);
        }
    }
}

proof fn lemma_put_blank_empties(g: spec_fn(Square) -> Piece, sq: Square, p: Piece)
    requires
        blank_empties(g),
        p.kind == PieceKind::Empty ==> p == Piece::blank(),
    ensures
        blank_empties(put(g, sq, p)),
{
    let g2 = put(g, sq, p);
    assert forall|q: Square| q.wf() && (#[trigger] g2(q)).kind == PieceKind::Empty implies g2(q)
        == Piece::blank() by {
        if q != sq {
            assert(g2(q) == g(q));
        }
    }
}

proof fn lemma_force_blank_empties(g: spec_fn(Square) -> Piece, from: Square, to: Square, turn: int)
    requires
        blank_empties(g),
    ensures
        blank_empties(force_grid(g, from, to, turn)),
{
    let p = g(from);
    if p.kind != PieceKind::Empty {
        let moved = Piece { previous: turn as usize, ..p };
        lemma_put_blank_empties(g, to, moved);
        lemma_put_blank_empties(put(g, to, moved), from, Piece::blank());
    }
}

/// The king of `side` found first, scanning files in order and ranks within
/// a file, from the square with index `i` (file * 8 + rank) on.
pub open spec fn king_from(g: spec_fn(Square) -> Piece, side: PieceColor, i: int) -> Option<Square>
    decreases 64 - i,
{
    if i >= 64 || i < 0 {
        None
    } else {
        let q = Square((i / 8) as usize, (i % 8) as usize);
        if g(q).friend_of(side) && g(q).kind == PieceKind::King {
            Some(q)
        } else {
            king_from(g, side, i + 1)
        }
    }
}

} // verus!
