use vstd::prelude::*;
use crate::board::Board;
use crate::piece::{Piece, PieceKind};
use crate::rules::{
    basic_reach, blank_empties, en_passant_reach, en_passant_target, lemma_moved_blank_empties,
    moved_grid, threat,
};
use crate::piece::PieceColor;
use crate::square::Square;
use crate::update::lemma_same_position;

verus! {

/// A move from one square to another, with the piece that a pawn becomes on
/// the last rank.
#[derive(Debug, Clone, Copy, PartialEq, Eq, Hash, Structural)]
pub struct Move {
    pub from: Square,
    pub to: Square,
    pub promotion: Option<PieceKind>,
}

/// The kinds that a pawn may become.
pub open spec fn promotable(k: PieceKind) -> bool {
    k == PieceKind::Queen || k == PieceKind::Rook || k == PieceKind::Bishop || k
        == PieceKind::Knight
}

impl Move {
    pub open spec fn wf(self) -> bool {
        self.from.wf() && self.to.wf()
    }

    pub fn new(from: Square, to: Square, promotion: Option<PieceKind>) -> (r: Move)
        ensures
            r == (Move { from, to, promotion }),
    {
        Move { from, to, promotion }
    }

    pub fn new_normal(from: Square, to: Square) -> (r: Move)
        ensures
            r == (Move { from, to, promotion: None }),
    {
        Move::new(from, to, None)
    }

    /// A promotion move; `None` unless `promotion` is a queen, rook, bishop or
    /// knight.
    pub fn new_promotion(from: Square, to: Square, promotion: PieceKind) -> (r: Option<Move>)
        ensures
            r == (if promotable(promotion) {
                Some(Move { from, to, promotion: Some(promotion) })
            } else {
                None
            }),
    {
        match promotion {
            PieceKind::Queen | PieceKind::Rook | PieceKind::Bishop | PieceKind::Knight => {
                Some(Move::new(from, to, Some(promotion)))
            },
            _ => None,
        }
    }
}

impl Board {
    /// The position that `mv` leads to, before the check test.
    pub open spec fn moved(self, mv: Move) -> spec_fn(Square) -> Piece {
        moved_grid(self.grid(), mv, self.turn as int)
    }

    /// After `mv`, a king of the side that moved stands on a threatened square.
    pub open spec fn leaves_in_check(self, mv: Move) -> bool {
        let g2 = self.moved(mv);
        exists|k: Square|
            k.wf() && g2(k).friend_of(self.side()) && g2(k).kind == PieceKind::King && #[trigger] threat(
                g2,
                self.side(),
                self.last_move(),
                k,
            )
    }

    /// Plays `mv` on a copy of the board. `None` when the move leaves the
    /// mover's king threatened; else the new board, one turn on, with `mv`
    /// recorded, its sets recomputed and the new position judged.
    pub fn perform(&self, mv: Move) -> (r: Option<Board>)
        requires
            self.wf(),
            mv.wf(),
            self.turn < usize::MAX,
            self.grid()(mv.from).kind == PieceKind::Pawn && (mv.to.1 == 0 || mv.to.1 == 7)
                ==> mv.promotion.is_some(),
        ensures
            r.is_none() == self.leaves_in_check(mv),
            r matches Some(nb) ==> {
                &&& nb.grid() == self.moved(mv)
                &&& nb.turn == self.turn + 1
                &&& nb.moves@ == self.moves@.push(mv)
                &&& nb.is_updated()
                &&& nb.status == nb.judged(self.status)
                &&& nb.no_safe == (!nb.has_safe_reply() || self.no_safe)
                &&& nb.draw_offer == self.draw_offer
                &&& nb.judged(nb.status) == nb.status
                &&& (blank_empties(self.grid()) && mv.promotion != Some(PieceKind::Empty)
                    ==> blank_empties(nb.grid()))
                &&& (self.settled() && mv.promotion.is_none() ==> nb.settled())
            },
    {
        let mut board = self.duplicate();
        let piece = board.get(mv.from);
        let target = board.get(mv.to);
        let rank = mv.from.1;

        if piece.is_kind(PieceKind::King) {
            let distance = mv.to.0 as isize - mv.from.0 as isize;
            if distance == -2 {
                board.force(mv.from, mv.to);
                board.force(Square(0, rank), Square(3, rank));
            } else if distance == 2 {
                board.force(mv.from, mv.to);
                board.force(Square(7, rank), Square(5, rank));
            } else {
                board.force(mv.from, mv.to);
            }
        } else if piece.is_kind(PieceKind::Pawn) {
            if mv.to.1 == 0 || mv.to.1 == 7 {
                board.set(mv.to, Piece::new(mv.promotion.unwrap(), piece.color));
                board.set(mv.from, Piece::empty());
            } else if mv.to.0 != mv.from.0 && target.is_empty() {
                board.set(Square(mv.to.0, rank), Piece::empty());
                board.force(mv.from, mv.to);
            } else {
                board.force(mv.from, mv.to);
            }
        } else {
            board.force(mv.from, mv.to);
        }
        assert(board.grid() == self.moved(mv));
        assert(board.last_move() == self.last_move());

        board.update();
        assert(board.in_check() == self.leaves_in_check(mv)) by {
            let g2 = self.moved(mv);
            if board.in_check() {
                let k = choose|k: Square|
                    k.wf() && board.grid()(k).friend_of(board.side()) && board.grid()(k).kind
                        == PieceKind::King && #[trigger] board.threat_at(k);
                assert(threat(g2, self.side(), self.last_move(), k));
            }
            if self.leaves_in_check(mv) {
                let k = choose|k: Square|
                    k.wf() && g2(k).friend_of(self.side()) && g2(k).kind == PieceKind::King
                        && #[trigger] threat(g2, self.side(), self.last_move(), k);
                assert(board.threat_at(k));
            }
        }
        if board.is_check() {
            return None;
        }
        board.push_move(mv);
        board.turn = board.turn + 1;
        assert(board.wf()) by {
            assert forall|i: int| 0 <= i < board.moves@.len() implies (#[trigger] board.moves@[i]).wf() by {
                if i < self.moves@.len() {
                    assert(board.moves@[i] == self.moves@[i]);
                }
            }
        }
        board.update();
        let ghost judged = board;
        board.update_mate();
        proof {
            lemma_same_position(judged, board);
            if blank_empties(self.grid()) && mv.promotion != Some(PieceKind::Empty) {
                lemma_moved_blank_empties(self.grid(), mv, self.turn as int);
            }
            if self.settled() && mv.promotion.is_none() {
                assert forall|i: int| 0 <= i < board.moves@.len() implies (#[trigger] board.moves@[i]).promotion.is_none() by {
                    if i < self.moves@.len() {
                        assert(board.moves@[i] == self.moves@[i]);
                    }
                }
            }
        }
        Some(board)
    }
}

} // verus!

verus! {

/// The square that a two-rank pawn advance passes over.
pub open spec fn passed_square(mv: Move) -> Square {
    Square(mv.to.0, if mv.to.1 == 3 {
        2
    } else {
        5
    })
}

/// After a pawn advances two ranks, a pawn of the other color beside it
/// reaches the square passed over, en passant.
pub proof fn lemma_advance_opens_en_passant(b: Board, nb: Board, mv: Move, beside: Square)
    requires
        b.wf(),
        mv.wf(),
        b.grid()(mv.from).kind == PieceKind::Pawn,
        mv.from.0 == mv.to.0,
        (mv.from.1 == 1 && mv.to.1 == 3) || (mv.from.1 == 6 && mv.to.1 == 4),
        b.grid()(passed_square(mv)).kind == PieceKind::Empty,
        beside.wf(),
        beside.1 == mv.to.1,
        beside.0 == mv.to.0 + 1 || beside.0 + 1 == mv.to.0,
        b.grid()(beside).kind == PieceKind::Pawn,
        b.grid()(beside).color != b.grid()(mv.from).color,
        b.grid()(mv.from).color == PieceColor::White <==> mv.to.1 == 3,
        nb.grid() == b.moved(mv),
        nb.moves@ == b.moves@.push(mv),
        nb.is_updated(),
    ensures
        en_passant_target(nb.grid(), nb.last_move()) == Some(passed_square(mv)),
        nb.reachable[beside.0 as int][beside.1 as int].has(passed_square(mv)),
{
    let g2 = nb.grid();
    let t = passed_square(mv);
    assert(nb.last_move() == Some(mv));
    assert(g2(mv.to).kind == PieceKind::Pawn);
    assert(g2(beside) == b.grid()(beside));
    assert(g2(t) == b.grid()(t));
    assert(g2(mv.to).color == b.grid()(mv.from).color);
    assert(en_passant_reach(g2, nb.last_move(), beside, t));
    assert(basic_reach(g2, nb.last_move(), beside, t));
    assert(nb.reach_at(beside, t));
}

/// En passant on an empty square `t` is open only right after the advance
/// that passed over it: when the last move is anything else, no pawn
/// reaches `t` off its own file.
pub proof fn lemma_en_passant_expires(b: Board, p: Square, t: Square)
    requires
        p.wf(),
        t.wf(),
        b.grid()(p).kind == PieceKind::Pawn,
        b.grid()(t).kind == PieceKind::Empty,
        t.0 != p.0,
        b.last_move() matches Some(m) ==> m.to.0 != t.0 || !((m.from.1 == 1 && m.to.1 == 3) || (
        m.from.1 == 6 && m.to.1 == 4)),
    ensures
        !b.reach_at(p, t),
{
}

} // verus!
