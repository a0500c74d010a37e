//! Recomputing the cached sets of a board, and telling checkmate and
//! stalemate.
use vstd::prelude::*;
use crate::board::{Board, Status};
use crate::piece::{Piece, PieceColor, PieceKind};
use crate::board::grid_of_start;
use crate::rules::{blank_empties, basic_reach, force_grid, king_from, threat};
use crate::square::{Square, SquareSet};

verus! {

/// `q` comes before (f, r) in file-major order.
pub open spec fn before(q: Square, f: int, r: int) -> bool {
    q.0 < f || (q.0 == f && q.1 < r)
}

fn set_cell(cells: &mut [[SquareSet; 8]; 8], f: usize, r: usize, s: SquareSet)
    requires
        f < 8,
        r < 8,
    ensures
        forall|i: int, j: int|
            0 <= i < 8 && 0 <= j < 8 ==> #[trigger] final(cells)[i][j] == if i == f && j == r {
                s
            } else {
                old(cells)[i][j]
            },
{
    let mut row = cells[f];
    row[r] = s;
    cells[f] = row;
}

/// The square with index `i` in file-major order.
pub(crate) fn square_of_index(i: usize) -> (sq: Square)
    requires
        i < 64,
    ensures
        sq.wf(),
        sq.0 * 8 + sq.1 == i,
        sq == Square((i as int / 8) as usize, (i as int % 8) as usize),
{
    Square(i / 8, i % 8)
}

/// What the rules say of a board depends on its position, turn and history
/// alone, not on its cached sets.
pub proof fn lemma_same_position(a: Board, b: Board)
    requires
        a.grid() == b.grid(),
        a.turn == b.turn,
        a.moves@ == b.moves@,
    ensures
        a.grid() == b.grid(),
        a.side() == b.side(),
        a.last_move() == b.last_move(),
        a.threat_fn() == b.threat_fn(),
        forall|t: Square| #[trigger] a.threat_at(t) == b.threat_at(t),
        forall|sq: Square, t: Square| #[trigger] a.reach_at(sq, t) == b.reach_at(sq, t),
        a.in_check() == b.in_check(),
        a.king_square() == b.king_square(),
        a.has_safe_reply() == b.has_safe_reply(),
{
    assert(a.threat_fn() =~= b.threat_fn());
    assert(a.in_check() == b.in_check()) by {
        if a.in_check() {
            let k = choose|k: Square|
                k.wf() && a.grid()(k).friend_of(a.side()) && a.grid()(k).kind == PieceKind::King
                    && #[trigger] a.threat_at(k);
            assert(b.threat_at(k));
        }
        if b.in_check() {
            let k = choose|k: Square|
                k.wf() && b.grid()(k).friend_of(b.side()) && b.grid()(k).kind == PieceKind::King
                    && #[trigger] b.threat_at(k);
            assert(a.threat_at(k));
        }
    }
    if a.king_square().is_some() {
        let k = a.king_square().unwrap();
        assert(forall|sq: Square, t: Square| #[trigger] a.trial_safe(k, sq, t) == b.trial_safe(k, sq, t));
        if a.has_safe_reply() {
            let (sq, t) = choose|sq: Square, t: Square|
                sq.wf() && a.grid()(sq).friend_of(a.side()) && #[trigger] a.reach_at(sq, t)
                    && #[trigger] a.trial_safe(k, sq, t);
            assert(b.reach_at(sq, t) && b.trial_safe(k, sq, t));
        }
        if b.has_safe_reply() {
            let (sq, t) = choose|sq: Square, t: Square|
                sq.wf() && b.grid()(sq).friend_of(b.side()) && #[trigger] b.reach_at(sq, t)
                    && #[trigger] b.trial_safe(k, sq, t);
            assert(a.reach_at(sq, t) && a.trial_safe(k, sq, t));
        }
    }
}

/// One safe trial is a safe reply.
proof fn lemma_safe_reply(b: Board, king: Square, sq: Square, t: Square)
    requires
        b.king_square() == Some(king),
        sq.wf(),
        b.grid()(sq).friend_of(b.side()),
        b.reach_at(sq, t),
        b.trial_safe(king, sq, t),
    ensures
        b.has_safe_reply(),
{
    let k = b.king_square().unwrap();
    assert(k == king);
    assert(b.trial_safe(k, sq, t));
    assert(exists|a: Square, c: Square|
        a.wf() && b.grid()(a).friend_of(b.side()) && #[trigger] b.reach_at(a, c)
            && #[trigger] b.trial_safe(k, a, c));
}

/// In the starting position White has a safe reply (a2 to a3, say), so the
/// position is no mate and its status stands.
pub proof fn lemma_start_has_reply(b: Board)
    requires
        b.grid() == grid_of_start(),
        b.turn == 1,
        b.moves@.len() == 0,
    ensures
        b.has_safe_reply(),
{
    reveal_with_fuel(king_from, 40);
    let g = b.grid();
    let king = Square(4, 0);
    assert(b.king_square() == Some(king));
    let sq = Square(0, 1);
    let t = Square(0, 2);
    assert(b.reach_at(sq, t));
    let g2 = force_grid(g, sq, t, 1);
    assert forall|x: Square| x.wf() && g2(x).enemy_of(PieceColor::White) implies !#[trigger] basic_reach(
        g2,
        None,
        x,
        king,
    ) by {
        assert(x.1 >= 6);
        if g2(x).kind == PieceKind::Bishop || g2(x).kind == PieceKind::Rook || g2(x).kind
            == PieceKind::Queen {
            assert(x.0 != 4);
        }
    }
    assert(!threat(g2, PieceColor::White, None, king));
    assert(b.last_move() == None::<crate::moves::Move>);
    assert(b.trial_safe(king, sq, t));
    lemma_safe_reply(b, king, sq, t);
}

impl Board {
    /// The first king of the side to move, in file-major order.
    pub open spec fn king_square(self) -> Option<Square> {
        king_from(self.grid(), self.side(), 0)
    }

    /// Carrying the piece on `sq` to `t` leaves the king of the side to move,
    /// found on `king` before, on a square that no enemy piece reaches.
    pub open spec fn trial_safe(self, king: Square, sq: Square, t: Square) -> bool {
        let g2 = force_grid(self.grid(), sq, t, self.turn as int);
        let k2 = if sq == king {
            t
        } else {
            king
        };
        !threat(g2, self.side(), self.last_move(), k2)
    }

    /// A piece of the side to move can go to a square that it reaches and leave
    /// its king safe; a side without a king always can.
    pub open spec fn has_safe_reply(self) -> bool {
        match self.king_square() {
            None => true,
            Some(k) => exists|sq: Square, t: Square|
                sq.wf() && self.grid()(sq).friend_of(self.side()) && #[trigger] self.reach_at(sq, t)
                    && #[trigger] self.trial_safe(k, sq, t),
        }
    }

    /// What play keeps true of a board from the starting position on, while no
    /// move promotes: the sets are up to date, empty squares are blank, no
    /// recorded move promotes, and the status is the judgement of the position.
    pub open spec fn settled(self) -> bool {
        &&& self.is_updated()
        &&& blank_empties(self.grid())
        &&& forall|i: int| 0 <= i < self.moves@.len() ==> (#[trigger] self.moves@[i]).promotion.is_none()
        &&& self.judged(self.status) == self.status
    }

    /// What a status `prior` becomes once the position is judged: the side to
    /// move, with no safe reply, loses when in check and draws when not.
    pub open spec fn judged(self, prior: Status) -> Status {
        if self.has_safe_reply() {
            prior
        } else if self.check {
            if self.side() == PieceColor::White {
                Status::Black
            } else {
                Status::White
            }
        } else {
            Status::Draw
        }
    }

    /// The sets that the side not to move reaches: per square, and their union.
    fn threat_pass(&self) -> (r: ([[SquareSet; 8]; 8], SquareSet))
        requires
            self.wf(),
        ensures
            forall|t: Square| #[trigger] r.1.has(t) == self.threat_at(t),
            forall|sq: Square, t: Square|
                sq.wf() ==> (#[trigger] r.0[sq.0 as int][sq.1 as int].has(t) == (self.grid()(
                    sq,
                ).enemy_of(self.side()) && basic_reach(self.grid(), self.last_move(), sq, t))),
    {
        let ghost g = self.grid();
        let ghost last = self.last_move();
        let color = self.which_color();
        let empty = SquareSet::new();
        let mut cells: [[SquareSet; 8]; 8] = [[empty; 8]; 8];
        let mut threatened = SquareSet::new();
        let mut f: usize = 0;
        while f < 8
            invariant
                0 <= f <= 8,
                self.wf(),
                g == self.grid(),
                last == self.last_move(),
                color == self.side(),
                forall|t: Square| #[trigger]
                    threatened.has(t) ==> threat(g, color, last, t),
                forall|sq: Square, t: Square|
                    sq.wf() && before(sq, f as int, 0) && g(sq).enemy_of(color) && #[trigger] basic_reach(
                        g,
                        last,
                        sq,
                        t,
                    ) ==> threatened.has(t),
                forall|sq: Square, t: Square|
                    sq.wf() ==> (#[trigger] cells[sq.0 as int][sq.1 as int].has(t) == (before(
                        sq,
                        f as int,
                        0,
                    ) && g(sq).enemy_of(color) && basic_reach(g, last, sq, t))),
            decreases 8 - f,
        {
            let mut r: usize = 0;
            while r < 8
                invariant
                    0 <= f < 8,
                    0 <= r <= 8,
                    self.wf(),
                    g == self.grid(),
                    last == self.last_move(),
                    color == self.side(),
                    forall|t: Square| #[trigger]
                        threatened.has(t) ==> threat(g, color, last, t),
                    forall|sq: Square, t: Square|
                        sq.wf() && before(sq, f as int, r as int) && g(sq).enemy_of(color)
                            && #[trigger] basic_reach(g, last, sq, t) ==> threatened.has(t),
                    forall|sq: Square, t: Square|
                        sq.wf() ==> (#[trigger] cells[sq.0 as int][sq.1 as int].has(t) == (before(
                            sq,
                            f as int,
                            r as int,
                        ) && g(sq).enemy_of(color) && basic_reach(g, last, sq, t))),
                decreases 8 - r,
            {
                let square = Square(f, r);
                let piece = self.get(square);
                if piece.is_enemy(color) {
                    let s = self.reachable(square);
                    assert forall|t: Square| #[trigger]
                        s.has(t) == basic_reach(g, last, square, t) by {}
                    let ghost prev = threatened;
                    threatened.extend(&s);
                    assert forall|t: Square| #[trigger]
                        threatened.has(t) implies threat(g, color, last, t) by {
                        if !prev.has(t) {
                            assert(basic_reach(g, last, square, t));
                        }
                    }
                    set_cell(&mut cells, f, r, s);
                }
                r += 1;
            }
            f += 1;
        }
        assert forall|t: Square| #[trigger] threatened.has(t) == self.threat_at(t) by {
            if self.threat_at(t) {
                let sq = choose|sq: Square|
                    sq.wf() && g(sq).enemy_of(color) && #[trigger] basic_reach(g, last, sq, t);
                assert(before(sq, 8, 0));
            }
        }
        (cells, threatened)
    }

    /// Recomputes `reachable`, `threatened` and `check` from the position.
    pub fn update(&mut self)
        requires
            old(self).wf(),
        ensures
            final(self).is_updated(),
            final(self).squares == old(self).squares,
            final(self).turn == old(self).turn,
            final(self).moves@ == old(self).moves@,
            final(self).status == old(self).status,
            final(self).draw_offer == old(self).draw_offer,
            final(self).no_safe == old(self).no_safe,
    {
        let ghost g = self.grid();
        let ghost last = self.last_move();
        let color = self.which_color();
        let (cells, threatened) = self.threat_pass();
        self.threatened = threatened;
        assert(self.cached_threat() =~= self.threat_fn());
        let mut cells = cells;
        let mut check = false;
        let mut f: usize = 0;
        while f < 8
            invariant
                0 <= f <= 8,
                self.wf(),
                g == self.grid(),
                last == self.last_move(),
                color == self.side(),
                self.cached_threat() == self.threat_fn(),
                forall|t: Square| #[trigger] self.threatened.has(t) == self.threat_at(t),
                check ==> self.in_check(),
                forall|k: Square|
                    k.wf() && before(k, f as int, 0) && g(k).friend_of(color) && g(k).kind
                        == PieceKind::King && #[trigger] self.threat_at(k) ==> check,
                forall|sq: Square, t: Square|
                    sq.wf() ==> (#[trigger] cells[sq.0 as int][sq.1 as int].has(t) == ((g(
                        sq,
                    ).enemy_of(color) || (before(sq, f as int, 0) && g(sq).friend_of(color)))
                        && self.reach_at(sq, t))),
            decreases 8 - f,
        {
            let mut r: usize = 0;
            while r < 8
                invariant
                    0 <= f < 8,
                    0 <= r <= 8,
                    self.wf(),
                    g == self.grid(),
                    last == self.last_move(),
                    color == self.side(),
                    self.cached_threat() == self.threat_fn(),
                    forall|t: Square| #[trigger] self.threatened.has(t) == self.threat_at(t),
                    check ==> self.in_check(),
                    forall|k: Square|
                        k.wf() && before(k, f as int, r as int) && g(k).friend_of(color) && g(k).kind
                            == PieceKind::King && #[trigger] self.threat_at(k) ==> check,
                    forall|sq: Square, t: Square|
                        sq.wf() ==> (#[trigger] cells[sq.0 as int][sq.1 as int].has(t) == ((g(
                            sq,
                        ).enemy_of(color) || (before(sq, f as int, r as int) && g(sq).friend_of(
                            color,
                        ))) && self.reach_at(sq, t))),
                decreases 8 - r,
            {
                let square = Square(f, r);
                let piece = self.get(square);
                if piece.is_friend(color) {
                    let s = self.reachable(square);
                    set_cell(&mut cells, f, r, s);
                    if piece.kind == PieceKind::King && self.is_threatened(square) {
                        assert(self.threat_at(square));
                        check = true;
                    }
                }
                r += 1;
            }
            f += 1;
        }
        assert forall|sq: Square, t: Square|
            sq.wf() implies (#[trigger] cells[sq.0 as int][sq.1 as int].has(t) == self.reach_at(
                sq,
                t,
            )) by {
            assert(before(sq, 8, 0));
            if self.reach_at(sq, t) {
                assert(g(sq).kind != PieceKind::Empty);
            }
        }
        assert(check == self.in_check()) by {
            if self.in_check() {
                let k = choose|k: Square|
                    k.wf() && g(k).friend_of(color) && g(k).kind == PieceKind::King
                        && #[trigger] self.threat_at(k);
                assert(before(k, 8, 0));
            }
        }
        let ghost prior = *self;
        self.reachable = cells;
        self.check = check;
        proof {
            lemma_same_position(prior, *self);
        }
    }

    /// Whether the side to move has no safe reply: every square that each of
    /// its pieces reaches, tried in turn, leaves its king threatened. A side
    /// without a king is never out of replies.
    pub fn check_no_safe(&self) -> (r: bool)
        requires
            self.is_updated(),
        ensures
            r == !self.has_safe_reply(),
    {
        let ghost g = self.grid();
        let color = self.which_color();
        let mut king: Option<Square> = None;
        let mut i: usize = 0;
        while i < 64 && king.is_none()
            invariant
                0 <= i <= 64,
                g == self.grid(),
                color == self.side(),
                king.is_none() ==> king_from(g, color, 0) == king_from(g, color, i as int),
                king.is_some() ==> king == king_from(g, color, 0),
            decreases 64 - i,
        {
            let sq = square_of_index(i);
            let p = self.get(sq);
            if p.is_friend(color) && p.kind == PieceKind::King {
                king = Some(sq);
            }
            i += 1;
        }
        if king.is_none() {
            return false;
        }
        let king = king.unwrap();
        assert(self.king_square() == Some(king));
        let mut safe = false;
        let mut i: usize = 0;
        while i < 64 && !safe
            invariant
                0 <= i <= 64,
                self.is_updated(),
                g == self.grid(),
                color == self.side(),
                self.king_square() == Some(king),
                !safe ==> forall|sq: Square, t: Square|
                    sq.wf() && sq.0 * 8 + sq.1 < i && g(sq).friend_of(color) && #[trigger] self.reach_at(sq, t)
                        ==> !#[trigger] self.trial_safe(king, sq, t),
                safe ==> self.has_safe_reply(),
            decreases 64 - i,
        {
            let sq = square_of_index(i);
            let p = self.get(sq);
            if p.is_friend(color) {
                let reach = self.reachable[sq.0][sq.1];
                let mut j: usize = 0;
                while j < 64 && !safe
                    invariant
                        0 <= j <= 64,
                        self.is_updated(),
                        g == self.grid(),
                        color == self.side(),
                        sq.wf(),
                        g(sq).friend_of(color),
                        reach == self.reachable[sq.0 as int][sq.1 as int],
                        self.king_square() == Some(king),
                        !safe ==> forall|t: Square|
                            t.wf() && t.0 * 8 + t.1 < j && #[trigger] self.reach_at(sq, t)
                                ==> !self.trial_safe(king, sq, t),
                        safe ==> self.has_safe_reply(),
                    decreases 64 - j,
                {
                    let t = square_of_index(j);
                    if reach.contains(t) {
                        let mut board = self.duplicate();
                        board.force(sq, t);
                        board.update();
                        assert(board.last_move() == self.last_move());
                        let k = if sq == king {
                            t
                        } else {
                            king
                        };
                        if !board.is_threatened(k) {
                            assert(self.trial_safe(king, sq, t));
                            assert(self.reach_at(sq, t));
                            proof {
                                lemma_safe_reply(*self, king, sq, t);
                            }
                            safe = true;
                        }
                    }
                    j += 1;
                }
                assert(!safe ==> forall|t: Square|
                    t.wf() && #[trigger] self.reach_at(sq, t) ==> !self.trial_safe(king, sq, t));
            }
            i += 1;
        }
        !safe
    }

    /// Records the judgement of the position: with no safe reply the game ends,
    /// lost by the side to move when in check and drawn when not.
    pub fn update_mate(&mut self)
        requires
            old(self).is_updated(),
        ensures
            final(self).is_updated(),
            final(self).status == old(self).judged(old(self).status),
            final(self).no_safe == (!old(self).has_safe_reply() || old(self).no_safe),
            final(self).squares == old(self).squares,
            final(self).turn == old(self).turn,
            final(self).moves@ == old(self).moves@,
            final(self).check == old(self).check,
            final(self).draw_offer == old(self).draw_offer,
    {
        let ghost prior = *self;
        if self.check_no_safe() {
            self.no_safe = true;
            if self.check {
                self.status = match self.which_color() {
                    PieceColor::White => Status::Black,
                    PieceColor::Black => Status::White,
                };
            } else {
                self.status = Status::Draw;
            }
        }
        proof {
            lemma_same_position(prior, *self);
        }
    }
}

} // verus!

verus! {

/// Black king on h8, White queen on g6, White king on a1.
pub open spec fn cornered_king(q: Square) -> Piece {
    if q == Square(7, 7) {
        Piece { kind: PieceKind::King, color: PieceColor::Black, previous: 5 }
    } else if q == Square(6, 5) {
        Piece { kind: PieceKind::Queen, color: PieceColor::White, previous: 4 }
    } else if q == Square(0, 0) {
        Piece { kind: PieceKind::King, color: PieceColor::White, previous: 3 }
    } else {
        Piece::blank()
    }
}

/// With Black to move, a king on h8 facing a queen on g6 is not in check
/// and has no safe reply: the position is stalemate, judged a draw.
pub proof fn lemma_cornered_king_is_stalemate(b: Board)
    requires
        b.is_updated(),
        b.side() == PieceColor::Black,
        forall|q: Square| q.wf() ==> #[trigger] b.grid()(q) == cornered_king(q),
    ensures
        !b.check,
        !b.has_safe_reply(),
        b.judged(Status::Playing) == Status::Draw,
{
    let g = b.grid();
    let h8 = Square(7, 7);
    assert(g(Square(6, 5)) == cornered_king(Square(6, 5)));
    assert(g(h8) == cornered_king(h8));
    assert(g(Square(0, 0)) == cornered_king(Square(0, 0)));
    assert(!b.in_check()) by {
        if b.in_check() {
            let k = choose|k: Square|
                k.wf() && g(k).friend_of(b.side()) && g(k).kind == PieceKind::King
                    && #[trigger] b.threat_at(k);
            assert(g(k) == cornered_king(k));
            assert(k == h8);
            let sq = choose|sq: Square|
                sq.wf() && g(sq).enemy_of(PieceColor::Black) && #[trigger] basic_reach(
                    g,
                    b.last_move(),
                    sq,
                    h8,
                );
            assert(g(sq) == cornered_king(sq));
        }
    }
    reveal_with_fuel(king_from, 70);
    assert(b.king_square() == Some(h8)) by {
        assert forall|i: int| 0 <= i < 63 implies !(#[trigger] g(Square((i / 8) as usize, (i % 8) as usize))).friend_of(PieceColor::Black) by {
            let q = Square((i / 8) as usize, (i % 8) as usize);
            assert(g(q) == cornered_king(q));
        }
    }
    assert forall|sq: Square, t: Square|
        sq.wf() && g(sq).friend_of(b.side()) && #[trigger] b.reach_at(sq, t) implies !#[trigger] b.trial_safe(
        h8,
        sq,
        t,
    ) by {
        assert(g(sq) == cornered_king(sq));
        assert(sq == h8);
        assert(g(t) == cornered_king(t));
        let g2 = force_grid(g, sq, t, b.turn as int);
        let queen = Square(6, 5);
        assert(g2(queen) == g(queen));
        assert(basic_reach(g2, b.last_move(), queen, t));
    }
}

} // verus!
