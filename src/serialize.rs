//! The text record of a board: `pieces/moves/turn/status/draw`.
//!
//! Each piece is written `<kind><color><last moved turn>` (`Kw0`, `Pb12`), or
//! `-` for an empty square, file by file; each move as its two squares
//! (`e2e4`); the status as `P`, `W`, `B` or `D`; a draw offer as `t` or `f`.
use vstd::prelude::*;
use vstd::string::*;
use crate::board::{Board, Status};
use crate::moves::Move;
use crate::piece::{is_upper, upper_case};
use crate::piece::{Piece, PieceColor, PieceKind};
use crate::rules::{blank_empties, grid_of};
use crate::update::{lemma_same_position, square_of_index};
use crate::square::{
    lemma_square_notation_round_trip, file_from_char, file_letter, rank_digit, rank_from_char, square_notation, square_of_notation,
    string_from_chars, Square,
};

verus! {

pub open spec fn digit_char(d: int) -> char {
    if d == 0 {
        '0'
    } else if d == 1 {
        '1'
    } else if d == 2 {
        '2'
    } else if d == 3 {
        '3'
    } else if d == 4 {
        '4'
    } else if d == 5 {
        '5'
    } else if d == 6 {
        '6'
    } else if d == 7 {
        '7'
    } else if d == 8 {
        '8'
    } else {
        '9'
    }
}

pub open spec fn is_digit(c: char) -> bool {
    '0' <= c <= '9'
}

pub open spec fn digit_value(c: char) -> nat {
    (c as u32 - '0' as u32) as nat
}

/// The decimal digits of `n`, most significant first.
pub open spec fn decimal(n: nat) -> Seq<char>
    decreases n,
{
    if n < 10 {
        seq![digit_char(n as int)]
    } else {
        decimal(n / 10).push(digit_char((n % 10) as int))
    }
}

/// The number that a string of digits writes.
pub open spec fn digits_value(s: Seq<char>) -> nat
    decreases s.len(),
{
    if s.len() == 0 {
        0
    } else {
        digits_value(s.drop_last()) * 10 + digit_value(s.last())
    }
}

pub open spec fn all_digits(s: Seq<char>) -> bool {
    forall|i: int| 0 <= i < s.len() ==> is_digit(#[trigger] s[i])
}

/// An unsigned number as `str::parse` reads one: an optional `+`, then one
/// digit or more, the value fitting a `usize`.
pub open spec fn parse_usize(s: Seq<char>) -> Option<usize> {
    let d = if s.len() > 0 && s[0] == '+' {
        s.drop_first()
    } else {
        s
    };
    if d.len() > 0 && all_digits(d) && digits_value(d) <= usize::MAX {
        Some(digits_value(d) as usize)
    } else {
        None
    }
}

pub open spec fn kind_code(k: PieceKind) -> char {
    match k {
        PieceKind::Empty => '-',
        PieceKind::King => 'K',
        PieceKind::Queen => 'Q',
        PieceKind::Bishop => 'B',
        PieceKind::Knight => 'N',
        PieceKind::Rook => 'R',
        PieceKind::Pawn => 'P',
    }
}

pub open spec fn kind_of_code(c: char) -> Option<PieceKind> {
    if c == 'P' {
        Some(PieceKind::Pawn)
    } else if c == 'K' {
        Some(PieceKind::King)
    } else if c == 'Q' {
        Some(PieceKind::Queen)
    } else if c == 'B' {
        Some(PieceKind::Bishop)
    } else if c == 'N' {
        Some(PieceKind::Knight)
    } else if c == 'R' {
        Some(PieceKind::Rook)
    } else {
        None
    }
}

pub open spec fn color_code(c: PieceColor) -> char {
    match c {
        PieceColor::White => 'w',
        PieceColor::Black => 'b',
    }
}

pub open spec fn color_of_code(c: char) -> Option<PieceColor> {
    if c == 'w' {
        Some(PieceColor::White)
    } else if c == 'b' {
        Some(PieceColor::Black)
    } else {
        None
    }
}

/// The record of one piece.
pub open spec fn piece_code(p: Piece) -> Seq<char> {
    if p.kind == PieceKind::Empty {
        seq!['-']
    } else {
        seq![kind_code(p.kind), color_code(p.color)] + decimal(p.previous as nat)
    }
}

/// The piece that a record names; anything that starts with `-` is an empty
/// square.
pub open spec fn piece_of_code(s: Seq<char>) -> Option<Piece> {
    if s.len() > 0 && s[0] == '-' {
        Some(Piece::blank())
    } else if s.len() < 3 {
        None
    } else {
        match (kind_of_code(s[0]), color_of_code(s[1]), parse_usize(s.subrange(2, s.len() as int))) {
            (Some(kind), Some(color), Some(previous)) => Some(Piece { kind, color, previous }),
            _ => None,
        }
    }
}

pub open spec fn move_code(m: Move) -> Seq<char> {
    square_notation(m.from) + square_notation(m.to)
}

/// The move that four characters name; the record keeps no promotion.
pub open spec fn move_of_code(s: Seq<char>) -> Option<Move> {
    if s.len() != 4 {
        None
    } else {
        match (square_of_notation(s.subrange(0, 2)), square_of_notation(s.subrange(2, 4))) {
            (Some(from), Some(to)) => Some(Move { from, to, promotion: None }),
            _ => None,
        }
    }
}

pub open spec fn status_code(s: Status) -> char {
    match s {
        Status::Playing => 'P',
        Status::White => 'W',
        Status::Black => 'B',
        Status::Draw => 'D',
    }
}

pub open spec fn status_of_code(s: Seq<char>) -> Option<Status> {
    if s.len() != 1 {
        None
    } else if s[0] == 'P' {
        Some(Status::Playing)
    } else if s[0] == 'W' {
        Some(Status::White)
    } else if s[0] == 'B' {
        Some(Status::Black)
    } else if s[0] == 'D' {
        Some(Status::Draw)
    } else {
        None
    }
}

/// The square with index `k` in file-major order.
pub open spec fn square_at_index(k: int) -> Square {
    Square((k / 8) as usize, (k % 8) as usize)
}

/// The records of the first `k` squares, file-major.
pub open spec fn squares_code(g: spec_fn(Square) -> Piece, k: int) -> Seq<char>
    decreases k,
{
    if k <= 0 {
        seq![]
    } else {
        squares_code(g, k - 1) + piece_code(g(square_at_index(k - 1)))
    }
}

pub open spec fn moves_code(ms: Seq<Move>) -> Seq<char>
    decreases ms.len(),
{
    if ms.len() == 0 {
        seq![]
    } else {
        moves_code(ms.drop_last()) + move_code(ms.last())
    }
}

/// The record of a board.
pub open spec fn board_record(b: Board) -> Seq<char> {
    squares_code(b.grid(), 64) + seq!['/'] + moves_code(b.moves@) + seq!['/'] + decimal(
        b.turn as nat,
    ) + seq!['/'] + seq![status_code(b.status)] + seq!['/'] + seq![
        if b.draw_offer {
            't'
        } else {
            'f'
        },
    ]
}

/// The positions of the slashes in `s`, in order.
pub open spec fn slashes(s: Seq<char>) -> Seq<int>
    decreases s.len(),
{
    if s.len() == 0 {
        seq![]
    } else if s.last() == '/' {
        slashes(s.drop_last()).push(s.len() - 1)
    } else {
        slashes(s.drop_last())
    }
}

/// A piece record that does not start with `-` runs until an upper-case
/// letter, a `-` or the end.
pub open spec fn run_end(s: Seq<char>, j: int) -> int
    decreases s.len() - j,
{
    if j < 0 || j >= s.len() {
        s.len() as int
    } else if is_upper(s[j]) || s[j] == '-' {
        j
    } else {
        run_end(s, j + 1)
    }
}

pub open spec fn token_end(s: Seq<char>, i: int) -> int {
    if s[i] == '-' {
        i + 1
    } else {
        run_end(s, i + 1)
    }
}

/// `n` piece records from position `i` on.
pub open spec fn read_pieces(s: Seq<char>, i: int, n: nat) -> Option<Seq<Piece>>
    decreases n,
{
    if n == 0 {
        Some(seq![])
    } else if i < 0 || i >= s.len() {
        None
    } else {
        let e = token_end(s, i);
        match piece_of_code(s.subrange(i, e)) {
            None => None,
            Some(p) => match read_pieces(s, e, (n - 1) as nat) {
                None => None,
                Some(rest) => Some(seq![p] + rest),
            },
        }
    }
}

pub open spec fn read_moves(s: Seq<char>) -> Option<Seq<Move>>
    decreases s.len(),
{
    if s.len() % 4 != 0 || s.len() < 4 {
        if s.len() == 0 {
            Some(seq![])
        } else {
            None
        }
    } else {
        match (
            read_moves(s.subrange(0, s.len() - 4)),
            move_of_code(s.subrange(s.len() - 4, s.len() as int)),
        ) {
            (Some(ms), Some(m)) => Some(ms.push(m)),
            _ => None,
        }
    }
}

/// The record that a text holds, five fields between four slashes: 64
/// pieces file-major, the moves, the turn, the status and the draw offer.
pub open spec fn read_record(s: Seq<char>) -> Option<(Seq<Piece>, Seq<Move>, usize, Status, bool)> {
    let sl = slashes(s);
    if sl.len() != 4 {
        None
    } else {
        let pieces = s.subrange(0, sl[0]);
        let moves = s.subrange(sl[0] + 1, sl[1]);
        let turn = s.subrange(sl[1] + 1, sl[2]);
        let status = s.subrange(sl[2] + 1, sl[3]);
        let draw = s.subrange(sl[3] + 1, s.len() as int);
        match (
            read_pieces(pieces, 0, 64),
            read_moves(moves),
            parse_usize(turn),
            status_of_code(status),
        ) {
            (Some(ps), Some(ms), Some(t), Some(st)) => if draw.len() == 0 {
                None
            } else {
                Some((ps, ms, t, st, draw[0] == 't'))
            },
            _ => None,
        }
    }
}

/// The position that 64 pieces, file-major, make.
pub open spec fn grid_of_pieces(ps: Seq<Piece>) -> spec_fn(Square) -> Piece {
    |q: Square|
        if q.wf() {
            ps[q.0 * 8 + q.1]
        } else {
            Piece::blank()
        }
}

fn digit_of(d: usize) -> (c: char)
    requires
        d < 10,
    ensures
        c == digit_char(d as int),
{
    match d {
        0 => '0',
        1 => '1',
        2 => '2',
        3 => '3',
        4 => '4',
        5 => '5',
        6 => '6',
        7 => '7',
        8 => '8',
        _ => '9',
    }
}

/// Appends the decimal digits of `n`.
fn push_decimal(v: &mut Vec<char>, n: usize)
    ensures
        final(v)@ == old(v)@ + decimal(n as nat),
    decreases n,
{
    if n >= 10 {
        push_decimal(v, n / 10);
    }
    v.push(digit_of(n % 10));
    proof {
        if n < 10 {
            assert(final(v)@ =~= old(v)@ + decimal(n as nat));
        } else {
            assert(final(v)@ =~= old(v)@ + decimal(n as nat));
        }
    }
}

proof fn lemma_digits_value_grows(t: Seq<char>, k: int)
    requires
        0 <= k <= t.len(),
    ensures
        digits_value(t) >= digits_value(t.subrange(0, k)),
    decreases t.len(),
{
    if k < t.len() {
        lemma_digits_value_grows(t.drop_last(), k);
        assert(t.drop_last().subrange(0, k) =~= t.subrange(0, k));
    } else {
        assert(t.subrange(0, k) =~= t);
    }
}

/// Reads an unsigned number from the characters `lo..hi` of `s`.
fn parse_range(s: &str, lo: usize, hi: usize) -> (r: Option<usize>)
    requires
        lo <= hi <= s@.len(),
    ensures
        r == parse_usize(s@.subrange(lo as int, hi as int)),
{
    let ghost t = s@.subrange(lo as int, hi as int);
    let mut i = lo;
    if i < hi && s.get_char(i) == '+' {
        i += 1;
    }
    let start = i;
    let ghost d = s@.subrange(start as int, hi as int);
    assert(d =~= (if t.len() > 0 && t[0] == '+' {
        t.drop_first()
    } else {
        t
    }));
    if i >= hi {
        return None;
    }
    let mut acc: usize = 0;
    while i < hi
        invariant
            lo <= start <= i <= hi <= s@.len(),
            d == s@.subrange(start as int, hi as int),
            t == s@.subrange(lo as int, hi as int),
            d == (if t.len() > 0 && t[0] == '+' {
                t.drop_first()
            } else {
                t
            }),
            acc == digits_value(s@.subrange(start as int, i as int)),
            all_digits(s@.subrange(start as int, i as int)),
        decreases hi - i,
    {
        let c = s.get_char(i);
        let ghost p = s@.subrange(start as int, i as int + 1);
        assert(p.drop_last() =~= s@.subrange(start as int, i as int));
        if !('0' <= c && c <= '9') {
            assert(!is_digit(d[i - start]));
            return None;
        }
        let dv = (c as u32 - '0' as u32) as usize;
        assert(dv == digit_value(c));
        assert(digits_value(p) == acc * 10 + dv);
        if acc > (usize::MAX - dv) / 10 {
            assert(acc * 10 + dv > usize::MAX) by (nonlinear_arith)
                requires
                    acc > (usize::MAX - dv) / 10,
                    dv < 10,
            ;
            proof {
                assert(d.subrange(0, i - start + 1) =~= p);
                lemma_digits_value_grows(d, i - start + 1);
            }
            return None;
        }
        assert(acc * 10 + dv <= usize::MAX) by (nonlinear_arith)
            requires
                acc <= (usize::MAX - dv) / 10,
                dv < 10,
        ;
        acc = acc * 10 + dv;
        i += 1;
    }
    assert(s@.subrange(start as int, i as int) =~= d);
    Some(acc)
}

fn piece_range(s: &str, lo: usize, hi: usize) -> (r: Option<Piece>)
    requires
        lo <= hi <= s@.len(),
    ensures
        r == piece_of_code(s@.subrange(lo as int, hi as int)),
{
    let ghost t = s@.subrange(lo as int, hi as int);
    if lo < hi && s.get_char(lo) == '-' {
        return Some(Piece::empty());
    }
    if hi - lo < 3 {
        return None;
    }
    let kind = match s.get_char(lo) {
        'P' => PieceKind::Pawn,
        'K' => PieceKind::King,
        'Q' => PieceKind::Queen,
        'B' => PieceKind::Bishop,
        'N' => PieceKind::Knight,
        'R' => PieceKind::Rook,
        _ => {
            return None;
        },
    };
    let color = match s.get_char(lo + 1) {
        'w' => PieceColor::White,
        'b' => PieceColor::Black,
        _ => {
            return None;
        },
    };
    assert(t.subrange(2, t.len() as int) =~= s@.subrange(lo + 2, hi as int));
    match parse_range(s, lo + 2, hi) {
        Some(previous) => Some(Piece { kind, color, previous }),
        None => None,
    }
}

fn square_range(s: &str, lo: usize) -> (r: Option<Square>)
    requires
        lo + 2 <= s@.len(),
        lo + 2 <= usize::MAX,
    ensures
        r == square_of_notation(s@.subrange(lo as int, lo + 2)),
{
    match (file_from_char(s.get_char(lo)), rank_from_char(s.get_char(lo + 1))) {
        (Some(f), Some(r)) => Some(Square(f, r)),
        _ => None,
    }
}

fn move_range(s: &str, lo: usize, hi: usize) -> (r: Option<Move>)
    requires
        lo <= hi <= s@.len(),
    ensures
        r == move_of_code(s@.subrange(lo as int, hi as int)),
{
    let ghost t = s@.subrange(lo as int, hi as int);
    if hi - lo != 4 {
        return None;
    }
    assert(t.subrange(0, 2) =~= s@.subrange(lo as int, lo + 2));
    assert(t.subrange(2, 4) =~= s@.subrange(lo + 2, lo + 4));
    match (square_range(s, lo), square_range(s, lo + 2)) {
        (Some(from), Some(to)) => Some(Move { from, to, promotion: None }),
        _ => None,
    }
}

fn status_range(s: &str, lo: usize, hi: usize) -> (r: Option<Status>)
    requires
        lo <= hi <= s@.len(),
    ensures
        r == status_of_code(s@.subrange(lo as int, hi as int)),
{
    if hi - lo != 1 {
        return None;
    }
    match s.get_char(lo) {
        'P' => Some(Status::Playing),
        'W' => Some(Status::White),
        'B' => Some(Status::Black),
        'D' => Some(Status::Draw),
        _ => None,
    }
}

impl Piece {
    pub fn serialize(&self) -> (r: String)
        ensures
            r@ == piece_code(*self),
    {
        let mut v: Vec<char> = Vec::new();
        self.write_code(&mut v);
        assert(v@ =~= piece_code(*self));
        string_from_chars(&v)
    }

    fn write_code(&self, v: &mut Vec<char>)
        ensures
            final(v)@ == old(v)@ + piece_code(*self),
    {
        let kind = match self.kind {
            PieceKind::Empty => {
                v.push('-');
                assert(final(v)@ =~= old(v)@ + piece_code(*self));
                return;
            },
            PieceKind::King => 'K',
            PieceKind::Rook => 'R',
            PieceKind::Queen => 'Q',
            PieceKind::Bishop => 'B',
            PieceKind::Knight => 'N',
            PieceKind::Pawn => 'P',
        };
        let color = match self.color {
            PieceColor::White => 'w',
            PieceColor::Black => 'b',
        };
        v.push(kind);
        v.push(color);
        push_decimal(v, self.previous);
        assert(final(v)@ =~= old(v)@ + piece_code(*self));
    }

    pub fn deserialize(s: String) -> (r: Option<Piece>)
        ensures
            r == piece_of_code(s@),
    {
        let t = s.as_str();
        let n = t.unicode_len();
        assert(t@.subrange(0, n as int) =~= t@);
        piece_range(t, 0, n)
    }
}

impl Move {
    pub fn serialize(&self) -> (r: String)
        requires
            self.wf(),
        ensures
            r@ == move_code(*self),
    {
        let mut v: Vec<char> = Vec::new();
        self.write_code(&mut v);
        assert(v@ =~= move_code(*self));
        string_from_chars(&v)
    }

    fn write_code(&self, v: &mut Vec<char>)
        requires
            self.wf(),
        ensures
            final(v)@ == old(v)@ + move_code(*self),
    {
        v.push(file_letter(self.from.0));
        v.push(rank_digit(self.from.1));
        v.push(file_letter(self.to.0));
        v.push(rank_digit(self.to.1));
        assert(final(v)@ =~= old(v)@ + move_code(*self));
    }

    pub fn deserialize(s: String) -> (r: Option<Move>)
        ensures
            r == move_of_code(s@),
    {
        let t = s.as_str();
        let n = t.unicode_len();
        assert(t@.subrange(0, n as int) =~= t@);
        move_range(t, 0, n)
    }
}

impl Status {
    pub fn code(&self) -> (c: char)
        ensures
            c == status_code(*self),
    {
        match self {
            Status::Playing => 'P',
            Status::White => 'W',
            Status::Black => 'B',
            Status::Draw => 'D',
        }
    }

    pub fn serialize(&self) -> (r: String)
        ensures
            r@ == seq![status_code(*self)],
    {
        let mut v: Vec<char> = Vec::new();
        v.push(self.code());
        string_from_chars(&v)
    }

    pub fn deserialize(s: String) -> (r: Option<Status>)
        ensures
            r == status_of_code(s@),
    {
        let t = s.as_str();
        let n = t.unicode_len();
        assert(t@.subrange(0, n as int) =~= t@);
        status_range(t, 0, n)
    }
}

/// Indexing squares file-major and back gives the square.
proof fn lemma_index_square(q: Square)
    requires
        q.wf(),
    ensures
        square_at_index(q.0 * 8 + q.1) == q,
{
}

impl Board {
    /// The record of this board.
    pub fn serialize(&self) -> (r: String)
        requires
            self.wf(),
        ensures
            r@ == board_record(*self),
    {
        let ghost g = self.grid();
        let mut v: Vec<char> = Vec::new();
        let mut k: usize = 0;
        while k < 64
            invariant
                0 <= k <= 64,
                g == self.grid(),
                v@ == squares_code(g, k as int),
            decreases 64 - k,
        {
            let sq = square_of_index(k);
            self.get(sq).write_code(&mut v);
            k += 1;
        }
        v.push('/');
        let ghost head = v@;
        let mut i: usize = 0;
        while i < self.moves.len()
            invariant
                0 <= i <= self.moves@.len(),
                self.wf(),
                head == squares_code(g, 64) + seq!['/'],
                v@ == head + moves_code(self.moves@.subrange(0, i as int)),
            decreases self.moves@.len() - i,
        {
            assert(self.moves@[i as int].wf());
            self.moves[i].write_code(&mut v);
            let ghost next = self.moves@.subrange(0, i as int + 1);
            assert(next.drop_last() =~= self.moves@.subrange(0, i as int));
            i += 1;
            assert(v@ =~= head + moves_code(self.moves@.subrange(0, i as int)));
        }
        assert(self.moves@.subrange(0, i as int) =~= self.moves@);
        v.push('/');
        push_decimal(&mut v, self.turn);
        v.push('/');
        v.push(self.status.code());
        v.push('/');
        v.push(
            if self.draw_offer {
                't'
            } else {
                'f'
            },
        );
        assert(v@ =~= board_record(*self));
        string_from_chars(&v)
    }

    /// The board that a record holds, its sets recomputed and its position
    /// judged; `None` when the text is no record.
    pub fn deserialize(s: String) -> (r: Option<Board>)
        ensures
            r.is_some() == read_record(s@).is_some(),
            r matches Some(nb) ==> deserialized(s@, nb),
    {
        let t = s.as_str();
        let n = t.unicode_len();
        let (slash0, slash1, slash2, slash3) = match find_slashes(t) {
            Some(v) => v,
            None => {
                return None;
            },
        };

        let turn = match parse_range(t, slash1 + 1, slash2) {
            Some(v) => v,
            None => {
                return None;
            },
        };
        let status = match status_range(t, slash2 + 1, slash3) {
            Some(v) => v,
            None => {
                return None;
            },
        };
        let moves = match read_moves_range(t, slash0 + 1, slash1) {
            Some(v) => v,
            None => {
                return None;
            },
        };
        let (squares, pieces) = match read_pieces_range(t, slash0) {
            Some(v) => v,
            None => {
                return None;
            },
        };
        if slash3 + 1 >= n {
            return None;
        }
        let draw_offer = t.get_char(slash3 + 1) == 't';
        let ghost draw = t@.subrange(slash3 + 1, n as int);
        assert(draw[0] == t@[slash3 + 1]);
        let mut board = Board::new_empty();
        board.squares = squares;
        board.moves = moves;
        board.turn = turn;
        board.status = status;
        board.draw_offer = draw_offer;
        assert(board.wf());
        board.update();
        let ghost judged = board;
        board.update_mate();
        proof {
            lemma_same_position(judged, board);
        }
        Some(board)
    }
}

/// The positions of the four slashes of a record, if it has four.
fn find_slashes(t: &str) -> (r: Option<(usize, usize, usize, usize)>)
    ensures
        r.is_some() == (slashes(t@).len() == 4),
        r matches Some((slash0, slash1, slash2, slash3)) ==> {
            &&& slashes(t@) == seq![slash0 as int, slash1 as int, slash2 as int, slash3 as int]
            &&& slash0 < slash1 < slash2 < slash3 < t@.len()
        },
{
    let n = t.unicode_len();
    let mut pos: Vec<usize> = Vec::new();
    let mut i: usize = 0;
    while i < n
        invariant
            0 <= i <= n,
            n == t@.len(),
            pos@.len() == slashes(t@.subrange(0, i as int)).len(),
            forall|j: int|
                0 <= j < pos@.len() ==> #[trigger] pos@[j] as int == slashes(
                    t@.subrange(0, i as int),
                )[j],
            forall|j: int| 0 <= j < pos@.len() ==> #[trigger] pos@[j] < i,
            forall|j: int, k: int| 0 <= j < k < pos@.len() ==> pos@[j] < pos@[k],
        decreases n - i,
    {
        let ghost pre = t@.subrange(0, i as int + 1);
        assert(pre.drop_last() =~= t@.subrange(0, i as int));
        if t.get_char(i) == '/' {
            pos.push(i);
        }
        i += 1;
    }
    assert(t@.subrange(0, n as int) =~= t@);
    if pos.len() != 4 {
        return None;
    }
    let r = (pos[0], pos[1], pos[2], pos[3]);
    assert(slashes(t@) =~= seq![r.0 as int, r.1 as int, r.2 as int, r.3 as int]);
    Some(r)
}

/// Distinct indices name distinct squares.
proof fn lemma_index_distinct(j: int, k: int)
    requires
        0 <= j < 64,
        0 <= k < 64,
        j != k,
    ensures
        square_at_index(j) != square_at_index(k),
{
    assert(j == (j / 8) * 8 + j % 8) by (nonlinear_arith)
        requires
            0 <= j,
    ;
    assert(k == (k / 8) * 8 + k % 8) by (nonlinear_arith)
        requires
            0 <= k,
    ;
}

/// A board holds what a record says: its position, moves, turn and draw
/// offer, its sets recomputed, its status the record's as judged.
pub open spec fn deserialized(s: Seq<char>, nb: Board) -> bool {
    match read_record(s) {
        None => false,
        Some((ps, ms, turn, st, draw)) => {
            &&& nb.grid() == grid_of_pieces(ps)
            &&& nb.moves@ == ms
            &&& nb.turn == turn
            &&& nb.draw_offer == draw
            &&& nb.is_updated()
            &&& nb.status == nb.judged(st)
            &&& nb.no_safe == !nb.has_safe_reply()
        },
    }
}

/// Reads the moves in the characters `lo..hi`.
fn read_moves_range(t: &str, lo: usize, hi: usize) -> (r: Option<Vec<Move>>)
    requires
        lo <= hi <= t@.len(),
    ensures
        r.is_some() == read_moves(t@.subrange(lo as int, hi as int)).is_some(),
        r matches Some(v) ==> read_moves(t@.subrange(lo as int, hi as int)) == Some(v@) && forall|j: int|
            0 <= j < v@.len() ==> (#[trigger] v@[j]).wf(),
{
    let ghost s1 = t@.subrange(lo as int, hi as int);
    let m = hi - lo;
    if m % 4 != 0 {
        return None;
    }
    let mut moves: Vec<Move> = Vec::new();
    let mut i: usize = 0;
    while i < m / 4
        invariant
            lo <= hi <= t@.len(),
            m == hi - lo,
            m % 4 == 0,
            0 <= i <= m / 4,
            s1 == t@.subrange(lo as int, hi as int),
            read_moves(s1.subrange(0, 4 * i as int)) == Some(moves@),
            forall|j: int| 0 <= j < moves@.len() ==> (#[trigger] moves@[j]).wf(),
        decreases m / 4 - i,
    {
        let a = lo + 4 * i;
        let mv = match move_range(t, a, a + 4) {
            Some(mv) => mv,
            None => {
                proof {
                    lemma_read_moves_prefix(s1, 4 * i as int + 4);
                    assert(s1.subrange(0, 4 * i as int + 4).subrange(4 * i as int, 4 * i as int + 4)
                        =~= t@.subrange(a as int, a + 4));
                    assert(s1.subrange(0, 4 * i as int + 4).subrange(0, 4 * i as int)
                        =~= s1.subrange(0, 4 * i as int));
                }
                return None;
            },
        };
        proof {
            assert(s1.subrange(0, 4 * i as int + 4).subrange(4 * i as int, 4 * i as int + 4)
                =~= t@.subrange(a as int, a + 4));
            assert(s1.subrange(0, 4 * i as int + 4).subrange(0, 4 * i as int) =~= s1.subrange(
                0,
                4 * i as int,
            ));
        }
        moves.push(mv);
        i += 1;
    }
    assert(s1.subrange(0, 4 * i as int) =~= s1);
    Some(moves)
}

/// A record of moves fails when a prefix of whole moves fails.
proof fn lemma_read_moves_prefix(s: Seq<char>, k: int)
    requires
        0 <= k <= s.len(),
        k % 4 == 0,
        s.len() % 4 == 0,
        read_moves(s.subrange(0, k)).is_none(),
    ensures
        read_moves(s).is_none(),
    decreases s.len() - k,
{
    if k < s.len() {
        let s2 = s.subrange(0, k + 4);
        assert(s2.subrange(0, k) =~= s.subrange(0, k));
        lemma_read_moves_prefix(s, k + 4);
    } else {
        assert(s.subrange(0, k) =~= s);
    }
}

/// Reads the 64 piece records in the characters `0..hi`, giving the grid and
/// the pieces in file-major order.
fn read_pieces_range(t: &str, hi: usize) -> (r: Option<([[Piece; 8]; 8], Ghost<Seq<Piece>>)>)
    requires
        hi <= t@.len(),
    ensures
        r.is_some() == read_pieces(t@.subrange(0, hi as int), 0, 64).is_some(),
        r matches Some((sq, ps)) ==> read_pieces(t@.subrange(0, hi as int), 0, 64) == Some(ps@)
            && grid_of(sq) == grid_of_pieces(ps@),
{
    let ghost s0 = t@.subrange(0, hi as int);
    let e = Piece::empty();
    let mut squares: [[Piece; 8]; 8] = [[e; 8]; 8];
    let ghost mut acc: Seq<Piece> = seq![];
    let mut c: usize = 0;
    let mut k: usize = 0;
    while k < 64
        invariant
            hi <= t@.len(),
            s0 == t@.subrange(0, hi as int),
            0 <= k <= 64,
            c <= hi,
            acc.len() == k,
            read_pieces(s0, 0, 64) == (match read_pieces(s0, c as int, (64 - k) as nat) {
                None => None,
                Some(rest) => Some(acc + rest),
            }),
            forall|j: int| 0 <= j < k ==> #[trigger] grid_of(squares)(square_at_index(j)) == acc[j],
        decreases 64 - k,
    {
        if c >= hi {
            return None;
        }
        let mut end: usize = c + 1;
        if t.get_char(c) != '-' {
            while end < hi && !(upper_case(t.get_char(end)) || t.get_char(end) == '-')
                invariant
                    hi <= t@.len(),
                    s0 == t@.subrange(0, hi as int),
                    c < end <= hi,
                    run_end(s0, c + 1) == run_end(s0, end as int),
                decreases hi - end,
            {
                end += 1;
            }
        }
        assert(end == token_end(s0, c as int));
        assert(s0.subrange(c as int, end as int) =~= t@.subrange(c as int, end as int));
        let p = match piece_range(t, c, end) {
            Some(p) => p,
            None => {
                return None;
            },
        };
        let sq = square_of_index(k);
        let ghost before_set = squares;
        let mut row = squares[sq.0];
        row[sq.1] = p;
        squares[sq.0] = row;
        proof {
            let ghost rest = read_pieces(s0, end as int, (64 - k - 1) as nat);
            if rest.is_some() {
                assert(acc.push(p) + rest.unwrap() =~= acc + (seq![p] + rest.unwrap()));
            }
            acc = acc.push(p);
            assert forall|j: int| 0 <= j < k + 1 implies #[trigger] grid_of(squares)(square_at_index(j)) == acc[j] by {
                if j < k {
                    lemma_index_distinct(j, k as int);
                    let q = square_at_index(j);
                    assert(q.wf());
                    assert(grid_of(squares)(q) == grid_of(before_set)(q));
                } else {
                    assert(square_at_index(j) == sq);
                }
            }
        }
        c = end;
        k += 1;
    }
    assert(acc + seq![] =~= acc);
    proof {
        assert forall|q: Square| #[trigger] grid_of(squares)(q) == grid_of_pieces(acc)(q) by {
            if q.wf() {
                lemma_index_square(q);
                assert(grid_of(squares)(square_at_index(q.0 * 8 + q.1)) == acc[q.0 * 8 + q.1]);
            }
        }
        assert(grid_of(squares) =~= grid_of_pieces(acc));
    }
    Some((squares, Ghost(acc)))
}

} // verus!

verus! {

pub open spec fn no_slash(s: Seq<char>) -> bool {
    forall|i: int| 0 <= i < s.len() ==> #[trigger] s[i] != '/'
}


/// The pieces of a position, file-major.
pub open spec fn pieces_of(g: spec_fn(Square) -> Piece) -> Seq<Piece> {
    Seq::new(64, |k: int| g(square_at_index(k)))
}

proof fn lemma_digit(x: int)
    requires
        0 <= x < 10,
    ensures
        digit_value(digit_char(x)) == x,
        is_digit(digit_char(x)),
{
}

proof fn lemma_decimal(n: nat)
    ensures
        decimal(n).len() >= 1,
        all_digits(decimal(n)),
        digits_value(decimal(n)) == n,
        decimal(n)[0] != '+',
    decreases n,
{
    lemma_digit((n % 10) as int);
    if n < 10 {
        let d = seq![digit_char(n as int)];
        assert(d.drop_last() =~= seq![]);
        assert(digits_value(d.drop_last()) == 0);
        assert(n % 10 == n);
        assert(digits_value(d) == digits_value(d.drop_last()) * 10 + digit_value(d.last()));
    }
    if n >= 10 {
        lemma_decimal(n / 10);
        let d = decimal(n);
        assert((n / 10) * 10 + n % 10 == n);
        assert(d.last() == digit_char((n % 10) as int));
        assert(digits_value(d) == digits_value(d.drop_last()) * 10 + digit_value(d.last()));
        assert(d.drop_last() =~= decimal(n / 10));
        assert(all_digits(d)) by {
            assert forall|i: int| 0 <= i < d.len() implies is_digit(#[trigger] d[i]) by {
                if i < d.len() - 1 {
                    assert(d[i] == decimal(n / 10)[i]);
                }
            }
        }
        assert(d[0] == decimal(n / 10)[0]);
    }
}

proof fn lemma_parse_decimal(n: usize)
    ensures
        parse_usize(decimal(n as nat)) == Some(n),
{
    lemma_decimal(n as nat);
}

/// Slash-free text appended leaves the slashes where they were.
proof fn lemma_slashes_tail(u: Seq<char>, v: Seq<char>)
    requires
        no_slash(v),
    ensures
        slashes(u + v) == slashes(u),
    decreases v.len(),
{
    if v.len() == 0 {
        assert(u + v =~= u);
    } else {
        assert((u + v).drop_last() =~= u + v.drop_last());
        assert((u + v).last() == v.last());
        lemma_slashes_tail(u, v.drop_last());
    }
}

proof fn lemma_code_chars(p: Piece)
    ensures
        no_slash(piece_code(p)),
        piece_code(p).len() >= 1,
        is_upper(piece_code(p)[0]) || piece_code(p)[0] == '-',
        forall|i: int|
            1 <= i < piece_code(p).len() ==> !is_upper(#[trigger] piece_code(p)[i])
                && piece_code(p)[i] != '-',
{
    if p.kind != PieceKind::Empty {
        lemma_decimal(p.previous as nat);
        let d = decimal(p.previous as nat);
        let c = piece_code(p);
        assert forall|i: int| 2 <= i < c.len() implies #[trigger] c[i] == d[i - 2] by {}
        assert forall|i: int| 0 <= i < d.len() implies is_digit(#[trigger] d[i]) by {}
    }
}

proof fn lemma_piece_code_round_trip(p: Piece)
    requires
        p.kind == PieceKind::Empty ==> p == Piece::blank(),
    ensures
        piece_of_code(piece_code(p)) == Some(p),
{
    if p.kind != PieceKind::Empty {
        lemma_parse_decimal(p.previous);
        let c = piece_code(p);
        assert(c.subrange(2, c.len() as int) =~= decimal(p.previous as nat));
    }
}

proof fn lemma_squares_code_prefix(g: spec_fn(Square) -> Piece, k: int, m: int)
    requires
        0 <= k <= m,
    ensures
        squares_code(g, m).len() >= squares_code(g, k).len(),
        squares_code(g, m).subrange(0, squares_code(g, k).len() as int) == squares_code(g, k),
    decreases m,
{
    if k < m {
        lemma_squares_code_prefix(g, k, m - 1);
        let a = squares_code(g, m - 1);
        let b = squares_code(g, m);
        assert(b.subrange(0, a.len() as int) =~= a);
        assert(b.subrange(0, squares_code(g, k).len() as int) =~= a.subrange(
            0,
            squares_code(g, k).len() as int,
        ));
    } else {
        assert(squares_code(g, m).subrange(0, squares_code(g, m).len() as int) =~= squares_code(
            g,
            m,
        ));
    }
}

proof fn lemma_squares_code_no_slash(g: spec_fn(Square) -> Piece, k: int)
    ensures
        no_slash(squares_code(g, k)),
    decreases k,
{
    if k > 0 {
        lemma_squares_code_no_slash(g, k - 1);
        lemma_code_chars(g(square_at_index(k - 1)));
        let a = squares_code(g, k - 1);
        let c = piece_code(g(square_at_index(k - 1)));
        assert forall|i: int| 0 <= i < (a + c).len() implies #[trigger] (a + c)[i] != '/' by {
            if i >= a.len() {
                assert((a + c)[i] == c[i - a.len()]);
            }
        }
    }
}

/// A run of characters that are neither upper-case nor `-`, ended by the end
/// of the text or by one that is, is one record.
proof fn lemma_run_end(s: Seq<char>, j: int, e: int)
    requires
        0 <= j <= e <= s.len(),
        forall|i: int| j <= i < e ==> !is_upper(#[trigger] s[i]) && s[i] != '-',
        e == s.len() || is_upper(s[e]) || s[e] == '-',
    ensures
        run_end(s, j) == e,
    decreases e - j,
{
    if j < e {
        lemma_run_end(s, j + 1, e);
    }
}

/// Reading the pieces of a position from the `k`-th record on.
proof fn lemma_read_squares(g: spec_fn(Square) -> Piece, k: int)
    requires
        0 <= k <= 64,
        blank_empties(g),
    ensures
        read_pieces(squares_code(g, 64), squares_code(g, k).len() as int, (64 - k) as nat) == Some(
            Seq::new((64 - k) as nat, |j: int| g(square_at_index(k + j))),
        ),
    decreases 64 - k,
{
    let s = squares_code(g, 64);
    if k == 64 {
        assert(Seq::new((64 - k) as nat, |j: int| g(square_at_index(k + j))) =~= seq![]);
    } else {
        lemma_read_squares(g, k + 1);
        let i = squares_code(g, k).len() as int;
        let e = squares_code(g, k + 1).len() as int;
        let p = g(square_at_index(k));
        let c = piece_code(p);
        lemma_squares_code_prefix(g, k + 1, 64);
        lemma_code_chars(p);
        assert(e == i + c.len());
        let pk1 = squares_code(g, k + 1);
        assert(pk1 == squares_code(g, k) + c);
        assert forall|x: int| 0 <= x < c.len() implies #[trigger] s.subrange(i, e)[x] == c[x] by {
            assert(s.subrange(0, e)[i + x] == pk1[i + x]);
            assert(pk1[i + x] == c[x]);
            assert(s.subrange(i, e)[x] == s[i + x]);
        }
        assert(s.subrange(i, e) =~= c);
        if p.kind == PieceKind::Empty {
            assert(s[i] == '-');
            assert(token_end(s, i) == e);
        } else {
            assert(s[i] == c[0]);
            assert(c[0] != '-');
            if e < s.len() {
                lemma_squares_code_prefix(g, k + 2, 64);
                let c2 = piece_code(g(square_at_index(k + 1)));
                lemma_code_chars(g(square_at_index(k + 1)));
                assert(s.subrange(0, squares_code(g, k + 2).len() as int)[e] == c2[0]);
            }
            assert forall|x: int| i + 1 <= x < e implies !is_upper(#[trigger] s[x]) && s[x] != '-' by {
                assert(s.subrange(i, e)[x - i] == c[x - i]);
            }
            lemma_run_end(s, i + 1, e);
        }
        lemma_piece_code_round_trip(p);
        assert(Seq::new((64 - k) as nat, |j: int| g(square_at_index(k + j))) =~= seq![p] + Seq::new(
            (64 - (k + 1)) as nat,
            |j: int| g(square_at_index(k + 1 + j)),
        ));
    }
}


proof fn lemma_moves_code(ms: Seq<Move>)
    ensures
        moves_code(ms).len() == 4 * ms.len(),
        no_slash(moves_code(ms)),
    decreases ms.len(),
{
    if ms.len() > 0 {
        lemma_moves_code(ms.drop_last());
        let a = moves_code(ms.drop_last());
        let c = move_code(ms.last());
        assert forall|i: int| 0 <= i < (a + c).len() implies #[trigger] (a + c)[i] != '/' by {
            if i >= a.len() {
                assert((a + c)[i] == c[i - a.len()]);
            }
        }
    }
}

proof fn lemma_read_moves_code(ms: Seq<Move>)
    requires
        forall|i: int| 0 <= i < ms.len() ==> (#[trigger] ms[i]).wf() && ms[i].promotion.is_none(),
    ensures
        read_moves(moves_code(ms)) == Some(ms),
    decreases ms.len(),
{
    if ms.len() == 0 {
        assert(moves_code(ms) =~= seq![]);
    } else {
        let init = ms.drop_last();
        assert forall|i: int| 0 <= i < init.len() implies (#[trigger] init[i]).wf()
            && init[i].promotion.is_none() by {
            assert(init[i] == ms[i]);
        }
        lemma_read_moves_code(init);
        lemma_moves_code(init);
        let s = moves_code(ms);
        let m = ms.last();
        assert(m == ms[ms.len() - 1]);
        assert(s.subrange(0, s.len() - 4) =~= moves_code(init));
        let tail = s.subrange(s.len() - 4, s.len() as int);
        assert(tail =~= move_code(m));
        lemma_square_notation_round_trip(m.from);
        lemma_square_notation_round_trip(m.to);
        assert(tail.subrange(0, 2) =~= square_notation(m.from));
        assert(tail.subrange(2, 4) =~= square_notation(m.to));
        assert(init.push(m) =~= ms);
    }
}

/// Five slash-free fields joined by slashes, as a board record is.
pub open spec fn join_fields(
    x0: Seq<char>,
    x1: Seq<char>,
    x2: Seq<char>,
    x3: Seq<char>,
    x4: Seq<char>,
) -> Seq<char> {
    x0 + seq!['/'] + x1 + seq!['/'] + x2 + seq!['/'] + x3 + seq!['/'] + x4
}

proof fn lemma_join_fields(x0: Seq<char>, x1: Seq<char>, x2: Seq<char>, x3: Seq<char>, x4: Seq<char>)
    requires
        no_slash(x0),
        no_slash(x1),
        no_slash(x2),
        no_slash(x3),
        no_slash(x4),
    ensures
        ({
            let rec = join_fields(x0, x1, x2, x3, x4);
            let slash0 = x0.len() as int;
            let slash1 = slash0 + 1 + x1.len();
            let slash2 = slash1 + 1 + x2.len();
            let slash3 = slash2 + 1 + x3.len();
            &&& slashes(rec) == seq![slash0, slash1, slash2, slash3]
            &&& rec.subrange(0, slash0) == x0
            &&& rec.subrange(slash0 + 1, slash1) == x1
            &&& rec.subrange(slash1 + 1, slash2) == x2
            &&& rec.subrange(slash2 + 1, slash3) == x3
            &&& rec.subrange(slash3 + 1, rec.len() as int) == x4
        }),
{
    let u1 = x0.push('/');
    let u2 = (u1 + x1).push('/');
    let u3 = (u2 + x2).push('/');
    let u4 = (u3 + x3).push('/');
    let rec = u4 + x4;
    assert(rec =~= join_fields(x0, x1, x2, x3, x4));
    lemma_slashes_tail(seq![], x0);
    assert(seq![] + x0 =~= x0);
    assert(u1.drop_last() =~= x0);
    lemma_slashes_tail(u1, x1);
    assert(u2.drop_last() =~= u1 + x1);
    lemma_slashes_tail(u2, x2);
    assert(u3.drop_last() =~= u2 + x2);
    lemma_slashes_tail(u3, x3);
    assert(u4.drop_last() =~= u3 + x3);
    lemma_slashes_tail(u4, x4);
    let slash0 = x0.len() as int;
    let slash1 = slash0 + 1 + x1.len();
    let slash2 = slash1 + 1 + x2.len();
    let slash3 = slash2 + 1 + x3.len();
    assert(slashes(rec) =~= seq![slash0, slash1, slash2, slash3]);
    assert(rec.subrange(0, slash0) =~= x0);
    assert(rec.subrange(slash0 + 1, slash1) =~= x1);
    assert(rec.subrange(slash1 + 1, slash2) =~= x2);
    assert(rec.subrange(slash2 + 1, slash3) =~= x3);
    assert(rec.subrange(slash3 + 1, rec.len() as int) =~= x4);
}

/// The record of a board reads back as its pieces, moves, turn, status and
/// draw offer, when its empty squares are blank and its moves promote nothing.
pub proof fn lemma_record_round_trip(b: Board)
    requires
        b.wf(),
        blank_empties(b.grid()),
        forall|i: int| 0 <= i < b.moves@.len() ==> (#[trigger] b.moves@[i]).promotion.is_none(),
    ensures
        read_record(board_record(b)) == Some(
            (pieces_of(b.grid()), b.moves@, b.turn, b.status, b.draw_offer),
        ),
        grid_of_pieces(pieces_of(b.grid())) == b.grid(),
{
    let g = b.grid();
    let x0 = squares_code(g, 64);
    let x1 = moves_code(b.moves@);
    let x2 = decimal(b.turn as nat);
    let x3 = seq![status_code(b.status)];
    let x4 = seq![
        if b.draw_offer {
            't'
        } else {
            'f'
        },
    ];
    assert(board_record(b) == join_fields(x0, x1, x2, x3, x4));
    lemma_squares_code_no_slash(g, 64);
    lemma_moves_code(b.moves@);
    lemma_decimal(b.turn as nat);
    assert(no_slash(x2)) by {
        assert forall|i: int| 0 <= i < x2.len() implies #[trigger] x2[i] != '/' by {
            assert(is_digit(x2[i]));
        }
    }
    assert(no_slash(x3));
    assert(no_slash(x4));
    lemma_join_fields(x0, x1, x2, x3, x4);

    lemma_read_squares(g, 0);
    assert(Seq::new((64 - 0) as nat, |j: int| g(square_at_index(0 + j))) =~= pieces_of(g));
    assert forall|i: int| 0 <= i < b.moves@.len() implies (#[trigger] b.moves@[i]).wf()
        && b.moves@[i].promotion.is_none() by {}
    lemma_read_moves_code(b.moves@);
    lemma_parse_decimal(b.turn);

    assert forall|q: Square| #[trigger] grid_of_pieces(pieces_of(g))(q) == g(q) by {
        if q.wf() {
            lemma_index_square(q);
        }
    }
    assert(grid_of_pieces(pieces_of(g)) =~= g);
}

/// Reading back the record of a board gives a board with the same
/// position, moves, turn, status and draw offer, for every settled board:
/// the starting board, and each board that a move without promotion makes
/// from a settled one (see `Board::new` and `Board::perform`).
pub proof fn lemma_serialize_round_trip(b: Board, nb: Board)
    requires
        b.settled(),
        deserialized(board_record(b), nb),
    ensures
        read_record(board_record(b)).is_some(),
        nb.grid() == b.grid(),
        nb.moves@ == b.moves@,
        nb.turn == b.turn,
        nb.status == b.status,
        nb.draw_offer == b.draw_offer,
{
    lemma_record_round_trip(b);
    lemma_same_position(nb, b);
}

} // verus!
