use vstd::prelude::*;
use vstd::string::*;

verus! {

/// A square of the board: (file, rank), each 0..=7 on a valid square.
#[derive(Debug, Clone, Copy, PartialEq, Eq, Hash, Structural)]
pub struct Square(pub usize, pub usize);

impl Square {
    pub open spec fn wf(self) -> bool {
        self.0 < 8 && self.1 < 8
    }

    /// The square `(file, rank)` away from this one, when it is on the board.
    pub open spec fn shifted(self, file: int, rank: int) -> Option<Square> {
        let f = self.0 + file;
        let r = self.1 + rank;
        if 0 <= f < 8 && 0 <= r < 8 {
            Some(Square(f as usize, r as usize))
        } else {
            None
        }
    }
}

pub open spec fn file_char(f: int) -> char {
    if f == 0 {
        'a'
    } else if f == 1 {
        'b'
    } else if f == 2 {
        'c'
    } else if f == 3 {
        'd'
    } else if f == 4 {
        'e'
    } else if f == 5 {
        'f'
    } else if f == 6 {
        'g'
    } else {
        'h'
    }
}

pub open spec fn rank_char(r: int) -> char {
    if r == 0 {
        '1'
    } else if r == 1 {
        '2'
    } else if r == 2 {
        '3'
    } else if r == 3 {
        '4'
    } else if r == 4 {
        '5'
    } else if r == 5 {
        '6'
    } else if r == 6 {
        '7'
    } else {
        '8'
    }
}

/// The file that a letter `a`..`h` names.
pub open spec fn file_of_char(c: char) -> Option<usize> {
    if 'a' <= c <= 'h' {
        Some((c as u32 - 'a' as u32) as usize)
    } else {
        None
    }
}

/// The rank that a digit `1`..`8` names.
pub open spec fn rank_of_char(c: char) -> Option<usize> {
    if '1' <= c <= '8' {
        Some((c as u32 - '1' as u32) as usize)
    } else {
        None
    }
}

/// The notation of a square: its file letter, then its rank digit ("e4").
pub open spec fn square_notation(sq: Square) -> Seq<char> {
    seq![file_char(sq.0 as int), rank_char(sq.1 as int)]
}

/// The square that a two-character notation names.
pub open spec fn square_of_notation(s: Seq<char>) -> Option<Square> {
    if s.len() == 2 && file_of_char(s[0]).is_some() && rank_of_char(s[1]).is_some() {
        Some(Square(file_of_char(s[0]).unwrap(), rank_of_char(s[1]).unwrap()))
    } else {
        None
    }
}

pub proof fn lemma_file_char_round_trip(f: int)
    requires
        0 <= f < 8,
    ensures
        file_of_char(file_char(f)) == Some(f as usize),
{
}

pub proof fn lemma_rank_char_round_trip(r: int)
    requires
        0 <= r < 8,
    ensures
        rank_of_char(rank_char(r)) == Some(r as usize),
{
}

/// Reading back the notation of a square gives the square.
pub proof fn lemma_square_notation_round_trip(sq: Square)
    requires
        sq.wf(),
    ensures
        square_of_notation(square_notation(sq)) == Some(sq),
{
    lemma_file_char_round_trip(sq.0 as int);
    lemma_rank_char_round_trip(sq.1 as int);
}

pub fn file_letter(f: usize) -> (c: char)
    requires
        f < 8,
    ensures
        c == file_char(f as int),
{
    match f {
        0 => 'a',
        1 => 'b',
        2 => 'c',
        3 => 'd',
        4 => 'e',
        5 => 'f',
        6 => 'g',
        _ => 'h',
    }
}

pub fn rank_digit(r: usize) -> (c: char)
    requires
        r < 8,
    ensures
        c == rank_char(r as int),
{
    match r {
        0 => '1',
        1 => '2',
        2 => '3',
        3 => '4',
        4 => '5',
        5 => '6',
        6 => '7',
        _ => '8',
    }
}

pub fn file_from_char(c: char) -> (r: Option<usize>)
    ensures
        r == file_of_char(c),
{
    if 'a' <= c && c <= 'h' {
        Some((c as u32 - 'a' as u32) as usize)
    } else {
        None
    }
}

pub fn rank_from_char(c: char) -> (r: Option<usize>)
    ensures
        r == rank_of_char(c),
{
    if '1' <= c && c <= '8' {
        Some((c as u32 - '1' as u32) as usize)
    } else {
        None
    }
}

/// Relies on `FromIterator<char>` for `String`: the string holds the
/// characters in order.
#[verifier::external_body]
pub(crate) fn string_from_chars(chars: &Vec<char>) -> (r: String)
    ensures
        r@ == chars@,
{
    String::from_iter(chars)
}

impl Square {
    pub fn new(file: usize, rank: usize) -> (r: Option<Square>)
        ensures
            r == (if file < 8 && rank < 8 {
                Some(Square(file, rank))
            } else {
                None
            }),
    {
        if file < 8 && rank < 8 {
            Some(Square(file, rank))
        } else {
            None
        }
    }

    pub fn file(&self) -> (r: usize)
        ensures
            r == self.0,
    {
        self.0
    }

    pub fn rank(&self) -> (r: usize)
        ensures
            r == self.1,
    {
        self.1
    }

    pub fn to_notation(&self) -> (r: String)
        requires
            self.wf(),
        ensures
            r@ == square_notation(*self),
    {
        let mut v: Vec<char> = Vec::new();
        v.push(file_letter(self.0));
        v.push(rank_digit(self.1));
        let r = string_from_chars(&v);
        assert(r@ =~= square_notation(*self));
        r
    }

    pub fn from_notation(notation: &str) -> (r: Option<Square>)
        ensures
            r == square_of_notation(notation@),
    {
        if notation.unicode_len() != 2 {
            return None;
        }
        let f = file_from_char(notation.get_char(0));
        let r = rank_from_char(notation.get_char(1));
        match (f, r) {
            (Some(f), Some(r)) => Some(Square(f, r)),
            _ => None,
        }
    }

    pub fn offset(&self, file: isize, rank: isize) -> (r: Option<Square>)
        requires
            self.wf(),
        ensures
            r == self.shifted(file as int, rank as int),
    {
        if file < -8 || file > 8 || rank < -8 || rank > 8 {
            return None;
        }
        let f = self.0 as isize + file;
        let r = self.1 as isize + rank;
        if 0 <= f && f < 8 && 0 <= r && r < 8 {
            Some(Square(f as usize, r as usize))
        } else {
            None
        }
    }
}

/// A set of squares, one flag per square.
#[derive(Clone, Copy)]
pub struct SquareSet {
    pub bits: [[bool; 8]; 8],
}

impl SquareSet {
    pub open spec fn has(self, sq: Square) -> bool {
        sq.wf() && self.bits[sq.0 as int][sq.1 as int]
    }

    pub fn new() -> (r: SquareSet)
        ensures
            forall|q: Square| !r.has(q),
    {
        SquareSet { bits: [[false; 8]; 8] }
    }

    pub fn contains(&self, sq: Square) -> (r: bool)
        ensures
            r == self.has(sq),
    {
        if sq.0 < 8 && sq.1 < 8 {
            self.bits[sq.0][sq.1]
        } else {
            false
        }
    }

    pub fn insert(&mut self, sq: Square)
        requires
            sq.wf(),
        ensures
            forall|q: Square| #[trigger] final(self).has(q) == (old(self).has(q) || q == sq),
    {
        let mut row = self.bits[sq.0];
        row[sq.1] = true;
        self.bits[sq.0] = row;
    }

    /// Adds every square of `other`.
    pub fn extend(&mut self, other: &SquareSet)
        ensures
            forall|q: Square| #[trigger] final(self).has(q) == (old(self).has(q) || other.has(q)),
    {
        let start = *self;
        let mut acc = *self;
        let mut f: usize = 0;
        while f < 8
            invariant
                0 <= f <= 8,
                forall|q: Square| acc.has(q) == (start.has(q) || (other.has(q) && q.0 < f)),
            decreases 8 - f,
        {
            let mut r: usize = 0;
            while r < 8
                invariant
                    0 <= f < 8,
                    0 <= r <= 8,
                    forall|q: Square|
                        acc.has(q) == (start.has(q) || (other.has(q) && (q.0 < f || (q.0 == f
                            && q.1 < r)))),
                decreases 8 - r,
            {
                if other.bits[f][r] {
                    acc.insert(Square(f, r));
                }
                r += 1;
            }
            f += 1;
        }
        *self = acc;
    }
}

} // verus!
