//! Display preferences of the surrounding program.
use vstd::prelude::*;
use crate::square::string_from_chars;

verus! {

/// Whether the board is drawn with chess glyphs, the server's address, and
/// how many columns a square takes.
#[derive(Debug, Clone)]
pub struct Config {
    pub unicode: bool,
    pub address: String,
    pub spacing: usize,
}

impl Default for Config {
    fn default() -> (r: Config)
        ensures
            !r.unicode,
            r.address@ == "http://127.0.0.1:8080"@,
            r.spacing == 3,
    {
        Config { unicode: false, address: "http://127.0.0.1:8080".to_owned(), spacing: 3 }
    }
}

impl Config {
    /// The padding that goes before a square: one space fewer than the
    /// spacing.
    pub fn get_spaces(&self) -> (r: String)
        requires
            self.spacing >= 1,
        ensures
            r@ == Seq::new((self.spacing - 1) as nat, |i: int| ' '),
    {
        let mut v: Vec<char> = Vec::new();
        let mut i: usize = 0;
        while i < self.spacing - 1
            invariant
                self.spacing >= 1,
                0 <= i <= self.spacing - 1,
                v@ == Seq::new(i as nat, |j: int| ' '),
            decreases self.spacing - 1 - i,
        {
            v.push(' ');
            i += 1;
            assert(v@ =~= Seq::new(i as nat, |j: int| ' '));
        }
        string_from_chars(&v)
    }

    /// Plain letters always take three columns.
    pub fn modify(self) -> (r: Config)
        ensures
            r.unicode == self.unicode,
            r.address == self.address,
            r.spacing == (if self.unicode {
                self.spacing
            } else {
                3
            }),
    {
        let mut c = self;
        if !c.unicode {
            c.spacing = 3;
        }
        c
    }
}

} // verus!
