//! Commands typed at the prompt.
use vstd::prelude::*;
use vstd::string::*;

verus! {

/// A move in notation, giving up, offering or taking a draw, or a message to
/// the other player.
#[derive(Debug, Clone, PartialEq, Eq, Hash)]
pub enum Command {
    Chess(String),
    Resign,
    Draw,
    Chat(String),
}

/// What `str::trim` makes of a text: the characters with the Unicode
/// `White_Space` property removed at both ends.
pub uninterp spec fn trimmed(s: Seq<char>) -> Seq<char>;

/// Relies on `str::trim`, which removes leading and trailing white space;
/// the result depends on the characters alone.
#[verifier::external_body]
fn trim_text(s: &str) -> (r: String)
    ensures
        r@ == trimmed(s@),
{
    s.trim().to_owned()
}

/// The characters that move notation uses.
pub open spec fn chess_char(c: char) -> bool {
    ||| 'a' <= c <= 'h'
    ||| '0' <= c <= '8'
    ||| c == 'Q'
    ||| c == 'R'
    ||| c == 'B'
    ||| c == 'N'
    ||| c == 'K'
    ||| c == 'x'
    ||| c == '='
}

pub open spec fn is_chat(s: Seq<char>) -> bool {
    s.len() >= 5 && s.subrange(0, 4) == "chat"@
}

fn text_is(s: &str, lo: usize, hi: usize, lit: &str) -> (r: bool)
    requires
        lo <= hi <= s@.len(),
    ensures
        r == (s@.subrange(lo as int, hi as int) == lit@),
{
    let n = lit.unicode_len();
    if hi - lo != n {
        return false;
    }
    let mut i: usize = 0;
    while i < n
        invariant
            0 <= i <= n,
            n == lit@.len(),
            hi - lo == n,
            lo <= hi <= s@.len(),
            forall|j: int| 0 <= j < i ==> s@[lo + j] == lit@[j],
        decreases n - i,
    {
        if s.get_char(lo + i) != lit.get_char(i) {
            assert(s@.subrange(lo as int, hi as int)[i as int] != lit@[i as int]);
            return false;
        }
        i += 1;
    }
    assert(s@.subrange(lo as int, hi as int) =~= lit@);
    true
}

/// Reads a line typed at the prompt: `resign`, `quit` or `exit` give up;
/// `draw` offers or takes a draw; `chat` and some text is a message, its
/// text trimmed of white space; anything else is a move, kept to the characters of move
/// notation.
pub fn parse_raw(raw: String) -> (r: Command)
    ensures
        raw@ == "resign"@ || raw@ == "quit"@ || raw@ == "exit"@ ==> r == Command::Resign,
        raw@ == "draw"@ ==> r == Command::Draw,
        !(raw@ == "resign"@ || raw@ == "quit"@ || raw@ == "exit"@ || raw@ == "draw"@) ==> {
            if is_chat(raw@) {
                r matches Command::Chat(text) && text@ == trimmed(raw@.subrange(4, raw@.len() as int))
            } else {
                r matches Command::Chess(text) && text@ == raw@.filter(|c: char| chess_char(c))
            }
        },
{
    proof {
        reveal_strlit("resign");
        reveal_strlit("quit");
        reveal_strlit("exit");
        reveal_strlit("draw");
        reveal_strlit("chat");
        assert("draw"@.len() != "resign"@.len());
        assert("draw"@[0] != "quit"@[0]);
        assert("draw"@[0] != "exit"@[0]);
    }
    let s = raw.as_str();
    let n = s.unicode_len();
    if text_is(s, 0, n, "resign") || text_is(s, 0, n, "quit") || text_is(s, 0, n, "exit") {
        assert(s@.subrange(0, n as int) =~= s@);
        return Command::Resign;
    }
    assert(s@.subrange(0, n as int) =~= s@);
    if text_is(s, 0, n, "draw") {
        return Command::Draw;
    }
    if n >= 5 && text_is(s, 0, 4, "chat") {
        let rest = s.substring_char(4, n);
        return Command::Chat(trim_text(rest));
    }
    let mut kept: Vec<char> = Vec::new();
    let mut i: usize = 0;
    while i < n
        invariant
            0 <= i <= n,
            n == s@.len(),
            kept@ == s@.subrange(0, i as int).filter(|c: char| chess_char(c)),
        decreases n - i,
    {
        let c = s.get_char(i);
        let ghost pre = s@.subrange(0, i as int + 1);
        assert(pre.drop_last() =~= s@.subrange(0, i as int));
        proof {
            reveal(Seq::filter);
        }
        if ('a' <= c && c <= 'h') || ('0' <= c && c <= '8') || c == 'Q' || c == 'R' || c == 'B'
            || c == 'N' || c == 'K' || c == 'x' || c == '=' {
            kept.push(c);
        }
        i += 1;
    }
    Command::Chess(crate::square::string_from_chars(&kept))
}

} // verus!
