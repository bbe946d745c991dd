//! Parsing the chat command that starts a game.
//!
//! A message starting with the literal prefix `snake` starts a game. If
//! exactly two tokens follow the command word, they must be the board's
//! width and height as positive decimal integers; with any other number
//! of extra tokens the default 20-by-10 board is used. Non-numeric or
//! zero dimensions are rejected as a failed command rather than a crash.

use vstd::prelude::*;
use crate::text::{split_on, split_char};

verus! {

/// What a chat message asks for.
#[derive(Clone, Copy, Debug, PartialEq, Eq, Structural)]
pub enum ParsedCommand {
    /// The message is not a game command.
    NotCommand,
    /// Start a game on a board of the given width and height.
    NewGame(usize, usize),
    /// The message named dimensions that are not positive integers that
    /// fit the index domain.
    BadDimensions,
}

/// A decimal digit.
pub open spec fn is_digit(c: char) -> bool {
    '0' <= c && c <= '9'
}

/// The value of a decimal digit.
pub open spec fn digit_val(c: char) -> int {
    c as int - '0' as int
}

/// All characters are decimal digits.
pub open spec fn all_digits(s: Seq<char>) -> bool {
    forall|i: int| 0 <= i < s.len() ==> is_digit(#[trigger] s[i])
}

/// The value of a digit sequence read in base ten.
pub open spec fn dec_val(s: Seq<char>) -> int
    decreases s.len(),
{
    if s.len() == 0 {
        0
    } else {
        dec_val(s.drop_last()) * 10 + digit_val(s.last())
    }
}

/// Digit strings have non-negative values that only grow as digits are
/// appended.
proof fn lemma_dec_val_mono(s: Seq<char>, j: int)
    requires
        all_digits(s),
        0 <= j <= s.len(),
    ensures
        0 <= dec_val(s.take(j)) <= dec_val(s),
    decreases s.len() - j,
{
    if j == s.len() {
        assert(s.take(j) =~= s);
        lemma_dec_val_nonneg(s);
    } else {
        lemma_dec_val_mono(s, j + 1);
        assert(s.take(j + 1).drop_last() =~= s.take(j));
        assert(s.take(j + 1).last() == s[j]);
        lemma_dec_val_nonneg(s.take(j));
    }
}

/// A digit string's value is non-negative.
proof fn lemma_dec_val_nonneg(s: Seq<char>)
    requires
        all_digits(s),
    ensures
        0 <= dec_val(s),
    decreases s.len(),
{
    if s.len() > 0 {
        assert(all_digits(s.drop_last())) by {
            assert(forall|i: int| 0 <= i < s.len() - 1 ==> s.drop_last()[i] == #[trigger] s[i]);
        }
        lemma_dec_val_nonneg(s.drop_last());
    }
}

/// A token is a usable dimension: a non-empty digit string whose value is
/// positive and fits the index domain.
pub open spec fn dim_token_ok(t: Seq<char>) -> bool {
    &&& t.len() >= 1
    &&& all_digits(t)
    &&& 1 <= dec_val(t) <= usize::MAX
}

/// Reads a token as an unsigned decimal number; `None` when the token is
/// empty, holds a non-digit, or names a value past the index domain.
pub fn parse_usize(tok: &Vec<char>) -> (r: Option<usize>)
    ensures
        match r {
            Some(v) => tok@.len() >= 1 && all_digits(tok@) && v == dec_val(tok@),
            None => tok@.len() == 0 || !all_digits(tok@) || dec_val(tok@) > usize::MAX,
        },
{
    if tok.len() == 0 {
        return None;
    }
    let mut acc: usize = 0;
    let mut i: usize = 0;
    proof {
        assert(tok@.take(0) =~= Seq::<char>::empty());
    }
    while i < tok.len()
        invariant
            i <= tok@.len(),
            all_digits(tok@.take(i as int)),
            acc == dec_val(tok@.take(i as int)),
        decreases tok@.len() - i,
    {
        let c = tok[i];
        proof {
            assert(tok@.take(i + 1).drop_last() =~= tok@.take(i as int));
            assert(tok@.take(i + 1).last() == tok@[i as int]);
        }
        let d_opt: Option<usize> = match c {
            '0' => Some(0),
            '1' => Some(1),
            '2' => Some(2),
            '3' => Some(3),
            '4' => Some(4),
            '5' => Some(5),
            '6' => Some(6),
            '7' => Some(7),
            '8' => Some(8),
            '9' => Some(9),
            _ => None,
        };
        let d = match d_opt {
            Some(d) => d,
            None => {
                proof {
                    assert(!is_digit(tok@[i as int]));
                }
                return None;
            },
        };
        proof {
            assert(is_digit(c));
            assert(d == digit_val(c));
            assert(all_digits(tok@.take(i + 1))) by {
                assert(tok@.take(i + 1)[i as int] == c);
                assert(forall|k: int|
                    0 <= k < i ==> tok@.take(i + 1)[k] == #[trigger] tok@.take(i as int)[k]);
            }
        }
        let step = match acc.checked_mul(10) {
            Some(x) => x.checked_add(d),
            None => None,
        };
        match step {
            Some(v) => {
                acc = v;
            },
            None => {
                proof {
                    if all_digits(tok@) {
                        lemma_dec_val_mono(tok@, i + 1);
                    }
                }
                return None;
            },
        }
        i += 1;
    }
    proof {
        assert(tok@.take(i as int) =~= tok@);
    }
    Some(acc)
}

/// What a message means. The command prefix is the literal word `snake`;
/// tokens are separated by single spaces, as the transport delivers them.
pub open spec fn parse_spec(s: Seq<char>) -> ParsedCommand {
    if !(s.len() >= 5 && s.take(5) == "snake"@) {
        ParsedCommand::NotCommand
    } else {
        let toks = split_on(s, ' ');
        if toks.len() != 3 {
            ParsedCommand::NewGame(20, 10)
        } else if dim_token_ok(toks[1]) && dim_token_ok(toks[2]) {
            ParsedCommand::NewGame(dec_val(toks[1]) as usize, dec_val(toks[2]) as usize)
        } else {
            ParsedCommand::BadDimensions
        }
    }
}

/// Parses a chat message: not a command unless it starts with `snake`;
/// the default 20-by-10 board unless exactly two tokens follow; those two
/// tokens as width and height when both are positive integers, and a
/// rejected command otherwise.
pub fn parse_command(content: &str) -> (r: ParsedCommand)
    ensures
        r == parse_spec(content@),
{
    let n = content.unicode_len();
    if n < 5 {
        return ParsedCommand::NotCommand;
    }
    proof {
        reveal_strlit("snake");
    }
    let prefix = "snake";
    let mut i: usize = 0;
    while i < 5
        invariant
            i <= 5,
            content@.len() >= 5,
            prefix@ == "snake"@,
            prefix@.len() == 5,
            forall|k: int| 0 <= k < i ==> content@[k] == prefix@[k],
        decreases 5 - i,
    {
        if content.get_char(i) != prefix.get_char(i) {
            proof {
                assert(content@.take(5)[i as int] != "snake"@[i as int]);
            }
            return ParsedCommand::NotCommand;
        }
        i += 1;
    }
    proof {
        assert(content@.take(5) =~= "snake"@);
    }
    let tokens = split_char(content, ' ');
    if tokens.len() != 3 {
        return ParsedCommand::NewGame(20, 10);
    }
    let w = parse_usize(&tokens[1]);
    let h = parse_usize(&tokens[2]);
    match (w, h) {
        (Some(wv), Some(hv)) => {
            if wv >= 1 && hv >= 1 {
                ParsedCommand::NewGame(wv, hv)
            } else {
                ParsedCommand::BadDimensions
            }
        },
        _ => ParsedCommand::BadDimensions,
    }
}

} // verus!
