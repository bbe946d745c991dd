//! Movement directions, their index offsets and their reaction symbols.

use vstd::prelude::*;
use crate::text::str_eq;

verus! {

/// A movement direction for the snake's head.
#[derive(Clone, Copy, Debug, PartialEq, Eq, Structural)]
pub enum Direction {
    Up,
    Down,
    Left,
    Right,
}

/// The signed offset a direction applies to a linear cell index on a board
/// whose rows are `row_length` cells wide.
pub open spec fn offset_spec(d: Direction, row_length: int) -> int {
    match d {
        Direction::Up => -row_length,
        Direction::Down => row_length,
        Direction::Left => -1,
        Direction::Right => 1,
    }
}

impl Direction {
    /// The offset added to the head's cell index by a move in this direction.
    pub fn offset(&self, row_length: usize) -> (r: i32)
        requires
            row_length <= i32::MAX,
        ensures
            r == offset_spec(*self, row_length as int),
    {
        match self {
            Direction::Up => -(row_length as i32),
            Direction::Down => row_length as i32,
            Direction::Left => -1,
            Direction::Right => 1,
        }
    }

    /// All four directions, in the order their reaction controls are attached.
    pub fn all() -> (r: Vec<Direction>)
        ensures
            r@ == seq![Direction::Left, Direction::Down, Direction::Up, Direction::Right],
    {
        let mut v: Vec<Direction> = Vec::new();
        v.push(Direction::Left);
        v.push(Direction::Down);
        v.push(Direction::Up);
        v.push(Direction::Right);
        assert(v@ =~= seq![Direction::Left, Direction::Down, Direction::Up, Direction::Right]);
        v
    }
    /// The reaction symbol that stands for this direction: an arrow emoji
    /// followed by the emoji variation selector.
    pub fn emoji(&self) -> (r: &'static str)
        ensures
            r@ == emoji_spec(*self),
    {
        match self {
            Direction::Up => "\u{2b06}\u{fe0f}",
            Direction::Down => "\u{2b07}\u{fe0f}",
            Direction::Right => "\u{27a1}\u{fe0f}",
            Direction::Left => "\u{2b05}\u{fe0f}",
        }
    }
}

/// The characters of each direction's reaction symbol.
pub open spec fn emoji_spec(d: Direction) -> Seq<char> {
    match d {
        Direction::Up => "\u{2b06}\u{fe0f}"@,
        Direction::Down => "\u{2b07}\u{fe0f}"@,
        Direction::Right => "\u{27a1}\u{fe0f}"@,
        Direction::Left => "\u{2b05}\u{fe0f}"@,
    }
}

/// No two directions share a reaction symbol.
pub proof fn lemma_emoji_injective(a: Direction, b: Direction)
    requires
        emoji_spec(a) == emoji_spec(b),
    ensures
        a == b,
{
    reveal_strlit("\u{2b06}\u{fe0f}");
    reveal_strlit("\u{2b07}\u{fe0f}");
    reveal_strlit("\u{27a1}\u{fe0f}");
    reveal_strlit("\u{2b05}\u{fe0f}");
    let su = emoji_spec(Direction::Up);
    let sd = emoji_spec(Direction::Down);
    let sl = emoji_spec(Direction::Left);
    let sr = emoji_spec(Direction::Right);
    assert(su[0] != sd[0] && su[0] != sl[0] && su[0] != sr[0]);
    assert(sd[0] != sl[0] && sd[0] != sr[0]);
    assert(sl[0] != sr[0]);
    match a {
        Direction::Up => {
            assert(emoji_spec(a) == su);
        },
        Direction::Down => {
            assert(emoji_spec(a) == sd);
        },
        Direction::Left => {
            assert(emoji_spec(a) == sl);
        },
        Direction::Right => {
            assert(emoji_spec(a) == sr);
        },
    }
    match b {
        Direction::Up => {
            assert(emoji_spec(b) == su);
        },
        Direction::Down => {
            assert(emoji_spec(b) == sd);
        },
        Direction::Left => {
            assert(emoji_spec(b) == sl);
        },
        Direction::Right => {
            assert(emoji_spec(b) == sr);
        },
    }
}

/// The direction whose reaction symbol is `symbol`, if any.
pub fn match_direction(symbol: &str) -> (r: Option<Direction>)
    ensures
        match r {
            Some(d) => symbol@ == emoji_spec(d),
            None => forall|d: Direction| symbol@ != emoji_spec(d),
        },
{
    if str_eq(symbol, Direction::Up.emoji()) {
        Some(Direction::Up)
    } else if str_eq(symbol, Direction::Down.emoji()) {
        Some(Direction::Down)
    } else if str_eq(symbol, Direction::Left.emoji()) {
        Some(Direction::Left)
    } else if str_eq(symbol, Direction::Right.emoji()) {
        Some(Direction::Right)
    } else {
        proof {
            assert forall|d: Direction| symbol@ != emoji_spec(d) by {
                assert(symbol@ != emoji_spec(Direction::Up));
                assert(symbol@ != emoji_spec(Direction::Down));
                assert(symbol@ != emoji_spec(Direction::Left));
                assert(symbol@ != emoji_spec(Direction::Right));
            }
        }
        None
    }
}

/// Whether a reaction event moves the snake: never the process's own
/// reaction, never without a live session, never from another channel
/// than the board's, and otherwise exactly when the symbol is one of the
/// four direction controls.
pub fn decide_move(own_reaction: bool, has_session: bool, channel_matches: bool, symbol: &str) -> (r:
    Option<Direction>)
    ensures
        match r {
            Some(d) => !own_reaction && has_session && channel_matches && symbol@ == emoji_spec(d),
            None => own_reaction || !has_session || !channel_matches || (forall|d: Direction|
                symbol@ != emoji_spec(d)),
        },
{
    if own_reaction || !has_session || !channel_matches {
        None
    } else {
        match_direction(symbol)
    }
}

} // verus!
