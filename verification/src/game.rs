//! The snake game state machine: board, snake body, food and moves.
//!
//! Cells are addressed by a single linear index `row * width + col`. The
//! snake is an ordered sequence of cell indices with the head at the back.
//! A move applies the heading's signed offset to the head index; the index
//! domain wraps around at the `usize` boundary (the explicit wrap policy
//! for moves whose offset escapes the board: no bounds check rejects them,
//! so an escaping move aliases into another row or wraps around).

use vstd::prelude::*;
use vstd::arithmetic::div_mod::{lemma_small_mod, lemma_mod_multiples_vanish};
use std::collections::VecDeque;
use crate::direction::{Direction, offset_spec};

verus! {

/// How many random draws food placement makes before it falls back to
/// scanning for the first free cell.
pub const SPAWN_TRIES: usize = 32;

/// The mathematical model of a game state.
pub ghost struct GameView {
    pub snake: Seq<usize>,
    pub apples: Seq<usize>,
    pub direction: Direction,
    pub width: nat,
    pub height: nat,
}

/// One running game: the snake (head at the back), the food cells, the
/// current heading and the fixed board dimensions `(width, height)`.
pub struct SnakeGame {
    pub snake: VecDeque<usize>,
    pub apples: Vec<usize>,
    pub direction: Direction,
    pub board_size: (usize, usize),
}

impl View for SnakeGame {
    type V = GameView;

    open spec fn view(&self) -> GameView {
        GameView {
            snake: self.snake@,
            apples: self.apples@,
            direction: self.direction,
            width: self.board_size.0 as nat,
            height: self.board_size.1 as nat,
        }
    }
}

impl GameView {
    /// The number of cells of the board.
    pub open spec fn cells(self) -> nat {
        self.width * self.height
    }

    /// Well-formedness: positive dimensions whose product fits the index
    /// domain, a non-empty snake, and all food on the board. Snake indices
    /// are not constrained: a move may take the head out of the logical
    /// board (see the module doc).
    pub open spec fn wf(self) -> bool {
        &&& 1 <= self.width
        &&& 1 <= self.height
        &&& self.width * self.height <= usize::MAX
        &&& 1 <= self.snake.len()
        &&& forall|i: int| 0 <= i < self.apples.len() ==> (#[trigger] self.apples[i]) < self.cells()
    }

    /// The snake's head: the most recently added cell.
    pub open spec fn head(self) -> usize {
        self.snake.last()
    }
}

/// Reduces a signed index computation back into the `usize` index domain.
pub open spec fn wrap_index(v: int) -> usize {
    (v % (usize::MAX as int + 1)) as usize
}

/// The cell the head moves to: the heading's offset applied to the head
/// index, wrapped at the `usize` boundary.
pub open spec fn next_head(g: GameView, d: Direction) -> usize {
    wrap_index(g.head() + offset_spec(d, g.width as int))
}

/// Whether a move in direction `d` lands on a food cell.
pub open spec fn eats(g: GameView, d: Direction) -> bool {
    g.apples.contains(next_head(g, d))
}

/// The position of the first occurrence of `v` in `s`, or `-1` if absent.
pub open spec fn first_pos(s: Seq<usize>, v: usize) -> int
    decreases s.len(),
{
    if s.len() == 0 {
        -1
    } else if s[0] == v {
        0
    } else {
        let r = first_pos(s.drop_first(), v);
        if r < 0 {
            -1
        } else {
            r + 1
        }
    }
}

/// What `first_pos` returns: `-1` exactly when `v` is absent, otherwise
/// the least index holding `v`.
pub proof fn lemma_first_pos(s: Seq<usize>, v: usize)
    ensures
        first_pos(s, v) == -1 <==> !s.contains(v),
        first_pos(s, v) >= 0 ==> {
            &&& 0 <= first_pos(s, v) < s.len()
            &&& s[first_pos(s, v)] == v
            &&& forall|i: int| 0 <= i < first_pos(s, v) ==> s[i] != v
        },
    decreases s.len(),
{
    if s.len() == 0 {
        assert(!s.contains(v));
    } else if s[0] == v {
        assert(s.contains(v));
    } else {
        lemma_first_pos(s.drop_first(), v);
        let t = s.drop_first();
        assert(s.contains(v) <==> t.contains(v)) by {
            if s.contains(v) {
                let i = choose|i: int| 0 <= i < s.len() && s[i] == v;
                assert(t[i - 1] == v);
                assert(t.contains(v));
            }
            if t.contains(v) {
                let i = choose|i: int| 0 <= i < t.len() && t[i] == v;
                assert(s[i + 1] == v);
                assert(s.contains(v));
            }
        }
        if first_pos(t, v) >= 0 {
            assert(forall|i: int| 0 <= i < first_pos(s, v) ==> s[i] != v) by {
                assert(forall|i: int| 1 <= i < first_pos(s, v) ==> s[i] == t[i - 1]);
            }
        }
    }
}

/// `s` with the first occurrence of `v` removed, if there is one.
pub open spec fn remove_first_match(s: Seq<usize>, v: usize) -> Seq<usize> {
    if first_pos(s, v) >= 0 {
        s.remove(first_pos(s, v))
    } else {
        s
    }
}

/// A board with positive dimensions has at least one cell.
pub proof fn lemma_cells_pos(w: nat, h: nat)
    requires
        1 <= w,
        1 <= h,
    ensures
        1 <= w * h,
{
    assert(1 <= w * h) by (nonlinear_arith)
        requires
            1 <= w,
            1 <= h,
    ;
}

/// Relies on `rand::Rng::gen_range` over `rand::thread_rng`: a uniformly
/// random value in `0..n`. It panics only on an empty range, which
/// `n >= 1` rules out.
#[verifier::external_body]
fn random_below(n: usize) -> (r: usize)
    requires
        n >= 1,
    ensures
        r < n,
{
    rand::Rng::gen_range(&mut rand::thread_rng(), 0..n)
}

/// First position of `v` in the deque, scanning from the front (the tail
/// of the snake).
pub(crate) fn deque_find(q: &VecDeque<usize>, v: usize) -> (r: Option<usize>)
    ensures
        match r {
            Some(i) => {
                &&& i < q@.len()
                &&& q@[i as int] == v
                &&& forall|k: int| 0 <= k < i ==> q@[k] != v
                &&& first_pos(q@, v) == i
                &&& q@.contains(v)
            },
            None => {
                &&& !q@.contains(v)
                &&& first_pos(q@, v) == -1
            },
        },
{
    proof {
        lemma_first_pos(q@, v);
    }
    let mut i: usize = 0;
    while i < q.len()
        invariant
            i <= q@.len(),
            forall|k: int| 0 <= k < i ==> q@[k] != v,
        decreases q@.len() - i,
    {
        if q[i] == v {
            proof {
                lemma_first_pos(q@, v);
                assert(q@.contains(v));
                let fp = first_pos(q@, v);
                assert(fp >= 0);
                assert(fp >= i) by {
                    if fp < i {
                        assert(q@[fp] != v);
                    }
                }
                assert(fp <= i) by {
                    if fp > i {
                        assert(q@[i as int] != v);
                    }
                }
            }
            return Some(i);
        }
        i += 1;
    }
    proof {
        lemma_first_pos(q@, v);
        assert(!q@.contains(v)) by {
            if q@.contains(v) {
                let j = choose|j: int| 0 <= j < q@.len() && q@[j] == v;
                assert(q@[j] != v);
            }
        }
    }
    None
}

/// First position of `v` in the vector.
pub(crate) fn vec_find(s: &Vec<usize>, v: usize) -> (r: Option<usize>)
    ensures
        match r {
            Some(i) => {
                &&& i < s@.len()
                &&& s@[i as int] == v
                &&& forall|k: int| 0 <= k < i ==> s@[k] != v
                &&& first_pos(s@, v) == i
                &&& s@.contains(v)
            },
            None => {
                &&& !s@.contains(v)
                &&& first_pos(s@, v) == -1
            },
        },
{
    proof {
        lemma_first_pos(s@, v);
    }
    let mut i: usize = 0;
    while i < s.len()
        invariant
            i <= s@.len(),
            forall|k: int| 0 <= k < i ==> s@[k] != v,
        decreases s@.len() - i,
    {
        if s[i] == v {
            proof {
                lemma_first_pos(s@, v);
                assert(s@.contains(v));
                let fp = first_pos(s@, v);
                assert(fp >= 0);
                assert(fp >= i) by {
                    if fp < i {
                        assert(s@[fp] != v);
                    }
                }
                assert(fp <= i) by {
                    if fp > i {
                        assert(s@[i as int] != v);
                    }
                }
            }
            return Some(i);
        }
        i += 1;
    }
    proof {
        lemma_first_pos(s@, v);
        assert(!s@.contains(v)) by {
            if s@.contains(v) {
                let j = choose|j: int| 0 <= j < s@.len() && s@[j] == v;
                assert(s@[j] != v);
            }
        }
    }
    None
}

/// The head's next cell under the wrap-at-`usize` policy.
pub fn next_cell(head: usize, d: Direction, width: usize) -> (r: usize)
    requires
        width >= 1,
    ensures
        r == wrap_index(head + offset_spec(d, width as int)),
{
    let m: usize = usize::MAX;
    proof {
        let n = usize::MAX as int + 1;
        lemma_mod_multiples_vanish(1, head - width, n);
        lemma_mod_multiples_vanish(-1, head + width, n);
        lemma_mod_multiples_vanish(1, head - 1, n);
        lemma_mod_multiples_vanish(-1, head + 1, n);
        if head >= width {
            lemma_small_mod((head - width) as nat, n as nat);
        } else {
            lemma_small_mod((head - width + n) as nat, n as nat);
        }
        if head <= usize::MAX - width {
            lemma_small_mod((head + width) as nat, n as nat);
        } else {
            lemma_small_mod((head + width - n) as nat, n as nat);
        }
        if head >= 1 {
            lemma_small_mod((head - 1) as nat, n as nat);
        } else {
            lemma_small_mod((head - 1 + n) as nat, n as nat);
        }
        if head <= usize::MAX - 1 {
            lemma_small_mod((head + 1) as nat, n as nat);
        } else {
            lemma_small_mod((head + 1 - n) as nat, n as nat);
        }
    }
    match d {
        Direction::Up => {
            if head >= width {
                head - width
            } else {
                (m - width) + head + 1
            }
        },
        Direction::Down => {
            if head <= m - width {
                head + width
            } else {
                head - (m - width) - 1
            }
        },
        Direction::Left => {
            if head >= 1 {
                head - 1
            } else {
                m
            }
        },
        Direction::Right => {
            if head <= m - 1 {
                head + 1
            } else {
                0
            }
        },
    }
}

/// A free cell for new food: a bounded number of uniform draws rejected
/// while they land on the snake, then a scan for the first free cell, so
/// that placement terminates even on a snake-covered board.
fn spawn_apple(snake: &VecDeque<usize>, num_cells: usize) -> (r: Option<usize>)
    requires
        num_cells >= 1,
    ensures
        match r {
            Some(a) => a < num_cells && !snake@.contains(a),
            None => forall|c: usize| c < num_cells ==> snake@.contains(c),
        },
{
    let mut tries: usize = 0;
    while tries < SPAWN_TRIES
        invariant
            num_cells >= 1,
        decreases SPAWN_TRIES - tries,
    {
        let loc = random_below(num_cells);
        if deque_find(snake, loc).is_none() {
            return Some(loc);
        }
        tries += 1;
    }
    let mut c: usize = 0;
    while c < num_cells
        invariant
            forall|k: usize| k < c ==> snake@.contains(k),
        decreases num_cells - c,
    {
        if deque_find(snake, c).is_none() {
            return Some(c);
        }
        c += 1;
    }
    None
}

impl Default for SnakeGame {
    /// An empty game on the default 20-by-10 board, heading up.
    fn default() -> (g: SnakeGame)
        ensures
            g@.snake.len() == 0,
            g@.apples.len() == 0,
            g@.direction == Direction::Up,
            g@.width == 20,
            g@.height == 10,
    {
        SnakeGame {
            snake: VecDeque::new(),
            apples: Vec::new(),
            direction: Direction::Up,
            board_size: (20, 10),
        }
    }
}

impl SnakeGame {
    /// Places a snake of length one and one food cell, each at a uniformly
    /// random cell of the board (the first food cell is not re-checked
    /// against the snake, so the two may coincide right after placement).
    pub fn init(&mut self)
        requires
            old(self)@.width >= 1,
            old(self)@.height >= 1,
            old(self)@.width * old(self)@.height <= usize::MAX,
        ensures
            final(self)@.snake.len() == 1,
            final(self)@.snake[0] < old(self)@.cells(),
            final(self)@.apples == old(self)@.apples.push(final(self)@.apples.last()),
            final(self)@.apples.last() < old(self)@.cells(),
            final(self)@.direction == old(self)@.direction,
            final(self)@.width == old(self)@.width,
            final(self)@.height == old(self)@.height,
    {
        proof {
            lemma_cells_pos(old(self)@.width, old(self)@.height);
        }
        let num_cells = self.board_size.0 * self.board_size.1;
        self.snake = VecDeque::with_capacity(num_cells);
        self.snake.push_back(random_below(num_cells));
        self.apples.push(random_below(num_cells));
    }

    /// A fresh well-formed game on a `width`-by-`height` board: a snake of
    /// length one and exactly one food cell, both within the board.
    pub fn new_game(width: usize, height: usize) -> (g: SnakeGame)
        requires
            width >= 1,
            height >= 1,
            width * height <= usize::MAX,
        ensures
            g@.wf(),
            g@.width == width,
            g@.height == height,
            g@.snake.len() == 1,
            g@.snake[0] < g@.cells(),
            g@.apples.len() == 1,
            g@.apples[0] < g@.cells(),
            g@.direction == Direction::Up,
    {
        let mut g = SnakeGame::default();
        g.board_size = (width, height);
        g.init();
        g
    }

    /// A fresh game for any requested dimensions: a game exactly as
    /// `new_game` gives when both dimensions are positive and the board's
    /// cell count fits the index domain, and nothing otherwise.
    pub fn try_new_game(width: usize, height: usize) -> (r: Option<SnakeGame>)
        ensures
            match r {
                Some(g) => {
                    &&& width >= 1
                    &&& height >= 1
                    &&& width * height <= usize::MAX
                    &&& g@.wf()
                    &&& g@.width == width
                    &&& g@.height == height
                    &&& g@.snake.len() == 1
                    &&& g@.snake[0] < g@.cells()
                    &&& g@.apples.len() == 1
                    &&& g@.apples[0] < g@.cells()
                    &&& g@.direction == Direction::Up
                },
                None => width < 1 || height < 1 || width * height > usize::MAX,
            },
    {
        if width >= 1 && height >= 1 && width <= usize::MAX / height {
            proof {
                assert(width * height <= usize::MAX) by (nonlinear_arith)
                    requires
                        1 <= height,
                        width <= usize::MAX as int / height as int,
                ;
            }
            Some(SnakeGame::new_game(width, height))
        } else {
            proof {
                if width >= 1 && height >= 1 {
                    assert(width > usize::MAX as int / height as int ==> width * height
                        > usize::MAX) by (nonlinear_arith)
                        requires
                            1 <= height,
                    ;
                }
            }
            None
        }
    }

    /// One accepted move: the heading becomes `direction` and the head
    /// advances to its neighbouring cell under the wrap policy. Landing on
    /// food keeps the tail (the snake grows by one), consumes that food
    /// cell and spawns one new food cell off the snake — unless the snake
    /// covers every cell, in which case no new food appears. Landing
    /// elsewhere drops the tail (the length is unchanged). No wall or self
    /// collision is detected: the game has no losing state.
    pub fn move_snake(&mut self, direction: Direction)
        requires
            old(self)@.wf(),
        ensures
            final(self)@.wf(),
            final(self)@.width == old(self)@.width,
            final(self)@.height == old(self)@.height,
            final(self)@.direction == direction,
            eats(old(self)@, direction) ==> {
                &&& final(self)@.snake == old(self)@.snake.push(next_head(old(self)@, direction))
                &&& final(self)@.snake.len() == old(self)@.snake.len() + 1
            },
            !eats(old(self)@, direction) ==> {
                &&& final(self)@.snake == old(self)@.snake.drop_first().push(
                    next_head(old(self)@, direction),
                )
                &&& final(self)@.snake.len() == old(self)@.snake.len()
                &&& final(self)@.apples == old(self)@.apples
            },
            eats(old(self)@, direction) && (exists|c: usize|
                c < old(self)@.cells() && !final(self)@.snake.contains(c)) ==> {
                &&& final(self)@.apples == remove_first_match(
                    old(self)@.apples,
                    next_head(old(self)@, direction),
                ).push(final(self)@.apples.last())
                &&& final(self)@.apples.len() == old(self)@.apples.len()
                &&& final(self)@.apples.last() < old(self)@.cells()
                &&& !final(self)@.snake.contains(final(self)@.apples.last())
            },
            eats(old(self)@, direction) && !(exists|c: usize|
                c < old(self)@.cells() && !final(self)@.snake.contains(c)) ==>
                final(self)@.apples == remove_first_match(
                    old(self)@.apples,
                    next_head(old(self)@, direction),
                ),
    {
        self.direction = direction;
        let head = self.snake[self.snake.len() - 1];
        let next = next_cell(head, direction, self.board_size.0);
        self.snake.push_back(next);
        proof {
            lemma_first_pos(old(self)@.apples, next);
        }
        match vec_find(&self.apples, next) {
            Some(pos) => {
                self.apples.remove(pos);
                proof {
                    lemma_cells_pos(old(self)@.width, old(self)@.height);
                }
                let num_cells = self.board_size.0 * self.board_size.1;
                match spawn_apple(&self.snake, num_cells) {
                    Some(a) => {
                        self.apples.push(a);
                    },
                    None => {},
                }
            },
            None => {
                self.snake.pop_front();
            },
        }
    }
}

} // verus!
