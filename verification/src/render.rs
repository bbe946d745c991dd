//! Rendering a game state into glyph rows and bounded text blocks.
//!
//! Each board row becomes one string of per-cell glyphs; a row is
//! truncated once it grows past 1900 units. Consecutive rows are then
//! merged greedily, joined by line breaks, into as few blocks as the
//! 2000-unit budget allows, and the last block gets an invisible padding
//! marker so the transport does not trim a visually blank trailing row.
//! Re-rendering diffs the fresh blocks against the previously shown ones
//! and reports only the changed positions.

use vstd::prelude::*;
use crate::game::{GameView, SnakeGame, first_pos, deque_find, vec_find};
use crate::text::{
    split_on,
    split_all,
    has_no,
    lemma_split_no_sep,
    lemma_split_concat,
    lemma_split_all_one,
};

verus! {

/// The row-length bound past which the rest of a row is truncated.
pub const ROW_CAP: usize = 1900;

/// The block-length budget when merging rows into one message.
pub const BLOCK_CAP: usize = 2000;

/// The lettered glyph that marks a snake cell at a given depth from the
/// head (depth zero is the head itself).
pub open spec fn letter_seq(depth: int) -> Seq<char> {
    if depth == 0 {
        ":regional_indicator_j:"@
    } else if depth == 1 {
        ":regional_indicator_o:"@
    } else if depth == 2 {
        ":regional_indicator_n:"@
    } else if depth == 3 {
        ":regional_indicator_a:"@
    } else if depth == 4 {
        ":regional_indicator_s:"@
    } else if depth == 5 {
        ":regional_indicator_l:"@
    } else if depth == 6 {
        ":regional_indicator_e:"@
    } else if depth == 7 {
        ":regional_indicator_o:"@
    } else if depth == 8 {
        ":regional_indicator_n:"@
    } else if depth == 9 {
        ":regional_indicator_a:"@
    } else if depth == 10 {
        ":regional_indicator_r:"@
    } else {
        ":regional_indicator_d:"@
    }
}

/// The glyph shown at a cell: a lettered snake glyph within twelve cells
/// of the head, a plain body glyph further back, the food glyph, or the
/// background glyph. A cell occupied twice shows the depth of its first
/// (tail-most) occurrence.
pub open spec fn glyph_spec(g: GameView, index: usize) -> Seq<char> {
    let fp = first_pos(g.snake, index);
    if fp >= 0 {
        let depth = g.snake.len() - fp - 1;
        if depth < 12 {
            letter_seq(depth)
        } else {
            ":blue_square:"@
        }
    } else if g.apples.contains(index) {
        ":lemon:"@
    } else {
        ":black_large_square:"@
    }
}

/// Every glyph is short (between 7 and 22 units) and holds no line break.
pub proof fn lemma_glyph_clean(g: GameView, index: usize)
    ensures
        7 <= glyph_spec(g, index).len() <= 22,
        has_no(glyph_spec(g, index), '\n'),
{
    reveal_strlit(":regional_indicator_j:");
    reveal_strlit(":regional_indicator_o:");
    reveal_strlit(":regional_indicator_n:");
    reveal_strlit(":regional_indicator_a:");
    reveal_strlit(":regional_indicator_s:");
    reveal_strlit(":regional_indicator_l:");
    reveal_strlit(":regional_indicator_e:");
    reveal_strlit(":regional_indicator_r:");
    reveal_strlit(":regional_indicator_d:");
    reveal_strlit(":blue_square:");
    reveal_strlit(":lemon:");
    reveal_strlit(":black_large_square:");
}

/// The lettered glyph for a snake cell `depth` segments behind the head.
fn letter(depth: usize) -> (r: &'static str)
    ensures
        r@ == letter_seq(depth as int),
{
    if depth == 0 {
        ":regional_indicator_j:"
    } else if depth == 1 {
        ":regional_indicator_o:"
    } else if depth == 2 {
        ":regional_indicator_n:"
    } else if depth == 3 {
        ":regional_indicator_a:"
    } else if depth == 4 {
        ":regional_indicator_s:"
    } else if depth == 5 {
        ":regional_indicator_l:"
    } else if depth == 6 {
        ":regional_indicator_e:"
    } else if depth == 7 {
        ":regional_indicator_o:"
    } else if depth == 8 {
        ":regional_indicator_n:"
    } else if depth == 9 {
        ":regional_indicator_a:"
    } else if depth == 10 {
        ":regional_indicator_r:"
    } else {
        ":regional_indicator_d:"
    }
}

/// The glyph for one cell of the board.
fn glyph(game: &SnakeGame, index: usize) -> (r: &'static str)
    ensures
        r@ == glyph_spec(game@, index),
{
    match deque_find(&game.snake, index) {
        Some(pos) => {
            let depth = game.snake.len() - pos - 1;
            if depth < 12 {
                letter(depth)
            } else {
                ":blue_square:"
            }
        },
        None => {
            if vec_find(&game.apples, index).is_some() {
                ":lemon:"
            } else {
                ":black_large_square:"
            }
        },
    }
}

/// The first `c` columns of row `r`, glyph by glyph, with further columns
/// dropped once the accumulated row passes the 1900-unit cap.
pub open spec fn row_prefix(g: GameView, r: int, c: int) -> Seq<char>
    decreases c,
{
    if c <= 0 {
        Seq::<char>::empty()
    } else {
        let p = row_prefix(g, r, c - 1);
        if p.len() > ROW_CAP {
            p
        } else {
            p + glyph_spec(g, (r * g.width + (c - 1)) as usize)
        }
    }
}

/// One full rendered row.
pub open spec fn row_spec(g: GameView, r: int) -> Seq<char> {
    row_prefix(g, r, g.width as int)
}

/// All rendered rows, top to bottom: exactly `height` of them.
pub open spec fn rows_spec(g: GameView) -> Seq<Seq<char>> {
    Seq::new(g.height, |r: int| row_spec(g, r))
}

/// Once a row prefix passes the cap, later columns add nothing.
proof fn lemma_row_prefix_stop(g: GameView, r: int, c1: int, c2: int)
    requires
        0 <= c1 <= c2,
        row_prefix(g, r, c1).len() > ROW_CAP,
    ensures
        row_prefix(g, r, c2) == row_prefix(g, r, c1),
    decreases c2 - c1,
{
    if c1 < c2 {
        lemma_row_prefix_stop(g, r, c1, c2 - 1);
    }
}

/// Row prefixes are short, non-empty past the first column, and free of
/// line breaks.
proof fn lemma_row_prefix_clean(g: GameView, r: int, c: int)
    requires
        0 <= c,
    ensures
        row_prefix(g, r, c).len() <= ROW_CAP + 22,
        c >= 1 ==> row_prefix(g, r, c).len() >= 7,
        has_no(row_prefix(g, r, c), '\n'),
    decreases c,
{
    if c > 0 {
        lemma_row_prefix_clean(g, r, c - 1);
        let p = row_prefix(g, r, c - 1);
        if p.len() <= ROW_CAP {
            let gl = glyph_spec(g, (r * g.width + (c - 1)) as usize);
            lemma_glyph_clean(g, (r * g.width + (c - 1)) as usize);
            assert(has_no(p + gl, '\n')) by {
                assert(forall|i: int|
                    0 <= i < (p + gl).len() ==> (p + gl)[i] == (if i < p.len() {
                        p[i]
                    } else {
                        gl[i - p.len()]
                    }));
            }
        }
    }
}

/// Every row of a well-formed game is non-empty, short and line-break
/// free.
pub proof fn lemma_row_clean(g: GameView, r: int)
    requires
        g.wf(),
    ensures
        7 <= row_spec(g, r).len() <= ROW_CAP + 22,
        has_no(row_spec(g, r), '\n'),
{
    lemma_row_prefix_clean(g, r, g.width as int);
}

/// The glyphs of row `r`, one per column.
pub open spec fn row_glyphs(g: GameView, r: int) -> Seq<Seq<char>> {
    Seq::new(g.width, |c: int| glyph_spec(g, (r * g.width + c) as usize))
}

/// All parts joined in order.
pub open spec fn concat_all(parts: Seq<Seq<char>>) -> Seq<char>
    decreases parts.len(),
{
    if parts.len() == 0 {
        Seq::<char>::empty()
    } else {
        concat_all(parts.drop_last()) + parts.last()
    }
}

/// Joining one more part appends it.
proof fn lemma_concat_take_step(parts: Seq<Seq<char>>, c: int)
    requires
        0 <= c < parts.len(),
    ensures
        concat_all(parts.take(c + 1)) == concat_all(parts.take(c)) + parts[c],
{
    let t = parts.take(c + 1);
    assert(t.drop_last() =~= parts.take(c));
    assert(t.last() == parts[c]);
}

/// An untruncated row prefix is exactly the join of its glyphs.
proof fn lemma_row_prefix_full(g: GameView, r: int, c: int)
    requires
        0 <= c <= g.width,
        concat_all(row_glyphs(g, r).take(c)).len() <= ROW_CAP,
    ensures
        row_prefix(g, r, c) == concat_all(row_glyphs(g, r).take(c)),
    decreases c,
{
    if c == 0 {
        assert(row_glyphs(g, r).take(0) =~= Seq::<Seq<char>>::empty());
        assert(row_prefix(g, r, 0) =~= concat_all(row_glyphs(g, r).take(0)));
    } else {
        lemma_concat_take_step(row_glyphs(g, r), c - 1);
        lemma_glyph_clean(g, (r * g.width + (c - 1)) as usize);
        assert(concat_all(row_glyphs(g, r).take(c - 1)).len() <= ROW_CAP);
        lemma_row_prefix_full(g, r, c - 1);
    }
}

/// Before merging, a render has exactly `height` rows, and a row that the
/// 1900-unit cap does not truncate is exactly one glyph per column:
/// `width` glyphs joined in order.
pub proof fn lemma_rows_shape(g: GameView, r: int)
    requires
        g.wf(),
        0 <= r < g.height,
        concat_all(row_glyphs(g, r)).len() <= ROW_CAP,
    ensures
        rows_spec(g).len() == g.height,
        rows_spec(g)[r] == row_spec(g, r),
        row_glyphs(g, r).len() == g.width,
        row_spec(g, r) == concat_all(row_glyphs(g, r)),
{
    assert(row_glyphs(g, r).take(g.width as int) =~= row_glyphs(g, r));
    lemma_row_prefix_full(g, r, g.width as int);
}

/// Builds the `height` glyph rows of the board, truncating any row that
/// passes the 1900-unit cap.
pub fn build_rows(game: &SnakeGame) -> (rows: Vec<String>)
    requires
        game@.wf(),
    ensures
        rows@.len() == game@.height,
        forall|r: int| 0 <= r < rows@.len() ==> rows@[r]@ == row_spec(game@, r),
{
    let width = game.board_size.0;
    let height = game.board_size.1;
    let mut rows: Vec<String> = Vec::new();
    let mut r: usize = 0;
    while r < height
        invariant
            r <= height,
            game@.wf(),
            width == game@.width,
            height == game@.height,
            rows@.len() == r,
            forall|k: int| 0 <= k < r ==> rows@[k]@ == row_spec(game@, k),
        decreases height - r,
    {
        let mut row = String::new();
        let mut len: usize = 0;
        let mut c: usize = 0;
        proof {
            assert(row@ =~= row_prefix(game@, r as int, 0));
        }
        while c < width && len <= ROW_CAP
            invariant
                c <= width,
                r < height,
                game@.wf(),
                width == game@.width,
                height == game@.height,
                row@ == row_prefix(game@, r as int, c as int),
                len == row@.len(),
                len <= ROW_CAP + 22,
            decreases width - c,
        {
            proof {
                assert((r as int) * (width as int) + (c as int) < (width as int) * (height
                    as int)) by (nonlinear_arith)
                    requires
                        r < height,
                        c < width,
                        0 <= r,
                        0 <= c,
                        1 <= width,
                ;
            }
            let idx = r * width + c;
            let gl = glyph(game, idx);
            proof {
                lemma_glyph_clean(game@, idx);
            }
            let gl_len = gl.unicode_len();
            row.append(gl);
            len = len + gl_len;
            c += 1;
        }
        proof {
            if c < width {
                lemma_row_prefix_stop(game@, r as int, c as int, game@.width as int);
            }
            assert(row@ == row_spec(game@, r as int));
        }
        rows.push(row);
        r += 1;
    }
    rows
}

/// Greedy block growth: starting from the block `cur`, rows from `j` on
/// are appended after a line break while the combined length stays under
/// the 2000-unit budget; gives the finished block and the index of the
/// first row left for the next block.
pub open spec fn merge_step(rows: Seq<Seq<char>>, cur: Seq<char>, j: int) -> (Seq<char>, int)
    decreases rows.len() - j,
        when j <= rows.len()
{
    if j >= rows.len() {
        (cur, j)
    } else if cur.len() + rows[j].len() < BLOCK_CAP {
        merge_step(rows, cur + seq!['\n'] + rows[j], j + 1)
    } else {
        (cur, j)
    }
}

/// The block's end index stays within the rows.
proof fn lemma_merge_step_range(rows: Seq<Seq<char>>, cur: Seq<char>, j: int)
    requires
        j <= rows.len(),
    ensures
        j <= merge_step(rows, cur, j).1 <= rows.len(),
    decreases rows.len() - j,
{
    if j < rows.len() && cur.len() + rows[j].len() < BLOCK_CAP {
        lemma_merge_step_range(rows, cur + seq!['\n'] + rows[j], j + 1);
    }
}

/// The merged blocks of the rows from index `i` on: each block starts
/// with one row and grows greedily under the 2000-unit budget.
pub open spec fn merge_from(rows: Seq<Seq<char>>, i: int) -> Seq<Seq<char>>
    decreases rows.len() - i,
        when 0 <= i <= rows.len()
        via merge_from_decreases
{
    if i >= rows.len() {
        Seq::<Seq<char>>::empty()
    } else {
        let bj = merge_step(rows, rows[i], i + 1);
        seq![bj.0] + merge_from(rows, bj.1)
    }
}

#[via_fn]
proof fn merge_from_decreases(rows: Seq<Seq<char>>, i: int) {
    if 0 <= i < rows.len() {
        lemma_merge_step_range(rows, rows[i], i + 1);
    }
}

/// Merges consecutive rows greedily into blocks joined by line breaks,
/// each new row added only while the block stays under the 2000-unit
/// budget. No row is ever split across two blocks.
pub fn merge_rows(rows: &Vec<String>) -> (blocks: Vec<String>)
    ensures
        blocks@.map_values(|s: String| s@) == merge_from(rows@.map_values(|s: String| s@), 0),
{
    let ghost rs = rows@.map_values(|s: String| s@);
    let mut blocks: Vec<String> = Vec::new();
    let mut i: usize = 0;
    while i < rows.len()
        invariant
            i <= rs.len(),
            rs == rows@.map_values(|s: String| s@),
            merge_from(rs, 0) == blocks@.map_values(|s: String| s@) + merge_from(rs, i as int),
        decreases rs.len() - i,
    {
        let mut cur: String = rows[i].clone();
        let mut cur_len: usize = cur.as_str().unicode_len();
        let mut j: usize = i + 1;
        let ghost i0 = i as int;
        loop
            invariant
                i0 < rs.len(),
                i0 + 1 <= j <= rs.len(),
                j <= rows@.len(),
                rs == rows@.map_values(|s: String| s@),
                cur_len == cur@.len(),
                merge_step(rs, rs[i0], i0 + 1) == merge_step(rs, cur@, j as int),
            ensures
                i0 + 1 <= j <= rs.len(),
                merge_step(rs, rs[i0], i0 + 1) == (cur@, j as int),
            decreases rs.len() - j,
        {
            if j >= rows.len() {
                break;
            }
            let next_len = rows[j].as_str().unicode_len();
            if !(cur_len < BLOCK_CAP && next_len < BLOCK_CAP && cur_len + next_len < BLOCK_CAP) {
                proof {
                    assert(merge_step(rs, cur@, j as int) == (cur@, j as int));
                }
                break;
            }
            proof {
                reveal_strlit("\n");
                assert(cur@ + "\n"@ + rows@[j as int]@ =~= cur@ + seq!['\n'] + rs[j as int]);
            }
            cur.append("\n");
            cur.append(rows[j].as_str());
            cur_len = cur_len + 1 + next_len;
            j += 1;
        }
        proof {
            assert(merge_from(rs, i0) == seq![cur@] + merge_from(rs, j as int));
        }
        let ghost pre = blocks@.map_values(|s: String| s@);
        blocks.push(cur);
        proof {
            assert(blocks@.map_values(|s: String| s@) =~= pre.push(cur@));
            assert(pre.push(cur@) =~= pre + seq![cur@]);
            assert(blocks@.map_values(|s: String| s@) + merge_from(rs, j as int) =~= pre + (
            seq![cur@] + merge_from(rs, j as int)));
        }
        i = j;
    }
    proof {
        assert(merge_from(rs, i as int) =~= Seq::<Seq<char>>::empty());
        assert(merge_from(rs, 0) =~= blocks@.map_values(|s: String| s@));
    }
    blocks
}

/// The invisible padding appended to the final block: a line break and a
/// blank braille character, so the transport keeps the trailing line.
pub open spec fn pad_seq() -> Seq<char> {
    "\n\u{2800}"@
}

/// The full render: the merged blocks of all rows, with the padding
/// marker appended to the last block.
pub open spec fn render_spec(g: GameView) -> Seq<Seq<char>> {
    let m = merge_from(rows_spec(g), 0);
    m.update(m.len() - 1, m.last() + pad_seq())
}

/// Renders the whole board: at least one block, the last one padded.
pub fn get_board(game: &SnakeGame) -> (blocks: Vec<String>)
    requires
        game@.wf(),
    ensures
        blocks@.map_values(|s: String| s@) == render_spec(game@),
        blocks@.len() >= 1,
{
    let rows = build_rows(game);
    proof {
        assert(rows@.map_values(|s: String| s@) =~= rows_spec(game@));
    }
    let mut blocks = merge_rows(&rows);
    proof {
        assert(rows_spec(game@).len() >= 1);
        assert(merge_from(rows_spec(game@), 0).len() >= 1);
    }
    let ghost pre = blocks@.map_values(|s: String| s@);
    let last_opt = blocks.pop();
    let mut last = match last_opt {
        Some(s) => s,
        None => String::new(),
    };
    last.append("\n\u{2800}");
    blocks.push(last);
    proof {
        assert(blocks@.map_values(|s: String| s@) =~= render_spec(game@));
    }
    blocks
}

/// The ordered edits that bring previously shown lines up to date with a
/// fresh render: for each position shared by both, the fresh content
/// wherever it differs from what is shown.
pub open spec fn edits_spec(fresh: Seq<Seq<char>>, prev: Seq<Seq<char>>, i: int) -> Seq<
    (usize, Seq<char>),
>
    decreases prev.len() - i,
{
    if i < 0 || i >= prev.len() || i >= fresh.len() {
        Seq::<(usize, Seq<char>)>::empty()
    } else if fresh[i] == prev[i] {
        edits_spec(fresh, prev, i + 1)
    } else {
        seq![(i as usize, fresh[i])] + edits_spec(fresh, prev, i + 1)
    }
}

/// Computes the edits, in ascending position order.
pub fn compute_edits(fresh: &Vec<String>, prev: &Vec<String>) -> (edits: Vec<(usize, String)>)
    ensures
        edits@.map_values(|e: (usize, String)| (e.0, e.1@)) == edits_spec(
            fresh@.map_values(|s: String| s@),
            prev@.map_values(|s: String| s@),
            0,
        ),
{
    let ghost fv = fresh@.map_values(|s: String| s@);
    let ghost pv = prev@.map_values(|s: String| s@);
    let n: usize = if fresh.len() < prev.len() {
        fresh.len()
    } else {
        prev.len()
    };
    let mut edits: Vec<(usize, String)> = Vec::new();
    let mut i: usize = 0;
    while i < n
        invariant
            i <= n,
            n <= fv.len(),
            n <= pv.len(),
            n == fv.len() || n == pv.len(),
            fv == fresh@.map_values(|s: String| s@),
            pv == prev@.map_values(|s: String| s@),
            edits_spec(fv, pv, 0) == edits@.map_values(|e: (usize, String)| (e.0, e.1@))
                + edits_spec(fv, pv, i as int),
        decreases n - i,
    {
        let ghost pre = edits@.map_values(|e: (usize, String)| (e.0, e.1@));
        let same = crate::text::str_eq(fresh[i].as_str(), prev[i].as_str());
        if !same {
            edits.push((i, fresh[i].clone()));
            proof {
                assert(edits@.map_values(|e: (usize, String)| (e.0, e.1@)) =~= pre.push(
                    (i, fv[i as int]),
                ));
                assert(pre.push((i, fv[i as int])) =~= pre + seq![(i, fv[i as int])]);
                assert(edits_spec(fv, pv, i as int) == seq![(i, fv[i as int])] + edits_spec(
                    fv,
                    pv,
                    i + 1,
                ));
                assert(pre + (seq![(i, fv[i as int])] + edits_spec(fv, pv, i + 1)) =~= (pre + seq![
                    (i, fv[i as int]),
                ]) + edits_spec(fv, pv, i + 1));
            }
        }
        i += 1;
    }
    proof {
        assert(edits_spec(fv, pv, i as int) =~= Seq::<(usize, Seq<char>)>::empty());
    }
    edits
}

/// Renders the board afresh and reports the edits against the previously
/// shown lines, in ascending position order.
pub fn rerender_edits(game: &SnakeGame, prev: &Vec<String>) -> (edits: Vec<(usize, String)>)
    requires
        game@.wf(),
    ensures
        edits@.map_values(|e: (usize, String)| (e.0, e.1@)) == edits_spec(
            render_spec(game@),
            prev@.map_values(|s: String| s@),
            0,
        ),
{
    let fresh = get_board(game);
    compute_edits(&fresh, prev)
}

/// Diffing identical line sequences yields no edits at any start index.
proof fn lemma_edits_same(lines: Seq<Seq<char>>, i: int)
    ensures
        edits_spec(lines, lines, i) == Seq::<(usize, Seq<char>)>::empty(),
    decreases lines.len() - i,
{
    if 0 <= i < lines.len() {
        lemma_edits_same(lines, i + 1);
    }
}

/// Edits come in strictly ascending position order, each at or past the
/// start index.
pub proof fn lemma_edits_ascending(fresh: Seq<Seq<char>>, prev: Seq<Seq<char>>, i: int)
    requires
        prev.len() <= usize::MAX,
    ensures
        forall|k: int|
            0 <= k < edits_spec(fresh, prev, i).len() ==> i <= (#[trigger] edits_spec(
                fresh,
                prev,
                i,
            )[k]).0,
        forall|k1: int, k2: int|
            0 <= k1 < k2 < edits_spec(fresh, prev, i).len() ==> (#[trigger] edits_spec(
                fresh,
                prev,
                i,
            )[k1]).0 < (#[trigger] edits_spec(fresh, prev, i)[k2]).0,
    decreases prev.len() - i,
{
    if 0 <= i < prev.len() && i < fresh.len() {
        lemma_edits_ascending(fresh, prev, i + 1);
        let e = edits_spec(fresh, prev, i);
        let rest = edits_spec(fresh, prev, i + 1);
        if fresh[i] == prev[i] {
            assert(e == rest);
            assert forall|k: int| 0 <= k < e.len() implies i <= (#[trigger] e[k]).0 by {
                assert(e[k] == rest[k]);
            }
        } else {
            assert(e == seq![(i as usize, fresh[i])] + rest);
            assert(e[0] == (i as usize, fresh[i]));
            assert(e[0].0 == i);
            assert(forall|k: int| 1 <= k < e.len() ==> e[k] == #[trigger] rest[k - 1]);
            assert forall|k: int| 0 <= k < e.len() implies i <= (#[trigger] e[k]).0 by {
                if k >= 1 {
                    assert(i + 1 <= rest[k - 1].0);
                }
            }
            assert forall|k1: int, k2: int| 0 <= k1 < k2 < e.len() implies (#[trigger] e[k1]).0 < (
            #[trigger] e[k2]).0 by {
                if k1 >= 1 {
                    assert(rest[k1 - 1].0 < rest[k2 - 1].0);
                } else {
                    assert(i + 1 <= rest[k2 - 1].0);
                }
            }
        }
    }
}

/// Re-rendering twice without an intervening move edits nothing the
/// second time: once the shown lines equal the fresh render, the diff is
/// empty.
pub proof fn lemma_rerender_idempotent(lines: Seq<Seq<char>>)
    ensures
        edits_spec(lines, lines, 0) == Seq::<(usize, Seq<char>)>::empty(),
{
    lemma_edits_same(lines, 0);
}

/// Splitting a finished block recovers the block's own rows: the rows it
/// swallowed from `j` up to its end index, after whatever the starting
/// content splits into.
proof fn lemma_merge_step_split(rows: Seq<Seq<char>>, cur: Seq<char>, j: int)
    requires
        0 <= j <= rows.len(),
        forall|k: int| j <= k < rows.len() ==> has_no(#[trigger] rows[k], '\n'),
    ensures
        j <= merge_step(rows, cur, j).1 <= rows.len(),
        split_on(merge_step(rows, cur, j).0, '\n') == split_on(cur, '\n') + rows.subrange(
            j,
            merge_step(rows, cur, j).1,
        ),
    decreases rows.len() - j,
{
    lemma_merge_step_range(rows, cur, j);
    if j < rows.len() && cur.len() + rows[j].len() < BLOCK_CAP {
        let cur2 = cur + seq!['\n'] + rows[j];
        lemma_merge_step_split(rows, cur2, j + 1);
        lemma_split_concat(cur, rows[j], '\n');
        lemma_split_no_sep(rows[j], '\n');
        let e = merge_step(rows, cur, j).1;
        assert(split_on(cur2, '\n') =~= split_on(cur, '\n') + seq![rows[j]]);
        assert(rows.subrange(j, e) =~= seq![rows[j]] + rows.subrange(j + 1, e));
        assert(split_on(merge_step(rows, cur, j).0, '\n') =~= split_on(cur, '\n') + rows.subrange(
            j,
            e,
        ));
    } else {
        assert(rows.subrange(j, j) =~= Seq::<Seq<char>>::empty());
        assert(split_on(cur, '\n') + rows.subrange(j, j) =~= split_on(cur, '\n'));
    }
}

/// Splitting all blocks from row `i` on recovers exactly the rows from
/// `i` on.
proof fn lemma_merge_from_split(rows: Seq<Seq<char>>, i: int)
    requires
        0 <= i <= rows.len(),
        forall|k: int| 0 <= k < rows.len() ==> has_no(#[trigger] rows[k], '\n'),
    ensures
        split_all(merge_from(rows, i), '\n') == rows.skip(i),
    decreases rows.len() - i,
{
    if i >= rows.len() {
        assert(rows.skip(i) =~= Seq::<Seq<char>>::empty());
        assert(split_all(merge_from(rows, i), '\n') =~= rows.skip(i));
    } else {
        let bj = merge_step(rows, rows[i], i + 1);
        lemma_merge_step_split(rows, rows[i], i + 1);
        lemma_split_no_sep(rows[i], '\n');
        lemma_merge_from_split(rows, bj.1);
        lemma_split_all_one(bj.0, merge_from(rows, bj.1), '\n');
        assert(split_on(bj.0, '\n') =~= seq![rows[i]] + rows.subrange(i + 1, bj.1));
        assert(seq![rows[i]] + rows.subrange(i + 1, bj.1) =~= rows.subrange(i, bj.1));
        assert(rows.subrange(i, bj.1) + rows.skip(bj.1) =~= rows.skip(i));
        assert(split_all(merge_from(rows, i), '\n') =~= rows.skip(i));
    }
}

/// Round trip: merging line-break-free rows into blocks and splitting the
/// blocks back on line breaks reconstructs the original row sequence
/// exactly — in particular the greedy merge never cuts a row in two.
pub proof fn lemma_merge_split_roundtrip(rows: Seq<Seq<char>>)
    requires
        forall|k: int| 0 <= k < rows.len() ==> has_no(#[trigger] rows[k], '\n'),
    ensures
        split_all(merge_from(rows, 0), '\n') == rows,
{
    lemma_merge_from_split(rows, 0);
    assert(rows.skip(0) =~= rows);
}

/// The round trip holds of every well-formed game's own render: its rows
/// hold no line break, so merging and splitting them reconstructs the
/// row sequence exactly.
pub proof fn lemma_render_roundtrip(g: GameView)
    requires
        g.wf(),
    ensures
        split_all(merge_from(rows_spec(g), 0), '\n') == rows_spec(g),
{
    assert forall|k: int| 0 <= k < rows_spec(g).len() implies has_no(
        #[trigger] rows_spec(g)[k],
        '\n',
    ) by {
        lemma_row_clean(g, k);
    }
    lemma_merge_split_roundtrip(rows_spec(g));
}

} // verus!
