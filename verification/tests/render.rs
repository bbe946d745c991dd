use std::collections::VecDeque;

use snake_board::direction::Direction;
use snake_board::game::SnakeGame;
use snake_board::render::{build_rows, compute_edits, get_board, merge_rows, rerender_edits};

const BG: &str = ":black_large_square:";
const FOOD: &str = ":lemon:";
const PAD: &str = "\n\u{2800}";

fn game_on(snake: Vec<usize>, apples: Vec<usize>, width: usize, height: usize) -> SnakeGame {
    SnakeGame {
        snake: VecDeque::from(snake),
        apples,
        direction: Direction::Up,
        board_size: (width, height),
    }
}

#[test]
fn small_board_renders_one_padded_block() {
    let g = game_on(vec![4], vec![1], 3, 3);
    let blocks = get_board(&g);
    let row0 = format!("{BG}{FOOD}{BG}");
    let row1 = format!("{BG}:regional_indicator_j:{BG}");
    let row2 = format!("{BG}{BG}{BG}");
    assert_eq!(blocks, vec![format!("{row0}\n{row1}\n{row2}{PAD}")]);
}

#[test]
fn rows_have_one_glyph_per_column() {
    let g = game_on(vec![4], vec![1], 3, 3);
    let rows = build_rows(&g);
    assert_eq!(rows.len(), 3);
    assert_eq!(rows[0], format!("{BG}{FOOD}{BG}"));
    assert_eq!(rows[1], format!("{BG}:regional_indicator_j:{BG}"));
    assert_eq!(rows[2], format!("{BG}{BG}{BG}"));
}

#[test]
fn snake_glyphs_count_depth_from_head() {
    // Head at cell 0, tail at cell 2: depths 0, 1, 2 spell "j", "o", "n".
    let g = game_on(vec![2, 1, 0], vec![5], 3, 1);
    let rows = build_rows(&g);
    assert_eq!(
        rows,
        vec![":regional_indicator_j::regional_indicator_o::regional_indicator_n:".to_string()]
    );
}

#[test]
fn deep_snake_cells_show_the_body_glyph() {
    // Thirteen segments: the cell twelve steps behind the head is past the
    // lettered alphabet and shows the plain body glyph.
    let snake: Vec<usize> = (0..13).rev().collect();
    let g = game_on(snake, vec![13], 14, 1);
    let rows = build_rows(&g);
    assert!(rows[0].starts_with(":regional_indicator_j:"));
    assert!(rows[0].contains(":blue_square:"));
    assert!(!rows[0][..rows[0].len() - FOOD.len()].contains(":lemon:"));
}

#[test]
fn small_content_merges_into_a_single_block() {
    // 10x5 board: every row is around 200 units, so all five rows fit one
    // 2000-unit block.
    let g = game_on(vec![0], vec![1], 10, 5);
    let blocks = get_board(&g);
    assert_eq!(blocks.len(), 1);
}

#[test]
fn default_board_merges_greedily_under_the_cap() {
    // 20x10 board: rows of ~400 units merge five to a block, then four,
    // then the last row alone.
    let g = game_on(vec![0], vec![1], 20, 10);
    let blocks = get_board(&g);
    assert_eq!(blocks.len(), 3);
    let mut blocks = blocks;
    let last = blocks.last_mut().unwrap();
    assert!(last.ends_with(PAD));
    let cut = last.len() - PAD.len();
    last.truncate(cut);
    for b in &blocks {
        assert!(b.chars().count() < 2000 + 22);
    }
    // No row is ever split across blocks: splitting the blocks on line
    // breaks gives back exactly the rendered rows.
    let reconstructed: Vec<String> = blocks
        .iter()
        .flat_map(|b| b.split('\n').map(str::to_string))
        .collect();
    assert_eq!(reconstructed, build_rows(&g));
}

#[test]
fn merge_keeps_an_oversized_row_whole() {
    let rows = vec!["a".repeat(2500), "b".repeat(10)];
    let blocks = merge_rows(&rows);
    assert_eq!(blocks, vec!["a".repeat(2500), "b".repeat(10)]);
}

#[test]
fn merge_joins_while_under_the_cap() {
    let rows = vec!["a".repeat(900), "b".repeat(900), "c".repeat(900)];
    let blocks = merge_rows(&rows);
    assert_eq!(blocks.len(), 2);
    assert_eq!(blocks[0], format!("{}\n{}", "a".repeat(900), "b".repeat(900)));
    assert_eq!(blocks[1], "c".repeat(900));
}

#[test]
fn rerender_without_a_move_edits_nothing() {
    let g = game_on(vec![4], vec![1], 3, 3);
    let shown = get_board(&g);
    let edits = rerender_edits(&g, &shown);
    assert!(edits.is_empty());
}

#[test]
fn rerender_reports_only_changed_positions() {
    let mut g = game_on(vec![4], vec![0], 3, 3);
    let shown = get_board(&g);
    g.move_snake(Direction::Up);
    let edits = rerender_edits(&g, &shown);
    assert_eq!(edits.len(), 1);
    assert_eq!(edits[0].0, 0);
    assert_eq!(vec![edits[0].1.clone()], get_board(&g));
}

#[test]
fn compute_edits_diffs_shared_positions() {
    let fresh = vec!["a".to_string(), "b".to_string(), "c".to_string()];
    let prev = vec!["a".to_string(), "x".to_string()];
    let edits = compute_edits(&fresh, &prev);
    assert_eq!(edits, vec![(1, "b".to_string())]);
}
