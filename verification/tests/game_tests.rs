use minesweeper::board::Direction;
use minesweeper::board::MSGame;
use minesweeper::eval::TurnResult;
use minesweeper::input::InputKey;
use minesweeper::tile::Tile;
use minesweeper::tile::TileContents;
use minesweeper::tile::TileVis;

fn tile(mine: bool, count: u8, vis: TileVis) -> Tile {
    Tile {
        contents: if mine { TileContents::Mine } else { TileContents::Number(count) },
        visibility: vis,
    }
}

/// A hand-built board from a mine mask, all tiles hidden, counts not
/// yet derived.
fn board_from_mines(width: usize, height: usize, mines: &[(usize, usize)]) -> MSGame {
    let mut board = Vec::new();
    for y in 0..height {
        for x in 0..width {
            board.push(tile(mines.contains(&(x, y)), 0, TileVis::Hidden));
        }
    }
    MSGame {
        width,
        height,
        cursor_x: 0,
        cursor_y: 0,
        board,
        mines: mines.len(),
        flags: 0,
    }
}

fn count_mines_on(g: &MSGame) -> usize {
    let mut n = 0;
    for y in 0..g.height {
        for x in 0..g.width {
            if let TileContents::Mine = g.get(x, y).contents {
                n += 1;
            }
        }
    }
    n
}

fn brute_force_adjacent_mines(g: &MSGame, x: usize, y: usize) -> u8 {
    let mut n = 0;
    for dy in -1i64..=1 {
        for dx in -1i64..=1 {
            if dx == 0 && dy == 0 {
                continue;
            }
            let nx = x as i64 + dx;
            let ny = y as i64 + dy;
            if nx >= 0 && ny >= 0 && (nx as usize) < g.width && (ny as usize) < g.height {
                if let TileContents::Mine = g.get(nx as usize, ny as usize).contents {
                    n += 1;
                }
            }
        }
    }
    n
}

#[test]
fn new_board_has_configured_mine_count() {
    let g = MSGame::new(16, 16, 32);
    assert_eq!(g.mines, 32);
    assert_eq!(count_mines_on(&g), 32);
    assert_eq!(g.board.len(), 256);
    assert_eq!(g.flags, 0);
    assert_eq!((g.cursor_x, g.cursor_y), (0, 0));
}

#[test]
fn new_board_clamps_excess_mines() {
    let g = MSGame::new(2, 2, 10);
    assert_eq!(g.mines, 4);
    assert_eq!(count_mines_on(&g), 4);
}

#[test]
fn new_board_is_all_hidden() {
    let g = MSGame::new(4, 3, 5);
    for y in 0..3 {
        for x in 0..4 {
            assert!(matches!(g.get(x, y).visibility, TileVis::Hidden));
        }
    }
}

#[test]
fn init_derives_exact_neighbor_counts() {
    let mut g = board_from_mines(4, 4, &[(0, 0), (2, 1), (3, 3)]);
    g.init();
    for y in 0..4 {
        for x in 0..4 {
            let t = g.get(x, y);
            if let TileContents::Number(n) = t.contents {
                assert_eq!(n, brute_force_adjacent_mines(&g, x, y), "at ({}, {})", x, y);
            }
        }
    }
}

#[test]
fn init_on_random_board_matches_brute_force() {
    let mut g = MSGame::new(8, 8, 12);
    g.init();
    for y in 0..8 {
        for x in 0..8 {
            let t = g.get(x, y);
            if let TileContents::Number(n) = t.contents {
                assert_eq!(n, brute_force_adjacent_mines(&g, x, y));
            }
        }
    }
}

#[test]
fn single_center_mine_gives_all_counts_one() {
    let mut g = board_from_mines(3, 3, &[(1, 1)]);
    g.init();
    for y in 0..3 {
        for x in 0..3 {
            if x == 1 && y == 1 {
                assert!(matches!(g.get(x, y).contents, TileContents::Mine));
            } else {
                assert!(matches!(g.get(x, y).contents, TileContents::Number(1)));
            }
        }
    }
}

#[test]
fn opening_a_count_one_tile_floods_nothing_else() {
    let mut g = board_from_mines(3, 3, &[(1, 1)]);
    g.init();
    g.cursor_x = 0;
    g.cursor_y = 0;
    g.open();
    assert!(matches!(g.get(0, 0).visibility, TileVis::Open));
    for y in 0..3 {
        for x in 0..3 {
            if !(x == 0 && y == 0) {
                assert!(matches!(g.get(x, y).visibility, TileVis::Hidden));
            }
        }
    }
}

#[test]
fn opening_a_zero_corner_on_mine_free_board_floods_everything() {
    let mut g = board_from_mines(3, 3, &[]);
    g.init();
    g.cursor_x = 0;
    g.cursor_y = 0;
    g.open();
    for y in 0..3 {
        for x in 0..3 {
            assert!(matches!(g.get(x, y).visibility, TileVis::Open));
        }
    }
}

#[test]
fn opening_twice_is_a_no_op() {
    let mut g = board_from_mines(3, 3, &[(1, 1)]);
    g.init();
    g.open();
    let snapshot: Vec<(TileContents, TileVis)> =
        g.board.iter().map(|t| (t.contents, t.visibility)).collect();
    g.open();
    let again: Vec<(TileContents, TileVis)> =
        g.board.iter().map(|t| (t.contents, t.visibility)).collect();
    assert_eq!(snapshot, again);
}

#[test]
fn flood_never_opens_a_flagged_tile() {
    let mut g = board_from_mines(3, 3, &[]);
    g.init();
    g.cursor_x = 1;
    g.cursor_y = 1;
    g.flag();
    g.cursor_x = 0;
    g.cursor_y = 0;
    g.open();
    assert!(matches!(g.get(1, 1).visibility, TileVis::Flag));
    for y in 0..3 {
        for x in 0..3 {
            if !(x == 1 && y == 1) {
                assert!(matches!(g.get(x, y).visibility, TileVis::Open));
            }
        }
    }
}

#[test]
fn flag_toggles_and_counts() {
    let mut g = board_from_mines(2, 2, &[(0, 1)]);
    g.init();
    g.flag();
    assert!(matches!(g.get(0, 0).visibility, TileVis::Flag));
    assert_eq!(g.flags, 1);
    g.flag();
    assert!(matches!(g.get(0, 0).visibility, TileVis::Hidden));
    assert_eq!(g.flags, 0);
}

#[test]
fn flag_on_open_tile_is_a_no_op() {
    let mut g = board_from_mines(2, 2, &[(0, 1)]);
    g.init();
    g.open();
    assert!(matches!(g.get(0, 0).visibility, TileVis::Open));
    g.flag();
    assert!(matches!(g.get(0, 0).visibility, TileVis::Open));
    assert_eq!(g.flags, 0);
}

#[test]
fn evaluate_is_idempotent_on_continue() {
    let mut g = board_from_mines(3, 3, &[(1, 1)]);
    g.init();
    let first = g.state();
    let second = g.state();
    assert_eq!(first, TurnResult::Continue);
    assert_eq!(second, TurnResult::Continue);
}

#[test]
fn evaluate_is_idempotent_on_lose() {
    let mut g = board_from_mines(2, 2, &[(1, 1)]);
    g.init();
    g.cursor_x = 1;
    g.cursor_y = 1;
    g.open();
    let first = g.state();
    let second = g.state();
    assert_eq!(first, TurnResult::Lose);
    assert_eq!(second, TurnResult::Lose);
}

#[test]
fn all_safe_open_wins_despite_flags_and_hidden_mines() {
    let mut board = Vec::new();
    board.push(tile(false, 1, TileVis::Open));
    board.push(tile(true, 0, TileVis::Flag));
    board.push(tile(false, 1, TileVis::Open));
    board.push(tile(true, 0, TileVis::Hidden));
    let mut g = MSGame {
        width: 2,
        height: 2,
        cursor_x: 0,
        cursor_y: 0,
        board,
        mines: 2,
        flags: 1,
    };
    assert_eq!(g.state(), TurnResult::Win);
}

#[test]
fn flagged_safe_tile_blocks_the_win() {
    let mut board = Vec::new();
    board.push(tile(false, 1, TileVis::Flag));
    board.push(tile(false, 1, TileVis::Open));
    board.push(tile(false, 1, TileVis::Open));
    board.push(tile(true, 0, TileVis::Hidden));
    let mut g = MSGame {
        width: 2,
        height: 2,
        cursor_x: 0,
        cursor_y: 0,
        board,
        mines: 1,
        flags: 1,
    };
    assert_eq!(g.state(), TurnResult::Continue);
}

#[test]
fn zero_mines_all_open_is_immediate_win() {
    let mut g = board_from_mines(2, 2, &[]);
    g.init();
    g.open();
    assert_eq!(g.state(), TurnResult::Win);
}

#[test]
fn opening_a_mine_loses_and_reveals_the_minefield() {
    let mut g = board_from_mines(3, 3, &[(0, 2), (2, 2)]);
    g.init();
    g.cursor_x = 0;
    g.cursor_y = 2;
    g.open();
    assert_eq!(g.state(), TurnResult::Lose);
    for y in 0..3 {
        for x in 0..3 {
            if let TileContents::Mine = g.get(x, y).contents {
                assert!(matches!(g.get(x, y).visibility, TileVis::Open));
            }
        }
    }
}

#[test]
fn cursor_wraps_on_both_axes_and_directions() {
    let mut g = board_from_mines(4, 3, &[]);
    g.init();
    assert_eq!((g.cursor_x, g.cursor_y), (0, 0));
    g.move_cursor(Direction::Left);
    assert_eq!(g.cursor_x, 3);
    g.move_cursor(Direction::Right);
    assert_eq!(g.cursor_x, 0);
    g.move_cursor(Direction::Up);
    assert_eq!(g.cursor_y, 2);
    g.move_cursor(Direction::Down);
    assert_eq!(g.cursor_y, 0);
    g.move_cursor(Direction::Right);
    assert_eq!(g.cursor_x, 1);
    g.move_cursor(Direction::Down);
    assert_eq!(g.cursor_y, 1);
}

#[test]
fn valid_pos_and_index_of_agree_with_the_layout() {
    let g = board_from_mines(4, 3, &[]);
    assert!(g.valid_pos(3, 2));
    assert!(!g.valid_pos(4, 0));
    assert!(!g.valid_pos(0, 3));
    assert_eq!(g.index_of(0, 0), 0);
    assert_eq!(g.index_of(3, 2), 11);
    assert_eq!(g.index_of(1, 2), 9);
}

#[test]
fn get_mut_changes_exactly_one_tile() {
    let mut g = board_from_mines(2, 2, &[]);
    g.init();
    let t = g.get_mut(1, 0);
    t.visibility = TileVis::Open;
    assert!(matches!(g.get(1, 0).visibility, TileVis::Open));
    assert!(matches!(g.get(0, 0).visibility, TileVis::Hidden));
    assert!(matches!(g.get(0, 1).visibility, TileVis::Hidden));
    assert!(matches!(g.get(1, 1).visibility, TileVis::Hidden));
}

#[test]
fn open_single_opens_only_hidden_tiles() {
    let mut g = board_from_mines(2, 2, &[]);
    g.init();
    g.cursor_x = 1;
    g.cursor_y = 1;
    g.flag();
    g.open_single(1, 1);
    assert!(matches!(g.get(1, 1).visibility, TileVis::Flag));
    g.open_single(0, 0);
    assert!(matches!(g.get(0, 0).visibility, TileVis::Open));
}

#[test]
fn tile_glyphs_match_the_legend() {
    assert_eq!(tile(false, 0, TileVis::Hidden).draw(), "#");
    assert_eq!(tile(true, 0, TileVis::Flag).draw(), "F");
    assert_eq!(tile(true, 0, TileVis::Open).draw(), "*");
    assert_eq!(tile(false, 0, TileVis::Open).draw(), " ");
    assert_eq!(tile(false, 1, TileVis::Open).draw(), "1");
    assert_eq!(tile(false, 8, TileVis::Open).draw(), "8");
}

#[test]
fn tile_new_starts_hidden() {
    let m = Tile::new(true);
    assert!(matches!(m.contents, TileContents::Mine));
    assert!(matches!(m.visibility, TileVis::Hidden));
    let s = Tile::new(false);
    assert!(matches!(s.contents, TileContents::Number(0)));
    assert!(matches!(s.visibility, TileVis::Hidden));
}

#[test]
fn rendered_rows_bracket_the_cursor() {
    let mut g = board_from_mines(3, 3, &[(1, 1)]);
    g.init();
    let rows = g.render();
    assert_eq!(rows.len(), 3);
    assert_eq!(rows[0], "(#)# # ");
    assert_eq!(rows[1], " # # # ");
    assert_eq!(rows[2], " # # # ");
    g.cursor_x = 1;
    g.cursor_y = 2;
    let rows = g.render();
    assert_eq!(rows[2], " #(#)# ");
}

#[test]
fn rendered_row_shows_counts_after_opening() {
    let mut g = board_from_mines(3, 3, &[(1, 1)]);
    g.init();
    g.open();
    let rows = g.render();
    assert_eq!(rows[0], "(1)# # ");
}

#[test]
fn process_key_quit_bypasses_evaluation() {
    let mut g = board_from_mines(2, 2, &[(1, 1)]);
    g.init();
    assert_eq!(g.process_key(InputKey::Char('q')), TurnResult::Quit);
    assert!(matches!(g.get(0, 0).visibility, TileVis::Hidden));
}

#[test]
fn process_key_moves_flags_and_opens() {
    let mut g = board_from_mines(2, 2, &[(1, 1)]);
    g.init();
    assert_eq!(g.process_key(InputKey::Right), TurnResult::Continue);
    assert_eq!(g.cursor_x, 1);
    assert_eq!(g.process_key(InputKey::Char('f')), TurnResult::Continue);
    assert!(matches!(g.get(1, 0).visibility, TileVis::Flag));
    assert_eq!(g.process_key(InputKey::Down), TurnResult::Continue);
    assert_eq!(g.cursor_y, 1);
    assert_eq!(g.process_key(InputKey::Escape), TurnResult::Continue);
    assert_eq!(g.process_key(InputKey::Char(' ')), TurnResult::Lose);
    assert!(matches!(g.get(1, 1).visibility, TileVis::Open));
}

#[test]
fn process_key_wins_when_last_safe_tile_opens() {
    let mut g = board_from_mines(2, 1, &[(1, 0)]);
    g.init();
    assert_eq!(g.process_key(InputKey::Char(' ')), TurnResult::Win);
}
