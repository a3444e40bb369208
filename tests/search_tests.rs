use knight_regions::geometry::{pos, Position, BOARD_SIZE};
use knight_regions::puzzle::{check_waypoints, init_regions, init_waypoints};
use knight_regions::regions::{check_partition, get_region_map, RegionTable};
use knight_regions::search::{expand_all, first_balanced, paths_to, solve};
use knight_regions::state::GameState;

fn puzzle_table() -> RegionTable {
    RegionTable::new(init_regions()).expect("the puzzle's regions partition the board")
}

/// Four 5x5 quadrants.
fn quadrant_table() -> RegionTable {
    let mut regions: Vec<Vec<Position>> = vec![vec![], vec![], vec![], vec![]];
    for y in 0..10 {
        for x in 0..10 {
            let q = (y / 5) * 2 + x / 5;
            regions[q].push(pos(x, y));
        }
    }
    RegionTable::new(regions).expect("quadrants partition the board")
}

fn marked_count(s: &GameState) -> usize {
    s.board.iter().filter(|b| **b).count()
}

fn hand_state<'a>(table: &'a RegionTable, cells: &[Position]) -> GameState<'a> {
    let mut board = vec![false; BOARD_SIZE];
    for c in cells {
        board[c.raw_index()] = true;
    }
    let head = *cells.last().unwrap();
    GameState {
        board,
        current_position: head,
        current_region: table.region_of(head.raw_index()),
        history: cells.to_vec(),
        table,
    }
}

#[test]
fn raw_index_is_row_major() {
    assert_eq!(pos(0, 0).raw_index(), 0);
    assert_eq!(pos(3, 7).raw_index(), 73);
    assert_eq!(pos(9, 9).raw_index(), 99);
    assert_eq!(pos(9, 0).raw_index(), 9);
}

#[test]
fn raw_index_is_injective_and_invertible() {
    let mut seen = vec![false; BOARD_SIZE];
    for y in 0..10 {
        for x in 0..10 {
            let i = pos(x, y).raw_index();
            assert!(!seen[i]);
            seen[i] = true;
            assert_eq!((i % 10, i / 10), (x, y));
        }
    }
}

#[test]
fn puzzle_regions_partition_the_board() {
    let regions = init_regions();
    assert_eq!(regions.len(), 12);
    assert!(check_partition(&regions));
    let t = puzzle_table();
    assert_eq!(t.num_regions(), 12);
    assert_eq!(t.region_of(pos(0, 0).raw_index()), 0);
    assert_eq!(t.region_of(pos(1, 2).raw_index()), 2);
    assert_eq!(t.region_of(pos(4, 5).raw_index()), 10);
    assert_eq!(t.region_of(pos(6, 9).raw_index()), 11);
}

#[test]
fn region_map_agrees_with_regions() {
    let regions = init_regions();
    let map = get_region_map(&regions);
    assert_eq!(map.len(), BOARD_SIZE);
    for (r, cells) in regions.iter().enumerate() {
        for c in cells {
            assert_eq!(map[c.raw_index()], r);
        }
    }
}

#[test]
fn table_with_duplicate_cell_is_refused() {
    let mut regions = init_regions();
    regions[1].push(pos(0, 0));
    assert!(!check_partition(&regions));
    assert!(RegionTable::new(regions).is_none());
}

#[test]
fn table_with_missing_cell_is_refused() {
    let mut regions = init_regions();
    regions[11].pop();
    assert!(RegionTable::new(regions).is_none());
}

#[test]
fn table_with_cell_off_the_board_is_refused() {
    let mut regions = init_regions();
    regions[0].push(pos(10, 0));
    assert!(RegionTable::new(regions).is_none());
    assert!(RegionTable::new(vec![]).is_none());
}

#[test]
fn puzzle_waypoints_are_valid() {
    let w = init_waypoints();
    assert_eq!(w.len(), 17);
    assert_eq!(w[0], (1, pos(0, 0)));
    assert_eq!(w[1], (4, pos(1, 2)));
    assert!(check_waypoints(&w));
}

#[test]
fn bad_waypoints_are_refused() {
    assert!(!check_waypoints(&vec![]));
    assert!(!check_waypoints(&vec![(1, pos(0, 0)), (1, pos(1, 2))]));
    assert!(!check_waypoints(&vec![(4, pos(0, 0)), (2, pos(1, 2))]));
    assert!(!check_waypoints(&vec![(1, pos(0, 0)), (4, pos(0, 10))]));
    assert!(check_waypoints(&vec![(1, pos(0, 0)), (4, pos(1, 2))]));
}

#[test]
fn start_state_marks_only_the_origin() {
    let t = puzzle_table();
    let s = GameState::new(&t);
    assert_eq!(marked_count(&s), 1);
    assert!(s.board[0]);
    assert_eq!(s.history, vec![pos(0, 0)]);
    assert_eq!(s.current_position, pos(0, 0));
    assert_eq!(s.current_region, 0);
    for r in 0..t.num_regions() {
        let n = t.region(r).iter().filter(|c| s.board[c.raw_index()]).count();
        assert_eq!(n, if r == 0 { 1 } else { 0 });
    }
    assert_eq!(s.count_in_row(0), 1);
    assert_eq!(s.count_in_row(1), 0);
    assert_eq!(s.count_in_col(0), 1);
    assert_eq!(s.count_in_col(5), 0);
}

#[test]
fn moves_from_the_origin() {
    let t = puzzle_table();
    let s = GameState::new(&t);
    let moves = s.all_moves();
    assert_eq!(moves, vec![pos(1, 2), pos(2, 1)]);
    assert_eq!(pos(0, 0).all_moves_with_restrictions(&s), moves);
}

#[test]
fn moves_stay_on_the_board_and_leave_the_region() {
    let t = puzzle_table();
    let s = GameState::new(&t).into_move(pos(1, 2));
    let moves = s.all_moves();
    // From (1,2): (2,4) is in the head's own region, (0,0) is visited.
    assert_eq!(moves, vec![pos(2, 0), pos(0, 4), pos(3, 3), pos(3, 1)]);
    for m in &moves {
        assert!(m.x < 10 && m.y < 10);
        assert!(!s.board[m.raw_index()]);
        assert_ne!(t.region_of(m.raw_index()), s.current_region);
    }
}

#[test]
fn full_region_cannot_be_entered() {
    let t = puzzle_table();
    let four = [pos(1, 1), pos(1, 3), pos(1, 4), pos(2, 3), pos(0, 0)];
    let s = hand_state(&t, &four);
    assert_eq!(s.all_moves(), vec![pos(1, 2), pos(2, 1)]);
    let five = [pos(1, 1), pos(1, 3), pos(1, 4), pos(2, 3), pos(2, 4), pos(0, 0)];
    let s = hand_state(&t, &five);
    assert_eq!(s.all_moves(), vec![]);
}

#[test]
fn add_move_updates_head_and_history() {
    let t = puzzle_table();
    let mut s = GameState::new(&t);
    s.add_move(pos(2, 1));
    assert_eq!(s.current_position, pos(2, 1));
    assert_eq!(s.current_region, 2);
    assert_eq!(s.history, vec![pos(0, 0), pos(2, 1)]);
    assert!(s.board[pos(2, 1).raw_index()]);
}

#[test]
fn deriving_leaves_the_parent_alone() {
    let t = puzzle_table();
    let parent = GameState::new(&t);
    let board_before = parent.board.clone();
    let child = parent.into_move(pos(1, 2));
    assert_eq!(parent.board, board_before);
    assert_eq!(parent.history, vec![pos(0, 0)]);
    assert_eq!(parent.current_position, pos(0, 0));
    let i = pos(1, 2).raw_index();
    for k in 0..BOARD_SIZE {
        if k == i {
            assert!(child.board[k] && !parent.board[k]);
        } else {
            assert_eq!(child.board[k], parent.board[k]);
        }
    }
    assert_eq!(child.history, vec![pos(0, 0), pos(1, 2)]);
    assert_eq!(child.current_region, 2);
    let sibling = parent.into_move(pos(2, 1));
    assert_eq!(sibling.history, vec![pos(0, 0), pos(2, 1)]);
    assert!(!sibling.board[i]);
}

#[test]
fn expanding_the_start_gives_two_children() {
    let t = puzzle_table();
    let kids = expand_all(&vec![GameState::new(&t)]);
    assert_eq!(kids.len(), 2);
    assert_eq!(kids[0].current_position, pos(1, 2));
    assert_eq!(kids[1].current_position, pos(2, 1));
    let grandkids = expand_all(&kids);
    let expected: usize = kids.iter().map(|k| k.all_moves().len()).sum();
    assert_eq!(grandkids.len(), expected);
}

#[test]
fn advance_to_second_waypoint() {
    let t = puzzle_table();
    let frontier = paths_to(vec![GameState::new(&t)], &pos(1, 2), 3);
    assert!(!frontier.is_empty());
    for s in &frontier {
        assert_eq!(s.history.len(), 4);
        assert_eq!(s.current_position, pos(1, 2));
        assert_eq!(s.history[0], pos(0, 0));
        assert_eq!(marked_count(s), 4);
    }
}

#[test]
fn advance_with_no_moves_only_filters() {
    let t = puzzle_table();
    let start = vec![GameState::new(&t)];
    assert_eq!(paths_to(start, &pos(0, 0), 0).len(), 1);
    let start = vec![GameState::new(&t)];
    assert!(paths_to(start, &pos(1, 2), 0).is_empty());
}

#[test]
fn unreachable_waypoint_gives_empty_frontier() {
    let t = puzzle_table();
    let frontier = paths_to(vec![GameState::new(&t)], &pos(5, 5), 1);
    assert!(frontier.is_empty());
    assert!(paths_to(vec![], &pos(1, 2), 3).is_empty());
}

#[test]
fn balanced_quadrant_board_is_accepted() {
    let t = quadrant_table();
    let mut cells = Vec::new();
    for i in 0..10 {
        cells.push(pos(i, i));
        cells.push(pos((i + 5) % 10, i));
    }
    let s = hand_state(&t, &cells);
    for i in 0..10 {
        assert_eq!(s.count_in_row(i), 2);
        assert_eq!(s.count_in_col(i), 2);
    }
    assert!(s.check());
    // Unmarking one cell leaves its row, column and quadrant one short.
    let mut broken = hand_state(&t, &cells);
    broken.board[pos(0, 0).raw_index()] = false;
    assert!(!broken.check());
}

#[test]
fn region_imbalance_alone_is_rejected() {
    // Every row and column holds one mark, but the quadrants hold 5, 0, 0, 5.
    let t = quadrant_table();
    let cells: Vec<Position> = (0..10).map(|i| pos(i, i)).collect();
    let s = hand_state(&t, &cells);
    assert!(!s.check());
    // With the quadrants listed in another order the verdict is the same.
    let mut regions: Vec<Vec<Position>> = (0..4).map(|r| t.region(r).clone()).collect();
    regions.rotate_left(1);
    let t2 = RegionTable::new(regions).unwrap();
    let s2 = hand_state(&t2, &cells);
    assert!(!s2.check());
}

#[test]
fn balance_ignores_region_order() {
    let t = quadrant_table();
    let mut cells = Vec::new();
    for i in 0..10 {
        cells.push(pos(i, i));
        cells.push(pos((i + 5) % 10, i));
    }
    let mut regions: Vec<Vec<Position>> = (0..4).map(|r| t.region(r).clone()).collect();
    regions.reverse();
    let t2 = RegionTable::new(regions).unwrap();
    assert_eq!(hand_state(&t, &cells).check(), hand_state(&t2, &cells).check());
    assert!(hand_state(&t2, &cells).check());
}

#[test]
fn empty_board_is_balanced_and_start_is_not() {
    let t = puzzle_table();
    let s = GameState::new(&t);
    assert!(!s.check());
    let mut empty = GameState::new(&t);
    empty.board = vec![false; BOARD_SIZE];
    assert!(empty.check());
}

#[test]
fn first_balanced_finds_the_first() {
    let t = puzzle_table();
    let start = GameState::new(&t);
    let mut empty = GameState::new(&t);
    empty.board = vec![false; BOARD_SIZE];
    let states = vec![start, empty];
    assert_eq!(first_balanced(&states), Some(1));
    assert_eq!(first_balanced(&states[..1].iter().map(|s| s.into_move(pos(1, 2))).collect()), None);
}

#[test]
fn solve_without_rounds_or_waypoints_finds_nothing() {
    let t = puzzle_table();
    assert!(solve(&t, &vec![(1, pos(0, 0))], 0).is_none());
    let r = solve(&t, &vec![(1, pos(0, 0)), (4, pos(1, 2))], 0);
    assert!(r.is_none());
}

#[test]
fn solve_over_two_halves() {
    // Left and right halves: a path alternates between them and stops at
    // five cells in each.
    let mut regions: Vec<Vec<Position>> = vec![vec![], vec![]];
    for y in 0..10 {
        for x in 0..10 {
            regions[x / 5].push(pos(x, y));
        }
    }
    let t = RegionTable::new(regions).unwrap();
    match solve(&t, &vec![(1, pos(0, 0))], 12) {
        Some(s) => {
            assert!(s.check());
            assert_eq!(s.history.len(), 10);
            for i in 0..10 {
                assert_eq!(s.count_in_row(i), 1);
                assert_eq!(s.count_in_col(i), 1);
            }
        }
        None => {
            let frontier = paths_to(vec![GameState::new(&t)], &pos(0, 0), 0);
            let mut all = frontier;
            for _ in 0..9 {
                all = expand_all(&all);
                assert!(all.iter().all(|s| !s.check()));
            }
        }
    }
}

#[test]
fn puzzle_region_sizes() {
    let sizes: Vec<usize> = init_regions().iter().map(|r| r.len()).collect();
    assert_eq!(sizes, vec![8, 7, 11, 6, 8, 11, 11, 5, 5, 8, 15, 5]);
}

#[test]
fn puzzle_waypoints_are_three_moves_apart() {
    let w = init_waypoints();
    for i in 1..w.len() {
        assert_eq!(w[i].0, w[i - 1].0 + 3);
        for j in 0..i {
            assert_ne!(w[i].1, w[j].1);
        }
    }
    assert_eq!(w[16], (49, pos(0, 6)));
}

#[test]
fn fully_marked_puzzle_board_is_not_balanced() {
    let t = puzzle_table();
    let mut s = GameState::new(&t);
    s.board = vec![true; BOARD_SIZE];
    assert_eq!(s.count_in_row(3), 10);
    assert_eq!(s.count_in_col(7), 10);
    assert!(!s.check());
}

#[test]
fn counts_after_the_first_move() {
    let t = puzzle_table();
    let s = GameState::new(&t).into_move(pos(2, 1));
    assert_eq!((s.count_in_row(0), s.count_in_row(1), s.count_in_row(2)), (1, 1, 0));
    assert_eq!((s.count_in_col(0), s.count_in_col(1), s.count_in_col(2)), (1, 0, 1));
    assert_eq!(s.all_moves(), vec![pos(3, 3), pos(4, 2), pos(4, 0), pos(0, 2)]);
}
