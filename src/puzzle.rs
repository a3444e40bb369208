//! The puzzle's regions and waypoints, and the rules a waypoint list obeys.
use vstd::prelude::*;
use crate::geometry::{pos, Position, BOARD_SIZE};
use crate::regions::{is_entry, is_listed, is_partition, regions_view};

verus! {

/// Whether `w` is a usable list of waypoints: it is not empty, every cell is on
/// the board, and the move numbers strictly increase.
pub open spec fn waypoints_valid(w: Seq<(usize, Position)>) -> bool {
    &&& w.len() >= 1
    &&& forall|i: int| 0 <= i < w.len() ==> (#[trigger] w[i]).1.valid()
    &&& forall|i: int| 1 <= i < w.len() ==> w[i - 1].0 < (#[trigger] w[i]).0
}

/// Whether `waypoints` is a usable list of waypoints.
pub fn check_waypoints(waypoints: &Vec<(usize, Position)>) -> (r: bool)
    ensures
        r == waypoints_valid(waypoints@),
{
    if waypoints.len() == 0 {
        return false;
    }
    let mut i: usize = 0;
    while i < waypoints.len()
        invariant
            i <= waypoints@.len(),
            waypoints@.len() >= 1,
            forall|k: int| 0 <= k < i ==> (#[trigger] waypoints@[k]).1.valid(),
            forall|k: int| 1 <= k < i ==> waypoints@[k - 1].0 < (#[trigger] waypoints@[k]).0,
        decreases waypoints@.len() - i,
    {
        let (n, p) = waypoints[i];
        if p.x >= 10 || p.y >= 10 {
            return false;
        }
        if i > 0 && waypoints[i - 1].0 >= n {
            assert(waypoints@[i - 1].0 >= waypoints@[i as int].0);
            return false;
        }
        i = i + 1;
    }
    true
}

} // verus!

verus! {

/// The regions of the puzzle, as lists of cells.
pub fn init_regions() -> (regions: Vec<Vec<Position>>)
    ensures
        regions_view(regions@) == puzzle_regions(),
        is_partition(regions_view(regions@)),
{
    let regions: Vec<Vec<Position>> = vec![
        vec![pos(0, 0), pos(1, 0), pos(2, 0), pos(3, 0), pos(3, 1), pos(0, 1), pos(0, 2), pos(0, 3)],
        vec![pos(0, 4), pos(0, 5), pos(0, 6), pos(0, 7), pos(0, 8), pos(0, 9), pos(1, 5)],
        vec![
            pos(1, 1), pos(1, 2), pos(2, 1), pos(1, 3), pos(1, 4), pos(2, 3), pos(2, 4), pos(3, 4),
            pos(3, 5), pos(4, 4), pos(5, 4),
        ],
        vec![pos(2, 5), pos(2, 6), pos(1, 6), pos(1, 7), pos(1, 8), pos(2, 8)],
        vec![pos(1, 9), pos(2, 9), pos(3, 9), pos(4, 9), pos(3, 8), pos(3, 7), pos(3, 6), pos(2, 7)],
        vec![
            pos(2, 2), pos(3, 2), pos(4, 2), pos(5, 2), pos(6, 2), pos(3, 3), pos(4, 3), pos(5, 3),
            pos(6, 3), pos(7, 3), pos(6, 4),
        ],
        vec![
            pos(4, 0), pos(5, 0), pos(6, 0), pos(7, 0), pos(8, 0), pos(9, 0), pos(4, 1), pos(5, 1),
            pos(6, 1), pos(7, 1), pos(8, 1),
        ],
        vec![pos(9, 1), pos(9, 2), pos(9, 3), pos(8, 2), pos(7, 2)],
        vec![pos(8, 3), pos(8, 4), pos(8, 5), pos(9, 4), pos(9, 5)],
        vec![pos(5, 5), pos(6, 5), pos(7, 5), pos(7, 4), pos(7, 6), pos(7, 7), pos(8, 6), pos(9, 6)],
        vec![
            pos(9, 9), pos(8, 9), pos(7, 9), pos(9, 8), pos(8, 8), pos(7, 8), pos(6, 8), pos(9, 7),
            pos(8, 7), pos(6, 7), pos(4, 7), pos(6, 6), pos(5, 6), pos(4, 6), pos(4, 5),
        ],
        vec![pos(6, 9), pos(5, 9), pos(5, 8), pos(5, 7), pos(4, 8)],
    ];
    proof {
        assert(regions@[0]@ =~= puzzle_regions()[0]);
        assert(regions@[1]@ =~= puzzle_regions()[1]);
        assert(regions@[2]@ =~= puzzle_regions()[2]);
        assert(regions@[3]@ =~= puzzle_regions()[3]);
        assert(regions@[4]@ =~= puzzle_regions()[4]);
        assert(regions@[5]@ =~= puzzle_regions()[5]);
        assert(regions@[6]@ =~= puzzle_regions()[6]);
        assert(regions@[7]@ =~= puzzle_regions()[7]);
        assert(regions@[8]@ =~= puzzle_regions()[8]);
        assert(regions@[9]@ =~= puzzle_regions()[9]);
        assert(regions@[10]@ =~= puzzle_regions()[10]);
        assert(regions@[11]@ =~= puzzle_regions()[11]);
        assert(regions_view(regions@) =~= puzzle_regions());
        lemma_puzzle_partition();
    }
    regions
}

/// The waypoints of the puzzle: the move number at which the path stands on
/// each cell, starting from the top-left cell at move one.
pub fn init_waypoints() -> (waypoints: Vec<(usize, Position)>)
    ensures
        waypoints@ == puzzle_waypoints(),
        waypoints_valid(waypoints@),
        waypoints@[0] == (1usize, cell(0, 0)),
        forall|i: int| 1 <= i < waypoints@.len() ==> (#[trigger] waypoints@[i]).0 == waypoints@[i - 1].0 + 3,
        forall|i: int, j: int|
            0 <= i < waypoints@.len() && 0 <= j < waypoints@.len() && i != j ==> (#[trigger] waypoints@[i]).1
                != (#[trigger] waypoints@[j]).1,
{
    let waypoints: Vec<(usize, Position)> = vec![
        (1, pos(0, 0)),
        (4, pos(1, 2)),
        (7, pos(5, 3)),
        (10, pos(9, 4)),
        (13, pos(9, 1)),
        (16, pos(5, 4)),
        (19, pos(3, 7)),
        (22, pos(2, 9)),
        (25, pos(2, 8)),
        (28, pos(4, 5)),
        (31, pos(9, 5)),
        (34, pos(8, 5)),
        (37, pos(8, 8)),
        (40, pos(9, 2)),
        (43, pos(6, 0)),
        (46, pos(2, 3)),
        (49, pos(0, 6)),
    ];
    proof {
        assert(waypoints@ =~= puzzle_waypoints());
    }
    waypoints
}

} // verus!

verus! {

/// The cell at column `x`, row `y`.
pub open spec fn cell(x: usize, y: usize) -> Position {
    Position { x, y }
}

/// The waypoints of the puzzle, in order.
pub open spec fn puzzle_waypoints() -> Seq<(usize, Position)> {
    seq![
        (1usize, cell(0, 0)),
        (4usize, cell(1, 2)),
        (7usize, cell(5, 3)),
        (10usize, cell(9, 4)),
        (13usize, cell(9, 1)),
        (16usize, cell(5, 4)),
        (19usize, cell(3, 7)),
        (22usize, cell(2, 9)),
        (25usize, cell(2, 8)),
        (28usize, cell(4, 5)),
        (31usize, cell(9, 5)),
        (34usize, cell(8, 5)),
        (37usize, cell(8, 8)),
        (40usize, cell(9, 2)),
        (43usize, cell(6, 0)),
        (46usize, cell(2, 3)),
        (49usize, cell(0, 6)),
    ]
}

/// The cells of each region of the puzzle.
pub open spec fn puzzle_regions() -> Seq<Seq<Position>> {
    seq![
        seq![cell(0, 0), cell(1, 0), cell(2, 0), cell(3, 0), cell(3, 1), cell(0, 1), cell(0, 2), cell(0, 3)],
        seq![cell(0, 4), cell(0, 5), cell(0, 6), cell(0, 7), cell(0, 8), cell(0, 9), cell(1, 5)],
        seq![cell(1, 1), cell(1, 2), cell(2, 1), cell(1, 3), cell(1, 4), cell(2, 3), cell(2, 4), cell(3, 4), cell(3, 5), cell(4, 4), cell(5, 4)],
        seq![cell(2, 5), cell(2, 6), cell(1, 6), cell(1, 7), cell(1, 8), cell(2, 8)],
        seq![cell(1, 9), cell(2, 9), cell(3, 9), cell(4, 9), cell(3, 8), cell(3, 7), cell(3, 6), cell(2, 7)],
        seq![cell(2, 2), cell(3, 2), cell(4, 2), cell(5, 2), cell(6, 2), cell(3, 3), cell(4, 3), cell(5, 3), cell(6, 3), cell(7, 3), cell(6, 4)],
        seq![cell(4, 0), cell(5, 0), cell(6, 0), cell(7, 0), cell(8, 0), cell(9, 0), cell(4, 1), cell(5, 1), cell(6, 1), cell(7, 1), cell(8, 1)],
        seq![cell(9, 1), cell(9, 2), cell(9, 3), cell(8, 2), cell(7, 2)],
        seq![cell(8, 3), cell(8, 4), cell(8, 5), cell(9, 4), cell(9, 5)],
        seq![cell(5, 5), cell(6, 5), cell(7, 5), cell(7, 4), cell(7, 6), cell(7, 7), cell(8, 6), cell(9, 6)],
        seq![cell(9, 9), cell(8, 9), cell(7, 9), cell(9, 8), cell(8, 8), cell(7, 8), cell(6, 8), cell(9, 7), cell(8, 7), cell(6, 7), cell(4, 7), cell(6, 6), cell(5, 6), cell(4, 6), cell(4, 5)],
        seq![cell(6, 9), cell(5, 9), cell(5, 8), cell(5, 7), cell(4, 8)],
    ]
}

/// For each cell, by index, the region of the puzzle that lists it.
spec fn puzzle_region_of() -> Seq<int> {
    seq![
        0, 0, 0, 0, 6, 6, 6, 6, 6, 6,
        0, 2, 2, 0, 6, 6, 6, 6, 6, 7,
        0, 2, 5, 5, 5, 5, 5, 7, 7, 7,
        0, 2, 2, 5, 5, 5, 5, 5, 8, 7,
        1, 2, 2, 2, 2, 2, 5, 9, 8, 8,
        1, 1, 3, 2, 10, 9, 9, 9, 8, 8,
        1, 3, 3, 4, 10, 10, 10, 9, 9, 9,
        1, 3, 4, 4, 10, 11, 10, 9, 10, 10,
        1, 3, 3, 4, 11, 11, 10, 10, 10, 10,
        1, 4, 4, 4, 4, 11, 11, 10, 10, 10,
    ]
}

/// For each cell, by index, its place in the list of its region.
spec fn puzzle_slot_of() -> Seq<int> {
    seq![
        0, 1, 2, 3, 0, 1, 2, 3, 4, 5,
        5, 0, 2, 4, 6, 7, 8, 9, 10, 0,
        6, 1, 0, 1, 2, 3, 4, 4, 3, 1,
        7, 3, 5, 5, 6, 7, 8, 9, 0, 2,
        0, 4, 6, 7, 9, 10, 10, 3, 1, 3,
        1, 6, 0, 8, 14, 0, 1, 2, 2, 4,
        2, 2, 1, 6, 13, 12, 11, 4, 6, 7,
        3, 3, 7, 5, 10, 3, 9, 5, 8, 7,
        4, 4, 5, 4, 4, 2, 6, 5, 4, 3,
        5, 0, 1, 2, 3, 1, 0, 2, 1, 0,
    ]
}

/// Every entry of the puzzle's regions is a cell of the board, and the two
/// lookups lead back to it.
proof fn lemma_puzzle_entries()
    ensures
        forall|r: int, j: int|
            #[trigger] is_entry(puzzle_regions(), r, j) ==> {
                let p = puzzle_regions()[r][j];
                &&& p.valid()
                &&& puzzle_region_of()[p.index()] == r
                &&& puzzle_slot_of()[p.index()] == j
            },
{
    let rs = puzzle_regions();
    assert forall|j: int| 0 <= j < rs[0].len() implies {
        let p = #[trigger] rs[0][j];
        &&& p.valid()
        &&& puzzle_region_of()[p.index()] == 0
        &&& puzzle_slot_of()[p.index()] == j
    } by {
        assert(rs[0][0] == cell(0, 0));
        assert(rs[0][1] == cell(1, 0));
        assert(rs[0][2] == cell(2, 0));
        assert(rs[0][3] == cell(3, 0));
        assert(rs[0][4] == cell(3, 1));
        assert(rs[0][5] == cell(0, 1));
        assert(rs[0][6] == cell(0, 2));
        assert(rs[0][7] == cell(0, 3));
    }
    assert forall|j: int| 0 <= j < rs[1].len() implies {
        let p = #[trigger] rs[1][j];
        &&& p.valid()
        &&& puzzle_region_of()[p.index()] == 1
        &&& puzzle_slot_of()[p.index()] == j
    } by {
        assert(rs[1][0] == cell(0, 4));
        assert(rs[1][1] == cell(0, 5));
        assert(rs[1][2] == cell(0, 6));
        assert(rs[1][3] == cell(0, 7));
        assert(rs[1][4] == cell(0, 8));
        assert(rs[1][5] == cell(0, 9));
        assert(rs[1][6] == cell(1, 5));
    }
    assert forall|j: int| 0 <= j < rs[2].len() implies {
        let p = #[trigger] rs[2][j];
        &&& p.valid()
        &&& puzzle_region_of()[p.index()] == 2
        &&& puzzle_slot_of()[p.index()] == j
    } by {
        assert(rs[2][0] == cell(1, 1));
        assert(rs[2][1] == cell(1, 2));
        assert(rs[2][2] == cell(2, 1));
        assert(rs[2][3] == cell(1, 3));
        assert(rs[2][4] == cell(1, 4));
        assert(rs[2][5] == cell(2, 3));
        assert(rs[2][6] == cell(2, 4));
        assert(rs[2][7] == cell(3, 4));
        assert(rs[2][8] == cell(3, 5));
        assert(rs[2][9] == cell(4, 4));
        assert(rs[2][10] == cell(5, 4));
    }
    assert forall|j: int| 0 <= j < rs[3].len() implies {
        let p = #[trigger] rs[3][j];
        &&& p.valid()
        &&& puzzle_region_of()[p.index()] == 3
        &&& puzzle_slot_of()[p.index()] == j
    } by {
        assert(rs[3][0] == cell(2, 5));
        assert(rs[3][1] == cell(2, 6));
        assert(rs[3][2] == cell(1, 6));
        assert(rs[3][3] == cell(1, 7));
        assert(rs[3][4] == cell(1, 8));
        assert(rs[3][5] == cell(2, 8));
    }
    assert forall|j: int| 0 <= j < rs[4].len() implies {
        let p = #[trigger] rs[4][j];
        &&& p.valid()
        &&& puzzle_region_of()[p.index()] == 4
        &&& puzzle_slot_of()[p.index()] == j
    } by {
        assert(rs[4][0] == cell(1, 9));
        assert(rs[4][1] == cell(2, 9));
        assert(rs[4][2] == cell(3, 9));
        assert(rs[4][3] == cell(4, 9));
        assert(rs[4][4] == cell(3, 8));
        assert(rs[4][5] == cell(3, 7));
        assert(rs[4][6] == cell(3, 6));
        assert(rs[4][7] == cell(2, 7));
    }
    assert forall|j: int| 0 <= j < rs[5].len() implies {
        let p = #[trigger] rs[5][j];
        &&& p.valid()
        &&& puzzle_region_of()[p.index()] == 5
        &&& puzzle_slot_of()[p.index()] == j
    } by {
        assert(rs[5][0] == cell(2, 2));
        assert(rs[5][1] == cell(3, 2));
        assert(rs[5][2] == cell(4, 2));
        assert(rs[5][3] == cell(5, 2));
        assert(rs[5][4] == cell(6, 2));
        assert(rs[5][5] == cell(3, 3));
        assert(rs[5][6] == cell(4, 3));
        assert(rs[5][7] == cell(5, 3));
        assert(rs[5][8] == cell(6, 3));
        assert(rs[5][9] == cell(7, 3));
        assert(rs[5][10] == cell(6, 4));
    }
    assert forall|j: int| 0 <= j < rs[6].len() implies {
        let p = #[trigger] rs[6][j];
        &&& p.valid()
        &&& puzzle_region_of()[p.index()] == 6
        &&& puzzle_slot_of()[p.index()] == j
    } by {
        assert(rs[6][0] == cell(4, 0));
        assert(rs[6][1] == cell(5, 0));
        assert(rs[6][2] == cell(6, 0));
        assert(rs[6][3] == cell(7, 0));
        assert(rs[6][4] == cell(8, 0));
        assert(rs[6][5] == cell(9, 0));
        assert(rs[6][6] == cell(4, 1));
        assert(rs[6][7] == cell(5, 1));
        assert(rs[6][8] == cell(6, 1));
        assert(rs[6][9] == cell(7, 1));
        assert(rs[6][10] == cell(8, 1));
    }
    assert forall|j: int| 0 <= j < rs[7].len() implies {
        let p = #[trigger] rs[7][j];
        &&& p.valid()
        &&& puzzle_region_of()[p.index()] == 7
        &&& puzzle_slot_of()[p.index()] == j
    } by {
        assert(rs[7][0] == cell(9, 1));
        assert(rs[7][1] == cell(9, 2));
        assert(rs[7][2] == cell(9, 3));
        assert(rs[7][3] == cell(8, 2));
        assert(rs[7][4] == cell(7, 2));
    }
    assert forall|j: int| 0 <= j < rs[8].len() implies {
        let p = #[trigger] rs[8][j];
        &&& p.valid()
        &&& puzzle_region_of()[p.index()] == 8
        &&& puzzle_slot_of()[p.index()] == j
    } by {
        assert(rs[8][0] == cell(8, 3));
        assert(rs[8][1] == cell(8, 4));
        assert(rs[8][2] == cell(8, 5));
        assert(rs[8][3] == cell(9, 4));
        assert(rs[8][4] == cell(9, 5));
    }
    assert forall|j: int| 0 <= j < rs[9].len() implies {
        let p = #[trigger] rs[9][j];
        &&& p.valid()
        &&& puzzle_region_of()[p.index()] == 9
        &&& puzzle_slot_of()[p.index()] == j
    } by {
        assert(rs[9][0] == cell(5, 5));
        assert(rs[9][1] == cell(6, 5));
        assert(rs[9][2] == cell(7, 5));
        assert(rs[9][3] == cell(7, 4));
        assert(rs[9][4] == cell(7, 6));
        assert(rs[9][5] == cell(7, 7));
        assert(rs[9][6] == cell(8, 6));
        assert(rs[9][7] == cell(9, 6));
    }
    assert forall|j: int| 0 <= j < rs[10].len() implies {
        let p = #[trigger] rs[10][j];
        &&& p.valid()
        &&& puzzle_region_of()[p.index()] == 10
        &&& puzzle_slot_of()[p.index()] == j
    } by {
        assert(rs[10][0] == cell(9, 9));
        assert(rs[10][1] == cell(8, 9));
        assert(rs[10][2] == cell(7, 9));
        assert(rs[10][3] == cell(9, 8));
        assert(rs[10][4] == cell(8, 8));
        assert(rs[10][5] == cell(7, 8));
        assert(rs[10][6] == cell(6, 8));
        assert(rs[10][7] == cell(9, 7));
        assert(rs[10][8] == cell(8, 7));
        assert(rs[10][9] == cell(6, 7));
        assert(rs[10][10] == cell(4, 7));
        assert(rs[10][11] == cell(6, 6));
        assert(rs[10][12] == cell(5, 6));
        assert(rs[10][13] == cell(4, 6));
        assert(rs[10][14] == cell(4, 5));
    }
    assert forall|j: int| 0 <= j < rs[11].len() implies {
        let p = #[trigger] rs[11][j];
        &&& p.valid()
        &&& puzzle_region_of()[p.index()] == 11
        &&& puzzle_slot_of()[p.index()] == j
    } by {
        assert(rs[11][0] == cell(6, 9));
        assert(rs[11][1] == cell(5, 9));
        assert(rs[11][2] == cell(5, 8));
        assert(rs[11][3] == cell(5, 7));
        assert(rs[11][4] == cell(4, 8));
    }
    assert forall|r: int, j: int| #[trigger] is_entry(rs, r, j) implies {
        let p = rs[r][j];
        &&& p.valid()
        &&& puzzle_region_of()[p.index()] == r
        &&& puzzle_slot_of()[p.index()] == j
    } by {
        assert(0 <= r < 12);
    }
}

/// Every cell of the board is listed among the puzzle's regions, where the
/// two lookups say.
proof fn lemma_puzzle_lookup()
    ensures
        forall|i: int|
            0 <= i < BOARD_SIZE ==> {
                let r = #[trigger] puzzle_region_of()[i];
                let j = puzzle_slot_of()[i];
                is_entry(puzzle_regions(), r, j) && puzzle_regions()[r][j].index() == i
            },
{
    let rs = puzzle_regions();
    let rm = puzzle_region_of();
    let sl = puzzle_slot_of();
    assert(rm[0] == 0 && sl[0] == 0 && rs[0].len() == 8 && rs[0][0].index() == 0);
    assert(rm[1] == 0 && sl[1] == 1 && rs[0].len() == 8 && rs[0][1].index() == 1);
    assert(rm[2] == 0 && sl[2] == 2 && rs[0].len() == 8 && rs[0][2].index() == 2);
    assert(rm[3] == 0 && sl[3] == 3 && rs[0].len() == 8 && rs[0][3].index() == 3);
    assert(rm[4] == 6 && sl[4] == 0 && rs[6].len() == 11 && rs[6][0].index() == 4);
    assert(rm[5] == 6 && sl[5] == 1 && rs[6].len() == 11 && rs[6][1].index() == 5);
    assert(rm[6] == 6 && sl[6] == 2 && rs[6].len() == 11 && rs[6][2].index() == 6);
    assert(rm[7] == 6 && sl[7] == 3 && rs[6].len() == 11 && rs[6][3].index() == 7);
    assert(rm[8] == 6 && sl[8] == 4 && rs[6].len() == 11 && rs[6][4].index() == 8);
    assert(rm[9] == 6 && sl[9] == 5 && rs[6].len() == 11 && rs[6][5].index() == 9);
    assert(rm[10] == 0 && sl[10] == 5 && rs[0].len() == 8 && rs[0][5].index() == 10);
    assert(rm[11] == 2 && sl[11] == 0 && rs[2].len() == 11 && rs[2][0].index() == 11);
    assert(rm[12] == 2 && sl[12] == 2 && rs[2].len() == 11 && rs[2][2].index() == 12);
    assert(rm[13] == 0 && sl[13] == 4 && rs[0].len() == 8 && rs[0][4].index() == 13);
    assert(rm[14] == 6 && sl[14] == 6 && rs[6].len() == 11 && rs[6][6].index() == 14);
    assert(rm[15] == 6 && sl[15] == 7 && rs[6].len() == 11 && rs[6][7].index() == 15);
    assert(rm[16] == 6 && sl[16] == 8 && rs[6].len() == 11 && rs[6][8].index() == 16);
    assert(rm[17] == 6 && sl[17] == 9 && rs[6].len() == 11 && rs[6][9].index() == 17);
    assert(rm[18] == 6 && sl[18] == 10 && rs[6].len() == 11 && rs[6][10].index() == 18);
    assert(rm[19] == 7 && sl[19] == 0 && rs[7].len() == 5 && rs[7][0].index() == 19);
    assert(rm[20] == 0 && sl[20] == 6 && rs[0].len() == 8 && rs[0][6].index() == 20);
    assert(rm[21] == 2 && sl[21] == 1 && rs[2].len() == 11 && rs[2][1].index() == 21);
    assert(rm[22] == 5 && sl[22] == 0 && rs[5].len() == 11 && rs[5][0].index() == 22);
    assert(rm[23] == 5 && sl[23] == 1 && rs[5].len() == 11 && rs[5][1].index() == 23);
    assert(rm[24] == 5 && sl[24] == 2 && rs[5].len() == 11 && rs[5][2].index() == 24);
    assert(rm[25] == 5 && sl[25] == 3 && rs[5].len() == 11 && rs[5][3].index() == 25);
    assert(rm[26] == 5 && sl[26] == 4 && rs[5].len() == 11 && rs[5][4].index() == 26);
    assert(rm[27] == 7 && sl[27] == 4 && rs[7].len() == 5 && rs[7][4].index() == 27);
    assert(rm[28] == 7 && sl[28] == 3 && rs[7].len() == 5 && rs[7][3].index() == 28);
    assert(rm[29] == 7 && sl[29] == 1 && rs[7].len() == 5 && rs[7][1].index() == 29);
    assert(rm[30] == 0 && sl[30] == 7 && rs[0].len() == 8 && rs[0][7].index() == 30);
    assert(rm[31] == 2 && sl[31] == 3 && rs[2].len() == 11 && rs[2][3].index() == 31);
    assert(rm[32] == 2 && sl[32] == 5 && rs[2].len() == 11 && rs[2][5].index() == 32);
    assert(rm[33] == 5 && sl[33] == 5 && rs[5].len() == 11 && rs[5][5].index() == 33);
    assert(rm[34] == 5 && sl[34] == 6 && rs[5].len() == 11 && rs[5][6].index() == 34);
    assert(rm[35] == 5 && sl[35] == 7 && rs[5].len() == 11 && rs[5][7].index() == 35);
    assert(rm[36] == 5 && sl[36] == 8 && rs[5].len() == 11 && rs[5][8].index() == 36);
    assert(rm[37] == 5 && sl[37] == 9 && rs[5].len() == 11 && rs[5][9].index() == 37);
    assert(rm[38] == 8 && sl[38] == 0 && rs[8].len() == 5 && rs[8][0].index() == 38);
    assert(rm[39] == 7 && sl[39] == 2 && rs[7].len() == 5 && rs[7][2].index() == 39);
    assert(rm[40] == 1 && sl[40] == 0 && rs[1].len() == 7 && rs[1][0].index() == 40);
    assert(rm[41] == 2 && sl[41] == 4 && rs[2].len() == 11 && rs[2][4].index() == 41);
    assert(rm[42] == 2 && sl[42] == 6 && rs[2].len() == 11 && rs[2][6].index() == 42);
    assert(rm[43] == 2 && sl[43] == 7 && rs[2].len() == 11 && rs[2][7].index() == 43);
    assert(rm[44] == 2 && sl[44] == 9 && rs[2].len() == 11 && rs[2][9].index() == 44);
    assert(rm[45] == 2 && sl[45] == 10 && rs[2].len() == 11 && rs[2][10].index() == 45);
    assert(rm[46] == 5 && sl[46] == 10 && rs[5].len() == 11 && rs[5][10].index() == 46);
    assert(rm[47] == 9 && sl[47] == 3 && rs[9].len() == 8 && rs[9][3].index() == 47);
    assert(rm[48] == 8 && sl[48] == 1 && rs[8].len() == 5 && rs[8][1].index() == 48);
    assert(rm[49] == 8 && sl[49] == 3 && rs[8].len() == 5 && rs[8][3].index() == 49);
    assert(rm[50] == 1 && sl[50] == 1 && rs[1].len() == 7 && rs[1][1].index() == 50);
    assert(rm[51] == 1 && sl[51] == 6 && rs[1].len() == 7 && rs[1][6].index() == 51);
    assert(rm[52] == 3 && sl[52] == 0 && rs[3].len() == 6 && rs[3][0].index() == 52);
    assert(rm[53] == 2 && sl[53] == 8 && rs[2].len() == 11 && rs[2][8].index() == 53);
    assert(rm[54] == 10 && sl[54] == 14 && rs[10].len() == 15 && rs[10][14].index() == 54);
    assert(rm[55] == 9 && sl[55] == 0 && rs[9].len() == 8 && rs[9][0].index() == 55);
    assert(rm[56] == 9 && sl[56] == 1 && rs[9].len() == 8 && rs[9][1].index() == 56);
    assert(rm[57] == 9 && sl[57] == 2 && rs[9].len() == 8 && rs[9][2].index() == 57);
    assert(rm[58] == 8 && sl[58] == 2 && rs[8].len() == 5 && rs[8][2].index() == 58);
    assert(rm[59] == 8 && sl[59] == 4 && rs[8].len() == 5 && rs[8][4].index() == 59);
    assert(rm[60] == 1 && sl[60] == 2 && rs[1].len() == 7 && rs[1][2].index() == 60);
    assert(rm[61] == 3 && sl[61] == 2 && rs[3].len() == 6 && rs[3][2].index() == 61);
    assert(rm[62] == 3 && sl[62] == 1 && rs[3].len() == 6 && rs[3][1].index() == 62);
    assert(rm[63] == 4 && sl[63] == 6 && rs[4].len() == 8 && rs[4][6].index() == 63);
    assert(rm[64] == 10 && sl[64] == 13 && rs[10].len() == 15 && rs[10][13].index() == 64);
    assert(rm[65] == 10 && sl[65] == 12 && rs[10].len() == 15 && rs[10][12].index() == 65);
    assert(rm[66] == 10 && sl[66] == 11 && rs[10].len() == 15 && rs[10][11].index() == 66);
    assert(rm[67] == 9 && sl[67] == 4 && rs[9].len() == 8 && rs[9][4].index() == 67);
    assert(rm[68] == 9 && sl[68] == 6 && rs[9].len() == 8 && rs[9][6].index() == 68);
    assert(rm[69] == 9 && sl[69] == 7 && rs[9].len() == 8 && rs[9][7].index() == 69);
    assert(rm[70] == 1 && sl[70] == 3 && rs[1].len() == 7 && rs[1][3].index() == 70);
    assert(rm[71] == 3 && sl[71] == 3 && rs[3].len() == 6 && rs[3][3].index() == 71);
    assert(rm[72] == 4 && sl[72] == 7 && rs[4].len() == 8 && rs[4][7].index() == 72);
    assert(rm[73] == 4 && sl[73] == 5 && rs[4].len() == 8 && rs[4][5].index() == 73);
    assert(rm[74] == 10 && sl[74] == 10 && rs[10].len() == 15 && rs[10][10].index() == 74);
    assert(rm[75] == 11 && sl[75] == 3 && rs[11].len() == 5 && rs[11][3].index() == 75);
    assert(rm[76] == 10 && sl[76] == 9 && rs[10].len() == 15 && rs[10][9].index() == 76);
    assert(rm[77] == 9 && sl[77] == 5 && rs[9].len() == 8 && rs[9][5].index() == 77);
    assert(rm[78] == 10 && sl[78] == 8 && rs[10].len() == 15 && rs[10][8].index() == 78);
    assert(rm[79] == 10 && sl[79] == 7 && rs[10].len() == 15 && rs[10][7].index() == 79);
    assert(rm[80] == 1 && sl[80] == 4 && rs[1].len() == 7 && rs[1][4].index() == 80);
    assert(rm[81] == 3 && sl[81] == 4 && rs[3].len() == 6 && rs[3][4].index() == 81);
    assert(rm[82] == 3 && sl[82] == 5 && rs[3].len() == 6 && rs[3][5].index() == 82);
    assert(rm[83] == 4 && sl[83] == 4 && rs[4].len() == 8 && rs[4][4].index() == 83);
    assert(rm[84] == 11 && sl[84] == 4 && rs[11].len() == 5 && rs[11][4].index() == 84);
    assert(rm[85] == 11 && sl[85] == 2 && rs[11].len() == 5 && rs[11][2].index() == 85);
    assert(rm[86] == 10 && sl[86] == 6 && rs[10].len() == 15 && rs[10][6].index() == 86);
    assert(rm[87] == 10 && sl[87] == 5 && rs[10].len() == 15 && rs[10][5].index() == 87);
    assert(rm[88] == 10 && sl[88] == 4 && rs[10].len() == 15 && rs[10][4].index() == 88);
    assert(rm[89] == 10 && sl[89] == 3 && rs[10].len() == 15 && rs[10][3].index() == 89);
    assert(rm[90] == 1 && sl[90] == 5 && rs[1].len() == 7 && rs[1][5].index() == 90);
    assert(rm[91] == 4 && sl[91] == 0 && rs[4].len() == 8 && rs[4][0].index() == 91);
    assert(rm[92] == 4 && sl[92] == 1 && rs[4].len() == 8 && rs[4][1].index() == 92);
    assert(rm[93] == 4 && sl[93] == 2 && rs[4].len() == 8 && rs[4][2].index() == 93);
    assert(rm[94] == 4 && sl[94] == 3 && rs[4].len() == 8 && rs[4][3].index() == 94);
    assert(rm[95] == 11 && sl[95] == 1 && rs[11].len() == 5 && rs[11][1].index() == 95);
    assert(rm[96] == 11 && sl[96] == 0 && rs[11].len() == 5 && rs[11][0].index() == 96);
    assert(rm[97] == 10 && sl[97] == 2 && rs[10].len() == 15 && rs[10][2].index() == 97);
    assert(rm[98] == 10 && sl[98] == 1 && rs[10].len() == 15 && rs[10][1].index() == 98);
    assert(rm[99] == 10 && sl[99] == 0 && rs[10].len() == 15 && rs[10][0].index() == 99);
}

/// The puzzle's regions partition the board.
pub proof fn lemma_puzzle_partition()
    ensures
        is_partition(puzzle_regions()),
{
    let rs = puzzle_regions();
    lemma_puzzle_entries();
    lemma_puzzle_lookup();
    assert forall|i: int| 0 <= i < BOARD_SIZE implies #[trigger] is_listed(rs, i) by {
        let r = puzzle_region_of()[i];
        let j = puzzle_slot_of()[i];
        assert(is_entry(rs, r, j));
    }
}

} // verus!
