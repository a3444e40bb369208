//! The partition of the board into regions, and the reverse lookup from a
//! cell to the region that holds it.
use vstd::prelude::*;
use crate::geometry::{pos, Position, BOARD_SIZE};

verus! {

/// The cells of each region, as plain sequences.
pub open spec fn regions_view(v: Seq<Vec<Position>>) -> Seq<Seq<Position>> {
    v.map_values(|r: Vec<Position>| r@)
}

/// Whether `(r, j)` names an entry of the region list `rs`.
pub open spec fn is_entry(rs: Seq<Seq<Position>>, r: int, j: int) -> bool {
    0 <= r < rs.len() && 0 <= j < rs[r].len()
}

/// Whether the region list `rs` partitions the board: every entry is a cell of
/// the board, no cell is listed twice, and every cell is listed.
pub open spec fn is_partition(rs: Seq<Seq<Position>>) -> bool {
    &&& forall|r: int, j: int| #[trigger] is_entry(rs, r, j) ==> rs[r][j].valid()
    &&& forall|r1: int, j1: int, r2: int, j2: int|
        #![trigger is_entry(rs, r1, j1), is_entry(rs, r2, j2)]
        is_entry(rs, r1, j1) && is_entry(rs, r2, j2) && (r1 != r2 || j1 != j2)
            ==> rs[r1][j1].index() != rs[r2][j2].index()
    &&& forall|i: int| 0 <= i < BOARD_SIZE ==> #[trigger] is_listed(rs, i)
}

/// Whether some entry of `rs` is the cell with index `i`.
pub open spec fn is_listed(rs: Seq<Seq<Position>>, i: int) -> bool {
    exists|r: int, j: int| #[trigger] is_entry(rs, r, j) && rs[r][j].index() == i
}

/// Whether `map` gives, for each cell of the board, the region of `rs` listing it.
pub open spec fn is_region_map(rs: Seq<Seq<Position>>, map: Seq<usize>) -> bool {
    &&& map.len() == BOARD_SIZE
    &&& forall|r: int, j: int| #[trigger] is_entry(rs, r, j) ==> map[rs[r][j].index()] == r
}

/// The regions of the board together with the region of each cell.
pub struct RegionTable {
    pub regions: Vec<Vec<Position>>,
    pub region_map: Vec<usize>,
}

impl RegionTable {
    /// The cells of each region.
    pub open spec fn cells(&self) -> Seq<Seq<Position>> {
        regions_view(self.regions@)
    }

    /// The region of each cell, by the cell's index.
    pub open spec fn map(&self) -> Seq<usize> {
        self.region_map@
    }

    pub open spec fn wf(&self) -> bool {
        &&& is_partition(self.cells())
        &&& is_region_map(self.cells(), self.map())
    }

    /// Builds the table from a list of regions; `None` unless the regions
    /// partition the board.
    pub fn new(regions: Vec<Vec<Position>>) -> (r: Option<RegionTable>)
        ensures
            r is Some <==> is_partition(regions_view(regions@)),
            r matches Some(t) ==> t.wf() && t.cells() == regions_view(regions@),
    {
        if check_partition(&regions) {
            let region_map = get_region_map(&regions);
            Some(RegionTable { regions, region_map })
        } else {
            None
        }
    }

    /// The number of regions.
    pub fn num_regions(&self) -> (r: usize)
        ensures
            r == self.cells().len(),
    {
        self.regions.len()
    }

    /// The cells of region `r`.
    pub fn region(&self, r: usize) -> (cells: &Vec<Position>)
        requires
            r < self.cells().len(),
        ensures
            cells@ == self.cells()[r as int],
    {
        &self.regions[r]
    }

    /// The region of the cell with index `i`.
    pub fn region_of(&self, i: usize) -> (r: usize)
        requires
            self.wf(),
            i < BOARD_SIZE,
        ensures
            r == self.map()[i as int],
            r < self.cells().len(),
    {
        proof {
            lemma_map_in_range(self.cells(), self.map(), i as int);
        }
        self.region_map[i]
    }
}

/// In a region map of a partition, each cell's region is one of the list.
pub proof fn lemma_map_in_range(rs: Seq<Seq<Position>>, map: Seq<usize>, i: int)
    requires
        is_partition(rs),
        is_region_map(rs, map),
        0 <= i < BOARD_SIZE,
    ensures
        map[i] < rs.len(),
        exists|j: int| #[trigger] is_entry(rs, map[i] as int, j) && rs[map[i] as int][j].index() == i,
{
    assert(is_listed(rs, i));
    let (r, j) = choose|r: int, j: int| #[trigger] is_entry(rs, r, j) && rs[r][j].index() == i;
    assert(is_entry(rs, r, j));
}

/// Whether `regions` partitions the board.
pub fn check_partition(regions: &Vec<Vec<Position>>) -> (r: bool)
    ensures
        r == is_partition(regions_view(regions@)),
{
    let ghost rs = regions_view(regions@);
    let n = regions.len();
    // `seen[i] == n` while no entry with index `i` has been met.
    let mut seen: Vec<usize> = Vec::new();
    let mut i: usize = 0;
    while i < BOARD_SIZE
        invariant
            i <= BOARD_SIZE,
            seen@.len() == i,
            forall|k: int| 0 <= k < i ==> seen@[k] == n,
        decreases BOARD_SIZE - i,
    {
        seen.push(n);
        i = i + 1;
    }
    let mut r: usize = 0;
    while r < n
        invariant
            n == regions@.len(),
            rs == regions_view(regions@),
            rs.len() == n,
            r <= n,
            seen@.len() == BOARD_SIZE,
            forall|k: int| 0 <= k < BOARD_SIZE ==> seen@[k] <= n,
            forall|k: int|
                0 <= k < BOARD_SIZE && seen@[k] < n ==> seen@[k] < r && exists|j: int|
                    #[trigger] is_entry(rs, seen@[k] as int, j) && rs[seen@[k] as int][j].index()
                        == k,
            forall|r1: int, j1: int| #[trigger]
                is_entry(rs, r1, j1) && r1 < r ==> rs[r1][j1].valid() && seen@[rs[r1][j1].index()]
                    == r1,
            forall|r1: int, j1: int, r2: int, j2: int|
                #![trigger is_entry(rs, r1, j1), is_entry(rs, r2, j2)]
                is_entry(rs, r1, j1) && is_entry(rs, r2, j2) && r1 < r && r2 < r && (r1 != r2 || j1
                    != j2) ==> rs[r1][j1].index() != rs[r2][j2].index(),
        decreases n - r,
    {
        let region = &regions[r];
        assert(region@ == rs[r as int]);
        let mut j: usize = 0;
        while j < region.len()
            invariant
                n == regions@.len(),
                rs == regions_view(regions@),
                rs.len() == n,
                r < n,
                region@ == rs[r as int],
                j <= region@.len(),
                seen@.len() == BOARD_SIZE,
                forall|k: int| 0 <= k < BOARD_SIZE ==> seen@[k] <= n,
                forall|k: int|
                    0 <= k < BOARD_SIZE && seen@[k] < n ==> seen@[k] <= r && exists|j1: int|
                        #[trigger] is_entry(rs, seen@[k] as int, j1) && rs[seen@[k] as int][j1].index()
                            == k && (seen@[k] < r || j1 < j),
                forall|r1: int, j1: int| #[trigger]
                    is_entry(rs, r1, j1) && (r1 < r || (r1 == r && j1 < j)) ==> rs[r1][j1].valid()
                        && seen@[rs[r1][j1].index()] == r1,
                forall|r1: int, j1: int, r2: int, j2: int|
                    #![trigger is_entry(rs, r1, j1), is_entry(rs, r2, j2)]
                    is_entry(rs, r1, j1) && is_entry(rs, r2, j2) && (r1 < r || (r1 == r && j1 < j))
                        && (r2 < r || (r2 == r && j2 < j)) && (r1 != r2 || j1 != j2)
                        ==> rs[r1][j1].index() != rs[r2][j2].index(),
            decreases region@.len() - j,
        {
            let p = region[j];
            assert(is_entry(rs, r as int, j as int));
            if p.x >= 10 || p.y >= 10 {
                return false;
            }
            let k = p.raw_index();
            if seen[k] != n {
                proof {
                    let s = seen@[k as int] as int;
                    let j1 = choose|j1: int|
                        #[trigger] is_entry(rs, s, j1) && rs[s][j1].index() == k && (s < r || j1 < j);
                    assert(is_entry(rs, s, j1) && is_entry(rs, r as int, j as int));
                }
                return false;
            }
            seen.set(k, r);
            j = j + 1;
        }
        r = r + 1;
    }
    let mut i: usize = 0;
    while i < BOARD_SIZE
        invariant
            n == regions@.len(),
            rs == regions_view(regions@),
            rs.len() == n,
            i <= BOARD_SIZE,
            seen@.len() == BOARD_SIZE,
            forall|k: int| 0 <= k < i ==> seen@[k] < n,
            forall|k: int| 0 <= k < BOARD_SIZE ==> seen@[k] <= n,
            forall|k: int|
                0 <= k < BOARD_SIZE && seen@[k] < n ==> exists|j: int|
                    #[trigger] is_entry(rs, seen@[k] as int, j) && rs[seen@[k] as int][j].index() == k,
            forall|r1: int, j1: int| #[trigger]
                is_entry(rs, r1, j1) ==> rs[r1][j1].valid() && seen@[rs[r1][j1].index()] == r1,
            forall|r1: int, j1: int, r2: int, j2: int|
                #![trigger is_entry(rs, r1, j1), is_entry(rs, r2, j2)]
                is_entry(rs, r1, j1) && is_entry(rs, r2, j2) && (r1 != r2 || j1 != j2)
                    ==> rs[r1][j1].index() != rs[r2][j2].index(),
        decreases BOARD_SIZE - i,
    {
        if seen[i] == n {
            proof {
                if is_listed(rs, i as int) {
                    let (r1, j1) = choose|r1: int, j1: int|
                        #[trigger] is_entry(rs, r1, j1) && rs[r1][j1].index() == i;
                    assert(is_entry(rs, r1, j1));
                }
            }
            return false;
        }
        i = i + 1;
    }
    proof {
        assert forall|k: int| 0 <= k < BOARD_SIZE implies #[trigger] is_listed(rs, k) by {
            let j = choose|j: int|
                #[trigger] is_entry(rs, seen@[k] as int, j) && rs[seen@[k] as int][j].index() == k;
            assert(is_entry(rs, seen@[k] as int, j));
        }
    }
    true
}

} // verus!

verus! {

/// The reverse lookup of a partition: for each cell's index, the position in
/// `regions` of the region that lists it.
pub fn get_region_map(regions: &Vec<Vec<Position>>) -> (map: Vec<usize>)
    requires
        is_partition(regions_view(regions@)),
    ensures
        is_region_map(regions_view(regions@), map@),
{
    let ghost rs = regions_view(regions@);
    let mut blank: Vec<usize> = Vec::new();
    let mut i: usize = 0;
    while i < BOARD_SIZE
        invariant
            i <= BOARD_SIZE,
            blank@.len() == i,
        decreases BOARD_SIZE - i,
    {
        blank.push(0);
        i = i + 1;
    }
    let mut region_id: usize = 0;
    while region_id < regions.len()
        invariant
            rs == regions_view(regions@),
            rs.len() == regions@.len(),
            is_partition(rs),
            region_id <= rs.len(),
            blank@.len() == BOARD_SIZE,
            forall|r1: int, j1: int| #[trigger]
                is_entry(rs, r1, j1) && r1 < region_id ==> blank@[rs[r1][j1].index()] == r1,
        decreases rs.len() - region_id,
    {
        let v = &regions[region_id];
        assert(v@ == rs[region_id as int]);
        let mut j: usize = 0;
        while j < v.len()
            invariant
                rs == regions_view(regions@),
                rs.len() == regions@.len(),
                is_partition(rs),
                region_id < rs.len(),
                v@ == rs[region_id as int],
                j <= v@.len(),
                blank@.len() == BOARD_SIZE,
                forall|r1: int, j1: int| #[trigger]
                    is_entry(rs, r1, j1) && (r1 < region_id || (r1 == region_id && j1 < j))
                        ==> blank@[rs[r1][j1].index()] == r1,
            decreases v@.len() - j,
        {
            assert(is_entry(rs, region_id as int, j as int));
            let k = v[j].raw_index();
            blank.set(k, region_id);
            j = j + 1;
        }
        region_id = region_id + 1;
    }
    blank
}

} // verus!
