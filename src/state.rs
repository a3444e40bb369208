//! Path states: the cells visited so far, in order, and the legal next moves.
use vstd::prelude::*;
use crate::geometry::{cell_index, in_bounds, pos, Position, BOARD_HEIGHT, BOARD_SIZE, BOARD_WIDTH};
use crate::regions::{is_entry, is_partition, is_region_map, RegionTable};

verus! {

/// The most marked cells that a region may hold before a move may enter it.
pub const REGION_CAP: usize = 5;

/// The mathematical content of a path state.
pub struct PathModel {
    /// Whether each cell, by index, has been visited.
    pub board: Seq<bool>,
    /// The cell visited last.
    pub head: Position,
    /// The region of `head`.
    pub head_region: int,
    /// The visited cells, in order.
    pub history: Seq<Position>,
    /// The cells of each region.
    pub regions: Seq<Seq<Position>>,
    /// The region of each cell, by index.
    pub map: Seq<usize>,
}

/// The number of entries of `cells` that are marked on `board`.
pub open spec fn count_marked(board: Seq<bool>, cells: Seq<Position>) -> nat
    decreases cells.len(),
{
    if cells.len() == 0 {
        0
    } else {
        count_marked(board, cells.drop_last()) + if board[cells.last().index()] {
            1nat
        } else {
            0nat
        }
    }
}

/// The number of marked cells among the first `n` columns of row `y`.
pub open spec fn row_count(board: Seq<bool>, y: int, n: nat) -> nat
    decreases n,
{
    if n == 0 {
        0
    } else {
        row_count(board, y, (n - 1) as nat) + if board[cell_index(n - 1, y)] {
            1nat
        } else {
            0nat
        }
    }
}

/// The number of marked cells among the first `n` rows of column `x`.
pub open spec fn col_count(board: Seq<bool>, x: int, n: nat) -> nat
    decreases n,
{
    if n == 0 {
        0
    } else {
        col_count(board, x, (n - 1) as nat) + if board[cell_index(x, n - 1)] {
            1nat
        } else {
            0nat
        }
    }
}

/// Whether every row holds as many marked cells as every other, every column
/// as many as every other, and every region as many as every other.
pub open spec fn balanced(board: Seq<bool>, regions: Seq<Seq<Position>>) -> bool {
    &&& forall|y: int|
        0 <= y < BOARD_HEIGHT ==> #[trigger] row_count(board, y, BOARD_WIDTH as nat) == row_count(
            board,
            0,
            BOARD_WIDTH as nat,
        )
    &&& forall|x: int|
        0 <= x < BOARD_WIDTH ==> #[trigger] col_count(board, x, BOARD_HEIGHT as nat) == col_count(
            board,
            0,
            BOARD_HEIGHT as nat,
        )
    &&& forall|r: int|
        0 <= r < regions.len() ==> #[trigger] count_marked(board, regions[r]) == count_marked(
            board,
            regions[0],
        )
}

/// Column offset of the `k`-th knight move, in the order moves are tried.
pub open spec fn knight_dx(k: int) -> int {
    if k == 0 || k == 1 {
        1
    } else if k == 2 || k == 3 {
        -1
    } else if k == 4 || k == 5 {
        2
    } else {
        -2
    }
}

/// Row offset of the `k`-th knight move, in the order moves are tried.
pub open spec fn knight_dy(k: int) -> int {
    if k == 0 || k == 2 {
        2
    } else if k == 1 || k == 3 {
        -2
    } else if k == 4 || k == 6 {
        1
    } else {
        -1
    }
}

impl PathModel {
    /// The number of marked cells of region `r`.
    pub open spec fn region_count(self, r: int) -> nat {
        count_marked(self.board, self.regions[r])
    }

    /// Whether the path may move onto the cell at column `x`, row `y`: it is on
    /// the board, and `admits` it.
    pub open spec fn legal(self, x: int, y: int) -> bool {
        in_bounds(x, y) && self.admits(x, y)
    }

    /// Whether the cell at column `x`, row `y` of the board is not yet visited,
    /// lies in another region than the head, and that region holds fewer than
    /// `REGION_CAP` visited cells.
    #[verifier::opaque]
    pub open spec fn admits(self, x: int, y: int) -> bool {
        &&& !self.board[cell_index(x, y)]
        &&& self.map[cell_index(x, y)] != self.head_region
        &&& self.region_count(self.map[cell_index(x, y)] as int) < REGION_CAP
    }

    /// The legal cells among the first `k` knight moves from `from`, in order.
    pub open spec fn moves_upto(self, from: Position, k: nat) -> Seq<Position>
        decreases k,
    {
        if k == 0 {
            Seq::empty()
        } else {
            let prev = self.moves_upto(from, (k - 1) as nat);
            let x = from.x + knight_dx(k - 1);
            let y = from.y + knight_dy(k - 1);
            if self.legal(x, y) {
                prev.push(Position { x: x as usize, y: y as usize })
            } else {
                prev
            }
        }
    }

    /// The legal next cells of the path, in the order the knight moves are tried.
    pub open spec fn legal_moves(self) -> Seq<Position> {
        self.moves_upto(self.head, 8)
    }

    /// The path extended by the cell `p`.
    pub open spec fn derive(self, p: Position) -> PathModel {
        PathModel {
            board: self.board.update(p.index(), true),
            head: p,
            head_region: self.map[p.index()] as int,
            history: self.history.push(p),
            ..self
        }
    }

    /// The paths that extend this one by one legal move, in order.
    pub open spec fn children(self) -> Seq<PathModel> {
        self.legal_moves().map_values(|p: Position| self.derive(p))
    }

    /// Whether the visited cells spread evenly over rows, columns and regions.
    pub open spec fn is_balanced(self) -> bool {
        balanced(self.board, self.regions)
    }

    pub open spec fn wf(self) -> bool {
        &&& is_partition(self.regions)
        &&& is_region_map(self.regions, self.map)
        &&& self.board.len() == BOARD_SIZE
        &&& self.history.len() >= 1
        &&& self.head == self.history.last()
        &&& self.head.valid()
        &&& self.head_region == self.map[self.head.index()]
        &&& forall|j: int| 0 <= j < self.history.len() ==> (#[trigger] self.history[j]).valid()
        &&& forall|i: int|
            0 <= i < BOARD_SIZE ==> (#[trigger] self.board[i] <==> exists|j: int|
                0 <= j < self.history.len() && #[trigger] self.history[j].index() == i)
    }
}

/// A partial path over the board, sharing the region table with the paths
/// derived from it.
pub struct GameState<'a> {
    pub board: Vec<bool>,
    pub current_position: Position,
    pub current_region: usize,
    pub history: Vec<Position>,
    pub table: &'a RegionTable,
}

impl<'a> View for GameState<'a> {
    type V = PathModel;

    open spec fn view(&self) -> PathModel {
        PathModel {
            board: self.board@,
            head: self.current_position,
            head_region: self.current_region as int,
            history: self.history@,
            regions: self.table.cells(),
            map: self.table.map(),
        }
    }
}

} // verus!

verus! {

/// Extending a well-formed path by a cell of the board that it has not visited
/// gives a well-formed path.
pub proof fn lemma_derive_wf(m: PathModel, p: Position)
    requires
        m.wf(),
        p.valid(),
        !m.board[p.index()],
    ensures
        m.derive(p).wf(),
{
    let d = m.derive(p);
    assert(d.history.last() == p);
    assert forall|i: int| 0 <= i < BOARD_SIZE implies (#[trigger] d.board[i] <==> exists|j: int|
        0 <= j < d.history.len() && #[trigger] d.history[j].index() == i) by {
        if i == p.index() {
            assert(d.history[d.history.len() - 1].index() == i);
        } else {
            if m.board[i] {
                let j = choose|j: int| 0 <= j < m.history.len() && #[trigger] m.history[j].index() == i;
                assert(d.history[j] == m.history[j]);
            }
            if exists|j: int| 0 <= j < d.history.len() && #[trigger] d.history[j].index() == i {
                let j = choose|j: int| 0 <= j < d.history.len() && #[trigger] d.history[j].index() == i;
                assert(j < m.history.len());
                assert(m.history[j] == d.history[j]);
            }
        }
    }
    assert forall|j: int| 0 <= j < d.history.len() implies (#[trigger] d.history[j]).valid() by {
        if j < m.history.len() {
            assert(d.history[j] == m.history[j]);
        }
    }
}

/// The number of cells of `cells` marked on `board`.
fn count_marked_in(board: &Vec<bool>, cells: &Vec<Position>) -> (r: usize)
    requires
        board@.len() == BOARD_SIZE,
        forall|j: int| 0 <= j < cells@.len() ==> (#[trigger] cells@[j]).valid(),
    ensures
        r == count_marked(board@, cells@),
{
    let mut r: usize = 0;
    let mut j: usize = 0;
    while j < cells.len()
        invariant
            board@.len() == BOARD_SIZE,
            forall|k: int| 0 <= k < cells@.len() ==> (#[trigger] cells@[k]).valid(),
            j <= cells@.len(),
            r <= j,
            r == count_marked(board@, cells@.take(j as int)),
        decreases cells@.len() - j,
    {
        assert(cells@.take(j + 1).drop_last() == cells@.take(j as int));
        if board[cells[j].raw_index()] {
            r = r + 1;
        }
        j = j + 1;
    }
    assert(cells@.take(j as int) == cells@);
    r
}

/// The cells of a region of a partition are all on the board.
proof fn lemma_region_cells_valid(rs: Seq<Seq<Position>>, r: int)
    requires
        is_partition(rs),
        0 <= r < rs.len(),
    ensures
        forall|j: int| 0 <= j < rs[r].len() ==> (#[trigger] rs[r][j]).valid(),
{
    assert forall|j: int| 0 <= j < rs[r].len() implies (#[trigger] rs[r][j]).valid() by {
        assert(is_entry(rs, r, j));
    }
}

impl Position {
    /// Appends `pos` to `possible_moves` when the path of `state` may move there.
    pub fn add_move_if_able(&self, possible_moves: &mut Vec<Position>, pos: Position, state: &GameState)
        requires
            state.wf(),
            pos.valid(),
        ensures
            final(possible_moves)@ == old(possible_moves)@ + if state@.legal(pos.x as int, pos.y as int) {
                seq![pos]
            } else {
                Seq::<Position>::empty()
            },
    {
        proof {
            reveal(PathModel::admits);
        }
        let i = pos.raw_index();
        let potential_region_idx = state.table.region_of(i);
        let potential_region = state.table.region(potential_region_idx);
        proof {
            lemma_region_cells_valid(state@.regions, potential_region_idx as int);
        }
        let r = count_marked_in(&state.board, potential_region);
        if potential_region_idx != state.current_region && !state.board[i] && r < REGION_CAP {
            possible_moves.push(pos);
        }
    }
}

impl<'a> GameState<'a> {
    pub open spec fn wf(&self) -> bool {
        self@.wf()
    }
}

} // verus!

verus! {

/// Every cell of `moves_upto` is a legal move.
pub proof fn lemma_moves_upto_legal(m: PathModel, from: Position, k: nat)
    ensures
        forall|i: int|
            0 <= i < m.moves_upto(from, k).len() ==> {
                let p = #[trigger] m.moves_upto(from, k)[i];
                m.legal(p.x as int, p.y as int)
            },
        m.moves_upto(from, k).len() <= k,
    decreases k,
{
    if k > 0 {
        lemma_moves_upto_legal(m, from, (k - 1) as nat);
    }
}

/// One more knight move appends its target exactly when that target is legal.
proof fn lemma_moves_step(m: PathModel, from: Position, k: nat, seen: Seq<Position>, x: int, y: int)
    requires
        seen == m.moves_upto(from, k),
        x == from.x + knight_dx(k as int),
        y == from.y + knight_dy(k as int),
    ensures
        m.moves_upto(from, k + 1) == seen + if m.legal(x, y) {
            seq![Position { x: x as usize, y: y as usize }]
        } else {
            Seq::<Position>::empty()
        },
{
    assert(m.moves_upto(from, k + 1) =~= seen + if m.legal(x, y) {
        seq![Position { x: x as usize, y: y as usize }]
    } else {
        Seq::<Position>::empty()
    });
}

impl Position {
    /// The legal next cells, in the order the knight moves are tried, of a path
    /// of `state` that stands on this cell.
    pub fn all_moves_with_restrictions(&self, state: &GameState) -> (moves: Vec<Position>)
        requires
            state.wf(),
            self.valid(),
        ensures
            moves@ == state@.moves_upto(*self, 8),
    {
        let mut moves: Vec<Position> = Vec::with_capacity(8);
        let x = self.x;
        let y = self.y;
        let ghost m = state@;
        assert(moves@ =~= m.moves_upto(*self, 0));
        let ghost mut prev = moves@;

        if x < BOARD_WIDTH - 1 && y < BOARD_HEIGHT - 2 {
            let p = pos(x + 1, y + 2);
            self.add_move_if_able(&mut moves, p, state);
        }
        proof {
            lemma_moves_step(m, *self, 0, prev, x + knight_dx(0), y + knight_dy(0));
        }
        assert(moves@ == m.moves_upto(*self, 1));

        proof {
            prev = moves@;
        }
        if x < BOARD_WIDTH - 1 && y > 1 {
            let p = pos(x + 1, y - 2);
            self.add_move_if_able(&mut moves, p, state);
        }
        proof {
            lemma_moves_step(m, *self, 1, prev, x + knight_dx(1), y + knight_dy(1));
        }
        assert(moves@ == m.moves_upto(*self, 2));

        proof {
            prev = moves@;
        }
        if x > 0 && y < BOARD_HEIGHT - 2 {
            let p = pos(x - 1, y + 2);
            self.add_move_if_able(&mut moves, p, state);
        }
        proof {
            lemma_moves_step(m, *self, 2, prev, x + knight_dx(2), y + knight_dy(2));
        }
        assert(moves@ == m.moves_upto(*self, 3));

        proof {
            prev = moves@;
        }
        if x > 0 && y > 1 {
            let p = pos(x - 1, y - 2);
            self.add_move_if_able(&mut moves, p, state);
        }
        proof {
            lemma_moves_step(m, *self, 3, prev, x + knight_dx(3), y + knight_dy(3));
        }
        assert(moves@ == m.moves_upto(*self, 4));

        proof {
            prev = moves@;
        }
        if x < BOARD_WIDTH - 2 && y < BOARD_HEIGHT - 1 {
            let p = pos(x + 2, y + 1);
            self.add_move_if_able(&mut moves, p, state);
        }
        proof {
            lemma_moves_step(m, *self, 4, prev, x + knight_dx(4), y + knight_dy(4));
        }
        assert(moves@ == m.moves_upto(*self, 5));

        proof {
            prev = moves@;
        }
        if x < BOARD_WIDTH - 2 && y > 0 {
            let p = pos(x + 2, y - 1);
            self.add_move_if_able(&mut moves, p, state);
        }
        proof {
            lemma_moves_step(m, *self, 5, prev, x + knight_dx(5), y + knight_dy(5));
        }
        assert(moves@ == m.moves_upto(*self, 6));

        proof {
            prev = moves@;
        }
        if x > 1 && y < BOARD_HEIGHT - 1 {
            let p = pos(x - 2, y + 1);
            self.add_move_if_able(&mut moves, p, state);
        }
        proof {
            lemma_moves_step(m, *self, 6, prev, x + knight_dx(6), y + knight_dy(6));
        }
        assert(moves@ == m.moves_upto(*self, 7));

        proof {
            prev = moves@;
        }
        if x > 1 && y > 0 {
            let p = pos(x - 2, y - 1);
            self.add_move_if_able(&mut moves, p, state);
        }
        proof {
            lemma_moves_step(m, *self, 7, prev, x + knight_dx(7), y + knight_dy(7));
        }
        assert(moves@ == m.moves_upto(*self, 8));

        moves
    }
}

} // verus!

verus! {

/// The path that has visited the top-left cell only.
pub open spec fn initial_model(regions: Seq<Seq<Position>>, map: Seq<usize>) -> PathModel {
    PathModel {
        board: Seq::new(BOARD_SIZE as nat, |i: int| i == 0),
        head: Position { x: 0, y: 0 },
        head_region: map[0] as int,
        history: seq![Position { x: 0, y: 0 }],
        regions,
        map,
    }
}

impl<'a> GameState<'a> {
    /// The path that starts, and so far stays, on the top-left cell.
    pub fn new(table: &'a RegionTable) -> (r: GameState<'a>)
        requires
            table.wf(),
        ensures
            r.wf(),
            r.table == table,
            r@ == initial_model(table.cells(), table.map()),
    {
        let mut board: Vec<bool> = Vec::new();
        let mut i: usize = 0;
        while i < BOARD_SIZE
            invariant
                i <= BOARD_SIZE,
                board@.len() == i,
                forall|k: int| 0 <= k < i ==> !board@[k],
            decreases BOARD_SIZE - i,
        {
            board.push(false);
            i = i + 1;
        }
        let mut gs = GameState {
            board,
            current_position: pos(0, 0),
            current_region: 0,
            history: Vec::new(),
            table,
        };
        gs.add_move(pos(0, 0));
        proof {
            let m = gs@;
            assert(m.board =~= initial_model(table.cells(), table.map()).board);
            assert(m.history =~= seq![Position { x: 0, y: 0 }]);
            assert forall|i: int| 0 <= i < BOARD_SIZE implies (#[trigger] m.board[i] <==> exists|j: int|
                0 <= j < m.history.len() && #[trigger] m.history[j].index() == i) by {
                assert(m.history[0].index() == 0);
            }
        }
        gs
    }

    /// Moves the head of this path onto `pos`, marking it and recording it.
    pub fn add_move(&mut self, pos: Position)
        requires
            old(self).board@.len() == BOARD_SIZE,
            old(self).table.wf(),
            pos.valid(),
        ensures
            final(self)@ == old(self)@.derive(pos),
            final(self).table == old(self).table,
    {
        let i = pos.raw_index();
        self.board.set(i, true);
        self.history.push(pos);
        self.current_position = pos;
        self.current_region = self.table.region_of(i);
    }

    /// A new path equal to this one extended by `pos`; this one is left as it is.
    pub fn into_move(&self, pos: Position) -> (r: GameState<'a>)
        requires
            self.wf(),
            pos.valid(),
            !self@.board[pos.index()],
        ensures
            r@ == self@.derive(pos),
            r.wf(),
            r.table == self.table,
            r@.board[pos.index()],
            forall|i: int| 0 <= i < BOARD_SIZE && i != pos.index() ==> r@.board[i] == self@.board[i],
            r@.history.len() == self@.history.len() + 1,
            r@.history.take(self@.history.len() as int) == self@.history,
            r@.history.last() == pos,
    {
        let mut board: Vec<bool> = Vec::new();
        let mut i: usize = 0;
        while i < self.board.len()
            invariant
                i <= self.board@.len(),
                board@ == self.board@.take(i as int),
            decreases self.board@.len() - i,
        {
            board.push(self.board[i]);
            i = i + 1;
            assert(board@ =~= self.board@.take(i as int));
        }
        let mut history: Vec<Position> = Vec::new();
        let mut j: usize = 0;
        while j < self.history.len()
            invariant
                j <= self.history@.len(),
                history@ == self.history@.take(j as int),
            decreases self.history@.len() - j,
        {
            history.push(self.history[j]);
            j = j + 1;
            assert(history@ =~= self.history@.take(j as int));
        }
        assert(board@ =~= self.board@);
        assert(history@ =~= self.history@);
        let mut new = GameState {
            board,
            current_position: self.current_position,
            current_region: self.current_region,
            history,
            table: self.table,
        };
        new.add_move(pos);
        proof {
            lemma_derive_wf(self@, pos);
            assert(new@.history.take(self@.history.len() as int) =~= self@.history);
        }
        new
    }

    /// The legal next cells of this path, in the order the knight moves are tried.
    pub fn all_moves(&self) -> (moves: Vec<Position>)
        requires
            self.wf(),
        ensures
            moves@ == self@.legal_moves(),
            moves@.len() <= 8,
            forall|i: int|
                0 <= i < moves@.len() ==> {
                    let p = #[trigger] moves@[i];
                    &&& p.valid()
                    &&& self@.legal(p.x as int, p.y as int)
                    &&& !self@.board[p.index()]
                    &&& self@.map[p.index()] != self@.head_region
                    &&& self@.region_count(self@.map[p.index()] as int) < REGION_CAP
                },
    {
        proof {
            lemma_moves_upto_legal(self@, self@.head, 8);
            reveal(PathModel::admits);
        }
        self.current_position.all_moves_with_restrictions(self)
    }
}

} // verus!

verus! {

impl<'a> GameState<'a> {
    /// The number of visited cells in row `i`.
    pub fn count_in_row(&self, i: usize) -> (sum: usize)
        requires
            self.board@.len() == BOARD_SIZE,
            i < BOARD_HEIGHT,
        ensures
            sum == row_count(self.board@, i as int, BOARD_WIDTH as nat),
    {
        let mut sum: usize = 0;
        let mut x: usize = 0;
        while x < BOARD_WIDTH
            invariant
                self.board@.len() == BOARD_SIZE,
                i < BOARD_HEIGHT,
                x <= BOARD_WIDTH,
                sum <= x,
                sum == row_count(self.board@, i as int, x as nat),
            decreases BOARD_WIDTH - x,
        {
            if self.board[pos(x, i).raw_index()] {
                sum = sum + 1;
            }
            x = x + 1;
        }
        sum
    }

    /// The number of visited cells in column `i`.
    pub fn count_in_col(&self, i: usize) -> (sum: usize)
        requires
            self.board@.len() == BOARD_SIZE,
            i < BOARD_WIDTH,
        ensures
            sum == col_count(self.board@, i as int, BOARD_HEIGHT as nat),
    {
        let mut sum: usize = 0;
        let mut y: usize = 0;
        while y < BOARD_HEIGHT
            invariant
                self.board@.len() == BOARD_SIZE,
                i < BOARD_WIDTH,
                y <= BOARD_HEIGHT,
                sum <= y,
                sum == col_count(self.board@, i as int, y as nat),
            decreases BOARD_HEIGHT - y,
        {
            if self.board[pos(i, y).raw_index()] {
                sum = sum + 1;
            }
            y = y + 1;
        }
        sum
    }

    /// Whether each row holds as many visited cells as every other, each column
    /// as many as every other, and each region as many as every other.
    pub fn check(&self) -> (r: bool)
        requires
            self.board@.len() == BOARD_SIZE,
            self.table.wf(),
        ensures
            r == self@.is_balanced(),
    {
        let ghost board = self.board@;
        let r_count = self.count_in_row(0);
        let mut i: usize = 1;
        while i < BOARD_HEIGHT
            invariant
                self.board@.len() == BOARD_SIZE,
                board == self.board@,
                1 <= i <= BOARD_HEIGHT,
                r_count == row_count(board, 0, BOARD_WIDTH as nat),
                forall|y: int|
                    0 <= y < i ==> #[trigger] row_count(board, y, BOARD_WIDTH as nat) == r_count,
            decreases BOARD_HEIGHT - i,
        {
            if self.count_in_row(i) != r_count {
                return false;
            }
            i = i + 1;
        }
        let c_count = self.count_in_col(0);
        let mut i: usize = 1;
        while i < BOARD_WIDTH
            invariant
                self.board@.len() == BOARD_SIZE,
                board == self.board@,
                1 <= i <= BOARD_WIDTH,
                c_count == col_count(board, 0, BOARD_HEIGHT as nat),
                forall|x: int|
                    0 <= x < i ==> #[trigger] col_count(board, x, BOARD_HEIGHT as nat) == c_count,
            decreases BOARD_WIDTH - i,
        {
            if self.count_in_col(i) != c_count {
                return false;
            }
            i = i + 1;
        }
        let ghost rs = self.table.cells();
        proof {
            assert(crate::regions::is_listed(rs, 0));
            let (r0, j0) = choose|r0: int, j0: int| #[trigger] is_entry(rs, r0, j0) && rs[r0][j0].index() == 0;
            assert(is_entry(rs, r0, j0));
            lemma_region_cells_valid(rs, 0);
        }
        let n = self.table.num_regions();
        let fr_region_count = count_marked_in(&self.board, self.table.region(0));
        let mut k: usize = 0;
        while k < n
            invariant
                self.board@.len() == BOARD_SIZE,
                self.table.wf(),
                board == self.board@,
                rs == self.table.cells(),
                n == rs.len(),
                k <= n,
                fr_region_count == count_marked(board, rs[0]),
                forall|r: int| 0 <= r < k ==> #[trigger] count_marked(board, rs[r]) == fr_region_count,
            decreases n - k,
        {
            proof {
                lemma_region_cells_valid(rs, k as int);
            }
            if count_marked_in(&self.board, self.table.region(k)) != fr_region_count {
                return false;
            }
            k = k + 1;
        }
        true
    }
}

} // verus!

verus! {

/// Whether `p` lists each of `0..n` exactly once.
pub open spec fn is_permutation(p: Seq<int>, n: int) -> bool {
    &&& p.len() == n
    &&& forall|i: int| 0 <= i < n ==> 0 <= #[trigger] p[i] < n
    &&& forall|i: int, j: int| 0 <= i < n && 0 <= j < n && #[trigger] p[i] == #[trigger] p[j] ==> i == j
    &&& forall|a: int| 0 <= a < n ==> #[trigger] p.contains(a)
}

/// Balance does not depend on the order in which the regions are listed: the
/// regions `rs2`, which list those of `rs1` in the order `p`, give the same
/// verdict on every board.
pub proof fn lemma_balanced_relabel(
    board: Seq<bool>,
    rs1: Seq<Seq<Position>>,
    rs2: Seq<Seq<Position>>,
    p: Seq<int>,
)
    requires
        rs2.len() == rs1.len(),
        is_permutation(p, rs1.len() as int),
        forall|k: int| 0 <= k < rs2.len() ==> #[trigger] rs2[k] == rs1[p[k]],
    ensures
        balanced(board, rs1) == balanced(board, rs2),
{
    let n = rs1.len() as int;
    if n > 0 {
        let c1 = count_marked(board, rs1[0]);
        let c2 = count_marked(board, rs2[0]);
        assert(rs2[0] == rs1[p[0]]);
        assert(p.contains(0));
        let i0 = choose|i: int| 0 <= i < n && #[trigger] p[i] == 0;
        assert(rs2[i0] == rs1[0]);
        if forall|r: int| 0 <= r < n ==> #[trigger] count_marked(board, rs1[r]) == c1 {
            assert forall|k: int| 0 <= k < n implies #[trigger] count_marked(board, rs2[k]) == c2 by {
                assert(rs2[k] == rs1[p[k]]);
                assert(count_marked(board, rs1[p[k]]) == c1);
                assert(count_marked(board, rs1[p[0]]) == c1);
            }
        }
        if forall|k: int| 0 <= k < n ==> #[trigger] count_marked(board, rs2[k]) == c2 {
            assert forall|a: int| 0 <= a < n implies #[trigger] count_marked(board, rs1[a]) == c1 by {
                assert(p.contains(a));
                let i = choose|i: int| 0 <= i < n && #[trigger] p[i] == a;
                assert(rs2[i] == rs1[a]);
                assert(count_marked(board, rs2[i]) == c2);
                assert(count_marked(board, rs2[i0]) == c2);
            }
        }
    }
}

} // verus!
