//! Breadth-first expansion of a frontier of paths.
use vstd::prelude::*;
use crate::geometry::Position;
use crate::puzzle::waypoints_valid;
use crate::regions::RegionTable;
use crate::state::{initial_model, GameState, PathModel};

verus! {

/// The models of a list of paths.
pub open spec fn views<'a>(s: Seq<GameState<'a>>) -> Seq<PathModel> {
    s.map_values(|g: GameState<'a>| g@)
}

/// Every path of `f` extended by each of its legal moves, parent by parent.
pub open spec fn expand(f: Seq<PathModel>) -> Seq<PathModel>
    decreases f.len(),
{
    if f.len() == 0 {
        Seq::empty()
    } else {
        expand(f.drop_last()) + f.last().children()
    }
}

/// The paths of `f` whose head is `d`, in order.
pub open spec fn at_target(f: Seq<PathModel>, d: Position) -> Seq<PathModel>
    decreases f.len(),
{
    if f.len() == 0 {
        Seq::empty()
    } else {
        at_target(f.drop_last(), d) + if f.last().head == d {
            seq![f.last()]
        } else {
            Seq::<PathModel>::empty()
        }
    }
}

/// The paths reached from `f` in exactly `n` moves whose head is then `d`.
pub open spec fn advance(f: Seq<PathModel>, d: Position, n: nat) -> Seq<PathModel>
    decreases n,
{
    if n == 0 {
        at_target(f, d)
    } else {
        advance(expand(f), d, (n - 1) as nat)
    }
}

/// Whether every path of `f` is well formed over the regions `rs` and map
/// `mp`, with a history of `len` cells.
pub open spec fn lockstep(f: Seq<PathModel>, rs: Seq<Seq<Position>>, mp: Seq<usize>, len: nat) -> bool {
    forall|i: int|
        0 <= i < f.len() ==> {
            let m = #[trigger] f[i];
            m.wf() && m.regions == rs && m.map == mp && m.history.len() == len
        }
}

/// Whether every path of `s` is well formed.
pub open spec fn all_wf<'a>(s: Seq<GameState<'a>>) -> bool {
    forall|i: int| 0 <= i < s.len() ==> (#[trigger] s[i]).wf()
}

/// One round of expansion keeps a frontier in lock-step, one cell longer.
pub proof fn lemma_expand_lockstep(f: Seq<PathModel>, rs: Seq<Seq<Position>>, mp: Seq<usize>, len: nat)
    requires
        lockstep(f, rs, mp, len),
    ensures
        lockstep(expand(f), rs, mp, len + 1),
    decreases f.len(),
{
    if f.len() > 0 {
        let g = f.drop_last();
        assert forall|i: int| 0 <= i < g.len() implies {
            let m = #[trigger] g[i];
            m.wf() && m.regions == rs && m.map == mp && m.history.len() == len
        } by {
            assert(g[i] == f[i]);
        }
        lemma_expand_lockstep(g, rs, mp, len);
        let p = f.last();
        assert(p == f[f.len() - 1]);
        let c = p.children();
        let e = expand(f);
        assert(e == expand(g) + c);
        crate::state::lemma_moves_upto_legal(p, p.head, 8);
        assert forall|i: int| 0 <= i < e.len() implies {
            let m = #[trigger] e[i];
            m.wf() && m.regions == rs && m.map == mp && m.history.len() == len + 1
        } by {
            if i >= expand(g).len() {
                let k = i - expand(g).len();
                let q = p.legal_moves()[k];
                assert(e[i] == p.derive(q));
                assert(p.legal(q.x as int, q.y as int));
                reveal(PathModel::admits);
                crate::state::lemma_derive_wf(p, q);
            } else {
                assert(e[i] == expand(g)[i]);
            }
        }
    }
}

/// Keeping the paths that stand on `d` keeps a frontier in lock-step, and
/// every path kept stands on `d`.
pub proof fn lemma_at_target_lockstep(
    f: Seq<PathModel>,
    d: Position,
    rs: Seq<Seq<Position>>,
    mp: Seq<usize>,
    len: nat,
)
    requires
        lockstep(f, rs, mp, len),
    ensures
        lockstep(at_target(f, d), rs, mp, len),
        forall|i: int| 0 <= i < at_target(f, d).len() ==> (#[trigger] at_target(f, d)[i]).head == d,
    decreases f.len(),
{
    if f.len() > 0 {
        let g = f.drop_last();
        assert forall|i: int| 0 <= i < g.len() implies {
            let m = #[trigger] g[i];
            m.wf() && m.regions == rs && m.map == mp && m.history.len() == len
        } by {
            assert(g[i] == f[i]);
        }
        lemma_at_target_lockstep(g, d, rs, mp, len);
        assert(f.last() == f[f.len() - 1]);
        let t = at_target(f, d);
        assert forall|i: int| 0 <= i < t.len() implies {
            let m = #[trigger] t[i];
            m.wf() && m.regions == rs && m.map == mp && m.history.len() == len && m.head == d
        } by {
            if i < at_target(g, d).len() {
                assert(t[i] == at_target(g, d)[i]);
            }
        }
    }
}

/// Advancing a frontier whose paths all have `len` cells by `n` moves towards
/// `d` gives only paths of `len + n` cells that stand on `d`, over the same
/// regions, and well formed.
pub proof fn lemma_advance_lockstep(
    f: Seq<PathModel>,
    d: Position,
    n: nat,
    rs: Seq<Seq<Position>>,
    mp: Seq<usize>,
    len: nat,
)
    requires
        lockstep(f, rs, mp, len),
    ensures
        lockstep(advance(f, d, n), rs, mp, len + n),
        forall|i: int| 0 <= i < advance(f, d, n).len() ==> (#[trigger] advance(f, d, n)[i]).head == d,
    decreases n,
{
    if n == 0 {
        lemma_at_target_lockstep(f, d, rs, mp, len);
    } else {
        lemma_expand_lockstep(f, rs, mp, len);
        lemma_advance_lockstep(expand(f), d, (n - 1) as nat, rs, mp, len + 1);
    }
}

} // verus!

verus! {

/// Every path of `states` extended by each of its legal moves, parent by
/// parent and move by move; the parents are left as they are.
pub fn expand_all<'a>(states: &Vec<GameState<'a>>) -> (v: Vec<GameState<'a>>)
    requires
        all_wf(states@),
    ensures
        views(v@) == expand(views(states@)),
        all_wf(v@),
{
    let ghost f = views(states@);
    let mut v: Vec<GameState<'a>> = Vec::new();
    let mut i: usize = 0;
    while i < states.len()
        invariant
            all_wf(states@),
            f == views(states@),
            i <= states@.len(),
            views(v@) == expand(f.take(i as int)),
            all_wf(v@),
        decreases states@.len() - i,
    {
        let s = &states[i];
        assert(s.wf());
        let moves = s.all_moves();
        let ghost before = views(v@);
        let mut j: usize = 0;
        while j < moves.len()
            invariant
                s.wf(),
                moves@ == s@.legal_moves(),
                forall|k: int|
                    0 <= k < moves@.len() ==> {
                        let p = #[trigger] moves@[k];
                        p.valid() && !s@.board[p.index()]
                    },
                j <= moves@.len(),
                views(v@) == before + s@.children().take(j as int),
                all_wf(v@),
            decreases moves@.len() - j,
        {
            let m = moves[j];
            assert(moves@[j as int] == m);
            let c = s.into_move(m);
            let ghost old_v = v@;
            v.push(c);
            assert(views(v@) =~= views(old_v).push(c@));
            assert(s@.children().take(j + 1) =~= s@.children().take(j as int).push(c@));
            assert(views(v@) =~= before + s@.children().take(j + 1));
            j = j + 1;
        }
        assert(s@.children().take(j as int) =~= s@.children());
        assert(f.take(i + 1).drop_last() =~= f.take(i as int));
        assert(f.take(i + 1).last() == s@);
        i = i + 1;
    }
    assert(f.take(i as int) =~= f);
    v
}

/// The paths reached from `states` in exactly `moves_left` moves whose head
/// is then `destination`, in the order the search meets them.
pub fn paths_to<'a>(states: Vec<GameState<'a>>, destination: &Position, moves_left: usize) -> (r: Vec<
    GameState<'a>,
>)
    requires
        all_wf(states@),
    ensures
        views(r@) == advance(views(states@), *destination, moves_left as nat),
        all_wf(r@),
    decreases moves_left,
{
    if moves_left == 0 {
        retain_at(states, destination)
    } else {
        let v = expand_all(&states);
        paths_to(v, destination, moves_left - 1)
    }
}

/// The paths of `states` whose head is `destination`, in order.
fn retain_at<'a>(states: Vec<GameState<'a>>, destination: &Position) -> (r: Vec<GameState<'a>>)
    requires
        all_wf(states@),
    ensures
        views(r@) == at_target(views(states@), *destination),
        all_wf(r@),
{
    let ghost s0 = states@;
    let ghost f = views(s0);
    let n = states.len();
    let mut states = states;
    // Moved out back to front, so that `rev` ends as `s0` reversed.
    let mut rev: Vec<GameState<'a>> = Vec::new();
    while states.len() > 0
        invariant
            states@ == s0.take(states@.len() as int),
            n == s0.len(),
            rev@.len() + states@.len() == n,
            forall|t: int| 0 <= t < rev@.len() ==> #[trigger] rev@[t] == s0[n - 1 - t],
        decreases states@.len(),
    {
        let x = states.pop().unwrap();
        assert(states@ =~= s0.take(states@.len() as int));
        rev.push(x);
    }
    let mut out: Vec<GameState<'a>> = Vec::new();
    let mut i: usize = 0;
    while rev.len() > 0
        invariant
            all_wf(s0),
            f == views(s0),
            n == s0.len(),
            rev@.len() + i == n,
            forall|t: int| 0 <= t < rev@.len() ==> #[trigger] rev@[t] == s0[n - 1 - t],
            views(out@) == at_target(f.take(i as int), *destination),
            all_wf(out@),
        decreases rev@.len(),
    {
        let x = rev.pop().unwrap();
        assert(x == s0[i as int]);
        assert(f.take(i + 1).drop_last() =~= f.take(i as int));
        assert(f.take(i + 1).last() == x@);
        if x.current_position == *destination {
            let ghost old_out = out@;
            out.push(x);
            assert(views(out@) =~= views(old_out) + seq![x@]);
        }
        i = i + 1;
    }
    assert(f.take(i as int) =~= f);
    out
}

} // verus!

verus! {

/// The first balanced path of `f` from position `i` on, if any.
pub open spec fn find_from(f: Seq<PathModel>, i: int) -> Option<PathModel>
    decreases f.len() - i,
{
    if i < 0 || i >= f.len() {
        None
    } else if f[i].is_balanced() {
        Some(f[i])
    } else {
        find_from(f, i + 1)
    }
}

/// The first balanced path of `f`, if any.
pub open spec fn find_balanced(f: Seq<PathModel>) -> Option<PathModel> {
    find_from(f, 0)
}

/// What the search returns from frontier `f`, with the waypoints from the
/// `k`-th on still to reach and `rounds` unguided rounds left.
pub open spec fn search_from(f: Seq<PathModel>, w: Seq<(usize, Position)>, k: nat, rounds: nat) -> Option<
    PathModel,
>
    decreases
            (if k < w.len() {
                w.len() - k
            } else {
                0
            }),
            rounds,
{
    if k < w.len() {
        let ps = advance(f, w[k as int].1, (w[k as int].0 - w[k - 1].0) as nat);
        match find_balanced(ps) {
            Some(s) => Some(s),
            None => search_from(ps, w, k + 1, rounds),
        }
    } else if rounds > 0 {
        let v = expand(f);
        match find_balanced(v) {
            Some(s) => Some(s),
            None => if v.len() == 0 {
                None
            } else {
                search_from(v, w, k, (rounds - 1) as nat)
            },
        }
    } else {
        None
    }
}

/// What the search returns from the top-left cell over the regions `rs` and
/// map `mp`, following the waypoints `w` and then at most `rounds` unguided rounds.
pub open spec fn solution(rs: Seq<Seq<Position>>, mp: Seq<usize>, w: Seq<(usize, Position)>, rounds: nat) -> Option<
    PathModel,
> {
    search_from(seq![initial_model(rs, mp)], w, 1, rounds)
}

proof fn lemma_find_from(f: Seq<PathModel>, j: int, i: int)
    requires
        0 <= j <= i <= f.len(),
        forall|k: int| j <= k < i ==> !(#[trigger] f[k]).is_balanced(),
    ensures
        i < f.len() && f[i].is_balanced() ==> find_from(f, j) == Some(f[i]),
        i == f.len() ==> find_from(f, j) is None,
    decreases i - j,
{
    if j < i {
        lemma_find_from(f, j + 1, i);
    }
}

/// The position of the first balanced path of `states`, if any.
pub fn first_balanced<'a>(states: &Vec<GameState<'a>>) -> (r: Option<usize>)
    requires
        all_wf(states@),
    ensures
        r matches Some(i) ==> i < states@.len() && states@[i as int]@.is_balanced() && forall|k: int|
            0 <= k < i ==> !(#[trigger] states@[k])@.is_balanced(),
        r is None ==> forall|k: int| 0 <= k < states@.len() ==> !(#[trigger] states@[k])@.is_balanced(),
        r matches Some(i) ==> find_balanced(views(states@)) == Some(states@[i as int]@),
        r is None ==> find_balanced(views(states@)) is None,
{
    let mut i: usize = 0;
    while i < states.len()
        invariant
            all_wf(states@),
            i <= states@.len(),
            forall|k: int| 0 <= k < i ==> !(#[trigger] states@[k])@.is_balanced(),
        decreases states@.len() - i,
    {
        assert(states@[i as int].wf());
        if states[i].check() {
            proof {
                lemma_find_views(states@, i as int);
            }
            return Some(i);
        }
        i = i + 1;
    }
    proof {
        lemma_find_views(states@, i as int);
    }
    None
}

/// Whether every path of `s` is well formed over the region table `t`.
pub open spec fn all_over<'a>(s: Seq<GameState<'a>>, t: &RegionTable) -> bool {
    forall|i: int|
        0 <= i < s.len() ==> {
            let g = #[trigger] s[i];
            g.wf() && g@.regions == t.cells() && g@.map == t.map()
        }
}

/// Searches for a balanced path from the top-left cell: first through each
/// waypoint after the first in turn, reaching it after as many moves as its
/// move number exceeds the previous one's, then, once the waypoints are used
/// up, by at most `max_rounds` further rounds of one move each. A path found
/// is balanced and well formed over `table`; `None` means that the frontier
/// died out or the rounds ran out first.
pub fn solve<'a>(table: &'a RegionTable, waypoints: &Vec<(usize, Position)>, max_rounds: usize) -> (r:
    Option<GameState<'a>>)
    requires
        table.wf(),
        waypoints_valid(waypoints@),
    ensures
        r matches Some(s) ==> s.wf() && s@.is_balanced() && s@.regions == table.cells() && s@.map
            == table.map(),
        r matches Some(s) ==> solution(table.cells(), table.map(), waypoints@, max_rounds as nat)
            == Some(s@),
        r is None ==> solution(table.cells(), table.map(), waypoints@, max_rounds as nat) is None,
{
    let ghost rs = table.cells();
    let ghost mp = table.map();
    let mut flows: Vec<GameState<'a>> = Vec::new();
    flows.push(GameState::new(table));
    let ghost mut len: nat = 1;
    let ghost target = solution(rs, mp, waypoints@, max_rounds as nat);
    proof {
        lemma_lockstep_views(flows@, table, len);
        assert(views(flows@) =~= seq![initial_model(rs, mp)]);
    }
    let mut w: usize = 1;
    while w < waypoints.len()
        invariant
            table.wf(),
            rs == table.cells(),
            mp == table.map(),
            waypoints_valid(waypoints@),
            1 <= w <= waypoints@.len(),
            all_over(flows@, table),
            lockstep(views(flows@), rs, mp, len),
            target == solution(rs, mp, waypoints@, max_rounds as nat),
            search_from(views(flows@), waypoints@, w as nat, max_rounds as nat) == target,
        decreases waypoints@.len() - w,
    {
        assert(waypoints@[w as int].0 > waypoints@[w - 1].0);
        let gap = waypoints[w].0 - waypoints[w - 1].0;
        let ps = paths_to(flows, &waypoints[w].1, gap);
        proof {
            lemma_advance_lockstep(views(flows@), waypoints@[w as int].1, gap as nat, rs, mp, len);
            len = (len + gap) as nat;
            lemma_over_from_views(ps@, table, len);
        }
        match first_balanced(&ps) {
            Some(i) => {
                let mut ps = ps;
                let s = ps.swap_remove(i);
                return Some(s);
            },
            None => {},
        }
        flows = ps;
        w = w + 1;
    }
    let mut round: usize = 0;
    while round < max_rounds
        invariant
            table.wf(),
            rs == table.cells(),
            mp == table.map(),
            all_over(flows@, table),
            lockstep(views(flows@), rs, mp, len),
            round <= max_rounds,
            w == waypoints@.len(),
            target == solution(rs, mp, waypoints@, max_rounds as nat),
            search_from(views(flows@), waypoints@, w as nat, (max_rounds - round) as nat) == target,
        decreases max_rounds - round,
    {
        let v = expand_all(&flows);
        proof {
            lemma_expand_lockstep(views(flows@), rs, mp, len);
            len = (len + 1) as nat;
            lemma_over_from_views(v@, table, len);
        }
        match first_balanced(&v) {
            Some(i) => {
                let mut v = v;
                let s = v.swap_remove(i);
                return Some(s);
            },
            None => {},
        }
        if v.len() == 0 {
            return None;
        }
        flows = v;
        round = round + 1;
    }
    None
}

proof fn lemma_find_views<'a>(s: Seq<GameState<'a>>, i: int)
    requires
        0 <= i <= s.len(),
        forall|k: int| 0 <= k < i ==> !(#[trigger] s[k])@.is_balanced(),
    ensures
        i < s.len() && s[i]@.is_balanced() ==> find_balanced(views(s)) == Some(s[i]@),
        i == s.len() ==> find_balanced(views(s)) is None,
{
    let f = views(s);
    assert forall|k: int| 0 <= k < i implies !(#[trigger] f[k]).is_balanced() by {
        assert(f[k] == s[k]@);
    }
    lemma_find_from(f, 0, i);
}

proof fn lemma_lockstep_views<'a>(s: Seq<GameState<'a>>, t: &RegionTable, len: nat)
    requires
        all_over(s, t),
        forall|i: int| 0 <= i < s.len() ==> (#[trigger] s[i])@.history.len() == len,
    ensures
        lockstep(views(s), t.cells(), t.map(), len),
{
    assert forall|i: int| 0 <= i < views(s).len() implies {
        let m = #[trigger] views(s)[i];
        m.wf() && m.regions == t.cells() && m.map == t.map() && m.history.len() == len
    } by {
        assert(views(s)[i] == s[i]@);
    }
}

proof fn lemma_over_from_views<'a>(s: Seq<GameState<'a>>, t: &RegionTable, len: nat)
    requires
        lockstep(views(s), t.cells(), t.map(), len),
    ensures
        all_over(s, t),
{
    assert forall|i: int| 0 <= i < s.len() implies {
        let g = #[trigger] s[i];
        g.wf() && g@.regions == t.cells() && g@.map == t.map()
    } by {
        assert(views(s)[i] == s[i]@);
    }
}

} // verus!
