use vstd::prelude::*;

use crate::grid::WorldMap;
use crate::seq_facts::{lemma_drop_last_contains, lemma_push_contains};
use crate::tile::{Location, Terrain};

verus! {

/// The subsequence of `cells` whose terrain in `w` is still `Nothing`.
pub open spec fn passable_of(w: WorldMap, cells: Seq<Location>) -> Seq<Location>
    decreases cells.len(),
{
    if cells.len() == 0 {
        Seq::empty()
    } else {
        let rest = passable_of(w, cells.drop_last());
        if w.terrain_at(cells.last()) == Terrain::Nothing {
            rest.push(cells.last())
        } else {
            rest
        }
    }
}

/// The cells the path search may move to from `loc`: grid-adjacent cells not
/// yet carved or built on.
pub open spec fn spec_passable(w: WorldMap, loc: Location) -> Seq<Location> {
    passable_of(w, w.spec_adjacent(loc))
}

/// One legal move of the path search.
pub open spec fn spec_step(w: WorldMap, a: Location, b: Location) -> bool {
    spec_passable(w, a).contains(b)
}

/// A walk the search could take: it begins at `start`, ends at `end`, and
/// each later cell is one legal move from the one before it.
pub open spec fn is_path(w: WorldMap, p: Seq<Location>, start: Location, end: Location) -> bool {
    &&& p.len() >= 1
    &&& p[0] == start
    &&& p[p.len() - 1] == end
    &&& forall|i: int| 1 <= i < p.len() ==> spec_step(w, #[trigger] p[i - 1], p[i])
}

proof fn lemma_passable_of_contains(w: WorldMap, cells: Seq<Location>, c: Location)
    ensures
        passable_of(w, cells).contains(c) <==> cells.contains(c) && w.terrain_at(c)
            == Terrain::Nothing,
    decreases cells.len(),
{
    if cells.len() > 0 {
        lemma_passable_of_contains(w, cells.drop_last(), c);
        lemma_drop_last_contains(cells, c);
        if w.terrain_at(cells.last()) == Terrain::Nothing {
            lemma_push_contains(passable_of(w, cells.drop_last()), cells.last(), c);
        }
    }
}

/// The search's neighbour relation, spelled out: a cell is reachable in one
/// step from `loc` iff it is in bounds, at Manhattan distance one, and its
/// terrain is `Nothing`.
pub proof fn lemma_passable_iff(w: WorldMap, loc: Location, c: Location)
    requires
        w.wf(),
        w.in_bounds(loc),
    ensures
        spec_step(w, loc, c) <==> (w.in_bounds(c) && loc.manhattan_spec(c) == 1 && w.terrain_at(c)
            == Terrain::Nothing),
{
    lemma_passable_of_contains(w, w.spec_adjacent(loc), c);
    w.lemma_adjacent_iff(loc, c);
}

/// Every cell of a well-formed search path is in bounds; every cell after
/// the first is unexcavated; and a path of n steps can shorten the Manhattan
/// distance to its end by at most n.
pub proof fn lemma_path_properties(w: WorldMap, p: Seq<Location>)
    requires
        w.wf(),
        p.len() >= 1,
        w.in_bounds(p[0]),
        forall|i: int| 1 <= i < p.len() ==> spec_step(w, #[trigger] p[i - 1], p[i]),
    ensures
        forall|k: int| 0 <= k < p.len() ==> w.in_bounds(#[trigger] p[k]),
        forall|k: int| 1 <= k < p.len() ==> w.terrain_at(#[trigger] p[k]) == Terrain::Nothing,
        p[0].manhattan_spec(p[p.len() - 1]) <= p.len() - 1,
    decreases p.len(),
{
    if p.len() > 1 {
        let q = p.drop_last();
        assert(forall|i: int| 1 <= i < q.len() ==> spec_step(w, #[trigger] q[i - 1], q[i]));
        lemma_path_properties(w, q);
        lemma_passable_iff(w, p[p.len() - 2], p[p.len() - 1]);
        assert forall|k: int| 0 <= k < p.len() implies w.in_bounds(#[trigger] p[k]) by {
            if k < p.len() - 1 {
                assert(w.in_bounds(q[k]));
            }
        }
        assert forall|k: int| 1 <= k < p.len() implies w.terrain_at(#[trigger] p[k])
            == Terrain::Nothing by {
            if k < p.len() - 1 {
                assert(w.terrain_at(q[k]) == Terrain::Nothing);
            }
        }
        assert(q[0] == p[0] && q[q.len() - 1] == p[p.len() - 2]);
    }
}

/// One cell of progress from `start` toward `end`: first along x, then
/// along y.
pub open spec fn step_toward(start: Location, end: Location) -> Location {
    if start.x < end.x {
        Location { x: (start.x + 1) as i32, y: start.y }
    } else if start.x > end.x {
        Location { x: (start.x - 1) as i32, y: start.y }
    } else if start.y < end.y {
        Location { x: start.x, y: (start.y + 1) as i32 }
    } else {
        Location { x: start.x, y: (start.y - 1) as i32 }
    }
}

/// The staircase walk from `start` to `end`: all of the x distance first,
/// then all of the y distance, one cell at a time.
pub open spec fn staircase(start: Location, end: Location) -> Seq<Location>
    decreases start.manhattan_spec(end),
{
    if start == end {
        seq![start]
    } else {
        seq![start] + staircase(step_toward(start, end), end)
    }
}

/// On a map whose every cell is still unexcavated, the staircase walk is a
/// legal search path, and its edge count is exactly the Manhattan distance.
pub proof fn lemma_staircase_connects(w: WorldMap, start: Location, end: Location)
    requires
        w.wf(),
        w.in_bounds(start),
        w.in_bounds(end),
        w.all_unexcavated(),
    ensures
        is_path(w, staircase(start, end), start, end),
        staircase(start, end).len() == start.manhattan_spec(end) + 1,
    decreases start.manhattan_spec(end),
{
    let q = staircase(start, end);
    if start != end {
        let next = step_toward(start, end);
        assert(w.in_bounds(next));
        lemma_staircase_connects(w, next, end);
        let sub = staircase(next, end);
        lemma_passable_iff(w, start, next);
        assert(w.terrain_at(next) == Terrain::Nothing);
        assert(spec_step(w, start, next));
        assert(q == seq![start] + sub);
        assert(q[q.len() - 1] == sub[sub.len() - 1]);
        assert forall|i: int| 1 <= i < q.len() implies spec_step(w, #[trigger] q[i - 1], q[i]) by {
            if i == 1 {
                assert(q[0] == start && q[1] == sub[0]);
            } else {
                assert(q[i - 1] == sub[i - 2] && q[i] == sub[i - 1]);
                assert(spec_step(w, sub[i - 2], sub[i - 1]));
            }
        }
    }
}

/// Iterates the passable neighbours of a cell, in the adjacency order of the
/// grid.
pub struct NeighborIterator {
    adjacent: Vec<Location>,
    current: usize,
}

impl NeighborIterator {
    pub closed spec fn spec_adjacent(self) -> Seq<Location> {
        self.adjacent@
    }

    pub closed spec fn spec_current(self) -> int {
        self.current as int
    }

    pub fn new(world: &WorldMap, loc: Location) -> (it: Self)
        requires
            world.wf(),
            world.in_bounds(loc),
        ensures
            it.spec_adjacent() == spec_passable(*world, loc),
            it.spec_current() == 0,
    {
        let adjacent = passable_cells(world, loc);
        NeighborIterator { adjacent, current: 0 }
    }

    /// Yields each passable neighbour with its uniform edge cost of one.
    pub fn next(&mut self) -> (r: Option<(Location, i32)>)
        ensures
            final(self).spec_adjacent() == old(self).spec_adjacent(),
            old(self).spec_current() < old(self).spec_adjacent().len() ==> {
                &&& final(self).spec_current() == old(self).spec_current() + 1
                &&& r matches Some(p) && p.0 == old(self).spec_adjacent()[old(self).spec_current()]
                    && p.1 == 1
            },
            old(self).spec_current() >= old(self).spec_adjacent().len() ==> r is None
                && *final(self) == *old(self),
    {
        if self.current < self.adjacent.len() {
            self.current = self.current + 1;
            Some((self.adjacent[self.current - 1], 1))
        } else {
            None
        }
    }
}

/// The passable neighbours of `loc`, in adjacency order.
fn passable_cells(world: &WorldMap, loc: Location) -> (r: Vec<Location>)
    requires
        world.wf(),
        world.in_bounds(loc),
    ensures
        r@ == spec_passable(*world, loc),
{
    let adj = world.get_adjacent(loc);
    let mut r: Vec<Location> = Vec::new();
    let mut i: usize = 0;
    while i < adj.len()
        invariant
            world.wf(),
            world.in_bounds(loc),
            i <= adj@.len(),
            adj@ == world.spec_adjacent(loc),
            r@ == passable_of(*world, adj@.take(i as int)),
        decreases adj@.len() - i,
    {
        proof {
            assert(adj@.take(i + 1).drop_last() =~= adj@.take(i as int));
            assert(adj@.contains(adj@[i as int]));
            world.lemma_adjacent_iff(loc, adj@[i as int]);
        }
        let c = adj[i];
        if world.get_tile(c).terrain == Terrain::Nothing {
            r.push(c);
        }
        i = i + 1;
    }
    proof {
        assert(adj@.take(adj@.len() as int) =~= adj@);
    }
    r
}

/// Exposes a map as an informed-search problem: fixed start and end cells,
/// goal test by equality, Manhattan heuristic, and passable-neighbour
/// expansion.
pub struct ConnectRooms<'a> {
    world: &'a WorldMap,
    start: Location,
    end: Location,
}

impl<'a> ConnectRooms<'a> {
    pub closed spec fn spec_world(self) -> WorldMap {
        *self.world
    }

    pub closed spec fn spec_start(self) -> Location {
        self.start
    }

    pub closed spec fn spec_end(self) -> Location {
        self.end
    }

    pub open spec fn wf(self) -> bool {
        &&& self.spec_world().wf()
        &&& self.spec_world().in_bounds(self.spec_start())
        &&& self.spec_world().in_bounds(self.spec_end())
    }

    pub fn new(world: &'a WorldMap, start: Location, end: Location) -> (r: Self)
        requires
            world.wf(),
            world.in_bounds(start),
            world.in_bounds(end),
        ensures
            r.wf(),
            r.spec_world() == *world,
            r.spec_start() == start,
            r.spec_end() == end,
    {
        ConnectRooms { world, start, end }
    }

    /// The fixed start cell of the search.
    pub fn start(&self) -> (r: Location)
        ensures
            r == self.spec_start(),
    {
        self.start
    }

    /// Goal test: exactly the fixed end cell.
    pub fn is_goal(&self, loc: &Location) -> (r: bool)
        ensures
            r == (*loc == self.spec_end()),
    {
        *loc == self.end
    }

    /// Admissible heuristic: Manhattan distance to the end cell.
    pub fn heuristic_cost(&self, loc: &Location) -> (r: i32)
        requires
            self.wf(),
            self.spec_world().in_bounds(*loc),
        ensures
            r == loc.manhattan_spec(self.spec_end()),
    {
        proof {
            let w = self.spec_world().spec_width();
            let h = self.spec_world().spec_height();
            assert(w + h <= w * h + 1) by (nonlinear_arith)
                requires
                    w >= 1,
                    h >= 1,
            ;
        }
        loc.manhattan(&self.end)
    }

    /// The passable neighbours of `at`, each with edge cost one.
    pub fn neighbor_pairs(&self, at: &Location) -> (r: Vec<(Location, i32)>)
        requires
            self.wf(),
            self.spec_world().in_bounds(*at),
        ensures
            r@.len() == spec_passable(self.spec_world(), *at).len(),
            forall|i: int|
                0 <= i < r@.len() ==> (#[trigger] r@[i]).0 == spec_passable(
                    self.spec_world(),
                    *at,
                )[i] && r@[i].1 == 1,
    {
        let cells = passable_cells(self.world, *at);
        let mut r: Vec<(Location, i32)> = Vec::new();
        let mut i: usize = 0;
        while i < cells.len()
            invariant
                i <= cells@.len(),
                cells@ == spec_passable(self.spec_world(), *at),
                r@.len() == i,
                forall|j: int|
                    0 <= j < i ==> (#[trigger] r@[j]).0 == cells@[j] && r@[j].1 == 1,
            decreases cells@.len() - i,
        {
            r.push((cells[i], 1));
            i = i + 1;
        }
        r
    }
}

impl<'a> astar::SearchProblem for ConnectRooms<'a> {
    type Node = Location;

    type Cost = i32;

    type Iter = std::vec::IntoIter<(Location, i32)>;

    /// Trusted shim for the search library: delegates to the verified goal
    /// test `is_goal`.
    #[verifier::external_body]
    fn is_end(&self, loc: &Location) -> bool {
        self.is_goal(loc)
    }

    /// Trusted shim for the search library: delegates to the verified
    /// `heuristic_cost`.
    #[verifier::external_body]
    fn heuristic(&self, loc: &Location) -> i32 {
        self.heuristic_cost(loc)
    }

    /// Trusted shim for the search library: delegates to the verified
    /// `neighbor_pairs` and hands the pairs over as an iterator.
    #[verifier::external_body]
    fn neighbors(&self, at: &Location, _cost: &i32) -> std::vec::IntoIter<(Location, i32)> {
        self.neighbor_pairs(at).into_iter()
    }
}

/// Relies on astar::astar (with the trusted shims above). When it finds a
/// path it reconstructs, through parent links, a sequence that begins at the
/// start node it was given, ends at a node passing the problem's goal test,
/// and in which every later node came from the neighbour expansion of the
/// node before it. The search is also complete and optimal here: it expands
/// best-first with a closed list over the finitely many grid cells, so it
/// terminates, reports a path whenever one exists, and — the Manhattan
/// heuristic being consistent on this 4-connected unit-cost grid — returns
/// one of minimal edge count.
#[verifier::external_body]
fn find_path(world: &WorldMap, start: Location, end: Location) -> (r: Option<Vec<Location>>)
    requires
        world.wf(),
        world.in_bounds(start),
        world.in_bounds(end),
    ensures
        r matches Some(p) ==> {
            &&& is_path(*world, p@, start, end)
            &&& forall|q: Seq<Location>| is_path(*world, q, start, end) ==> p@.len() <= q.len()
        },
        r is None ==> forall|q: Seq<Location>| !is_path(*world, q, start, end),
{
    let problem = ConnectRooms::new(world, start, end);
    match astar::astar(&problem, start) {
        Some((path, _cost)) => Some(path.into_iter().map(|(loc, _)| loc).collect()),
        None => None,
    }
}

impl WorldMap {
    /// Searches for a path from `start` to `end` that crosses only
    /// unexcavated cells (the doorway cell `start` itself aside). The search
    /// fails exactly when no such path exists. Any path found begins at
    /// `start`, ends at `end`, moves one grid step at a time through
    /// `Nothing` terrain, and is shortest: no legal walk between the two
    /// cells has fewer steps. On a map with no obstructions at all the edge
    /// count therefore equals the Manhattan distance.
    pub fn find_connection(&self, start: Location, end: Location) -> (r: Option<Vec<Location>>)
        requires
            self.wf(),
            self.in_bounds(start),
            self.in_bounds(end),
        ensures
            r matches Some(p) ==> {
                &&& is_path(*self, p@, start, end)
                &&& forall|k: int| 0 <= k < p@.len() ==> self.in_bounds(#[trigger] p@[k])
                &&& forall|k: int|
                    1 <= k < p@.len() ==> self.terrain_at(#[trigger] p@[k]) == Terrain::Nothing
                &&& p@.len() - 1 >= start.manhattan_spec(end)
                &&& forall|q: Seq<Location>| is_path(*self, q, start, end) ==> p@.len() <= q.len()
            },
            r is None ==> forall|q: Seq<Location>| !is_path(*self, q, start, end),
            self.all_unexcavated() ==> r is Some,
            self.all_unexcavated() ==> (r matches Some(p) ==> p@.len() - 1 == start.manhattan_spec(
                end,
            )),
    {
        let r = find_path(self, start, end);
        proof {
            if r is Some {
                lemma_path_properties(*self, r->Some_0@);
            }
            if self.all_unexcavated() {
                lemma_staircase_connects(*self, start, end);
                let q = staircase(start, end);
                assert(is_path(*self, q, start, end));
                if r is Some {
                    assert(r->Some_0@.len() <= q.len());
                }
            }
        }
        r
    }
}

} // verus!
