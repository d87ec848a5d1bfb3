use vstd::prelude::*;

use crate::tile::{Location, Terrain, Tile};

verus! {

/// The dense 2D tile buffer of one generated level, indexed row-major.
pub struct WorldMap {
    width: i32,
    height: i32,
    tiles: Vec<Tile>,
}

/// Row-major index arithmetic: for a cell inside the rectangle, the index is in range.
proof fn lemma_row_major_bounds(w: int, h: int, x: int, y: int)
    by (nonlinear_arith)
    requires
        0 < w,
        0 < h,
        0 <= x < w,
        0 <= y < h,
    ensures
        0 <= y * w + x < w * h,
{
}

/// Row-major index arithmetic: distinct in-bounds cells get distinct indices.
proof fn lemma_row_major_injective(w: int, x1: int, y1: int, x2: int, y2: int)
    by (nonlinear_arith)
    requires
        0 < w,
        0 <= x1 < w,
        0 <= x2 < w,
        y1 * w + x1 == y2 * w + x2,
    ensures
        x1 == x2,
        y1 == y2,
{
}

impl WorldMap {
    pub closed spec fn spec_width(self) -> int {
        self.width as int
    }

    pub closed spec fn spec_height(self) -> int {
        self.height as int
    }

    pub closed spec fn spec_tiles(self) -> Seq<Tile> {
        self.tiles@
    }

    /// The structural invariant of every map: positive dimensions and a
    /// buffer of exactly width * height tiles, the product fitting in i32.
    pub open spec fn wf(self) -> bool {
        &&& 0 < self.spec_width()
        &&& 0 < self.spec_height()
        &&& self.spec_width() * self.spec_height() <= i32::MAX
        &&& self.spec_tiles().len() == self.spec_width() * self.spec_height()
    }

    pub open spec fn in_bounds(self, loc: Location) -> bool {
        &&& 0 <= loc.x < self.spec_width()
        &&& 0 <= loc.y < self.spec_height()
    }

    pub open spec fn index_of(self, loc: Location) -> int {
        loc.y * self.spec_width() + loc.x
    }

    pub open spec fn spec_tile(self, loc: Location) -> Tile {
        self.spec_tiles()[self.index_of(loc)]
    }

    pub open spec fn terrain_at(self, loc: Location) -> Terrain {
        self.spec_tile(loc).terrain
    }

    /// No cell has been carved or built on yet.
    pub open spec fn all_unexcavated(self) -> bool {
        forall|c: Location| self.in_bounds(c) ==> #[trigger] self.terrain_at(c) == Terrain::Nothing
    }

    /// No cell is marked as carved path.
    pub open spec fn no_debug(self) -> bool {
        forall|c: Location| self.in_bounds(c) ==> #[trigger] self.terrain_at(c) != Terrain::Debug
    }

    /// Every cell's entity list is empty.
    pub open spec fn no_entities(self) -> bool {
        forall|c: Location|
            self.in_bounds(c) ==> (#[trigger] self.spec_tile(c)).entities@.len() == 0
    }

    pub proof fn lemma_index_in_range(self, loc: Location)
        requires
            self.wf(),
            self.in_bounds(loc),
        ensures
            0 <= self.index_of(loc) < self.spec_tiles().len(),
    {
        lemma_row_major_bounds(self.spec_width(), self.spec_height(), loc.x as int, loc.y as int);
    }

    /// Distinct in-bounds locations never share a buffer slot.
    pub proof fn lemma_index_injective(self, a: Location, b: Location)
        requires
            self.wf(),
            self.in_bounds(a),
            self.in_bounds(b),
            a != b,
        ensures
            self.index_of(a) != self.index_of(b),
    {
        if self.index_of(a) == self.index_of(b) {
            lemma_row_major_injective(
                self.spec_width(),
                a.x as int,
                a.y as int,
                b.x as int,
                b.y as int,
            );
        }
    }

    /// A fresh map of the given dimensions, every cell unexcavated.
    #[verifier::loop_isolation(false)]
    pub fn new(width: i32, height: i32) -> (w: Self)
        requires
            0 < width,
            0 < height,
            width * height <= i32::MAX,
        ensures
            w.wf(),
            w.spec_width() == width,
            w.spec_height() == height,
            w.all_unexcavated(),
            w.no_entities(),
    {
        let total: i32 = width * height;
        let total_us: usize = total as usize;
        let mut tiles: Vec<Tile> = Vec::new();
        let mut i: usize = 0;
        while i < total_us
            invariant
                i <= total_us,
                tiles@.len() == i,
                forall|k: int|
                    0 <= k < i ==> (#[trigger] tiles@[k]).terrain == Terrain::Nothing
                        && tiles@[k].entities@.len() == 0,
            decreases total_us - i,
        {
            tiles.push(Tile::new(Terrain::Nothing));
            i = i + 1;
        }
        let w = WorldMap { width, height, tiles };
        proof {
            assert forall|loc: Location| w.in_bounds(loc) implies (#[trigger] w.spec_tile(
                loc,
            )).terrain == Terrain::Nothing && w.spec_tile(loc).entities@.len() == 0 by {
                w.lemma_index_in_range(loc);
            }
        }
        w
    }

    pub fn tiles(&self) -> (it: TileIterator)
        requires
            self.wf(),
        ensures
            it.wf(),
            it.spec_tiles() == self.spec_tiles(),
            it.spec_width() == self.spec_width(),
            it.spec_curr() == 0,
    {
        TileIterator::new(self.tiles.as_slice(), self.width)
    }

    pub fn get_tile(&self, loc: Location) -> (t: &Tile)
        requires
            self.wf(),
            self.in_bounds(loc),
        ensures
            *t == self.spec_tile(loc),
    {
        proof {
            self.lemma_index_in_range(loc);
        }
        let index = (loc.y * self.width + loc.x) as usize;
        &self.tiles[index]
    }

    pub fn get_tile_mut(&mut self, loc: Location) -> (t: &mut Tile)
        requires
            old(self).wf(),
            old(self).in_bounds(loc),
        ensures
            *t == old(self).spec_tile(loc),
            final(self).spec_tile(loc) == *final(t),
            final(self).spec_tiles() == old(self).spec_tiles().update(
                old(self).index_of(loc),
                *final(t),
            ),
            final(self).spec_width() == old(self).spec_width(),
            final(self).spec_height() == old(self).spec_height(),
            final(self).wf(),
            forall|l2: Location|
                old(self).in_bounds(l2) && l2 != loc ==> #[trigger] final(self).spec_tile(l2)
                    == old(self).spec_tile(l2),
    {
        proof {
            self.lemma_index_in_range(loc);
            assert forall|l2: Location| self.in_bounds(l2) && l2 != loc implies self.index_of(l2)
                != self.index_of(loc) && 0 <= self.index_of(l2) < self.spec_tiles().len() by {
                self.lemma_index_injective(l2, loc);
                self.lemma_index_in_range(l2);
            }
        }
        let index = (loc.y * self.width + loc.x) as usize;
        &mut self.tiles[index]
    }

    /// The up-to-four axis-aligned neighbours of `loc` that lie inside the
    /// grid, in left / up / right / down order.
    pub open spec fn spec_adjacent(self, loc: Location) -> Seq<Location> {
        (if loc.x > 0 {
            seq![Location { x: (loc.x - 1) as i32, y: loc.y }]
        } else {
            Seq::empty()
        }) + (if loc.y > 0 {
            seq![Location { x: loc.x, y: (loc.y - 1) as i32 }]
        } else {
            Seq::empty()
        }) + (if loc.x < self.spec_width() - 1 {
            seq![Location { x: (loc.x + 1) as i32, y: loc.y }]
        } else {
            Seq::empty()
        }) + (if loc.y < self.spec_height() - 1 {
            seq![Location { x: loc.x, y: (loc.y + 1) as i32 }]
        } else {
            Seq::empty()
        })
    }

    /// Membership in the neighbour list is exactly: in bounds and at
    /// Manhattan distance one from `loc`.
    pub proof fn lemma_adjacent_iff(self, loc: Location, c: Location)
        requires
            self.wf(),
            self.in_bounds(loc),
        ensures
            self.spec_adjacent(loc).contains(c) <==> (self.in_bounds(c) && loc.manhattan_spec(c)
                == 1),
    {
        let s = self.spec_adjacent(loc);
        if self.in_bounds(c) && loc.manhattan_spec(c) == 1 {
            if c.x < loc.x {
                assert(s[0] == c);
            } else if c.y < loc.y {
                let i = if loc.x > 0 { 1int } else { 0int };
                assert(s[i] == c);
            } else if c.x > loc.x {
                let i = (if loc.x > 0 { 1int } else { 0int }) + (if loc.y > 0 { 1int } else { 0int });
                assert(s[i] == c);
            } else {
                assert(s[s.len() - 1] == c);
            }
            assert(s.contains(c));
        }
        if s.contains(c) {
            let i = choose|i: int| 0 <= i < s.len() && s[i] == c;
            assert(self.in_bounds(c) && loc.manhattan_spec(c) == 1);
        }
    }

    pub fn get_adjacent(&self, loc: Location) -> (r: Vec<Location>)
        requires
            self.wf(),
            self.in_bounds(loc),
        ensures
            r@ == self.spec_adjacent(loc),
    {
        let mut adjacent: Vec<Location> = Vec::new();
        if loc.x > 0 {
            adjacent.push(Location::new(loc.x - 1, loc.y));
        }
        if loc.y > 0 {
            adjacent.push(Location::new(loc.x, loc.y - 1));
        }
        if loc.x < self.width - 1 {
            adjacent.push(Location::new(loc.x + 1, loc.y));
        }
        if loc.y < self.height - 1 {
            adjacent.push(Location::new(loc.x, loc.y + 1));
        }
        proof {
            assert(adjacent@ =~= self.spec_adjacent(loc));
        }
        adjacent
    }
}

/// A restartable cursor over a map's tiles in row-major order, yielding each
/// tile together with the location it sits at.
pub struct TileIterator<'a> {
    tiles: &'a [Tile],
    width: i32,
    curr: usize,
}

impl<'a> TileIterator<'a> {
    pub closed spec fn spec_tiles(self) -> Seq<Tile> {
        self.tiles@
    }

    pub closed spec fn spec_width(self) -> int {
        self.width as int
    }

    pub closed spec fn spec_curr(self) -> int {
        self.curr as int
    }

    pub open spec fn wf(self) -> bool {
        &&& 0 < self.spec_width()
        &&& self.spec_tiles().len() <= i32::MAX
    }

    pub fn new(tiles: &'a [Tile], width: i32) -> (it: Self)
        requires
            0 < width,
            tiles@.len() <= i32::MAX,
        ensures
            it.wf(),
            it.spec_tiles() == tiles@,
            it.spec_width() == width,
            it.spec_curr() == 0,
    {
        TileIterator { tiles, width, curr: 0 }
    }

    /// Yields the tile under the cursor and its location, then advances;
    /// `None` once every tile has been yielded.
    pub fn next(&mut self) -> (r: Option<(&'a Tile, Location)>)
        requires
            old(self).wf(),
        ensures
            final(self).wf(),
            final(self).spec_tiles() == old(self).spec_tiles(),
            final(self).spec_width() == old(self).spec_width(),
            old(self).spec_curr() < old(self).spec_tiles().len() ==> {
                &&& final(self).spec_curr() == old(self).spec_curr() + 1
                &&& r matches Some(p) && *p.0 == old(self).spec_tiles()[old(self).spec_curr()]
                    && p.1 == (Location {
                    x: (old(self).spec_curr() % old(self).spec_width()) as i32,
                    y: (old(self).spec_curr() / old(self).spec_width()) as i32,
                })
            },
            old(self).spec_curr() >= old(self).spec_tiles().len() ==> r is None && *final(self)
                == *old(self),
    {
        if self.curr < self.tiles.len() {
            let this: usize = self.curr;
            self.curr = self.curr + 1;
            let x: usize = this % (self.width as usize);
            let y: usize = this / (self.width as usize);
            Some((&self.tiles[this], Location { x: x as i32, y: y as i32 }))
        } else {
            None
        }
    }
}

} // verus!
