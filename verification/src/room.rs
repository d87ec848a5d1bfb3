use vstd::prelude::*;

use crate::tile::Location;
use vstd::arithmetic::div_mod::{
    lemma_fundamental_div_mod, lemma_fundamental_div_mod_converse, lemma_mod_bound,
};
use vstd::arithmetic::mul::lemma_mul_inequality;
use crate::seq_facts::{lemma_drop_last_contains, lemma_push_contains};

verus! {

/// An axis-aligned rectangle of grid cells, with its covered cells cached in
/// construction order (x outermost, y innermost).
pub struct Room {
    x: i32,
    y: i32,
    width: i32,
    height: i32,
    locs: Vec<Location>,
}

impl Room {
    pub closed spec fn spec_x(self) -> int {
        self.x as int
    }

    pub closed spec fn spec_y(self) -> int {
        self.y as int
    }

    pub closed spec fn spec_width(self) -> int {
        self.width as int
    }

    pub closed spec fn spec_height(self) -> int {
        self.height as int
    }

    pub closed spec fn spec_locs(self) -> Seq<Location> {
        self.locs@
    }

    /// Every cell the rectangle covers, in construction order: for index k,
    /// column k / height (from the left edge) and row k % height (from the top).
    pub open spec fn spec_cells(self) -> Seq<Location> {
        Seq::new(
            (self.spec_width() * self.spec_height()) as nat,
            |k: int|
                Location {
                    x: (self.spec_x() + k / self.spec_height()) as i32,
                    y: (self.spec_y() + k % self.spec_height()) as i32,
                },
        )
    }

    pub open spec fn wf(self) -> bool {
        &&& 0 <= self.spec_x()
        &&& 0 <= self.spec_y()
        &&& 0 < self.spec_width()
        &&& 0 < self.spec_height()
        &&& self.spec_x() + self.spec_width() <= i32::MAX
        &&& self.spec_y() + self.spec_height() <= i32::MAX
        &&& self.spec_locs() == self.spec_cells()
    }

    pub open spec fn contains_cell(self, c: Location) -> bool {
        &&& self.spec_x() <= c.x < self.spec_x() + self.spec_width()
        &&& self.spec_y() <= c.y < self.spec_y() + self.spec_height()
    }

    /// A covered cell on the rectangle's border.
    pub open spec fn is_wall_cell(self, c: Location) -> bool {
        &&& self.contains_cell(c)
        &&& (c.x == self.spec_x() || c.y == self.spec_y() || c.x == self.spec_x()
            + self.spec_width() - 1 || c.y == self.spec_y() + self.spec_height() - 1)
    }

    /// A covered cell strictly inside the border.
    pub open spec fn is_floor_cell(self, c: Location) -> bool {
        &&& c.x > self.spec_x()
        &&& c.y > self.spec_y()
        &&& c.x < self.spec_x() + self.spec_width() - 1
        &&& c.y < self.spec_y() + self.spec_height() - 1
    }

    /// The subsequence of `cells` that lies on this room's border.
    pub open spec fn walls_of(self, cells: Seq<Location>) -> Seq<Location>
        decreases cells.len(),
    {
        if cells.len() == 0 {
            Seq::empty()
        } else {
            let rest = self.walls_of(cells.drop_last());
            if self.is_wall_cell(cells.last()) {
                rest.push(cells.last())
            } else {
                rest
            }
        }
    }

    /// The subsequence of `cells` strictly inside this room's border.
    pub open spec fn floors_of(self, cells: Seq<Location>) -> Seq<Location>
        decreases cells.len(),
    {
        if cells.len() == 0 {
            Seq::empty()
        } else {
            let rest = self.floors_of(cells.drop_last());
            if self.is_floor_cell(cells.last()) {
                rest.push(cells.last())
            } else {
                rest
            }
        }
    }

    pub open spec fn walls_spec(self) -> Seq<Location> {
        self.walls_of(self.spec_cells())
    }

    pub open spec fn floors_spec(self) -> Seq<Location> {
        self.floors_of(self.spec_cells())
    }

    /// Inclusive bounding-box intersection: rectangles whose boxes merely
    /// touch or sit one cell apart still count as overlapping.
    pub open spec fn spec_overlaps(self, other: Room) -> bool {
        &&& self.spec_x() + self.spec_width() >= other.spec_x()
        &&& other.spec_x() + other.spec_width() >= self.spec_x()
        &&& self.spec_y() + self.spec_height() >= other.spec_y()
        &&& other.spec_y() + other.spec_height() >= self.spec_y()
    }

    pub fn new(x: i32, y: i32, width: i32, height: i32) -> (r: Self)
        requires
            0 <= x,
            0 <= y,
            0 < width,
            0 < height,
            x + width <= i32::MAX,
            y + height <= i32::MAX,
        ensures
            r.wf(),
            r.spec_x() == x,
            r.spec_y() == y,
            r.spec_width() == width,
            r.spec_height() == height,
    {
        let mut locs: Vec<Location> = Vec::new();
        let mut i: i32 = x;
        while i < x + width
            invariant
                x <= i <= x + width,
                x + width <= i32::MAX,
                y + height <= i32::MAX,
                0 <= x,
                0 <= y,
                0 < width,
                0 < height,
                locs@.len() == (i - x) * height,
                forall|k: int|
                    0 <= k < locs@.len() ==> #[trigger] locs@[k] == (Location {
                        x: (x + k / (height as int)) as i32,
                        y: (y + k % (height as int)) as i32,
                    }),
            decreases x + width - i,
        {
            let mut j: i32 = y;
            while j < y + height
                invariant
                    x <= i < x + width,
                    y <= j <= y + height,
                    x + width <= i32::MAX,
                    y + height <= i32::MAX,
                    0 <= x,
                    0 <= y,
                    0 < width,
                    0 < height,
                    locs@.len() == (i - x) * height + (j - y),
                    forall|k: int|
                        0 <= k < locs@.len() ==> #[trigger] locs@[k] == (Location {
                            x: (x + k / (height as int)) as i32,
                            y: (y + k % (height as int)) as i32,
                        }),
                decreases y + height - j,
            {
                proof {
                    lemma_fundamental_div_mod_converse(
                        (i - x) * height + (j - y),
                        height as int,
                        i - x,
                        j - y,
                    );
                }
                locs.push(Location::new(i, j));
                j = j + 1;
            }
            proof {
                assert((i - x) * height + height == (i + 1 - x) * height) by (nonlinear_arith);
            }
            i = i + 1;
        }
        let r = Room { x, y, width, height, locs };
        proof {
            assert(r.spec_locs() =~= r.spec_cells());
        }
        r
    }

    pub fn overlaps(&self, other: &Room) -> (r: bool)
        requires
            self.wf(),
            other.wf(),
        ensures
            r == self.spec_overlaps(*other),
    {
        let (xmin1, xmax1, xmin2, xmax2) =
            (self.x, self.x + self.width, other.x, other.x + other.width);
        let (ymin1, ymax1, ymin2, ymax2) =
            (self.y, self.y + self.height, other.y, other.y + other.height);
        (xmax1 >= xmin2) && (xmax2 >= xmin1) && (ymax1 >= ymin2) && (ymax2 >= ymin1)
    }

    pub fn walls(&self) -> (r: Vec<Location>)
        requires
            self.wf(),
        ensures
            r@ == self.walls_spec(),
    {
        let mut r: Vec<Location> = Vec::new();
        let n = self.locs.len();
        let mut i: usize = 0;
        while i < n
            invariant
                self.wf(),
                i <= n,
                n == self.spec_locs().len(),
                r@ == self.walls_of(self.spec_locs().take(i as int)),
            decreases n - i,
        {
            let c = self.locs[i];
            proof {
                assert(self.spec_locs().take(i + 1).drop_last() =~= self.spec_locs().take(
                    i as int,
                ));
                self.lemma_cells_index_in_rect(i as int);
            }
            if c.x == self.x || c.y == self.y || c.x == self.x + self.width - 1 || c.y == self.y
                + self.height - 1 {
                r.push(c);
            }
            i = i + 1;
        }
        proof {
            assert(self.spec_locs().take(n as int) =~= self.spec_cells());
        }
        r
    }

    pub fn floors(&self) -> (r: Vec<Location>)
        requires
            self.wf(),
        ensures
            r@ == self.floors_spec(),
    {
        let mut r: Vec<Location> = Vec::new();
        let n = self.locs.len();
        let mut i: usize = 0;
        while i < n
            invariant
                self.wf(),
                i <= n,
                n == self.spec_locs().len(),
                r@ == self.floors_of(self.spec_locs().take(i as int)),
            decreases n - i,
        {
            let c = self.locs[i];
            proof {
                assert(self.spec_locs().take(i + 1).drop_last() =~= self.spec_locs().take(
                    i as int,
                ));
            }
            if c.x > self.x && c.y > self.y && c.x < self.x + self.width - 1 && c.y < self.y
                + self.height - 1 {
                r.push(c);
            }
            i = i + 1;
        }
        proof {
            assert(self.spec_locs().take(n as int) =~= self.spec_cells());
        }
        r
    }

    /// Membership in `walls_of(cells)` means: listed in `cells` and on the border.
    proof fn lemma_walls_of_contains(self, cells: Seq<Location>, c: Location)
        ensures
            self.walls_of(cells).contains(c) <==> cells.contains(c) && self.is_wall_cell(c),
        decreases cells.len(),
    {
        if cells.len() > 0 {
            self.lemma_walls_of_contains(cells.drop_last(), c);
            lemma_drop_last_contains(cells, c);
            if self.is_wall_cell(cells.last()) {
                lemma_push_contains(self.walls_of(cells.drop_last()), cells.last(), c);
            }
        }
    }

    /// Membership in `floors_of(cells)` means: listed in `cells` and interior.
    proof fn lemma_floors_of_contains(self, cells: Seq<Location>, c: Location)
        ensures
            self.floors_of(cells).contains(c) <==> cells.contains(c) && self.is_floor_cell(c),
        decreases cells.len(),
    {
        if cells.len() > 0 {
            self.lemma_floors_of_contains(cells.drop_last(), c);
            lemma_drop_last_contains(cells, c);
            if self.is_floor_cell(cells.last()) {
                lemma_push_contains(self.floors_of(cells.drop_last()), cells.last(), c);
            }
        }
    }

    /// Every entry of the cached cell list lies inside the rectangle.
    pub proof fn lemma_cells_index_in_rect(self, k: int)
        requires
            self.wf(),
            0 <= k < self.spec_cells().len(),
        ensures
            self.contains_cell(self.spec_cells()[k]),
    {
        let w = self.spec_width();
        let h = self.spec_height();
        lemma_fundamental_div_mod(k, h);
        lemma_mod_bound(k, h);
        if k / h >= w {
            lemma_mul_inequality(w, k / h, h);
        }
        if k / h < 0 {
            lemma_mul_inequality(k / h + 1, 0, h);
        }
        assert(0 <= k / h < w);
    }

    /// The cached cell list covers exactly the rectangle.
    pub proof fn lemma_cells_contain(self, c: Location)
        requires
            self.wf(),
        ensures
            self.spec_cells().contains(c) <==> self.contains_cell(c),
    {
        let w = self.spec_width();
        let h = self.spec_height();
        if self.contains_cell(c) {
            let k = (c.x - self.spec_x()) * h + (c.y - self.spec_y());
            lemma_fundamental_div_mod_converse(k, h, c.x - self.spec_x(), c.y - self.spec_y());
            assert(0 <= k < w * h) by (nonlinear_arith)
                requires
                    0 < w,
                    0 < h,
                    0 <= c.x - self.spec_x() < w,
                    0 <= c.y - self.spec_y() < h,
                    k == (c.x - self.spec_x()) * h + (c.y - self.spec_y()),
            ;
            assert(self.spec_cells()[k] == c);
        }
        if self.spec_cells().contains(c) {
            let k = choose|k: int| 0 <= k < self.spec_cells().len() && self.spec_cells()[k] == c;
            self.lemma_cells_index_in_rect(k);
        }
    }

    /// The wall list holds exactly the border cells.
    pub proof fn lemma_walls_spec_iff(self, c: Location)
        requires
            self.wf(),
        ensures
            self.walls_spec().contains(c) <==> self.is_wall_cell(c),
    {
        self.lemma_walls_of_contains(self.spec_cells(), c);
        self.lemma_cells_contain(c);
    }

    /// The floor list holds exactly the interior cells.
    pub proof fn lemma_floors_spec_iff(self, c: Location)
        requires
            self.wf(),
        ensures
            self.floors_spec().contains(c) <==> self.is_floor_cell(c),
    {
        self.lemma_floors_of_contains(self.spec_cells(), c);
        self.lemma_cells_contain(c);
    }

    /// Walls and floors partition the room's cells: together they cover every
    /// covered cell, and no cell is both.
    pub proof fn lemma_walls_floors_partition(self, c: Location)
        requires
            self.wf(),
        ensures
            self.walls_spec().contains(c) || self.floors_spec().contains(c) <==> self.contains_cell(
                c,
            ),
            !(self.walls_spec().contains(c) && self.floors_spec().contains(c)),
    {
        self.lemma_walls_spec_iff(c);
        self.lemma_floors_spec_iff(c);
    }

    /// Rooms that do not overlap share no cell.
    pub proof fn lemma_disjoint_cells(a: Room, b: Room, c: Location)
        requires
            !a.spec_overlaps(b),
        ensures
            !(a.contains_cell(c) && b.contains_cell(c)),
    {
    }
}

} // verus!
