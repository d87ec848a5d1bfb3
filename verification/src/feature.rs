use vstd::prelude::*;

use crate::tile::{Location, Terrain};

verus! {

/// Smallest x coordinate among the components' relative locations.
pub open spec fn min_x_of(s: Seq<(Location, Terrain)>) -> int
    recommends
        s.len() > 0,
    decreases s.len(),
{
    if s.len() <= 1 {
        s[0].0.x as int
    } else {
        let rest = min_x_of(s.drop_last());
        if s.last().0.x < rest {
            s.last().0.x as int
        } else {
            rest
        }
    }
}

/// Largest x coordinate among the components' relative locations.
pub open spec fn max_x_of(s: Seq<(Location, Terrain)>) -> int
    recommends
        s.len() > 0,
    decreases s.len(),
{
    if s.len() <= 1 {
        s[0].0.x as int
    } else {
        let rest = max_x_of(s.drop_last());
        if s.last().0.x > rest {
            s.last().0.x as int
        } else {
            rest
        }
    }
}

/// Smallest y coordinate among the components' relative locations.
pub open spec fn min_y_of(s: Seq<(Location, Terrain)>) -> int
    recommends
        s.len() > 0,
    decreases s.len(),
{
    if s.len() <= 1 {
        s[0].0.y as int
    } else {
        let rest = min_y_of(s.drop_last());
        if s.last().0.y < rest {
            s.last().0.y as int
        } else {
            rest
        }
    }
}

/// Largest y coordinate among the components' relative locations.
pub open spec fn max_y_of(s: Seq<(Location, Terrain)>) -> int
    recommends
        s.len() > 0,
    decreases s.len(),
{
    if s.len() <= 1 {
        s[0].0.y as int
    } else {
        let rest = max_y_of(s.drop_last());
        if s.last().0.y > rest {
            s.last().0.y as int
        } else {
            rest
        }
    }
}

pub proof fn lemma_min_le_max_x(s: Seq<(Location, Terrain)>)
    requires
        s.len() > 0,
    ensures
        min_x_of(s) <= max_x_of(s),
    decreases s.len(),
{
    if s.len() > 1 {
        lemma_min_le_max_x(s.drop_last());
    }
}

pub proof fn lemma_min_le_max_y(s: Seq<(Location, Terrain)>)
    requires
        s.len() > 0,
    ensures
        min_y_of(s) <= max_y_of(s),
    decreases s.len(),
{
    if s.len() > 1 {
        lemma_min_le_max_y(s.drop_last());
    }
}

/// A terrain pattern in relative coordinates, placeable anywhere.
pub struct Feature {
    components: Vec<(Location, Terrain)>,
}

impl Feature {
    pub closed spec fn spec_components(self) -> Seq<(Location, Terrain)> {
        self.components@
    }

    pub fn new(components: Vec<(Location, Terrain)>) -> (f: Self)
        ensures
            f.spec_components() == components@,
    {
        Feature { components }
    }

    /// Horizontal extent: max x minus min x plus one, or zero when empty.
    pub fn width(&self) -> (r: i32)
        requires
            self.spec_components().len() > 0 ==> max_x_of(self.spec_components()) - min_x_of(
                self.spec_components(),
            ) + 1 <= i32::MAX,
        ensures
            r == if self.spec_components().len() == 0 {
                0int
            } else {
                max_x_of(self.spec_components()) - min_x_of(self.spec_components()) + 1
            },
    {
        if self.components.len() == 0 {
            return 0;
        }
        proof {
            lemma_min_le_max_x(self.spec_components());
        }
        let mn = FeatureBuilder::calc_min_x(self.components.as_slice());
        let mx = FeatureBuilder::calc_max_x(self.components.as_slice());
        mx - mn + 1
    }

    /// Vertical extent: max y minus min y plus one, or zero when empty.
    pub fn height(&self) -> (r: i32)
        requires
            self.spec_components().len() > 0 ==> max_y_of(self.spec_components()) - min_y_of(
                self.spec_components(),
            ) + 1 <= i32::MAX,
        ensures
            r == if self.spec_components().len() == 0 {
                0int
            } else {
                max_y_of(self.spec_components()) - min_y_of(self.spec_components()) + 1
            },
    {
        if self.components.len() == 0 {
            return 0;
        }
        proof {
            lemma_min_le_max_y(self.spec_components());
        }
        let mn = FeatureBuilder::calc_min_y(self.components.as_slice());
        let mx = FeatureBuilder::calc_max_y(self.components.as_slice());
        mx - mn + 1
    }

    /// The component list, in order.
    pub fn iter(&self) -> (r: &Vec<(Location, Terrain)>)
        ensures
            r@ == self.spec_components(),
    {
        &self.components
    }
}

#[derive(Clone, Copy, Debug, PartialEq, Eq, Structural)]
pub enum HorizontalAlignment {
    Left,
    Center,
    Right,
}

#[derive(Clone, Copy, Debug, PartialEq, Eq, Structural)]
pub enum VerticalAlignment {
    Top,
    Center,
    Bottom,
}

/// Accumulates a raw component list, a target location and alignment choices;
/// `build` translates the components to absolute coordinates.
pub struct FeatureBuilder {
    components: Vec<(Location, Terrain)>,
    location: Location,
    horiz_align: HorizontalAlignment,
    vert_align: VerticalAlignment,
}

impl FeatureBuilder {
    pub closed spec fn spec_components(self) -> Seq<(Location, Terrain)> {
        self.components@
    }

    pub closed spec fn spec_location(self) -> Location {
        self.location
    }

    pub closed spec fn spec_horiz(self) -> HorizontalAlignment {
        self.horiz_align
    }

    pub closed spec fn spec_vert(self) -> VerticalAlignment {
        self.vert_align
    }

    pub open spec fn wf(self) -> bool {
        self.spec_components().len() > 0
    }

    /// The horizontal translation chosen by the alignment rule: Left anchors
    /// the bounding box's left edge at the target, Right its right edge, and
    /// Center its midpoint with floor-division bias toward the higher side.
    pub open spec fn spec_dx(self) -> int {
        let s = self.spec_components();
        match self.spec_horiz() {
            HorizontalAlignment::Left => self.spec_location().x - min_x_of(s),
            HorizontalAlignment::Center => self.spec_location().x - (min_x_of(s) + (max_x_of(s)
                - min_x_of(s) + 1) / 2),
            HorizontalAlignment::Right => self.spec_location().x - max_x_of(s),
        }
    }

    /// The vertical translation, symmetric with `spec_dx`.
    pub open spec fn spec_dy(self) -> int {
        let s = self.spec_components();
        match self.spec_vert() {
            VerticalAlignment::Top => self.spec_location().y - min_y_of(s),
            VerticalAlignment::Center => self.spec_location().y - (min_y_of(s) + (max_y_of(s)
                - min_y_of(s) + 1) / 2),
            VerticalAlignment::Bottom => self.spec_location().y - max_y_of(s),
        }
    }

    pub fn new(components: Vec<(Location, Terrain)>) -> (b: Self)
        requires
            components@.len() > 0,
        ensures
            b.wf(),
            b.spec_components() == components@,
            b.spec_location() == (Location { x: 0, y: 0 }),
            b.spec_horiz() == HorizontalAlignment::Center,
            b.spec_vert() == VerticalAlignment::Center,
    {
        FeatureBuilder {
            components,
            location: Location::new(0, 0),
            horiz_align: HorizontalAlignment::Center,
            vert_align: VerticalAlignment::Center,
        }
    }

    pub fn location(self, loc: Location) -> (b: Self)
        ensures
            b.spec_components() == self.spec_components(),
            b.spec_location() == loc,
            b.spec_horiz() == self.spec_horiz(),
            b.spec_vert() == self.spec_vert(),
    {
        FeatureBuilder { location: loc, ..self }
    }

    pub fn horiz_align(self, align: HorizontalAlignment) -> (b: Self)
        ensures
            b.spec_components() == self.spec_components(),
            b.spec_location() == self.spec_location(),
            b.spec_horiz() == align,
            b.spec_vert() == self.spec_vert(),
    {
        FeatureBuilder { horiz_align: align, ..self }
    }

    pub fn vert_align(self, align: VerticalAlignment) -> (b: Self)
        ensures
            b.spec_components() == self.spec_components(),
            b.spec_location() == self.spec_location(),
            b.spec_horiz() == self.spec_horiz(),
            b.spec_vert() == align,
    {
        FeatureBuilder { vert_align: align, ..self }
    }

    /// Translate every component by the alignment offset; terrain passes
    /// through unchanged.
    pub fn build(&self) -> (f: Feature)
        requires
            self.wf(),
            forall|k: int|
                0 <= k < self.spec_components().len() ==> i32::MIN <= (
                #[trigger] self.spec_components()[k]).0.x + self.spec_dx() <= i32::MAX
                    && i32::MIN <= self.spec_components()[k].0.y + self.spec_dy() <= i32::MAX,
        ensures
            f.spec_components().len() == self.spec_components().len(),
            forall|k: int|
                0 <= k < self.spec_components().len() ==> (#[trigger] f.spec_components()[k]).0.x
                    == self.spec_components()[k].0.x + self.spec_dx()
                    && f.spec_components()[k].0.y == self.spec_components()[k].0.y + self.spec_dy()
                    && f.spec_components()[k].1 == self.spec_components()[k].1,
    {
        proof {
            lemma_min_le_max_x(self.spec_components());
            lemma_min_le_max_y(self.spec_components());
        }
        let s = self.components.as_slice();
        let horiz: i64 = match self.horiz_align {
            HorizontalAlignment::Left => self.location.x as i64 - Self::calc_min_x(s) as i64,
            HorizontalAlignment::Center => {
                let mn = Self::calc_min_x(s) as i64;
                let mx = Self::calc_max_x(s) as i64;
                let half: i64 = ((mx - mn + 1) as u64 / 2) as i64;
                self.location.x as i64 - (mn + half)
            },
            HorizontalAlignment::Right => self.location.x as i64 - Self::calc_max_x(s) as i64,
        };
        let vert: i64 = match self.vert_align {
            VerticalAlignment::Top => self.location.y as i64 - Self::calc_min_y(s) as i64,
            VerticalAlignment::Center => {
                let mn = Self::calc_min_y(s) as i64;
                let mx = Self::calc_max_y(s) as i64;
                let half: i64 = ((mx - mn + 1) as u64 / 2) as i64;
                self.location.y as i64 - (mn + half)
            },
            VerticalAlignment::Bottom => self.location.y as i64 - Self::calc_max_y(s) as i64,
        };
        assert(horiz == self.spec_dx());
        assert(vert == self.spec_dy());

        let n = self.components.len();
        let mut comps: Vec<(Location, Terrain)> = Vec::new();
        let mut k: usize = 0;
        while k < n
            invariant
                k <= n,
                n == self.spec_components().len(),
                horiz == self.spec_dx(),
                vert == self.spec_dy(),
                self.components@ == self.spec_components(),
                forall|j: int|
                    0 <= j < n ==> i32::MIN <= (#[trigger] self.spec_components()[j]).0.x
                        + self.spec_dx() <= i32::MAX && i32::MIN <= self.spec_components()[j].0.y
                        + self.spec_dy() <= i32::MAX,
                comps@.len() == k,
                forall|j: int|
                    0 <= j < k ==> (#[trigger] comps@[j]).0.x == self.spec_components()[j].0.x
                        + self.spec_dx() && comps@[j].0.y == self.spec_components()[j].0.y
                        + self.spec_dy() && comps@[j].1 == self.spec_components()[j].1,
            decreases n - k,
        {
            let c = self.components[k];
            let nx: i64 = c.0.x as i64 + horiz;
            let ny: i64 = c.0.y as i64 + vert;
            comps.push((Location::new(nx as i32, ny as i32), c.1));
            k = k + 1;
        }
        Feature { components: comps }
    }

    fn calc_min_x(components: &[(Location, Terrain)]) -> (r: i32)
        requires
            components@.len() > 0,
        ensures
            r == min_x_of(components@),
    {
        let s = Ghost(components@);
        let mut acc: i32 = components[0].0.x;
        let mut i: usize = 1;
        while i < components.len()
            invariant
                1 <= i <= s@.len(),
                s@ == components@,
                acc == min_x_of(s@.take(i as int)),
            decreases s@.len() - i,
        {
            proof {
                assert(s@.take(i + 1).drop_last() =~= s@.take(i as int));
            }
            if components[i].0.x < acc {
                acc = components[i].0.x;
            }
            i = i + 1;
        }
        proof {
            assert(s@.take(s@.len() as int) =~= s@);
        }
        acc
    }

    fn calc_max_x(components: &[(Location, Terrain)]) -> (r: i32)
        requires
            components@.len() > 0,
        ensures
            r == max_x_of(components@),
    {
        let s = Ghost(components@);
        let mut acc: i32 = components[0].0.x;
        let mut i: usize = 1;
        while i < components.len()
            invariant
                1 <= i <= s@.len(),
                s@ == components@,
                acc == max_x_of(s@.take(i as int)),
            decreases s@.len() - i,
        {
            proof {
                assert(s@.take(i + 1).drop_last() =~= s@.take(i as int));
            }
            if components[i].0.x > acc {
                acc = components[i].0.x;
            }
            i = i + 1;
        }
        proof {
            assert(s@.take(s@.len() as int) =~= s@);
        }
        acc
    }

    fn calc_min_y(components: &[(Location, Terrain)]) -> (r: i32)
        requires
            components@.len() > 0,
        ensures
            r == min_y_of(components@),
    {
        let s = Ghost(components@);
        let mut acc: i32 = components[0].0.y;
        let mut i: usize = 1;
        while i < components.len()
            invariant
                1 <= i <= s@.len(),
                s@ == components@,
                acc == min_y_of(s@.take(i as int)),
            decreases s@.len() - i,
        {
            proof {
                assert(s@.take(i + 1).drop_last() =~= s@.take(i as int));
            }
            if components[i].0.y < acc {
                acc = components[i].0.y;
            }
            i = i + 1;
        }
        proof {
            assert(s@.take(s@.len() as int) =~= s@);
        }
        acc
    }

    fn calc_max_y(components: &[(Location, Terrain)]) -> (r: i32)
        requires
            components@.len() > 0,
        ensures
            r == max_y_of(components@),
    {
        let s = Ghost(components@);
        let mut acc: i32 = components[0].0.y;
        let mut i: usize = 1;
        while i < components.len()
            invariant
                1 <= i <= s@.len(),
                s@ == components@,
                acc == max_y_of(s@.take(i as int)),
            decreases s@.len() - i,
        {
            proof {
                assert(s@.take(i + 1).drop_last() =~= s@.take(i as int));
            }
            if components[i].0.y > acc {
                acc = components[i].0.y;
            }
            i = i + 1;
        }
        proof {
            assert(s@.take(s@.len() as int) =~= s@);
        }
        acc
    }
}

} // verus!
