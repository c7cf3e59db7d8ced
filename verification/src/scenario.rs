//! The in-memory scenario: grid extents, start and goal cells, blocked
//! cells, and the precomputed animation frames, together with the
//! mathematical model the contracts speak of.

use vstd::prelude::*;

verus! {

/// A grid coordinate.
#[derive(Clone, Copy, Debug, PartialEq, Eq, Structural)]
pub struct Point {
    pub x: u32,
    pub y: u32,
}

impl Point {
    /// Whether this point is the cell `(x, y)`.
    pub fn is_equal(&self, x: u32, y: u32) -> (r: bool)
        ensures
            r == (self.x == x && self.y == y),
    {
        self.x == x && self.y == y
    }
}

/// The mathematical value of a [`ScenarioDescriptor`].
#[verifier::ext_equal]
pub struct ScenarioModel {
    pub rows: u32,
    pub cols: u32,
    pub start: Point,
    pub goal: Point,
    pub blocked: Seq<Point>,
    pub frames: Seq<Seq<Point>>,
}

impl ScenarioModel {
    /// The all-zero, all-empty value a load starts from.
    pub open spec fn init() -> ScenarioModel {
        ScenarioModel {
            rows: 0,
            cols: 0,
            start: Point { x: 0, y: 0 },
            goal: Point { x: 0, y: 0 },
            blocked: Seq::empty(),
            frames: Seq::empty(),
        }
    }

    /// The structural invariant checked once, after the whole file parsed.
    pub open spec fn valid(self) -> bool {
        self.rows > 0 && self.cols > 0 && self.start != self.goal
    }
}

/// A fully parsed scenario: grid extents, start and goal, blocked cells,
/// and the animation frames, each frame an ordered list of points.
#[derive(Clone, Debug, PartialEq, Eq)]
pub struct ScenarioDescriptor {
    pub rows: u32,
    pub cols: u32,
    pub start: Point,
    pub goal: Point,
    pub blocked: Vec<Point>,
    pub frames: Vec<Vec<Point>>,
}

impl View for ScenarioDescriptor {
    type V = ScenarioModel;

    open spec fn view(&self) -> ScenarioModel {
        ScenarioModel {
            rows: self.rows,
            cols: self.cols,
            start: self.start,
            goal: self.goal,
            blocked: self.blocked@,
            frames: Seq::new(self.frames@.len(), |i: int| self.frames@[i]@),
        }
    }
}

impl ScenarioDescriptor {
    /// The all-zero, all-empty descriptor a load starts from.
    pub fn empty() -> (r: ScenarioDescriptor)
        ensures
            r@ == ScenarioModel::init(),
    {
        let r = ScenarioDescriptor {
            rows: 0,
            cols: 0,
            start: Point { x: 0, y: 0 },
            goal: Point { x: 0, y: 0 },
            blocked: Vec::new(),
            frames: Vec::new(),
        };
        proof {
            assert(r@ =~= ScenarioModel::init());
        }
        r
    }

    /// The structural invariant: positive extents and distinct start and goal.
    pub fn is_valid(&self) -> (r: bool)
        ensures
            r == self@.valid(),
    {
        self.rows > 0 && self.cols > 0 && !(self.start.x == self.goal.x && self.start.y == self.goal.y)
    }
}

} // verus!
