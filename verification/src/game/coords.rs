//! Geometry on hexagonal grids: axial, cube and doubled coordinates,
//! neighborhood, straight lines, and the conversions between the three
//! coordinate kinds.

use vstd::prelude::*;

verus! {

/// Axial coordinates on the hex grid: the primary addressing scheme for
/// board cells.
#[derive(Debug, Copy, Clone, PartialEq, Eq, Hash, PartialOrd, Ord, Structural)]
pub struct AxialCoords {
    pub x: i32,
    pub y: i32,
}

/// Cube coordinates on the hex grid, used for straight-line and distance
/// reasoning. Valid cube coordinates satisfy `x + y + z == 0`.
#[derive(Debug, Copy, Clone, PartialEq, Eq, Hash, PartialOrd, Ord, Structural)]
pub struct CubeCoords {
    pub x: i32,
    pub y: i32,
    pub z: i32,
}

/// Offset coordinates with a doubled vertical step size, used to parse
/// human-readable ASCII hex grids. Coordinates produced by converting
/// from axial coordinates satisfy the parity invariant: `x + y` is even.
#[derive(Debug, Copy, Clone, PartialEq, Eq, Hash, PartialOrd, Ord, Structural)]
pub struct DoubledCoords {
    pub x: i32,
    pub y: i32,
}

// ---------------------------------------------------------------------
// The mathematical model of the conversions
// ---------------------------------------------------------------------

/// Halves `n`, truncating toward zero (the semantics of `/ 2` on a
/// machine integer).
pub open spec fn div2_trunc(n: int) -> int {
    if n >= 0 {
        n / 2
    } else {
        -((-n) / 2)
    }
}

/// The doubled coordinates of an axial coordinate pair.
pub open spec fn doubled_of_axial(ax: int, ay: int) -> (int, int) {
    (ax - ay, -(ax + ay))
}

/// The axial coordinates of a doubled coordinate pair. On pairs that
/// satisfy the parity invariant the divisions are exact; on other pairs
/// they truncate, exactly as the executable conversion does.
pub open spec fn axial_of_doubled(dx: int, dy: int) -> (int, int) {
    (div2_trunc(dx - dy), div2_trunc(-(dx + dy)))
}

/// Truncating halving of a doubled value is exact.
pub proof fn lemma_div2_double(k: int)
    ensures
        div2_trunc(2 * k) == k,
{
}

/// Truncating halving of an even value is exact.
pub proof fn lemma_div2_even(n: int)
    requires
        n % 2 == 0,
    ensures
        2 * div2_trunc(n) == n,
{
}

/// Converting axial coordinates to doubled coordinates and back returns
/// the original pair: the round-trip law, on the mathematical model.
pub proof fn lemma_axial_doubled_round_trip(ax: int, ay: int)
    ensures
        axial_of_doubled(doubled_of_axial(ax, ay).0, doubled_of_axial(ax, ay).1) == (ax, ay),
{
    let (dx, dy) = doubled_of_axial(ax, ay);
    assert(dx - dy == 2 * ax);
    assert(-(dx + dy) == 2 * ay);
    lemma_div2_double(ax);
    lemma_div2_double(ay);
}

/// Converting doubled coordinates that satisfy the parity invariant to
/// axial coordinates and back returns the original pair.
pub proof fn lemma_doubled_axial_round_trip(dx: int, dy: int)
    requires
        (dx + dy) % 2 == 0,
    ensures
        doubled_of_axial(axial_of_doubled(dx, dy).0, axial_of_doubled(dx, dy).1) == (dx, dy),
{
    assert((dx - dy) % 2 == 0);
    assert((-(dx + dy)) % 2 == 0);
    lemma_div2_even(dx - dy);
    lemma_div2_even(-(dx + dy));
    let ax = div2_trunc(dx - dy);
    let ay = div2_trunc(-(dx + dy));
    assert(2 * ax == dx - dy);
    assert(2 * ay == -(dx + dy));
}

/// Every cube coordinate triple produced from axial coordinates sums to
/// zero.
pub proof fn lemma_cube_sum_zero(ax: int, ay: int)
    ensures
        ax + ay + (-(ax + ay)) == 0,
{
}

// ---------------------------------------------------------------------
// Neighborhood
// ---------------------------------------------------------------------

/// Whether `b` is one of the six hex neighbors of `a`.
pub open spec fn is_neighbor(a: AxialCoords, b: AxialCoords) -> bool {
    let dx = b.x - a.x;
    let dy = b.y - a.y;
    ||| (dx == 0 && dy == 1)
    ||| (dx == 1 && dy == 0)
    ||| (dx == 1 && dy == -1)
    ||| (dx == 0 && dy == -1)
    ||| (dx == -1 && dy == 0)
    ||| (dx == -1 && dy == 1)
}

/// Neighborhood is symmetric.
pub proof fn lemma_is_neighbor_symmetric(a: AxialCoords, b: AxialCoords)
    ensures
        is_neighbor(a, b) == is_neighbor(b, a),
{
}

/// Whether all six neighbors of `a` are representable in 32 bits.
pub open spec fn coords_roomy(a: AxialCoords) -> bool {
    &&& a.x + 1 <= i32::MAX
    &&& a.x - 1 >= i32::MIN
    &&& a.y + 1 <= i32::MAX
    &&& a.y - 1 >= i32::MIN
}

/// The six neighbors of `a`, in the fixed order the game uses.
pub open spec fn neighbor_seq(a: AxialCoords) -> Seq<AxialCoords> {
    seq![
        AxialCoords { x: a.x, y: (a.y + 1) as i32 },
        AxialCoords { x: (a.x + 1) as i32, y: a.y },
        AxialCoords { x: (a.x + 1) as i32, y: (a.y - 1) as i32 },
        AxialCoords { x: a.x, y: (a.y - 1) as i32 },
        AxialCoords { x: (a.x - 1) as i32, y: a.y },
        AxialCoords { x: (a.x - 1) as i32, y: (a.y + 1) as i32 },
    ]
}

/// The six listed neighbors are exactly the cells adjacent to `a`, and
/// they are pairwise distinct.
pub proof fn lemma_neighbor_seq_complete(a: AxialCoords)
    requires
        coords_roomy(a),
    ensures
        forall|b: AxialCoords| is_neighbor(a, b) <==> neighbor_seq(a).contains(b),
        forall|i: int, j: int|
            0 <= i < 6 && 0 <= j < 6 && i != j ==> neighbor_seq(a)[i] != neighbor_seq(a)[j],
{
    let s = neighbor_seq(a);
    assert forall|b: AxialCoords| is_neighbor(a, b) implies s.contains(b) by {
        let dx = b.x - a.x;
        let dy = b.y - a.y;
        if dx == 0 && dy == 1 {
            assert(s[0] == b);
        } else if dx == 1 && dy == 0 {
            assert(s[1] == b);
        } else if dx == 1 && dy == -1 {
            assert(s[2] == b);
        } else if dx == 0 && dy == -1 {
            assert(s[3] == b);
        } else if dx == -1 && dy == 0 {
            assert(s[4] == b);
        } else {
            assert(s[5] == b);
        }
    }
    assert forall|b: AxialCoords| s.contains(b) implies is_neighbor(a, b) by {
        let i = choose|i: int| 0 <= i < s.len() && s[i] == b;
        assert(is_neighbor(a, s[i]));
    }
}

impl AxialCoords {
    /// Creates new axial coordinates.
    pub fn new(x: i32, y: i32) -> (r: Self)
        ensures
            r == (AxialCoords { x, y }),
    {
        Self { x, y }
    }

    /// Fetches the x-coordinate.
    pub fn x(self) -> (r: i32)
        ensures
            r == self.x,
    {
        self.x
    }

    /// Fetches the y-coordinate.
    pub fn y(self) -> (r: i32)
        ensures
            r == self.y,
    {
        self.y
    }

    /// The `i`-th of the six neighbors, in the order of `neighbor_seq`.
    pub fn neighbor_at(self, i: usize) -> (r: AxialCoords)
        requires
            coords_roomy(self),
            i < 6,
        ensures
            r == neighbor_seq(self)[i as int],
            is_neighbor(self, r),
    {
        match i {
            0 => AxialCoords { x: self.x, y: self.y + 1 },
            1 => AxialCoords { x: self.x + 1, y: self.y },
            2 => AxialCoords { x: self.x + 1, y: self.y - 1 },
            3 => AxialCoords { x: self.x, y: self.y - 1 },
            4 => AxialCoords { x: self.x - 1, y: self.y },
            _ => AxialCoords { x: self.x - 1, y: self.y + 1 },
        }
    }

    /// Fetches all 6 neighbors, regardless of any board boundaries.
    pub fn coord_neighbors(self) -> (r: arrayvec::ArrayVec<AxialCoords, 6>)
        requires
            coords_roomy(self),
        ensures
            av6_view(r) == neighbor_seq(self),
    {
        let arr: [AxialCoords; 6] = [
            self.neighbor_at(0),
            self.neighbor_at(1),
            self.neighbor_at(2),
            self.neighbor_at(3),
            self.neighbor_at(4),
            self.neighbor_at(5),
        ];
        let r = av_from_six(arr);
        proof {
            assert(arr@ =~= neighbor_seq(self));
        }
        r
    }

    /// Converts to cube coordinates (`z` completes the triple to zero).
    pub fn to_cube(self) -> (r: CubeCoords)
        requires
            i32::MIN <= -(self.x + self.y) <= i32::MAX,
        ensures
            r.x == self.x,
            r.y == self.y,
            r.z == -(self.x + self.y),
            r.x + r.y + r.z == 0,
    {
        let z64: i64 = -(self.x as i64 + self.y as i64);
        CubeCoords { x: self.x, y: self.y, z: z64 as i32 }
    }

    /// Converts to doubled coordinates.
    pub fn to_doubled(self) -> (r: DoubledCoords)
        requires
            i32::MIN <= self.x - self.y <= i32::MAX,
            i32::MIN <= -(self.x + self.y) <= i32::MAX,
        ensures
            (r.x as int, r.y as int) == doubled_of_axial(self.x as int, self.y as int),
    {
        let dx: i64 = self.x as i64 - self.y as i64;
        let dy: i64 = -(self.x as i64 + self.y as i64);
        DoubledCoords { x: dx as i32, y: dy as i32 }
    }
}

impl CubeCoords {
    /// Creates new (unvalidated) cube coordinates.
    pub fn new(x: i32, y: i32, z: i32) -> (r: Self)
        ensures
            r == (CubeCoords { x, y, z }),
    {
        Self { x, y, z }
    }

    /// Creates new cube coordinates if the triple sums to zero.
    pub fn new_valid(x: i32, y: i32, z: i32) -> (r: Option<Self>)
        ensures
            x + y + z == 0 ==> r == Some(CubeCoords { x, y, z }),
            x + y + z != 0 ==> r is None,
    {
        if x as i64 + y as i64 + z as i64 == 0 {
            Some(CubeCoords { x, y, z })
        } else {
            None
        }
    }

    /// Fetches the x-coordinate.
    pub fn x(self) -> (r: i32)
        ensures
            r == self.x,
    {
        self.x
    }

    /// Fetches the y-coordinate.
    pub fn y(self) -> (r: i32)
        ensures
            r == self.y,
    {
        self.y
    }

    /// Fetches the z-coordinate.
    pub fn z(self) -> (r: i32)
        ensures
            r == self.z,
    {
        self.z
    }

    /// Converts to axial coordinates by dropping `z`.
    pub fn to_axial(self) -> (r: AxialCoords)
        ensures
            r.x == self.x,
            r.y == self.y,
    {
        AxialCoords { x: self.x, y: self.y }
    }

    /// Converts to doubled coordinates, through axial coordinates.
    pub fn to_doubled(self) -> (r: DoubledCoords)
        requires
            i32::MIN <= self.x - self.y <= i32::MAX,
            i32::MIN <= -(self.x + self.y) <= i32::MAX,
        ensures
            (r.x as int, r.y as int) == doubled_of_axial(self.x as int, self.y as int),
    {
        self.to_axial().to_doubled()
    }
}

impl DoubledCoords {
    /// Creates new doubled coordinates.
    pub fn new(x: i32, y: i32) -> (r: Self)
        ensures
            r == (DoubledCoords { x, y }),
    {
        Self { x, y }
    }

    /// Fetches the x-coordinate.
    pub fn x(self) -> (r: i32)
        ensures
            r == self.x,
    {
        self.x
    }

    /// Fetches the y-coordinate.
    pub fn y(self) -> (r: i32)
        ensures
            r == self.y,
    {
        self.y
    }

    /// Converts to axial coordinates. The divisions truncate; they are
    /// exact exactly on pairs satisfying the parity invariant.
    pub fn to_axial(self) -> (r: AxialCoords)
        requires
            i32::MIN <= axial_of_doubled(self.x as int, self.y as int).0 <= i32::MAX,
            i32::MIN <= axial_of_doubled(self.x as int, self.y as int).1 <= i32::MAX,
        ensures
            (r.x as int, r.y as int) == axial_of_doubled(self.x as int, self.y as int),
    {
        let dx: i64 = self.x as i64 - self.y as i64;
        let dy: i64 = -(self.x as i64 + self.y as i64);
        let ax: i64 = if dx >= 0 {
            ((dx as u64) / 2) as i64
        } else {
            -((((-dx) as u64) / 2) as i64)
        };
        let ay: i64 = if dy >= 0 {
            ((dy as u64) / 2) as i64
        } else {
            -((((-dy) as u64) / 2) as i64)
        };
        proof {
            assert(ax as int == div2_trunc(dx as int));
            assert(ay as int == div2_trunc(dy as int));
        }
        AxialCoords { x: ax as i32, y: ay as i32 }
    }

    /// Converts to cube coordinates, through axial coordinates. Only
    /// pairs satisfying the parity invariant convert losslessly, so the
    /// parity invariant is required.
    pub fn to_cube(self) -> (r: CubeCoords)
        requires
            (self.x + self.y) % 2 == 0,
            i32::MIN <= axial_of_doubled(self.x as int, self.y as int).0 <= i32::MAX,
            i32::MIN <= axial_of_doubled(self.x as int, self.y as int).1 <= i32::MAX,
        ensures
            (r.x as int, r.y as int) == axial_of_doubled(self.x as int, self.y as int),
            r.x + r.y + r.z == 0,
    {
        proof {
            assert((self.x - self.y) % 2 == 0);
            assert((-(self.x + self.y)) % 2 == 0);
            lemma_div2_even(self.x - self.y);
            lemma_div2_even(-(self.x + self.y));
        }
        self.to_axial().to_cube()
    }
}

// ---------------------------------------------------------------------
// Adjacency and straight lines
// ---------------------------------------------------------------------

/// Two cube coordinate triples form a straight line when they share at
/// least one component.
pub open spec fn spec_forms_line(
    ax: int,
    ay: int,
    az: int,
    bx: int,
    by: int,
    bz: int,
) -> bool {
    ax == bx || ay == by || az == bz
}

/// The sign of `d`: one of `-1`, `0`, `1`.
pub open spec fn sgn(d: int) -> int {
    if d > 0 {
        1
    } else if d < 0 {
        -1
    } else {
        0
    }
}

fn sgn_i64(d: i64) -> (r: i64)
    ensures
        r == sgn(d as int),
{
    if d > 0 {
        1
    } else if d < 0 {
        -1
    } else {
        0
    }
}

/// Tests whether `self` and `rhs` are neighbors on the hex grid.
pub trait Adjacentable: Sized {
    /// The axial coordinates this value stands for.
    spec fn axial_equiv(self) -> AxialCoords;

    /// Tests whether `self` and `rhs` are neighbors.
    fn is_adjacent_to(self, rhs: Self) -> (r: bool)
        ensures
            r == is_neighbor(self.axial_equiv(), rhs.axial_equiv()),
    ;
}

fn axial_adjacent(a: AxialCoords, b: AxialCoords) -> (r: bool)
    ensures
        r == is_neighbor(a, b),
{
    let dx: i64 = b.x as i64 - a.x as i64;
    let dy: i64 = b.y as i64 - a.y as i64;
    (dx == 0 && dy == 1) || (dx == 1 && dy == 0) || (dx == 1 && dy == -1) || (dx == 0 && dy == -1)
        || (dx == -1 && dy == 0) || (dx == -1 && dy == 1)
}

impl Adjacentable for AxialCoords {
    open spec fn axial_equiv(self) -> AxialCoords {
        self
    }

    fn is_adjacent_to(self, rhs: Self) -> (r: bool) {
        axial_adjacent(self, rhs)
    }
}

impl Adjacentable for CubeCoords {
    open spec fn axial_equiv(self) -> AxialCoords {
        AxialCoords { x: self.x, y: self.y }
    }

    fn is_adjacent_to(self, rhs: Self) -> (r: bool) {
        axial_adjacent(self.to_axial(), rhs.to_axial())
    }
}

/// An iterator that returns the cube cells on a straight line, stepping
/// by a fixed unit vector until it reaches (and excludes) the
/// destination.
#[derive(Debug, Copy, Clone, PartialEq, Eq, Structural)]
pub struct LineIter {
    pub current: CubeCoords,
    pub step: CubeCoords,
    pub destination: CubeCoords,
}

impl LineIter {
    /// Creates a line iterator from its three components.
    pub fn new(start: CubeCoords, step: CubeCoords, destination: CubeCoords) -> (r: Self)
        ensures
            r == (LineIter { current: start, step, destination }),
    {
        Self { current: start, step, destination }
    }

    /// Yields the current cell and advances by one step, or stops when
    /// the destination is reached (the destination is never yielded).
    pub fn next(&mut self) -> (r: Option<CubeCoords>)
        requires
            old(self).current != old(self).destination ==> {
                &&& i32::MIN <= old(self).current.x + old(self).step.x <= i32::MAX
                &&& i32::MIN <= old(self).current.y + old(self).step.y <= i32::MAX
                &&& i32::MIN <= old(self).current.z + old(self).step.z <= i32::MAX
            },
        ensures
            old(self).current == old(self).destination ==> r is None && *final(self) == *old(self),
            old(self).current != old(self).destination ==> {
                &&& r == Some(old(self).current)
                &&& final(self).current.x == old(self).current.x + old(self).step.x
                &&& final(self).current.y == old(self).current.y + old(self).step.y
                &&& final(self).current.z == old(self).current.z + old(self).step.z
                &&& final(self).step == old(self).step
                &&& final(self).destination == old(self).destination
            },
    {
        if self.current == self.destination {
            None
        } else {
            let pos = self.current;
            self.current = CubeCoords {
                x: self.current.x + self.step.x,
                y: self.current.y + self.step.y,
                z: self.current.z + self.step.z,
            };
            Some(pos)
        }
    }
}

/// Straight-line reasoning between two cells, in cube space.
pub trait LineFormable: Sized {
    /// The cube x-coordinate this value stands for.
    spec fn cube_x(self) -> int;

    /// The cube y-coordinate this value stands for.
    spec fn cube_y(self) -> int;

    /// The cube z-coordinate this value stands for.
    spec fn cube_z(self) -> int;

    /// Tests whether `self` and `rhs` form a straight line.
    fn forms_line_with(self, rhs: Self) -> (r: bool)
        ensures
            r == spec_forms_line(
                self.cube_x(),
                self.cube_y(),
                self.cube_z(),
                rhs.cube_x(),
                rhs.cube_y(),
                rhs.cube_z(),
            ),
    ;

    /// Fetches an iterator over the cells strictly between `self` and
    /// `rhs` in cube coordinates.
    fn line_iter(self, rhs: Self) -> (r: LineIter)
        requires
            i32::MIN + 1 <= self.cube_x() <= i32::MAX - 1,
            i32::MIN + 1 <= self.cube_y() <= i32::MAX - 1,
            i32::MIN + 1 <= self.cube_z() <= i32::MAX - 1,
            i32::MIN <= rhs.cube_x() <= i32::MAX,
            i32::MIN <= rhs.cube_y() <= i32::MAX,
            i32::MIN <= rhs.cube_z() <= i32::MAX,
        ensures
            r.step.x == sgn(rhs.cube_x() - self.cube_x()),
            r.step.y == sgn(rhs.cube_y() - self.cube_y()),
            r.step.z == sgn(rhs.cube_z() - self.cube_z()),
            r.current.x == self.cube_x() + r.step.x,
            r.current.y == self.cube_y() + r.step.y,
            r.current.z == self.cube_z() + r.step.z,
            r.destination.x == rhs.cube_x(),
            r.destination.y == rhs.cube_y(),
            r.destination.z == rhs.cube_z(),
    ;
}

fn cube_line_iter(a: CubeCoords, b: CubeCoords) -> (r: LineIter)
    requires
        i32::MIN + 1 <= a.x <= i32::MAX - 1,
        i32::MIN + 1 <= a.y <= i32::MAX - 1,
        i32::MIN + 1 <= a.z <= i32::MAX - 1,
    ensures
        r.step.x == sgn(b.x - a.x),
        r.step.y == sgn(b.y - a.y),
        r.step.z == sgn(b.z - a.z),
        r.current.x == a.x + r.step.x,
        r.current.y == a.y + r.step.y,
        r.current.z == a.z + r.step.z,
        r.destination == b,
{
    let sx = sgn_i64(b.x as i64 - a.x as i64);
    let sy = sgn_i64(b.y as i64 - a.y as i64);
    let sz = sgn_i64(b.z as i64 - a.z as i64);
    let step = CubeCoords { x: sx as i32, y: sy as i32, z: sz as i32 };
    let current = CubeCoords { x: a.x + step.x, y: a.y + step.y, z: a.z + step.z };
    LineIter { current, step, destination: b }
}

impl LineFormable for CubeCoords {
    open spec fn cube_x(self) -> int {
        self.x as int
    }

    open spec fn cube_y(self) -> int {
        self.y as int
    }

    open spec fn cube_z(self) -> int {
        self.z as int
    }

    fn forms_line_with(self, rhs: Self) -> (r: bool) {
        self.x == rhs.x || self.y == rhs.y || self.z == rhs.z
    }

    fn line_iter(self, rhs: Self) -> (r: LineIter) {
        cube_line_iter(self, rhs)
    }
}

impl LineFormable for AxialCoords {
    open spec fn cube_x(self) -> int {
        self.x as int
    }

    open spec fn cube_y(self) -> int {
        self.y as int
    }

    open spec fn cube_z(self) -> int {
        -(self.x + self.y)
    }

    fn forms_line_with(self, rhs: Self) -> (r: bool) {
        let za: i64 = -(self.x as i64 + self.y as i64);
        let zb: i64 = -(rhs.x as i64 + rhs.y as i64);
        self.x == rhs.x || self.y == rhs.y || za == zb
    }

    fn line_iter(self, rhs: Self) -> (r: LineIter) {
        cube_line_iter(self.to_cube(), rhs.to_cube())
    }
}

// ---------------------------------------------------------------------
// Straight lines between axial cells, for the grasshopper's jumps
// ---------------------------------------------------------------------

/// Whether the two axial cells form a straight line in cube space.
pub open spec fn forms_line_ax(a: AxialCoords, b: AxialCoords) -> bool {
    let dx = b.x - a.x;
    let dy = b.y - a.y;
    dx == 0 || dy == 0 || dx + dy == 0
}

/// The number of unit steps from `a` to `b` along their line.
pub open spec fn line_len_ax(a: AxialCoords, b: AxialCoords) -> int {
    let dx = abs_int(b.x - a.x);
    let dy = abs_int(b.y - a.y);
    let dz = abs_int((b.x - a.x) + (b.y - a.y));
    if dx >= dy && dx >= dz {
        dx
    } else if dy >= dz {
        dy
    } else {
        dz
    }
}

/// The absolute value of `n`.
pub open spec fn abs_int(n: int) -> int {
    if n >= 0 {
        n
    } else {
        -n
    }
}

/// The axial coordinates of the `k`-th cell on the line from `a` toward
/// `b` (cell 0 is `a` itself).
pub open spec fn line_cell_ax(a: AxialCoords, b: AxialCoords, k: int) -> AxialCoords {
    AxialCoords {
        x: (a.x + k * sgn(b.x - a.x)) as i32,
        y: (a.y + k * sgn(b.y - a.y)) as i32,
    }
}

/// On a proper line the `k`-th cell lies between the endpoints, so its
/// coordinates stay in 32-bit range; cell 0 is `a` and the last cell is
/// `b`.
pub proof fn lemma_line_cells(a: AxialCoords, b: AxialCoords, k: int)
    requires
        forms_line_ax(a, b),
        0 <= k <= line_len_ax(a, b),
    ensures
        i32::MIN <= a.x + k * sgn(b.x - a.x) <= i32::MAX,
        i32::MIN <= a.y + k * sgn(b.y - a.y) <= i32::MAX,
        k == 0 ==> line_cell_ax(a, b, k) == a,
        k == line_len_ax(a, b) ==> line_cell_ax(a, b, k) == b,
{
    let dx = b.x - a.x;
    let dy = b.y - a.y;
    let n = line_len_ax(a, b);
    // On a line, each coordinate difference is either zero or has the
    // full magnitude `n`, so stepping `k` times stays between the
    // endpoints in each coordinate.
    assert(dx == 0 || abs_int(dx) == n);
    assert(dy == 0 || abs_int(dy) == n);
    if dx == 0 {
        assert(k * sgn(dx) == k * 0);
    } else if dx > 0 {
        assert(sgn(dx) == 1);
        assert(k * sgn(dx) == k * 1);
        assert(0 <= k * 1 <= dx);
    } else {
        assert(sgn(dx) == -1);
        assert(k * sgn(dx) == k * (-1));
        assert(dx <= k * (-1) <= 0);
    }
    if dy == 0 {
        assert(k * sgn(dy) == k * 0);
    } else if dy > 0 {
        assert(sgn(dy) == 1);
        assert(k * sgn(dy) == k * 1);
        assert(0 <= k * 1 <= dy);
    } else {
        assert(sgn(dy) == -1);
        assert(k * sgn(dy) == k * (-1));
        assert(dy <= k * (-1) <= 0);
    }
    if k == n {
        assert(k * sgn(dx) == dx && k * sgn(dy) == dy);
    }
}

// ---------------------------------------------------------------------
// The one outside collection the geometry hands out: a six-slot
// `ArrayVec` of neighbor coordinates.
// ---------------------------------------------------------------------

#[verifier::external_type_specification]
#[verifier::external_body]
#[verifier::reject_recursive_types(T)]
pub struct ExArrayVec<T, const CAP: usize>(arrayvec::ArrayVec<T, CAP>);

/// The elements a six-slot neighbor vector holds, in order.
pub uninterp spec fn av6_view(v: arrayvec::ArrayVec<AxialCoords, 6>) -> Seq<AxialCoords>;

/// Relies on arrayvec's `ArrayVec::from`, which copies the whole array:
/// the vector holds exactly the array's six elements, in order.
#[verifier::external_body]
fn av_from_six(arr: [AxialCoords; 6]) -> (r: arrayvec::ArrayVec<AxialCoords, 6>)
    ensures
        av6_view(r) == arr@,
{
    arrayvec::ArrayVec::from(arr)
}

} // verus!
