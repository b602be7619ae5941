//! A 3D grid of rhombic-dodecahedral cells.
//!
//! A cell is addressed by four integers `(w, x, y, z)` that sum to zero, in the
//! way cube coordinates address a hexagonal grid. Moving to a neighbour raises
//! one axis by one and lowers another by one, which gives the twelve faces of a
//! rhombic dodecahedron.

use vstd::prelude::*;

verus! {

/// The four components of a coordinate, as mathematical integers.
pub type Quad = (int, int, int, int);

/// An axis label, naming a direction of travel.
#[derive(Clone, Copy, Debug, PartialEq, Eq, Structural)]
pub enum RDir {
    W,
    X,
    Y,
    Z,
}

/// The two ways in which a grid operation can be refused.
#[derive(Clone, Copy, Debug, PartialEq, Eq)]
pub enum CoordError {
    /// The four components do not sum to zero; carries the offending tuple.
    InvariantViolation([i32; 4]),
    /// A move was asked from an axis to itself.
    InvalidDirectionPair,
}

/// Whether `e` reports a constraint violation by the tuple `q`.
pub open spec fn violation_of(e: CoordError, q: Quad) -> bool {
    match e {
        CoordError::InvariantViolation(b) => quad_of(b) == q,
        CoordError::InvalidDirectionPair => false,
    }
}

/// The position of an axis in the tuple `(w, x, y, z)`.
pub open spec fn axis_index(d: RDir) -> int {
    match d {
        RDir::W => 0,
        RDir::X => 1,
        RDir::Y => 2,
        RDir::Z => 3,
    }
}

/// One where `i` is the index of axis `d`, zero elsewhere.
pub open spec fn unit(d: RDir, i: int) -> int {
    if axis_index(d) == i { 1 } else { 0 }
}

/// The step from axis `f` towards axis `t`: `t` goes up by one, `f` down by one.
pub open spec fn displacement(f: RDir, t: RDir) -> Quad {
    (
        unit(t, 0) - unit(f, 0),
        unit(t, 1) - unit(f, 1),
        unit(t, 2) - unit(f, 2),
        unit(t, 3) - unit(f, 3),
    )
}

/// The tuple held by an array of four components.
pub open spec fn quad_of(a: [i32; 4]) -> Quad {
    (a[0] as int, a[1] as int, a[2] as int, a[3] as int)
}

pub open spec fn sum(q: Quad) -> int {
    q.0 + q.1 + q.2 + q.3
}

/// The grid's defining constraint.
pub open spec fn valid(q: Quad) -> bool {
    sum(q) == 0
}

pub open spec fn add4(a: Quad, b: Quad) -> Quad {
    (a.0 + b.0, a.1 + b.1, a.2 + b.2, a.3 + b.3)
}

pub open spec fn neg4(a: Quad) -> Quad {
    (-a.0, -a.1, -a.2, -a.3)
}

pub open spec fn abs(v: int) -> int {
    if v < 0 { -v } else { v }
}

pub open spec fn abs4(a: Quad) -> Quad {
    (abs(a.0), abs(a.1), abs(a.2), abs(a.3))
}

/// Whether `v` can be held by an `i32`.
pub open spec fn fits_i32(v: int) -> bool {
    i32::MIN <= v <= i32::MAX
}

/// Whether each component of `q` can be held by an `i32`.
pub open spec fn fits(q: Quad) -> bool {
    fits_i32(q.0) && fits_i32(q.1) && fits_i32(q.2) && fits_i32(q.3)
}

/// The number of single steps between two cells: half the sum of the
/// absolute componentwise differences.
pub open spec fn distance_spec(a: Quad, b: Quad) -> int {
    sum(abs4(add4(a, neg4(b)))) / 2
}

/// The integer nearest to `n / d` (for `d > 0`), halves rounded away from
/// zero.
pub open spec fn round_div(n: int, d: int) -> int {
    if n >= 0 {
        (2 * n + d) / (2 * d)
    } else {
        -((-2 * n + d) / (2 * d))
    }
}

/// One component of the point at `t = i / n` on the way from `a` to `b`,
/// rounded to the nearest integer.
pub open spec fn lerp_round(a: int, b: int, i: int, n: int) -> int {
    round_div(a * n + (b - a) * i, n)
}

/// The componentwise rounded point at `t = i / n` between `a` and `b`, before
/// any repair.
pub open spec fn lerp_rounded(a: Quad, b: Quad, i: int, n: int) -> Quad {
    (
        lerp_round(a.0, b.0, i, n),
        lerp_round(a.1, b.1, i, n),
        lerp_round(a.2, b.2, i, n),
        lerp_round(a.3, b.3, i, n),
    )
}

/// One unit from `v` towards `target`, or `v` itself where they agree.
pub open spec fn step_toward(v: int, target: int) -> int {
    if v < target {
        v + 1
    } else if v > target {
        v - 1
    } else {
        v
    }
}

/// The invariant repair applied after rounding: where `x` does not sum to
/// zero, the first component that equals its right-hand neighbour takes one
/// step towards the same component of `a`; otherwise `x` is kept.
pub open spec fn repair(x: Quad, a: Quad) -> Quad {
    if sum(x) == 0 {
        x
    } else if x.0 == x.1 {
        (step_toward(x.0, a.0), x.1, x.2, x.3)
    } else if x.1 == x.2 {
        (x.0, step_toward(x.1, a.1), x.2, x.3)
    } else if x.2 == x.3 {
        (x.0, x.1, step_toward(x.2, a.2), x.3)
    } else {
        x
    }
}

/// The interpolated point at `t = i / n` between `a` and `b`, repaired.
pub open spec fn lerp_spec(a: Quad, b: Quad, i: int, n: int) -> Quad {
    repair(lerp_rounded(a, b, i, n), a)
}

/// The `i`-th cell of the line from `a` to `b`, which is `d` steps long.
pub open spec fn line_point(a: Quad, b: Quad, i: int, d: int) -> Quad {
    if d == 0 {
        a
    } else {
        lerp_spec(a, b, i, d)
    }
}

/// `(2p + n) / (2n)`, the quotient `p / n` rounded half up, lies in
/// `[lo, hi]` when `p / n` does.
proof fn lemma_half_up_within(p: int, lo: int, hi: int, n: int)
    requires
        0 < n,
        lo * n <= p <= hi * n,
    ensures
        lo <= (2 * p + n) / (2 * n) <= hi,
{
    let x = 2 * p + n;
    vstd::arithmetic::div_mod::lemma_fundamental_div_mod(x, 2 * n);
    vstd::arithmetic::div_mod::lemma_mod_bound(x, 2 * n);
    let q = x / (2 * n);
    let r = x % (2 * n);
    assert(lo <= q <= hi) by (nonlinear_arith)
        requires
            x == 2 * n * q + r,
            0 <= r < 2 * n,
            lo * n <= p <= hi * n,
            0 < n,
            x == 2 * p + n,
    ;
}

/// Rounding `v / n` lands in `[lo, hi]` when `v / n` lies there.
proof fn lemma_round_div_within(v: int, lo: int, hi: int, n: int)
    requires
        0 < n,
        lo * n <= v <= hi * n,
    ensures
        lo <= round_div(v, n) <= hi,
{
    if v >= 0 {
        lemma_half_up_within(v, lo, hi, n);
    } else {
        assert((-hi) * n <= -v <= (-lo) * n) by (nonlinear_arith)
            requires
                lo * n <= v <= hi * n,
        ;
        lemma_half_up_within(-v, -hi, -lo, n);
    }
}

/// The rounded point at `t = i / n` between `a` and `b` lies between them.
proof fn lemma_lerp_round_between(a: int, b: int, i: int, n: int)
    requires
        0 <= i <= n,
        0 < n,
    ensures
        a <= b ==> a <= lerp_round(a, b, i, n) <= b,
        b < a ==> b <= lerp_round(a, b, i, n) <= a,
        i == 0 ==> lerp_round(a, b, i, n) == a,
        i == n ==> lerp_round(a, b, i, n) == b,
{
    let v = a * n + (b - a) * i;
    if a <= b {
        assert(a * n <= v <= b * n) by (nonlinear_arith)
            requires
                v == a * n + (b - a) * i,
                0 <= i <= n,
                a <= b,
        ;
        lemma_round_div_within(v, a, b, n);
    } else {
        assert(b * n <= v <= a * n) by (nonlinear_arith)
            requires
                v == a * n + (b - a) * i,
                0 <= i <= n,
                b < a,
        ;
        lemma_round_div_within(v, b, a, n);
    }
    if i == 0 {
        assert(v == a * n) by (nonlinear_arith)
            requires
                v == a * n + (b - a) * i,
                i == 0,
        ;
        lemma_round_div_within(v, a, a, n);
    }
    if i == n {
        assert(v == b * n) by (nonlinear_arith)
            requires
                v == a * n + (b - a) * i,
                i == n,
        ;
        lemma_round_div_within(v, b, b, n);
    }
}

/// The interpolated line starts at `a` and ends at `b`.
pub proof fn lemma_lerp_ends(a: Quad, b: Quad, n: int)
    requires
        valid(a),
        valid(b),
        0 < n,
    ensures
        lerp_spec(a, b, 0, n) == a,
        lerp_spec(a, b, n, n) == b,
{
    lemma_lerp_round_between(a.0, b.0, 0, n);
    lemma_lerp_round_between(a.1, b.1, 0, n);
    lemma_lerp_round_between(a.2, b.2, 0, n);
    lemma_lerp_round_between(a.3, b.3, 0, n);
    lemma_lerp_round_between(a.0, b.0, n, n);
    lemma_lerp_round_between(a.1, b.1, n, n);
    lemma_lerp_round_between(a.2, b.2, n, n);
    lemma_lerp_round_between(a.3, b.3, n, n);
}

/// The twelve direction pairs in their canonical order.
pub open spec fn neighbor_dirs() -> Seq<(RDir, RDir)> {
    seq![
        (RDir::W, RDir::X),
        (RDir::W, RDir::Y),
        (RDir::W, RDir::Z),
        (RDir::X, RDir::W),
        (RDir::X, RDir::Y),
        (RDir::X, RDir::Z),
        (RDir::Y, RDir::W),
        (RDir::Y, RDir::X),
        (RDir::Y, RDir::Z),
        (RDir::Z, RDir::W),
        (RDir::Z, RDir::X),
        (RDir::Z, RDir::Y),
    ]
}

/// The twelve neighbours of `c`, one per direction pair, in canonical order.
pub open spec fn neighbors_spec(c: Quad) -> Seq<Quad> {
    neighbor_dirs().map_values(|p: (RDir, RDir)| add4(c, displacement(p.0, p.1)))
}

/// Whether no component of `q` is at either end of the `i32` range, so that
/// a single step in any direction stays representable.
pub open spec fn interior(q: Quad) -> bool {
    fits(add4(q, (1, 1, 1, 1))) && fits(add4(q, (-1, -1, -1, -1)))
}

/// Whether the cells `v` are `c` shifted by the offsets `offs`, one for one.
pub open spec fn cells_at(v: Seq<RCoord>, c: Quad, offs: Seq<Quad>) -> bool {
    &&& v.len() == offs.len()
    &&& forall|k: int| 0 <= k < v.len() ==> #[trigger] v[k]@ == add4(c, offs[k])
}

pub open spec fn max_int(a: int, b: int) -> int {
    if a >= b { a } else { b }
}

pub open spec fn min_int(a: int, b: int) -> int {
    if a <= b { a } else { b }
}

/// The offsets that the range scan visits at fixed `x` and `y`, for `z` from
/// `lo` to `hi`; `w` makes up the zero sum.
pub open spec fn range_z(x: int, y: int, lo: int, hi: int) -> Seq<Quad>
    decreases hi - lo + 1,
{
    if hi < lo {
        seq![]
    } else {
        range_z(x, y, lo, hi - 1).push((-x - y - hi, x, y, hi))
    }
}

/// The offsets that the range scan of radius `r` visits at fixed `x`, for `y`
/// from `lo` to `hi`.
pub open spec fn range_y(r: int, x: int, lo: int, hi: int) -> Seq<Quad>
    decreases hi - lo + 1,
{
    if hi < lo {
        seq![]
    } else {
        range_y(r, x, lo, hi - 1) + range_z(
            x,
            hi,
            max_int(-r, -x - hi - r),
            min_int(r, -x - hi + r),
        )
    }
}

/// The offsets that the range scan of radius `r` visits for `x` from `lo` to
/// `hi`.
pub open spec fn range_x(r: int, lo: int, hi: int) -> Seq<Quad>
    decreases hi - lo + 1,
{
    if hi < lo {
        seq![]
    } else {
        range_x(r, lo, hi - 1) + range_y(r, hi, max_int(-r, -hi - r), min_int(r, -hi + r))
    }
}

/// Every offset that the range scan of radius `r` visits, in order: `x` from
/// `-r` to `r`, then `y` and `z` within the bounds of a six-neighbour grid.
pub open spec fn range_offsets(r: int) -> Seq<Quad> {
    range_x(r, -r, r)
}

/// The step from `f` to `t` undoes the step from `t` to `f`: the
/// displacement table is antisymmetric.
pub proof fn lemma_displacement_antisymmetric(f: RDir, t: RDir)
    requires
        f != t,
    ensures
        displacement(f, t) == neg4(displacement(t, f)),
{
}

/// A cell has exactly twelve neighbours; they are pairwise distinct cells,
/// each one step away.
pub proof fn lemma_neighbors(c: Quad)
    requires
        valid(c),
    ensures
        neighbors_spec(c).len() == 12,
        forall|i: int|
            0 <= i < 12 ==> valid(#[trigger] neighbors_spec(c)[i]) && distance_spec(
                c,
                neighbors_spec(c)[i],
            ) == 1,
        forall|i: int, j: int|
            0 <= i < 12 && 0 <= j < 12 && i != j ==> #[trigger] neighbors_spec(c)[i]
                != #[trigger] neighbors_spec(c)[j],
{
    let n = neighbors_spec(c);
    assert(neighbor_dirs().len() == 12);
    assert forall|i: int| 0 <= i < 12 implies valid(#[trigger] n[i]) && distance_spec(c, n[i])
        == 1 by {
        let p = neighbor_dirs()[i];
        assert(p.0 != p.1);
        assert(n[i] == add4(c, displacement(p.0, p.1)));
    }
    assert forall|i: int, j: int|
        0 <= i < 12 && 0 <= j < 12 && i != j implies #[trigger] n[i] != #[trigger] n[j] by {
        let p = neighbor_dirs()[i];
        let q = neighbor_dirs()[j];
        assert(p != q);
        assert(n[i] == add4(c, displacement(p.0, p.1)));
        assert(n[j] == add4(c, displacement(q.0, q.1)));
    }
}

/// A cell is at distance zero from itself.
pub proof fn lemma_distance_zero(a: Quad)
    ensures
        distance_spec(a, a) == 0,
{
}

/// Distance does not depend on the order of its arguments.
pub proof fn lemma_distance_symmetric(a: Quad, b: Quad)
    ensures
        distance_spec(a, b) == distance_spec(b, a),
{
}

/// Moving from `f` to `t` and then from `t` to `f` returns to the start.
pub proof fn lemma_move_round_trip(c: Quad, f: RDir, t: RDir)
    requires
        f != t,
    ensures
        add4(add4(c, displacement(f, t)), displacement(t, f)) == c,
{
}

impl RDir {
    /// The displacement for one step from axis `f` to axis `t`, refused when
    /// the two are the same axis.
    pub fn from_to(f: RDir, t: RDir) -> (r: Result<[i32; 4], CoordError>)
        ensures
            f == t <==> r is Err,
            r matches Err(e) ==> e == CoordError::InvalidDirectionPair,
            r matches Ok(a) ==> quad_of(a) == displacement(f, t),
    {
        if f == t {
            Err(CoordError::InvalidDirectionPair)
        } else {
            Ok(RDir::delta(f, t))
        }
    }

    /// The step that `t` takes over `f`; the two axes must differ.
    fn delta(f: RDir, t: RDir) -> (r: [i32; 4])
        requires
            f != t,
        ensures
            quad_of(r) == displacement(f, t),
    {
        let mut a: [i32; 4] = [0, 0, 0, 0];
        match f {
            RDir::W => a[0] = -1,
            RDir::X => a[1] = -1,
            RDir::Y => a[2] = -1,
            RDir::Z => a[3] = -1,
        }
        match t {
            RDir::W => a[0] = 1,
            RDir::X => a[1] = 1,
            RDir::Y => a[2] = 1,
            RDir::Z => a[3] = 1,
        }
        a
    }
}

/// A cell of the grid. Its components always sum to zero.
#[derive(Clone, Copy, Debug, PartialEq, Eq)]
pub struct RCoord {
    w: i32,
    x: i32,
    y: i32,
    z: i32,
}

impl View for RCoord {
    type V = Quad;

    closed spec fn view(&self) -> Quad {
        (self.w as int, self.x as int, self.y as int, self.z as int)
    }
}

impl RCoord {
    #[verifier::type_invariant]
    spec fn zero_sum(self) -> bool {
        self.w + self.x + self.y + self.z == 0
    }

    /// Tests the grid's constraint on four components.
    pub fn check(a: &[i32; 4]) -> (r: Result<(), CoordError>)
        ensures
            r is Ok <==> valid(quad_of(*a)),
            r matches Err(e) ==> e == CoordError::InvariantViolation(*a),
    {
        let total: i64 = a[0] as i64 + a[1] as i64 + a[2] as i64 + a[3] as i64;
        if total != 0 {
            Err(CoordError::InvariantViolation(*a))
        } else {
            Ok(())
        }
    }

    /// Builds the cell `(w, x, y, z)` from `[w, x, y, z]`, refused unless the
    /// components sum to zero.
    pub fn from(a: [i32; 4]) -> (r: Result<RCoord, CoordError>)
        ensures
            r is Ok <==> valid(quad_of(a)),
            r matches Ok(c) ==> c@ == quad_of(a),
            r matches Err(e) ==> e == CoordError::InvariantViolation(a),
    {
        match RCoord::check(&a) {
            Ok(()) => Ok(RCoord { w: a[0], x: a[1], y: a[2], z: a[3] }),
            Err(e) => Err(e),
        }
    }

    /// The components as `[w, x, y, z]`.
    pub fn coord(&self) -> (r: [i32; 4])
        ensures
            quad_of(r) == self@,
            valid(quad_of(r)),
    {
        proof {
            use_type_invariant(self);
        }
        [self.w, self.x, self.y, self.z]
    }

    /// The componentwise sum of this cell and `a`, refused unless the result
    /// is a cell, that is unless `a` sums to zero.
    pub fn add_from(&self, a: [i32; 4]) -> (r: Result<RCoord, CoordError>)
        requires
            fits(add4(self@, quad_of(a))),
        ensures
            r is Ok <==> valid(quad_of(a)),
            r matches Ok(c) ==> c@ == add4(self@, quad_of(a)),
            r matches Err(e) ==> violation_of(e, add4(self@, quad_of(a))),
    {
        proof {
            use_type_invariant(self);
        }
        RCoord::from([self.w + a[0], self.x + a[1], self.y + a[2], self.z + a[3]])
    }

    /// The componentwise sum of two cells.
    pub fn add(&self, rc: &RCoord) -> (r: RCoord)
        requires
            fits(add4(self@, rc@)),
        ensures
            r@ == add4(self@, rc@),
    {
        proof {
            use_type_invariant(self);
            use_type_invariant(rc);
        }
        RCoord { w: self.w + rc.w, x: self.x + rc.x, y: self.y + rc.y, z: self.z + rc.z }
    }

    /// The componentwise negation of this cell.
    pub fn neg(&self) -> (r: RCoord)
        requires
            fits(neg4(self@)),
        ensures
            r@ == neg4(self@),
    {
        proof {
            use_type_invariant(self);
        }
        RCoord { w: -self.w, x: -self.x, y: -self.y, z: -self.z }
    }

    /// The absolute value of each component.
    pub fn abs(&self) -> (r: [i32; 4])
        requires
            fits(neg4(self@)),
        ensures
            quad_of(r) == abs4(self@),
    {
        [abs_i32(self.w), abs_i32(self.x), abs_i32(self.y), abs_i32(self.z)]
    }

    /// The neighbour one step from axis `f` to axis `t`, refused when the two
    /// are the same axis.
    pub fn get_from_to(&self, f: RDir, t: RDir) -> (r: Result<RCoord, CoordError>)
        requires
            f != t ==> fits(add4(self@, displacement(f, t))),
        ensures
            f == t <==> r is Err,
            r matches Err(e) ==> e == CoordError::InvalidDirectionPair,
            r matches Ok(c) ==> c@ == add4(self@, displacement(f, t)),
    {
        match RDir::from_to(f, t) {
            Ok(d) => self.add_from(d),
            Err(e) => Err(e),
        }
    }

    /// Moves this cell one step from axis `f` to axis `t`; refused, and the
    /// cell left as it was, when the two are the same axis.
    pub fn move_from_to(&mut self, f: RDir, t: RDir) -> (r: Result<(), CoordError>)
        requires
            f != t ==> fits(add4(old(self)@, displacement(f, t))),
        ensures
            f == t ==> r == Err::<(), CoordError>(CoordError::InvalidDirectionPair) && final(self)@
                == old(self)@,
            f != t ==> r is Ok && final(self)@ == add4(old(self)@, displacement(f, t)),
    {
        match self.get_from_to(f, t) {
            Ok(c) => {
                self.as_coord(&c);
                Ok(())
            },
            Err(e) => Err(e),
        }
    }

    /// The distance from this cell to `[w, x, y, z]`, refused unless the
    /// components sum to zero.
    pub fn distance_from(&self, a: [i32; 4]) -> (r: Result<i32, CoordError>)
        requires
            valid(quad_of(a)) ==> distance_spec(self@, quad_of(a)) <= i32::MAX,
        ensures
            r is Ok <==> valid(quad_of(a)),
            r matches Ok(d) ==> d == distance_spec(self@, quad_of(a)),
            r matches Err(e) ==> e == CoordError::InvariantViolation(a),
    {
        match RCoord::from(a) {
            Ok(c) => Ok(self.distance(&c)),
            Err(e) => Err(e),
        }
    }

    /// The number of single steps between this cell and `rc`.
    pub fn distance(&self, rc: &RCoord) -> (r: i32)
        requires
            distance_spec(self@, rc@) <= i32::MAX,
        ensures
            r == distance_spec(self@, rc@),
    {
        let total: i64 = abs_i64(self.w as i64 - rc.w as i64) + abs_i64(self.x as i64 - rc.x as i64)
            + abs_i64(self.y as i64 - rc.y as i64) + abs_i64(self.z as i64 - rc.z as i64);
        (total / 2) as i32
    }

    /// Sets this cell to `[w, x, y, z]`; refused, and the cell left as it
    /// was, unless the components sum to zero.
    pub fn as_coord_from(&mut self, a: [i32; 4]) -> (r: Result<(), CoordError>)
        ensures
            r is Ok <==> valid(quad_of(a)),
            r is Ok ==> final(self)@ == quad_of(a),
            r matches Err(e) ==> e == CoordError::InvariantViolation(a) && final(self)@ == old(
                self,
            )@,
    {
        match RCoord::from(a) {
            Ok(c) => {
                self.as_coord(&c);
                Ok(())
            },
            Err(e) => Err(e),
        }
    }

    /// The cell at `t = step / steps` on the way from this cell to `rc`: each
    /// component rounded to the nearest integer (halves away from zero), then
    /// repaired; refused when the repaired point still does not sum to zero.
    /// `t` is held as an exact fraction, so a half is always a half.
    pub fn lerp_to(&self, rc: &RCoord, step: i32, steps: i32) -> (r: Result<RCoord, CoordError>)
        requires
            0 <= step <= steps,
            0 < steps,
        ensures
            r is Ok <==> valid(lerp_spec(self@, rc@, step as int, steps as int)),
            r matches Ok(c) ==> c@ == lerp_spec(self@, rc@, step as int, steps as int),
            r matches Err(e) ==> violation_of(e, lerp_spec(self@, rc@, step as int, steps as int)),
    {
        let x: [i32; 4] = [
            lerp_component(self.w, rc.w, step, steps),
            lerp_component(self.x, rc.x, step, steps),
            lerp_component(self.y, rc.y, step, steps),
            lerp_component(self.z, rc.z, step, steps),
        ];
        let y = self.coord();
        RCoord::from(repair_sum(x, &y))
    }

    /// The cells on the line from this cell to `rc`, one for each step of the
    /// distance between them and one more; refused when a repaired point
    /// does not sum to zero, with the first such point.
    pub fn line_to(&self, rc: &RCoord) -> (r: Result<Vec<RCoord>, CoordError>)
        requires
            distance_spec(self@, rc@) < i32::MAX,
        ensures
            r is Ok <==> forall|i: int|
                0 <= i <= distance_spec(self@, rc@) ==> #[trigger] valid(
                    line_point(self@, rc@, i, distance_spec(self@, rc@)),
                ),
            r matches Ok(v) ==> {
                &&& v@.len() == distance_spec(self@, rc@) + 1
                &&& forall|i: int|
                    0 <= i < v@.len() ==> #[trigger] v@[i]@ == line_point(
                        self@,
                        rc@,
                        i,
                        distance_spec(self@, rc@),
                    )
                &&& v@[0]@ == self@
                &&& v@[v@.len() - 1]@ == rc@
            },
            r matches Err(e) ==> exists|i: int|
                {
                    &&& 0 <= i <= distance_spec(self@, rc@)
                    &&& forall|j: int|
                        0 <= j < i ==> #[trigger] valid(
                            line_point(self@, rc@, j, distance_spec(self@, rc@)),
                        )
                    &&& !valid(line_point(self@, rc@, i, distance_spec(self@, rc@)))
                    &&& violation_of(e, line_point(self@, rc@, i, distance_spec(self@, rc@)))
                },
    {
        proof {
            use_type_invariant(self);
            use_type_invariant(rc);
        }
        let distance = self.distance(rc);
        let ghost d = distance as int;
        let mut v: Vec<RCoord> = Vec::new();
        if distance == 0 {
            v.push(*self);
            return Ok(v);
        }
        proof {
            lemma_lerp_ends(self@, rc@, d);
        }
        let mut i: i32 = 0;
        while i <= distance
            invariant
                0 <= i <= distance + 1,
                distance < i32::MAX,
                d == distance_spec(self@, rc@),
                d == distance,
                0 < d,
                lerp_spec(self@, rc@, 0, d) == self@,
                lerp_spec(self@, rc@, d, d) == rc@,
                v@.len() == i,
                forall|j: int| 0 <= j < i ==> #[trigger] v@[j]@ == line_point(self@, rc@, j, d),
                forall|j: int| 0 <= j < i ==> #[trigger] valid(line_point(self@, rc@, j, d)),
            decreases distance + 1 - i,
        {
            match self.lerp_to(rc, i, distance) {
                Ok(c) => v.push(c),
                Err(e) => {
                    assert(!valid(line_point(self@, rc@, i as int, d)));
                    return Err(e);
                },
            }
            i += 1;
        }
        Ok(v)
    }

    /// The cells at offsets of at most `range` on each axis, visited in the
    /// order of a scan that bounds the offsets as a six-neighbour grid would.
    /// This scan is provisional: it does not yield exactly the cells within
    /// `range` steps of this one.
    pub fn get_in_range(&self, range: i32) -> (r: Vec<RCoord>)
        requires
            range < 0 || (fits(add4(self@, (range as int, range as int, range as int, range as int)))
                && fits(add4(self@, (-range, -range, -range, -range)))),
        ensures
            cells_at(r@, self@, range_offsets(range as int)),
    {
        proof {
            use_type_invariant(self);
        }
        let ghost c = self@;
        let ghost ri = range as int;
        let mut v: Vec<RCoord> = Vec::new();
        if range < 0 {
            return v;
        }
        let r: i64 = range as i64;
        let mut x: i64 = -r;
        while x <= r
            invariant
                0 <= ri == r,
                -r <= x <= r + 1,
                c == self@,
                fits(add4(c, (ri, ri, ri, ri))) && fits(add4(c, (-ri, -ri, -ri, -ri))),
                cells_at(v@, c, range_x(ri, -ri, x - 1)),
            decreases r + 1 - x,
        {
            let y_lo: i64 = if -r >= -x - r { -r } else { -x - r };
            let y_hi: i64 = if r <= -x + r { r } else { -x + r };
            let ghost done_x = range_x(ri, -ri, x - 1);
            let mut y: i64 = y_lo;
            while y <= y_hi
                invariant
                    0 <= ri == r,
                    -r <= x <= r,
                    c == self@,
                    fits(add4(c, (ri, ri, ri, ri))) && fits(add4(c, (-ri, -ri, -ri, -ri))),
                    y_lo == max_int(-ri, -x - ri),
                    y_hi == min_int(ri, -x + ri),
                    y_lo <= y <= y_hi + 1,
                    done_x == range_x(ri, -ri, x - 1),
                    cells_at(v@, c, done_x + range_y(ri, x as int, y_lo as int, y - 1)),
                decreases y_hi + 1 - y,
            {
                let z_lo: i64 = if -r >= -x - y - r { -r } else { -x - y - r };
                let z_hi: i64 = if r <= -x - y + r { r } else { -x - y + r };
                let ghost done_y = done_x + range_y(ri, x as int, y_lo as int, y - 1);
                let mut z: i64 = z_lo;
                while z <= z_hi
                    invariant
                        0 <= ri == r,
                        -r <= x <= r,
                        y_lo <= y <= y_hi,
                        y_lo == max_int(-ri, -x - ri),
                        y_hi == min_int(ri, -x + ri),
                        c == self@,
                        fits(add4(c, (ri, ri, ri, ri))) && fits(add4(c, (-ri, -ri, -ri, -ri))),
                        z_lo == max_int(-ri, -x - y - ri),
                        z_hi == min_int(ri, -x - y + ri),
                        z_lo <= z <= z_hi + 1,
                        done_y == done_x + range_y(ri, x as int, y_lo as int, y - 1),
                        cells_at(v@, c, done_y + range_z(x as int, y as int, z_lo as int, z - 1)),
                    decreases z_hi + 1 - z,
                {
                    let w: i64 = -x - y - z;
                    let offset = RCoord { w: w as i32, x: x as i32, y: y as i32, z: z as i32 };
                    let cell = self.add(&offset);
                    let ghost before = done_y + range_z(x as int, y as int, z_lo as int, z - 1);
                    v.push(cell);
                    proof {
                        assert(done_y + range_z(x as int, y as int, z_lo as int, z as int) =~= before.push(
                            (w as int, x as int, y as int, z as int),
                        ));
                    }
                    z += 1;
                }
                proof {
                    assert(done_x + range_y(ri, x as int, y_lo as int, y as int) =~= done_y
                        + range_z(x as int, y as int, z_lo as int, z_hi as int));
                }
                y += 1;
            }
            x += 1;
        }
        v
    }

    /// The cell one step from axis `f` to axis `t`; the two axes differ.
    fn step(&self, f: RDir, t: RDir) -> (r: RCoord)
        requires
            f != t,
            interior(self@),
        ensures
            r@ == add4(self@, displacement(f, t)),
    {
        proof {
            use_type_invariant(self);
        }
        let d = RDir::delta(f, t);
        RCoord { w: self.w + d[0], x: self.x + d[1], y: self.y + d[2], z: self.z + d[3] }
    }

    /// The twelve neighbours of this cell, in the order `W→X, W→Y, W→Z, X→W,
    /// X→Y, X→Z, Y→W, Y→X, Y→Z, Z→W, Z→X, Z→Y`.
    pub fn get_all_adjacent(&self) -> (r: [RCoord; 12])
        requires
            interior(self@),
        ensures
            forall|k: int| 0 <= k < 12 ==> #[trigger] r[k]@ == neighbors_spec(self@)[k],
    {
        let r = [
            self.step(RDir::W, RDir::X),
            self.step(RDir::W, RDir::Y),
            self.step(RDir::W, RDir::Z),
            self.step(RDir::X, RDir::W),
            self.step(RDir::X, RDir::Y),
            self.step(RDir::X, RDir::Z),
            self.step(RDir::Y, RDir::W),
            self.step(RDir::Y, RDir::X),
            self.step(RDir::Y, RDir::Z),
            self.step(RDir::Z, RDir::W),
            self.step(RDir::Z, RDir::X),
            self.step(RDir::Z, RDir::Y),
        ];
        assert forall|k: int| 0 <= k < 12 implies #[trigger] r[k]@ == neighbors_spec(self@)[k] by {
            assert(0 <= k < neighbor_dirs().len());
        }
        r
    }

    /// Sets this cell to `rc`.
    pub fn as_coord(&mut self, rc: &RCoord)
        ensures
            final(self)@ == rc@,
    {
        *self = *rc;
    }
}

/// One component of the point at `t = i / n` between `a` and `b`, rounded.
fn lerp_component(a: i32, b: i32, i: i32, n: i32) -> (r: i32)
    requires
        0 <= i <= n,
        0 < n,
    ensures
        r == lerp_round(a as int, b as int, i as int, n as int),
{
    proof {
        lemma_lerp_round_between(a as int, b as int, i as int, n as int);
        assert(-0x1_0000_0000 * 0x8000_0000 < (b - a) * i < 0x1_0000_0000 * 0x8000_0000)
            by (nonlinear_arith)
            requires
                -0x1_0000_0000 < b - a < 0x1_0000_0000,
                0 <= i < 0x8000_0000,
        ;
        assert(-0x8000_0000 * 0x8000_0000 <= a * n <= 0x8000_0000 * 0x8000_0000)
            by (nonlinear_arith)
            requires
                -0x8000_0000 <= a < 0x8000_0000,
                0 < n < 0x8000_0000,
        ;
    }
    let num: i128 = a as i128 * n as i128 + (b as i128 - a as i128) * i as i128;
    assert(num == a * n + (b - a) * i);
    assert(-0x1_0000_0000_0000_0000 < num < 0x1_0000_0000_0000_0000);
    let den: i128 = 2 * n as i128;
    let q: i128 = if num >= 0 {
        (2 * num + n as i128) / den
    } else {
        -((n as i128 - 2 * num) / den)
    };
    assert(q == round_div(a * n + (b - a) * i, n as int));
    q as i32
}

/// One unit from `v` towards `target`.
fn step_toward_i32(v: i32, target: i32) -> (r: i32)
    ensures
        r == step_toward(v as int, target as int),
{
    if v < target {
        v + 1
    } else if v > target {
        v - 1
    } else {
        v
    }
}

/// The invariant repair that follows rounding: where `x` does not sum to
/// zero, scan the adjacent pairs from the left and, at the first pair of equal
/// components, move the left one a unit towards the same component of `a`.
fn repair_sum(x: [i32; 4], a: &[i32; 4]) -> (r: [i32; 4])
    ensures
        quad_of(r) == repair(quad_of(x), quad_of(*a)),
{
    let mut r = x;
    let total: i64 = x[0] as i64 + x[1] as i64 + x[2] as i64 + x[3] as i64;
    if total != 0 {
        let mut i: usize = 0;
        while i < 3
            invariant_except_break
                r == x,
            invariant
                0 <= i <= 3,
                forall|j: int| 0 <= j < i ==> #[trigger] x[j] != x[j + 1],
            ensures
                forall|j: int| 0 <= j < i ==> #[trigger] x[j] != x[j + 1],
                (i == 3 && r == x) || (i < 3 && x[i as int] == x[i + 1] && r@ == x@.update(
                    i as int,
                    step_toward(x[i as int] as int, a[i as int] as int) as i32,
                )),
            decreases 3 - i,
        {
            if r[i] == r[i + 1] {
                r[i] = step_toward_i32(r[i], a[i]);
                break;
            }
            i += 1;
        }
        if i == 0 {
            assert(quad_of(r) == (step_toward(x[0] as int, a[0] as int), x[1] as int, x[2] as int, x[3] as int));
        } else if i == 1 {
            assert(x[0] != x[1]);
            assert(quad_of(r) == (x[0] as int, step_toward(x[1] as int, a[1] as int), x[2] as int, x[3] as int));
        } else if i == 2 {
            assert(x[0] != x[1] && x[1] != x[2]);
            assert(quad_of(r) == (x[0] as int, x[1] as int, step_toward(x[2] as int, a[2] as int), x[3] as int));
        } else {
            assert(x[0] != x[1] && x[1] != x[2] && x[2] != x[3]);
        }
    }
    r
}

fn abs_i32(v: i32) -> (r: i32)
    requires
        v != i32::MIN,
    ensures
        r == abs(v as int),
{
    if v < 0 { -v } else { v }
}

fn abs_i64(v: i64) -> (r: i64)
    requires
        v != i64::MIN,
    ensures
        r == abs(v as int),
{
    if v < 0 { -v } else { v }
}

} // verus!
