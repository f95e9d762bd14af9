//! Fixed-point geometry on the tile map: positions, the ray march, and distances.
//!
//! A position is a pair of `i64` in units of `1 / ONE` tile. A ray advances by a
//! direction vector whose length is `DIR_ONE` units, that is `1 / PRECISION` tile.
use crate::tilemap::{lemma_valid_map_facts, rows_view, valid_map, MAX_MAP_DIM};
use vstd::arithmetic::div_mod::{lemma_fundamental_div_mod, lemma_fundamental_div_mod_converse};
use vstd::prelude::*;

verus! {

/// Fixed-point units per tile.
pub const ONE: i64 = 1048576;

/// Ray steps per tile.
pub const PRECISION: i64 = 64;

/// Length of a unit direction vector, in fixed-point units: one ray step.
pub const DIR_ONE: i64 = 16384;

/// Lower bound on the larger component of a unit direction vector (`DIR_ONE / sqrt 2`,
/// rounded down).
pub const DIR_MIN: i64 = 11585;

pub open spec fn abs(v: int) -> int {
    if v < 0 {
        -v
    } else {
        v
    }
}

/// The larger of the two components of a direction, in absolute value.
pub open spec fn dominant(dx: int, dy: int) -> int {
    if abs(dx) < abs(dy) {
        abs(dy)
    } else {
        abs(dx)
    }
}

/// A ray step: no component longer than one step, and not the null vector.
pub open spec fn step_ok(dx: int, dy: int) -> bool {
    abs(dx) <= DIR_ONE && abs(dy) <= DIR_ONE && dominant(dx, dy) > 0
}

pub open spec fn map_width(m: Seq<Seq<i32>>) -> int {
    m[0].len() as int
}

pub open spec fn map_height(m: Seq<Seq<i32>>) -> int {
    m.len() as int
}

/// The point lies on the map.
pub open spec fn in_grid(m: Seq<Seq<i32>>, px: int, py: int) -> bool {
    0 <= px < map_width(m) * ONE && 0 <= py < map_height(m) * ONE
}

/// The point lies strictly inside the border ring.
pub open spec fn interior(m: Seq<Seq<i32>>, px: int, py: int) -> bool {
    ONE <= px < (map_width(m) - 1) * ONE && ONE <= py < (map_height(m) - 1) * ONE
}

/// The tile under a point of the map.
pub open spec fn tile_at(m: Seq<Seq<i32>>, px: int, py: int) -> i32 {
    m[py / ONE as int][px / ONE as int]
}

/// Every point of the ray after steps `1 ..= k` lies on open floor.
pub open spec fn clear_through(m: Seq<Seq<i32>>, x: int, y: int, dx: int, dy: int, k: int) -> bool
    decreases k,
{
    if k <= 0 {
        true
    } else {
        &&& clear_through(m, x, y, dx, dy, k - 1)
        &&& in_grid(m, x + k * dx, y + k * dy)
        &&& tile_at(m, x + k * dx, y + k * dy) == 0
    }
}

/// Step `k` is the first at which the ray from `(x, y)` lands on a wall.
pub open spec fn first_hit(m: Seq<Seq<i32>>, x: int, y: int, dx: int, dy: int, k: int) -> bool {
    &&& k >= 1
    &&& clear_through(m, x, y, dx, dy, k - 1)
    &&& in_grid(m, x + k * dx, y + k * dy)
    &&& tile_at(m, x + k * dx, y + k * dy) != 0
}

/// Most steps a ray can take before its larger component has crossed the map.
pub open spec fn step_bound(m: Seq<Seq<i32>>, dx: int, dy: int) -> int {
    let side = if map_width(m) < map_height(m) {
        map_height(m)
    } else {
        map_width(m)
    };
    side * ONE / dominant(dx, dy)
}

/// On a valid map an open tile is never on the border, so a point on open floor
/// lies inside the border ring.
pub proof fn lemma_open_is_interior(m: Seq<Seq<i32>>, px: int, py: int)
    requires
        valid_map(m),
        in_grid(m, px, py),
        tile_at(m, px, py) == 0,
    ensures
        interior(m, px, py),
{
    let c = px / ONE as int;
    let r = py / ONE as int;
    lemma_valid_map_facts(m);
    lemma_fundamental_div_mod(px, ONE as int);
    lemma_fundamental_div_mod(py, ONE as int);
    assert(0 <= c < map_width(m)) by (nonlinear_arith)
        requires
            px == ONE * c + px % (ONE as int),
            0 <= px % (ONE as int) < ONE,
            0 <= px < map_width(m) * ONE,
    ;
    assert(0 <= r < map_height(m)) by (nonlinear_arith)
        requires
            py == ONE * r + py % (ONE as int),
            0 <= py % (ONE as int) < ONE,
            0 <= py < map_height(m) * ONE,
    ;
    assert(m[r].len() == m[0].len());
    assert(m[r][0] != 0 && m[r][map_width(m) - 1] != 0);
    assert(m[0][c] != 0 && m[map_height(m) - 1][c] != 0);
    assert(1 <= c <= map_width(m) - 2);
    assert(1 <= r <= map_height(m) - 2);
    assert(ONE <= px < (map_width(m) - 1) * ONE) by (nonlinear_arith)
        requires
            px == ONE * c + px % (ONE as int),
            0 <= px % (ONE as int) < ONE,
            1 <= c <= map_width(m) - 2,
    ;
    assert(ONE <= py < (map_height(m) - 1) * ONE) by (nonlinear_arith)
        requires
            py == ONE * r + py % (ONE as int),
            0 <= py % (ONE as int) < ONE,
            1 <= r <= map_height(m) - 2,
    ;
}

/// A point on the map lies in a tile of the grid.
pub proof fn lemma_tile_index(m: Seq<Seq<i32>>, px: int, py: int)
    requires
        in_grid(m, px, py),
    ensures
        0 <= py / (ONE as int) < map_height(m),
        0 <= px / (ONE as int) < map_width(m),
{
    let o = ONE as int;
    lemma_fundamental_div_mod(px, o);
    lemma_fundamental_div_mod(py, o);
    assert(0 <= px / o < map_width(m)) by (nonlinear_arith)
        requires
            px == o * (px / o) + px % o,
            0 <= px % o < o,
            0 <= px < map_width(m) * o,
    ;
    assert(0 <= py / o < map_height(m)) by (nonlinear_arith)
        requires
            py == o * (py / o) + py % o,
            0 <= py % o < o,
            0 <= py < map_height(m) * o,
    ;
}

/// While a ray from inside the border has met only open floor, its next point is
/// still on the map, and it has not yet used up `step_bound` steps.
pub proof fn lemma_march_step(m: Seq<Seq<i32>>, x: int, y: int, dx: int, dy: int, k: int)
    requires
        valid_map(m),
        interior(m, x, y),
        step_ok(dx, dy),
        k >= 0,
        clear_through(m, x, y, dx, dy, k),
    ensures
        in_grid(m, x + (k + 1) * dx, y + (k + 1) * dy),
        k + 1 <= step_bound(m, dx, dy),
        interior(m, x + k * dx, y + k * dy),
{
    if k >= 1 {
        assert(tile_at(m, x + k * dx, y + k * dy) == 0);
        lemma_open_is_interior(m, x + k * dx, y + k * dy);
    } else {
        assert(x + k * dx == x && y + k * dy == y);
    }
    assert((k + 1) * dx == k * dx + dx && (k + 1) * dy == k * dy + dy) by (nonlinear_arith);
    let d = dominant(dx, dy);
    let side = if map_width(m) < map_height(m) {
        map_height(m)
    } else {
        map_width(m)
    };
    let w = map_width(m);
    let h = map_height(m);
    let px = x + k * dx;
    let py = y + k * dy;
    assert((k + 1) * d <= side * ONE) by {
        if abs(dx) >= abs(dy) {
            assert(k * d == abs(k * dx)) by (nonlinear_arith)
                requires
                    d == abs(dx),
                    k >= 0,
            ;
            assert(k * d < (w - 2) * ONE);
        } else {
            assert(k * d == abs(k * dy)) by (nonlinear_arith)
                requires
                    d == abs(dy),
                    k >= 0,
            ;
            assert(k * d < (h - 2) * ONE);
        }
        assert((k + 1) * d == k * d + d) by (nonlinear_arith);
    }
    vstd::arithmetic::div_mod::lemma_fundamental_div_mod(side * ONE, d);
    assert(k + 1 <= side * ONE / d) by (nonlinear_arith)
        requires
            (k + 1) * d <= side * ONE,
            side * ONE == d * (side * ONE / d) + (side * ONE) % d,
            0 <= (side * ONE) % d < d,
            d > 0,
    ;
}

/// A ray cast from inside the border of a valid map meets a wall within
/// `step_bound` steps: the map width or height, whichever is larger, in units of
/// the ray's larger step component.
pub proof fn lemma_march_terminates(m: Seq<Seq<i32>>, x: int, y: int, dx: int, dy: int)
    requires
        valid_map(m),
        interior(m, x, y),
        step_ok(dx, dy),
    ensures
        exists|k: int| 1 <= k <= step_bound(m, dx, dy) && #[trigger] first_hit(m, x, y, dx, dy, k),
{
    lemma_march_from(m, x, y, dx, dy, 0);
}

proof fn lemma_march_from(m: Seq<Seq<i32>>, x: int, y: int, dx: int, dy: int, k: int)
    requires
        valid_map(m),
        interior(m, x, y),
        step_ok(dx, dy),
        k >= 0,
        clear_through(m, x, y, dx, dy, k),
    ensures
        exists|j: int| k < j <= step_bound(m, dx, dy) && #[trigger] first_hit(m, x, y, dx, dy, j),
    decreases step_bound(m, dx, dy) - k,
{
    lemma_march_step(m, x, y, dx, dy, k);
    if tile_at(m, x + (k + 1) * dx, y + (k + 1) * dy) != 0 {
        assert(first_hit(m, x, y, dx, dy, k + 1));
    } else {
        let k1 = k + 1;
        assert(clear_through(m, x, y, dx, dy, k1));
        lemma_march_from(m, x, y, dx, dy, k1);
    }
}

/// A ray whose step is a whole `1 / PRECISION` tile along its larger component
/// meets a wall within `PRECISION * max(width, height)` steps.
pub proof fn lemma_march_within_precision(m: Seq<Seq<i32>>, x: int, y: int, dx: int, dy: int)
    requires
        valid_map(m),
        interior(m, x, y),
        step_ok(dx, dy),
        dominant(dx, dy) == DIR_ONE,
    ensures
        exists|k: int|
            1 <= k <= PRECISION * (if map_width(m) < map_height(m) {
                map_height(m)
            } else {
                map_width(m)
            }) && #[trigger] first_hit(m, x, y, dx, dy, k),
{
    lemma_march_terminates(m, x, y, dx, dy);
    let side = if map_width(m) < map_height(m) {
        map_height(m)
    } else {
        map_width(m)
    };
    assert(side * ONE / (DIR_ONE as int) == PRECISION * side) by {
        lemma_fundamental_div_mod_converse(side * ONE, DIR_ONE as int, PRECISION * side, 0);
    }
}

/// `r` is the integer square root of `n`.
pub open spec fn is_sqrt(n: int, r: int) -> bool {
    0 <= r && r * r <= n < (r + 1) * (r + 1)
}

/// The integer square root of `n`.
pub open spec fn sqrt_floor(n: int) -> int {
    choose|r: int| is_sqrt(n, r)
}

/// `ex * ex + ey * ey`, for components no longer than the largest map.
fn squared_length(ex: i64, ey: i64) -> (r: u64)
    requires
        abs(ex as int) <= 1024 * ONE,
        abs(ey as int) <= 1024 * ONE,
    ensures
        r == ex * ex + ey * ey,
        r <= 2305843009213693952,
{
    let ax: u64 = if ex < 0 { (-ex) as u64 } else { ex as u64 };
    let ay: u64 = if ey < 0 { (-ey) as u64 } else { ey as u64 };
    assert(ax * ax == ex * ex && ax * ax <= 1152921504606846976) by (nonlinear_arith)
        requires
            ax == abs(ex as int),
            ax <= 1073741824,
    ;
    assert(ay * ay == ey * ey && ay * ay <= 1152921504606846976) by (nonlinear_arith)
        requires
            ay == abs(ey as int),
            ay <= 1073741824,
    ;
    ax * ax + ay * ay
}

/// The integer square root is unique.
pub proof fn lemma_sqrt_unique(n: int, r1: int, r2: int)
    requires
        is_sqrt(n, r1),
        is_sqrt(n, r2),
    ensures
        r1 == r2,
{
    if r1 < r2 {
        assert((r1 + 1) * (r1 + 1) <= r2 * r2) by (nonlinear_arith)
            requires
                0 <= r1 + 1 <= r2,
        ;
    } else if r2 < r1 {
        assert((r2 + 1) * (r2 + 1) <= r1 * r1) by (nonlinear_arith)
            requires
                0 <= r2 + 1 <= r1,
        ;
    }
}

/// Every natural number has an integer square root.
pub proof fn lemma_sqrt_exists(n: int)
    requires
        0 <= n,
    ensures
        is_sqrt(n, sqrt_floor(n)),
    decreases n,
{
    if n == 0 {
        assert(is_sqrt(0, 0));
    } else {
        lemma_sqrt_exists(n - 1);
        let r = sqrt_floor(n - 1);
        if (r + 1) * (r + 1) <= n {
            assert(n < (r + 2) * (r + 2)) by (nonlinear_arith)
                requires
                    n - 1 < (r + 1) * (r + 1),
                    0 <= r,
            ;
            assert(is_sqrt(n, r + 1));
        } else {
            assert(is_sqrt(n, r));
        }
    }
}


/// A point of the map in fixed-point units.
#[derive(Debug, Clone, Copy, PartialEq, Eq, Structural)]
pub struct Point {
    pub x: i64,
    pub y: i64,
}

impl Point {
    /// Euclidean distance to `p`, rounded down.
    pub fn dist(&self, p: &Point) -> (r: i64)
        requires
            abs(self.x - p.x) <= 1024 * ONE,
            abs(self.y - p.y) <= 1024 * ONE,
        ensures
            r == sqrt_floor((self.x - p.x) * (self.x - p.x) + (self.y - p.y) * (self.y - p.y)),
            is_sqrt((self.x - p.x) * (self.x - p.x) + (self.y - p.y) * (self.y - p.y), r as int),
            0 <= r <= 2 * 1024 * ONE,
    {
        let d = self.sub(*p);
        let sq: u64 = squared_length(d.x, d.y);
        let r: u64 = isqrt(sq);
        proof {
            assert(is_sqrt(sq as int, r as int));
            lemma_sqrt_unique(sq as int, r as int, sqrt_floor(sq as int));
            assert(r <= 2 * 1024 * ONE) by (nonlinear_arith)
                requires
                    r * r <= sq,
                    sq <= 2305843009213693952,
                    0 <= r,
            ;
        }
        r as i64
    }

    /// The point moved by `p`.
    pub fn add(&self, p: Point) -> (r: Point)
        requires
            i64::MIN <= self.x + p.x <= i64::MAX,
            i64::MIN <= self.y + p.y <= i64::MAX,
        ensures
            r.x == self.x + p.x,
            r.y == self.y + p.y,
    {
        Point { x: self.x + p.x, y: self.y + p.y }
    }

    /// The point moved by minus `p`.
    pub fn sub(&self, p: Point) -> (r: Point)
        requires
            i64::MIN <= self.x - p.x <= i64::MAX,
            i64::MIN <= self.y - p.y <= i64::MAX,
        ensures
            r.x == self.x - p.x,
            r.y == self.y - p.y,
    {
        Point { x: self.x - p.x, y: self.y - p.y }
    }

    /// Column and row of the tile that holds the point.
    pub fn floor(&self) -> (r: (usize, usize))
        requires
            0 <= self.x <= usize::MAX,
            0 <= self.y <= usize::MAX,
        ensures
            r.0 == (self.x as int) / (ONE as int),
            r.1 == (self.y as int) / (ONE as int),
    {
        (((self.x as u64) / (ONE as u64)) as usize, ((self.y as u64) / (ONE as u64)) as usize)
    }
}

/// Where a ray stopped: the point it reached, after how many steps, and the wall
/// tile found there.
#[derive(Debug, Clone, Copy, PartialEq, Eq, Structural)]
pub struct RayHit {
    pub x: i64,
    pub y: i64,
    pub steps: u64,
    pub tile: i32,
}

/// Advances a ray from `(x, y)` by `(dx, dy)` per step until it lands on a wall.
pub fn march(map: &Vec<Vec<i32>>, x: i64, y: i64, dx: i64, dy: i64) -> (r: RayHit)
    requires
        valid_map(rows_view(map@)),
        interior(rows_view(map@), x as int, y as int),
        step_ok(dx as int, dy as int),
    ensures
        first_hit(rows_view(map@), x as int, y as int, dx as int, dy as int, r.steps as int),
        r.steps <= step_bound(rows_view(map@), dx as int, dy as int),
        r.x == x + r.steps * dx,
        r.y == y + r.steps * dy,
        r.tile == tile_at(rows_view(map@), r.x as int, r.y as int),
{
    let ghost m = rows_view(map@);
    proof {
        lemma_valid_map_facts(m);
    }
    let mut k: u64 = 0;
    let mut px: i64 = x;
    let mut py: i64 = y;
    let mut tile: i32 = 0;
    while tile == 0
        invariant
            m == rows_view(map@),
            valid_map(m),
            interior(m, x as int, y as int),
            step_ok(dx as int, dy as int),
            forall|r: int| 0 <= r < m.len() ==> (#[trigger] m[r]).len() == m[0].len(),
            px == x + k * dx,
            py == y + k * dy,
            k <= step_bound(m, dx as int, dy as int),
            tile == 0 ==> clear_through(m, x as int, y as int, dx as int, dy as int, k as int),
            tile != 0 ==> first_hit(m, x as int, y as int, dx as int, dy as int, k as int),
            tile != 0 ==> tile == tile_at(m, px as int, py as int),
        decreases step_bound(m, dx as int, dy as int) - k,
    {
        proof {
            lemma_march_step(m, x as int, y as int, dx as int, dy as int, k as int);
            assert((k + 1) * dx == k * dx + dx && (k + 1) * dy == k * dy + dy) by (nonlinear_arith);
            assert(step_bound(m, dx as int, dy as int) <= MAX_MAP_DIM * ONE) by {
                let side = if map_width(m) < map_height(m) {
                    map_height(m)
                } else {
                    map_width(m)
                };
                vstd::arithmetic::div_mod::lemma_div_is_ordered_by_denominator(side * ONE, 1, dominant(dx as int, dy as int));
                assert(side * ONE <= MAX_MAP_DIM * ONE) by (nonlinear_arith)
                    requires
                        side <= MAX_MAP_DIM,
                ;
            }
        }
        px = px + dx;
        py = py + dy;
        k = k + 1;
        proof {
            assert(px < 1024 * ONE && py < 1024 * ONE) by (nonlinear_arith)
                requires
                    px < map_width(m) * ONE,
                    py < map_height(m) * ONE,
                    map_width(m) <= 1024,
                    map_height(m) <= 1024,
            ;
        }
        let (col, row) = Point { x: px, y: py }.floor();
        proof {
            lemma_fundamental_div_mod(px as int, ONE as int);
            lemma_fundamental_div_mod(py as int, ONE as int);
            assert(col < map_width(m)) by (nonlinear_arith)
                requires
                    px == ONE * col + (px as int) % (ONE as int),
                    0 <= (px as int) % (ONE as int),
                    px < map_width(m) * ONE,
            ;
            assert(row < map_height(m)) by (nonlinear_arith)
                requires
                    py == ONE * row + (py as int) % (ONE as int),
                    0 <= (py as int) % (ONE as int),
                    py < map_height(m) * ONE,
            ;
            assert(m[row as int] == map@[row as int]@);
        }
        tile = map[row][col];
    }
    RayHit { x: px, y: py, steps: k, tile }
}

/// The integer square root: the largest `r` with `r * r <= n`.
pub fn isqrt(n: u64) -> (r: u64)
    ensures
        r * r <= n < (r + 1) * (r + 1),
{
    let mut lo: u64 = 0;
    let mut hi: u64 = 4294967296;
    assert(n < hi * hi) by (nonlinear_arith)
        requires
            hi == 4294967296,
            n <= u64::MAX,
    ;
    while hi - lo > 1
        invariant
            lo < hi <= 4294967296,
            lo * lo <= n < hi * hi,
        decreases hi - lo,
    {
        let mid: u64 = lo + (hi - lo) / 2;
        assert(mid * mid <= u64::MAX) by (nonlinear_arith)
            requires
                mid < 4294967296,
        ;
        if mid * mid <= n {
            lo = mid;
        } else {
            hi = mid;
        }
    }
    assert(hi == lo + 1);
    lo
}

} // verus!
