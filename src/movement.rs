//! The player, turning, and movement with per-axis collision sliding.
use crate::geometry::{abs, in_grid, lemma_open_is_interior, tile_at, Point, DIR_ONE, ONE};
use crate::tilemap::{lemma_valid_map_facts, rows_view, valid_map};
use vstd::arithmetic::div_mod::{
    lemma_div_is_ordered,
    lemma_fundamental_div_mod,
    lemma_fundamental_div_mod_converse,
};
use vstd::prelude::*;

verus! {

/// Angle units in a full turn: a degree is 32 units.
pub const FULL_TURN: i64 = 11520;

/// Angle units per degree.
pub const UNITS_PER_DEGREE: i64 = 32;

/// Turn per tick while a turn is held: three degrees.
pub const PLAYER_ROTATION: i64 = 96;

/// A tick's displacement is the unit direction times `SPEED_NUM / SPEED_DEN`
/// (a tenth of a tile, since a unit direction is `1 / 64` tile long).
pub const SPEED_NUM: i64 = 32;

pub const SPEED_DEN: i64 = 5;

/// The collision probe sits this many displacements beyond the new position.
pub const PLAYER_RADIUS: i64 = 5;

/// Largest displacement component of one tick.
pub const MAX_STEP: i64 = 104858;

/// Position in fixed-point map units and heading in angle units.
#[derive(Debug, Clone, Copy, PartialEq, Eq, Structural)]
pub struct Player {
    pub pos: Point,
    pub angle: i64,
}

/// The player stands on open floor of the map with a normalised heading.
pub open spec fn player_ok(m: Seq<Seq<i32>>, p: Player) -> bool {
    &&& in_grid(m, p.pos.x as int, p.pos.y as int)
    &&& tile_at(m, p.pos.x as int, p.pos.y as int) == 0
    &&& 0 <= p.angle < FULL_TURN
}

/// A direction component scaled to one tick's displacement, rounded toward zero.
pub open spec fn speed_of(v: int) -> int {
    if v >= 0 {
        v * SPEED_NUM / (SPEED_DEN as int)
    } else {
        -((-v) * SPEED_NUM / (SPEED_DEN as int))
    }
}

/// The player after trying to move by `(mx, my)`. Each axis is committed on its
/// own: `y` when the tile in the probe's row, under the new `x`, is open; `x` when
/// the tile in the probe's column, under the new `y`, is open. The probe lies
/// `PLAYER_RADIUS` displacements beyond the new position.
pub open spec fn slide(m: Seq<Seq<i32>>, p: Player, mx: int, my: int) -> Player {
    let nx = p.pos.x + mx;
    let ny = p.pos.y + my;
    let cx = (nx + PLAYER_RADIUS * mx) / ONE as int;
    let cy = (ny + PLAYER_RADIUS * my) / ONE as int;
    Player {
        pos: Point {
            x: if m[ny / ONE as int][cx] == 0 {
                nx as i64
            } else {
                p.pos.x
            },
            y: if m[cy][nx / ONE as int] == 0 {
                ny as i64
            } else {
                p.pos.y
            },
        },
        angle: p.angle,
    }
}

/// The heading turned by `delta` units, kept in `[0, FULL_TURN)`.
pub open spec fn turned(p: Player, delta: int) -> Player {
    Player { angle: ((p.angle + delta) % (FULL_TURN as int)) as i64, ..p }
}

/// Of three points in order less than a tile apart, the middle one lies in the
/// tile of one of the other two, and those two tiles are at most one apart.
proof fn lemma_floor_between(a: int, b: int, c: int)
    requires
        0 <= a <= b <= c < a + ONE,
    ensures
        b / ONE as int == a / ONE as int || b / ONE as int == c / ONE as int,
        a / ONE as int <= c / ONE as int <= a / ONE as int + 1,
{
    let o = ONE as int;
    lemma_div_is_ordered(a, b, o);
    lemma_div_is_ordered(b, c, o);
    lemma_fundamental_div_mod(a, o);
    lemma_fundamental_div_mod(c, o);
    assert(c / o <= a / o + 1) by (nonlinear_arith)
        requires
            a == o * (a / o) + a % o,
            c == o * (c / o) + c % o,
            0 <= a % o < o,
            0 <= c % o < o,
            c < a + o,
            o > 0,
    ;
}

/// The tiles of a point and of a probe that lies on the same side, along one
/// axis, less than a tile away.
proof fn lemma_axis_tiles(o: int, n: int, q: int)
    requires
        0 <= o,
        0 <= q,
        (o <= n <= q && q < o + ONE) || (q <= n <= o && o < q + ONE),
    ensures
        n / ONE as int == o / ONE as int || n / ONE as int == q / ONE as int,
{
    if o <= n <= q && q < o + ONE {
        lemma_floor_between(o, n, q);
    } else {
        lemma_floor_between(q, n, o);
    }
}

/// Sliding keeps the player on open floor of the map.
pub proof fn lemma_slide_keeps_player_ok(m: Seq<Seq<i32>>, p: Player, mx: int, my: int)
    requires
        valid_map(m),
        player_ok(m, p),
        abs(mx) <= MAX_STEP,
        abs(my) <= MAX_STEP,
    ensures
        player_ok(m, slide(m, p, mx, my)),
{
    lemma_valid_map_facts(m);
    lemma_open_is_interior(m, p.pos.x as int, p.pos.y as int);
    let o = ONE as int;
    let nx = p.pos.x + mx;
    let ny = p.pos.y + my;
    let qx = nx + PLAYER_RADIUS * mx;
    let qy = ny + PLAYER_RADIUS * my;
    let ocol = (p.pos.x as int) / o;
    let orow = (p.pos.y as int) / o;
    let ncol = nx / o;
    let nrow = ny / o;
    let pcol = qx / o;
    let prow = qy / o;
    lemma_axis_tiles(p.pos.x as int, nx, qx);
    lemma_axis_tiles(p.pos.y as int, ny, qy);
    let r = slide(m, p, mx, my);
    let xc = m[nrow][pcol] == 0;
    let yc = m[prow][ncol] == 0;
    let fcol = if xc { ncol } else { ocol };
    let frow = if yc { nrow } else { orow };
    assert((r.pos.x as int) / o == fcol);
    assert((r.pos.y as int) / o == frow);
    assert(m[frow][fcol] == 0) by {
        if xc && yc {
            if nrow != prow && ncol != pcol {
                assert(nrow == orow && ncol == ocol);
            }
        } else if xc {
            if ncol != ocol {
                assert(ncol == pcol);
                if nrow != orow {
                    assert(nrow == prow);
                }
            }
        } else if yc {
            if nrow != orow {
                assert(nrow == prow);
                if ncol != ocol {
                    assert(ncol == pcol);
                }
            }
        }
    }
}

/// One tick's displacement along an axis, for a unit direction component `v`.
pub fn speed_component(v: i64) -> (r: i64)
    requires
        abs(v as int) <= DIR_ONE,
    ensures
        r == speed_of(v as int),
        abs(r as int) <= MAX_STEP,
{
    if v >= 0 {
        v * SPEED_NUM / SPEED_DEN
    } else {
        -((-v) * SPEED_NUM / SPEED_DEN)
    }
}

/// Tries to move the player by `(mx, my)`, sliding along walls as `slide` says.
pub fn move_player(map: &Vec<Vec<i32>>, p: Player, mx: i64, my: i64) -> (r: Player)
    requires
        valid_map(rows_view(map@)),
        player_ok(rows_view(map@), p),
        abs(mx as int) <= MAX_STEP,
        abs(my as int) <= MAX_STEP,
    ensures
        r == slide(rows_view(map@), p, mx as int, my as int),
        player_ok(rows_view(map@), r),
{
    let ghost m = rows_view(map@);
    proof {
        lemma_valid_map_facts(m);
        lemma_open_is_interior(m, p.pos.x as int, p.pos.y as int);
        lemma_slide_keeps_player_ok(m, p, mx as int, my as int);
    }
    let np: Point = p.pos.add(Point { x: mx, y: my });
    let probe: Point = np.add(Point { x: PLAYER_RADIUS * mx, y: PLAYER_RADIUS * my });
    let nx: i64 = np.x;
    let ny: i64 = np.y;
    let qx: i64 = probe.x;
    let qy: i64 = probe.y;
    proof {
        assert(p.pos.x < 1024 * ONE && p.pos.y < 1024 * ONE) by (nonlinear_arith)
            requires
                p.pos.x < m[0].len() * ONE,
                p.pos.y < m.len() * ONE,
                m[0].len() <= 1024,
                m.len() <= 1024,
        ;
    }
    let (ncol, nrow) = np.floor();
    let (pcol, prow) = probe.floor();
    proof {
        let o = ONE as int;
        lemma_axis_tiles(p.pos.x as int, nx as int, qx as int);
        lemma_axis_tiles(p.pos.y as int, ny as int, qy as int);
        lemma_fundamental_div_mod(p.pos.x as int, o);
        lemma_fundamental_div_mod(p.pos.y as int, o);
        assert((p.pos.x as int) / o < m[0].len() && (p.pos.y as int) / o < m.len()) by (nonlinear_arith)
            requires
                p.pos.x == o * ((p.pos.x as int) / o) + (p.pos.x as int) % o,
                p.pos.y == o * ((p.pos.y as int) / o) + (p.pos.y as int) % o,
                0 <= (p.pos.x as int) % o,
                0 <= (p.pos.y as int) % o,
                p.pos.x < m[0].len() * o,
                p.pos.y < m.len() * o,
                o > 0,
        ;
        assert(m[nrow as int] == map@[nrow as int]@);
        assert(m[prow as int] == map@[prow as int]@);
    }
    let x: i64 = if map[nrow][pcol] == 0 { nx } else { p.pos.x };
    let y: i64 = if map[prow][ncol] == 0 { ny } else { p.pos.y };
    Player { pos: Point { x, y }, angle: p.angle }
}

/// Turns the player by `delta` units, keeping the heading in `[0, FULL_TURN)`.
pub fn turn(p: Player, delta: i64) -> (r: Player)
    requires
        0 <= p.angle < FULL_TURN,
        -FULL_TURN <= delta <= FULL_TURN,
    ensures
        r == turned(p, delta as int),
        0 <= r.angle < FULL_TURN,
{
    let a: i64 = (p.angle + delta + FULL_TURN) % FULL_TURN;
    proof {
        vstd::arithmetic::div_mod::lemma_mod_add_multiples_vanish(p.angle + delta, FULL_TURN as int);
    }
    Player { angle: a, ..p }
}

/// A player at the centre of an open tile, heading along an axis, who moves
/// forward toward a wall under the collision probe stays where they are.
pub proof fn lemma_blocked_forward_stays(m: Seq<Seq<i32>>, tx: int, ty: int, dx: int, dy: int)
    requires
        valid_map(m),
        0 <= ty < m.len(),
        0 <= tx < m[0].len(),
        m[ty][tx] == 0,
        abs(dx) <= DIR_ONE,
        abs(dy) <= DIR_ONE,
        dx == 0 || dy == 0,
        ({
            let p = Player { pos: Point { x: (tx * ONE + ONE / 2) as i64, y: (ty * ONE + ONE / 2) as i64 }, angle: 0 };
            let mx = speed_of(dx);
            let my = speed_of(dy);
            tile_at(m, p.pos.x + mx + PLAYER_RADIUS * mx, p.pos.y + my + PLAYER_RADIUS * my) != 0
        }),
    ensures
        ({
            let p = Player { pos: Point { x: (tx * ONE + ONE / 2) as i64, y: (ty * ONE + ONE / 2) as i64 }, angle: 0 };
            slide(m, p, speed_of(dx), speed_of(dy)) == p
        }),
{
    lemma_valid_map_facts(m);
    let o = ONE as int;
    let px = tx * o + o / 2;
    let py = ty * o + o / 2;
    let mx = speed_of(dx);
    let my = speed_of(dy);
    assert(0 <= px < m[0].len() * o && 0 <= py < m.len() * o) by (nonlinear_arith)
        requires
            0 <= tx < m[0].len(),
            0 <= ty < m.len(),
            px == tx * o + o / 2,
            py == ty * o + o / 2,
            o == 1048576,
    ;
    lemma_fundamental_div_mod_converse(px, o, tx, o / 2);
    lemma_fundamental_div_mod_converse(py, o, ty, o / 2);
    assert(abs(mx) <= MAX_STEP && abs(my) <= MAX_STEP);
    if dy == 0 {
        assert(my == 0);
        lemma_fundamental_div_mod_converse(px + mx, o, tx, o / 2 + mx);
    } else {
        assert(mx == 0);
        lemma_fundamental_div_mod_converse(py + my, o, ty, o / 2 + my);
    }
}

} // verus!
