//! The renderer: a map, a player, a texture catalogue and a direction table,
//! turned into one frame by casting a ray for every screen column.
use crate::canvas::{lemma_paint_clipped, lemma_paint_spans_push, lemma_painted_is_paint, paint_spans, Canvas};
use crate::geometry::{
    abs, clear_through, dominant, first_hit, in_grid, is_sqrt, lemma_open_is_interior,
    lemma_sqrt_exists, lemma_tile_index, march, sqrt_floor, tile_at, Point, RayHit, DIR_MIN,
    DIR_ONE, ONE,
};
use crate::movement::{
    move_player, player_ok, slide, speed_component, speed_of, turn, turned, Player, FULL_TURN,
    PLAYER_ROTATION, UNITS_PER_DEGREE,
};
use crate::texture::{Color, Texture};
use crate::tilemap::{check_map, lemma_valid_map_facts, map_error, rows_view, valid_map, MapError};
use vstd::prelude::*;

verus! {

/// Grey of the floor below the walls.
pub const FLOOR_SHADE: u8 = 128;

/// A span of rows `lo .. hi` of one column, and its colour.
pub type Span = (int, int, (u8, u8, u8));

pub open spec fn rgb(c: Color) -> (u8, u8, u8) {
    (c.0, c.1, c.2)
}

/// The colour of texel `(r, c)` of a texture.
pub open spec fn texel(t: Texture, r: int, c: int) -> (u8, u8, u8) {
    rgb(t.colors@[t.map@[r]@[c] as int])
}

/// A table of unit directions, one per angle unit: each component at most
/// `DIR_ONE` long, the larger at least `DIR_MIN`, and angle 0 pointing along `+x`.
pub open spec fn directions_ok(d: Seq<(i64, i64)>) -> bool {
    &&& d.len() == FULL_TURN
    &&& d[0] == (DIR_ONE, 0i64)
    &&& forall|a: int|
        0 <= a < d.len() ==> {
            let v = #[trigger] d[a];
            abs(v.0 as int) <= DIR_ONE && abs(v.1 as int) <= DIR_ONE && dominant(v.0 as int, v.1 as int)
                >= DIR_MIN
        }
}

/// The step at which a ray first meets a wall.
pub open spec fn hit_steps(m: Seq<Seq<i32>>, x: int, y: int, dx: int, dy: int) -> int {
    choose|k: int| first_hit(m, x, y, dx, dy, k)
}

/// The distance from the viewing plane: the hypotenuse times the cosine of the
/// ray's angle to the heading (`cos_d / DIR_ONE`), and at least 1.
pub open spec fn perpendicular(hyp: int, cos_d: int) -> int {
    if cos_d > 0 && hyp * cos_d / (DIR_ONE as int) >= 1 {
        hyp * cos_d / (DIR_ONE as int)
    } else {
        1
    }
}

/// Half the height, in pixels, of a wall at perpendicular distance `perp` on a
/// screen `h` pixels high.
pub open spec fn wall_half_height(h: int, perp: int) -> int {
    (h / 2) * ONE / perp
}

/// Spans of texture column `tcol` stretched over a wall of half-height `wh`
/// whose top is row `top`: texture row `i` fills rows
/// `top + i * 2wh / th .. top + (i + 1) * 2wh / th`.
pub open spec fn texture_spans(tex: Texture, top: int, wh: int, tcol: int) -> Seq<Span> {
    Seq::new(
        tex.height as nat,
        |i: int|
            (
                top + i * (2 * wh) / (tex.height as int),
                top + (i + 1) * (2 * wh) / (tex.height as int),
                texel(tex, i, tcol),
            ),
    )
}

/// Painting two runs of spans one after the other is painting their concatenation.
pub proof fn lemma_paint_spans_concat(px: Seq<u8>, w: int, x: int, a: Seq<Span>, b: Seq<Span>)
    ensures
        paint_spans(px, w, x, a + b) == paint_spans(paint_spans(px, w, x, a), w, x, b),
    decreases b.len(),
{
    if b.len() == 0 {
        assert(a + b =~= a);
    } else {
        lemma_paint_spans_concat(px, w, x, a, b.drop_last());
        assert((a + b).drop_last() =~= a + b.drop_last());
    }
}

/// Which keys are held.
#[derive(Debug, Clone, Copy, PartialEq, Eq, Structural)]
pub struct HeldIntents {
    pub turn_left: bool,
    pub turn_right: bool,
    pub forward: bool,
    pub backward: bool,
}

/// A movement intent.
#[derive(Debug, Clone, Copy, PartialEq, Eq, Structural)]
pub enum Intent {
    TurnLeft,
    TurnRight,
    MoveForward,
    MoveBackward,
}

/// An input event: quitting, or an intent starting or stopping.
#[derive(Debug, Clone, Copy, PartialEq, Eq, Structural)]
pub enum InputEvent {
    Quit,
    Press(Intent),
    Release(Intent),
}

pub struct Raycaster {
    pub map: Vec<Vec<i32>>,
    pub player: Player,
    /// Wall textures: tile value `v` selects entry `v - 1`.
    pub textures: Vec<Texture>,
    /// Sampled above the walls.
    pub background: Texture,
    pub held: HeldIntents,
    /// Unit direction of each angle unit, `DIR_ONE` long.
    pub directions: Vec<(i64, i64)>,
    /// Field of view, in angle units.
    pub fov: i64,
}

impl Raycaster {
    pub open spec fn tiles(&self) -> Seq<Seq<i32>> {
        rows_view(self.map@)
    }

    /// Everything rendering and movement rely on.
    pub open spec fn wf(&self) -> bool {
        &&& valid_map(self.tiles())
        &&& forall|r: int, c: int|
            0 <= r < self.tiles().len() && 0 <= c < self.tiles()[r].len() ==> #[trigger] self.tiles()[r][c]
                <= self.textures@.len()
        &&& forall|i: int| 0 <= i < self.textures@.len() ==> (#[trigger] self.textures@[i]).wf()
        &&& self.background.wf()
        &&& directions_ok(self.directions@)
        &&& player_ok(self.tiles(), self.player)
        &&& 0 < self.fov < FULL_TURN / 2
    }

    /// Angle units from the left edge of the view to column `x` of `w`.
    pub open spec fn column_offset(&self, w: int, x: int) -> int {
        x * self.fov / w
    }

    /// Angle of column `x` relative to the heading, in `[0, FULL_TURN)`.
    pub open spec fn column_delta(&self, w: int, x: int) -> int {
        (FULL_TURN - self.fov / 2 + self.column_offset(w, x)) % (FULL_TURN as int)
    }

    /// Angle of the ray of column `x`, in `[0, FULL_TURN)`.
    pub open spec fn column_angle(&self, w: int, x: int) -> int {
        (self.player.angle + self.column_delta(w, x)) % (FULL_TURN as int)
    }

    /// Step of the ray of column `x`.
    pub open spec fn column_dir(&self, w: int, x: int) -> (i64, i64) {
        self.directions@[self.column_angle(w, x)]
    }

    /// Steps the ray of column `x` takes to meet a wall.
    pub open spec fn column_steps(&self, w: int, x: int) -> int {
        let d = self.column_dir(w, x);
        hit_steps(self.tiles(), self.player.pos.x as int, self.player.pos.y as int, d.0 as int, d.1 as int)
    }

    /// Where the ray of column `x` meets a wall.
    pub open spec fn column_hit(&self, w: int, x: int) -> (int, int) {
        let d = self.column_dir(w, x);
        let k = self.column_steps(w, x);
        (self.player.pos.x + k * d.0, self.player.pos.y + k * d.1)
    }

    /// Euclidean distance, rounded down, from the player to the hit of column `x`.
    pub open spec fn column_hypotenuse(&self, w: int, x: int) -> int {
        let (hx, hy) = self.column_hit(w, x);
        let ex = hx - self.player.pos.x;
        let ey = hy - self.player.pos.y;
        sqrt_floor(ex * ex + ey * ey)
    }

    /// Perpendicular distance of the hit of column `x`.
    pub open spec fn column_distance(&self, w: int, x: int) -> int {
        perpendicular(
            self.column_hypotenuse(w, x),
            self.directions@[self.column_delta(w, x)].0 as int,
        )
    }

    /// Half the projected height, in pixels, of the wall of column `x`.
    pub open spec fn column_wall_half(&self, h: int, w: int, x: int) -> int {
        wall_half_height(h, self.column_distance(w, x))
    }

    /// The wall texture the ray of column `x` hit.
    pub open spec fn column_texture(&self, w: int, x: int) -> Texture {
        let (hx, hy) = self.column_hit(w, x);
        self.textures@[tile_at(self.tiles(), hx, hy) - 1]
    }

    /// Background spans of rows `0 .. n` of column `x`: the background is
    /// shifted sideways by the heading in degrees and repeats down the column.
    pub open spec fn background_spans(&self, x: int, n: int) -> Seq<Span> {
        let bg = self.background;
        let bcol = (x + (self.player.angle as int) / (UNITS_PER_DEGREE as int)) % (bg.width as int);
        Seq::new(n as nat, |y: int| (y, y + 1, texel(bg, y % (bg.height as int), bcol)))
    }

    /// Background spans of column `x`: one per row above the wall.
    pub open spec fn column_sky(&self, w: int, h: int, x: int) -> Seq<Span> {
        let top = h / 2 - self.column_wall_half(h, w, x);
        self.background_spans(
            x,
            if top < 0 {
                0
            } else {
                top
            },
        )
    }

    /// Wall spans of column `x`.
    pub open spec fn column_wall(&self, w: int, h: int, x: int) -> Seq<Span> {
        let (hx, hy) = self.column_hit(w, x);
        let wh = self.column_wall_half(h, w, x);
        let tex = self.column_texture(w, x);
        let tcol = (tex.width * (hx + hy) / ONE as int) % (tex.width as int);
        texture_spans(tex, h / 2 - wh, wh, tcol)
    }

    /// The floor span of column `x`: everything below the wall.
    pub open spec fn column_floor(&self, w: int, h: int, x: int) -> Span {
        (h / 2 + self.column_wall_half(h, w, x), h, (FLOOR_SHADE, FLOOR_SHADE, FLOOR_SHADE))
    }

    /// The spans that draw column `x` of a `w` by `h` screen, in order: the
    /// background above the wall, the wall, and the floor.
    pub open spec fn column_spans(&self, w: int, h: int, x: int) -> Seq<Span> {
        self.column_sky(w, h, x) + self.column_wall(w, h, x) + seq![self.column_floor(w, h, x)]
    }

    /// `px` after drawing columns `0 .. n` of a `w` by `h` screen.
    pub open spec fn frame(&self, px: Seq<u8>, w: int, h: int, n: int) -> Seq<u8>
        decreases n,
    {
        if n <= 0 {
            px
        } else {
            paint_spans(self.frame(px, w, h, n - 1), w, n - 1, self.column_spans(w, h, n - 1))
        }
    }
}

/// What the ray of one screen column found.
#[derive(Debug, Clone, Copy, PartialEq, Eq, Structural)]
pub struct ColumnCast {
    pub hit: RayHit,
    /// Distance from the player to the hit, rounded down.
    pub hypotenuse: i64,
    /// Distance from the viewing plane to the hit.
    pub distance: i64,
}

impl Raycaster {
    /// Casts the ray of column `x` of a screen `w` columns wide.
    pub fn cast_column(&self, w: u32, x: u32) -> (r: ColumnCast)
        requires
            self.wf(),
            1 <= w <= i32::MAX,
            x < w,
        ensures
            r.hit.steps == self.column_steps(w as int, x as int),
            (r.hit.x as int, r.hit.y as int) == self.column_hit(w as int, x as int),
            r.hit.tile == tile_at(self.tiles(), r.hit.x as int, r.hit.y as int),
            in_grid(self.tiles(), r.hit.x as int, r.hit.y as int),
            1 <= r.hit.tile <= self.textures@.len(),
            r.hypotenuse == self.column_hypotenuse(w as int, x as int),
            r.distance == self.column_distance(w as int, x as int),
            r.distance >= 1,
    {
        let ghost m = self.tiles();
        proof {
            lemma_valid_map_facts(m);
            lemma_open_is_interior(m, self.player.pos.x as int, self.player.pos.y as int);
        }
        proof {
            assert((x as int) * self.fov <= (w as int) * self.fov) by (nonlinear_arith)
                requires
                    x < w,
                    self.fov > 0,
            ;
            assert((w as int) * self.fov <= 2147483647 * 5760) by (nonlinear_arith)
                requires
                    w <= 2147483647,
                    0 < self.fov < 5760,
            ;
        }
        let offset: i64 = (x as i64) * self.fov / (w as i64);
        proof {
            assert(offset <= self.fov) by {
                vstd::arithmetic::div_mod::lemma_div_is_ordered((x as int) * self.fov, (w as int) * self.fov, w as int);
                vstd::arithmetic::div_mod::lemma_div_multiples_vanish(self.fov as int, w as int);
            }
        }
        let delta: i64 = (FULL_TURN - self.fov / 2 + offset) % FULL_TURN;
        let angle: i64 = (self.player.angle + delta) % FULL_TURN;
        let d: (i64, i64) = self.directions[angle as usize];
        let dx: i64 = d.0;
        let dy: i64 = d.1;
        assert(d == self.column_dir(w as int, x as int));
        let hit = march(&self.map, self.player.pos.x, self.player.pos.y, dx, dy);
        proof {
            let k = choose|k: int| first_hit(m, self.player.pos.x as int, self.player.pos.y as int, dx as int, dy as int, k);
            lemma_first_hit_unique(m, self.player.pos.x as int, self.player.pos.y as int, dx as int, dy as int, k, hit.steps as int);
        }
        let hit_point = Point { x: hit.x, y: hit.y };
        proof {
            assert(abs(hit.x - self.player.pos.x) <= 1024 * ONE && abs(hit.y - self.player.pos.y) <= 1024 * ONE);
        }
        let hyp: i64 = hit_point.dist(&self.player.pos);
        let cos_d: i64 = self.directions[delta as usize].0;
        proof {
            let v = self.directions@[delta as int];
            assert(abs(v.0 as int) <= DIR_ONE);
            assert(0 <= hyp * cos_d <= 2 * 1024 * ONE * DIR_ONE || cos_d <= 0) by (nonlinear_arith)
                requires
                    0 <= hyp <= 2 * 1024 * ONE,
                    cos_d <= DIR_ONE,
            ;
        }
        let distance: i64 = if cos_d > 0 {
            let q: i64 = hyp * cos_d / DIR_ONE;
            if q >= 1 { q } else { 1 }
        } else {
            1
        };
        proof {
            lemma_tile_index(m, hit.x as int, hit.y as int);
            let hr = (hit.y as int) / (ONE as int);
            let hc = (hit.x as int) / (ONE as int);
            assert(m[hr].len() == m[0].len());
            assert(m[hr][hc] >= 0);
            assert(m[hr][hc] <= self.textures@.len());
        }
        ColumnCast { hit, hypotenuse: hyp, distance }
    }
}

/// `v` clipped to the rows `0 ..= h` of a screen.
pub open spec fn clip_row(v: int, h: int) -> int {
    if v < 0 {
        0
    } else if v > h {
        h
    } else {
        v
    }
}

fn clip_row_exec(v: i128, h: i64) -> (r: i32)
    requires
        0 <= h <= i32::MAX,
    ensures
        r == clip_row(v as int, h as int),
{
    if v < 0 {
        0
    } else if v > h as i128 {
        h as i32
    } else {
        v as i32
    }
}

impl Raycaster {
    /// Draws the background over rows `0 .. y2` of column `x`.
    fn draw_background_strip(&self, canvas: &mut Canvas, x: u32, y2: i64)
        requires
            self.background.wf(),
            0 <= self.player.angle < FULL_TURN,
            old(canvas).wf(),
            x < old(canvas).width <= i32::MAX,
            old(canvas).height <= i32::MAX,
            0 <= y2 <= old(canvas).height,
        ensures
            final(canvas).wf(),
            final(canvas).width == old(canvas).width,
            final(canvas).height == old(canvas).height,
            final(canvas).pixels@ == paint_spans(
                old(canvas).pixels@,
                old(canvas).width as int,
                x as int,
                self.background_spans(x as int, y2 as int),
            ),
    {
        let ghost before = canvas.pixels@;
        let ghost wi = canvas.width as int;
        let ghost sky = self.background_spans(x as int, y2 as int);
        let bg: &Texture = &self.background;
        let bw: i64 = bg.width as i64;
        let bh: i64 = bg.height as i64;
        let bcol: i64 = ((x as i64) + self.player.angle / UNITS_PER_DEGREE) % bw;
        let mut y: i64 = 0;
        proof {
            assert(sky.take(0) =~= Seq::<Span>::empty());
        }
        while y < y2
            invariant
                canvas.wf(),
                canvas.width == wi,
                canvas.height == old(canvas).height,
                canvas.height <= i32::MAX,
                x < wi,
                wi <= i32::MAX,
                0 <= y <= y2,
                y2 <= canvas.height,
                bg.wf(),
                *bg == self.background,
                bw == bg.width,
                bh == bg.height,
                bcol == (x + (self.player.angle as int) / (UNITS_PER_DEGREE as int)) % (bg.width as int),
                0 <= bcol < bw,
                sky == self.background_spans(x as int, y2 as int),
                canvas.pixels@ == paint_spans(before, wi, x as int, sky.take(y as int)),
            decreases y2 - y,
        {
            let ty: usize = (y % bh) as usize;
            let c: Color = bg.colors[bg.map[ty][bcol as usize] as usize];
            let ghost cur = canvas.pixels@;
            canvas.set_pixel(x as i32, y as i32, c.0, c.1, c.2);
            proof {
                lemma_painted_is_paint(cur, canvas.pixels@, wi, x as int, y as int, y + 1, (c.0, c.1, c.2));
                assert(sky[y as int] == (y as int, y + 1, (c.0, c.1, c.2)));
                lemma_paint_spans_push(before, wi, x as int, sky.take(y as int), sky[y as int]);
                assert(sky.take(y + 1) =~= sky.take(y as int).push(sky[y as int]));
            }
            y = y + 1;
        }
        assert(sky.take(y2 as int) =~= sky);
    }

    /// Draws texture column `tcol` of `tex` down column `x`, stretched over a
    /// wall of half-height `wh` whose top is row `top`.
    fn draw_texture_strip(&self, canvas: &mut Canvas, x: u32, top: i64, wh: i64, tcol: i64, tex: &Texture)
        requires
            tex.wf(),
            0 <= tcol < tex.width,
            0 <= wh <= 1073741824 * ONE,
            -1073741824 * ONE <= top <= old(canvas).height,
            old(canvas).wf(),
            x < old(canvas).width <= i32::MAX,
            old(canvas).height <= i32::MAX,
        ensures
            final(canvas).wf(),
            final(canvas).width == old(canvas).width,
            final(canvas).height == old(canvas).height,
            final(canvas).pixels@ == paint_spans(
                old(canvas).pixels@,
                old(canvas).width as int,
                x as int,
                texture_spans(*tex, top as int, wh as int, tcol as int),
            ),
    {
        let ghost before = canvas.pixels@;
        let ghost wi = canvas.width as int;
        let ghost hi = canvas.height as int;
        let ghost wall = texture_spans(*tex, top as int, wh as int, tcol as int);
        let h: i64 = canvas.height as i64;
        let th: i64 = tex.height as i64;
        proof {
            assert(wall.take(0) =~= Seq::<Span>::empty());
        }
        let mut i: i64 = 0;
        while i < th
            invariant
                canvas.wf(),
                canvas.width == wi,
                canvas.height == hi,
                h == hi,
                0 <= h <= i32::MAX,
                x < wi,
                wi <= i32::MAX,
                0 <= i <= th,
                tex.wf(),
                th == tex.height,
                0 <= tcol < tex.width,
                0 <= wh <= 1073741824 * ONE,
                -1073741824 * ONE <= top <= hi,
                wall == texture_spans(*tex, top as int, wh as int, tcol as int),
                canvas.pixels@ == paint_spans(before, wi, x as int, wall.take(i as int)),
            decreases th - i,
        {
            proof {
                assert(0 <= i * (2 * wh) <= 2147483647 * (2 * 1073741824 * ONE)) by (nonlinear_arith)
                    requires
                        0 <= i <= 2147483647,
                        0 <= wh <= 1073741824 * ONE,
                ;
                assert(0 <= (i + 1) * (2 * wh) <= 2147483648 * (2 * 1073741824 * ONE)) by (nonlinear_arith)
                    requires
                        0 <= i + 1 <= 2147483648,
                        0 <= wh <= 1073741824 * ONE,
                ;
                vstd::arithmetic::div_mod::lemma_div_is_ordered_by_denominator(i * (2 * wh), 1, th as int);
                vstd::arithmetic::div_mod::lemma_div_is_ordered_by_denominator((i + 1) * (2 * wh), 1, th as int);
            }
            let lo: i128 = (top as i128) + (i as i128) * (2 * wh as i128) / (th as i128);
            let hi_row: i128 = (top as i128) + ((i + 1) as i128) * (2 * wh as i128) / (th as i128);
            let c: Color = tex.colors[tex.map[i as usize][tcol as usize] as usize];
            let lo_c: i32 = clip_row_exec(lo, h);
            let hi_c: i32 = clip_row_exec(hi_row, h);
            let ghost cur = canvas.pixels@;
            canvas.draw_vertical_line(x as i32, lo_c, hi_c, c.0, c.1, c.2);
            proof {
                lemma_painted_is_paint(cur, canvas.pixels@, wi, x as int, lo_c as int, hi_c as int, (c.0, c.1, c.2));
                lemma_paint_clipped(cur, wi, hi, x as int, lo as int, hi_row as int, lo_c as int, hi_c as int, (c.0, c.1, c.2));
                assert(wall[i as int] == (lo as int, hi_row as int, (c.0, c.1, c.2)));
                lemma_paint_spans_push(before, wi, x as int, wall.take(i as int), wall[i as int]);
                assert(wall.take(i + 1) =~= wall.take(i as int).push(wall[i as int]));
            }
            i = i + 1;
        }
        assert(wall.take(th as int) =~= wall);
    }

    /// Draws column `x` of the canvas: background above the wall, the wall's
    /// texture column scaled to its projected height, and floor below.
    pub fn draw_column(&self, canvas: &mut Canvas, x: u32)
        requires
            self.wf(),
            old(canvas).wf(),
            1 <= old(canvas).width <= i32::MAX,
            old(canvas).height <= i32::MAX,
            x < old(canvas).width,
        ensures
            final(canvas).wf(),
            final(canvas).width == old(canvas).width,
            final(canvas).height == old(canvas).height,
            final(canvas).pixels@ == paint_spans(
                old(canvas).pixels@,
                old(canvas).width as int,
                x as int,
                self.column_spans(old(canvas).width as int, old(canvas).height as int, x as int),
            ),
    {
        let ghost before = canvas.pixels@;
        let ghost wi = canvas.width as int;
        let ghost hi = canvas.height as int;
        let ghost spans = self.column_spans(wi, hi, x as int);
        let cast = self.cast_column(canvas.width, x);
        let h: i64 = canvas.height as i64;
        let half: i64 = h / 2;
        let wh: i64 = half * ONE / cast.distance;
        proof {
            vstd::arithmetic::div_mod::lemma_div_is_ordered_by_denominator(half * ONE, 1, cast.distance as int);
        }
        let top: i64 = half - wh;
        let bottom: i64 = half + wh;
        let tex: &Texture = &self.textures[(cast.hit.tile - 1) as usize];
        let tw: i64 = tex.width as i64;
        proof {
            assert(tex.wf());
            lemma_tile_index(self.tiles(), cast.hit.x as int, cast.hit.y as int);
            assert(0 <= cast.hit.x + cast.hit.y < 2048 * ONE);
            assert(0 <= tw * (cast.hit.x + cast.hit.y) <= 2147483647 * 2048 * ONE) by (nonlinear_arith)
                requires
                    0 <= cast.hit.x + cast.hit.y < 2048 * ONE,
                    1 <= tw <= 2147483647,
            ;
        }
        let tcol: i64 = (tw * (cast.hit.x + cast.hit.y) / ONE) % tw;
        let ghost sky = self.column_sky(wi, hi, x as int);
        let ghost wall = self.column_wall(wi, hi, x as int);
        assert(wh == self.column_wall_half(hi, wi, x as int));
        assert(*tex == self.column_texture(wi, x as int));
        let sky_end: i64 = if top < 0 { 0 } else { top };
        self.draw_background_strip(canvas, x, sky_end);
        self.draw_texture_strip(canvas, x, top, wh, tcol, tex);
        proof {
            lemma_paint_spans_concat(before, wi, x as int, sky, wall);
        }
        // The floor.
        let floor_top: i32 = clip_row_exec(bottom as i128, h);
        let ghost cur = canvas.pixels@;
        canvas.draw_vertical_line(x as i32, floor_top, h as i32, FLOOR_SHADE, FLOOR_SHADE, FLOOR_SHADE);
        proof {
            lemma_painted_is_paint(cur, canvas.pixels@, wi, x as int, floor_top as int, h as int, (FLOOR_SHADE, FLOOR_SHADE, FLOOR_SHADE));
            lemma_paint_clipped(cur, wi, hi, x as int, bottom as int, h as int, floor_top as int, h as int, (FLOOR_SHADE, FLOOR_SHADE, FLOOR_SHADE));
            let last = self.column_floor(wi, hi, x as int);
            assert(spans =~= (sky + wall).push(last));
            lemma_paint_spans_push(before, wi, x as int, sky + wall, last);
        }
    }
}

/// The held intents after one press or release.
pub open spec fn held_after(held: HeldIntents, e: InputEvent) -> HeldIntents {
    match e {
        InputEvent::Quit => held,
        InputEvent::Press(i) => set_intent(held, i, true),
        InputEvent::Release(i) => set_intent(held, i, false),
    }
}

pub open spec fn set_intent(held: HeldIntents, i: Intent, on: bool) -> HeldIntents {
    match i {
        Intent::TurnLeft => HeldIntents { turn_left: on, ..held },
        Intent::TurnRight => HeldIntents { turn_right: on, ..held },
        Intent::MoveForward => HeldIntents { forward: on, ..held },
        Intent::MoveBackward => HeldIntents { backward: on, ..held },
    }
}

/// Whether the events ask to quit, and the held intents after the events up
/// to the first quit.
pub open spec fn process_events(held: HeldIntents, events: Seq<InputEvent>) -> (bool, HeldIntents)
    decreases events.len(),
{
    if events.len() == 0 {
        (false, held)
    } else if events[0] is Quit {
        (true, held)
    } else {
        process_events(held_after(held, events[0]), events.drop_first())
    }
}

/// The player after one tick of the held intents, applied in a fixed order:
/// turn left, turn right, move forward, move backward.
pub open spec fn after_intents(m: Seq<Seq<i32>>, dirs: Seq<(i64, i64)>, p: Player, held: HeldIntents) -> Player {
    let p1 = if held.turn_left {
        turned(p, -PLAYER_ROTATION)
    } else {
        p
    };
    let p2 = if held.turn_right {
        turned(p1, PLAYER_ROTATION as int)
    } else {
        p1
    };
    let p3 = if held.forward {
        let d = dirs[p2.angle as int];
        slide(m, p2, speed_of(d.0 as int), speed_of(d.1 as int))
    } else {
        p2
    };
    if held.backward {
        let d = dirs[p3.angle as int];
        slide(m, p3, -speed_of(d.0 as int), -speed_of(d.1 as int))
    } else {
        p3
    }
}

impl Raycaster {
    /// Draws every column of the canvas.
    pub fn draw(&self, canvas: &mut Canvas)
        requires
            self.wf(),
            old(canvas).wf(),
            1 <= old(canvas).width <= i32::MAX,
            old(canvas).height <= i32::MAX,
        ensures
            final(canvas).wf(),
            final(canvas).width == old(canvas).width,
            final(canvas).height == old(canvas).height,
            final(canvas).pixels@ == self.frame(
                old(canvas).pixels@,
                old(canvas).width as int,
                old(canvas).height as int,
                old(canvas).width as int,
            ),
    {
        let ghost before = canvas.pixels@;
        let w: u32 = canvas.width;
        let mut x: u32 = 0;
        while x < w
            invariant
                self.wf(),
                canvas.wf(),
                canvas.width == w,
                canvas.height == old(canvas).height,
                1 <= w <= i32::MAX,
                canvas.height <= i32::MAX,
                x <= w,
                canvas.pixels@ == self.frame(before, w as int, canvas.height as int, x as int),
            decreases w - x,
        {
            self.draw_column(canvas, x);
            x = x + 1;
        }
    }

    /// Moves the player by one tick of the held intents.
    fn handle_pressed_keys(&mut self)
        requires
            old(self).wf(),
        ensures
            final(self).wf(),
            final(self).player == after_intents(
                old(self).tiles(),
                old(self).directions@,
                old(self).player,
                old(self).held,
            ),
            final(self).map@ == old(self).map@,
            final(self).textures@ == old(self).textures@,
            final(self).background == old(self).background,
            final(self).directions@ == old(self).directions@,
            final(self).fov == old(self).fov,
            final(self).held == old(self).held,
    {
        let ghost m = self.tiles();
        let mut p: Player = self.player;
        if self.held.turn_left {
            p = turn(p, -PLAYER_ROTATION);
        }
        if self.held.turn_right {
            p = turn(p, PLAYER_ROTATION);
        }
        if self.held.forward {
            let d: (i64, i64) = self.directions[p.angle as usize];
            let mx: i64 = speed_component(d.0);
            let my: i64 = speed_component(d.1);
            p = move_player(&self.map, p, mx, my);
        }
        if self.held.backward {
            let d: (i64, i64) = self.directions[p.angle as usize];
            let mx: i64 = speed_component(d.0);
            let my: i64 = speed_component(d.1);
            p = move_player(&self.map, p, -mx, -my);
        }
        self.player = p;
    }

    /// Applies a frame's input events, then moves the player by the held
    /// intents. Returns `false`, without moving, as soon as an event asks to quit.
    pub fn update(&mut self, events: Vec<InputEvent>) -> (r: bool)
        requires
            old(self).wf(),
        ensures
            final(self).wf(),
            r == !process_events(old(self).held, events@).0,
            final(self).held == process_events(old(self).held, events@).1,
            final(self).player == if r {
                after_intents(old(self).tiles(), old(self).directions@, old(self).player, final(self).held)
            } else {
                old(self).player
            },
            final(self).map@ == old(self).map@,
            final(self).textures@ == old(self).textures@,
            final(self).background == old(self).background,
            final(self).directions@ == old(self).directions@,
            final(self).fov == old(self).fov,
    {
        let ghost all = events@;
        let ghost held0 = self.held;
        let mut i: usize = 0;
        assert(all.subrange(0, all.len() as int) =~= all);
        while i < events.len()
            invariant
                self.wf(),
                i <= all.len(),
                all == events@,
                held0 == old(self).held,
                process_events(self.held, all.subrange(i as int, all.len() as int)) == process_events(held0, all),
                self.player == old(self).player,
                self.map@ == old(self).map@,
                self.textures@ == old(self).textures@,
                self.background == old(self).background,
                self.directions@ == old(self).directions@,
                self.fov == old(self).fov,
            decreases all.len() - i,
        {
            let ghost rest = all.subrange(i as int, all.len() as int);
            assert(rest.drop_first() =~= all.subrange(i + 1, all.len() as int));
            assert(rest.len() > 0 && rest[0] == events@[i as int]);
            match events[i] {
                InputEvent::Quit => {
                    assert(process_events(self.held, rest) == (true, self.held));
                    return false;
                },
                InputEvent::Press(intent) => {
                    self.set_held(intent, true);
                },
                InputEvent::Release(intent) => {
                    self.set_held(intent, false);
                },
            }
            i = i + 1;
        }
        assert(all.subrange(all.len() as int, all.len() as int) =~= Seq::<InputEvent>::empty());
        self.handle_pressed_keys();
        true
    }

    fn set_held(&mut self, intent: Intent, on: bool)
        ensures
            final(self).held == set_intent(old(self).held, intent, on),
            final(self).player == old(self).player,
            final(self).map == old(self).map,
            final(self).textures == old(self).textures,
            final(self).background == old(self).background,
            final(self).directions == old(self).directions,
            final(self).fov == old(self).fov,
    {
        match intent {
            Intent::TurnLeft => self.held.turn_left = on,
            Intent::TurnRight => self.held.turn_right = on,
            Intent::MoveForward => self.held.forward = on,
            Intent::MoveBackward => self.held.backward = on,
        }
    }
}

/// Why a renderer could not be set up.
#[derive(Debug, Clone, Copy, PartialEq, Eq, Structural)]
pub enum SetupError {
    /// The map is not valid.
    InvalidMap(MapError),
    /// A tile names a wall texture beyond the catalogue.
    UnknownTexture,
    /// A texture cannot be sampled.
    BadTexture,
    /// The direction table is not a table of unit directions.
    BadDirections,
    /// The field of view is not between 1 and 179 degrees.
    BadFieldOfView,
    /// The spawn point is not on open floor.
    SpawnBlocked,
}

/// Where the player starts: the point `(2, 2)`, facing along `+x`.
pub open spec fn spawn() -> Player {
    Player { pos: Point { x: (2 * ONE) as i64, y: (2 * ONE) as i64 }, angle: 0 }
}

/// The first problem, in the order listed by `SetupError`, that keeps these
/// parts from forming a renderer.
pub open spec fn setup_error(
    m: Seq<Seq<i32>>,
    background: Texture,
    textures: Seq<Texture>,
    dirs: Seq<(i64, i64)>,
    fov_degrees: i64,
) -> Option<SetupError> {
    if map_error(m) is Some {
        Some(SetupError::InvalidMap(map_error(m)->Some_0))
    } else if exists|r: int, c: int| 0 <= r < m.len() && 0 <= c < m[r].len() && #[trigger] m[r][c] > textures.len() {
        Some(SetupError::UnknownTexture)
    } else if !background.wf() || exists|i: int| 0 <= i < textures.len() && !(#[trigger] textures[i]).wf() {
        Some(SetupError::BadTexture)
    } else if !directions_ok(dirs) {
        Some(SetupError::BadDirections)
    } else if !(1 <= fov_degrees <= 179) {
        Some(SetupError::BadFieldOfView)
    } else if !in_grid(m, 2 * ONE, 2 * ONE) || tile_at(m, 2 * ONE, 2 * ONE) != 0 {
        Some(SetupError::SpawnBlocked)
    } else {
        None
    }
}

/// Whether every tile is at most `n`.
fn tiles_at_most(map: &Vec<Vec<i32>>, n: usize) -> (r: bool)
    ensures
        r == !exists|row: int, c: int|
            0 <= row < rows_view(map@).len() && 0 <= c < rows_view(map@)[row].len()
                && #[trigger] rows_view(map@)[row][c] > n,
{
    let ghost m = rows_view(map@);
    let mut r: usize = 0;
    while r < map.len()
        invariant
            m == rows_view(map@),
            m.len() == map@.len(),
            r <= map@.len(),
            forall|j: int, c: int| 0 <= j < r && 0 <= c < m[j].len() ==> #[trigger] m[j][c] <= n,
        decreases map@.len() - r,
    {
        assert(m[r as int] == map@[r as int]@);
        let mut c: usize = 0;
        while c < map[r].len()
            invariant
                m == rows_view(map@),
                m.len() == map@.len(),
                r < map@.len(),
                m[r as int] == map@[r as int]@,
                c <= map@[r as int]@.len(),
                forall|j: int, c: int| 0 <= j < r && 0 <= c < m[j].len() ==> #[trigger] m[j][c] <= n,
                forall|k: int| 0 <= k < c ==> #[trigger] m[r as int][k] <= n,
            decreases map@[r as int]@.len() - c,
        {
            if map[r][c] > 0 && map[r][c] as usize > n {
                assert(m[r as int][c as int] > n);
                return false;
            }
            c = c + 1;
        }
        r = r + 1;
    }
    true
}

/// Whether `d` is a table of unit directions (see `directions_ok`).
fn directions_valid(d: &Vec<(i64, i64)>) -> (r: bool)
    ensures
        r == directions_ok(d@),
{
    if d.len() != FULL_TURN as usize || d[0].0 != DIR_ONE || d[0].1 != 0 {
        return false;
    }
    let mut a: usize = 0;
    while a < d.len()
        invariant
            d@.len() == FULL_TURN,
            d@[0] == (DIR_ONE, 0i64),
            a <= d@.len(),
            forall|b: int|
                0 <= b < a ==> {
                    let v = #[trigger] d@[b];
                    abs(v.0 as int) <= DIR_ONE && abs(v.1 as int) <= DIR_ONE && dominant(v.0 as int, v.1 as int)
                        >= DIR_MIN
                },
        decreases d@.len() - a,
    {
        let v: (i64, i64) = d[a];
        if v.0 < -DIR_ONE || v.0 > DIR_ONE || v.1 < -DIR_ONE || v.1 > DIR_ONE {
            return false;
        }
        let ax: i64 = if v.0 < 0 { -v.0 } else { v.0 };
        let ay: i64 = if v.1 < 0 { -v.1 } else { v.1 };
        if ax < DIR_MIN && ay < DIR_MIN {
            return false;
        }
        a = a + 1;
    }
    true
}

impl Raycaster {
    /// A renderer over the map, with the player at the spawn point, no intent
    /// held, and a field of view of `fov_degrees` degrees. `directions` gives the
    /// unit direction of each angle unit.
    pub fn new(
        map: Vec<Vec<i32>>,
        background: Texture,
        textures: Vec<Texture>,
        directions: Vec<(i64, i64)>,
        fov_degrees: i64,
    ) -> (r: Result<Raycaster, SetupError>)
        ensures
            match setup_error(rows_view(map@), background, textures@, directions@, fov_degrees) {
                Some(e) => r == Err::<Raycaster, SetupError>(e),
                None => r is Ok && {
                    let rc = r->Ok_0;
                    &&& rc.wf()
                    &&& rc.map@ == map@
                    &&& rc.player == spawn()
                    &&& rc.textures@ == textures@
                    &&& rc.background == background
                    &&& rc.directions@ == directions@
                    &&& rc.fov == fov_degrees * UNITS_PER_DEGREE
                    &&& rc.held == HeldIntents { turn_left: false, turn_right: false, forward: false, backward: false }
                },
            },
    {
        let ghost m = rows_view(map@);
        match check_map(&map) {
            Err(e) => {
                return Err(SetupError::InvalidMap(e));
            },
            Ok(()) => {},
        }
        if !tiles_at_most(&map, textures.len()) {
            return Err(SetupError::UnknownTexture);
        }
        if !background.is_valid() {
            return Err(SetupError::BadTexture);
        }
        let mut i: usize = 0;
        while i < textures.len()
            invariant
                i <= textures@.len(),
                forall|j: int| 0 <= j < i ==> (#[trigger] textures@[j]).wf(),
                background.wf(),
                m == rows_view(map@),
                map_error(m) is None,
                !exists|row: int, c: int|
                    0 <= row < m.len() && 0 <= c < m[row].len() && #[trigger] m[row][c] > textures@.len(),
            decreases textures@.len() - i,
        {
            if !textures[i].is_valid() {
                return Err(SetupError::BadTexture);
            }
            i = i + 1;
        }
        if !directions_valid(&directions) {
            return Err(SetupError::BadDirections);
        }
        if fov_degrees < 1 || fov_degrees > 179 {
            return Err(SetupError::BadFieldOfView);
        }
        proof {
            crate::tilemap::lemma_valid_map_facts(m);
        }
        if map.len() < 3 || map[0].len() < 3 {
            proof {
                assert(!in_grid(m, 2 * ONE, 2 * ONE));
            }
            return Err(SetupError::SpawnBlocked);
        }
        proof {
            assert(m[2] == map@[2]@);
            assert((2 * ONE) / (ONE as int) == 2);
        }
        if map[2][2] != 0 {
            return Err(SetupError::SpawnBlocked);
        }
        Ok(Raycaster {
            map,
            player: Player { pos: Point { x: 2 * ONE, y: 2 * ONE }, angle: 0 },
            textures,
            background,
            held: HeldIntents { turn_left: false, turn_right: false, forward: false, backward: false },
            directions,
            fov: fov_degrees * UNITS_PER_DEGREE,
        })
    }
}

/// A ray meets its first wall at one step only.
pub proof fn lemma_first_hit_unique(m: Seq<Seq<i32>>, x: int, y: int, dx: int, dy: int, k1: int, k2: int)
    requires
        first_hit(m, x, y, dx, dy, k1),
        first_hit(m, x, y, dx, dy, k2),
    ensures
        k1 == k2,
{
    if k1 < k2 {
        lemma_clear_prefix(m, x, y, dx, dy, k2 - 1, k1);
    } else if k2 < k1 {
        lemma_clear_prefix(m, x, y, dx, dy, k1 - 1, k2);
    }
}

proof fn lemma_clear_prefix(m: Seq<Seq<i32>>, x: int, y: int, dx: int, dy: int, k: int, j: int)
    requires
        clear_through(m, x, y, dx, dy, k),
        1 <= j <= k,
    ensures
        tile_at(m, x + j * dx, y + j * dy) == 0,
    decreases k,
{
    if j < k {
        lemma_clear_prefix(m, x, y, dx, dy, k - 1, j);
    }
}

/// The column whose ray runs along the player's heading shows its wall at the
/// full Euclidean distance: there the perpendicular distance is the hypotenuse.
pub proof fn lemma_heading_column_undistorted(rc: &Raycaster, w: int, x: int)
    requires
        rc.wf(),
        1 <= w,
        0 <= x < w,
        rc.column_offset(w, x) == rc.fov / 2,
    ensures
        rc.column_distance(w, x) == rc.column_hypotenuse(w, x),
        rc.column_hypotenuse(w, x) >= 1,
{
    let m = rc.tiles();
    lemma_valid_map_facts(m);
    lemma_open_is_interior(m, rc.player.pos.x as int, rc.player.pos.y as int);
    assert(rc.column_delta(w, x) == 0) by {
        vstd::arithmetic::div_mod::lemma_mod_self_0(FULL_TURN as int);
    }
    let a = rc.column_angle(w, x);
    assert(0 <= a < FULL_TURN);
    let d = rc.column_dir(w, x);
    let v = rc.directions@[a];
    assert(dominant(v.0 as int, v.1 as int) >= DIR_MIN);
    crate::geometry::lemma_march_terminates(m, rc.player.pos.x as int, rc.player.pos.y as int, d.0 as int, d.1 as int);
    let k = rc.column_steps(w, x);
    assert(first_hit(m, rc.player.pos.x as int, rc.player.pos.y as int, d.0 as int, d.1 as int, k));
    let (hx, hy) = rc.column_hit(w, x);
    let ex = hx - rc.player.pos.x;
    let ey = hy - rc.player.pos.y;
    assert(ex == k * d.0 && ey == k * d.1);
    assert(ex * ex + ey * ey >= 1) by (nonlinear_arith)
        requires
            ex == k * d.0,
            ey == k * d.1,
            k >= 1,
            d.0 >= 1 || d.0 <= -1 || d.1 >= 1 || d.1 <= -1,
    ;
    lemma_sqrt_exists(ex * ex + ey * ey);
    let hyp = rc.column_hypotenuse(w, x);
    assert(hyp >= 1) by (nonlinear_arith)
        requires
            is_sqrt(ex * ex + ey * ey, hyp),
            ex * ex + ey * ey >= 1,
    ;
    assert(rc.directions@[0].0 == DIR_ONE);
    vstd::arithmetic::div_mod::lemma_div_multiples_vanish(hyp, DIR_ONE as int);
    assert(hyp * DIR_ONE == DIR_ONE * hyp) by (nonlinear_arith);
}

} // verus!
