use vstd::prelude::*;

use crate::canvas::{circle_covers, is_blank, CanvasError, GameCanvas};
use crate::color::Rgba;
use crate::geometry::{div_toward_zero, div_toward_zero_exec, in_world, pixel_index, pixel_index_exec, Point, COORD_LIMIT, SUBPIXELS};

verus! {

/// A full turn is this many turn steps; one step is the per-frame turn.
pub const HEADINGS: usize = 256;

/// Radius, in pixels, of the circle a player paints each frame.
pub const PLAYER_RADIUS: u16 = 5;

/// Forward speed in pixels per second.
pub const LINE_SPEED: i64 = 30;

pub const MICROS_PER_SECOND: i64 = 1_000_000;

/// A heading, counted in turn steps, with its unit vector in fixed point:
/// `x` is the sine and `y` the cosine of the angle, `SUBPIXELS` being one.
#[derive(Debug, Clone, Copy, PartialEq, Eq, Structural)]
pub struct Direction {
    pub heading: u8,
    pub x: i64,
    pub y: i64,
}

/// A unit-vector component in fixed point lies within one unit of zero.
pub open spec fn unit_component(v: int) -> bool {
    -SUBPIXELS <= v <= SUBPIXELS
}

/// Both components of `p` lie within one unit of zero.
pub open spec fn unit_vector(p: Point<i64>) -> bool {
    unit_component(p.x as int) && unit_component(p.y as int)
}

impl Direction {
    pub open spec fn wf(self) -> bool {
        unit_component(self.x as int) && unit_component(self.y as int)
    }

    /// The sine of the heading, in fixed point.
    pub fn x(&self) -> (v: i64)
        ensures
            v == self.x,
    {
        self.x
    }

    /// The cosine of the heading, in fixed point.
    pub fn y(&self) -> (v: i64)
        ensures
            v == self.y,
    {
        self.y
    }
}

/// The heading after one frame's turning: one step up for the left key, one
/// step down for the right key, both when both are held, modulo a full turn.
pub open spec fn turned(heading: int, left: bool, right: bool) -> int {
    (heading + (if left { 1int } else { 0 }) - (if right { 1int } else { 0 })) % (HEADINGS as int)
}

/// Holding both turn keys in one frame leaves the heading as it was: the
/// two turns cancel.
pub proof fn lemma_both_keys_cancel(heading: u8)
    ensures
        turned(heading as int, true, true) == heading as int,
{
}

/// The unit vector of each of the `HEADINGS` headings.
#[derive(Debug)]
pub struct Compass {
    units: Vec<Point<i64>>,
}

impl Compass {
    /// The unit vector of heading `h`.
    pub closed spec fn unit(&self, h: int) -> Point<i64> {
        self.units@[h]
    }

    pub closed spec fn wf(&self) -> bool {
        &&& self.units@.len() == HEADINGS
        &&& forall|h: int| 0 <= h < HEADINGS ==> unit_vector(#[trigger] self.units@[h])
    }

    /// A compass from one unit vector per heading. `None` unless there are
    /// exactly `HEADINGS` of them, each component within one unit of zero.
    pub fn new(units: Vec<Point<i64>>) -> (res: Option<Compass>)
        ensures
            res is Some <==> (units@.len() == HEADINGS && forall|h: int|
                0 <= h < HEADINGS ==> unit_vector(#[trigger] units@[h])),
            res matches Some(c) ==> c.wf() && forall|h: int|
                0 <= h < HEADINGS ==> #[trigger] c.unit(h) == units@[h],
    {
        if units.len() != HEADINGS {
            return None;
        }
        let mut h: usize = 0;
        while h < HEADINGS
            invariant
                units@.len() == HEADINGS,
                h <= HEADINGS,
                forall|m: int| 0 <= m < h ==> unit_vector(#[trigger] units@[m]),
            decreases HEADINGS - h,
        {
            let u = units[h];
            if u.x < -SUBPIXELS || u.x > SUBPIXELS || u.y < -SUBPIXELS || u.y > SUBPIXELS {
                return None;
            }
            assert(unit_vector(units@[h as int]));
            h = h + 1;
        }
        Some(Compass { units })
    }

    /// The direction of heading `heading`.
    pub fn direction(&self, heading: u8) -> (d: Direction)
        requires
            self.wf(),
        ensures
            d.wf(),
            d == (Direction {
                heading,
                x: self.unit(heading as int).x,
                y: self.unit(heading as int).y,
            }),
    {
        let u = self.units[heading as usize];
        Direction { heading, x: u.x, y: u.y }
    }
}

/// One player: a position in world coordinates, a heading, a trail colour.
#[derive(Debug, Clone, Copy, PartialEq, Eq, Structural)]
pub struct Player {
    pub location: Point<i64>,
    pub direction: Direction,
    pub color: Rgba,
}

/// How far ahead of a player its collision probe lies, in fixed point, along
/// one axis: the unit component times 1.2 player radii, truncated.
pub open spec fn probe_offset(unit: int) -> int {
    div_toward_zero(unit * PLAYER_RADIUS * 12, 10)
}

/// The pixel a player's collision probe samples.
pub open spec fn probe(p: Player) -> Point<usize> {
    Point {
        x: pixel_index(p.location.x + probe_offset(p.direction.x as int)) as usize,
        y: pixel_index(p.location.y + probe_offset(p.direction.y as int)) as usize,
    }
}

fn probe_offset_exec(unit: i64) -> (o: i64)
    requires
        unit_component(unit as int),
    ensures
        o == probe_offset(unit as int),
        -0x2000 <= o <= 0x2000,
{
    let reach: i64 = PLAYER_RADIUS as i64 * 12;
    assert(-0x10000 <= unit * reach <= 0x10000) by (nonlinear_arith)
        requires
            -1024 <= unit <= 1024,
            reach == 60,
    ;
    let scaled: i64 = unit * reach;
    div_toward_zero_exec(scaled, 10)
}

impl Player {
    pub open spec fn wf(self) -> bool {
        &&& in_world(self.location.x as int)
        &&& in_world(self.location.y as int)
        &&& self.direction.wf()
    }

    /// The pixel that holds the player's position: each coordinate truncated
    /// toward zero, negative ones saturating at zero.
    pub fn coords(&self) -> (p: Point<usize>)
        requires
            self.wf(),
        ensures
            p.x == pixel_index(self.location.x as int),
            p.y == pixel_index(self.location.y as int),
    {
        Point { x: pixel_index_exec(self.location.x), y: pixel_index_exec(self.location.y) }
    }

    /// The pixels sampled to detect a collision: the single forward probe.
    pub fn colliders(&self) -> (v: Vec<Point<usize>>)
        requires
            self.wf(),
        ensures
            v@ == seq![probe(*self)],
    {
        let x = pixel_index_exec(self.location.x + probe_offset_exec(self.direction.x));
        let y = pixel_index_exec(self.location.y + probe_offset_exec(self.direction.y));
        let mut v: Vec<Point<usize>> = Vec::new();
        v.push(Point { x, y });
        proof {
            assert(v@ =~= seq![probe(*self)]);
        }
        v
    }

    /// Whether the probe samples a painted pixel, that is one whose red, green
    /// or blue channel is non-zero. Fails when the probe lies off the canvas.
    pub fn check_collision(&self, canvas: &GameCanvas) -> (res: Result<bool, CanvasError>)
        requires
            self.wf(),
            canvas.wf(),
        ensures
            match res {
                Ok(hit) => canvas.contains(probe(*self).x as int, probe(*self).y as int) && hit
                    == !is_blank(canvas.pixel(probe(*self).x as int, probe(*self).y as int)),
                Err(e) => !canvas.contains(probe(*self).x as int, probe(*self).y as int) && e
                    == CanvasError::OutOfBounds,
            },
    {
        let colliders = self.colliders();
        let mut k: usize = 0;
        while k < colliders.len()
            invariant
                colliders@ == seq![probe(*self)],
                canvas.wf(),
                k <= 1,
                k == 1 ==> canvas.contains(probe(*self).x as int, probe(*self).y as int) && is_blank(
                    canvas.pixel(probe(*self).x as int, probe(*self).y as int),
                ),
            decreases colliders.len() - k,
        {
            match canvas.at(&colliders[k]) {
                Ok(c) => {
                    if !c.alphaless_match(&Rgba::new(0, 0, 0, 0)) {
                        return Ok(true);
                    }
                },
                Err(e) => {
                    return Err(e);
                },
            }
            k = k + 1;
        }
        Ok(false)
    }
}

/// Whether the match is still being played. Once ended it stays ended.
#[derive(Debug, Clone, Copy, PartialEq, Eq, Structural)]
pub enum MatchState {
    Playing,
    Ended,
}

/// The turn keys one player holds during a frame.
#[derive(Debug, Clone, Copy, PartialEq, Eq, Structural)]
pub struct Turn {
    pub left: bool,
    pub right: bool,
}

/// How far a unit component carries a player in `micros` microseconds, in
/// fixed point, truncated.
pub open spec fn motion(unit: int, micros: int) -> int {
    div_toward_zero(unit * LINE_SPEED * micros, MICROS_PER_SECOND as int)
}

/// Player `p` after one frame of `micros` microseconds with keys `t`: turned
/// first, then moved along its new heading.
pub open spec fn advanced(p: Player, t: Turn, compass: Compass, micros: int) -> Player {
    let h = turned(p.direction.heading as int, t.left, t.right);
    let u = compass.unit(h);
    Player {
        location: Point {
            x: (p.location.x + motion(u.x as int, micros)) as i64,
            y: (p.location.y + motion(u.y as int, micros)) as i64,
        },
        direction: Direction { heading: h as u8, x: u.x, y: u.y },
        color: p.color,
    }
}

/// The new location of `p` lies in the world and its probe on the canvas.
pub open spec fn stays_on(p: Player, t: Turn, compass: Compass, micros: int, canvas: GameCanvas) -> bool {
    let h = turned(p.direction.heading as int, t.left, t.right);
    let u = compass.unit(h);
    let q = advanced(p, t, compass, micros);
    &&& in_world(p.location.x + motion(u.x as int, micros))
    &&& in_world(p.location.y + motion(u.y as int, micros))
    &&& canvas.contains(probe(q).x as int, probe(q).y as int)
}

/// Pixel (`i`, `j`) of `canvas` after the first `k` players of `ps` have
/// painted their circles, in order.
pub open spec fn painted(canvas: GameCanvas, ps: Seq<Player>, k: int, i: int, j: int) -> Rgba
    decreases k,
{
    if k <= 0 {
        canvas.pixel(i, j)
    } else if circle_covers(
        i,
        j,
        ps[k - 1].location.x as int,
        ps[k - 1].location.y as int,
        PLAYER_RADIUS as int,
    ) {
        ps[k - 1].color
    } else {
        painted(canvas, ps, k - 1, i, j)
    }
}

/// Player `k` of `ps` finds its probe on a painted pixel, the first `k`
/// players having painted before it.
pub open spec fn collides(canvas: GameCanvas, ps: Seq<Player>, k: int) -> bool {
    !is_blank(painted(canvas, ps, k, probe(ps[k]).x as int, probe(ps[k]).y as int))
}

/// The shared state of a match.
#[derive(Debug)]
pub struct Game {
    pub canvas: GameCanvas,
    pub players: Vec<Player>,
    pub state: MatchState,
    pub compass: Compass,
}

impl Game {
    pub open spec fn wf(&self) -> bool {
        &&& self.canvas.wf()
        &&& self.compass.wf()
        &&& forall|k: int| 0 <= k < self.players@.len() ==> (#[trigger] self.players@[k]).wf()
    }

    /// Every player after this frame, in order.
    pub open spec fn advanced_all(&self, input: Seq<Turn>, micros: int) -> Seq<Player> {
        Seq::new(
            self.players@.len(),
            |k: int| advanced(self.players@[k], input[k], self.compass, micros),
        )
    }

    /// The factor on every player's speed: one while the match is played,
    /// zero once it has ended.
    pub fn line_speed_multiplier(&self) -> (m: i64)
        ensures
            m == if self.state == MatchState::Playing {
                1i64
            } else {
                0i64
            },
    {
        match self.state {
            MatchState::Playing => 1,
            MatchState::Ended => 0,
        }
    }

    /// A match in progress. `None` unless every player is well formed.
    pub fn new(canvas: GameCanvas, players: Vec<Player>, compass: Compass) -> (res: Option<Game>)
        requires
            canvas.wf(),
            compass.wf(),
        ensures
            res is Some <==> forall|k: int| 0 <= k < players@.len() ==> (#[trigger] players@[k]).wf(),
            res matches Some(g) ==> g.wf() && g.state == MatchState::Playing && g.players@ == players@
                && g.canvas == canvas && g.compass == compass,
    {
        let mut k: usize = 0;
        while k < players.len()
            invariant
                k <= players@.len(),
                forall|m: int| 0 <= m < k ==> (#[trigger] players@[m]).wf(),
            decreases players.len() - k,
        {
            let p = players[k];
            if p.location.x <= -COORD_LIMIT || p.location.x >= COORD_LIMIT || p.location.y
                <= -COORD_LIMIT || p.location.y >= COORD_LIMIT || p.direction.x < -SUBPIXELS
                || p.direction.x > SUBPIXELS || p.direction.y < -SUBPIXELS || p.direction.y
                > SUBPIXELS {
                return None;
            }
            k = k + 1;
        }
        Some(Game { canvas, players, state: MatchState::Playing, compass })
    }

    /// One frame. Once the match has ended nothing changes. While it is being
    /// played, each player in turn is turned by its keys, moved along its new
    /// heading, checked for a collision against the canvas as the players before
    /// it left it, and then painted as a circle at its new location. Any
    /// collision ends the match after the frame. Fails when a player's location
    /// would leave the world or its probe the canvas; the frame is then abandoned
    /// where it stands.
    pub fn step(&mut self, input: &Vec<Turn>, micros: u32) -> (res: Result<(), CanvasError>)
        requires
            old(self).wf(),
            input@.len() == old(self).players@.len(),
        ensures
            final(self).wf(),
            res is Err ==> res == Err::<(), CanvasError>(CanvasError::OutOfBounds),
            old(self).state == MatchState::Ended ==> res is Ok && final(self).state
                == MatchState::Ended && final(self).players@ == old(self).players@
                && final(self).canvas == old(self).canvas,
            old(self).state == MatchState::Playing ==> {
                &&& res is Ok <==> forall|k: int|
                    0 <= k < old(self).players@.len() ==> stays_on(
                        #[trigger] old(self).players@[k],
                        input@[k],
                        old(self).compass,
                        micros as int,
                        old(self).canvas,
                    )
                &&& res is Ok ==> {
                    &&& final(self).players@ == old(self).advanced_all(input@, micros as int)
                    &&& final(self).canvas.width_spec() == old(self).canvas.width_spec()
                    &&& final(self).canvas.height_spec() == old(self).canvas.height_spec()
                    &&& forall|i: int, j: int| #[trigger]
                        final(self).canvas.contains(i, j) ==> final(self).canvas.pixel(i, j)
                            == painted(
                            old(self).canvas,
                            final(self).players@,
                            final(self).players@.len() as int,
                            i,
                            j,
                        )
                    &&& final(self).state == MatchState::Ended <==> exists|k: int|
                        0 <= k < final(self).players@.len() && #[trigger] collides(
                            old(self).canvas,
                            final(self).players@,
                            k,
                        )
                }
            },
    {
        match self.state {
            MatchState::Ended => {
                return Ok(());
            },
            MatchState::Playing => {},
        }
        let ghost start = *self;
        let ghost after = start.advanced_all(input@, micros as int);
        let n: usize = self.players.len();
        let mut ended = false;
        let mut k: usize = 0;
        while k < n
            invariant
                self.wf(),
                start == *old(self),
                self.compass == start.compass,
                self.state == start.state,
                start.state == MatchState::Playing,
                n == self.players@.len(),
                n == start.players@.len(),
                n == input@.len(),
                after == start.advanced_all(input@, micros as int),
                k <= n,
                forall|m: int| 0 <= m < k ==> #[trigger] self.players@[m] == after[m],
                forall|m: int| k <= m < n ==> #[trigger] self.players@[m] == start.players@[m],
                forall|m: int|
                    0 <= m < k ==> stays_on(
                        #[trigger] start.players@[m],
                        input@[m],
                        start.compass,
                        micros as int,
                        start.canvas,
                    ),
                self.canvas.width_spec() == start.canvas.width_spec(),
                self.canvas.height_spec() == start.canvas.height_spec(),
                forall|i: int, j: int| #[trigger]
                    self.canvas.contains(i, j) ==> self.canvas.pixel(i, j) == painted(
                        start.canvas,
                        after,
                        k as int,
                        i,
                        j,
                    ),
                ended <==> exists|m: int| 0 <= m < k && #[trigger] collides(start.canvas, after, m),
            decreases n - k,
        {
            let p = self.players[k];
            let t = input[k];
            let mut h: u16 = p.direction.heading as u16 + 256;
            if t.left {
                h = h + 1;
            }
            if t.right {
                h = h - 1;
            }
            let heading: u8 = (h % 256) as u8;
            assert(heading == turned(p.direction.heading as int, t.left, t.right));
            let d = self.compass.direction(heading);
            let mx = motion_exec(d.x, micros);
            let my = motion_exec(d.y, micros);
            let nx = p.location.x + mx;
            let ny = p.location.y + my;
            if nx <= -COORD_LIMIT || nx >= COORD_LIMIT || ny <= -COORD_LIMIT || ny >= COORD_LIMIT {
                assert(!stays_on(
                    start.players@[k as int],
                    input@[k as int],
                    start.compass,
                    micros as int,
                    start.canvas,
                ));
                return Err(CanvasError::OutOfBounds);
            }
            let q = Player { location: Point { x: nx, y: ny }, direction: d, color: p.color };
            assert(q == after[k as int]);
            let hit = match q.check_collision(&self.canvas) {
                Ok(hit) => hit,
                Err(e) => {
                    assert(!stays_on(
                        start.players@[k as int],
                        input@[k as int],
                        start.compass,
                        micros as int,
                        start.canvas,
                    ));
                    return Err(e);
                },
            };
            proof {
                assert(hit == collides(start.canvas, after, k as int));
            }
            if hit {
                ended = true;
            }
            self.players.set(k, q);
            let ghost prev = self.canvas;
            self.canvas.draw_circle(nx, ny, PLAYER_RADIUS, &q.color);
            proof {
                assert forall|i: int, j: int| #[trigger] self.canvas.contains(i, j) implies self.canvas.pixel(
                    i,
                    j,
                ) == painted(start.canvas, after, k + 1, i, j) by {
                    assert(prev.contains(i, j));
                }
                assert forall|m: int| 0 <= m < k + 1 implies #[trigger] self.players@[m] == after[m] by {
                }
            }
            k = k + 1;
        }
        proof {
            assert(self.players@ =~= after);
        }
        if ended {
            self.state = MatchState::Ended;
        }
        Ok(())
    }
}

fn motion_exec(unit: i64, micros: u32) -> (m: i64)
    requires
        unit_component(unit as int),
    ensures
        m == motion(unit as int, micros as int),
        -0x1000_0000 <= m <= 0x1000_0000,
{
    let speed: i64 = unit * LINE_SPEED;
    assert(-0x1000_0000_0000_0000 <= speed * (micros as i64) <= 0x1000_0000_0000_0000) by (nonlinear_arith)
        requires
            -30720 <= speed <= 30720,
            0 <= micros <= 0xffff_ffff,
    ;
    let scaled: i64 = speed * micros as i64;
    assert(scaled == unit * LINE_SPEED * micros);
    assert(-0x8000_0000_0000 <= scaled <= 0x8000_0000_0000) by (nonlinear_arith)
        requires
            -30720 <= speed <= 30720,
            0 <= micros <= 0xffff_ffff,
            scaled == speed * micros,
    ;
    div_toward_zero_exec(scaled, MICROS_PER_SECOND)
}

} // verus!
