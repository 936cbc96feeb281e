//! The player: thrust, drift and friction on a fixed tick.

use crate::geometry::{in_world, inside, Point, Rect, Size, STEPS_PER_UNIT, WORLD_LIMIT};
use vstd::prelude::*;

verus! {

/// Simulation ticks in one second.
pub const TICKS_PER_SECOND: i64 = 64;

/// Steps of velocity in one world unit a second. One step of velocity is
/// one step of the world grid a tick: `STEPS_PER_UNIT` is
/// `TICKS_PER_SECOND` times this.
pub const SPEED_STEPS_PER_UNIT: i64 = 1_000;

/// Speed along x while left or right is held: 150 world units a second.
pub const RUN_SPEED: i64 = 150_000;

/// Speed along y while up or down is held: 120 world units a second.
pub const CLIMB_SPEED: i64 = 120_000;

/// Each tick leaves `FRICTION_KEEPS` parts in `FRICTION_OF` of a velocity.
pub const FRICTION_KEEPS: i64 = 99;

/// See `FRICTION_KEEPS`.
pub const FRICTION_OF: i64 = 100;

/// Width of the player's hitbox: 30 world units, five eighths of a tile.
pub const HITBOX_WIDTH: i64 = 1_920_000;

/// Height of the player's hitbox: 9.6 world units, a fifth of a tile.
pub const HITBOX_HEIGHT: i64 = 614_400;

/// How far left of the player its shadow lies: 6 world units, an eighth
/// of a tile.
pub const SHADOW_OFFSET: i64 = 384_000;

/// A velocity, in steps a tick: thousandths of a world unit a second.
#[derive(Clone, Copy, Debug, PartialEq, Eq, Structural)]
pub struct Velocity {
    pub x: i64,
    pub y: i64,
}

/// The directions that are held during one tick.
#[derive(Clone, Copy, Debug, PartialEq, Eq, Structural)]
pub struct Intent {
    pub up: bool,
    pub down: bool,
    pub left: bool,
    pub right: bool,
}

/// The player: the lower left corner of its hitbox, its velocity, the size
/// of its hitbox, and the side it faces.
///
/// The player has one hitbox. Colliders stop it, and rooms wake and go to
/// sleep by it.
#[derive(Clone, Copy, Debug, PartialEq, Eq, Structural)]
pub struct Player {
    pub position: Point,
    pub velocity: Velocity,
    pub hitbox: Size,
    pub facing_left: bool,
}

/// `a` divided by `d`, rounded towards zero.
pub open spec fn toward_zero(a: int, d: int) -> int {
    if a >= 0 {
        a / d
    } else {
        -((-a) / d)
    }
}

/// A velocity along one axis after the input of a tick: the speed in the
/// direction that is held alone, the old velocity where none or both are.
pub open spec fn thrust(v: int, forward: bool, backward: bool, speed: int) -> int {
    if forward && !backward {
        speed
    } else if backward && !forward {
        -speed
    } else {
        v
    }
}

/// A velocity after one tick of friction.
pub open spec fn decayed(v: int) -> int {
    toward_zero(v * FRICTION_KEEPS, FRICTION_OF as int)
}

/// How far a velocity carries in one tick, in steps of the world grid:
/// as many as the velocity has steps, with nothing lost.
pub open spec fn travel(v: int) -> int {
    v
}

/// The side faced after the input of a tick.
pub open spec fn facing(was_left: bool, intent: Intent) -> bool {
    if intent.left && !intent.right {
        true
    } else if intent.right && !intent.left {
        false
    } else {
        was_left
    }
}

/// One tick of friction on a velocity.
pub fn friction(v: i64) -> (r: i64)
    ensures
        r == decayed(v as int),
        v > 0 ==> 0 <= r < v,
        v < 0 ==> v < r <= 0,
        v == 0 ==> r == 0,
        v >= 2 ==> r >= 1,
        v <= -2 ==> r <= -1,
{
    let wide: i128 = v as i128;
    if wide >= 0 {
        let q: i128 = (wide * 99) / 100;
        assert(q <= wide && (wide > 0 ==> q < wide) && (wide >= 2 ==> q >= 1) && q >= 0)
            by (nonlinear_arith)
            requires
                q == (wide * 99) / 100,
                wide >= 0,
        ;
        q as i64
    } else {
        let m: i128 = -wide;
        let q: i128 = (m * 99) / 100;
        assert(q < m && (m >= 2 ==> q >= 1) && q >= 0) by (nonlinear_arith)
            requires
                q == (m * 99) / 100,
                m > 0,
        ;
        (-q) as i64
    }
}

/// What the player covers in a tick is exact, and a second of ticks at
/// full thrust is the full speed: 150 world units along x, 120 along y.
pub proof fn law_tick_is_exact()
    ensures
        STEPS_PER_UNIT == TICKS_PER_SECOND * SPEED_STEPS_PER_UNIT,
        RUN_SPEED == 150 * SPEED_STEPS_PER_UNIT,
        CLIMB_SPEED == 120 * SPEED_STEPS_PER_UNIT,
        TICKS_PER_SECOND * travel(RUN_SPEED as int) == 150 * STEPS_PER_UNIT,
        TICKS_PER_SECOND * travel(CLIMB_SPEED as int) == 120 * STEPS_PER_UNIT,
        forall|v: int| TICKS_PER_SECOND * SPEED_STEPS_PER_UNIT * #[trigger] travel(v) == v
            * STEPS_PER_UNIT,
{
}

/// A velocity after `ticks` ticks of friction and no thrust.
pub open spec fn decayed_by(v: int, ticks: nat) -> int
    decreases ticks,
{
    if ticks == 0 {
        v
    } else {
        decayed(decayed_by(v, (ticks - 1) as nat))
    }
}

/// One tick of friction brings a velocity nearer to zero and never past
/// it: a velocity that is not zero loses some of its magnitude and keeps
/// its sign, and stays other than zero unless its magnitude was one step.
pub proof fn law_friction_brakes(v: int)
    ensures
        v > 0 ==> 0 <= decayed(v) < v,
        v < 0 ==> v < decayed(v) <= 0,
        v == 0 ==> decayed(v) == 0,
        v >= 2 ==> decayed(v) >= 1,
        v <= -2 ==> decayed(v) <= -1,
{
    if v >= 0 {
        let q = (v * 99) / 100;
        assert(q <= v && (v > 0 ==> q < v) && (v >= 2 ==> q >= 1) && q >= 0) by (nonlinear_arith)
            requires
                q == (v * 99) / 100,
                v >= 0,
        ;
    } else {
        let m = -v;
        let q = (m * 99) / 100;
        assert(q < m && (m >= 2 ==> q >= 1) && q >= 0) by (nonlinear_arith)
            requires
                q == (m * 99) / 100,
                m > 0,
        ;
        assert(-(v * 99) == m * 99);
    }
}

/// Without thrust a velocity only wears down: tick after tick its
/// magnitude shrinks while it is not zero, and its sign never turns.
pub proof fn law_friction_wears_down(v: int, ticks: nat)
    ensures
        v >= 0 ==> 0 <= decayed_by(v, ticks + 1) <= decayed_by(v, ticks) <= v,
        v <= 0 ==> v <= decayed_by(v, ticks) <= decayed_by(v, ticks + 1) <= 0,
        decayed_by(v, ticks) != 0 ==> decayed_by(v, ticks + 1) != decayed_by(v, ticks),
    decreases ticks,
{
    law_friction_brakes(decayed_by(v, ticks));
    if ticks > 0 {
        law_friction_wears_down(v, (ticks - 1) as nat);
    }
}

impl Player {
    /// Position and velocity lie within the world, and the hitbox has an
    /// extent that is not negative and lies within the world.
    pub open spec fn wf(self) -> bool {
        &&& in_world(self.position.x as int)
        &&& in_world(self.position.y as int)
        &&& in_world(self.velocity.x as int)
        &&& in_world(self.velocity.y as int)
        &&& 0 <= self.hitbox.w <= WORLD_LIMIT
        &&& 0 <= self.hitbox.h <= WORLD_LIMIT
    }

    /// The rectangle that the player covers.
    pub open spec fn spec_rect(self) -> Rect {
        Rect::spec_at(self.position, self.hitbox)
    }

    /// The player after one tick with the input `intent`: thrust sets the
    /// velocity, the velocity moves the position, friction has the last
    /// word.
    pub open spec fn advanced(self, intent: Intent) -> Player {
        let vx = thrust(self.velocity.x as int, intent.right, intent.left, RUN_SPEED as int);
        let vy = thrust(self.velocity.y as int, intent.up, intent.down, CLIMB_SPEED as int);
        Player {
            position: Point {
                x: (self.position.x + travel(vx)) as i64,
                y: (self.position.y + travel(vy)) as i64,
            },
            velocity: Velocity { x: decayed(vx) as i64, y: decayed(vy) as i64 },
            hitbox: self.hitbox,
            facing_left: facing(self.facing_left, intent),
        }
    }

    /// Where the player's shadow lies.
    pub open spec fn spec_shadow(self) -> Point {
        Point { x: (self.position.x - SHADOW_OFFSET) as i64, y: self.position.y }
    }

    /// A player at rest at `position`, with the usual hitbox, facing right.
    pub fn new(position: Point) -> (p: Player)
        ensures
            p.position == position,
            p.velocity == (Velocity { x: 0, y: 0 }),
            p.hitbox == (Size { w: HITBOX_WIDTH, h: HITBOX_HEIGHT }),
            !p.facing_left,
            in_world(position.x as int) && in_world(position.y as int) ==> p.wf(),
    {
        Player {
            position,
            velocity: Velocity { x: 0, y: 0 },
            hitbox: Size { w: HITBOX_WIDTH, h: HITBOX_HEIGHT },
            facing_left: false,
        }
    }

    /// Whether the player lies within the world.
    pub fn within_world(&self) -> (b: bool)
        ensures
            b == self.wf(),
    {
        inside(self.position.x) && inside(self.position.y) && inside(self.velocity.x) && inside(
            self.velocity.y,
        ) && 0 <= self.hitbox.w && self.hitbox.w
            <= WORLD_LIMIT && 0 <= self.hitbox.h && self.hitbox.h <= WORLD_LIMIT
    }

    /// The rectangle that the player covers.
    pub fn rect(&self) -> (r: Rect)
        requires
            self.wf(),
        ensures
            r == self.spec_rect(),
            r.x0 == self.position.x,
            r.y0 == self.position.y,
            r.x1 == self.position.x + self.hitbox.w,
            r.y1 == self.position.y + self.hitbox.h,
    {
        Rect::at(self.position, self.hitbox)
    }

    /// Where the player's shadow lies.
    pub fn shadow(&self) -> (s: Point)
        requires
            in_world(self.position.x as int),
        ensures
            s == self.spec_shadow(),
            s.x == self.position.x - SHADOW_OFFSET,
    {
        Point { x: self.position.x - SHADOW_OFFSET, y: self.position.y }
    }

    /// Advances the player by one tick.
    pub fn player_movement(&mut self, intent: Intent)
        requires
            in_world(old(self).position.x as int),
            in_world(old(self).position.y as int),
            in_world(old(self).velocity.x as int),
            in_world(old(self).velocity.y as int),
        ensures
            *final(self) == old(self).advanced(intent),
            final(self).position.x == old(self).position.x + travel(
                thrust(old(self).velocity.x as int, intent.right, intent.left, RUN_SPEED as int),
            ),
            final(self).position.y == old(self).position.y + travel(
                thrust(old(self).velocity.y as int, intent.up, intent.down, CLIMB_SPEED as int),
            ),
    {
        if intent.up && !intent.down {
            self.velocity.y = CLIMB_SPEED;
        }
        if intent.down && !intent.up {
            self.velocity.y = -CLIMB_SPEED;
        }
        if intent.right && !intent.left {
            self.velocity.x = RUN_SPEED;
            self.facing_left = false;
        }
        if intent.left && !intent.right {
            self.velocity.x = -RUN_SPEED;
            self.facing_left = true;
        }
        self.position.y = self.position.y + self.velocity.y;
        self.position.x = self.position.x + self.velocity.x;
        self.velocity.y = friction(self.velocity.y);
        self.velocity.x = friction(self.velocity.x);
    }
}

} // verus!
