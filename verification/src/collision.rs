//! Separation of the player from rigid colliders, one axis at a time.

use crate::descriptor::{Collider, ColliderStyle};
use crate::geometry::{Point, Rect, WORLD_LIMIT};
use crate::player::Player;
use vstd::prelude::*;

verus! {

/// What one collider asks of the player's position.
#[derive(Clone, Copy, Debug, PartialEq, Eq, Structural)]
pub enum Correction {
    /// Nothing.
    Stay,
    /// A new `x`.
    AlongX(i64),
    /// A new `y`.
    AlongY(i64),
}

/// What the rectangle `c` asks of a player that covers `p`.
///
/// Where the two share no area, nothing. Where their common part is
/// narrower than high, the player leaves along x: to the left of `c` if
/// its left edge lies left of that of `c`, else to the right of `c`. Where
/// it is wider than high, the player leaves along y by the same rule. Where
/// it is as wide as high, nothing.
pub open spec fn correction(p: Rect, c: Rect) -> Correction {
    let w = p.overlap_width(c);
    let h = p.overlap_height(c);
    if !p.overlaps(c) {
        Correction::Stay
    } else if w < h {
        if p.x0 < c.x0 {
            Correction::AlongX((c.x0 - p.spec_width()) as i64)
        } else {
            Correction::AlongX(c.x1)
        }
    } else if w > h {
        if p.y0 < c.y0 {
            Correction::AlongY((c.y0 - p.spec_height()) as i64)
        } else {
            Correction::AlongY(c.y1)
        }
    } else {
        Correction::Stay
    }
}

/// A position after a correction.
pub open spec fn corrected(position: Point, k: Correction) -> Point {
    match k {
        Correction::Stay => position,
        Correction::AlongX(x) => Point { x, y: position.y },
        Correction::AlongY(y) => Point { x: position.x, y },
    }
}

/// What the collider `c` asks of a player that covers `p`: nothing unless
/// it is rigid.
pub open spec fn demand(p: Rect, c: Collider) -> Correction {
    if c.style == ColliderStyle::Rigid {
        correction(p, c.spec_rect())
    } else {
        Correction::Stay
    }
}

/// The position after every collider, in order, has had its correction.
/// Each collider is held against `p`, the rectangle that the player
/// covered before the first correction.
pub open spec fn resolved(position: Point, p: Rect, colliders: Seq<Collider>) -> Point
    decreases colliders.len(),
{
    if colliders.len() == 0 {
        position
    } else {
        corrected(resolved(position, p, colliders.drop_last()), demand(p, colliders.last()))
    }
}

/// Every collider lies within the world.
pub open spec fn all_wf(colliders: Seq<Collider>) -> bool {
    forall|i: int| 0 <= i < colliders.len() ==> (#[trigger] colliders[i]).wf()
}

/// Whether every collider lies within the world.
pub fn all_within_world(colliders: &Vec<Collider>) -> (b: bool)
    ensures
        b == all_wf(colliders@),
{
    let n: usize = colliders.len();
    let mut i: usize = 0;
    while i < n
        invariant
            n == colliders@.len(),
            i <= n,
            forall|k: int| 0 <= k < i ==> (#[trigger] colliders@[k]).wf(),
        decreases n - i,
    {
        if !colliders[i].within_world() {
            return false;
        }
        i += 1;
    }
    true
}

/// What the rectangle `c` asks of a player that covers `p`.
pub fn correct(p: &Rect, c: &Rect) -> (k: Correction)
    requires
        -2 * WORLD_LIMIT <= p.x0 <= p.x1 <= 2 * WORLD_LIMIT,
        -2 * WORLD_LIMIT <= p.y0 <= p.y1 <= 2 * WORLD_LIMIT,
        -2 * WORLD_LIMIT <= c.x0 <= 2 * WORLD_LIMIT,
        -2 * WORLD_LIMIT <= c.y0 <= 2 * WORLD_LIMIT,
        -2 * WORLD_LIMIT <= c.x1 <= 2 * WORLD_LIMIT,
        -2 * WORLD_LIMIT <= c.y1 <= 2 * WORLD_LIMIT,
    ensures
        k == correction(*p, *c),
{
    if !p.intersects(c) {
        return Correction::Stay;
    }
    let common: Rect = p.intersect(c);
    let w: i64 = common.x1 - common.x0;
    let h: i64 = common.y1 - common.y0;
    if w < h {
        if p.x0 < c.x0 {
            Correction::AlongX(c.x0 - (p.x1 - p.x0))
        } else {
            Correction::AlongX(c.x1)
        }
    } else if w > h {
        if p.y0 < c.y0 {
            Correction::AlongY(c.y0 - (p.y1 - p.y0))
        } else {
            Correction::AlongY(c.y1)
        }
    } else {
        Correction::Stay
    }
}

/// Moves the player out of the rigid colliders among `colliders`.
///
/// The colliders are taken in order, and none ends the pass. Each is held
/// against the rectangle that the player covered on entry, and sets `x` or
/// `y` of the position where it has a correction: of two that correct the
/// same axis, the later one stands.
pub fn collision_detection(player: &mut Player, colliders: &Vec<Collider>)
    requires
        old(player).wf(),
        all_wf(colliders@),
    ensures
        final(player).position == resolved(
            old(player).position,
            old(player).spec_rect(),
            colliders@,
        ),
        final(player).velocity == old(player).velocity,
        final(player).hitbox == old(player).hitbox,
        final(player).facing_left == old(player).facing_left,
{
    let p: Rect = player.rect();
    let ghost start = player.position;
    let n: usize = colliders.len();
    let mut i: usize = 0;
    assert(colliders@.take(0) =~= Seq::<Collider>::empty());
    while i < n
        invariant
            n == colliders@.len(),
            i <= n,
            all_wf(colliders@),
            p == old(player).spec_rect(),
            p.x0 <= p.x1,
            p.y0 <= p.y1,
            -WORLD_LIMIT <= p.x0,
            -WORLD_LIMIT <= p.y0,
            p.x1 <= 2 * WORLD_LIMIT,
            p.y1 <= 2 * WORLD_LIMIT,
            start == old(player).position,
            player.position == resolved(start, p, colliders@.take(i as int)),
            player.velocity == old(player).velocity,
            player.hitbox == old(player).hitbox,
            player.facing_left == old(player).facing_left,
        decreases n - i,
    {
        let c: &Collider = &colliders[i];
        proof {
            assert(colliders@[i as int].wf());
            assert(colliders@.take(i + 1).drop_last() =~= colliders@.take(i as int));
            assert(colliders@.take(i + 1).last() == *c);
        }
        match c.style {
            ColliderStyle::Rigid => {
                let area: Rect = c.rect();
                match correct(&p, &area) {
                    Correction::Stay => {},
                    Correction::AlongX(x) => {
                        player.position.x = x;
                    },
                    Correction::AlongY(y) => {
                        player.position.y = y;
                    },
                }
            },
            _ => {},
        }
        i += 1;
    }
    assert(colliders@.take(n as int) =~= colliders@);
}

/// After its correction, the player shares no area with the collider that
/// asked for it: along the axis of the correction the two no longer meet.
/// This holds of every rigid collider that the player overlaps, except
/// where the common part is as wide as high, which moves nothing.
pub proof fn law_correction_separates(player: Player, c: Collider)
    requires
        player.wf(),
        c.wf(),
        c.style == ColliderStyle::Rigid,
        player.spec_rect().overlaps(c.spec_rect()),
        player.spec_rect().overlap_width(c.spec_rect()) != player.spec_rect().overlap_height(
            c.spec_rect(),
        ),
    ensures
        ({
            let p = player.spec_rect();
            let after = Player { position: resolved(player.position, p, seq![c]), ..player };
            &&& p.overlap_width(c.spec_rect()) < p.overlap_height(c.spec_rect())
                ==> after.spec_rect().overlap_width(c.spec_rect()) == 0
            &&& p.overlap_width(c.spec_rect()) > p.overlap_height(c.spec_rect())
                ==> after.spec_rect().overlap_height(c.spec_rect()) == 0
            &&& after.spec_rect().overlap_area(c.spec_rect()) == 0
            &&& !after.spec_rect().overlaps(c.spec_rect())
        }),
{
    let p = player.spec_rect();
    let one = seq![c];
    assert(one.drop_last() =~= Seq::<Collider>::empty());
    assert(one.last() == c);
    assert(resolved(player.position, p, one.drop_last()) == player.position);
    assert(resolved(player.position, p, one) == corrected(player.position, demand(p, c)));
    let after = Player { position: resolved(player.position, p, one), ..player };
    let q = after.spec_rect();
    let r = c.spec_rect();
    if p.overlap_width(r) < p.overlap_height(r) {
        assert(q.overlap_width(r) == 0);
        assert(q.overlap_width(r) * q.overlap_height(r) == 0) by (nonlinear_arith)
            requires
                q.overlap_width(r) == 0,
        ;
    } else {
        assert(q.overlap_height(r) == 0);
        assert(q.overlap_width(r) * q.overlap_height(r) == 0) by (nonlinear_arith)
            requires
                q.overlap_height(r) == 0,
        ;
    }
}

/// A player that shares no area with any rigid collider stays where it is.
pub proof fn law_separated_stays(player: Player, colliders: Seq<Collider>)
    requires
        forall|i: int|
            0 <= i < colliders.len() && (#[trigger] colliders[i]).style == ColliderStyle::Rigid
                ==> !player.spec_rect().overlaps(colliders[i].spec_rect()),
    ensures
        resolved(player.position, player.spec_rect(), colliders) == player.position,
    decreases colliders.len(),
{
    if colliders.len() > 0 {
        let rest = colliders.drop_last();
        assert forall|i: int|
            0 <= i < rest.len() && (#[trigger] rest[i]).style
                == ColliderStyle::Rigid implies !player.spec_rect().overlaps(
            rest[i].spec_rect(),
        ) by {
            assert(rest[i] == colliders[i]);
        }
        law_separated_stays(player, rest);
        let last = colliders[colliders.len() - 1];
        assert(colliders.last() == last);
    }
}

/// A second pass against the same collider moves nothing: the first has
/// either separated the two or, where their common part is as wide as
/// high, left the player where it was.
pub proof fn law_second_pass_stays(player: Player, c: Collider)
    requires
        player.wf(),
        c.wf(),
    ensures
        ({
            let once = Player {
                position: resolved(player.position, player.spec_rect(), seq![c]),
                ..player
            };
            resolved(once.position, once.spec_rect(), seq![c]) == once.position
        }),
{
    let p = player.spec_rect();
    let one = seq![c];
    assert(one.drop_last() =~= Seq::<Collider>::empty());
    assert(one.last() == c);
    assert(resolved(player.position, p, one.drop_last()) == player.position);
    let once = Player { position: resolved(player.position, p, one), ..player };
    assert(resolved(once.position, once.spec_rect(), one.drop_last()) == once.position);
    if c.style == ColliderStyle::Rigid && p.overlaps(c.spec_rect()) && p.overlap_width(
        c.spec_rect(),
    ) != p.overlap_height(c.spec_rect()) {
        law_correction_separates(player, c);
    } else {
        assert(once.position == player.position);
    }
}

} // verus!
