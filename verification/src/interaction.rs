//! Things of a level that the player can interact with.

use crate::geometry::{in_world, Point, Rect, TILE};
use crate::number::{decimal, push_decimal};
use vstd::prelude::*;
use vstd::string::StringExecFns;

verus! {

/// A side from which the player may approach.
#[derive(Clone, Copy, Debug, PartialEq, Eq, Structural)]
pub enum Facing {
    Up,
    Down,
    Left,
    Right,
}

/// The name of an entity of the world: the index of its slot, and how
/// often that slot has been given out.
#[derive(Clone, Copy, Debug, PartialEq, Eq, Structural)]
pub struct EntityId {
    pub index: u32,
    pub generation: u32,
}

/// The label of an entity: its index, the letter `v`, its generation.
pub open spec fn label_of(entity: EntityId) -> Seq<char> {
    decimal(entity.index as nat) + seq!['v'] + decimal(entity.generation as nat)
}

/// The content of each string of `v`, in order.
pub open spec fn texts(v: Seq<String>) -> Seq<Seq<char>> {
    Seq::new(v.len(), |i: int| v[i]@)
}

/// The entries of `labels` that are `label`.
pub open spec fn only(labels: Seq<Seq<char>>, label: Seq<char>) -> Seq<Seq<char>>
    decreases labels.len(),
{
    if labels.len() == 0 {
        Seq::empty()
    } else if labels.last() == label {
        only(labels.drop_last(), label).push(label)
    } else {
        only(labels.drop_last(), label)
    }
}

impl EntityId {
    /// The label of the entity.
    pub fn label(&self) -> (s: String)
        ensures
            s@ == label_of(*self),
    {
        let mut s: String = String::new();
        push_decimal(&mut s, self.index);
        proof {
            reveal_strlit("v");
        }
        s.append("v");
        push_decimal(&mut s, self.generation);
        assert(s@ =~= label_of(*self));
        s
    }
}

/// A place of a level where something happens when the player, facing
/// the right way, asks for it.
#[derive(Debug)]
pub struct Interactable {
    pub boundary: Rect,
    pub valid_directions: Vec<Facing>,
    pub interaction_count: u32,
    pub action: Vec<String>,
    pub dependencies: Vec<String>,
}

/// The whole number of tiles nearest to `v`; of two that are as near, the
/// one farther from zero.
pub open spec fn snapped(v: int) -> int {
    if v >= 0 {
        ((v + TILE / 2) / (TILE as int)) * TILE
    } else {
        -(((-v + TILE / 2) / (TILE as int)) * TILE)
    }
}

/// Moves `v` to the nearest whole number of tiles.
pub fn snap(v: i64) -> (r: i64)
    requires
        in_world(v as int),
    ensures
        r == snapped(v as int),
        r % TILE == 0,
        -(TILE / 2) <= r - v <= TILE / 2,
{
    if v >= 0 {
        let q: i64 = (v + TILE / 2) / TILE;
        q * TILE
    } else {
        let q: i64 = (-v + TILE / 2) / TILE;
        -(q * TILE)
    }
}

impl Interactable {
    /// An interactable of one tile that may be approached from every
    /// side, on the grid place nearest to `position`.
    pub fn at_grid(position: Point) -> (r: Interactable)
        requires
            in_world(position.x as int),
            in_world(position.y as int),
        ensures
            r.boundary.x0 == snapped(position.x as int),
            r.boundary.y0 == snapped(position.y as int),
            r.boundary.x1 == r.boundary.x0 + TILE,
            r.boundary.y1 == r.boundary.y0 + TILE,
            r.valid_directions@ == seq![Facing::Up, Facing::Down, Facing::Left, Facing::Right],
            r.interaction_count == 0,
            r.action@.len() == 0,
            r.dependencies@.len() == 0,
    {
        let x: i64 = snap(position.x);
        let y: i64 = snap(position.y);
        let mut sides: Vec<Facing> = Vec::new();
        sides.push(Facing::Up);
        sides.push(Facing::Down);
        sides.push(Facing::Left);
        sides.push(Facing::Right);
        assert(sides@ =~= seq![Facing::Up, Facing::Down, Facing::Left, Facing::Right]);
        Interactable::new(Rect { x0: x, y0: y, x1: x + TILE, y1: y + TILE }, sides)
    }

    /// An interactable that nothing has touched: no actions, no
    /// dependencies, a count of zero.
    pub fn new(boundary: Rect, valid_directions: Vec<Facing>) -> (r: Interactable)
        ensures
            r.boundary == boundary,
            r.valid_directions@ == valid_directions@,
            r.interaction_count == 0,
            r.action@.len() == 0,
            r.dependencies@.len() == 0,
    {
        Interactable {
            action: Vec::new(),
            boundary,
            dependencies: Vec::new(),
            interaction_count: 0,
            valid_directions,
        }
    }

    /// Counts one interaction.
    pub fn interact(&mut self)
        requires
            old(self).interaction_count < u32::MAX,
        ensures
            final(self).interaction_count == old(self).interaction_count + 1,
            final(self).boundary == old(self).boundary,
            final(self).valid_directions == old(self).valid_directions,
            final(self).action == old(self).action,
            final(self).dependencies == old(self).dependencies,
    {
        self.interaction_count += 1;
    }

    /// Adds the label of `entity` at the end of the dependencies.
    pub fn add_dependancy(&mut self, entity: EntityId)
        ensures
            texts(final(self).dependencies@) == texts(old(self).dependencies@).push(
                label_of(entity),
            ),
            final(self).boundary == old(self).boundary,
            final(self).valid_directions == old(self).valid_directions,
            final(self).action == old(self).action,
            final(self).interaction_count == old(self).interaction_count,
    {
        let label: String = entity.label();
        self.dependencies.push(label);
        assert(texts(self.dependencies@) =~= texts(old(self).dependencies@).push(
            label_of(entity),
        ));
    }

    /// Keeps, of the dependencies, only those that are the label of
    /// `entity`; all others leave.
    pub fn clear_dependancy(&mut self, entity: EntityId)
        ensures
            texts(final(self).dependencies@) == only(
                texts(old(self).dependencies@),
                label_of(entity),
            ),
            final(self).boundary == old(self).boundary,
            final(self).valid_directions == old(self).valid_directions,
            final(self).action == old(self).action,
            final(self).interaction_count == old(self).interaction_count,
    {
        let label: String = entity.label();
        let mut kept: Vec<String> = Vec::new();
        let n: usize = self.dependencies.len();
        let ghost all = texts(self.dependencies@);
        let mut i: usize = 0;
        assert(all.take(0) =~= Seq::<Seq<char>>::empty());
        while i < n
            invariant
                n == self.dependencies@.len(),
                i <= n,
                all == texts(self.dependencies@),
                label@ == label_of(entity),
                texts(kept@) == only(all.take(i as int), label@),
                *self == *old(self),
            decreases n - i,
        {
            proof {
                assert(all.take(i + 1).drop_last() =~= all.take(i as int));
                assert(all.take(i + 1).last() == self.dependencies@[i as int]@);
            }
            if self.dependencies[i] == label {
                let ghost before = texts(kept@);
                kept.push(label.clone());
                assert(texts(kept@) =~= before.push(label@));
            }
            i += 1;
        }
        assert(all.take(n as int) =~= all);
        self.dependencies = kept;
    }

    /// Whether there is a dependency.
    pub fn has_dependancies(&self) -> (b: bool)
        ensures
            b == (self.dependencies@.len() > 0),
    {
        !self.dependencies.is_empty()
    }
}

} // verus!
