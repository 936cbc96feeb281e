//! What holds of the colliders and images that are in the world, whatever
//! the simulation has done: a room has all of them there or none, and as
//! many times its colliders as its images.

use crate::descriptor::Collider;
use crate::geometry::Rect;
use crate::rooms::{
    colliders_spawned, layers_spawned, room_colliders_spawned, room_layers_spawned, ColliderSpawn,
    LayerSpawn, RoomView,
};
use vstd::prelude::*;

verus! {

/// Something that is in the world on behalf of a room.
pub trait Spawned: Sized {
    /// The room, by its place in the registry, that this belongs to.
    spec fn owner(self) -> usize;

    /// The room, by its place in the registry, that this belongs to.
    fn room_index(&self) -> (r: usize)
        ensures
            r == self.owner(),
    ;
}

impl Spawned for ColliderSpawn {
    open spec fn owner(self) -> usize {
        self.room
    }

    fn room_index(&self) -> (r: usize) {
        self.room
    }
}

impl Spawned for LayerSpawn {
    open spec fn owner(self) -> usize {
        self.room
    }

    fn room_index(&self) -> (r: usize) {
        self.room
    }
}

/// The collider of each spawn, in order.
pub open spec fn bare(spawns: Seq<ColliderSpawn>) -> Seq<Collider> {
    Seq::new(spawns.len(), |i: int| spawns[i].collider)
}

/// The room of `item` is taken down at this tick.
pub open spec fn leaves<T: Spawned>(item: T, rooms: Seq<RoomView>) -> bool {
    item.owner() < rooms.len() && rooms[item.owner() as int].expires()
}

/// What stays of `items` when the rooms whose countdown runs out are taken
/// down, in its order.
pub open spec fn staying<T: Spawned>(items: Seq<T>, rooms: Seq<RoomView>) -> Seq<T>
    decreases items.len(),
{
    if items.len() == 0 {
        Seq::empty()
    } else if leaves(items.last(), rooms) {
        staying(items.drop_last(), rooms)
    } else {
        staying(items.drop_last(), rooms).push(items.last())
    }
}

/// The rooms after one tick of every countdown.
pub open spec fn all_aged(rooms: Seq<RoomView>) -> Seq<RoomView> {
    Seq::new(rooms.len(), |i: int| rooms[i].aged())
}

/// The rooms after the player's place has been looked at.
pub open spec fn all_stepped(rooms: Seq<RoomView>, player: Rect) -> Seq<RoomView> {
    Seq::new(rooms.len(), |i: int| rooms[i].stepped(player))
}

/// A room wakes when the player's place is looked at.
pub open spec fn any_wakes(rooms: Seq<RoomView>, player: Rect) -> bool {
    exists|i: int| 0 <= i < rooms.len() && (#[trigger] rooms[i]).activates(player)
}

/// What of `items` belongs to room `room`, in its order.
pub open spec fn of_room<T: Spawned>(items: Seq<T>, room: int) -> Seq<T>
    decreases items.len(),
{
    if items.len() == 0 {
        Seq::empty()
    } else if items.last().owner() == room {
        of_room(items.drop_last(), room).push(items.last())
    } else {
        of_room(items.drop_last(), room)
    }
}

/// `items`, `times` times in a row.
pub open spec fn repeated<T>(items: Seq<T>, times: nat) -> Seq<T>
    decreases times,
{
    if times == 0 {
        Seq::empty()
    } else {
        repeated(items, (times - 1) as nat) + items
    }
}

/// Room `room` is in the world `times` times: all of its colliders and
/// its three images, each that often.
pub open spec fn present(
    rooms: Seq<RoomView>,
    colliders: Seq<ColliderSpawn>,
    layers: Seq<LayerSpawn>,
    room: int,
    times: nat,
) -> bool {
    &&& of_room(colliders, room) == repeated(room_colliders_spawned(rooms[room], room), times)
    &&& of_room(layers, room) == repeated(room_layers_spawned(rooms[room], room), times)
}

/// Room `room` is in the world as a whole or not at all: nothing of it is
/// there without the rest.
pub open spec fn whole(
    rooms: Seq<RoomView>,
    colliders: Seq<ColliderSpawn>,
    layers: Seq<LayerSpawn>,
    room: int,
) -> bool {
    exists|times: nat| #[trigger] present(rooms, colliders, layers, room, times)
}

/// Each of `items` belongs to a room that is in the world: one that is
/// active, or whose countdown has not run out.
pub open spec fn housed<T: Spawned>(rooms: Seq<RoomView>, items: Seq<T>) -> bool {
    forall|k: int|
        0 <= k < items.len() ==> (#[trigger] items[k]).owner() < rooms.len()
            && rooms[items[k].owner() as int].materialized()
}

/// The colliders and images in the world fit the rooms: each belongs to a
/// room that is in the world, and each room is there as a whole.
pub open spec fn coherent(
    rooms: Seq<RoomView>,
    colliders: Seq<ColliderSpawn>,
    layers: Seq<LayerSpawn>,
) -> bool {
    &&& housed(rooms, colliders)
    &&& housed(rooms, layers)
    &&& forall|room: int|
        0 <= room < rooms.len() ==> #[trigger] whole(rooms, colliders, layers, room)
}

/// What belongs to a room among two runs is what belongs to it among the
/// first, then what belongs to it among the second.
pub proof fn lemma_of_room_concat<T: Spawned>(a: Seq<T>, b: Seq<T>, room: int)
    ensures
        of_room(a + b, room) == of_room(a, room) + of_room(b, room),
    decreases b.len(),
{
    if b.len() == 0 {
        assert(a + b =~= a);
        assert(of_room(a, room) + of_room(b, room) =~= of_room(a, room));
    } else {
        let rest = b.drop_last();
        assert((a + b).drop_last() =~= a + rest);
        assert((a + b).last() == b.last());
        lemma_of_room_concat(a, rest, room);
        if b.last().owner() == room {
            assert((of_room(a, room) + of_room(rest, room)).push(b.last()) =~= of_room(a, room)
                + of_room(rest, room).push(b.last()));
        }
    }
}

/// Of items that all belong to one room, that room has all and every
/// other room none.
pub proof fn lemma_of_room_uniform<T: Spawned>(items: Seq<T>, owner: int, room: int)
    requires
        forall|k: int| 0 <= k < items.len() ==> (#[trigger] items[k]).owner() == owner,
    ensures
        of_room(items, room) == if room == owner {
            items
        } else {
            Seq::empty()
        },
    decreases items.len(),
{
    if items.len() > 0 {
        let rest = items.drop_last();
        assert forall|k: int| 0 <= k < rest.len() implies (#[trigger] rest[k]).owner()
            == owner by {
            assert(rest[k] == items[k]);
        }
        lemma_of_room_uniform(rest, owner, room);
        assert(items[items.len() - 1].owner() == owner);
        if room == owner {
            assert(rest.push(items.last()) =~= items);
        }
    }
}

/// A room to which no item belongs has none.
pub proof fn lemma_of_room_absent<T: Spawned>(items: Seq<T>, room: int)
    requires
        forall|k: int| 0 <= k < items.len() ==> (#[trigger] items[k]).owner() != room,
    ensures
        of_room(items, room) == Seq::<T>::empty(),
    decreases items.len(),
{
    if items.len() > 0 {
        let rest = items.drop_last();
        assert forall|k: int| 0 <= k < rest.len() implies (#[trigger] rest[k]).owner()
            != room by {
            assert(rest[k] == items[k]);
        }
        lemma_of_room_absent(rest, room);
        assert(items[items.len() - 1].owner() != room);
    }
}

/// When rooms are taken down, a room whose countdown runs out keeps
/// nothing, and every other room keeps all it had.
pub proof fn law_expired_room_leaves_the_world<T: Spawned>(
    items: Seq<T>,
    rooms: Seq<RoomView>,
    room: int,
)
    requires
        0 <= room < rooms.len(),
    ensures
        of_room(staying(items, rooms), room) == if rooms[room].expires() {
            Seq::empty()
        } else {
            of_room(items, room)
        },
    decreases items.len(),
{
    if items.len() > 0 {
        law_expired_room_leaves_the_world(items.drop_last(), rooms, room);
        let kept = staying(items.drop_last(), rooms);
        if !leaves(items.last(), rooms) {
            assert(kept.push(items.last()).drop_last() =~= kept);
        }
    }
}

/// What stays was there before, and belongs to no room that is taken down.
pub proof fn lemma_staying_members<T: Spawned>(items: Seq<T>, rooms: Seq<RoomView>)
    ensures
        forall|k: int|
            0 <= k < staying(items, rooms).len() ==> items.contains(
                #[trigger] staying(items, rooms)[k],
            ) && !leaves(staying(items, rooms)[k], rooms),
    decreases items.len(),
{
    if items.len() > 0 {
        let rest = items.drop_last();
        lemma_staying_members(rest, rooms);
        let kept = staying(rest, rooms);
        let all = staying(items, rooms);
        assert forall|k: int| 0 <= k < all.len() implies items.contains(#[trigger] all[k])
            && !leaves(all[k], rooms) by {
            if k < kept.len() {
                assert(all[k] == kept[k]);
                let j = choose|j: int| 0 <= j < rest.len() && rest[j] == kept[k];
                assert(items[j] == kept[k]);
            } else {
                assert(all[k] == items[items.len() - 1]);
            }
        }
    }
}

/// Every collider that the rooms hand out belongs to one of them, and to
/// an active one.
pub proof fn lemma_colliders_of_active_rooms(rooms: Seq<RoomView>)
    requires
        rooms.len() <= usize::MAX,
    ensures
        forall|k: int|
            0 <= k < colliders_spawned(rooms).len() ==> (#[trigger] colliders_spawned(
                rooms,
            )[k]).room < rooms.len() && rooms[colliders_spawned(rooms)[k].room as int].active,
    decreases rooms.len(),
{
    if rooms.len() > 0 {
        let rest = rooms.drop_last();
        lemma_colliders_of_active_rooms(rest);
        let head = colliders_spawned(rest);
        let all = colliders_spawned(rooms);
        assert forall|k: int| 0 <= k < all.len() implies (#[trigger] all[k]).room < rooms.len()
            && rooms[all[k].room as int].active by {
            if k < head.len() {
                assert(all[k] == head[k]);
                assert(rest[head[k].room as int] == rooms[head[k].room as int]);
            } else {
                assert(rooms.last().active);
                let tail = room_colliders_spawned(rooms.last(), rooms.len() - 1);
                assert(all[k] == tail[k - head.len()]);
            }
        }
    }
}

/// Every image that the rooms hand out belongs to one of them, and to an
/// active one.
pub proof fn lemma_layers_of_active_rooms(rooms: Seq<RoomView>)
    requires
        rooms.len() <= usize::MAX,
    ensures
        forall|k: int|
            0 <= k < layers_spawned(rooms).len() ==> (#[trigger] layers_spawned(rooms)[k]).room
                < rooms.len() && rooms[layers_spawned(rooms)[k].room as int].active,
    decreases rooms.len(),
{
    if rooms.len() > 0 {
        let rest = rooms.drop_last();
        lemma_layers_of_active_rooms(rest);
        let head = layers_spawned(rest);
        let all = layers_spawned(rooms);
        assert forall|k: int| 0 <= k < all.len() implies (#[trigger] all[k]).room < rooms.len()
            && rooms[all[k].room as int].active by {
            if k < head.len() {
                assert(all[k] == head[k]);
                assert(rest[head[k].room as int] == rooms[head[k].room as int]);
            } else {
                assert(rooms.last().active);
                let tail = room_layers_spawned(rooms.last(), rooms.len() - 1);
                assert(all[k] == tail[k - head.len()]);
            }
        }
    }
}

/// Of the colliders that the rooms hand out, an active room has all of
/// its own and a sleeping room none.
pub proof fn lemma_colliders_by_room(rooms: Seq<RoomView>, room: int)
    requires
        0 <= room < rooms.len(),
        rooms.len() <= usize::MAX,
    ensures
        of_room(colliders_spawned(rooms), room) == if rooms[room].active {
            room_colliders_spawned(rooms[room], room)
        } else {
            Seq::empty()
        },
    decreases rooms.len(),
{
    let rest = rooms.drop_last();
    let last = rooms.len() - 1;
    let head = colliders_spawned(rest);
    let tail = room_colliders_spawned(rooms.last(), last);
    lemma_of_room_uniform(tail, last, room);
    if room < last {
        lemma_colliders_by_room(rest, room);
        assert(rest[room] == rooms[room]);
        if rooms.last().active {
            lemma_of_room_concat(head, tail, room);
            assert(of_room(head, room) + Seq::<ColliderSpawn>::empty() =~= of_room(head, room));
        }
    } else {
        lemma_colliders_of_active_rooms(rest);
        lemma_of_room_absent(head, room);
        if rooms.last().active {
            lemma_of_room_concat(head, tail, room);
            assert(Seq::<ColliderSpawn>::empty() + tail =~= tail);
        }
    }
}

/// Of the images that the rooms hand out, an active room has its three
/// and a sleeping room none.
pub proof fn lemma_layers_by_room(rooms: Seq<RoomView>, room: int)
    requires
        0 <= room < rooms.len(),
        rooms.len() <= usize::MAX,
    ensures
        of_room(layers_spawned(rooms), room) == if rooms[room].active {
            room_layers_spawned(rooms[room], room)
        } else {
            Seq::empty()
        },
    decreases rooms.len(),
{
    let rest = rooms.drop_last();
    let last = rooms.len() - 1;
    let head = layers_spawned(rest);
    let tail = room_layers_spawned(rooms.last(), last);
    lemma_of_room_uniform(tail, last, room);
    if room < last {
        lemma_layers_by_room(rest, room);
        assert(rest[room] == rooms[room]);
        if rooms.last().active {
            lemma_of_room_concat(head, tail, room);
            assert(of_room(head, room) + Seq::<LayerSpawn>::empty() =~= of_room(head, room));
        }
    } else {
        lemma_layers_of_active_rooms(rest);
        lemma_of_room_absent(head, room);
        if rooms.last().active {
            lemma_of_room_concat(head, tail, room);
            assert(Seq::<LayerSpawn>::empty() + tail =~= tail);
        }
    }
}

/// Adding what belongs to active rooms keeps everything housed.
proof fn lemma_housed_concat<T: Spawned>(rooms: Seq<RoomView>, items: Seq<T>, added: Seq<T>)
    requires
        housed(rooms, items),
        forall|k: int|
            0 <= k < added.len() ==> (#[trigger] added[k]).owner() < rooms.len()
                && rooms[added[k].owner() as int].active,
    ensures
        housed(rooms, items + added),
{
    let all = items + added;
    assert forall|k: int| 0 <= k < all.len() implies (#[trigger] all[k]).owner() < rooms.len()
        && rooms[all[k].owner() as int].materialized() by {
        if k < items.len() {
            assert(all[k] == items[k]);
        } else {
            assert(all[k] == added[k - items.len()]);
        }
    }
}

/// What stays after a frame is housed by the rooms as the frame leaves
/// them.
proof fn lemma_housed_staying<T: Spawned>(rooms: Seq<RoomView>, items: Seq<T>, player: Rect)
    requires
        housed(rooms, items),
    ensures
        housed(all_stepped(all_aged(rooms), player), staying(items, rooms)),
{
    let next = all_stepped(all_aged(rooms), player);
    let kept = staying(items, rooms);
    lemma_staying_members(items, rooms);
    assert forall|k: int| 0 <= k < kept.len() implies (#[trigger] kept[k]).owner() < next.len()
        && next[kept[k].owner() as int].materialized() by {
        let j = choose|j: int| 0 <= j < items.len() && items[j] == kept[k];
        assert(items[j].owner() < rooms.len());
        let r = kept[k].owner() as int;
        assert(rooms[r].materialized());
        assert(!rooms[r].expires());
        assert(next[r] == all_aged(rooms)[r].stepped(player));
        assert(all_aged(rooms)[r] == rooms[r].aged());
    }
}

/// Putting the colliders and images of every active room into the world
/// keeps the world coherent: an active room is there once more, a
/// sleeping room as often as before.
pub proof fn law_materialize_keeps_rooms_whole(
    rooms: Seq<RoomView>,
    colliders: Seq<ColliderSpawn>,
    layers: Seq<LayerSpawn>,
)
    requires
        coherent(rooms, colliders, layers),
        rooms.len() <= usize::MAX,
    ensures
        coherent(rooms, colliders + colliders_spawned(rooms), layers + layers_spawned(rooms)),
{
    let more_colliders = colliders_spawned(rooms);
    let more_layers = layers_spawned(rooms);
    lemma_colliders_of_active_rooms(rooms);
    lemma_layers_of_active_rooms(rooms);
    lemma_housed_concat(rooms, colliders, more_colliders);
    lemma_housed_concat(rooms, layers, more_layers);
    assert forall|room: int| 0 <= room < rooms.len() implies #[trigger] whole(
        rooms,
        colliders + more_colliders,
        layers + more_layers,
        room,
    ) by {
        assert(whole(rooms, colliders, layers, room));
        let times = choose|times: nat| #[trigger] present(rooms, colliders, layers, room, times);
        lemma_of_room_concat(colliders, more_colliders, room);
        lemma_of_room_concat(layers, more_layers, room);
        lemma_colliders_by_room(rooms, room);
        lemma_layers_by_room(rooms, room);
        if rooms[room].active {
            assert(present(
                rooms,
                colliders + more_colliders,
                layers + more_layers,
                room,
                times + 1,
            ));
        } else {
            assert(of_room(colliders, room) + Seq::<ColliderSpawn>::empty() =~= of_room(
                colliders,
                room,
            ));
            assert(of_room(layers, room) + Seq::<LayerSpawn>::empty() =~= of_room(layers, room));
            assert(present(rooms, colliders + more_colliders, layers + more_layers, room, times));
        }
    }
}

/// A frame keeps the world coherent: the rooms whose countdown runs out
/// leave it altogether, every other room stays as it was, and nothing is
/// left behind without its room.
pub proof fn law_update_keeps_rooms_whole(
    rooms: Seq<RoomView>,
    colliders: Seq<ColliderSpawn>,
    layers: Seq<LayerSpawn>,
    player: Rect,
)
    requires
        coherent(rooms, colliders, layers),
    ensures
        coherent(
            all_stepped(all_aged(rooms), player),
            staying(colliders, rooms),
            staying(layers, rooms),
        ),
{
    let next = all_stepped(all_aged(rooms), player);
    lemma_housed_staying(rooms, colliders, player);
    lemma_housed_staying(rooms, layers, player);
    assert forall|room: int| 0 <= room < next.len() implies #[trigger] whole(
        next,
        staying(colliders, rooms),
        staying(layers, rooms),
        room,
    ) by {
        assert(whole(rooms, colliders, layers, room));
        let times = choose|times: nat| #[trigger] present(rooms, colliders, layers, room, times);
        law_expired_room_leaves_the_world(colliders, rooms, room);
        law_expired_room_leaves_the_world(layers, rooms, room);
        assert(next[room] == all_aged(rooms)[room].stepped(player));
        assert(all_aged(rooms)[room] == rooms[room].aged());
        assert(room_colliders_spawned(next[room], room) =~= room_colliders_spawned(
            rooms[room],
            room,
        ));
        assert(room_layers_spawned(next[room], room) =~= room_layers_spawned(rooms[room], room));
        if rooms[room].expires() {
            assert(present(next, staying(colliders, rooms), staying(layers, rooms), room, 0));
        } else {
            assert(present(next, staying(colliders, rooms), staying(layers, rooms), room, times));
        }
    }
}

/// An empty world is coherent with any rooms.
pub proof fn law_empty_world_is_coherent(rooms: Seq<RoomView>)
    ensures
        coherent(rooms, Seq::empty(), Seq::empty()),
{
    assert forall|room: int| 0 <= room < rooms.len() implies #[trigger] whole(
        rooms,
        Seq::empty(),
        Seq::empty(),
        room,
    ) by {
        assert(present(rooms, Seq::empty(), Seq::empty(), room, 0));
    }
}

} // verus!
