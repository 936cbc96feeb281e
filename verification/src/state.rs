//! The simulation as a whole: the phase it is in, and what each phase does
//! to the player, the rooms, and the colliders and images that are in the
//! world.

use crate::coherence::{
    all_aged, all_stepped, any_wakes, bare, coherent, law_empty_world_is_coherent,
    law_materialize_keeps_rooms_whole, law_update_keeps_rooms_whole, leaves,
    lemma_staying_members, staying, Spawned,
};
use crate::collision::{all_wf, collision_detection, resolved};
use crate::descriptor::Collider;
use crate::geometry::Rect;
use crate::number::{decimal, push_decimal};
use crate::player::{Intent, Player};
use crate::rooms::{
    colliders_spawned, found, layers_spawned, ColliderSpawn, LayerSpawn, Registry, RoomSource,
    RoomView,
};
use vstd::prelude::*;
use vstd::string::StringExecFns;

verus! {

/// The phase of the game.
#[derive(Clone, Copy, Debug, PartialEq, Eq, Hash, Structural)]
pub enum GameState {
    /// The menu is shown; nothing is simulated.
    MainMenu,
    /// The rooms of the level are to be found.
    LevelLoading,
    /// Colliders and images of the active rooms are to be put into the world.
    Loading,
    /// The player moves.
    Running,
}

impl Default for GameState {
    fn default() -> (s: GameState)
        ensures
            s == GameState::MainMenu,
    {
        GameState::MainMenu
    }
}

/// The number of the level that is played.
#[derive(Clone, Copy, Debug, PartialEq, Eq, Structural)]
pub struct CurrentLevel(pub u32);

impl CurrentLevel {
    /// The directory that holds the rooms of the level: one directory
    /// for each room.
    pub open spec fn spec_directory(self) -> Seq<char> {
        "Assets/textures/rooms/L"@ + decimal(self.0 as nat)
    }

    /// The file that holds the interactables of the level, with the
    /// separator of the machine.
    pub open spec fn spec_interactables_path(self, windows: bool) -> Seq<char> {
        if windows {
            "assets\\textures\\rooms\\L"@ + decimal(self.0 as nat) + "\\interactables.json"@
        } else {
            "assets/textures/rooms/L"@ + decimal(self.0 as nat) + "/interactables.json"@
        }
    }

    /// The directory that holds the rooms of the level.
    pub fn directory(&self) -> (path: String)
        ensures
            path@ == self.spec_directory(),
    {
        let mut path: String = String::new();
        path.append("Assets/textures/rooms/L");
        push_decimal(&mut path, self.0);
        assert(path@ =~= self.spec_directory());
        path
    }

    /// The file that holds the interactables of the level.
    pub fn interactables_path(&self, windows: bool) -> (path: String)
        ensures
            path@ == self.spec_interactables_path(windows),
    {
        let mut path: String = String::new();
        if windows {
            path.append("assets\\textures\\rooms\\L");
            push_decimal(&mut path, self.0);
            path.append("\\interactables.json");
        } else {
            path.append("assets/textures/rooms/L");
            push_decimal(&mut path, self.0);
            path.append("/interactables.json");
        }
        assert(path@ =~= self.spec_interactables_path(windows));
        path
    }
}

/// The player, the rooms, and the colliders and images that are in the
/// world, with the phase that says which of them may change.
pub struct Simulation {
    pub state: GameState,
    pub player: Player,
    pub registry: Registry,
    pub colliders: Vec<ColliderSpawn>,
    pub layers: Vec<LayerSpawn>,
}

/// What a pass of the loading phase puts into the world.
pub struct Materialization {
    pub colliders: Vec<ColliderSpawn>,
    pub layers: Vec<LayerSpawn>,
}

impl Simulation {
    /// The rooms and the colliders in the world lie within the world.
    pub open spec fn wf(self) -> bool {
        &&& self.registry.wf()
        &&& all_wf(bare(self.colliders@))
    }

    /// A room has all of its colliders and images in the world or none,
    /// and nothing is there for a room that has been taken down.
    pub open spec fn coherent(self) -> bool {
        coherent(self.registry@, self.colliders@, self.layers@)
    }

    /// Whether the rooms and the colliders in the world lie within the
    /// world.
    pub fn within_world(&self) -> (b: bool)
        ensures
            b == self.wf(),
    {
        if !self.registry.within_world() {
            return false;
        }
        let n: usize = self.colliders.len();
        let mut i: usize = 0;
        while i < n
            invariant
                n == self.colliders@.len(),
                i <= n,
                self.registry.wf(),
                forall|k: int| 0 <= k < i ==> (#[trigger] bare(self.colliders@)[k]).wf(),
            decreases n - i,
        {
            if !self.colliders[i].collider.within_world() {
                assert(!bare(self.colliders@)[i as int].wf());
                return false;
            }
            assert(bare(self.colliders@)[i as int].wf());
            i += 1;
        }
        true
    }

    /// A simulation in the menu: no rooms, nothing in the world.
    pub fn new(player: Player) -> (s: Simulation)
        ensures
            s.state == GameState::MainMenu,
            s.player == player,
            s.registry@.len() == 0,
            s.colliders@.len() == 0,
            s.layers@.len() == 0,
            s.wf(),
            s.coherent(),
    {
        let s = Simulation {
            state: GameState::MainMenu,
            player,
            registry: Registry::new(),
            colliders: Vec::new(),
            layers: Vec::new(),
        };
        proof {
            assert(s.colliders@ =~= Seq::<ColliderSpawn>::empty());
            assert(s.layers@ =~= Seq::<LayerSpawn>::empty());
            law_empty_world_is_coherent(s.registry@);
        }
        s
    }

    /// The level-loading phase: finds the rooms of the level and goes on
    /// to the loading phase. In any other phase nothing happens.
    ///
    /// What is in the world stays there: the world is coherent with the
    /// new rooms where it was empty.
    pub fn load_level(&mut self, sources: &Vec<RoomSource>)
        requires
            old(self).wf(),
        ensures
            final(self).wf(),
            final(self).player == old(self).player,
            final(self).colliders == old(self).colliders,
            final(self).layers == old(self).layers,
            old(self).state == GameState::LevelLoading ==> final(self).state == GameState::Loading
                && final(self).registry@ == found(sources@),
            old(self).state != GameState::LevelLoading ==> final(self).state == old(self).state
                && final(self).registry == old(self).registry,
            old(self).colliders@.len() == 0 && old(self).layers@.len() == 0
                ==> final(self).coherent(),
    {
        match self.state {
            GameState::LevelLoading => {
                self.registry = Registry::discover(sources);
                self.state = GameState::Loading;
            },
            _ => {},
        }
        proof {
            if self.colliders@.len() == 0 && self.layers@.len() == 0 {
                assert(self.colliders@ =~= Seq::<ColliderSpawn>::empty());
                assert(self.layers@ =~= Seq::<LayerSpawn>::empty());
                law_empty_world_is_coherent(self.registry@);
            }
        }
    }

    /// The loading phase: puts the colliders of every active room into
    /// the world, then the images of every active room, and goes on to the
    /// running phase. The result holds what was put into the world. In
    /// any other phase nothing happens and the result is empty.
    pub fn materialize(&mut self) -> (out: Materialization)
        requires
            old(self).wf(),
        ensures
            final(self).wf(),
            final(self).player == old(self).player,
            final(self).registry == old(self).registry,
            old(self).state == GameState::Loading ==> {
                &&& final(self).state == GameState::Running
                &&& out.colliders@ == colliders_spawned(old(self).registry@)
                &&& out.layers@ == layers_spawned(old(self).registry@)
                &&& final(self).colliders@ == old(self).colliders@ + out.colliders@
                &&& final(self).layers@ == old(self).layers@ + out.layers@
            },
            old(self).state != GameState::Loading ==> {
                &&& final(self).state == old(self).state
                &&& out.colliders@.len() == 0
                &&& out.layers@.len() == 0
                &&& final(self).colliders == old(self).colliders
                &&& final(self).layers == old(self).layers
            },
            old(self).coherent() ==> final(self).coherent(),
    {
        match self.state {
            GameState::Loading => {
                let colliders: Vec<ColliderSpawn> = self.registry.spawn_colliders();
                let layers: Vec<LayerSpawn> = self.registry.display_rooms();
                let count: usize = self.registry.len();
                proof {
                    lemma_spawned_wf(self.registry@);
                    if old(self).coherent() {
                        law_materialize_keeps_rooms_whole(
                            self.registry@,
                            self.colliders@,
                            self.layers@,
                        );
                    }
                }
                let ghost before = self.colliders@;
                extend(&mut self.colliders, &colliders);
                extend(&mut self.layers, &layers);
                proof {
                    assert forall|k: int| 0 <= k < self.colliders@.len() implies (#[trigger] bare(
                        self.colliders@,
                    )[k]).wf() by {
                        if k < before.len() {
                            assert(bare(before)[k].wf());
                        } else {
                            assert(bare(colliders@)[k - before.len()].wf());
                        }
                    }
                }
                self.state = GameState::Running;
                Materialization { colliders, layers }
            },
            _ => Materialization { colliders: Vec::new(), layers: Vec::new() },
        }
    }

    /// One fixed tick of the running phase: the player moves by its input,
    /// then leaves the rigid colliders that are in the world. In any other
    /// phase nothing happens.
    pub fn fixed_update(&mut self, intent: Intent)
        requires
            old(self).wf(),
            old(self).player.wf(),
            old(self).player.advanced(intent).wf(),
        ensures
            final(self).wf(),
            final(self).state == old(self).state,
            final(self).registry == old(self).registry,
            final(self).colliders == old(self).colliders,
            final(self).layers == old(self).layers,
            old(self).state == GameState::Running ==> final(self).player == (Player {
                position: resolved(
                    old(self).player.advanced(intent).position,
                    old(self).player.advanced(intent).spec_rect(),
                    bare(old(self).colliders@),
                ),
                ..old(self).player.advanced(intent)
            }),
            old(self).state != GameState::Running ==> final(self).player == old(self).player,
            old(self).coherent() ==> final(self).coherent(),
    {
        match self.state {
            GameState::Running => {
                self.player.player_movement(intent);
                let n: usize = self.colliders.len();
                let mut list: Vec<Collider> = Vec::new();
                let mut i: usize = 0;
                while i < n
                    invariant
                        n == self.colliders@.len(),
                        i <= n,
                        list@ == bare(self.colliders@).take(i as int),
                    decreases n - i,
                {
                    list.push(self.colliders[i].collider);
                    i += 1;
                    assert(list@ =~= bare(self.colliders@).take(i as int));
                }
                assert(bare(self.colliders@).take(n as int) =~= bare(self.colliders@));
                collision_detection(&mut self.player, &list);
            },
            _ => {},
        }
    }

    /// One frame of the running phase. First one tick of every countdown
    /// passes, and the colliders and images of the rooms whose countdown
    /// ran out leave the world: the result lists those rooms, in rising
    /// order. Then the player's place is looked at; where a room wakes,
    /// the simulation goes back to the loading phase. In any other phase
    /// nothing happens.
    ///
    /// A room holds the player where its area shares some area with the
    /// player's hitbox: the one hitbox that the colliders are held
    /// against too.
    pub fn update(&mut self) -> (expired: Vec<usize>)
        requires
            old(self).wf(),
            old(self).player.wf(),
        ensures
            final(self).wf(),
            final(self).player == old(self).player,
            old(self).state == GameState::Running ==> {
                &&& final(self).registry@ == all_stepped(
                    all_aged(old(self).registry@),
                    old(self).player.spec_rect(),
                )
                &&& final(self).colliders@ == staying(old(self).colliders@, old(self).registry@)
                &&& final(self).layers@ == staying(old(self).layers@, old(self).registry@)
                &&& final(self).state == if any_wakes(
                    old(self).registry@,
                    old(self).player.spec_rect(),
                ) {
                    GameState::Loading
                } else {
                    GameState::Running
                }
                &&& forall|i: int|
                    0 <= i < old(self).registry@.len() ==> ((#[trigger] old(
                        self,
                    ).registry@[i]).expires() <==> expired@.contains(i as usize))
                &&& forall|j: int, k: int|
                    0 <= j < k < expired@.len() ==> (#[trigger] expired@[j]) < (
                    #[trigger] expired@[k])
            },
            old(self).state != GameState::Running ==> {
                &&& final(self).state == old(self).state
                &&& final(self).registry == old(self).registry
                &&& final(self).colliders == old(self).colliders
                &&& final(self).layers == old(self).layers
                &&& expired@.len() == 0
            },
            old(self).coherent() ==> final(self).coherent(),
    {
        match self.state {
            GameState::Running => {},
            _ => {
                return Vec::new();
            },
        }
        let ghost rooms = self.registry@;
        let expired: Vec<usize> = self.registry.tick_eviction();
        let count: usize = self.registry.len();
        proof {
            assert forall|i: int| 0 <= i < rooms.len() implies ((#[trigger] rooms[i]).expires()
                <==> expired@.contains(i as usize)) by {
                if expired@.contains(i as usize) {
                    let k = choose|k: int| 0 <= k < expired@.len() && expired@[k] == i as usize;
                    assert(rooms[expired@[k] as int].expires());
                }
            }
        }
        let colliders: Vec<ColliderSpawn> = keep(&self.colliders, &expired, Ghost(rooms));
        let layers: Vec<LayerSpawn> = keep(&self.layers, &expired, Ghost(rooms));
        proof {
            lemma_staying_members(self.colliders@, rooms);
            assert forall|k: int| 0 <= k < colliders@.len() implies (#[trigger] bare(
                colliders@,
            )[k]).wf() by {
                let j = choose|j: int|
                    0 <= j < self.colliders@.len() && self.colliders@[j] == colliders@[k];
                assert(bare(self.colliders@)[j].wf());
            }
        }
        self.colliders = colliders;
        self.layers = layers;
        let hitbox = self.player.rect();
        let ghost aged = self.registry@;
        assert(aged =~= all_aged(rooms));
        let woke: bool = self.registry.room_status(&hitbox);
        proof {
            assert(self.registry@ =~= all_stepped(aged, hitbox));
            lemma_aging_keeps_awake(rooms, hitbox);
            assert forall|k: int| 0 <= k < self.registry@.len() implies (
            #[trigger] self.registry@[k]).wf() by {
                assert(self.registry@[k] == aged[k].stepped(hitbox));
                assert(aged[k] == rooms[k].aged());
                assert(rooms[k].wf());
            }
            if old(self).coherent() {
                law_update_keeps_rooms_whole(
                    rooms,
                    old(self).colliders@,
                    old(self).layers@,
                    hitbox,
                );
            }
        }
        if woke {
            self.state = GameState::Loading;
        }
        expired
    }
}

/// Copies `more` to the end of `all`.
fn extend<T: Copy>(all: &mut Vec<T>, more: &Vec<T>)
    ensures
        final(all)@ == old(all)@ + more@,
{
    let n: usize = more.len();
    let mut i: usize = 0;
    assert(all@ =~= old(all)@ + more@.take(0));
    while i < n
        invariant
            n == more@.len(),
            i <= n,
            all@ == old(all)@ + more@.take(i as int),
        decreases n - i,
    {
        all.push(more[i]);
        i += 1;
        assert(all@ =~= old(all)@ + more@.take(i as int));
    }
    assert(more@.take(n as int) =~= more@);
}

/// What stays of `items` when the rooms listed in `expired` are taken
/// down.
fn keep<T: Spawned + Copy>(
    items: &Vec<T>,
    expired: &Vec<usize>,
    rooms: Ghost<Seq<RoomView>>,
) -> (kept: Vec<T>)
    requires
        rooms@.len() <= usize::MAX,
        forall|i: int|
            0 <= i < rooms@.len() ==> ((#[trigger] rooms@[i]).expires() <==> expired@.contains(
                i as usize,
            )),
        forall|k: int| 0 <= k < expired@.len() ==> (#[trigger] expired@[k]) < rooms@.len(),
    ensures
        kept@ == staying(items@, rooms@),
{
    let n: usize = items.len();
    let mut kept: Vec<T> = Vec::new();
    let mut i: usize = 0;
    assert(items@.take(0) =~= Seq::<T>::empty());
    while i < n
        invariant
            n == items@.len(),
            i <= n,
            rooms@.len() <= usize::MAX,
            forall|r: int|
                0 <= r < rooms@.len() ==> ((#[trigger] rooms@[r]).expires() <==> expired@.contains(
                    r as usize,
                )),
            forall|k: int| 0 <= k < expired@.len() ==> (#[trigger] expired@[k]) < rooms@.len(),
            kept@ == staying(items@.take(i as int), rooms@),
        decreases n - i,
    {
        let item: T = items[i];
        proof {
            assert(items@.take(i + 1).drop_last() =~= items@.take(i as int));
            assert(items@.take(i + 1).last() == item);
        }
        let room: usize = item.room_index();
        let gone: bool = listed(expired, room);
        proof {
            if gone {
                let k = choose|k: int| 0 <= k < expired@.len() && expired@[k] == room;
                assert(room < rooms@.len());
                assert(rooms@[room as int].expires());
            } else if room < rooms@.len() {
                assert(!rooms@[room as int].expires());
            }
            assert(gone == leaves(item, rooms@));
        }
        if !gone {
            kept.push(item);
        }
        i += 1;
    }
    assert(items@.take(n as int) =~= items@);
    kept
}

/// Whether `room` is among `rooms`.
fn listed(rooms: &Vec<usize>, room: usize) -> (b: bool)
    ensures
        b == rooms@.contains(room),
{
    let n: usize = rooms.len();
    let mut i: usize = 0;
    while i < n
        invariant
            n == rooms@.len(),
            i <= n,
            forall|k: int| 0 <= k < i ==> rooms@[k] != room,
        decreases n - i,
    {
        if rooms[i] == room {
            return true;
        }
        i += 1;
    }
    false
}

/// The colliders that a registry whose rooms lie within the world hands
/// out lie within the world.
proof fn lemma_spawned_wf(rooms: Seq<RoomView>)
    requires
        forall|i: int| 0 <= i < rooms.len() ==> (#[trigger] rooms[i]).wf(),
    ensures
        all_wf(bare(colliders_spawned(rooms))),
    decreases rooms.len(),
{
    if rooms.len() > 0 {
        let rest = rooms.drop_last();
        assert forall|i: int| 0 <= i < rest.len() implies (#[trigger] rest[i]).wf() by {
            assert(rest[i] == rooms[i]);
        }
        lemma_spawned_wf(rest);
        let last = rooms[rooms.len() - 1];
        assert(last.wf());
        let all = colliders_spawned(rooms);
        assert forall|k: int| 0 <= k < all.len() implies (#[trigger] bare(all)[k]).wf() by {
            let head = colliders_spawned(rest);
            if k < head.len() {
                assert(bare(head)[k].wf());
            } else {
                assert(last.colliders[k - head.len()].wf());
            }
        }
    }
}

/// A tick of the countdowns changes nothing of which rooms wake.
proof fn lemma_aging_keeps_awake(rooms: Seq<RoomView>, player: Rect)
    ensures
        any_wakes(all_aged(rooms), player) == any_wakes(rooms, player),
{
    let aged = all_aged(rooms);
    if any_wakes(rooms, player) {
        let i = choose|i: int| 0 <= i < rooms.len() && (#[trigger] rooms[i]).activates(player);
        assert(aged[i].activates(player));
    }
    if any_wakes(aged, player) {
        let i = choose|i: int| 0 <= i < aged.len() && (#[trigger] aged[i]).activates(player);
        assert(rooms[i].activates(player));
    }
}

} // verus!
