//! Rooms and their registry: which rooms are active, and when a room that
//! the player has left is taken down.

use crate::collision::{all_wf, all_within_world};
use crate::descriptor::{
    get_area, load_colliders, place, room_area, room_colliders, Collider, TileRect,
};
use crate::geometry::{Point, Rect, TILE};
use crate::descriptor::{descriptor_path, descriptor_path_of};
use crate::number::{parse_scaled, read_scaled};
use crate::scan::{contains, has_infix, replace_str, replaced, split, split_bytes, views};
use vstd::prelude::*;
use vstd::utf8::encode_utf8;

verus! {

/// Ticks between the moment the player leaves a room and the moment the
/// room is taken down.
pub const GRACE_PERIOD: u32 = 128;

/// Factor by which a room's images are drawn.
pub const ROOM_SCALE: i64 = 6;

/// Where a room lies: its lower left corner, and the factor by which its
/// images are drawn.
#[derive(Clone, Copy, Debug, PartialEq, Eq, Structural)]
pub struct Location {
    pub origin: Point,
    pub scale: i64,
}

/// A region of the world with its own colliders and images.
#[derive(Clone, Debug)]
pub struct Room {
    pub identifier: String,
    pub location: Location,
    pub area: Rect,
    pub backdrop_path: String,
    pub decoration_path: String,
    pub foreground_path: String,
    pub colliders: Vec<Collider>,
    pub active: bool,
    pub lifetime: u32,
}

/// What a room is, as plain values.
pub struct RoomView {
    pub identifier: Seq<char>,
    pub location: Location,
    pub area: Rect,
    pub backdrop_path: Seq<char>,
    pub decoration_path: Seq<char>,
    pub foreground_path: Seq<char>,
    pub colliders: Seq<Collider>,
    pub active: bool,
    pub lifetime: u32,
}

impl View for Room {
    type V = RoomView;

    open spec fn view(&self) -> RoomView {
        RoomView {
            identifier: self.identifier@,
            location: self.location,
            area: self.area,
            backdrop_path: self.backdrop_path@,
            decoration_path: self.decoration_path@,
            foreground_path: self.foreground_path@,
            colliders: self.colliders@,
            active: self.active,
            lifetime: self.lifetime,
        }
    }
}

impl RoomView {
    /// The room's area and all of its colliders lie within the world.
    pub open spec fn wf(self) -> bool {
        &&& self.area.wf()
        &&& all_wf(self.colliders)
    }

    /// Whether a player that covers `player` stands in the room.
    pub open spec fn holds(self, player: Rect) -> bool {
        self.area.overlaps(player)
    }

    /// The room wakes: it was inactive and the player stands in it.
    pub open spec fn activates(self, player: Rect) -> bool {
        !self.active && self.holds(player)
    }

    /// The room goes to sleep: it was active and the player stands outside.
    pub open spec fn deactivates(self, player: Rect) -> bool {
        self.active && !self.holds(player)
    }

    /// The room with its countdown armed.
    pub open spec fn marked(self) -> RoomView {
        RoomView { lifetime: GRACE_PERIOD, ..self }
    }

    /// The room after the player's place has been looked at: active where
    /// the player stands in it, else inactive, with the countdown armed
    /// where it was active before.
    pub open spec fn stepped(self, player: Rect) -> RoomView {
        if self.holds(player) {
            RoomView { active: true, ..self }
        } else if self.active {
            RoomView { active: false, ..self }.marked()
        } else {
            self
        }
    }

    /// The countdown runs out at the next tick.
    pub open spec fn expires(self) -> bool {
        self.lifetime == 1
    }

    /// The room after one tick of its countdown.
    pub open spec fn aged(self) -> RoomView {
        if self.lifetime > 0 {
            RoomView { lifetime: (self.lifetime - 1) as u32, ..self }
        } else {
            self
        }
    }

    /// The room's colliders and images are in the world: it is active, or
    /// its countdown has not run out.
    pub open spec fn materialized(self) -> bool {
        self.active || self.lifetime > 0
    }
}

impl Room {
    /// Arms the countdown: the room is taken down `GRACE_PERIOD` ticks
    /// from now, not at once.
    pub fn mark_for_eviction(&mut self)
        ensures
            final(self)@ == old(self)@.marked(),
    {
        self.lifetime = GRACE_PERIOD;
    }

    /// Whether the room's area and colliders lie within the world.
    pub fn within_world(&self) -> (b: bool)
        ensures
            b == self@.wf(),
    {
        self.area.within_world() && all_within_world(&self.colliders)
    }

    /// Whether a player that covers `player` stands in the room.
    pub fn holds(&self, player: &Rect) -> (b: bool)
        ensures
            b == self@.holds(*player),
    {
        self.area.intersects(player)
    }
}

/// The rooms of a level, in the order in which they were found.
pub struct Registry {
    pub rooms: Vec<Room>,
}

impl View for Registry {
    type V = Seq<RoomView>;

    open spec fn view(&self) -> Seq<RoomView> {
        Seq::new(self.rooms@.len(), |i: int| self.rooms@[i]@)
    }
}

impl Registry {
    /// Every room lies within the world.
    pub open spec fn wf(self) -> bool {
        forall|i: int| 0 <= i < self@.len() ==> (#[trigger] self@[i]).wf()
    }

    /// A registry without rooms.
    pub fn new() -> (r: Registry)
        ensures
            r@.len() == 0,
            r.wf(),
    {
        Registry { rooms: Vec::new() }
    }

    /// Whether every room lies within the world.
    pub fn within_world(&self) -> (b: bool)
        ensures
            b == self.wf(),
    {
        let n: usize = self.rooms.len();
        let mut i: usize = 0;
        while i < n
            invariant
                n == self@.len(),
                n == self.rooms@.len(),
                i <= n,
                forall|k: int| 0 <= k < i ==> (#[trigger] self@[k]).wf(),
            decreases n - i,
        {
            if !self.rooms[i].within_world() {
                assert(!self@[i as int].wf());
                return false;
            }
            assert(self@[i as int].wf());
            i += 1;
        }
        true
    }

    /// Number of rooms.
    pub fn len(&self) -> (n: usize)
        ensures
            n == self@.len(),
    {
        self.rooms.len()
    }

    /// Looks at the player's place and wakes or puts to sleep each room.
    ///
    /// Each room is judged by itself: several may be active at once. A room
    /// that goes to sleep has its countdown armed. The result says whether
    /// a room woke, that is, whether colliders and images have to be put
    /// into the world anew.
    pub fn room_status(&mut self, player: &Rect) -> (needs_materialization: bool)
        ensures
            final(self)@.len() == old(self)@.len(),
            forall|i: int|
                0 <= i < old(self)@.len() ==> final(self)@[i] == (#[trigger] old(self)@[i]).stepped(
                    *player,
                ),
            needs_materialization == exists|i: int|
                0 <= i < old(self)@.len() && (#[trigger] old(self)@[i]).activates(*player),
    {
        let n: usize = self.rooms.len();
        let mut woke: bool = false;
        let mut i: usize = 0;
        while i < n
            invariant
                n == old(self)@.len(),
                self@.len() == n,
                i <= n,
                forall|k: int| 0 <= k < i ==> self@[k] == (#[trigger] old(self)@[k]).stepped(*player),
                forall|k: int| i <= k < n ==> self@[k] == old(self)@[k],
                woke == exists|k: int|
                    0 <= k < i && (#[trigger] old(self)@[k]).activates(*player),
            decreases n - i,
        {
            let inside: bool = self.rooms[i].holds(player);
            let was_active: bool = self.rooms[i].active;
            proof {
                assert(self@[i as int] == old(self)@[i as int]);
            }
            if inside {
                if !was_active {
                    self.rooms[i].active = true;
                    woke = true;
                }
            } else if was_active {
                self.rooms[i].active = false;
                self.rooms[i].mark_for_eviction();
            }
            proof {
                assert(self@[i as int] == old(self)@[i as int].stepped(*player));
                if old(self)@[i as int].activates(*player) {
                    assert(woke);
                }
            }
            i += 1;
        }
        woke
    }
}

impl Registry {
    /// Lets one tick of every running countdown pass.
    ///
    /// The result lists, in rising order, the rooms whose countdown ran
    /// out at this tick: their colliders and images are to leave the
    /// world. The rooms themselves stay in the registry.
    pub fn tick_eviction(&mut self) -> (expired: Vec<usize>)
        ensures
            final(self)@.len() == old(self)@.len(),
            forall|i: int|
                0 <= i < old(self)@.len() ==> final(self)@[i] == (#[trigger] old(self)@[i]).aged(),
            forall|k: int|
                0 <= k < expired@.len() ==> (#[trigger] expired@[k]) < old(self)@.len() && old(
                    self,
                )@[expired@[k] as int].expires(),
            forall|j: int, k: int|
                0 <= j < k < expired@.len() ==> (#[trigger] expired@[j]) < (#[trigger] expired@[k]),
            forall|i: int|
                0 <= i < old(self)@.len() && (#[trigger] old(self)@[i]).expires()
                    ==> expired@.contains(i as usize),
    {
        let n: usize = self.rooms.len();
        let mut expired: Vec<usize> = Vec::new();
        let mut i: usize = 0;
        while i < n
            invariant
                n == old(self)@.len(),
                self@.len() == n,
                i <= n,
                forall|k: int| 0 <= k < i ==> self@[k] == (#[trigger] old(self)@[k]).aged(),
                forall|k: int| i <= k < n ==> self@[k] == old(self)@[k],
                forall|k: int|
                    0 <= k < expired@.len() ==> (#[trigger] expired@[k]) < i && old(
                        self,
                    )@[expired@[k] as int].expires(),
                forall|j: int, k: int|
                    0 <= j < k < expired@.len() ==> (#[trigger] expired@[j]) < (
                    #[trigger] expired@[k]),
                forall|k: int|
                    0 <= k < i && (#[trigger] old(self)@[k]).expires() ==> expired@.contains(
                        k as usize,
                    ),
            decreases n - i,
        {
            let left: u32 = self.rooms[i].lifetime;
            proof {
                assert(self@[i as int] == old(self)@[i as int]);
            }
            if left > 0 {
                self.rooms[i].lifetime = left - 1;
                if left == 1 {
                    let ghost before = expired@;
                    expired.push(i);
                    proof {
                        assert(expired@[before.len() as int] == i);
                        assert forall|k: int|
                            0 <= k < i && (#[trigger] old(self)@[k]).expires() implies expired@.contains(
                            k as usize,
                        ) by {
                            let w = choose|w: int| 0 <= w < before.len() && before[w] == k as usize;
                            assert(expired@[w] == k as usize);
                        }
                    }
                }
            }
            proof {
                assert(self@[i as int] == old(self)@[i as int].aged());
            }
            i += 1;
        }
        expired
    }
}

/// A room after the player's place has been looked at once for each
/// rectangle of `path`, in order.
pub open spec fn followed(r: RoomView, path: Seq<Rect>) -> RoomView
    decreases path.len(),
{
    if path.len() == 0 {
        r
    } else {
        followed(r, path.drop_last()).stepped(path.last())
    }
}

/// How often the room wakes along `path`.
pub open spec fn activations(r: RoomView, path: Seq<Rect>) -> nat
    decreases path.len(),
{
    if path.len() == 0 {
        0
    } else if followed(r, path.drop_last()).activates(path.last()) {
        activations(r, path.drop_last()) + 1
    } else {
        activations(r, path.drop_last())
    }
}

/// How often the room goes to sleep along `path`.
pub open spec fn deactivations(r: RoomView, path: Seq<Rect>) -> nat
    decreases path.len(),
{
    if path.len() == 0 {
        0
    } else if followed(r, path.drop_last()).deactivates(path.last()) {
        deactivations(r, path.drop_last()) + 1
    } else {
        deactivations(r, path.drop_last())
    }
}

/// Looking at the player's place changes nothing of a room but whether it
/// is active and its countdown.
pub proof fn lemma_followed_keeps(r: RoomView, path: Seq<Rect>)
    ensures
        followed(r, path).area == r.area,
        followed(r, path).identifier == r.identifier,
        followed(r, path).colliders == r.colliders,
        followed(r, path).location == r.location,
    decreases path.len(),
{
    if path.len() > 0 {
        lemma_followed_keeps(r, path.drop_last());
    }
}

/// While the player stays in a room, the room wakes once, at the first
/// look if it was asleep, and never goes to sleep.
pub proof fn law_wakes_once_while_inside(r: RoomView, path: Seq<Rect>)
    requires
        path.len() > 0,
        forall|i: int| 0 <= i < path.len() ==> r.holds(#[trigger] path[i]),
    ensures
        followed(r, path).active,
        activations(r, path) == if r.active { 0nat } else { 1nat },
        deactivations(r, path) == 0,
    decreases path.len(),
{
    let rest = path.drop_last();
    lemma_followed_keeps(r, rest);
    assert(r.holds(path[path.len() - 1]));
    if rest.len() > 0 {
        assert forall|i: int| 0 <= i < rest.len() implies r.holds(#[trigger] rest[i]) by {
            assert(rest[i] == path[i]);
        }
        law_wakes_once_while_inside(r, rest);
    } else {
        assert(followed(r, rest) == r);
        assert(activations(r, rest) == 0);
        assert(deactivations(r, rest) == 0);
    }
}

/// While the player stays outside a room, the room goes to sleep once, at
/// the first look if it was active, and never wakes.
pub proof fn law_sleeps_once_while_outside(r: RoomView, path: Seq<Rect>)
    requires
        path.len() > 0,
        forall|i: int| 0 <= i < path.len() ==> !r.holds(#[trigger] path[i]),
    ensures
        !followed(r, path).active,
        deactivations(r, path) == if r.active { 1nat } else { 0nat },
        activations(r, path) == 0,
    decreases path.len(),
{
    let rest = path.drop_last();
    lemma_followed_keeps(r, rest);
    assert(!r.holds(path[path.len() - 1]));
    if rest.len() > 0 {
        assert forall|i: int| 0 <= i < rest.len() implies !r.holds(#[trigger] rest[i]) by {
            assert(rest[i] == path[i]);
        }
        law_sleeps_once_while_outside(r, rest);
    } else {
        assert(followed(r, rest) == r);
        assert(activations(r, rest) == 0);
        assert(deactivations(r, rest) == 0);
    }
}

/// A room after one tick for each rectangle of `path`: at each tick the
/// countdown runs, then the player's place is looked at.
pub open spec fn waited(r: RoomView, path: Seq<Rect>) -> RoomView
    decreases path.len(),
{
    if path.len() == 0 {
        r
    } else {
        waited(r, path.drop_last()).aged().stepped(path.last())
    }
}

/// A room that the player leaves, and stays out of, is in the world for
/// `GRACE_PERIOD - 1` further ticks and leaves it at tick `GRACE_PERIOD`:
/// its countdown runs out at that tick and at no earlier one.
pub proof fn law_eviction_timing(r: RoomView, leave: Rect, path: Seq<Rect>)
    requires
        r.active,
        !r.holds(leave),
        path.len() <= GRACE_PERIOD,
        forall|i: int| 0 <= i < path.len() ==> !r.holds(#[trigger] path[i]),
    ensures
        r.stepped(leave).lifetime == GRACE_PERIOD,
        !waited(r.stepped(leave), path).active,
        waited(r.stepped(leave), path).lifetime == GRACE_PERIOD - path.len(),
        waited(r.stepped(leave), path).area == r.area,
        path.len() < GRACE_PERIOD ==> waited(r.stepped(leave), path).materialized(),
        path.len() == GRACE_PERIOD ==> !waited(r.stepped(leave), path).materialized(),
        path.len() > 0 ==> (waited(r.stepped(leave), path.drop_last()).expires() <==> path.len()
            == GRACE_PERIOD),
    decreases path.len(),
{
    if path.len() > 0 {
        let rest = path.drop_last();
        assert forall|i: int| 0 <= i < rest.len() implies !r.holds(#[trigger] rest[i]) by {
            assert(rest[i] == path[i]);
        }
        law_eviction_timing(r, leave, rest);
        assert(!r.holds(path[path.len() - 1]));
    }
}

/// The byte that parts the pieces of a directory's name: `_`.
pub const UNDERSCORE: u8 = 95;

/// What a file of a room's directory holds.
#[derive(Clone, Copy, Debug, PartialEq, Eq, Structural)]
pub enum FileRole {
    /// The image behind everything.
    Backdrop,
    /// The image in front of everything.
    Foreground,
    /// The image between the two.
    Decoration,
    /// The room's descriptor.
    Geometry,
    /// Nothing that the room uses.
    Other,
}

/// The three images of a room, from back to front.
#[derive(Clone, Copy, Debug, PartialEq, Eq, Structural)]
pub enum Layer {
    Backdrop,
    Decoration,
    Foreground,
}

/// A file of a room's directory: its name as the directory gives it
/// and, for a descriptor that could be read, its content.
#[derive(Debug)]
pub struct RoomFile {
    pub name: String,
    pub descriptor: Option<Vec<u8>>,
}

/// A room's directory: its path and its files, in the order in which the
/// directory gave them.
#[derive(Debug)]
pub struct RoomSource {
    pub directory_path: String,
    pub files: Vec<RoomFile>,
}

impl RoomFile {
    /// The content of the descriptor, if it was read.
    pub open spec fn content(self) -> Option<Seq<u8>> {
        match self.descriptor {
            Some(text) => Some(text@),
            None => None,
        }
    }
}

/// The tag of a backdrop: `back`.
pub open spec fn backdrop_tag() -> Seq<u8> {
    seq![98u8, 97u8, 99u8, 107u8]
}

/// The tag of a foreground: `fore`.
pub open spec fn foreground_tag() -> Seq<u8> {
    seq![102u8, 111u8, 114u8, 101u8]
}

/// The tag of a decoration: `deco`.
pub open spec fn decoration_tag() -> Seq<u8> {
    seq![100u8, 101u8, 99u8, 111u8]
}

/// The tag of a descriptor: `cldr`.
pub open spec fn geometry_tag() -> Seq<u8> {
    seq![99u8, 108u8, 100u8, 114u8]
}

/// What the file called `name` holds: the first of the four tags that its
/// name holds decides, in the order backdrop, foreground, decoration,
/// descriptor.
pub open spec fn role_of(name: Seq<u8>) -> FileRole {
    if has_infix(name, backdrop_tag()) {
        FileRole::Backdrop
    } else if has_infix(name, foreground_tag()) {
        FileRole::Foreground
    } else if has_infix(name, decoration_tag()) {
        FileRole::Decoration
    } else if has_infix(name, geometry_tag()) {
        FileRole::Geometry
    } else {
        FileRole::Other
    }
}

/// The farthest tile, either way, at which a room may lie.
pub const ROOM_REACH: u64 = 0x8000_0000;

/// Where the room of the directory `path` lies: the second and the third
/// piece of the path, split at its underscores, are its place in tiles.
/// Each is a number with or without a fraction, as `2`, `-3` or `1.5`;
/// what is left of a step is not counted.
pub open spec fn origin_of(path: Seq<u8>) -> Option<Point> {
    let pieces = split(path, UNDERSCORE);
    if pieces.len() < 3 {
        None
    } else {
        match (
            parse_scaled(pieces[1], TILE as int, ROOM_REACH as int),
            parse_scaled(pieces[2], TILE as int, ROOM_REACH as int),
        ) {
            (Some(x), Some(y)) => Some(Point { x: x as i64, y: y as i64 }),
            _ => None,
        }
    }
}

/// The name of a file as the room keeps it: without the directory of
/// assets, `Assets/`, wherever that stands in it.
pub open spec fn asset_path(name: Seq<char>) -> Seq<char> {
    replaced(name, "Assets/"@, Seq::empty())
}

/// The descriptor that is to be read for the file called `name`: none
/// unless the file is a descriptor, else where it lies on disk.
pub open spec fn descriptor_of(name: Seq<char>, windows: bool) -> Option<Seq<u8>> {
    if role_of(encode_utf8(asset_path(name))) == FileRole::Geometry {
        Some(descriptor_path_of(encode_utf8(asset_path(name)), windows))
    } else {
        None
    }
}

/// A room as it is found: asleep, without images, colliders or area.
pub open spec fn fresh(identifier: Seq<char>, origin: Point) -> RoomView {
    RoomView {
        identifier,
        location: Location { origin, scale: ROOM_SCALE },
        area: Rect { x0: 0, y0: 0, x1: 0, y1: 0 },
        backdrop_path: Seq::empty(),
        decoration_path: Seq::empty(),
        foreground_path: Seq::empty(),
        colliders: Seq::empty(),
        active: false,
        lifetime: 0,
    }
}

/// A room after it has taken in one file of its directory. The file
/// counts by its name without the directory of assets, and that is the
/// name that the room keeps of an image.
pub open spec fn took(room: RoomView, file: RoomFile) -> RoomView {
    let path = asset_path(file.name@);
    match role_of(encode_utf8(path)) {
        FileRole::Backdrop => RoomView { backdrop_path: path, ..room },
        FileRole::Foreground => RoomView { foreground_path: path, ..room },
        FileRole::Decoration => RoomView { decoration_path: path, ..room },
        FileRole::Geometry => {
            let area = room_area(file.content(), room.location.origin);
            RoomView {
                area,
                colliders: room_colliders(file.content(), room.location.origin, area.spec_height()),
                ..room
            }
        },
        FileRole::Other => room,
    }
}

/// A room after it has taken in the files `files`, in order: of two files
/// of one role, the later one stands.
pub open spec fn furnished(room: RoomView, files: Seq<RoomFile>) -> RoomView
    decreases files.len(),
{
    if files.len() == 0 {
        room
    } else {
        took(furnished(room, files.drop_last()), files.last())
    }
}

/// The room of a directory, where its path says where the room lies.
pub open spec fn room_of(source: RoomSource) -> Option<RoomView> {
    match origin_of(encode_utf8(source.directory_path@)) {
        Some(origin) => Some(furnished(fresh(source.directory_path@, origin), source.files@)),
        None => None,
    }
}

/// The rooms of the directories `sources`, in order; a directory whose
/// path does not say where its room lies gives none.
pub open spec fn found(sources: Seq<RoomSource>) -> Seq<RoomView>
    decreases sources.len(),
{
    if sources.len() == 0 {
        Seq::empty()
    } else {
        match room_of(sources.last()) {
            Some(room) => found(sources.drop_last()).push(room),
            None => found(sources.drop_last()),
        }
    }
}

/// Farthest from the centre of the world that the origin of a room may
/// lie: one tile more than `ROOM_REACH` tiles.
pub const ORIGIN_LIMIT: i64 = 6_597_069_769_728_000;

/// A room's origin lies within reach.
pub open spec fn tiled(origin: Point) -> bool {
    &&& -ORIGIN_LIMIT < origin.x < ORIGIN_LIMIT
    &&& -ORIGIN_LIMIT < origin.y < ORIGIN_LIMIT
}

/// What the file called `name` holds.
pub fn classify(name: &[u8]) -> (role: FileRole)
    ensures
        role == role_of(name@),
{
    let back: [u8; 4] = [98, 97, 99, 107];
    let fore: [u8; 4] = [102, 111, 114, 101];
    let deco: [u8; 4] = [100, 101, 99, 111];
    let cldr: [u8; 4] = [99, 108, 100, 114];
    assert(back@ =~= backdrop_tag());
    assert(fore@ =~= foreground_tag());
    assert(deco@ =~= decoration_tag());
    assert(cldr@ =~= geometry_tag());
    if contains(name, back.as_slice()) {
        FileRole::Backdrop
    } else if contains(name, fore.as_slice()) {
        FileRole::Foreground
    } else if contains(name, deco.as_slice()) {
        FileRole::Decoration
    } else if contains(name, cldr.as_slice()) {
        FileRole::Geometry
    } else {
        FileRole::Other
    }
}

/// Where the room of the directory `path` lies.
pub fn room_origin(path: &[u8]) -> (origin: Option<Point>)
    ensures
        origin == origin_of(path@),
        origin matches Some(o) ==> tiled(o),
{
    let pieces: Vec<Vec<u8>> = split_bytes(path, UNDERSCORE);
    if pieces.len() < 3 {
        return None;
    }
    proof {
        assert(views(pieces@)[1] == pieces@[1]@);
        assert(views(pieces@)[2] == pieces@[2]@);
    }
    let unit: u64 = TILE as u64;
    match (
        read_scaled(pieces[1].as_slice(), unit, ROOM_REACH),
        read_scaled(pieces[2].as_slice(), unit, ROOM_REACH),
    ) {
        (Some(x), Some(y)) => Some(Point { x, y }),
        _ => None,
    }
}

/// The name of a file as the room keeps it.
pub fn stored_path(name: &str) -> (path: String)
    ensures
        path@ == asset_path(name@),
{
    proof {
        reveal_strlit("Assets/");
        reveal_strlit("");
    }
    let path: String = replace_str(name, "Assets/", "");
    assert(""@ =~= Seq::<char>::empty());
    path
}

/// The descriptor that is to be read for the file called `name`.
pub fn descriptor_file(name: &str, windows: bool) -> (path: Option<Vec<u8>>)
    ensures
        path is Some <==> descriptor_of(name@, windows) is Some,
        path matches Some(p) ==> descriptor_of(name@, windows) == Some(p@),
{
    let kept: String = stored_path(name);
    match classify(kept.as_str().as_bytes()) {
        FileRole::Geometry => Some(descriptor_path(kept.as_str().as_bytes(), windows)),
        _ => None,
    }
}

impl Room {
    /// Takes in one file of the room's directory: an image by its name, a
    /// descriptor by its content.
    fn take_file(&mut self, file: &RoomFile)
        requires
            tiled(old(self).location.origin),
            old(self)@.wf(),
        ensures
            final(self)@ == took(old(self)@, *file),
            final(self)@.wf(),
    {
        let path: String = stored_path(file.name.as_str());
        let role: FileRole = classify(path.as_str().as_bytes());
        match role {
            FileRole::Backdrop => {
                self.backdrop_path = path;
            },
            FileRole::Foreground => {
                self.foreground_path = path;
            },
            FileRole::Decoration => {
                self.decoration_path = path;
            },
            FileRole::Geometry => {
                let origin: Point = self.location.origin;
                let text: Option<&[u8]> = match &file.descriptor {
                    Some(bytes) => Some(bytes.as_slice()),
                    None => None,
                };
                let area: Rect = get_area(text, origin);
                let colliders: Vec<Collider> = load_colliders(text, origin, &area);
                proof {
                    assert forall|i: int| 0 <= i < colliders@.len() implies (
                    #[trigger] colliders@[i]).wf() by {
                        let t = choose|t: TileRect|
                            colliders@[i].transform == place(origin, area.spec_height(), t);
                        assert(colliders@[i].transform == place(origin, area.spec_height(), t));
                    }
                }
                self.area = area;
                self.colliders = colliders;
            },
            FileRole::Other => {},
        }
    }
}

/// Builds the room of a directory from the directory's path and files.
///
/// The result is `None` exactly where the path does not say where the room
/// lies. The room is asleep, and no countdown runs.
pub fn create_room(directory_path: &String, files: &Vec<RoomFile>) -> (r: Option<Room>)
    ensures
        match origin_of(encode_utf8(directory_path@)) {
            Some(origin) => r matches Some(room) && room@ == furnished(
                fresh(directory_path@, origin),
                files@,
            ) && room@.wf() && tiled(room@.location.origin),
            None => r is None,
        },
{
    let origin: Point = match room_origin(directory_path.as_str().as_bytes()) {
        Some(origin) => origin,
        None => {
            return None;
        },
    };
    let mut room = Room {
        identifier: directory_path.clone(),
        location: Location { origin, scale: ROOM_SCALE },
        area: Rect { x0: 0, y0: 0, x1: 0, y1: 0 },
        backdrop_path: String::new(),
        decoration_path: String::new(),
        foreground_path: String::new(),
        colliders: Vec::new(),
        active: false,
        lifetime: 0,
    };
    let ghost start = fresh(directory_path@, origin);
    assert(room@ == start);
    let n: usize = files.len();
    let mut i: usize = 0;
    assert(files@.take(0) =~= Seq::<RoomFile>::empty());
    while i < n
        invariant
            n == files@.len(),
            i <= n,
            room@ == furnished(start, files@.take(i as int)),
            room@.wf(),
            room@.location.origin == origin,
            tiled(origin),
        decreases n - i,
    {
        proof {
            assert(files@.take(i + 1).drop_last() =~= files@.take(i as int));
            assert(files@.take(i + 1).last() == files@[i as int]);
        }
        room.take_file(&files[i]);
        i += 1;
    }
    assert(files@.take(n as int) =~= files@);
    Some(room)
}

impl Registry {
    /// Builds the registry of a level from the directories of its rooms.
    pub fn discover(sources: &Vec<RoomSource>) -> (r: Registry)
        ensures
            r@ == found(sources@),
            r.wf(),
    {
        let mut rooms: Vec<Room> = Vec::new();
        let n: usize = sources.len();
        let mut i: usize = 0;
        assert(sources@.take(0) =~= Seq::<RoomSource>::empty());
        while i < n
            invariant
                n == sources@.len(),
                i <= n,
                Seq::new(rooms@.len(), |k: int| rooms@[k]@) == found(sources@.take(i as int)),
                forall|k: int| 0 <= k < rooms@.len() ==> (#[trigger] rooms@[k]@).wf(),
            decreases n - i,
        {
            proof {
                assert(sources@.take(i + 1).drop_last() =~= sources@.take(i as int));
                assert(sources@.take(i + 1).last() == sources@[i as int]);
            }
            let ghost before = Seq::new(rooms@.len(), |k: int| rooms@[k]@);
            match create_room(&sources[i].directory_path, &sources[i].files) {
                Some(room) => {
                    let ghost view = room@;
                    rooms.push(room);
                    assert(Seq::new(rooms@.len(), |k: int| rooms@[k]@) =~= before.push(view));
                },
                None => {},
            }
            i += 1;
        }
        assert(sources@.take(n as int) =~= sources@);
        Registry { rooms }
    }
}

/// Depth at which a room's backdrop is drawn.
pub const BACKDROP_DEPTH: i64 = 0;

/// Depth at which a room's decoration is drawn.
pub const DECORATION_DEPTH: i64 = 1;

/// Depth at which a room's foreground is drawn.
pub const FOREGROUND_DEPTH: i64 = 3;

/// A collider to put into the world, and the room it belongs to.
#[derive(Clone, Copy, Debug, PartialEq, Eq, Structural)]
pub struct ColliderSpawn {
    pub room: usize,
    pub collider: Collider,
}

/// An image to put into the world: the room it belongs to, which of the
/// room's images it is, where it lies, and how deep.
#[derive(Clone, Copy, Debug, PartialEq, Eq, Structural)]
pub struct LayerSpawn {
    pub room: usize,
    pub layer: Layer,
    pub location: Location,
    pub depth: i64,
}

/// The depth of each layer: they rise from back to front.
pub open spec fn depth_of(layer: Layer) -> i64 {
    match layer {
        Layer::Backdrop => BACKDROP_DEPTH,
        Layer::Decoration => DECORATION_DEPTH,
        Layer::Foreground => FOREGROUND_DEPTH,
    }
}

/// The image `layer` of room `index`.
pub open spec fn layer_spawn(room: RoomView, index: int, layer: Layer) -> LayerSpawn {
    LayerSpawn { room: index as usize, layer, location: room.location, depth: depth_of(layer) }
}

/// The colliders of room `index`, in the room's order.
pub open spec fn room_colliders_spawned(room: RoomView, index: int) -> Seq<ColliderSpawn> {
    Seq::new(
        room.colliders.len(),
        |k: int| ColliderSpawn { room: index as usize, collider: room.colliders[k] },
    )
}

/// The three images of room `index`, from back to front.
pub open spec fn room_layers_spawned(room: RoomView, index: int) -> Seq<LayerSpawn> {
    seq![
        layer_spawn(room, index, Layer::Backdrop),
        layer_spawn(room, index, Layer::Decoration),
        layer_spawn(room, index, Layer::Foreground),
    ]
}

/// The colliders of every active room, room after room.
pub open spec fn colliders_spawned(rooms: Seq<RoomView>) -> Seq<ColliderSpawn>
    decreases rooms.len(),
{
    if rooms.len() == 0 {
        Seq::empty()
    } else if rooms.last().active {
        colliders_spawned(rooms.drop_last()) + room_colliders_spawned(
            rooms.last(),
            rooms.len() - 1,
        )
    } else {
        colliders_spawned(rooms.drop_last())
    }
}

/// The images of every active room, room after room.
pub open spec fn layers_spawned(rooms: Seq<RoomView>) -> Seq<LayerSpawn>
    decreases rooms.len(),
{
    if rooms.len() == 0 {
        Seq::empty()
    } else if rooms.last().active {
        layers_spawned(rooms.drop_last()) + room_layers_spawned(rooms.last(), rooms.len() - 1)
    } else {
        layers_spawned(rooms.drop_last())
    }
}

impl Room {
    /// The path of one of the room's images.
    pub fn texture(&self, layer: Layer) -> (path: &String)
        ensures
            path@ == match layer {
                Layer::Backdrop => self@.backdrop_path,
                Layer::Decoration => self@.decoration_path,
                Layer::Foreground => self@.foreground_path,
            },
    {
        match layer {
            Layer::Backdrop => &self.backdrop_path,
            Layer::Decoration => &self.decoration_path,
            Layer::Foreground => &self.foreground_path,
        }
    }
}

impl Registry {
    /// The colliders to put into the world: all those of every active
    /// room. No room gives only a part of its colliders.
    pub fn spawn_colliders(&self) -> (out: Vec<ColliderSpawn>)
        ensures
            out@ == colliders_spawned(self@),
    {
        let mut out: Vec<ColliderSpawn> = Vec::new();
        let n: usize = self.rooms.len();
        let mut i: usize = 0;
        assert(self@.take(0) =~= Seq::<RoomView>::empty());
        while i < n
            invariant
                n == self@.len(),
                n == self.rooms@.len(),
                i <= n,
                out@ == colliders_spawned(self@.take(i as int)),
            decreases n - i,
        {
            let room: &Room = &self.rooms[i];
            proof {
                assert(self@.take(i + 1).drop_last() =~= self@.take(i as int));
                assert(self@.take(i + 1).last() == room@);
            }
            if room.active {
                let m: usize = room.colliders.len();
                let ghost before = out@;
                let mut k: usize = 0;
                while k < m
                    invariant
                        m == room.colliders@.len(),
                        k <= m,
                        out@ == before + room_colliders_spawned(room@, i as int).take(k as int),
                    decreases m - k,
                {
                    out.push(ColliderSpawn { room: i, collider: room.colliders[k] });
                    k += 1;
                    assert(out@ =~= before + room_colliders_spawned(room@, i as int).take(
                        k as int,
                    ));
                }
                assert(room_colliders_spawned(room@, i as int).take(m as int)
                    =~= room_colliders_spawned(room@, i as int));
            }
            i += 1;
        }
        assert(self@.take(n as int) =~= self@);
        out
    }

    /// The images to put into the world: the three of every active room,
    /// from back to front.
    pub fn display_rooms(&self) -> (out: Vec<LayerSpawn>)
        ensures
            out@ == layers_spawned(self@),
    {
        let mut out: Vec<LayerSpawn> = Vec::new();
        let n: usize = self.rooms.len();
        let mut i: usize = 0;
        assert(self@.take(0) =~= Seq::<RoomView>::empty());
        while i < n
            invariant
                n == self@.len(),
                n == self.rooms@.len(),
                i <= n,
                out@ == layers_spawned(self@.take(i as int)),
            decreases n - i,
        {
            let room: &Room = &self.rooms[i];
            proof {
                assert(self@.take(i + 1).drop_last() =~= self@.take(i as int));
                assert(self@.take(i + 1).last() == room@);
            }
            if room.active {
                let ghost before = out@;
                let location: Location = room.location;
                out.push(
                    LayerSpawn { room: i, layer: Layer::Backdrop, location, depth: BACKDROP_DEPTH },
                );
                out.push(
                    LayerSpawn {
                        room: i,
                        layer: Layer::Decoration,
                        location,
                        depth: DECORATION_DEPTH,
                    },
                );
                out.push(
                    LayerSpawn {
                        room: i,
                        layer: Layer::Foreground,
                        location,
                        depth: FOREGROUND_DEPTH,
                    },
                );
                assert(out@ =~= before + room_layers_spawned(room@, i as int));
            }
            i += 1;
        }
        assert(self@.take(n as int) =~= self@);
        out
    }
}

} // verus!
