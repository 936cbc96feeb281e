use harken::descriptor::{Collider, ColliderStyle, Placement};
use harken::geometry::{Point, Rect, TILE};
use harken::geometry::STEPS_PER_UNIT;
use harken::rooms::{
    classify, create_room, descriptor_file, room_origin, stored_path, ColliderSpawn, FileRole,
    Layer, LayerSpawn, Location, Registry, Room, RoomFile, RoomSource, GRACE_PERIOD, ROOM_SCALE,
};

const DESCRIPTOR: &str = "<?xml?>\n<svg v=\"1\" width=\"10\" height=\"5\">\n<rect x=\"0\" y=\"0\" w=\"10\" h=\"1\" fill=\"#000000\"/>\n<rect x=\"9\" y=\"2\" w=\"1\" h=\"1\" fill=\"#00FF00\"/>\n</svg>\n";

fn image(name: &str) -> RoomFile {
    RoomFile { name: name.to_string(), descriptor: None }
}

fn geometry(name: &str, text: Option<&str>) -> RoomFile {
    RoomFile { name: name.to_string(), descriptor: text.map(|t| t.as_bytes().to_vec()) }
}

fn source(path: &str) -> RoomSource {
    RoomSource {
        directory_path: path.to_string(),
        files: vec![
            image(&format!("{}/back.png", path)),
            geometry(&format!("{}/cldr.svg", path), Some(DESCRIPTOR)),
            image(&format!("{}/deco.png", path)),
            image(&format!("{}/fore.png", path)),
            image(&format!("{}/notes.txt", path)),
        ],
    }
}

fn plain_room(area: Rect) -> Room {
    Room {
        identifier: "r".to_string(),
        location: Location { origin: Point { x: area.x0, y: area.y0 }, scale: ROOM_SCALE },
        area,
        backdrop_path: "b".to_string(),
        decoration_path: "d".to_string(),
        foreground_path: "f".to_string(),
        colliders: vec![
            Collider {
                transform: Placement { x: area.x0, y: area.y1, w: 10, h: 10 },
                style: ColliderStyle::Rigid,
            },
            Collider {
                transform: Placement { x: area.x0 + 20, y: area.y1, w: 5, h: 5 },
                style: ColliderStyle::Interactable,
            },
        ],
        active: false,
        lifetime: 0,
    }
}

fn hitbox(x: i64, y: i64) -> Rect {
    Rect::new(x, y, x + 30, y + 10)
}

#[test]
fn files_are_classified_by_name() {
    assert_eq!(classify(b"textures/rooms/L1/room_0_0/back.png"), FileRole::Backdrop);
    assert_eq!(classify(b"fore.png"), FileRole::Foreground);
    assert_eq!(classify(b"deco.png"), FileRole::Decoration);
    assert_eq!(classify(b"cldr.svg"), FileRole::Geometry);
    assert_eq!(classify(b"readme.md"), FileRole::Other);
    assert_eq!(classify(b""), FileRole::Other);
    assert_eq!(classify(b"fore_back.png"), FileRole::Backdrop);
    assert_eq!(classify(b"cldr_deco.svg"), FileRole::Decoration);
    assert_eq!(classify(b"BACK.png"), FileRole::Other);
}

#[test]
fn origin_is_read_from_the_path() {
    assert_eq!(
        room_origin(b"Assets/textures/rooms/L1/room_2_-3"),
        Some(Point { x: 2 * TILE, y: -3 * TILE })
    );
    assert_eq!(room_origin(b"room_0_0_extra"), Some(Point { x: 0, y: 0 }));
    assert_eq!(room_origin(b"room_1"), None);
    assert_eq!(room_origin(b"room"), None);
    assert_eq!(room_origin(b"room_a_1"), None);
    assert_eq!(room_origin(b"room_1_b"), None);
    assert_eq!(room_origin(b"my_room_1_2"), None);
    assert_eq!(
        room_origin(b"r_2147483647_-2147483648"),
        Some(Point { x: 2147483647 * TILE, y: -2147483648 * TILE })
    );
    assert_eq!(room_origin(b"r_2147483649_0"), None);
    assert_eq!(room_origin(b"r_0_99999999999999999999"), None);
}

#[test]
fn origin_may_have_a_fraction() {
    assert_eq!(
        room_origin(b"room_1.5_2"),
        Some(Point { x: 72 * STEPS_PER_UNIT, y: 96 * STEPS_PER_UNIT })
    );
    assert_eq!(
        room_origin(b"room_2.0_3"),
        Some(Point { x: 96 * STEPS_PER_UNIT, y: 144 * STEPS_PER_UNIT })
    );
    assert_eq!(room_origin(b"room_-0.5_+1.25"), Some(Point { x: -TILE / 2, y: TILE + TILE / 4 }));
    assert_eq!(room_origin(b"room_.5_7."), Some(Point { x: TILE / 2, y: 7 * TILE }));
    assert_eq!(room_origin(b"room_0.0001_-0.0001"), Some(Point { x: 307, y: -307 }));
    assert_eq!(room_origin(b"room_0.33333333333333333333333_0"), Some(Point { x: 1_023_999, y: 0 }));
    assert_eq!(room_origin(b"room_2147483648.999_0"), Some(Point { x: 2147483648 * TILE + 3_068_928, y: 0 }));
    for bad in ["room_._1", "room_1.2.3_1", "room_1e3_1", "room_+_1", "room_-._1", "room_1,5_1", "room_inf_1", "room__1"] {
        assert_eq!(room_origin(bad.as_bytes()), None, "{}", bad);
    }
}

#[test]
fn origin_agrees_with_floating_point_where_that_is_exact() {
    for token in ["0", "1", "-1", "1.5", "2.0", "-3.25", "0.125", ".5", "7.", "+12.75", "100.0625"] {
        let path = format!("room_{}_{}", token, token);
        let expected = (token.parse::<f32>().unwrap() * 48.0 * 64_000.0) as i64;
        assert_eq!(
            room_origin(path.as_bytes()),
            Some(Point { x: expected, y: expected }),
            "{}",
            token
        );
    }
}

#[test]
fn room_with_a_fraction_in_its_name_is_found() {
    let registry = Registry::discover(&vec![source("L1/room_1.5_2"), source("L1/room_2.0_3")]);
    assert_eq!(registry.len(), 2);
    assert_eq!(registry.rooms[0].identifier, "L1/room_1.5_2");
    assert_eq!(registry.rooms[0].location.origin, Point { x: 3 * TILE / 2, y: 2 * TILE });
    assert_eq!(registry.rooms[1].location.origin, Point { x: 2 * TILE, y: 3 * TILE });
    assert!(!registry.rooms[0].active);
    assert_eq!(registry.rooms[0].lifetime, 0);
}

#[test]
fn stored_path_leaves_out_the_directory_of_assets() {
    assert_eq!(stored_path("Assets/textures/rooms/L1/room_0_0/back.png"), "textures/rooms/L1/room_0_0/back.png");
    assert_eq!(stored_path("textures/back.png"), "textures/back.png");
    assert_eq!(stored_path("Assets/a/Assets/b"), "a/b");
    assert_eq!(stored_path("assets/a"), "assets/a");
    assert_eq!(stored_path(""), "");
}

#[test]
fn descriptor_file_names_what_is_to_be_read() {
    assert_eq!(
        descriptor_file("Assets/textures/rooms/L1/room_0_0/cldr.svg", false),
        Some(b"Assets/textures/rooms/L1/room_0_0/cldr.svg".to_vec())
    );
    assert_eq!(
        descriptor_file("textures\\rooms\\cldr.svg", true),
        Some(b"Assets\\textures\\rooms\\cldr.svg".to_vec())
    );
    assert_eq!(descriptor_file("Assets/textures/rooms/L1/room_0_0/back.png", false), None);
    assert_eq!(descriptor_file("Assets/textures/rooms/L1/room_0_0/notes.txt", false), None);
}

#[test]
fn room_is_built_from_its_directory() {
    let src = source("Assets/textures/rooms/L1/room_2_3");
    let room = create_room(&src.directory_path, &src.files).unwrap();
    assert_eq!(room.identifier, "Assets/textures/rooms/L1/room_2_3");
    assert_eq!(room.location, Location { origin: Point { x: 2 * TILE, y: 3 * TILE }, scale: 6 });
    assert_eq!(room.area, Rect::new(2 * TILE, 3 * TILE, 12 * TILE, 8 * TILE));
    assert_eq!(room.backdrop_path, "textures/rooms/L1/room_2_3/back.png");
    assert_eq!(room.decoration_path, "textures/rooms/L1/room_2_3/deco.png");
    assert_eq!(room.foreground_path, "textures/rooms/L1/room_2_3/fore.png");
    assert!(!room.active);
    assert_eq!(room.lifetime, 0);
    assert_eq!(
        room.colliders,
        vec![
            Collider {
                transform: Placement { x: 2 * TILE, y: 7 * TILE, w: 10 * TILE, h: TILE },
                style: ColliderStyle::Rigid,
            },
            Collider {
                transform: Placement { x: 11 * TILE, y: 5 * TILE, w: TILE, h: TILE },
                style: ColliderStyle::ChangeRoom,
            },
        ]
    );
}

#[test]
fn room_without_files_is_trivial() {
    let room = create_room(&"room_4_5".to_string(), &Vec::new()).unwrap();
    assert_eq!(room.area, Rect::new(0, 0, 0, 0));
    assert!(room.colliders.is_empty());
    assert_eq!(room.backdrop_path, "");
    assert_eq!(room.decoration_path, "");
    assert_eq!(room.foreground_path, "");
    assert_eq!(room.location.origin, Point { x: 4 * TILE, y: 5 * TILE });
}

#[test]
fn unreadable_descriptor_gives_empty_room() {
    let files = vec![image("room_1_1/back.png"), geometry("room_1_1/cldr.svg", None)];
    let room = create_room(&"room_1_1".to_string(), &files).unwrap();
    assert_eq!(room.area, Rect::new(TILE, TILE, TILE, TILE));
    assert!(room.colliders.is_empty());
    assert_eq!(room.backdrop_path, "room_1_1/back.png");
}

#[test]
fn later_file_of_a_role_stands() {
    let files = vec![
        image("room_0_0/back_a.png"),
        geometry("room_0_0/cldr_a.svg", Some(DESCRIPTOR)),
        image("room_0_0/back_b.png"),
        geometry("room_0_0/cldr_b.svg", None),
    ];
    let room = create_room(&"room_0_0".to_string(), &files).unwrap();
    assert_eq!(room.backdrop_path, "room_0_0/back_b.png");
    assert_eq!(room.area, Rect::new(0, 0, 0, 0));
    assert!(room.colliders.is_empty());
}

#[test]
fn path_without_origin_gives_no_room() {
    assert!(create_room(&"rooms/lobby".to_string(), &Vec::new()).is_none());
    assert!(create_room(&"room_x_y".to_string(), &vec![image("back.png")]).is_none());
}

#[test]
fn discovery_keeps_order_and_skips_unplaced_directories() {
    let sources = vec![source("L1/room_0_0"), source("L1/misc"), source("L1/room_10_0")];
    let registry = Registry::discover(&sources);
    assert_eq!(registry.len(), 2);
    assert_eq!(registry.rooms[0].identifier, "L1/room_0_0");
    assert_eq!(registry.rooms[1].identifier, "L1/room_10_0");
    assert_eq!(registry.rooms[1].area, Rect::new(10 * TILE, 0, 20 * TILE, 5 * TILE));
    for room in &registry.rooms {
        assert!(!room.active);
        assert_eq!(room.lifetime, 0);
        assert_eq!(room.colliders.len(), 2);
    }
    assert_eq!(Registry::discover(&Vec::new()).len(), 0);
    assert_eq!(Registry::new().len(), 0);
}

#[test]
fn room_wakes_once_while_player_stays_inside() {
    let mut registry = Registry { rooms: vec![plain_room(Rect::new(0, 0, 100, 100))] };
    assert!(!registry.room_status(&hitbox(-500, 0)));
    assert!(!registry.rooms[0].active);
    assert!(registry.room_status(&hitbox(-10, 0)));
    assert!(registry.rooms[0].active);
    for step in 0..50 {
        assert!(!registry.room_status(&hitbox(step, step)));
        assert!(registry.rooms[0].active);
        assert_eq!(registry.rooms[0].lifetime, 0);
    }
}

#[test]
fn room_sleeps_once_while_player_stays_outside() {
    let mut room = plain_room(Rect::new(0, 0, 100, 100));
    room.active = true;
    let mut registry = Registry { rooms: vec![room] };
    assert!(!registry.room_status(&hitbox(100, 0)));
    assert!(!registry.rooms[0].active);
    assert_eq!(registry.rooms[0].lifetime, 128);
    registry.rooms[0].lifetime = 5;
    assert!(!registry.room_status(&hitbox(200, 0)));
    assert!(!registry.rooms[0].active);
    assert_eq!(registry.rooms[0].lifetime, 5);
}

#[test]
fn touching_edges_do_not_wake_a_room() {
    let mut registry = Registry { rooms: vec![plain_room(Rect::new(0, 0, 100, 100))] };
    assert!(!registry.room_status(&hitbox(-30, 0)));
    assert!(!registry.room_status(&hitbox(0, 100)));
    assert!(!registry.room_status(&hitbox(0, -10)));
    assert!(registry.room_status(&hitbox(-29, -9)));
}

#[test]
fn rooms_are_activated_independently() {
    let mut registry = Registry {
        rooms: vec![
            plain_room(Rect::new(0, 0, 100, 100)),
            plain_room(Rect::new(100, 0, 200, 100)),
            plain_room(Rect::new(500, 0, 600, 100)),
        ],
    };
    assert!(registry.room_status(&hitbox(90, 10)));
    assert!(registry.rooms[0].active);
    assert!(registry.rooms[1].active);
    assert!(!registry.rooms[2].active);
    assert!(!registry.room_status(&hitbox(110, 10)));
    assert!(!registry.rooms[0].active);
    assert_eq!(registry.rooms[0].lifetime, GRACE_PERIOD);
    assert!(registry.rooms[1].active);
    assert_eq!(registry.rooms[1].lifetime, 0);
}

#[test]
fn waking_leaves_a_running_countdown_alone() {
    let mut room = plain_room(Rect::new(0, 0, 100, 100));
    room.lifetime = 40;
    let mut registry = Registry { rooms: vec![room] };
    assert!(registry.room_status(&hitbox(0, 0)));
    assert!(registry.rooms[0].active);
    assert_eq!(registry.rooms[0].lifetime, 40);
}

#[test]
fn mark_for_eviction_arms_the_grace_period() {
    let mut room = plain_room(Rect::new(0, 0, 100, 100));
    room.active = true;
    room.mark_for_eviction();
    assert_eq!(room.lifetime, 128);
    assert!(room.active);
    assert_eq!(room.identifier, "r");
}

#[test]
fn room_leaves_the_world_when_its_grace_period_ends() {
    let mut room = plain_room(Rect::new(0, 0, 100, 100));
    room.active = true;
    let mut registry = Registry { rooms: vec![plain_room(Rect::new(900, 900, 950, 950)), room] };
    let outside = hitbox(300, 300);
    assert!(!registry.room_status(&outside));
    assert_eq!(registry.rooms[1].lifetime, 128);
    for tick in 1..128 {
        assert!(registry.tick_eviction().is_empty());
        assert!(!registry.room_status(&outside));
        assert_eq!(registry.rooms[1].lifetime, 128 - tick);
        assert!(registry.rooms[1].lifetime > 0);
    }
    assert_eq!(registry.tick_eviction(), vec![1]);
    assert_eq!(registry.rooms[1].lifetime, 0);
    assert!(!registry.rooms[1].active);
    assert!(registry.tick_eviction().is_empty());
    assert_eq!(registry.len(), 2);
    assert_eq!(registry.rooms[1].colliders.len(), 2);
}

#[test]
fn eviction_lists_rooms_in_rising_order() {
    let mut rooms = Vec::new();
    for lifetime in [1, 0, 2, 1, 128, 1] {
        let mut room = plain_room(Rect::new(0, 0, 10, 10));
        room.lifetime = lifetime;
        rooms.push(room);
    }
    let mut registry = Registry { rooms };
    assert_eq!(registry.tick_eviction(), vec![0, 3, 5]);
    let left: Vec<u32> = registry.rooms.iter().map(|r| r.lifetime).collect();
    assert_eq!(left, vec![0, 0, 1, 0, 127, 0]);
    assert_eq!(registry.tick_eviction(), vec![2]);
}

#[test]
fn colliders_are_spawned_for_active_rooms_only() {
    let mut a = plain_room(Rect::new(0, 0, 100, 100));
    let b = plain_room(Rect::new(200, 0, 300, 100));
    let mut c = plain_room(Rect::new(400, 0, 500, 100));
    a.active = true;
    c.active = true;
    let expected = vec![
        ColliderSpawn { room: 0, collider: a.colliders[0] },
        ColliderSpawn { room: 0, collider: a.colliders[1] },
        ColliderSpawn { room: 2, collider: c.colliders[0] },
        ColliderSpawn { room: 2, collider: c.colliders[1] },
    ];
    let registry = Registry { rooms: vec![a, b, c] };
    assert_eq!(registry.spawn_colliders(), expected);
}

#[test]
fn layers_are_spawned_back_to_front() {
    let mut a = plain_room(Rect::new(0, 0, 100, 100));
    a.active = true;
    let location = a.location;
    let registry = Registry { rooms: vec![plain_room(Rect::new(7, 7, 8, 8)), a] };
    let layers = registry.display_rooms();
    assert_eq!(
        layers,
        vec![
            LayerSpawn { room: 1, layer: Layer::Backdrop, location, depth: 0 },
            LayerSpawn { room: 1, layer: Layer::Decoration, location, depth: 1 },
            LayerSpawn { room: 1, layer: Layer::Foreground, location, depth: 3 },
        ]
    );
    assert!(layers.windows(2).all(|w| w[0].depth < w[1].depth));
    assert_eq!(registry.rooms[1].texture(Layer::Backdrop), "b");
    assert_eq!(registry.rooms[1].texture(Layer::Decoration), "d");
    assert_eq!(registry.rooms[1].texture(Layer::Foreground), "f");
}

#[test]
fn nothing_is_spawned_while_all_rooms_sleep() {
    let registry = Registry { rooms: vec![plain_room(Rect::new(0, 0, 100, 100))] };
    assert!(registry.spawn_colliders().is_empty());
    assert!(registry.display_rooms().is_empty());
}

#[test]
fn room_holds_player_that_overlaps_its_area() {
    let room = plain_room(Rect::new(0, 0, 100, 100));
    assert!(room.holds(&hitbox(50, 50)));
    assert!(room.holds(&hitbox(99, 99)));
    assert!(!room.holds(&hitbox(100, 99)));
}
