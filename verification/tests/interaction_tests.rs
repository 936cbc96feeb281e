use bevy::ecs::entity::Entity;
use harken::descriptor::descriptor_path;
use harken::geometry::{Point, Rect, TILE};
use harken::interaction::{snap, EntityId, Facing, Interactable};
use harken::number::push_decimal;
use harken::scan::{replace, replace_str};

fn id(index: u32) -> EntityId {
    EntityId { index, generation: 1 }
}

#[test]
fn new_interactable_is_untouched() {
    let it = Interactable::new(Rect::new(1, 2, 3, 4), vec![Facing::Left, Facing::Up]);
    assert_eq!(it.boundary, Rect::new(1, 2, 3, 4));
    assert_eq!(it.valid_directions, vec![Facing::Left, Facing::Up]);
    assert_eq!(it.interaction_count, 0);
    assert!(it.action.is_empty());
    assert!(it.dependencies.is_empty());
    assert!(!it.has_dependancies());
}

#[test]
fn interact_counts() {
    let mut it = Interactable::new(Rect::new(0, 0, 1, 1), Vec::new());
    it.interact();
    it.interact();
    assert_eq!(it.interaction_count, 2);
    it.interaction_count = u32::MAX - 1;
    it.interact();
    assert_eq!(it.interaction_count, u32::MAX);
}

#[test]
fn dependencies_are_labels_of_entities() {
    let mut it = Interactable::new(Rect::new(0, 0, 1, 1), Vec::new());
    it.add_dependancy(id(3));
    it.add_dependancy(EntityId { index: 41, generation: 7 });
    it.add_dependancy(id(3));
    assert_eq!(it.dependencies, vec!["3v1", "41v7", "3v1"]);
    assert!(it.has_dependancies());
}

#[test]
fn clear_keeps_only_the_named_entity() {
    let mut it = Interactable::new(Rect::new(0, 0, 1, 1), vec![Facing::Down]);
    it.add_dependancy(id(3));
    it.add_dependancy(id(4));
    it.add_dependancy(id(3));
    it.add_dependancy(id(5));
    it.action.push("open".to_string());
    it.clear_dependancy(id(3));
    assert_eq!(it.dependencies, vec!["3v1", "3v1"]);
    assert_eq!(it.action, vec!["open"]);
    assert_eq!(it.valid_directions, vec![Facing::Down]);
    it.clear_dependancy(id(9));
    assert!(!it.has_dependancies());
    it.clear_dependancy(id(9));
    assert!(it.dependencies.is_empty());
}

#[test]
fn label_is_index_v_generation() {
    assert_eq!(EntityId { index: 0, generation: 1 }.label(), "0v1");
    assert_eq!(EntityId { index: 10, generation: 20 }.label(), "10v20");
    assert_eq!(
        EntityId { index: u32::MAX, generation: u32::MAX }.label(),
        "4294967295v4294967295"
    );
}

#[test]
fn label_agrees_with_the_engine() {
    for index in [0u32, 1, 9, 10, 99, 100, 12345, u32::MAX - 1] {
        let entity = Entity::from_raw(index);
        let ours = EntityId { index: entity.index(), generation: entity.generation() };
        assert_eq!(ours.label(), entity.to_string());
    }
    let reused = Entity::from_bits((5u64 << 32) | 77);
    let ours = EntityId { index: reused.index(), generation: reused.generation() };
    assert_eq!(ours, EntityId { index: 77, generation: 5 });
    assert_eq!(ours.label(), reused.to_string());
}

#[test]
fn decimal_is_appended() {
    let mut s = "n=".to_string();
    push_decimal(&mut s, 0);
    push_decimal(&mut s, 1050);
    assert_eq!(s, "n=01050");
    for n in [0u32, 5, 9, 10, 11, 100, 999, 1000, 65535, u32::MAX] {
        let mut t = String::new();
        push_decimal(&mut t, n);
        assert_eq!(t, n.to_string());
    }
}

#[test]
fn snap_goes_to_the_nearest_tile() {
    assert_eq!(snap(0), 0);
    assert_eq!(snap(TILE / 2 - 1), 0);
    assert_eq!(snap(TILE / 2), TILE);
    assert_eq!(snap(-(TILE / 2 - 1)), 0);
    assert_eq!(snap(-(TILE / 2)), -TILE);
    assert_eq!(snap(TILE + TILE / 2 - 1), TILE);
    assert_eq!(snap(TILE + TILE / 2), 2 * TILE);
    assert_eq!(snap(-2 * TILE - 5), -2 * TILE);
    assert_eq!(snap(5 * TILE), 5 * TILE);
    assert_eq!(snap(1_536_000), 3_072_000);
}

#[test]
fn interactable_is_placed_on_the_grid() {
    let it = Interactable::at_grid(Point { x: TILE + 50_000, y: -TILE + 30_000 });
    assert_eq!(it.boundary, Rect::new(TILE, -TILE, 2 * TILE, 0));
    assert_eq!(
        it.valid_directions,
        vec![Facing::Up, Facing::Down, Facing::Left, Facing::Right]
    );
    assert_eq!(it.interaction_count, 0);
    assert!(it.action.is_empty());
    assert!(!it.has_dependancies());
}

#[test]
fn replace_agrees_with_std() {
    let cases = [
        ("textures/rooms/back.png", "back", "cldr"),
        ("aaaa", "aa", "b"),
        ("aaa", "aa", "b"),
        ("abcabc", "bc", ""),
        ("abc", "abcd", "x"),
        ("", "a", "b"),
        ("back", "back", "backback"),
        ("xbackbackx", "back", "k"),
        ("a.png.png", ".png", ".svg"),
        ("Assets/textures/Assets/x", "Assets/", ""),
        ("grüße/Assets/süß", "Assets/", ""),
        ("ääää", "ää", "ö"),
    ];
    for (s, from, to) in cases {
        assert_eq!(
            replace(s.as_bytes(), from.as_bytes(), to.as_bytes()),
            s.replace(from, to).into_bytes(),
            "{:?}",
            (s, from, to)
        );
        assert_eq!(replace_str(s, from, to), s.replace(from, to), "{:?}", (s, from, to));
    }
}

#[test]
fn descriptor_lies_beside_the_backdrop() {
    assert_eq!(
        descriptor_path(b"textures/rooms/L1/room_0_0/back.png", false),
        b"Assets/textures/rooms/L1/room_0_0/cldr.svg".to_vec()
    );
    assert_eq!(
        descriptor_path(b"textures\\rooms\\L1\\room_0_0\\back.png", true),
        b"Assets\\textures\\rooms\\L1\\room_0_0\\cldr.svg".to_vec()
    );
    assert_eq!(
        descriptor_path(b"textures/rooms/L1/room_0_0/cldr.svg", false),
        b"Assets/textures/rooms/L1/room_0_0/cldr.svg".to_vec()
    );
    assert_eq!(descriptor_path(b"plain", false), b"plain".to_vec());
}
