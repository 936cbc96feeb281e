use harken::descriptor::{
    get_area, load_colliders, read_canvas, scan_line, style_from_fill, Collider, ColliderStyle,
    Placement, TileRect,
};
use harken::geometry::{Point, Rect, PIXEL_SCALE, STEPS_PER_UNIT, TILE};
use harken::number::{read_i32, read_u32};
use harken::scan::{contains, split_bytes, split_lines, trimmed};

const SAMPLE: &str = "<?xml version=\"1.0\"?>\n<svg version=\"1.1\" width=\"800\" height=\"600\" xmlns=\"http://www.w3.org/2000/svg\">\n<rect x=\"1\" y=\"2\" w=\"3\" h=\"1\" fill=\"#000000\"/>\n<rect x=\"4\" y=\"0\" w=\"2\" h=\"2\" fill=\"#00FF00\"/>\n<rect x=\"7\" y=\"5\" w=\"1\" h=\"1\" fill=\"#123456\"/>\n</svg>\n<rect x=\"9\" y=\"9\" w=\"9\" h=\"9\" fill=\"#000000\"/>\n";

fn origin() -> Point {
    Point { x: 0, y: 0 }
}

#[test]
fn tile_is_pixel_scale_in_steps() {
    assert_eq!(TILE, PIXEL_SCALE * STEPS_PER_UNIT);
    assert_eq!(TILE, 3_072_000);
    assert_eq!(STEPS_PER_UNIT, 64_000);
}

#[test]
fn canvas_line_gives_area_scaled_by_tile() {
    let area = get_area(Some(SAMPLE.as_bytes()), origin());
    assert_eq!(area, Rect { x0: 0, y0: 0, x1: 800 * TILE, y1: 600 * TILE });
    assert_eq!(area.width(), 800 * 48 * 64_000);
    assert_eq!(area.height(), 600 * 48 * 64_000);
}

#[test]
fn canvas_is_read_from_fourth_and_sixth_piece() {
    let text = "ignored\n\"a\",\"800\",\"600\",\"0\"\n";
    assert_eq!(read_canvas(text.as_bytes()), (800, 600));
    let other = "ignored\n\"...\",\"0\",\"800\",\"0\",\"600\"\n";
    assert_eq!(read_canvas(other.as_bytes()), (0, 800));
}

#[test]
fn area_is_offset_by_room_origin() {
    let at = Point { x: 2 * TILE, y: -3 * TILE };
    let area = get_area(Some(SAMPLE.as_bytes()), at);
    assert_eq!(area, Rect { x0: 2 * TILE, y0: -3 * TILE, x1: 802 * TILE, y1: 597 * TILE });
}

#[test]
fn missing_descriptor_gives_empty_geometry() {
    let at = Point { x: 5 * TILE, y: 7 * TILE };
    let area = get_area(None, at);
    assert_eq!(area, Rect { x0: 5 * TILE, y0: 7 * TILE, x1: 5 * TILE, y1: 7 * TILE });
    assert_eq!(area.width(), 0);
    assert_eq!(area.height(), 0);
    assert!(load_colliders(None, at, &area).is_empty());
}

#[test]
fn malformed_canvas_degrades_to_zero() {
    let text = "x\n<svg a=\"1\" width=\"wide\" height=\"600\">\n";
    assert_eq!(read_canvas(text.as_bytes()), (0, 600));
    let text = "x\n<svg width=\"800\" height=\"600\">\n";
    assert_eq!(read_canvas(text.as_bytes()), (600, 0));
    let text = "x\n<svg a=\"1\" width=\"-5\" height=\"600\">\n";
    assert_eq!(read_canvas(text.as_bytes()), (0, 600));
    assert_eq!(read_canvas(b"only one line"), (0, 0));
    assert_eq!(read_canvas(b""), (0, 0));
}

#[test]
fn rigid_line_yields_one_rigid_collider() {
    let text = "first\n<svg a=\"1\" width=\"10\" height=\"10\">\nx=\"1\" y=\"2\" w=\"3\" h=\"1\" fill=\"#000000\"\n";
    let at = Point { x: 4 * TILE, y: 6 * TILE };
    let area = get_area(Some(text.as_bytes()), at);
    let colliders = load_colliders(Some(text.as_bytes()), at, &area);
    assert_eq!(colliders.len(), 1);
    let c = colliders[0];
    assert_eq!(c.style, ColliderStyle::Rigid);
    assert_eq!(c.transform.x, 4 * TILE + 1 * TILE);
    assert_eq!(c.transform.y, 10 * TILE - TILE + 6 * TILE - 2 * TILE);
    assert_eq!(c.transform.w, 3 * TILE);
    assert_eq!(c.transform.h, 1 * TILE);
    assert_eq!(c.transform.w, 3 * 48 * 64_000);
}

#[test]
fn colliders_stop_at_end_tag() {
    let area = get_area(Some(SAMPLE.as_bytes()), origin());
    let colliders = load_colliders(Some(SAMPLE.as_bytes()), origin(), &area);
    assert_eq!(colliders.len(), 3);
    assert_eq!(
        colliders[0],
        Collider {
            transform: Placement {
                x: TILE,
                y: 600 * TILE - TILE - 2 * TILE,
                w: 3 * TILE,
                h: TILE
            },
            style: ColliderStyle::Rigid,
        }
    );
    assert_eq!(colliders[1].style, ColliderStyle::ChangeRoom);
    assert_eq!(colliders[1].transform.x, 4 * TILE);
    assert_eq!(colliders[1].transform.y, 599 * TILE);
    assert_eq!(colliders[2].style, ColliderStyle::Interactable);
    assert_eq!(colliders[2].transform.y, 600 * TILE - TILE - 5 * TILE);
}

#[test]
fn first_two_lines_are_never_colliders() {
    let text = "x=\"1\" y=\"1\" w=\"1\" h=\"1\" fill=\"#000000\"\nx=\"1\" y=\"1\" w=\"1\" h=\"1\" fill=\"#000000\"\n";
    let area = get_area(Some(text.as_bytes()), origin());
    assert!(load_colliders(Some(text.as_bytes()), origin(), &area).is_empty());
}

#[test]
fn unparseable_tokens_are_skipped() {
    let (rect, style) = scan_line(b"  <rect id=\"wall\" x=\"1\" y=\"2\" rx=\"0.5\" w=\"3\" h=\"4\" fill=\"#000000\"/>  ");
    assert_eq!(rect, TileRect { x: 1, y: 2, w: 3, h: 4 });
    assert_eq!(style, ColliderStyle::Rigid);
}

#[test]
fn numbers_fill_four_slots_in_turn() {
    let (rect, _) = scan_line(b"\"1\" \"2\" \"3\" \"4\" \"5\" \"6\"");
    assert_eq!(rect, TileRect { x: 5, y: 6, w: 3, h: 4 });
    let (rect, _) = scan_line(b"\"7\" \"-8\"");
    assert_eq!(rect, TileRect { x: 7, y: -8, w: 0, h: 0 });
    let (rect, style) = scan_line(b"");
    assert_eq!(rect, TileRect { x: 0, y: 0, w: 0, h: 0 });
    assert_eq!(style, ColliderStyle::Interactable);
}

#[test]
fn first_fill_decides_the_style() {
    let (_, style) = scan_line(b"fill=\"#000000\" stroke=\"#00FF00\"");
    assert_eq!(style, ColliderStyle::Rigid);
    let (_, style) = scan_line(b"stroke=\"#00FF00\" fill=\"#000000\"");
    assert_eq!(style, ColliderStyle::ChangeRoom);
    let (_, style) = scan_line(b"stroke=\"#abcdef\" fill=\"#000000\"");
    assert_eq!(style, ColliderStyle::Interactable);
}

#[test]
fn fill_is_matched_exactly() {
    assert_eq!(style_from_fill(b"#000000"), ColliderStyle::Rigid);
    assert_eq!(style_from_fill(b"#00FF00"), ColliderStyle::ChangeRoom);
    assert_eq!(style_from_fill(b"#00ff00"), ColliderStyle::Interactable);
    assert_eq!(style_from_fill(b"#0000000"), ColliderStyle::Interactable);
    assert_eq!(style_from_fill(b"#FF0000"), ColliderStyle::Interactable);
    assert_eq!(style_from_fill(b""), ColliderStyle::Interactable);
}

#[test]
fn unclosed_quote_is_trimmed() {
    let (rect, _) = scan_line(b"x=\"12   ");
    assert_eq!(rect.x, 12);
}

#[test]
fn lines_end_at_line_feed_and_drop_carriage_return() {
    let ls = split_lines(b"a\r\nb\n\nc");
    assert_eq!(ls, vec![b"a".to_vec(), b"b".to_vec(), b"".to_vec(), b"c".to_vec()]);
    assert!(split_lines(b"").is_empty());
    assert_eq!(split_lines(b"a\n"), vec![b"a".to_vec()]);
    assert_eq!(split_lines(b"a\r"), vec![b"a\r".to_vec()]);
}

#[test]
fn split_keeps_empty_pieces() {
    assert_eq!(split_bytes(b"", b'"'), vec![b"".to_vec()]);
    assert_eq!(
        split_bytes(b"a\"\"b\"", b'"'),
        vec![b"a".to_vec(), b"".to_vec(), b"b".to_vec(), b"".to_vec()]
    );
}

#[test]
fn contains_finds_infix() {
    assert!(contains(b"</svg>", b"/svg"));
    assert!(contains(b"/svg", b"/svg"));
    assert!(!contains(b"/sv", b"/svg"));
    assert!(!contains(b"/s vg", b"/svg"));
    assert!(contains(b"abc", b""));
    assert!(contains(b"", b""));
}

#[test]
fn trimmed_strips_both_ends() {
    assert_eq!(trimmed(b" \t a b \r\n"), b"a b".to_vec());
    assert_eq!(trimmed(b"   "), b"".to_vec());
    assert_eq!(trimmed(b"x"), b"x".to_vec());
}

#[test]
fn integers_are_read_as_decimal() {
    assert_eq!(read_i32(b"0"), Some(0));
    assert_eq!(read_i32(b"-0"), Some(0));
    assert_eq!(read_i32(b"+17"), Some(17));
    assert_eq!(read_i32(b"007"), Some(7));
    assert_eq!(read_i32(b"2147483647"), Some(i32::MAX));
    assert_eq!(read_i32(b"-2147483648"), Some(i32::MIN));
    assert_eq!(read_i32(b"2147483648"), None);
    assert_eq!(read_i32(b"-2147483649"), None);
    assert_eq!(read_i32(b"99999999999999999999999"), None);
    assert_eq!(read_i32(b""), None);
    assert_eq!(read_i32(b"-"), None);
    assert_eq!(read_i32(b"+"), None);
    assert_eq!(read_i32(b"1.5"), None);
    assert_eq!(read_i32(b" 1"), None);
    assert_eq!(read_i32(b"#000000"), None);
    assert_eq!(read_u32(b"4294967295"), Some(u32::MAX));
    assert_eq!(read_u32(b"4294967296"), None);
    assert_eq!(read_u32(b"+5"), Some(5));
    assert_eq!(read_u32(b"-5"), None);
    assert_eq!(read_u32(b"-0"), None);
}

#[test]
fn readers_agree_with_std() {
    for s in ["0", "-0", "+3", "12", "-12", "2147483647", "2147483648", "-2147483648", "", "+", "-", "1a", "++1", "٣"] {
        assert_eq!(read_i32(s.as_bytes()), s.parse::<i32>().ok(), "{:?}", s);
        assert_eq!(read_u32(s.as_bytes()), s.parse::<u32>().ok(), "{:?}", s);
    }
}
