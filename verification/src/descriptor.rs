//! Room descriptors: a line-oriented vector drawing that gives a room its
//! canvas and one rectangle per line, each with a fill colour.
//!
//! The first line is ignored. The second holds the canvas. Every further
//! line, up to the first that holds the end tag, is one collider.

use crate::geometry::{in_world, inside, Point, Rect, TILE, WORLD_LIMIT};
use crate::number::{parse_i32, parse_u32, read_i32, read_u32};
use crate::scan::{
    contains, has_infix, lines, replace, replaced, split, split_bytes, split_lines, trim, trimmed,
    views,
};
use vstd::prelude::*;

verus! {

/// The quote that encloses a token: `"`.
pub const QUOTE: u8 = 34;

/// The mark of a colour: `#`.
pub const HASH: u8 = 35;

/// What a collider is to the player.
#[derive(Clone, Copy, Debug, PartialEq, Eq, Structural)]
pub enum ColliderStyle {
    /// Blocks movement.
    Rigid,
    /// Can be interacted with.
    Interactable,
    /// Leads to another room.
    ChangeRoom,
}

/// Where a collider stands in the world: its top left corner and its extent.
#[derive(Clone, Copy, Debug, PartialEq, Eq, Structural)]
pub struct Placement {
    pub x: i64,
    pub y: i64,
    pub w: i64,
    pub h: i64,
}

/// A rectangle of a room and its style.
#[derive(Clone, Copy, Debug, PartialEq, Eq, Structural)]
pub struct Collider {
    pub transform: Placement,
    pub style: ColliderStyle,
}

/// A rectangle in the tile coordinates of a descriptor: origin top left,
/// `y` growing downwards.
#[derive(Clone, Copy, Debug, PartialEq, Eq, Structural)]
pub struct TileRect {
    pub x: i32,
    pub y: i32,
    pub w: i32,
    pub h: i32,
}

impl Placement {
    /// Corner and extent lie within the world.
    pub open spec fn wf(self) -> bool {
        &&& in_world(self.x as int)
        &&& in_world(self.y as int)
        &&& in_world(self.w as int)
        &&& in_world(self.h as int)
    }
}

impl Collider {
    /// The collider lies within the world.
    pub open spec fn wf(self) -> bool {
        self.transform.wf()
    }

    /// The rectangle that the collider covers: from its top left corner
    /// `w` to the right and `h` down.
    pub open spec fn spec_rect(self) -> Rect {
        Rect {
            x0: self.transform.x,
            y0: (self.transform.y - self.transform.h) as i64,
            x1: (self.transform.x + self.transform.w) as i64,
            y1: self.transform.y,
        }
    }

    /// Whether the collider lies within the world.
    pub fn within_world(&self) -> (b: bool)
        ensures
            b == self.wf(),
    {
        inside(self.transform.x) && inside(self.transform.y) && inside(self.transform.w) && inside(
            self.transform.h,
        )
    }

    /// The rectangle that the collider covers.
    pub fn rect(&self) -> (r: Rect)
        requires
            self.wf(),
        ensures
            r == self.spec_rect(),
            r.x0 == self.transform.x,
            r.y0 == self.transform.y - self.transform.h,
            r.x1 == self.transform.x + self.transform.w,
            r.y1 == self.transform.y,
    {
        Rect {
            x0: self.transform.x,
            y0: self.transform.y - self.transform.h,
            x1: self.transform.x + self.transform.w,
            y1: self.transform.y,
        }
    }
}

/// The end tag: `/svg`.
pub open spec fn terminator() -> Seq<u8> {
    seq![47u8, 115u8, 118u8, 103u8]
}

/// The mark of a fill colour: `#`.
pub open spec fn hash_mark() -> Seq<u8> {
    seq![HASH]
}

/// The fill of a rigid collider: `#000000`.
pub open spec fn rigid_fill() -> Seq<u8> {
    seq![35u8, 48u8, 48u8, 48u8, 48u8, 48u8, 48u8]
}

/// The fill of a collider that changes the room: `#00FF00`.
pub open spec fn change_room_fill() -> Seq<u8> {
    seq![35u8, 48u8, 48u8, 70u8, 70u8, 48u8, 48u8]
}

/// Every second piece, starting with the second: what stands between an
/// opening quote and the next quote.
pub open spec fn quoted(pieces: Seq<Seq<u8>>) -> Seq<Seq<u8>> {
    Seq::new(pieces.len() / 2, |i: int| pieces[2 * i + 1])
}

/// The quoted tokens of a line.
pub open spec fn tokens(line: Seq<u8>) -> Seq<Seq<u8>> {
    quoted(split(trim(line), QUOTE))
}

/// The tokens that are integers, in order.
pub open spec fn numbers(toks: Seq<Seq<u8>>) -> Seq<i32>
    decreases toks.len(),
{
    if toks.len() == 0 {
        Seq::empty()
    } else {
        match parse_i32(toks.last()) {
            Some(v) => numbers(toks.drop_last()).push(v),
            None => numbers(toks.drop_last()),
        }
    }
}

/// A token that is no integer and holds a `#`.
pub open spec fn is_fill(tok: Seq<u8>) -> bool {
    parse_i32(tok) is None && has_infix(tok, hash_mark())
}

/// The first token that is a fill.
pub open spec fn fill_of(toks: Seq<Seq<u8>>) -> Option<Seq<u8>>
    decreases toks.len(),
{
    if toks.len() == 0 {
        None
    } else {
        match fill_of(toks.drop_last()) {
            Some(f) => Some(f),
            None => if is_fill(toks.last()) {
                Some(toks.last())
            } else {
                None
            },
        }
    }
}

/// The numbers of a line fill four slots in turn, and start over after the
/// fourth. This is what slot `k` holds in the end: the last number whose
/// position leaves `k` when divided by four, or zero.
pub open spec fn slot(ns: Seq<i32>, k: int) -> i32 {
    if ns.len() <= k {
        0i32
    } else {
        ns[ns.len() - 1 - (ns.len() - 1 - k) % 4]
    }
}

/// The rectangle that a line describes.
pub open spec fn tile_rect(line: Seq<u8>) -> TileRect {
    let ns = numbers(tokens(line));
    TileRect { x: slot(ns, 0), y: slot(ns, 1), w: slot(ns, 2), h: slot(ns, 3) }
}

/// The style that a fill stands for.
pub open spec fn style_of(fill: Option<Seq<u8>>) -> ColliderStyle {
    if fill == Some(rigid_fill()) {
        ColliderStyle::Rigid
    } else if fill == Some(change_room_fill()) {
        ColliderStyle::ChangeRoom
    } else {
        ColliderStyle::Interactable
    }
}

/// The style that a line describes.
pub open spec fn line_style(line: Seq<u8>) -> ColliderStyle {
    style_of(fill_of(tokens(line)))
}

/// A tile rectangle in the world: scaled by the tile, moved to the room's
/// origin, and its `y` counted down from one tile below the room's top.
pub open spec fn place(origin: Point, area_height: int, t: TileRect) -> Placement {
    Placement {
        x: (origin.x + t.x * TILE) as i64,
        y: (area_height - TILE + origin.y - t.y * TILE) as i64,
        w: (t.w * TILE) as i64,
        h: (t.h * TILE) as i64,
    }
}

/// The collider that a line describes.
pub open spec fn collider_of(line: Seq<u8>, origin: Point, area_height: int) -> Collider {
    Collider { transform: place(origin, area_height, tile_rect(line)), style: line_style(line) }
}

/// A line that holds the end tag.
pub open spec fn is_end(line: Seq<u8>) -> bool {
    has_infix(line, terminator())
}

/// Position of the first line that holds the end tag, or `ls.len()`.
pub open spec fn first_end(ls: Seq<Seq<u8>>) -> int
    decreases ls.len(),
{
    if ls.len() == 0 {
        0
    } else if is_end(ls[0]) {
        0
    } else {
        1 + first_end(ls.drop_first())
    }
}

/// The lines that describe colliders: from the third line to the end tag.
pub open spec fn body(text: Seq<u8>) -> Seq<Seq<u8>> {
    let ls = lines(text);
    if ls.len() <= 2 {
        Seq::empty()
    } else {
        ls.skip(2).take(first_end(ls.skip(2)))
    }
}

/// The colliders of a descriptor, one for each line of its body.
pub open spec fn colliders_of(text: Seq<u8>, origin: Point, area_height: int) -> Seq<Collider> {
    Seq::new(body(text).len(), |i: int| collider_of(body(text)[i], origin, area_height))
}

/// What piece `k` of the canvas line gives: its number, or zero where the
/// piece is missing or no number.
pub open spec fn canvas_entry(pieces: Seq<Seq<u8>>, k: int) -> u32 {
    if k < pieces.len() {
        match parse_u32(pieces[k]) {
            Some(v) => v,
            None => 0u32,
        }
    } else {
        0u32
    }
}

/// Width and height of the canvas, in tiles: pieces 3 and 5 of the second
/// line, split at its quotes. Zero and zero where there is no second line.
pub open spec fn canvas_of(text: Seq<u8>) -> (u32, u32) {
    let ls = lines(text);
    if ls.len() < 2 {
        (0u32, 0u32)
    } else {
        let pieces = split(ls[1], QUOTE);
        (canvas_entry(pieces, 3), canvas_entry(pieces, 5))
    }
}

/// The area of a room: its canvas, scaled by the tile, with its lower left
/// corner at the room's origin.
pub open spec fn area_of(canvas: (u32, u32), origin: Point) -> Rect {
    Rect {
        x0: origin.x,
        y0: origin.y,
        x1: (origin.x + canvas.0 * TILE) as i64,
        y1: (origin.y + canvas.1 * TILE) as i64,
    }
}

/// The canvas of a room with the descriptor `descriptor`, in tiles; zero
/// and zero where there is no descriptor.
pub open spec fn room_canvas(descriptor: Option<Seq<u8>>) -> (u32, u32) {
    match descriptor {
        Some(text) => canvas_of(text),
        None => (0u32, 0u32),
    }
}

/// The area of a room with the descriptor `descriptor`; of no extent where
/// there is no descriptor.
pub open spec fn room_area(descriptor: Option<Seq<u8>>, origin: Point) -> Rect {
    area_of(room_canvas(descriptor), origin)
}

/// The colliders of a room with the descriptor `descriptor`; none where
/// there is no descriptor.
pub open spec fn room_colliders(
    descriptor: Option<Seq<u8>>,
    origin: Point,
    area_height: int,
) -> Seq<Collider> {
    match descriptor {
        Some(text) => colliders_of(text, origin, area_height),
        None => Seq::empty(),
    }
}

/// The bytes of a descriptor that was read, if it was.
pub open spec fn content(descriptor: Option<&[u8]>) -> Option<Seq<u8>> {
    match descriptor {
        Some(text) => Some(text@),
        None => None,
    }
}

/// Whether `a` and `b` hold the same bytes.
pub fn same_bytes(a: &[u8], b: &[u8]) -> (r: bool)
    ensures
        r == (a@ == b@),
{
    let n: usize = a.len();
    if b.len() != n {
        return false;
    }
    let mut i: usize = 0;
    while i < n
        invariant
            n == a@.len(),
            n == b@.len(),
            i <= n,
            forall|k: int| 0 <= k < i ==> a@[k] == b@[k],
        decreases n - i,
    {
        if a[i] != b[i] {
            return false;
        }
        i += 1;
    }
    assert(a@ =~= b@);
    true
}

/// The style that the fill `fill` stands for.
pub fn style_from_fill(fill: &[u8]) -> (s: ColliderStyle)
    ensures
        s == style_of(Some(fill@)),
{
    let rigid: [u8; 7] = [35, 48, 48, 48, 48, 48, 48];
    let change: [u8; 7] = [35, 48, 48, 70, 70, 48, 48];
    assert(rigid@ =~= rigid_fill());
    assert(change@ =~= change_room_fill());
    if same_bytes(fill, rigid.as_slice()) {
        ColliderStyle::Rigid
    } else if same_bytes(fill, change.as_slice()) {
        ColliderStyle::ChangeRoom
    } else {
        ColliderStyle::Interactable
    }
}

/// What slot `k` holds after the numbers `ns`.
fn pick(ns: &Vec<i32>, k: usize) -> (r: i32)
    requires
        k < 4,
    ensures
        r == slot(ns@, k as int),
{
    let n: usize = ns.len();
    if n <= k {
        0
    } else {
        let back: usize = (n - 1 - k) % 4;
        ns[n - 1 - back]
    }
}

/// Reads one line of a descriptor's body.
pub fn scan_line(line: &[u8]) -> (r: (TileRect, ColliderStyle))
    ensures
        r.0 == tile_rect(line@),
        r.1 == line_style(line@),
{
    let clean: Vec<u8> = trimmed(line);
    let pieces: Vec<Vec<u8>> = split_bytes(clean.as_slice(), QUOTE);
    let ghost toks = tokens(line@);
    let total: usize = pieces.len();
    let count: usize = total / 2;
    let hash: [u8; 1] = [HASH];
    assert(hash@ =~= hash_mark());
    let mut ns: Vec<i32> = Vec::new();
    let mut found: bool = false;
    let mut style: ColliderStyle = ColliderStyle::Interactable;
    let mut j: usize = 0;
    assert(toks.take(0) =~= Seq::<Seq<u8>>::empty());
    while j < count
        invariant
            views(pieces@) == split(trim(line@), QUOTE),
            toks == tokens(line@),
            total == pieces@.len(),
            count == total / 2,
            toks.len() == count,
            hash@ == hash_mark(),
            j <= count,
            ns@ == numbers(toks.take(j as int)),
            found == fill_of(toks.take(j as int)).is_some(),
            style == style_of(fill_of(toks.take(j as int))),
        decreases count - j,
    {
        let piece: &Vec<u8> = &pieces[2 * j + 1];
        proof {
            assert(views(pieces@)[2 * j + 1] == piece@);
            assert(toks[j as int] == piece@);
            assert(toks.take(j + 1).drop_last() =~= toks.take(j as int));
            assert(toks.take(j + 1).last() == toks[j as int]);
        }
        match read_i32(piece.as_slice()) {
            Some(v) => {
                ns.push(v);
            },
            None => {
                if !found && contains(piece.as_slice(), hash.as_slice()) {
                    found = true;
                    style = style_from_fill(piece.as_slice());
                }
            },
        }
        j += 1;
    }
    assert(toks.take(count as int) =~= toks);
    let rect = TileRect { x: pick(&ns, 0), y: pick(&ns, 1), w: pick(&ns, 2), h: pick(&ns, 3) };
    (rect, style)
}

/// A tile rectangle in the world.
pub fn place_tile(origin: Point, area_height: i64, t: TileRect) -> (p: Placement)
    requires
        in_world(origin.x as int),
        in_world(origin.y as int),
        -2 * WORLD_LIMIT <= area_height <= 2 * WORLD_LIMIT,
    ensures
        p == place(origin, area_height as int, t),
        p.x == origin.x + t.x * TILE,
        p.y == area_height - TILE + origin.y - t.y * TILE,
        p.w == t.w * TILE,
        p.h == t.h * TILE,
{
    let tx: i64 = t.x as i64;
    let ty: i64 = t.y as i64;
    let tw: i64 = t.w as i64;
    let th: i64 = t.h as i64;
    Placement {
        x: origin.x + tx * TILE,
        y: area_height - TILE + origin.y - ty * TILE,
        w: tw * TILE,
        h: th * TILE,
    }
}

proof fn lemma_first_end_is(ls: Seq<Seq<u8>>, j: int)
    requires
        0 <= j <= ls.len(),
        forall|k: int| 0 <= k < j ==> !is_end(ls[k]),
        j < ls.len() ==> is_end(ls[j]),
    ensures
        first_end(ls) == j,
    decreases ls.len(),
{
    if ls.len() > 0 && j > 0 {
        let t = ls.drop_first();
        assert(!is_end(ls[0]));
        assert forall|k: int| 0 <= k < j - 1 implies !is_end(t[k]) by {
            assert(t[k] == ls[k + 1]);
        }
        if j - 1 < t.len() {
            assert(t[j - 1] == ls[j]);
        }
        lemma_first_end_is(t, j - 1);
    }
}

/// Reads the colliders of a room from its descriptor.
///
/// A room whose descriptor could not be read (`None`) has no colliders.
/// No content of a descriptor is refused: a token that is neither a number
/// nor a fill is passed over, and a line without a fill gives an
/// interactable collider.
pub fn load_colliders(descriptor: Option<&[u8]>, origin: Point, area: &Rect) -> (out: Vec<Collider>)
    requires
        in_world(origin.x as int),
        in_world(origin.y as int),
        area.wf(),
    ensures
        out@ == room_colliders(content(descriptor), origin, area.spec_height()),
        forall|i: int|
            0 <= i < out@.len() ==> exists|t: TileRect|
                (#[trigger] out@[i]).transform == place(origin, area.spec_height(), t),
{
    let mut out: Vec<Collider> = Vec::new();
    let text: &[u8] = match descriptor {
        Some(text) => text,
        None => {
            return out;
        },
    };
    let ls: Vec<Vec<u8>> = split_lines(text);
    let n: usize = ls.len();
    let height: i64 = area.height();
    let end: [u8; 4] = [47, 115, 118, 103];
    assert(end@ =~= terminator());
    if n <= 2 {
        assert(out@ =~= colliders_of(text@, origin, area.spec_height()));
        return out;
    }
    let ghost tail = lines(text@).skip(2);
    let mut i: usize = 2;
    while i < n
        invariant
            descriptor == Some(text),
            views(ls@) == lines(text@),
            n == ls@.len(),
            n > 2,
            tail == lines(text@).skip(2),
            2 <= i <= n,
            end@ == terminator(),
            height == area.spec_height(),
            area.wf(),
            in_world(origin.x as int),
            in_world(origin.y as int),
            forall|k: int| 0 <= k < i - 2 ==> !is_end(tail[k]),
            out@.len() == i - 2,
            forall|k: int|
                0 <= k < i - 2 ==> out@[k] == collider_of(tail[k], origin, height as int),
        decreases n - i,
    {
        let line: &Vec<u8> = &ls[i];
        proof {
            assert(views(ls@)[i as int] == line@);
            assert(tail[i - 2] == line@);
        }
        if contains(line.as_slice(), end.as_slice()) {
            proof {
                lemma_first_end_is(tail, i - 2);
                assert(body(text@) =~= tail.take(i - 2));
                assert(out@ =~= colliders_of(text@, origin, height as int));
            }
            return out;
        }
        let (rect, style) = scan_line(line.as_slice());
        out.push(Collider { transform: place_tile(origin, height, rect), style });
        i += 1;
    }
    proof {
        lemma_first_end_is(tail, n - 2);
        assert(body(text@) =~= tail.take(n - 2));
        assert(out@ =~= colliders_of(text@, origin, height as int));
    }
    out
}

/// Reads piece `k` of the canvas line.
fn canvas_piece(pieces: &Vec<Vec<u8>>, k: usize) -> (v: u32)
    ensures
        v == canvas_entry(views(pieces@), k as int),
{
    if k < pieces.len() {
        assert(views(pieces@)[k as int] == pieces@[k as int]@);
        match read_u32(pieces[k].as_slice()) {
            Some(v) => v,
            None => 0,
        }
    } else {
        0
    }
}

/// Reads the canvas of a descriptor, in tiles.
pub fn read_canvas(text: &[u8]) -> (c: (u32, u32))
    ensures
        c == canvas_of(text@),
{
    let ls: Vec<Vec<u8>> = split_lines(text);
    if ls.len() < 2 {
        return (0, 0);
    }
    assert(views(ls@)[1] == ls@[1]@);
    let pieces: Vec<Vec<u8>> = split_bytes(ls[1].as_slice(), QUOTE);
    (canvas_piece(&pieces, 3), canvas_piece(&pieces, 5))
}

/// Reads the area of a room from its descriptor.
///
/// A room whose descriptor could not be read (`None`) has an area of no
/// extent at its origin.
pub fn get_area(descriptor: Option<&[u8]>, origin: Point) -> (area: Rect)
    requires
        in_world(origin.x as int),
        in_world(origin.y as int),
    ensures
        area == room_area(content(descriptor), origin),
        area.spec_width() == room_canvas(content(descriptor)).0 * TILE,
        area.spec_height() == room_canvas(content(descriptor)).1 * TILE,
        area.x0 == origin.x,
        area.y0 == origin.y,
        area.x0 <= area.x1 <= area.x0 + u32::MAX * TILE,
        area.y0 <= area.y1 <= area.y0 + u32::MAX * TILE,
{
    let canvas: (u32, u32) = match descriptor {
        Some(text) => read_canvas(text),
        None => (0, 0),
    };
    let w: i64 = canvas.0 as i64;
    let h: i64 = canvas.1 as i64;
    Rect { x0: origin.x, y0: origin.y, x1: origin.x + w * TILE, y1: origin.y + h * TILE }
}

/// The name of an image: `back`.
pub open spec fn image_tag() -> Seq<u8> {
    seq![98u8, 97u8, 99u8, 107u8]
}

/// The name of a descriptor: `cldr`.
pub open spec fn descriptor_tag() -> Seq<u8> {
    seq![99u8, 108u8, 100u8, 114u8]
}

/// The ending of an image: `.png`.
pub open spec fn image_ending() -> Seq<u8> {
    seq![46u8, 112u8, 110u8, 103u8]
}

/// The ending of a descriptor: `.svg`.
pub open spec fn descriptor_ending() -> Seq<u8> {
    seq![46u8, 115u8, 118u8, 103u8]
}

/// The directory of images, as an asset path names it: `textures`.
pub open spec fn texture_root() -> Seq<u8> {
    seq![116u8, 101u8, 120u8, 116u8, 117u8, 114u8, 101u8, 115u8]
}

/// The directory of images on disk, with the separator `separator`:
/// `Assets`, the separator, `textures`.
pub open spec fn disk_root(separator: u8) -> Seq<u8> {
    seq![65u8, 115u8, 115u8, 101u8, 116u8, 115u8, separator] + texture_root()
}

/// The separator of the parts of a path: a backslash on Windows, else a
/// slash.
pub open spec fn separator_of(windows: bool) -> u8 {
    if windows {
        92u8
    } else {
        47u8
    }
}

/// Where the descriptor of a room lies on disk, given the asset path of
/// the room's backdrop: the same path with the descriptor's name and
/// ending in place of the image's, below the directory of assets.
pub open spec fn descriptor_path_of(backdrop_path: Seq<u8>, windows: bool) -> Seq<u8> {
    replaced(
        replaced(
            replaced(backdrop_path, image_tag(), descriptor_tag()),
            image_ending(),
            descriptor_ending(),
        ),
        texture_root(),
        disk_root(separator_of(windows)),
    )
}

/// Where the descriptor of a room lies on disk.
pub fn descriptor_path(backdrop_path: &[u8], windows: bool) -> (path: Vec<u8>)
    ensures
        path@ == descriptor_path_of(backdrop_path@, windows),
{
    let back: [u8; 4] = [98, 97, 99, 107];
    let cldr: [u8; 4] = [99, 108, 100, 114];
    let png: [u8; 4] = [46, 112, 110, 103];
    let svg: [u8; 4] = [46, 115, 118, 103];
    let textures: [u8; 8] = [116, 101, 120, 116, 117, 114, 101, 115];
    let separator: u8 = if windows { 92 } else { 47 };
    let disk: [u8; 15] = [
        65, 115, 115, 101, 116, 115, separator, 116, 101, 120, 116, 117, 114, 101, 115,
    ];
    assert(back@ =~= image_tag());
    assert(cldr@ =~= descriptor_tag());
    assert(png@ =~= image_ending());
    assert(svg@ =~= descriptor_ending());
    assert(textures@ =~= texture_root());
    assert(disk@ =~= disk_root(separator_of(windows)));
    let named: Vec<u8> = replace(backdrop_path, back.as_slice(), cldr.as_slice());
    let ended: Vec<u8> = replace(named.as_slice(), png.as_slice(), svg.as_slice());
    replace(ended.as_slice(), textures.as_slice(), disk.as_slice())
}

} // verus!
