//! The picture shown under the cursor while files are dragged out of a Drop:
//! a page for files, a folder for folders, both for a mix, and a badge when
//! several items are dragged. It is drawn on a 128 by 128 RGBA canvas.
use crate::thumbnail::{encode_png, holds_image, png_encoding};
use vstd::prelude::*;

verus! {

/// The side of the square canvas, in pixels.
pub const PREVIEW_SIZE: u32 = 128;

/// The number of bytes of the canvas: four per pixel.
pub const PREVIEW_BYTES: usize = 65536;

/// An RGBA colour.
pub type Rgba = (u8, u8, u8, u8);

pub open spec fn transparent() -> Rgba {
    (0, 0, 0, 0)
}

pub open spec fn page_border() -> Rgba {
    (160, 160, 160, 255)
}

pub open spec fn page_fill() -> Rgba {
    (245, 245, 245, 255)
}

pub open spec fn page_fold() -> Rgba {
    (200, 200, 200, 255)
}

pub open spec fn folder_fill() -> Rgba {
    (244, 197, 66, 255)
}

pub open spec fn folder_edge() -> Rgba {
    (255, 240, 163, 255)
}

pub open spec fn badge_fill() -> Rgba {
    (59, 130, 246, 255)
}

/// A shape drawn on the canvas, inside its bounding box.
#[derive(Debug, Clone, Copy)]
pub enum Shape {
    /// Every pixel of the box.
    Whole,
    /// The page without its top right corner, where the fold goes.
    PageBody,
    /// The folded corner of the page.
    PageFold,
    /// The left and right edges of the page.
    PageSides,
    /// The diagonal edge of the fold.
    PageFoldEdge,
    /// The folder's tab and body.
    FolderBody { top: u32, tab_right: u32 },
    /// The folder's left edge, and its right edge below the tab.
    FolderSides { left: u32, right: u32, top: u32 },
    /// The round badge in the bottom right corner.
    Badge,
}

/// The pixel `(x, y)` belongs to the shape (its bounding box aside).
pub open spec fn in_shape(shape: Shape, x: int, y: int) -> bool {
    match shape {
        Shape::Whole => true,
        Shape::PageBody => !(y < 40 && x > 88),
        Shape::PageFold => (x - 88) + (y - 16) <= 24,
        Shape::PageSides => x == 16 || x == 111,
        Shape::PageFoldEdge => x + y == 128,
        Shape::FolderBody { top, tab_right } => (y < top + 12 && x < tab_right) || y >= top + 10,
        Shape::FolderSides { left, right, top } => x == left || (x == right - 1 && y >= top + 10),
        Shape::Badge => (x - 112) * (x - 112) + (y - 112) * (y - 112) <= 324,
    }
}

/// A shape with its bounding box `x0..x1` by `y0..y1`.
#[derive(Debug, Clone, Copy)]
pub struct Region {
    pub x0: u32,
    pub x1: u32,
    pub y0: u32,
    pub y1: u32,
    pub shape: Shape,
}

/// The pixel `(x, y)` is drawn when the region is painted.
pub open spec fn in_region(region: Region, x: int, y: int) -> bool {
    region.x0 <= x < region.x1 && region.y0 <= y < region.y1 && in_shape(region.shape, x, y)
}

/// The corners of the folder: (left, right, top, bottom) and the right end
/// of its tab; it is drawn smaller, and to the left, beside a page.
pub open spec fn folder_frame(with_page: bool) -> (int, int, int, int, int) {
    if with_page {
        (8, 92, 42, 108, 50)
    } else {
        (18, 110, 34, 104, 64)
    }
}

/// The colour of pixel `(x, y)` of the drag picture: the badge over the
/// folder's edge over its body over the page's edges over its fold over its
/// body, over a transparent background. The page is drawn for files or when
/// no folder is dragged; the badge when more than one item is dragged.
pub open spec fn preview_pixel(file_count: usize, contains_folder: bool, contains_file: bool, x: int, y: int) -> Rgba {
    let page = contains_file || !contains_folder;
    let (l, r, t, b, tab) = folder_frame(contains_file);
    if file_count > 1 && (x - 112) * (x - 112) + (y - 112) * (y - 112) <= 324 {
        badge_fill()
    } else if contains_folder && ((l <= x < r && y == b - 1) || (t <= y < b && x == l) || (t + 10 <= y < b && x == r - 1)) {
        folder_edge()
    } else if contains_folder && l <= x < r && t <= y < b && ((y < t + 12 && x < tab) || y >= t + 10) {
        folder_fill()
    } else if page && ((16 <= x < 88 && y == 16) || (16 <= x < 112 && y == 111) || (16 <= y < 112 && (x == 16
        || x == 111)) || (88 <= x < 112 && x + y == 128)) {
        page_border()
    } else if page && 88 <= x < 112 && 16 <= y < 40 && (x - 88) + (y - 16) <= 24 {
        page_fold()
    } else if page && 16 <= x < 112 && 16 <= y < 112 && !(y < 40 && x > 88) {
        page_fill()
    } else {
        transparent()
    }
}

/// The colour of pixel `(x, y)` of a canvas held as RGBA bytes, row by row.
pub open spec fn pixel_at(canvas: Seq<u8>, x: int, y: int) -> Rgba {
    let i = (y * 128 + x) * 4;
    (canvas[i], canvas[i + 1], canvas[i + 2], canvas[i + 3])
}

/// The byte at position `i` of a canvas whose pixels are given by `pixel`.
pub open spec fn channel(pixel: Rgba, c: int) -> u8 {
    if c == 0 {
        pixel.0
    } else if c == 1 {
        pixel.1
    } else if c == 2 {
        pixel.2
    } else {
        pixel.3
    }
}

/// The RGBA bytes of the drag picture, row by row.
pub open spec fn preview_bytes(file_count: usize, contains_folder: bool, contains_file: bool) -> Seq<u8> {
    Seq::new(
        PREVIEW_BYTES as nat,
        |i: int| channel(preview_pixel(file_count, contains_folder, contains_file, (i / 4) % 128, i / 512), i % 4),
    )
}

pub open spec fn on_canvas(x: int, y: int) -> bool {
    0 <= x < 128 && 0 <= y < 128
}

proof fn lemma_pixel_index(x: int, y: int, c: int)
    requires
        on_canvas(x, y),
        0 <= c < 4,
    ensures
        0 <= (y * 128 + x) * 4 + c < PREVIEW_BYTES,
        ((y * 128 + x) * 4 + c) / 4 % 128 == x,
        ((y * 128 + x) * 4 + c) / 512 == y,
        ((y * 128 + x) * 4 + c) % 4 == c,
{
    assert(((y * 128 + x) * 4 + c) / 4 == y * 128 + x) by (nonlinear_arith)
        requires
            0 <= c < 4,
            0 <= x < 128,
            0 <= y < 128,
    ;
    assert((y * 128 + x) % 128 == x) by (nonlinear_arith)
        requires
            0 <= x < 128,
            0 <= y < 128,
    ;
    assert(((y * 128 + x) * 4 + c) / 512 == y) by (nonlinear_arith)
        requires
            0 <= c < 4,
            0 <= x < 128,
            0 <= y < 128,
    ;
    assert(((y * 128 + x) * 4 + c) % 4 == c) by (nonlinear_arith)
        requires
            0 <= c < 4,
            0 <= x < 128,
            0 <= y < 128,
    ;
}

proof fn lemma_index_pixel(i: int)
    requires
        0 <= i < PREVIEW_BYTES,
    ensures
        on_canvas((i / 4) % 128, i / 512),
        ((i / 512) * 128 + (i / 4) % 128) * 4 + i % 4 == i,
{
    assert(((i / 512) * 128 + (i / 4) % 128) * 4 + i % 4 == i) by (nonlinear_arith)
        requires
            0 <= i < 65536,
    ;
    assert(0 <= i / 512 < 128) by (nonlinear_arith)
        requires
            0 <= i < 65536,
    ;
}

/// Whether the pixel `(x, y)` belongs to the shape.
fn shape_contains(shape: Shape, x: u32, y: u32) -> (inside: bool)
    requires
        x < 128,
        y < 128,
    ensures
        inside == in_shape(shape, x as int, y as int),
{
    match shape {
        Shape::Whole => true,
        Shape::PageBody => !(y < 40 && x > 88),
        Shape::PageFold => (x as i64 - 88) + (y as i64 - 16) <= 24,
        Shape::PageSides => x == 16 || x == 111,
        Shape::PageFoldEdge => x + y == 128,
        Shape::FolderBody { top, tab_right } => (y as u64) < (top as u64) + 12 && x < tab_right || (y as u64) >= (top as u64) + 10,
        Shape::FolderSides { left, right, top } => x == left || ((x as i64) == (right as i64) - 1 && (y as u64) >= (top as u64) + 10),
        Shape::Badge => {
            let dx = x as i64 - 112;
            let dy = y as i64 - 112;
            assert(dx * dx <= 112 * 112) by (nonlinear_arith)
                requires
                    -112 <= dx <= 15,
            ;
            assert(dy * dy <= 112 * 112) by (nonlinear_arith)
                requires
                    -112 <= dy <= 15,
            ;
            assert(dx * dx >= 0) by (nonlinear_arith);
            assert(dy * dy >= 0) by (nonlinear_arith);
            dx * dx + dy * dy <= 324
        },
    }
}

/// Paints pixel `(x, y)` of the canvas.
fn put_pixel(canvas: &mut Vec<u8>, x: u32, y: u32, color: Rgba)
    requires
        old(canvas)@.len() == PREVIEW_BYTES,
        x < 128,
        y < 128,
    ensures
        final(canvas)@.len() == PREVIEW_BYTES,
        forall|px: int, py: int|
            on_canvas(px, py) ==> #[trigger] pixel_at(final(canvas)@, px, py) == if px == x && py == y {
                color
            } else {
                pixel_at(old(canvas)@, px, py)
            },
{
    let i = ((y * 128 + x) * 4) as usize;
    canvas.set(i, color.0);
    canvas.set(i + 1, color.1);
    canvas.set(i + 2, color.2);
    canvas.set(i + 3, color.3);
    proof {
        assert forall|px: int, py: int| on_canvas(px, py) implies #[trigger] pixel_at(canvas@, px, py) == if px == x && py == y {
            color
        } else {
            pixel_at(old(canvas)@, px, py)
        } by {
            let j = (py * 128 + px) * 4;
            if !(px == x && py == y) {
                assert(j + 3 < i || i + 3 < j) by (nonlinear_arith)
                    requires
                        j == (py * 128 + px) * 4,
                        i == (y * 128 + x) * 4,
                        0 <= px < 128,
                        0 <= py < 128,
                        0 <= x < 128,
                        0 <= y < 128,
                        !(px == x && py == y),
                ;
            }
        }
    }
}

/// Paints every pixel of the region with `color`.
fn paint_region(canvas: &mut Vec<u8>, region: Region, color: Rgba)
    requires
        old(canvas)@.len() == PREVIEW_BYTES,
        region.x1 <= 128,
        region.y1 <= 128,
    ensures
        final(canvas)@.len() == PREVIEW_BYTES,
        forall|px: int, py: int|
            on_canvas(px, py) ==> #[trigger] pixel_at(final(canvas)@, px, py) == if in_region(region, px, py) {
                color
            } else {
                pixel_at(old(canvas)@, px, py)
            },
{
    let ghost before = canvas@;
    let mut y = region.y0;
    while y < region.y1
        invariant
            canvas@.len() == PREVIEW_BYTES,
            region.y1 <= 128,
            region.x1 <= 128,
            region.y0 <= y,
            y <= region.y1 || y == region.y0,
            forall|px: int, py: int|
                on_canvas(px, py) ==> #[trigger] pixel_at(canvas@, px, py) == if in_region(region, px, py) && py < y {
                    color
                } else {
                    pixel_at(before, px, py)
                },
        decreases region.y1 - y,
    {
        let mut x = region.x0;
        while x < region.x1
            invariant
                canvas@.len() == PREVIEW_BYTES,
                region.y0 <= y < region.y1 <= 128,
                region.x1 <= 128,
                region.x0 <= x,
                x <= region.x1 || x == region.x0,
                forall|px: int, py: int|
                    on_canvas(px, py) ==> #[trigger] pixel_at(canvas@, px, py) == if in_region(region, px, py) && (py < y || (
                    py == y && px < x)) {
                        color
                    } else {
                        pixel_at(before, px, py)
                    },
            decreases region.x1 - x,
        {
            if shape_contains(region.shape, x, y) {
                put_pixel(canvas, x, y, color);
            }
            x = x + 1;
        }
        y = y + 1;
    }
}

/// The RGBA bytes of the drag picture for `file_count` items, drawn with a
/// folder when one is dragged and a page when a file is (or no folder is).
pub fn drag_preview_pixels(file_count: usize, contains_folder: bool, contains_file: bool) -> (canvas: Vec<u8>)
    ensures
        canvas@ == preview_bytes(file_count, contains_folder, contains_file),
{
    let mut canvas: Vec<u8> = Vec::new();
    let mut i: usize = 0;
    while i < PREVIEW_BYTES
        invariant
            canvas@.len() == i,
            i <= PREVIEW_BYTES,
            forall|j: int| 0 <= j < i ==> canvas@[j] == 0,
        decreases PREVIEW_BYTES - i,
    {
        canvas.push(0);
        i = i + 1;
    }
    proof {
        assert forall|px: int, py: int| on_canvas(px, py) implies #[trigger] pixel_at(canvas@, px, py) == transparent() by {
            lemma_pixel_index(px, py, 0);
            lemma_pixel_index(px, py, 3);
        }
    }
    let ghost blank = canvas@;
    if contains_file || !contains_folder {
        paint_region(&mut canvas, Region { x0: 16, x1: 112, y0: 16, y1: 112, shape: Shape::PageBody }, (245, 245, 245, 255));
        paint_region(&mut canvas, Region { x0: 88, x1: 112, y0: 16, y1: 40, shape: Shape::PageFold }, (200, 200, 200, 255));
        paint_region(&mut canvas, Region { x0: 16, x1: 88, y0: 16, y1: 17, shape: Shape::Whole }, (160, 160, 160, 255));
        paint_region(&mut canvas, Region { x0: 16, x1: 112, y0: 111, y1: 112, shape: Shape::Whole }, (160, 160, 160, 255));
        paint_region(&mut canvas, Region { x0: 16, x1: 112, y0: 16, y1: 112, shape: Shape::PageSides }, (160, 160, 160, 255));
        paint_region(&mut canvas, Region { x0: 88, x1: 112, y0: 17, y1: 41, shape: Shape::PageFoldEdge }, (160, 160, 160, 255));
    }
    if contains_folder {
        let folder_left: u32 = if contains_file { 8 } else { 18 };
        let folder_right: u32 = if contains_file { 92 } else { 110 };
        let folder_top: u32 = if contains_file { 42 } else { 34 };
        let folder_bottom: u32 = if contains_file { 108 } else { 104 };
        let tab_right = folder_left + (folder_right - folder_left) / 2;
        paint_region(
            &mut canvas,
            Region { x0: folder_left, x1: folder_right, y0: folder_top, y1: folder_bottom, shape: Shape::FolderBody { top: folder_top, tab_right } },
            (244, 197, 66, 255),
        );
        paint_region(
            &mut canvas,
            Region { x0: folder_left, x1: folder_right, y0: folder_bottom - 1, y1: folder_bottom, shape: Shape::Whole },
            (255, 240, 163, 255),
        );
        paint_region(
            &mut canvas,
            Region {
                x0: folder_left,
                x1: folder_right,
                y0: folder_top,
                y1: folder_bottom,
                shape: Shape::FolderSides { left: folder_left, right: folder_right, top: folder_top },
            },
            (255, 240, 163, 255),
        );
    }
    if file_count > 1 {
        paint_region(&mut canvas, Region { x0: 0, x1: 128, y0: 0, y1: 128, shape: Shape::Badge }, (59, 130, 246, 255));
    }
    proof {
        assert forall|px: int, py: int| on_canvas(px, py) implies #[trigger] pixel_at(canvas@, px, py) == preview_pixel(
            file_count,
            contains_folder,
            contains_file,
            px,
            py,
        ) by {}
        assert forall|i: int| 0 <= i < PREVIEW_BYTES implies canvas@[i] == preview_bytes(file_count, contains_folder, contains_file)[i] by {
            lemma_index_pixel(i);
            let x = (i / 4) % 128;
            let y = i / 512;
            let c = i % 4;
            assert(pixel_at(canvas@, x, y) == preview_pixel(file_count, contains_folder, contains_file, x, y));
            let base = (y * 128 + x) * 4;
            assert(base + c == i);
            if c == 0 {
                assert(canvas@[i] == pixel_at(canvas@, x, y).0);
            } else if c == 1 {
                assert(canvas@[i] == pixel_at(canvas@, x, y).1);
            } else if c == 2 {
                assert(canvas@[i] == pixel_at(canvas@, x, y).2);
            } else {
                assert(canvas@[i] == pixel_at(canvas@, x, y).3);
            }
        }
        assert(canvas@ =~= preview_bytes(file_count, contains_folder, contains_file));
    }
    canvas
}

/// The drag picture for `file_count` items as PNG bytes; empty when the
/// encoder fails.
pub fn generate_drag_image_for_kinds(file_count: usize, contains_folder: bool, contains_file: bool) -> (png: Vec<u8>)
    ensures
        match png_encoding(PREVIEW_SIZE, PREVIEW_SIZE, preview_bytes(file_count, contains_folder, contains_file)) {
            Ok(bytes) => png@ == bytes,
            Err(_) => png@.len() == 0,
        },
{
    let canvas = drag_preview_pixels(file_count, contains_folder, contains_file);
    assert(holds_image(PREVIEW_SIZE, PREVIEW_SIZE, canvas@));
    match encode_png(PREVIEW_SIZE, PREVIEW_SIZE, canvas) {
        Some(Ok(png)) => png,
        _ => Vec::new(),
    }
}

} // verus!
