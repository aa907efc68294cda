use dropwin::drag_preview::{drag_preview_pixels, generate_drag_image_for_kinds, PREVIEW_BYTES};

fn generated_pixel(contains_folder: bool, contains_file: bool, x: u32, y: u32) -> [u8; 4] {
    let bytes = generate_drag_image_for_kinds(1, contains_folder, contains_file);
    let image = image::load_from_memory(&bytes).unwrap().into_rgba8();
    image.get_pixel(x, y).0
}

fn raw_pixel(count: usize, folder: bool, file: bool, x: usize, y: usize) -> [u8; 4] {
    let canvas = drag_preview_pixels(count, folder, file);
    let i = (y * 128 + x) * 4;
    [canvas[i], canvas[i + 1], canvas[i + 2], canvas[i + 3]]
}

#[test]
fn folder_fallback_uses_folder_color_instead_of_white_file_page() {
    assert_eq!(generated_pixel(true, false, 64, 70), [244, 197, 66, 255]);
}

#[test]
fn mixed_fallback_keeps_a_visible_folder_layer() {
    assert_eq!(generated_pixel(true, true, 32, 70), [244, 197, 66, 255]);
}

#[test]
fn a_single_file_shows_a_page_with_a_fold_and_border() {
    assert_eq!(drag_preview_pixels(1, false, true).len(), PREVIEW_BYTES);
    assert_eq!(raw_pixel(1, false, true, 50, 50), [245, 245, 245, 255]);
    assert_eq!(raw_pixel(1, false, true, 16, 50), [160, 160, 160, 255]);
    assert_eq!(raw_pixel(1, false, true, 90, 20), [200, 200, 200, 255]);
    assert_eq!(raw_pixel(1, false, true, 100, 28), [160, 160, 160, 255]);
    assert_eq!(raw_pixel(1, false, true, 110, 20), [0, 0, 0, 0]);
    assert_eq!(raw_pixel(1, false, true, 5, 5), [0, 0, 0, 0]);
    assert_eq!(raw_pixel(1, false, true, 112, 112), [0, 0, 0, 0]);
}

#[test]
fn several_items_get_a_badge() {
    assert_eq!(raw_pixel(3, false, true, 112, 112), [59, 130, 246, 255]);
    assert_eq!(raw_pixel(3, false, true, 100, 112), [59, 130, 246, 255]);
    assert_eq!(raw_pixel(3, false, true, 50, 50), [245, 245, 245, 255]);
}

#[test]
fn folder_edges_are_drawn_over_the_folder() {
    assert_eq!(raw_pixel(1, true, false, 18, 50), [255, 240, 163, 255]);
    assert_eq!(raw_pixel(1, true, false, 109, 50), [255, 240, 163, 255]);
    assert_eq!(raw_pixel(1, true, false, 60, 103), [255, 240, 163, 255]);
    assert_eq!(raw_pixel(1, true, false, 100, 36), [0, 0, 0, 0]);
    assert_eq!(raw_pixel(1, true, false, 30, 36), [244, 197, 66, 255]);
}

/// Paints the picture layer by layer, as the drag code draws it, to compare
/// against the library's canvas pixel for pixel.
fn painted(count: usize, folder: bool, file: bool) -> Vec<[u8; 4]> {
    let mut px = vec![[0u8; 4]; 128 * 128];
    let mut put = |x: u32, y: u32, c: [u8; 4]| px[(y * 128 + x) as usize] = c;
    if file || !folder {
        for y in 16..112u32 {
            for x in 16..112u32 {
                if !(y < 40 && x > 88) {
                    put(x, y, [245, 245, 245, 255]);
                }
            }
        }
        for y in 16..40u32 {
            for x in 88..112u32 {
                if (x - 88) + (y - 16) <= 24 {
                    put(x, y, [200, 200, 200, 255]);
                }
            }
        }
        for x in 16..88 {
            put(x, 16, [160, 160, 160, 255]);
        }
        for x in 16..112 {
            put(x, 111, [160, 160, 160, 255]);
        }
        for y in 16..112 {
            put(16, y, [160, 160, 160, 255]);
            put(111, y, [160, 160, 160, 255]);
        }
        for i in 0..24 {
            put(88 + i, 40 - i, [160, 160, 160, 255]);
        }
    }
    if folder {
        let (l, r, t, b) = if file { (8, 92, 42, 108) } else { (18, 110, 34, 104) };
        let tab = l + (r - l) / 2;
        for y in t..b {
            for x in l..r {
                if (y < t + 12 && x < tab) || y >= t + 10 {
                    put(x, y, [244, 197, 66, 255]);
                }
            }
        }
        for x in l..r {
            put(x, b - 1, [255, 240, 163, 255]);
        }
        for y in t..b {
            put(l, y, [255, 240, 163, 255]);
            if y >= t + 10 {
                put(r - 1, y, [255, 240, 163, 255]);
            }
        }
    }
    if count > 1 {
        for y in 0..128i32 {
            for x in 0..128i32 {
                if (x - 112) * (x - 112) + (y - 112) * (y - 112) <= 324 {
                    put(x as u32, y as u32, [59, 130, 246, 255]);
                }
            }
        }
    }
    px
}

#[test]
fn canvas_matches_the_layered_drawing_for_every_kind() {
    for count in [0usize, 1, 2, 150] {
        for folder in [false, true] {
            for file in [false, true] {
                let expected = painted(count, folder, file);
                let canvas = drag_preview_pixels(count, folder, file);
                for (i, pixel) in expected.iter().enumerate() {
                    assert_eq!(&canvas[i * 4..i * 4 + 4], &pixel[..], "pixel {i} of {count} {folder} {file}");
                }
            }
        }
    }
}
