use dropwin::thumbnail::{shell_compatible_path, thumbnail_png_base64};

#[test]
fn removes_the_verbatim_prefix_from_drive_paths() {
    assert_eq!(
        shell_compatible_path(r"\\?\C:\Users\Test\file.txt"),
        r"C:\Users\Test\file.txt"
    );
}

#[test]
fn converts_verbatim_unc_paths_to_shell_unc_paths() {
    assert_eq!(
        shell_compatible_path(r"\\?\UNC\server\share\file.txt"),
        r"\\server\share\file.txt"
    );
}

#[test]
fn leaves_regular_paths_unchanged() {
    let path = r"C:\Users\Test\file.txt";
    assert_eq!(shell_compatible_path(path), path);
}

#[test]
fn short_pixel_buffers_are_rejected() {
    assert_eq!(
        thumbnail_png_base64(2, 2, vec![0; 15]),
        Err("Failed to create image buffer".to_string())
    );
}

#[test]
fn thumbnails_become_base64_png_text() {
    let text = thumbnail_png_base64(1, 1, vec![255, 0, 0, 255]).unwrap();
    assert!(text.starts_with("iVBORw0KGgo"));
    assert_eq!(text.len() % 4, 0);
}

#[test]
fn thumbnail_text_decodes_back_to_the_png() {
    let text = thumbnail_png_base64(1, 1, vec![255, 0, 0, 255]).unwrap();
    let png = dropwin::drag_ops::decode_pasted_data(&text).unwrap();
    assert_eq!(&png[..8], &[137, 80, 78, 71, 13, 10, 26, 10]);
    assert_eq!(dropwin::drag_ops::decode_drag_image(&format!("data:image/png;base64,{text}")), Some(png));
}
