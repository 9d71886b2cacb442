use everything_next::preview::{png_data_uri, preview_byte_count, preview_png, preview_rgba};
use everything_next::shell::ShellError;

#[test]
fn bitmap_byte_counts_fit_in_thirty_two_bits() {
    assert_eq!(preview_byte_count(2, 3), Some(24));
    assert_eq!(preview_byte_count(256, 256), Some(262_144));
    assert_eq!(preview_byte_count(0, 7), Some(0));
    assert_eq!(preview_byte_count(32_768, 32_767), Some(4_294_836_224));
    assert_eq!(preview_byte_count(32_768, 32_768), None);
    assert_eq!(preview_byte_count(65_536, 65_536), None);
}

#[test]
fn premultiplied_pixels_become_straight_rgba() {
    let bgra = [64, 32, 128, 128, 200, 0, 0, 100, 5, 6, 7, 0];
    assert_eq!(preview_rgba(&bgra), vec![255, 63, 127, 128, 0, 0, 255, 100, 7, 6, 5, 0]);
}

#[test]
fn a_bitmap_without_alpha_is_opaque() {
    let bgra = [1, 2, 3, 0, 4, 5, 6, 0];
    assert_eq!(preview_rgba(&bgra), vec![3, 2, 1, 255, 6, 5, 4, 255]);
    assert_eq!(preview_rgba(&[]), Vec::<u8>::new());
}

#[test]
fn data_uris_carry_standard_base64() {
    assert_eq!(png_data_uri(b"abc"), "data:image/png;base64,YWJj");
    assert_eq!(png_data_uri(b"ab"), "data:image/png;base64,YWI=");
    assert_eq!(png_data_uri(&[0xfb, 0xff]), "data:image/png;base64,+/8=");
    assert_eq!(png_data_uri(&[]), "data:image/png;base64,");
}

#[test]
fn a_bitmap_becomes_a_png_picture() {
    let png = preview_png(1, 1, &[0, 0, 255, 255]).expect("one red pixel encodes");
    assert_eq!(&png[..8], &[137, 80, 78, 71, 13, 10, 26, 10]);
    assert!(png_data_uri(&png).starts_with("data:image/png;base64,iVBORw0KGgo"));
}

#[test]
fn a_short_bitmap_is_refused() {
    assert_eq!(
        preview_png(2, 1, &[0, 0, 0, 0]),
        Err(ShellError::Visual("Windows returned an invalid RGBA buffer".into()))
    );
}
