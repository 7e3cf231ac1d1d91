use nae::HorizontalAlign;
use nae::TextAlign;
use nae::TextureFilter;
use nae::TextureFormat;
use nae::VerticalAlign;
use nae::hex_to_string;

#[test]
fn hex_to_string_full_color() {
    assert_eq!(hex_to_string(0x12345678), "0x12345678");
    assert_eq!(hex_to_string(0xFF00FF00), "0xFF00FF00");
}

#[test]
fn hex_to_string_drops_leading_zeros() {
    assert_eq!(hex_to_string(0x000000FF), "0xFF");
    assert_eq!(hex_to_string(0x0000ABCD), "0xABCD");
}

#[test]
fn hex_to_string_zero() {
    assert_eq!(hex_to_string(0), "0x0");
}

#[test]
fn hex_to_string_all_digits() {
    assert_eq!(hex_to_string(0x01234567), "0x1234567");
    assert_eq!(hex_to_string(0x89ABCDEF), "0x89ABCDEF");
    assert_eq!(hex_to_string(u32::MAX), "0xFFFFFFFF");
}

#[test]
fn get_align_splits_all_nine_alignments() {
    assert_eq!(TextAlign::TopLeft.get_align(), (VerticalAlign::Top, HorizontalAlign::Left));
    assert_eq!(TextAlign::TopCenter.get_align(), (VerticalAlign::Top, HorizontalAlign::Center));
    assert_eq!(TextAlign::TopRight.get_align(), (VerticalAlign::Top, HorizontalAlign::Right));
    assert_eq!(TextAlign::MiddleLeft.get_align(), (VerticalAlign::Center, HorizontalAlign::Left));
    assert_eq!(TextAlign::Center.get_align(), (VerticalAlign::Center, HorizontalAlign::Center));
    assert_eq!(
        TextAlign::MiddleRight.get_align(),
        (VerticalAlign::Center, HorizontalAlign::Right)
    );
    assert_eq!(TextAlign::BottomLeft.get_align(), (VerticalAlign::Bottom, HorizontalAlign::Left));
    assert_eq!(
        TextAlign::BottomCenter.get_align(),
        (VerticalAlign::Bottom, HorizontalAlign::Center)
    );
    assert_eq!(TextAlign::BottomRight.get_align(), (VerticalAlign::Bottom, HorizontalAlign::Right));
}

#[test]
fn resource_enums_compare_by_variant() {
    assert_eq!(TextureFormat::Rgba, TextureFormat::Rgba);
    assert_ne!(TextureFormat::Red, TextureFormat::R8);
    assert_eq!(TextureFilter::Linear, TextureFilter::Linear);
    assert_ne!(TextureFilter::Linear, TextureFilter::Nearest);
}
