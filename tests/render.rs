use nsr_plugin::config::{ConfigMap, KeyValue};
use nsr_plugin::geometry::{
    channels_for_format, parse_dimension, resolve_geometry, ImageGeometry, RenderError,
};
use nsr_plugin::pattern::fill_pattern;
use nsr_plugin::render::{plan_render, render_pixels, Render};

fn pair(key: &str, value: &str) -> KeyValue {
    KeyValue { key: key.as_bytes().to_vec(), value: value.as_bytes().to_vec() }
}

fn render(pairs: &[KeyValue]) -> (Option<Vec<u8>>, usize) {
    let mut len: usize = 12345;
    let r = Render(pairs, &mut len);
    (r, len)
}

#[test]
fn two_by_two_rgb_buffer() {
    let pairs = vec![pair("texW", "2"), pair("texH", "2"), pair("texFormat", "RGB")];
    let (r, len) = render(&pairs);
    assert_eq!(len, 12);
    assert_eq!(r, Some(vec![0, 1, 2, 1, 2, 3, 1, 2, 3, 2, 3, 4]));
}

#[test]
fn default_format_is_rgba_and_bytes_follow_formula() {
    let pairs = vec![pair("texW", "3"), pair("texH", "2")];
    let (r, len) = render(&pairs);
    let buf = r.unwrap();
    assert_eq!(len, 24);
    assert_eq!(buf.len(), 24);
    for y in 0..2usize {
        for x in 0..3usize {
            for c in 0..4usize {
                assert_eq!(buf[(y * 3 + x) * 4 + c], ((x + y + c) % 256) as u8);
            }
        }
    }
}

#[test]
fn pattern_wraps_at_256() {
    let pairs = vec![pair("texW", "300"), pair("texH", "1"), pair("texFormat", "RGB")];
    let buf = render(&pairs).0.unwrap();
    assert_eq!(buf.len(), 900);
    assert_eq!(buf[255 * 3], 255);
    assert_eq!(buf[256 * 3], 0);
    assert_eq!(buf[256 * 3 + 2], 2);
    assert_eq!(buf[299 * 3 + 2], 45);
}

#[test]
fn empty_pairs_render_nothing() {
    let (r, len) = render(&[]);
    assert_eq!(r, None);
    assert_eq!(len, 0);
    assert_eq!(plan_render(&[]), Err(RenderError::NullOrEmptyInput));
}

#[test]
fn missing_width_renders_nothing() {
    let pairs = vec![pair("texH", "2"), pair("texFormat", "RGB")];
    let (r, len) = render(&pairs);
    assert_eq!(r, None);
    assert_eq!(len, 0);
    assert_eq!(plan_render(&pairs), Err(RenderError::MissingOrUnparsableDimension));
}

#[test]
fn non_numeric_height_renders_nothing() {
    let pairs = vec![pair("texW", "2"), pair("texH", "abc")];
    let (r, len) = render(&pairs);
    assert_eq!(r, None);
    assert_eq!(len, 0);
    assert_eq!(plan_render(&pairs), Err(RenderError::MissingOrUnparsableDimension));
}

#[test]
fn bad_dimension_is_reported_before_bad_format() {
    let pairs = vec![pair("texW", "-2"), pair("texH", "2"), pair("texFormat", "BGRA")];
    assert_eq!(plan_render(&pairs), Err(RenderError::MissingOrUnparsableDimension));
}

#[test]
fn unsupported_format_renders_nothing() {
    let pairs = vec![pair("texW", "2"), pair("texH", "2"), pair("texFormat", "BGRA")];
    let (r, len) = render(&pairs);
    assert_eq!(r, None);
    assert_eq!(len, 0);
    assert_eq!(plan_render(&pairs), Err(RenderError::UnsupportedFormat));
}

#[test]
fn lower_case_format_is_accepted() {
    let pairs = vec![pair("texW", "1"), pair("texH", "1"), pair("texFormat", "rgb")];
    let (r, len) = render(&pairs);
    assert_eq!(r, Some(vec![0, 1, 2]));
    assert_eq!(len, 3);
}

#[test]
fn zero_dimensions_give_an_empty_buffer() {
    let pairs = vec![pair("texW", "0"), pair("texH", "5")];
    let (r, len) = render(&pairs);
    assert_eq!(r, Some(vec![]));
    assert_eq!(len, 0);
}

#[test]
fn oversized_buffer_is_an_allocation_failure() {
    let w = format!("{}", usize::MAX);
    let pairs = vec![pair("texW", &w), pair("texH", "2")];
    assert_eq!(plan_render(&pairs), Err(RenderError::AllocationFailure));
    let (r, len) = render(&pairs);
    assert_eq!(r, None);
    assert_eq!(len, 0);
}

#[test]
fn last_pair_for_a_key_wins() {
    let pairs = vec![pair("texW", "9"), pair("texH", "1"), pair("texW", "1"), pair("texFormat", "RGB")];
    let (r, len) = render(&pairs);
    assert_eq!(r, Some(vec![0, 1, 2]));
    assert_eq!(len, 3);
}

#[test]
fn repeated_calls_give_identical_bytes() {
    let pairs = vec![pair("texW", "4"), pair("texH", "3"), pair("texFormat", "RGBA")];
    let first = render(&pairs);
    let second = render(&pairs);
    assert_eq!(first, second);
    let reordered = vec![pair("texFormat", "RGBA"), pair("texH", "3"), pair("texW", "4")];
    assert_eq!(render(&reordered), first);
    assert_eq!(render_pixels(&pairs), Ok(first.0.unwrap()));
}

#[test]
fn malformed_bytes_are_decoded_lossily() {
    let pairs = vec![
        KeyValue { key: vec![0x74, 0x65, 0xff], value: vec![0xc3, 0x28] },
        pair("texW", "1"),
        pair("texH", "1"),
    ];
    let config = ConfigMap::from_pairs(&pairs);
    let key = "te\u{FFFD}".to_string();
    assert_eq!(config.get(&key), Some(&"\u{FFFD}(".to_string()));
    assert_eq!(render(&pairs).1, 4);
}

#[test]
fn configuration_lookup() {
    let pairs = vec![pair("a", "1"), pair("b", "2"), pair("a", "3")];
    let config = ConfigMap::from_pairs(&pairs);
    assert_eq!(config.get(&"a".to_string()), Some(&"3".to_string()));
    assert_eq!(config.get(&"b".to_string()), Some(&"2".to_string()));
    assert_eq!(config.get(&"c".to_string()), None);
    let mut m = ConfigMap::new();
    m.insert("k".to_string(), "v".to_string());
    m.insert("k".to_string(), "w".to_string());
    assert_eq!(m.get(&"k".to_string()), Some(&"w".to_string()));
}

#[test]
fn geometry_from_configuration() {
    let pairs = vec![pair("texW", "7"), pair("texH", "5"), pair("texFormat", "Rgb")];
    let config = ConfigMap::from_pairs(&pairs);
    assert_eq!(
        resolve_geometry(&config),
        Ok(ImageGeometry { width: 7, height: 5, channels: 3 })
    );
}

#[test]
fn dimension_parsing() {
    assert_eq!(parse_dimension("42"), Some(42));
    assert_eq!(parse_dimension("+5"), Some(5));
    assert_eq!(parse_dimension("007"), Some(7));
    if usize::BITS == 64 {
        assert_eq!(parse_dimension("18446744073709551615"), Some(usize::MAX));
        assert_eq!(parse_dimension("18446744073709551616"), None);
    }
    assert_eq!(parse_dimension("+"), None);
    assert_eq!(parse_dimension(""), None);
    assert_eq!(parse_dimension("-1"), None);
    assert_eq!(parse_dimension(" 2"), None);
    assert_eq!(parse_dimension("2x"), None);
}

#[test]
fn format_channels() {
    assert_eq!(channels_for_format("RGB"), Some(3));
    assert_eq!(channels_for_format("RGBA"), Some(4));
    assert_eq!(channels_for_format("rgb"), None);
    assert_eq!(channels_for_format("RGBX"), None);
    assert_eq!(channels_for_format("RG"), None);
    assert_eq!(channels_for_format("RGBAA"), None);
}

#[test]
fn total_size_of_geometry() {
    assert_eq!(ImageGeometry { width: 3, height: 4, channels: 4 }.total_size(), Some(48));
    assert_eq!(ImageGeometry { width: usize::MAX, height: 2, channels: 3 }.total_size(), None);
    assert_eq!(ImageGeometry { width: usize::MAX, height: 2, channels: 0 }.total_size(), Some(0));
}

#[test]
fn fill_into_a_slice() {
    let mut buf = vec![9u8; 2 * 1 * 3];
    fill_pattern(2, 1, 3, buf.as_mut_slice());
    assert_eq!(buf, vec![0, 1, 2, 1, 2, 3]);
}
