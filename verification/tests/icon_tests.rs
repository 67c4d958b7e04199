use notify_logger::icon::{extract_icon, extract_rgba, ExtractError};
use notify_logger::value::Value;

fn bitmap_hint(
    name: &str,
    width: i32,
    height: i32,
    stride: i32,
    has_alpha: bool,
    bits: i32,
    channels: i32,
    data: &[u8],
) -> Vec<(String, Value)> {
    let bytes: Vec<Value> = data.iter().map(|b| Value::Byte(*b)).collect();
    let s = Value::Structure(vec![
        Value::I32(width),
        Value::I32(height),
        Value::I32(stride),
        Value::Bool(has_alpha),
        Value::I32(bits),
        Value::I32(channels),
        Value::Array(bytes),
    ]);
    vec![(String::from(name), s)]
}

#[test]
fn stride_padding_is_stripped() {
    let data: Vec<u8> = (0..24).collect();
    let hints = bitmap_hint("image-data", 2, 2, 12, true, 8, 4, &data);
    let (w, h, buf) = extract_rgba(&hints).unwrap().unwrap();
    assert_eq!((w, h), (2, 2));
    assert_eq!(buf.len(), 16);
    assert_eq!(buf, vec![0, 1, 2, 3, 4, 5, 6, 7, 12, 13, 14, 15, 16, 17, 18, 19]);
}

#[test]
fn no_padding_is_the_identity() {
    let data: Vec<u8> = (0..16).collect();
    let hints = bitmap_hint("image-data", 2, 2, 8, true, 8, 4, &data);
    let (w, h, buf) = extract_rgba(&hints).unwrap().unwrap();
    assert_eq!((w, h), (2, 2));
    assert_eq!(buf, data);
}

#[test]
fn underscore_hint_name_is_accepted() {
    let data: Vec<u8> = (0..16).collect();
    let hints = bitmap_hint("image_data", 2, 2, 8, true, 8, 4, &data);
    assert!(extract_rgba(&hints).unwrap().is_some());
}

#[test]
fn missing_hint_is_skipped_silently() {
    let hints: Vec<(String, Value)> = vec![(
        String::from("urgency"),
        Value::Byte(2),
    )];
    assert_eq!(extract_rgba(&hints), Ok(None));
    let empty: Vec<(String, Value)> = vec![];
    assert_eq!(extract_rgba(&empty), Ok(None));
}

#[test]
fn unsupported_encodings_are_skipped_not_errors() {
    let data: Vec<u8> = vec![0; 16];
    let three_channels = bitmap_hint("image-data", 2, 2, 8, true, 8, 3, &data);
    assert_eq!(extract_rgba(&three_channels), Ok(None));
    let wide_samples = bitmap_hint("image-data", 2, 2, 8, true, 16, 4, &data);
    assert_eq!(extract_rgba(&wide_samples), Ok(None));
    let no_alpha = bitmap_hint("image-data", 2, 2, 8, false, 8, 4, &data);
    assert_eq!(extract_rgba(&no_alpha), Ok(None));
}

#[test]
fn short_buffer_is_truncated_error() {
    let data: Vec<u8> = vec![0; 23];
    let hints = bitmap_hint("image-data", 2, 2, 12, true, 8, 4, &data);
    assert_eq!(extract_rgba(&hints), Err(ExtractError::Truncated));
}

#[test]
fn non_byte_element_is_invalid_byte_error() {
    let mut bytes: Vec<Value> = (0..15).map(|_| Value::Byte(1)).collect();
    bytes.push(Value::I32(300));
    let s = Value::Structure(vec![
        Value::I32(2),
        Value::I32(2),
        Value::I32(8),
        Value::Bool(true),
        Value::I32(8),
        Value::I32(4),
        Value::Array(bytes),
    ]);
    let hints = vec![(String::from("image-data"), s)];
    assert_eq!(extract_rgba(&hints), Err(ExtractError::InvalidByte));
}

#[test]
fn wrong_shapes_are_shape_errors() {
    let not_a_struct = vec![(String::from("image-data"), Value::Byte(1))];
    assert_eq!(extract_rgba(&not_a_struct), Err(ExtractError::Shape));

    let six_fields = Value::Structure(vec![
        Value::I32(2),
        Value::I32(2),
        Value::I32(8),
        Value::Bool(true),
        Value::I32(8),
        Value::I32(4),
    ]);
    let hints = vec![(String::from("image-data"), six_fields)];
    assert_eq!(extract_rgba(&hints), Err(ExtractError::Shape));

    let text_width = Value::Structure(vec![
        Value::Text(String::from("2")),
        Value::I32(2),
        Value::I32(8),
        Value::Bool(true),
        Value::I32(8),
        Value::I32(4),
        Value::Array(vec![]),
    ]);
    let hints = vec![(String::from("image-data"), text_width)];
    assert_eq!(extract_rgba(&hints), Err(ExtractError::Shape));
}

#[test]
fn malformed_geometry_is_a_shape_error() {
    let data: Vec<u8> = vec![0; 64];
    let negative_width = bitmap_hint("image-data", -2, 2, 8, true, 8, 4, &data);
    assert_eq!(extract_rgba(&negative_width), Err(ExtractError::Shape));
    let narrow_stride = bitmap_hint("image-data", 2, 2, 7, true, 8, 4, &data);
    assert_eq!(extract_rgba(&narrow_stride), Err(ExtractError::Shape));
}

#[test]
fn dashed_name_takes_precedence() {
    let data: Vec<u8> = (0..16).collect();
    let mut hints = bitmap_hint("image-data", 2, 2, 8, true, 8, 4, &data);
    hints.extend(bitmap_hint("image_data", 1, 1, 4, true, 8, 4, &data[0..4]));
    let (w, h, _) = extract_rgba(&hints).unwrap().unwrap();
    assert_eq!((w, h), (2, 2));
}

#[test]
fn extract_icon_names_the_file_by_timestamp() {
    let data: Vec<u8> = (0..16).collect();
    let hints = bitmap_hint("image-data", 2, 2, 8, true, 8, 4, &data);
    let (name, _png) = extract_icon(&hints, 1699999999).unwrap().unwrap();
    assert_eq!(name, "1699999999.png");
}

#[test]
fn extract_icon_encodes_a_real_png_of_the_packed_pixels() {
    let data: Vec<u8> = (0..24).collect();
    let hints = bitmap_hint("image-data", 2, 2, 12, true, 8, 4, &data);
    let (_, png) = extract_icon(&hints, 7).unwrap().unwrap();
    assert_eq!(&png[0..8], &[0x89, 0x50, 0x4e, 0x47, 0x0d, 0x0a, 0x1a, 0x0a]);
    let decoded = image::load_from_memory(&png).unwrap().to_rgba8();
    assert_eq!(decoded.width(), 2);
    assert_eq!(decoded.height(), 2);
    let expected: Vec<u8> = vec![0, 1, 2, 3, 4, 5, 6, 7, 12, 13, 14, 15, 16, 17, 18, 19];
    assert_eq!(decoded.into_raw(), expected);
}

#[test]
fn extract_icon_passes_skips_and_errors_through() {
    let no_alpha = bitmap_hint("image-data", 2, 2, 8, false, 8, 4, &vec![0; 16]);
    assert!(extract_icon(&no_alpha, 1).unwrap().is_none());
    let short = bitmap_hint("image-data", 2, 2, 12, true, 8, 4, &vec![0; 5]);
    assert_eq!(extract_icon(&short, 1), Err(ExtractError::Truncated));
}

#[test]
fn zero_dimensions_pass_validation_but_fail_encoding() {
    let hints = bitmap_hint("image-data", 0, 0, 0, true, 8, 4, &[]);
    assert_eq!(extract_rgba(&hints), Ok(Some((0, 0, vec![]))));
    assert_eq!(extract_icon(&hints, 1), Err(ExtractError::Encode));
}
