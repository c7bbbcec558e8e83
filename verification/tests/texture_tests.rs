use smoke::texture::{generate_texture, texture_byte_len};

#[test]
fn texture_is_row_major_rgba() {
    let data = generate_texture(3, 2, |x, y| [x as u8, y as u8, 7, 255]);
    assert_eq!(data.len(), 24);
    assert_eq!(
        data,
        vec![
            0, 0, 7, 255, 1, 0, 7, 255, 2, 0, 7, 255, //
            0, 1, 7, 255, 1, 1, 7, 255, 2, 1, 7, 255,
        ]
    );
}

#[test]
fn empty_texture() {
    assert!(generate_texture(0, 5, |_, _| [1, 2, 3, 4]).is_empty());
}

#[test]
fn texture_length() {
    assert_eq!(texture_byte_len(4, 3), 48);
    assert_eq!(texture_byte_len(0, 3), 0);
}
