use small_recorder::names::{animation_file_name, picture_file_name};

#[test]
fn picture_names_are_zero_padded_to_six_digits() {
    assert_eq!(picture_file_name(0), b"picture-000000.jpg".to_vec());
    assert_eq!(picture_file_name(7), b"picture-000007.jpg".to_vec());
    assert_eq!(picture_file_name(123456), b"picture-123456.jpg".to_vec());
}

#[test]
fn picture_names_grow_past_six_digits_without_truncation() {
    assert_eq!(picture_file_name(1234567), b"picture-1234567.jpg".to_vec());
    assert_eq!(picture_file_name(u32::MAX), b"picture-4294967295.jpg".to_vec());
}

#[test]
fn animation_names_use_the_first_index_of_the_sequence() {
    assert_eq!(animation_file_name(42), b"animation-000042.gif".to_vec());
    assert_eq!(animation_file_name(0), b"animation-000000.gif".to_vec());
}
