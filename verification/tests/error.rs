use graphics_buffer::buffer::PixelBuffer;
use graphics_buffer::decimal::push_decimal;
use graphics_buffer::error::Error;

#[test]
fn message_cites_both_numbers() {
    let error = Error::ContainerTooSmall(10, 4);
    assert_eq!(
        error.message(),
        "Container is too small for the given dimensions. \nContainer has 10 bytes, which encode 2 pixels, \nbut the given demensions contain 4 pixels"
    );
}

#[test]
fn message_of_a_failed_construction() {
    let error = PixelBuffer::from_bytes(100, 30, vec![0u8; 4003]).err().unwrap();
    assert_eq!(error, Error::ContainerTooSmall(4003, 3000));
    assert_eq!(
        error.message(),
        "Container is too small for the given dimensions. \nContainer has 4003 bytes, which encode 1000 pixels, \nbut the given demensions contain 3000 pixels"
    );
}

#[test]
fn message_with_zeros() {
    assert_eq!(
        Error::ContainerTooSmall(0, 0).message(),
        "Container is too small for the given dimensions. \nContainer has 0 bytes, which encode 0 pixels, \nbut the given demensions contain 0 pixels"
    );
}

#[test]
fn decimal_numerals() {
    for n in [0usize, 1, 9, 10, 11, 99, 100, 101, 1000, 12345, 4294967295, usize::MAX] {
        let mut out = String::from("n=");
        push_decimal(&mut out, n);
        assert_eq!(out, format!("n={}", n));
    }
}

#[test]
fn error_is_found_at_the_root() {
    let error: graphics_buffer::Error = Error::ContainerTooSmall(1, 2);
    assert_eq!(error, graphics_buffer::Error::ContainerTooSmall(1, 2));
}

#[test]
fn error_values_compare_and_copy() {
    let error = Error::ContainerTooSmall(3, 1);
    let copy = error;
    assert_eq!(error, copy);
    assert_ne!(error, Error::ContainerTooSmall(3, 2));
    assert_eq!(format!("{:?}", error), "ContainerTooSmall(3, 1)");
}
