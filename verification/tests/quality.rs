use drift::quality::sum_squared_error;

#[test]
fn squared_errors_add_up() {
    // MSE 1 over four samples.
    assert_eq!(sum_squared_error(&[10, 10, 10, 10], &[11, 9, 11, 9]), Some(4));
    // MSE 100 over two samples.
    assert_eq!(sum_squared_error(&[0, 0], &[10, 10]), Some(200));
    assert_eq!(sum_squared_error(&[1, 2, 3], &[1, 2, 3]), Some(0));
    assert_eq!(sum_squared_error(&[0, 255], &[255, 0]), Some(2 * 65025));
}

#[test]
fn mismatched_or_empty_buffers_have_no_error_sum() {
    assert_eq!(sum_squared_error(&[], &[]), None);
    assert_eq!(sum_squared_error(&[1], &[1, 2]), None);
}
