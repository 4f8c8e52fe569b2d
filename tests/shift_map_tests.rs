use spshub::shift_map::ShiftError;

#[test]
fn shift_errors_wrap_their_causes() {
    let e = ShiftError::from("x".parse::<u32>().unwrap_err());
    assert!(matches!(e, ShiftError::ChannelError(_)));
    let e = ShiftError::from("x".parse::<f64>().unwrap_err());
    assert!(matches!(e, ShiftError::TimeshiftError(_)));
    let e = ShiftError::from(std::io::Error::new(std::io::ErrorKind::NotFound, "missing"));
    match e {
        ShiftError::FileError(inner) => assert_eq!(inner.kind(), std::io::ErrorKind::NotFound),
        _ => panic!("wrong variant"),
    }
}
