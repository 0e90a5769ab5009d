use tinyproto::proto::error::TinyError;

#[test]
fn test_error_code_roundtrip() {
    let errors = [
        TinyError::Failed,
        TinyError::Timeout,
        TinyError::DataTooLarge,
        TinyError::InvalidData,
        TinyError::Busy,
        TinyError::OutOfSync,
        TinyError::Again,
        TinyError::WrongCrc,
        TinyError::OutOfMemory,
        TinyError::UnknownPeer,
        TinyError::Io,
    ];
    for err in errors {
        let code = err.to_code();
        assert_eq!(TinyError::from_code(code), Some(err));
    }
    assert_eq!(TinyError::from_code(0), None);
    assert_eq!(TinyError::from_code(1), None);
}

#[test]
fn error_codes_are_the_c_values() {
    assert_eq!(TinyError::Failed.to_code(), -1);
    assert_eq!(TinyError::Timeout.to_code(), -2);
    assert_eq!(TinyError::WrongCrc.to_code(), -8);
    assert_eq!(TinyError::Io.to_code(), -11);
    assert_eq!(TinyError::from_code(-12), None);
    assert_eq!(TinyError::from_code(-5), Some(TinyError::Busy));
}

#[test]
fn error_messages() {
    assert_eq!(TinyError::Failed.message(), "operation failed");
    assert_eq!(TinyError::WrongCrc.message(), "wrong CRC");
    assert_eq!(TinyError::Io.message(), "I/O error");
    assert_eq!(TinyError::Again.message(), "try again");
}
