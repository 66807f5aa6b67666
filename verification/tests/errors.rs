use tokio_tcpmux::errors::Error;

#[test]
fn error_text_names_the_kind() {
    assert_eq!(Error::StreamDoesNotExistError("x".to_string()).to_string(), "StreamDoesNotExistError: x");
    assert_eq!(Error::WriteError("w".to_string()).to_string(), "WriteError: w");
    assert_eq!(Error::ReadError("r".to_string()).to_string(), "ReadError: r");
    assert_eq!(Error::WaitError("timeout".to_string()).to_string(), "WaitError: timeout");
    assert_eq!(Error::NotAcceptingError("".to_string()).to_string(), "NotAcceptingError: ");
}
