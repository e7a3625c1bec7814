use sixela::SixelError;

#[test]
fn error_messages() {
    assert_eq!(SixelError::BadArgument.message(), "bad argument detected");
    assert_eq!(SixelError::BadInput.message(), "bad input detected");
    assert_eq!(SixelError::BadIntegerOverflow.message(), "integer overflow");
    assert_eq!(SixelError::NotImplemented.message(), "feature not implemented");
}
