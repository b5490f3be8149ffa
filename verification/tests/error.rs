use markx::MarkXError;

#[test]
fn error_messages() {
    assert_eq!(MarkXError::BadSignature.message(), "MARK-X: classical signature did not verify");
    assert_eq!(MarkXError::MalformedMessage.message(), "MARK-X: wire-format parse error");
    assert_eq!(
        MarkXError::StorageError("disk full".to_string()).message(),
        "MARK-X: persistent state I/O error: disk full"
    );
    assert_eq!(
        MarkXError::InvalidState("no pending bootstrap").message(),
        "MARK-X: invalid state transition: no pending bootstrap"
    );
    assert_ne!(MarkXError::EpochRollback.message(), MarkXError::DecryptError.message());
}
