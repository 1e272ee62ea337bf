//! The error taxonomy: kinds, payloads and descriptions.

use bc_hash::error::{Error, ErrorKind, IoErrorKind};

#[test]
fn errors_carry_kind_and_message() {
    let e = Error::new(ErrorKind::IntegerOverflow, "the offset wrapped");
    assert_eq!(e.kind(), ErrorKind::IntegerOverflow);
    assert_eq!(e.message(), "the offset wrapped");
    assert_eq!(e.describe(), "Integer overflow. the offset wrapped");
}

#[test]
fn kinds_carry_their_payloads() {
    assert_eq!(
        ErrorKind::BadStreamPosition(45),
        ErrorKind::BadStreamPosition(45)
    );
    assert_ne!(
        ErrorKind::BadStreamPosition(45),
        ErrorKind::BadStreamPosition(46)
    );
    assert_ne!(
        ErrorKind::InvalidBlockHash(1),
        ErrorKind::InvalidBlockHash(2)
    );
    assert_eq!(
        ErrorKind::IOError(IoErrorKind::UnexpectedEof),
        ErrorKind::IOError(IoErrorKind::UnexpectedEof)
    );
    assert_ne!(
        ErrorKind::IOError(IoErrorKind::UnexpectedEof),
        ErrorKind::IOError(IoErrorKind::Other)
    );
}

#[test]
fn kinds_describe_themselves() {
    assert_eq!(ErrorKind::StringTooShort.describe(), "String too short.");
    assert_eq!(ErrorKind::InvalidBlockHash(3).describe(), "Invalid block hash.");
    assert_eq!(ErrorKind::FileIsEmpty.describe(), "File is empty.");
}
