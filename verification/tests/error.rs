use git_plumbing::error::ErrorKind;
use git_plumbing::hex::HexError;
use git_plumbing::index::IndexError;
use git_plumbing::objects::ObjectError;
use git_plumbing::refs::RefError;

#[test]
fn kinds_of_object_errors() {
    assert_eq!(ObjectError::InvalidHeader.kind(), ErrorKind::Format);
    assert_eq!(ObjectError::TypeNotUtf8.kind(), ErrorKind::Format);
    assert_eq!(ObjectError::UnknownType.kind(), ErrorKind::Validation);
    assert_eq!(ObjectError::SizeNotUtf8.kind(), ErrorKind::Format);
    assert_eq!(ObjectError::SizeNotANumber.kind(), ErrorKind::Format);
    assert_eq!(ObjectError::SizeMismatch.kind(), ErrorKind::Validation);
    assert_eq!(ObjectError::TruncatedTree.kind(), ErrorKind::Format);
    assert_eq!(ObjectError::CorruptStream.kind(), ErrorKind::Io);
    assert_eq!(ObjectError::CompressionFailed.kind(), ErrorKind::Io);
    assert_eq!(ObjectError::InvalidHash.kind(), ErrorKind::NotFound);
    assert_eq!(ObjectError::NotFound.kind(), ErrorKind::NotFound);
}

#[test]
fn kinds_of_index_errors() {
    assert_eq!(IndexError::ShortRead.kind(), ErrorKind::Io);
    assert_eq!(IndexError::InvalidSignature.kind(), ErrorKind::Format);
    assert_eq!(IndexError::UnsupportedVersion.kind(), ErrorKind::Format);
    assert_eq!(IndexError::InvalidStage.kind(), ErrorKind::Format);
    assert_eq!(IndexError::PathNotUtf8.kind(), ErrorKind::Format);
    assert_eq!(IndexError::PathTooLong.kind(), ErrorKind::Format);
    assert_eq!(IndexError::TooManyEntries.kind(), ErrorKind::Format);
}

#[test]
fn kinds_of_other_errors() {
    assert_eq!(RefError::ShortRead.kind(), ErrorKind::Io);
    assert_eq!(RefError::HeadNotUtf8.kind(), ErrorKind::Format);
    assert_eq!(RefError::HeadTargetMissing.kind(), ErrorKind::NotFound);
    assert_eq!(HexError::OddLength.kind(), ErrorKind::Format);
    assert_eq!(HexError::InvalidDigit.kind(), ErrorKind::Format);
}

#[test]
fn texts_of_errors() {
    assert_eq!(IndexError::InvalidSignature.message(), "invalid index signature");
    assert_eq!(IndexError::UnsupportedVersion.message(), "unsupported index version");
    assert_eq!(IndexError::InvalidStage.message(), "invalid merge status");
    assert_eq!(ObjectError::InvalidHeader.message(), "invalid object header");
    assert_eq!(ObjectError::SizeMismatch.message(), "object size does not match header");
    assert_eq!(ObjectError::UnknownType.message(), "unknown object type");
    assert_eq!(ObjectError::SizeNotANumber.message(), "object size is not a number");
    assert_eq!(HexError::OddLength.message(), "invalid hex string");
    assert_eq!(HexError::InvalidDigit.message(), "invalid hex character");
    assert_eq!(
        RefError::HeadTargetMissing.message(),
        "HEAD points to a reference that does not exist"
    );
}
