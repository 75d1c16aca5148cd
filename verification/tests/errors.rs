use allsorts::error::{ParseError, ShapingError};
use ilmenite::{ImtError, ImtErrorSrc, ImtErrorTy, ImtParseFailure};

#[test]
fn unimplemented_is_unknown_source() {
    let e = ImtError::unimplemented();
    assert_eq!(e.src, ImtErrorSrc::Unknown);
    assert_eq!(e.ty, ImtErrorTy::Unimplemented);
}

#[test]
fn src_and_ty_keeps_both() {
    let e = ImtError::src_and_ty(ImtErrorSrc::Cmap, ImtErrorTy::Other(String::from("x")));
    assert_eq!(e.src, ImtErrorSrc::Cmap);
    assert_eq!(e.ty, ImtErrorTy::Other(String::from("x")));
}

#[test]
fn parse_failure_maps_each_kind() {
    let cases = [
        (ImtParseFailure::BadEof, ImtErrorTy::FileBadEof),
        (ImtParseFailure::BadValue, ImtErrorTy::FileBadValue),
        (ImtParseFailure::BadVersion, ImtErrorTy::FileBadVersion),
        (ImtParseFailure::BadOffset, ImtErrorTy::FileBadOffset),
        (ImtParseFailure::BadIndex, ImtErrorTy::FileBadIndex),
        (ImtParseFailure::LimitExceeded, ImtErrorTy::FileLimitExceeded),
        (ImtParseFailure::MissingValue, ImtErrorTy::FileMissingValue),
        (ImtParseFailure::CompressionError, ImtErrorTy::FileCompressionError),
        (ImtParseFailure::NotImplemented, ImtErrorTy::FileGeneric),
    ];
    for (kind, ty) in cases {
        let e = ImtError::parse_failure(ImtErrorSrc::Glyf, kind);
        assert_eq!(e.src, ImtErrorSrc::Glyf);
        assert_eq!(e.ty, ty);
    }
}

#[test]
fn allsorts_parse_tells_the_errors_apart() {
    let cases = [
        (ParseError::BadEof, ImtErrorTy::FileBadEof),
        (ParseError::BadValue, ImtErrorTy::FileBadValue),
        (ParseError::BadVersion, ImtErrorTy::FileBadVersion),
        (ParseError::BadOffset, ImtErrorTy::FileBadOffset),
        (ParseError::BadIndex, ImtErrorTy::FileBadIndex),
        (ParseError::LimitExceeded, ImtErrorTy::FileLimitExceeded),
        (ParseError::MissingValue, ImtErrorTy::FileMissingValue),
        (ParseError::CompressionError, ImtErrorTy::FileCompressionError),
        (ParseError::NotImplemented, ImtErrorTy::FileGeneric),
    ];
    for (err, ty) in cases {
        let e = ImtError::allsorts_parse(ImtErrorSrc::Hmtx, err);
        assert_eq!(e.src, ImtErrorSrc::Hmtx);
        assert_eq!(e.ty, ty);
    }
}

#[test]
fn allsorts_shaping_is_unimplemented() {
    let e = ImtError::allsorts_shaping(ImtErrorSrc::Gsub, ShapingError::Parse(ParseError::BadEof));
    assert_eq!(e.src, ImtErrorSrc::Gsub);
    assert_eq!(e.ty, ImtErrorTy::Unimplemented);
}
