use allsorts::error::{ParseError, ShapingError};
use vstd::prelude::*;

verus! {

/// The subsystem in which an error arose.
#[derive(Clone, Copy, Debug, PartialEq, Eq, Structural)]
pub enum ImtErrorSrc {
    Unknown,
    File,
    Cmap,
    Maxp,
    GDEF,
    GPOS,
    Hhea,
    Hmtx,
    Head,
    Loca,
    Glyf,
    Gsub,
    GsubInfo,
    Glyph,
    Bitmap,
    Vhea,
    Ilmenite,
    Shaper,
}

/// What went wrong.
#[derive(Clone, Debug, PartialEq)]
pub enum ImtErrorTy {
    Unimplemented,
    FileRead,
    FileGeneric,
    FileBadEof,
    FileBadValue,
    FileBadVersion,
    FileBadOffset,
    FileBadIndex,
    FileLimitExceeded,
    FileMissingValue,
    FileCompressionError,
    FileUnsupportedFormat,
    FileMissingTable,
    FileMissingSubTable,
    MissingIndex,
    MissingGlyph,
    MissingFont,
    UnimplementedDataTy,
    Other(String),
}

/// An error together with the subsystem that raised it.
#[derive(Clone, Debug, PartialEq)]
pub struct ImtError {
    pub src: ImtErrorSrc,
    pub ty: ImtErrorTy,
}

/// The ways in which reading binary font data can fail.
#[derive(Clone, Copy, Debug, PartialEq, Eq, Structural)]
pub enum ImtParseFailure {
    BadEof,
    BadValue,
    BadVersion,
    BadOffset,
    BadIndex,
    LimitExceeded,
    MissingValue,
    CompressionError,
    NotImplemented,
}

/// `allsorts::error::ParseError`, read as the font reader declares it: nine
/// variants without fields.
#[verifier::external_type_specification]
pub struct ExParseError(ParseError);

/// `allsorts::error::ShapingError`, carried through unread.
#[verifier::external_type_specification]
#[verifier::external_body]
pub struct ExShapingError(ShapingError);

/// The failure that a parse error of the font reader stands for.
pub open spec fn parse_failure_of(err: ParseError) -> ImtParseFailure {
    match err {
        ParseError::BadEof => ImtParseFailure::BadEof,
        ParseError::BadValue => ImtParseFailure::BadValue,
        ParseError::BadVersion => ImtParseFailure::BadVersion,
        ParseError::BadOffset => ImtParseFailure::BadOffset,
        ParseError::BadIndex => ImtParseFailure::BadIndex,
        ParseError::LimitExceeded => ImtParseFailure::LimitExceeded,
        ParseError::MissingValue => ImtParseFailure::MissingValue,
        ParseError::CompressionError => ImtParseFailure::CompressionError,
        ParseError::NotImplemented => ImtParseFailure::NotImplemented,
    }
}

impl ImtParseFailure {
    /// The failure that `err` stands for.
    pub fn of(err: &ParseError) -> (kind: Self)
        ensures
            kind == parse_failure_of(*err),
    {
        match err {
            ParseError::BadEof => ImtParseFailure::BadEof,
            ParseError::BadValue => ImtParseFailure::BadValue,
            ParseError::BadVersion => ImtParseFailure::BadVersion,
            ParseError::BadOffset => ImtParseFailure::BadOffset,
            ParseError::BadIndex => ImtParseFailure::BadIndex,
            ParseError::LimitExceeded => ImtParseFailure::LimitExceeded,
            ParseError::MissingValue => ImtParseFailure::MissingValue,
            ParseError::CompressionError => ImtParseFailure::CompressionError,
            ParseError::NotImplemented => ImtParseFailure::NotImplemented,
        }
    }

    /// The error type reported for this failure.
    pub open spec fn error_ty(self) -> ImtErrorTy {
        match self {
            ImtParseFailure::BadEof => ImtErrorTy::FileBadEof,
            ImtParseFailure::BadValue => ImtErrorTy::FileBadValue,
            ImtParseFailure::BadVersion => ImtErrorTy::FileBadVersion,
            ImtParseFailure::BadOffset => ImtErrorTy::FileBadOffset,
            ImtParseFailure::BadIndex => ImtErrorTy::FileBadIndex,
            ImtParseFailure::LimitExceeded => ImtErrorTy::FileLimitExceeded,
            ImtParseFailure::MissingValue => ImtErrorTy::FileMissingValue,
            ImtParseFailure::CompressionError => ImtErrorTy::FileCompressionError,
            ImtParseFailure::NotImplemented => ImtErrorTy::FileGeneric,
        }
    }
}

impl ImtError {
    /// The error for functionality that does not exist yet.
    pub fn unimplemented() -> (e: Self)
        ensures
            e.src == ImtErrorSrc::Unknown,
            e.ty == ImtErrorTy::Unimplemented,
    {
        Self::src_and_ty(ImtErrorSrc::Unknown, ImtErrorTy::Unimplemented)
    }

    /// The error `ty` of the subsystem `src`.
    pub fn src_and_ty(src: ImtErrorSrc, ty: ImtErrorTy) -> (e: Self)
        ensures
            e.src == src,
            e.ty == ty,
    {
        ImtError { src, ty }
    }

    /// The error for a known parse failure in subsystem `src`.
    pub fn parse_failure(src: ImtErrorSrc, kind: ImtParseFailure) -> (e: Self)
        ensures
            e.src == src,
            e.ty == kind.error_ty(),
    {
        let ty = match kind {
            ImtParseFailure::BadEof => ImtErrorTy::FileBadEof,
            ImtParseFailure::BadValue => ImtErrorTy::FileBadValue,
            ImtParseFailure::BadVersion => ImtErrorTy::FileBadVersion,
            ImtParseFailure::BadOffset => ImtErrorTy::FileBadOffset,
            ImtParseFailure::BadIndex => ImtErrorTy::FileBadIndex,
            ImtParseFailure::LimitExceeded => ImtErrorTy::FileLimitExceeded,
            ImtParseFailure::MissingValue => ImtErrorTy::FileMissingValue,
            ImtParseFailure::CompressionError => ImtErrorTy::FileCompressionError,
            ImtParseFailure::NotImplemented => ImtErrorTy::FileGeneric,
        };
        ImtError { src, ty }
    }

    /// Maps a parse error of the font reader to an error of subsystem `src`.
    pub fn allsorts_parse(src: ImtErrorSrc, err: ParseError) -> (e: Self)
        ensures
            e.src == src,
            e.ty == parse_failure_of(err).error_ty(),
    {
        let kind = ImtParseFailure::of(&err);
        Self::parse_failure(src, kind)
    }

    /// Shaping errors are not told apart: each is reported as unimplemented.
    pub fn allsorts_shaping(src: ImtErrorSrc, err: ShapingError) -> (e: Self)
        ensures
            e.src == src,
            e.ty == ImtErrorTy::Unimplemented,
    {
        let _ = err;
        Self::src_and_ty(src, ImtErrorTy::Unimplemented)
    }
}

} // verus!
