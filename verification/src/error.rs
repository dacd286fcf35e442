//! Error types for COPY binary decode and encode.
use crate::schema::PgType;
use vstd::prelude::*;

verus! {

/// Why a decode or an encode was refused.
#[allow(inconsistent_fields)]
#[derive(Debug, PartialEq, Eq)]
pub enum Error {
    MalformedInput { reason: &'static str },
    UnknownArrayElementOid { column: String, element_oid: u32 },
    InvalidArrayDimensionLength { column: String, got: i32 },
    InvalidMagic,
    InvalidHeader { reason: &'static str },
    UnexpectedEof { expected: usize, available: usize },
    InvalidFooter,
    FieldCountMismatch { expected: i16, got: i16 },
    TooManyColumns { max: i16, got: usize },
    FieldTooLarge { len: i64 },
    UnexpectedNull { column: String },
    TypeMismatch { column: String, expected: PgType, got: String },
    InvalidPayload { column: String, ty: PgType, reason: &'static str },
    ArrayElementOidMismatch { column: String, expected: PgType, element_oid: u32 },
    InvalidArrayHasNulls { column: String, got: i32 },
    UnsupportedType(PgType),
    SchemaRowLengthMismatch { expected: usize, got: usize },
}

/// The content of an [`Error`], with strings as their characters.
#[allow(inconsistent_fields)]
pub enum ErrorV {
    MalformedInput { reason: Seq<char> },
    UnknownArrayElementOid { column: Seq<char>, element_oid: u32 },
    InvalidArrayDimensionLength { column: Seq<char>, got: i32 },
    InvalidMagic,
    InvalidHeader { reason: Seq<char> },
    UnexpectedEof { expected: usize, available: usize },
    InvalidFooter,
    FieldCountMismatch { expected: i16, got: i16 },
    TooManyColumns { max: i16, got: usize },
    FieldTooLarge { len: i64 },
    UnexpectedNull { column: Seq<char> },
    TypeMismatch { column: Seq<char>, expected: PgType, got: Seq<char> },
    InvalidPayload { column: Seq<char>, ty: PgType, reason: Seq<char> },
    ArrayElementOidMismatch { column: Seq<char>, expected: PgType, element_oid: u32 },
    InvalidArrayHasNulls { column: Seq<char>, got: i32 },
    UnsupportedType(PgType),
    SchemaRowLengthMismatch { expected: usize, got: usize },
}

impl View for Error {
    type V = ErrorV;

    open spec fn view(&self) -> ErrorV {
        match self {
            Error::MalformedInput { reason } => ErrorV::MalformedInput { reason: reason@ },
            Error::UnknownArrayElementOid { column, element_oid } => ErrorV::UnknownArrayElementOid {
                column: column@,
                element_oid: *element_oid,
            },
            Error::InvalidArrayDimensionLength { column, got } => ErrorV::InvalidArrayDimensionLength {
                column: column@,
                got: *got,
            },
            Error::InvalidMagic => ErrorV::InvalidMagic,
            Error::InvalidHeader { reason } => ErrorV::InvalidHeader { reason: reason@ },
            Error::UnexpectedEof { expected, available } => ErrorV::UnexpectedEof {
                expected: *expected,
                available: *available,
            },
            Error::InvalidFooter => ErrorV::InvalidFooter,
            Error::FieldCountMismatch { expected, got } => ErrorV::FieldCountMismatch {
                expected: *expected,
                got: *got,
            },
            Error::TooManyColumns { max, got } => ErrorV::TooManyColumns { max: *max, got: *got },
            Error::FieldTooLarge { len } => ErrorV::FieldTooLarge { len: *len },
            Error::UnexpectedNull { column } => ErrorV::UnexpectedNull { column: column@ },
            Error::TypeMismatch { column, expected, got } => ErrorV::TypeMismatch {
                column: column@,
                expected: *expected,
                got: got@,
            },
            Error::InvalidPayload { column, ty, reason } => ErrorV::InvalidPayload {
                column: column@,
                ty: *ty,
                reason: reason@,
            },
            Error::ArrayElementOidMismatch { column, expected, element_oid } =>
                ErrorV::ArrayElementOidMismatch {
                column: column@,
                expected: *expected,
                element_oid: *element_oid,
            },
            Error::InvalidArrayHasNulls { column, got } => ErrorV::InvalidArrayHasNulls {
                column: column@,
                got: *got,
            },
            Error::UnsupportedType(t) => ErrorV::UnsupportedType(*t),
            Error::SchemaRowLengthMismatch { expected, got } => ErrorV::SchemaRowLengthMismatch {
                expected: *expected,
                got: *got,
            },
        }
    }
}

/// The error for an invalid payload in column `column` of type `ty`.
pub open spec fn ip(column: Seq<char>, ty: PgType, reason: Seq<char>) -> ErrorV {
    ErrorV::InvalidPayload { column, ty, reason }
}

/// The content of a result whose success carries no data.
pub open spec fn unit_result_view(r: Result<(), Error>) -> Result<(), ErrorV> {
    match r {
        Ok(()) => Ok(()),
        Err(e) => Err(e@),
    }
}

} // verus!
