//! The unified error taxonomy of the crate.
//!
//! Every failing read or write aborts the whole call chain and surfaces one
//! of these terminal errors; there is no local recovery or partial result.

use vstd::prelude::*;

verus! {

/// Errors of the embedded bytecode layer, carried through [`Error`] so that
/// every component propagates a single error type.
#[derive(Debug)]
pub enum KismetError {
    InvalidToken(String),
    UnknownExpression(String),
}

impl KismetError {
    /// The message carried by the error, for display.
    pub fn message(&self) -> (r: String)
        ensures
            match *self {
                KismetError::InvalidToken(m) => r@ == m@,
                KismetError::UnknownExpression(m) => r@ == m@,
            },
    {
        match self {
            KismetError::InvalidToken(m) => m.clone(),
            KismetError::UnknownExpression(m) => m.clone(),
        }
    }

    pub fn token(msg: String) -> (r: Self)
        ensures
            r == KismetError::InvalidToken(msg),
    {
        KismetError::InvalidToken(msg)
    }

    pub fn expression(msg: String) -> (r: Self)
        ensures
            r == KismetError::UnknownExpression(msg),
    {
        KismetError::UnknownExpression(msg)
    }
}

/// The kind of a terminal error, with its message.
#[derive(Debug)]
pub enum ErrorCode {
    /// The byte stream ended before a read was satisfied.
    Io(String),
    /// A structural or semantic inconsistency in the input.
    InvalidFile(String),
    /// Sign validation of a package index failed.
    InvalidPackageIndex(String),
    /// A serialized enum or flags bitfield held an undefined value.
    InvalidEnumValue(String),
    /// A recognized but unhandled variant was encountered.
    Unimplemented(String),
    /// An error of the bytecode layer.
    Kismet(KismetError),
}

/// The single error type that every fallible operation of the crate returns.
#[derive(Debug)]
pub struct Error {
    pub code: ErrorCode,
}

impl Error {
    /// The message carried by the error, for display.
    pub fn message(&self) -> (r: String)
        ensures
            match self.code {
                ErrorCode::Io(m) => r@ == m@,
                ErrorCode::InvalidFile(m) => r@ == m@,
                ErrorCode::InvalidPackageIndex(m) => r@ == m@,
                ErrorCode::InvalidEnumValue(m) => r@ == m@,
                ErrorCode::Unimplemented(m) => r@ == m@,
                ErrorCode::Kismet(k) => match k {
                    KismetError::InvalidToken(m) => r@ == m@,
                    KismetError::UnknownExpression(m) => r@ == m@,
                },
            },
    {
        match &self.code {
            ErrorCode::Io(m) => m.clone(),
            ErrorCode::InvalidFile(m) => m.clone(),
            ErrorCode::InvalidPackageIndex(m) => m.clone(),
            ErrorCode::InvalidEnumValue(m) => m.clone(),
            ErrorCode::Unimplemented(m) => m.clone(),
            ErrorCode::Kismet(k) => k.message(),
        }
    }

    pub open spec fn is_io(self) -> bool {
        self.code is Io
    }

    pub open spec fn is_invalid_file(self) -> bool {
        self.code is InvalidFile
    }

    pub open spec fn is_invalid_package_index(self) -> bool {
        self.code is InvalidPackageIndex
    }

    pub open spec fn is_invalid_enum_value(self) -> bool {
        self.code is InvalidEnumValue
    }

    pub fn io(msg: String) -> (r: Self)
        ensures
            r.code == ErrorCode::Io(msg),
    {
        Error { code: ErrorCode::Io(msg) }
    }

    pub fn invalid_file(msg: String) -> (r: Self)
        ensures
            r.code == ErrorCode::InvalidFile(msg),
    {
        Error { code: ErrorCode::InvalidFile(msg) }
    }

    pub fn invalid_package_index(msg: String) -> (r: Self)
        ensures
            r.code == ErrorCode::InvalidPackageIndex(msg),
    {
        Error { code: ErrorCode::InvalidPackageIndex(msg) }
    }

    pub fn invalid_enum_value(msg: String) -> (r: Self)
        ensures
            r.code == ErrorCode::InvalidEnumValue(msg),
    {
        Error { code: ErrorCode::InvalidEnumValue(msg) }
    }

    pub fn unimplemented(msg: String) -> (r: Self)
        ensures
            r.code == ErrorCode::Unimplemented(msg),
    {
        Error { code: ErrorCode::Unimplemented(msg) }
    }

    pub fn kismet(e: KismetError) -> (r: Self)
        ensures
            r.code == ErrorCode::Kismet(e),
    {
        Error { code: ErrorCode::Kismet(e) }
    }
}

} // verus!
