use vstd::prelude::*;

verus! {

/// Errors reported by the decoding pipeline. Each kind exists bare and with
/// a message.
#[derive(Debug, PartialEq, Eq, Clone)]
pub enum Error {
    InvalidArgument,
    InvalidArgumentMessage(String),
    UnsupportedOperation,
    UnsupportedOperationMessage(String),
    InvalidState,
    InvalidStateMessage(String),
    Arithmetic,
    ArithmeticMessage(String),
    NotFound,
    NotFoundMessage(String),
    InvalidFormat,
    InvalidFormatMessage(String),
    Checksum,
    ChecksumMessage(String),
    Reader,
    ReaderMessage(String),
    Writer,
    WriterMessage(String),
    Runtime,
    RuntimeMessage(String),
    Parse,
    ParseMessage(String),
    ReaderDecode,
    IndexOutOfBounds,
}

impl Error {
    /// Builds the `InvalidArgument` kind carrying `message`.
    pub fn invalid_argument(message: String) -> (res: Self)
        ensures
            res == Error::InvalidArgumentMessage(message),
    {
        Error::InvalidArgumentMessage(message)
    }

    /// Builds the `UnsupportedOperation` kind carrying `message`.
    pub fn unsupported_operation(message: String) -> (res: Self)
        ensures
            res == Error::UnsupportedOperationMessage(message),
    {
        Error::UnsupportedOperationMessage(message)
    }

    /// Builds the `InvalidState` kind carrying `message`.
    pub fn invalid_state(message: String) -> (res: Self)
        ensures
            res == Error::InvalidStateMessage(message),
    {
        Error::InvalidStateMessage(message)
    }

    /// Builds the `Arithmetic` kind carrying `message`.
    pub fn arithmetic(message: String) -> (res: Self)
        ensures
            res == Error::ArithmeticMessage(message),
    {
        Error::ArithmeticMessage(message)
    }

    /// Builds the `NotFound` kind carrying `message`.
    pub fn not_found(message: String) -> (res: Self)
        ensures
            res == Error::NotFoundMessage(message),
    {
        Error::NotFoundMessage(message)
    }

    /// Builds the `InvalidFormat` kind carrying `message`.
    pub fn invalid_format(message: String) -> (res: Self)
        ensures
            res == Error::InvalidFormatMessage(message),
    {
        Error::InvalidFormatMessage(message)
    }

    /// Builds the `Checksum` kind carrying `message`.
    pub fn checksum(message: String) -> (res: Self)
        ensures
            res == Error::ChecksumMessage(message),
    {
        Error::ChecksumMessage(message)
    }

    /// Builds the `Reader` kind carrying `message`.
    pub fn reader(message: String) -> (res: Self)
        ensures
            res == Error::ReaderMessage(message),
    {
        Error::ReaderMessage(message)
    }

    /// Builds the `Writer` kind carrying `message`.
    pub fn writer(message: String) -> (res: Self)
        ensures
            res == Error::WriterMessage(message),
    {
        Error::WriterMessage(message)
    }

    /// Builds the `Runtime` kind carrying `message`.
    pub fn runtime(message: String) -> (res: Self)
        ensures
            res == Error::RuntimeMessage(message),
    {
        Error::RuntimeMessage(message)
    }

    /// Builds the `Parse` kind carrying `message`.
    pub fn parse(message: String) -> (res: Self)
        ensures
            res == Error::ParseMessage(message),
    {
        Error::ParseMessage(message)
    }

    /// Whether this error is of the invalid-format kind, with or without a message.
    pub fn is_invalid_format(&self) -> (res: bool)
        ensures
            res == (self is InvalidFormat || self is InvalidFormatMessage),
    {
        matches!(self, Error::InvalidFormat | Error::InvalidFormatMessage(_))
    }

    /// Whether this error is of the checksum kind, with or without a message.
    pub fn is_checksum(&self) -> (res: bool)
        ensures
            res == (self is Checksum || self is ChecksumMessage),
    {
        matches!(self, Error::Checksum | Error::ChecksumMessage(_))
    }
}

} // verus!
