use vstd::prelude::*;

verus! {

/// The error kinds a connection can fail with. Parsing failures use
/// `InvalidRequest` and `InvalidMethod`; `Io` stands for a failed read or
/// write on the connection; `InvalidEncoding` and `InvalidProtocol` are
/// reserved for decoding and protocol violations not otherwise classified.
#[derive(Clone, Copy, Debug, PartialEq, Eq, Structural)]
pub enum Error {
    InvalidRequest,
    InvalidEncoding,
    InvalidProtocol,
    InvalidMethod,
    Io,
}

impl Error {
    /// A short human-readable name for the error kind.
    pub fn message(&self) -> (r: &'static str)
        ensures
            *self == Error::InvalidRequest ==> r@ == "InvalidRequest"@,
            *self == Error::InvalidEncoding ==> r@ == "InvalidEncoding"@,
            *self == Error::InvalidProtocol ==> r@ == "InvalidProtocol"@,
            *self == Error::InvalidMethod ==> r@ == "InvalidMethod"@,
            *self == Error::Io ==> r@ == "Io"@,
    {
        match self {
            Error::InvalidRequest => "InvalidRequest",
            Error::InvalidEncoding => "InvalidEncoding",
            Error::InvalidProtocol => "InvalidProtocol",
            Error::InvalidMethod => "InvalidMethod",
            Error::Io => "Io",
        }
    }
}

} // verus!
