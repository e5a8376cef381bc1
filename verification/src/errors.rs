//! The error taxonomy for a conversion request.

use vstd::prelude::*;

verus! {

/// Why a conversion request failed.
///
/// The first three variants are caused by the client's request; the last
/// two are faults of the transport or of the server itself.
#[derive(Debug)]
pub enum Error {
    /// The declared or streamed payload size exceeds the configured maximum.
    PayloadTooLarge,
    /// Sniffing or decoding the source bytes failed.
    UnsupportedOrCorruptInput,
    /// The source is a well-formed container, but converting it into the
    /// requested target is not offered.
    UnsupportedConversion,
    /// A network error occurred while reaching the source.
    TransportFailure,
    /// The encoder failed while producing the target container.
    EncodeFailure,
}

impl Error {
    /// True exactly for the errors caused by the client's request, which
    /// are reported in a different status class than server-side faults.
    pub fn is_client_error(&self) -> (r: bool)
        ensures
            r == (self is PayloadTooLarge || self is UnsupportedOrCorruptInput || self
                is UnsupportedConversion),
    {
        match self {
            Error::PayloadTooLarge => true,
            Error::UnsupportedOrCorruptInput => true,
            Error::UnsupportedConversion => true,
            Error::TransportFailure => false,
            Error::EncodeFailure => false,
        }
    }
}

} // verus!
