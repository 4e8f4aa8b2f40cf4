//! HTTP status codes: the wire carries the bare number; the registry of
//! standard codes supplies the human-readable reason phrase.
use vstd::prelude::*;

verus! {

/// The reason phrase the standard registry gives for a status code
/// number: "Not Found" for 404, and the empty string for a number
/// outside the registry.
pub uninterp spec fn reason_of(code: u16) -> Seq<char>;

/// An HTTP status code, held as its numeric value.
///
/// Every sixteen-bit number is accepted: decoding never fails, and a
/// number outside the standard registry simply has an empty reason
/// phrase. Encoding is the numeric value itself, so the pair of
/// `from_u16` and `as_u16` is lossless.
#[derive(Clone, Copy, Debug, PartialEq, Eq, Structural)]
pub struct StatusCode {
    pub code: u16,
}

impl StatusCode {
    /// Decode a wire value. Total: every number is accepted.
    pub fn from_u16(code: u16) -> (r: StatusCode)
        ensures
            r.code == code,
    {
        StatusCode { code }
    }

    /// Encode to the wire value.
    pub fn as_u16(&self) -> (r: u16)
        ensures
            r == self.code,
    {
        self.code
    }

    /// Relies on httpstatus::StatusCode: `From<u16>` is total (an
    /// unregistered number becomes the `Unknown` variant), and
    /// `reason_phrase` is a pure lookup over the code alone, returning
    /// the registry's phrase and "" for `Unknown`.
    #[verifier::external_body]
    pub fn reason_phrase(&self) -> (r: String)
        ensures
            r@ == reason_of(self.code),
    {
        httpstatus::StatusCode::from(self.code).reason_phrase().to_string()
    }
}

} // verus!
