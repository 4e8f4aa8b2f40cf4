//! Shared data-transfer records — challenges, directory listings, and
//! generic API response envelopes — with a verified textual wire codec.
pub mod challenge;
pub mod codec;
pub mod files;
pub mod json;
pub mod response;
pub mod shape;
pub mod status;

pub use challenge::{Challenge, ChallengeV};
pub use codec::{decode_spec, Codec};
pub use files::{Directory, DirectoryV};
pub use response::{ApiError, ApiErrorV, ApiItem, ApiItemV, ApiList, ApiListV};
pub use status::StatusCode;

use vstd::prelude::*;
use vstd::string::*;

verus! {

/// A wire document could not be converted to a value.
#[derive(Clone, Copy, Debug, PartialEq, Eq, Structural)]
pub struct DecodeError;

/// An absolute point in time, held as whole milliseconds since the Unix
/// epoch (1970-01-01T00:00:00Z), in UTC.
#[derive(Clone, Copy, Debug, PartialEq, Eq, Structural)]
pub struct Timestamp {
    pub millis: i64,
}

impl Timestamp {
    /// Decode a wire value: a count of milliseconds since the epoch.
    /// Total: every representable integer is a valid time.
    pub fn from_millis(millis: i64) -> (r: Timestamp)
        ensures
            r.millis == millis,
    {
        Timestamp { millis }
    }

    /// Encode to the wire value: milliseconds since the epoch.
    pub fn as_millis(&self) -> (r: i64)
        ensures
            r == self.millis,
    {
        self.millis
    }
}

/// Round trip for challenge records: decoding the encoded wire document
/// of any challenge gives the challenge back, field for field. The
/// timestamps are whole milliseconds, so nothing is lost to truncation.
pub proof fn lemma_challenge_round_trip(c: Challenge)
    ensures
        decode_spec::<Challenge>(Challenge::wire_of(c.deep_view())) == Some(c.deep_view()),
{
    codec::lemma_decode_of_encode::<Challenge>(c.deep_view());
}

/// Round trip for item envelopes: for any serializable payload type,
/// deserializing the serialized form of `ApiItem::ok(x)` gives back an
/// equal envelope.
pub proof fn lemma_api_item_round_trip<T: Codec>(e: ApiItem<T>)
    ensures
        decode_spec::<ApiItem<T>>(ApiItem::<T>::wire_of(e.deep_view())) == Some(e.deep_view()),
{
    codec::lemma_decode_of_encode::<ApiItem<T>>(e.deep_view());
}

/// The same round trip for list envelopes.
pub proof fn lemma_api_list_round_trip<T: Codec>(e: ApiList<T>)
    ensures
        decode_spec::<ApiList<T>>(ApiList::<T>::wire_of(e.deep_view())) == Some(e.deep_view()),
{
    codec::lemma_decode_of_encode::<ApiList<T>>(e.deep_view());
}

/// The canonical wire document for a value.
pub fn to_json<T: Codec>(v: &T) -> (r: String)
    ensures
        r@ == T::wire_of(v.deep_view()),
{
    v.wire_string()
}

/// Reads a value from a whole wire document; fails exactly when the
/// document is not the wire text of one value.
pub fn from_json<T: Codec>(s: &str) -> (r: Result<T, DecodeError>)
    ensures
        match r {
            Ok(v) => decode_spec::<T>(s@) == Some(v.deep_view()),
            Err(_) => decode_spec::<T>(s@) is None,
        },
{
    let n = s.unicode_len();
    match T::parse_wire(s, n, 0) {
        Some((v, j)) => if j == n {
            Ok(v)
        } else {
            Err(DecodeError)
        },
        None => Err(DecodeError),
    }
}

} // verus!
