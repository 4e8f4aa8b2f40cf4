//! Response envelopes: a status code paired with one payload, a payload
//! collection, or a list of error messages.
//!
//! All three share one wire shape: `{"statusCode":<n>,<key>:<payload>}`.
//! The `with_ui` flag of `ApiError` is a local presentation hint and
//! never reaches the wire.
use crate::codec::Codec;
use crate::json::{
    enc_nat, expect_lit, is_digit, lemma_dec_digits_bounds, lemma_parse_u16_of_enc,
    lemma_subrange_split, parse_lit, parse_u16, parse_u16_at, u64_string,
};
use crate::status::{reason_of, StatusCode};
use crate::DecodeError;
use vstd::prelude::*;
use vstd::string::*;

verus! {

/// The deep view of an `ApiItem`.
pub struct ApiItemV<V> {
    pub status_code: u16,
    pub item: V,
}

/// The deep view of an `ApiList`.
pub struct ApiListV<V> {
    pub status_code: u16,
    pub items: Seq<V>,
}

/// The deep view of an `ApiError`.
pub struct ApiErrorV {
    pub status_code: u16,
    pub errors: Seq<Seq<char>>,
    pub with_ui: bool,
}

/// A status code and exactly one payload.
#[derive(Clone, Debug, PartialEq, Eq)]
pub struct ApiItem<T> {
    pub status_code: StatusCode,
    pub item: T,
}

/// A status code and a payload collection.
#[derive(Clone, Debug, PartialEq, Eq)]
pub struct ApiList<T> {
    pub status_code: StatusCode,
    pub items: Vec<T>,
}

/// A status code and one or more human-readable messages.
#[derive(Clone, Debug, PartialEq, Eq)]
pub struct ApiError {
    pub status_code: StatusCode,
    pub errors: Vec<String>,
    pub with_ui: bool,
}

impl<T: DeepView> DeepView for ApiItem<T> {
    type V = ApiItemV<T::V>;

    open spec fn deep_view(&self) -> ApiItemV<T::V> {
        ApiItemV { status_code: self.status_code.code, item: self.item.deep_view() }
    }
}

impl<T: DeepView> DeepView for ApiList<T> {
    type V = ApiListV<T::V>;

    open spec fn deep_view(&self) -> ApiListV<T::V> {
        ApiListV { status_code: self.status_code.code, items: self.items.deep_view() }
    }
}

impl DeepView for ApiError {
    type V = ApiErrorV;

    open spec fn deep_view(&self) -> ApiErrorV {
        ApiErrorV {
            status_code: self.status_code.code,
            errors: self.errors.deep_view(),
            with_ui: self.with_ui,
        }
    }
}

// ---------------------------------------------------------------------
// the shared envelope shape
// ---------------------------------------------------------------------

/// The wire text of an envelope: the status code under its fixed key,
/// then the payload under `key`.
pub open spec fn env_wire<P: Codec>(key: Seq<char>, st: u16, p: P::V) -> Seq<char> {
    "{\"statusCode\":"@ + enc_nat(st as int) + key + P::wire_of(p) + "}"@
}

/// An envelope at position `i`: both fields in their fixed order.
pub open spec fn parse_env_at<P: Codec>(key: Seq<char>, s: Seq<char>, i: int) -> Option<
    ((u16, P::V), int),
> {
    match parse_lit(s, i, "{\"statusCode\":"@) {
        None => None,
        Some(j1) => match parse_u16_at(s, j1) {
            None => None,
            Some((st, j2)) => match parse_lit(s, j2, key) {
                None => None,
                Some(j3) => match P::parse_at(s, j3) {
                    None => None,
                    Some((p, j4)) => match parse_lit(s, j4, "}"@) {
                        None => None,
                        Some(j5) => Some(((st, p), j5)),
                    },
                },
            },
        },
    }
}

proof fn lemma_parse_env_bounds<P: Codec>(key: Seq<char>, s: Seq<char>, i: int)
    requires
        0 <= i <= s.len(),
    ensures
        parse_env_at::<P>(key, s, i) matches Some(r) ==> i < r.1 <= s.len(),
{
    reveal_strlit("{\"statusCode\":");
    if parse_lit(s, i, "{\"statusCode\":"@) is Some {
        let j1 = parse_lit(s, i, "{\"statusCode\":"@)->Some_0;
        if parse_u16_at(s, j1) is Some {
            let (st, j2) = parse_u16_at(s, j1)->Some_0;
            lemma_dec_digits_bounds(s, j1, 0);
            if parse_lit(s, j2, key) is Some {
                let j3 = parse_lit(s, j2, key)->Some_0;
                P::lemma_parse_in_bounds(s, j3);
            }
        }
    }
}

/// Parsing the canonical envelope text gives both fields back.
proof fn lemma_parse_env_of_wire<P: Codec>(key: Seq<char>, st: u16, p: P::V, s: Seq<char>, i: int)
    requires
        key.len() > 0,
        key[0] == ',',
        0 <= i,
        i + env_wire::<P>(key, st, p).len() <= s.len(),
        s.subrange(i, i + env_wire::<P>(key, st, p).len() as int) == env_wire::<P>(key, st, p),
    ensures
        parse_env_at::<P>(key, s, i) == Some(
            ((st, p), i + env_wire::<P>(key, st, p).len() as int),
        ),
{
    let l1 = "{\"statusCode\":"@;
    let num = enc_nat(st as int);
    let pw = P::wire_of(p);
    let l3 = "}"@;
    let w = env_wire::<P>(key, st, p);
    let rest1 = num + (key + (pw + l3));
    assert(w =~= l1 + rest1);
    lemma_subrange_split(s, i, l1, rest1);
    let j1 = i + l1.len() as int;
    let rest2 = key + (pw + l3);
    assert(s.subrange(j1, j1 + rest1.len() as int) =~= num + rest2);
    lemma_subrange_split(s, j1, num, rest2);
    let j2 = j1 + num.len() as int;
    assert(s.subrange(j2, j2 + rest2.len() as int)[0] == s[j2]);
    assert(s[j2] == key[0]);
    assert(!is_digit(','));
    lemma_parse_u16_of_enc(st, s, j1);
    let rest3 = pw + l3;
    lemma_subrange_split(s, j2, key, rest3);
    let j3 = j2 + key.len() as int;
    lemma_subrange_split(s, j3, pw, l3);
    P::lemma_parse_of_wire(p, s, j3);
    let j4 = j3 + pw.len() as int;
    assert(parse_lit(s, j4, l3) == Some(j4 + l3.len() as int));
    assert(j4 + l3.len() == i + w.len());
}

/// The canonical envelope text for a payload that is already here.
fn env_wire_string<P: Codec>(key: &str, st: u16, p: &P) -> (r: String)
    ensures
        r@ == env_wire::<P>(key@, st, p.deep_view()),
{
    let mut out = String::from_str("{\"statusCode\":");
    let num = u64_string(st as u64);
    out.append(num.as_str());
    out.append(key);
    let pw = p.wire_string();
    out.append(pw.as_str());
    out.append("}");
    assert(out@ =~= env_wire::<P>(key@, st, p.deep_view()));
    out
}

/// Reads one envelope; agrees with `parse_env_at`.
fn parse_env<P: Codec>(key: &str, s: &str, n: usize, i: usize) -> (r: Option<((u16, P), usize)>)
    requires
        n == s@.len(),
        i <= n,
    ensures
        match r {
            Some(((st, p), j)) => parse_env_at::<P>(key@, s@, i as int) == Some(
                ((st, p.deep_view()), j as int),
            ) && i < j <= n,
            None => parse_env_at::<P>(key@, s@, i as int) is None,
        },
{
    let j1 = match expect_lit(s, n, i, "{\"statusCode\":") {
        Some(j) => j,
        None => {
            return None;
        },
    };
    let (st, j2) = match parse_u16(s, n, j1) {
        Some(r) => r,
        None => {
            return None;
        },
    };
    let j3 = match expect_lit(s, n, j2, key) {
        Some(j) => j,
        None => {
            return None;
        },
    };
    let (p, j4) = match P::parse_wire(s, n, j3) {
        Some(r) => r,
        None => {
            return None;
        },
    };
    let j5 = match expect_lit(s, n, j4, "}") {
        Some(j) => j,
        None => {
            return None;
        },
    };
    Some(((st, p), j5))
}

// ---------------------------------------------------------------------
// ApiItem
// ---------------------------------------------------------------------

impl<T> ApiItem<T> {
    /// An "OK" envelope: status 200 with the given payload, unchanged.
    pub fn ok(item: T) -> (r: ApiItem<T>)
        ensures
            r.status_code.code == 200,
            r.item == item,
    {
        ApiItem { status_code: StatusCode::from_u16(200), item }
    }
}

impl<T: Codec> Codec for ApiItem<T> {
    open spec fn wire_of(v: ApiItemV<T::V>) -> Seq<char> {
        env_wire::<T>(",\"item\":"@, v.status_code, v.item)
    }

    open spec fn parse_at(s: Seq<char>, i: int) -> Option<(ApiItemV<T::V>, int)> {
        match parse_env_at::<T>(",\"item\":"@, s, i) {
            Some(((st, it), j)) => Some((ApiItemV { status_code: st, item: it }, j)),
            None => None,
        }
    }

    proof fn lemma_wire_start(v: ApiItemV<T::V>) {
        reveal_strlit("{\"statusCode\":");
        assert(env_wire::<T>(",\"item\":"@, v.status_code, v.item)[0] == '{');
    }

    proof fn lemma_parse_in_bounds(s: Seq<char>, i: int) {
        lemma_parse_env_bounds::<T>(",\"item\":"@, s, i);
    }

    proof fn lemma_parse_of_wire(v: ApiItemV<T::V>, s: Seq<char>, i: int) {
        reveal_strlit(",\"item\":");
        lemma_parse_env_of_wire::<T>(",\"item\":"@, v.status_code, v.item, s, i);
    }

    fn wire_string(&self) -> (r: String) {
        env_wire_string::<T>(",\"item\":", self.status_code.as_u16(), &self.item)
    }

    fn parse_wire(s: &str, n: usize, i: usize) -> (r: Option<(Self, usize)>) {
        match parse_env::<T>(",\"item\":", s, n, i) {
            Some(((st, p), j)) => Some((ApiItem { status_code: StatusCode::from_u16(st), item: p }, j)),
            None => None,
        }
    }
}

// ---------------------------------------------------------------------
// ApiList
// ---------------------------------------------------------------------

impl<T> ApiList<T> {
    /// An "OK" envelope: status 200 with the given collection, unchanged.
    pub fn ok(items: Vec<T>) -> (r: ApiList<T>)
        ensures
            r.status_code.code == 200,
            r.items == items,
    {
        ApiList { status_code: StatusCode::from_u16(200), items }
    }
}

impl<T: Codec> Codec for ApiList<T> {
    open spec fn wire_of(v: ApiListV<T::V>) -> Seq<char> {
        env_wire::<Vec<T>>(",\"items\":"@, v.status_code, v.items)
    }

    open spec fn parse_at(s: Seq<char>, i: int) -> Option<(ApiListV<T::V>, int)> {
        match parse_env_at::<Vec<T>>(",\"items\":"@, s, i) {
            Some(((st, vs), j)) => Some((ApiListV { status_code: st, items: vs }, j)),
            None => None,
        }
    }

    proof fn lemma_wire_start(v: ApiListV<T::V>) {
        reveal_strlit("{\"statusCode\":");
        assert(env_wire::<Vec<T>>(",\"items\":"@, v.status_code, v.items)[0] == '{');
    }

    proof fn lemma_parse_in_bounds(s: Seq<char>, i: int) {
        lemma_parse_env_bounds::<Vec<T>>(",\"items\":"@, s, i);
    }

    proof fn lemma_parse_of_wire(v: ApiListV<T::V>, s: Seq<char>, i: int) {
        reveal_strlit(",\"items\":");
        lemma_parse_env_of_wire::<Vec<T>>(",\"items\":"@, v.status_code, v.items, s, i);
    }

    fn wire_string(&self) -> (r: String) {
        env_wire_string::<Vec<T>>(",\"items\":", self.status_code.as_u16(), &self.items)
    }

    fn parse_wire(s: &str, n: usize, i: usize) -> (r: Option<(Self, usize)>) {
        match parse_env::<Vec<T>>(",\"items\":", s, n, i) {
            Some(((st, vs), j)) => Some(
                (ApiList { status_code: StatusCode::from_u16(st), items: vs }, j),
            ),
            None => None,
        }
    }
}

// ---------------------------------------------------------------------
// ApiError
// ---------------------------------------------------------------------

/// The wire text of an error envelope. The `with_ui` field of the view
/// plays no part in it.
pub open spec fn api_error_wire(v: ApiErrorV) -> Seq<char> {
    env_wire::<Vec<String>>(",\"errors\":"@, v.status_code, v.errors)
}

/// The error envelope whose wire text is exactly `s`. The UI hint is
/// not carried on the wire, so it always comes back cleared.
pub open spec fn api_error_decode(s: Seq<char>) -> Option<ApiErrorV> {
    match parse_env_at::<Vec<String>>(",\"errors\":"@, s, 0) {
        Some(((st, es), j)) => if j == s.len() {
            Some(ApiErrorV { status_code: st, errors: es, with_ui: false })
        } else {
            None
        },
        None => None,
    }
}

impl ApiError {
    /// An error envelope with the given status and messages, which may
    /// be empty here; the convenience constructors below always seed
    /// one message.
    pub fn new(status_code: StatusCode, errors: Vec<String>) -> (r: ApiError)
        ensures
            r.status_code == status_code,
            r.errors == errors,
            !r.with_ui,
    {
        ApiError { status_code, errors, with_ui: false }
    }

    /// Status 400 with the given messages, unchanged.
    pub fn bad_request(errors: Vec<String>) -> (r: ApiError)
        ensures
            r.status_code.code == 400,
            r.errors == errors,
            !r.with_ui,
    {
        ApiError { status_code: StatusCode::from_u16(400), errors, with_ui: false }
    }

    /// The given status, with its standard reason phrase as the one
    /// seeded message.
    pub fn from_status(status_code: StatusCode) -> (r: ApiError)
        ensures
            r.status_code == status_code,
            r.errors@.len() == 1,
            r.errors@[0]@ == reason_of(status_code.code),
            !r.with_ui,
    {
        let mut errors: Vec<String> = Vec::new();
        errors.push(status_code.reason_phrase());
        ApiError { status_code, errors, with_ui: false }
    }

    /// The given status with exactly the one caller-supplied message.
    pub fn from_message(msg: &str, status_code: StatusCode) -> (r: ApiError)
        ensures
            r.status_code == status_code,
            r.errors@.len() == 1,
            r.errors@[0]@ == msg@,
            !r.with_ui,
    {
        let mut errors: Vec<String> = Vec::new();
        errors.push(String::from_str(msg));
        ApiError { status_code, errors, with_ui: false }
    }

    /// Status 401 with its reason phrase.
    pub fn unauthorized() -> (r: ApiError)
        ensures
            r.status_code.code == 401,
            r.errors@.len() == 1,
            r.errors@[0]@ == reason_of(401),
            !r.with_ui,
    {
        Self::from_status(StatusCode::from_u16(401))
    }

    /// Status 501 with its reason phrase.
    pub fn not_implemented() -> (r: ApiError)
        ensures
            r.status_code.code == 501,
            r.errors@.len() == 1,
            r.errors@[0]@ == reason_of(501),
            !r.with_ui,
    {
        Self::from_status(StatusCode::from_u16(501))
    }

    /// Status 404 with its reason phrase.
    pub fn not_found() -> (r: ApiError)
        ensures
            r.status_code.code == 404,
            r.errors@.len() == 1,
            r.errors@[0]@ == reason_of(404),
            !r.with_ui,
    {
        Self::from_status(StatusCode::from_u16(404))
    }

    /// Status 403 with its reason phrase.
    pub fn forbidden() -> (r: ApiError)
        ensures
            r.status_code.code == 403,
            r.errors@.len() == 1,
            r.errors@[0]@ == reason_of(403),
            !r.with_ui,
    {
        Self::from_status(StatusCode::from_u16(403))
    }

    /// Status 422 with its reason phrase.
    pub fn unprocessable_entity() -> (r: ApiError)
        ensures
            r.status_code.code == 422,
            r.errors@.len() == 1,
            r.errors@[0]@ == reason_of(422),
            !r.with_ui,
    {
        Self::from_status(StatusCode::from_u16(422))
    }

    /// Status 500 with its reason phrase.
    pub fn internal_server_error() -> (r: ApiError)
        ensures
            r.status_code.code == 500,
            r.errors@.len() == 1,
            r.errors@[0]@ == reason_of(500),
            !r.with_ui,
    {
        Self::from_status(StatusCode::from_u16(500))
    }

    /// Appends one message. The messages already there stay, in their
    /// order; the length grows by exactly one; nothing else changes.
    pub fn append_error(self, error: String) -> (r: ApiError)
        ensures
            r.status_code == self.status_code,
            r.with_ui == self.with_ui,
            r.errors@ == self.errors@.push(error),
    {
        let mut errors = self.errors;
        errors.push(error);
        ApiError { status_code: self.status_code, errors, with_ui: self.with_ui }
    }

    /// Sets the local-only UI hint; status and messages are untouched.
    pub fn with_ui(self) -> (r: ApiError)
        ensures
            r.status_code == self.status_code,
            r.errors == self.errors,
            r.with_ui,
    {
        ApiError { status_code: self.status_code, errors: self.errors, with_ui: true }
    }

    /// The canonical wire text of this error envelope.
    pub fn to_json(&self) -> (r: String)
        ensures
            r@ == api_error_wire(self.deep_view()),
    {
        env_wire_string::<Vec<String>>(",\"errors\":", self.status_code.as_u16(), &self.errors)
    }

    /// Reads an error envelope from a whole document.
    pub fn from_json(s: &str) -> (r: Result<ApiError, DecodeError>)
        ensures
            match r {
                Ok(e) => api_error_decode(s@) == Some(e.deep_view()) && !e.with_ui,
                Err(_) => api_error_decode(s@) is None,
            },
    {
        let n = s.unicode_len();
        match parse_env::<Vec<String>>(",\"errors\":", s, n, 0) {
            Some(((st, es), j)) => {
                if j == n {
                    Ok(ApiError { status_code: StatusCode::from_u16(st), errors: es, with_ui: false })
                } else {
                    Err(DecodeError)
                }
            },
            None => Err(DecodeError),
        }
    }
}

/// The UI hint never reaches the wire: two error envelopes that agree
/// on status and messages have the same serialized form, whatever
/// their `with_ui` flags.
pub proof fn lemma_with_ui_not_serialized(a: ApiErrorV, b: ApiErrorV)
    requires
        a.status_code == b.status_code,
        a.errors == b.errors,
    ensures
        api_error_wire(a) == api_error_wire(b),
{
}

/// Decoding the wire text of an error envelope gives back its status
/// and messages; the local-only UI hint always comes back cleared.
pub proof fn lemma_api_error_round_trip(v: ApiErrorV)
    ensures
        api_error_decode(api_error_wire(v)) == Some(
            ApiErrorV { status_code: v.status_code, errors: v.errors, with_ui: false },
        ),
{
    reveal_strlit(",\"errors\":");
    let w = api_error_wire(v);
    assert(w.subrange(0, w.len() as int) =~= w);
    lemma_parse_env_of_wire::<Vec<String>>(",\"errors\":"@, v.status_code, v.errors, w, 0);
}

} // verus!
