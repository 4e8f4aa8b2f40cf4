//! Plain shape descriptions of the records: field name, wire name and
//! value kind, for an external schema generator to consume.
use vstd::prelude::*;
use vstd::string::*;

verus! {

/// The kind of value a field carries on the wire.
#[derive(Clone, Copy, Debug, PartialEq, Eq, Structural)]
pub enum FieldKind {
    /// A quoted string.
    Text,
    /// An integer count of milliseconds since the Unix epoch.
    Milliseconds,
    /// `true` or `false`.
    Flag,
    /// A bare HTTP status code number.
    Status,
    /// An array of quoted strings.
    TextList,
    /// One serializable payload value.
    Payload,
    /// An array of serializable payload values.
    PayloadList,
}

/// One field of a record: its name in the language, its name on the
/// wire, and the kind of value it carries.
#[derive(Clone, Debug, PartialEq, Eq)]
pub struct FieldShape {
    pub name: String,
    pub wire_name: String,
    pub kind: FieldKind,
}

fn field(name: &str, wire_name: &str, kind: FieldKind) -> (r: FieldShape)
    ensures
        r.name@ == name@,
        r.wire_name@ == wire_name@,
        r.kind == kind,
{
    FieldShape { name: String::from_str(name), wire_name: String::from_str(wire_name), kind }
}

/// The shape of a challenge record.
pub fn challenge_shape() -> (r: Vec<FieldShape>)
    ensures
        r@.len() == 7,
        r@[0].name@ == "id"@ && r@[0].wire_name@ == "id"@ && r@[0].kind == FieldKind::Text,
        r@[1].name@ == "title"@ && r@[1].wire_name@ == "title"@ && r@[1].kind == FieldKind::Text,
        r@[2].name@ == "why"@ && r@[2].wire_name@ == "why"@ && r@[2].kind == FieldKind::Text,
        r@[3].name@ == "note"@ && r@[3].wire_name@ == "note"@ && r@[3].kind == FieldKind::Text,
        r@[4].name@ == "start_at_ms"@ && r@[4].wire_name@ == "startedAt"@ && r@[4].kind
            == FieldKind::Milliseconds,
        r@[5].name@ == "end_at_ms"@ && r@[5].wire_name@ == "endAt"@ && r@[5].kind
            == FieldKind::Milliseconds,
        r@[6].name@ == "finished"@ && r@[6].wire_name@ == "finished"@ && r@[6].kind
            == FieldKind::Flag,
{
    let mut r: Vec<FieldShape> = Vec::new();
    r.push(field("id", "id", FieldKind::Text));
    r.push(field("title", "title", FieldKind::Text));
    r.push(field("why", "why", FieldKind::Text));
    r.push(field("note", "note", FieldKind::Text));
    r.push(field("start_at_ms", "startedAt", FieldKind::Milliseconds));
    r.push(field("end_at_ms", "endAt", FieldKind::Milliseconds));
    r.push(field("finished", "finished", FieldKind::Flag));
    r
}

/// The shape of a directory record.
pub fn directory_shape() -> (r: Vec<FieldShape>)
    ensures
        r@.len() == 1,
        r@[0].name@ == "children"@ && r@[0].wire_name@ == "children"@ && r@[0].kind
            == FieldKind::TextList,
{
    let mut r: Vec<FieldShape> = Vec::new();
    r.push(field("children", "children", FieldKind::TextList));
    r
}

/// The shape of an item envelope.
pub fn api_item_shape() -> (r: Vec<FieldShape>)
    ensures
        r@.len() == 2,
        r@[0].name@ == "status_code"@ && r@[0].wire_name@ == "statusCode"@ && r@[0].kind
            == FieldKind::Status,
        r@[1].name@ == "item"@ && r@[1].wire_name@ == "item"@ && r@[1].kind == FieldKind::Payload,
{
    let mut r: Vec<FieldShape> = Vec::new();
    r.push(field("status_code", "statusCode", FieldKind::Status));
    r.push(field("item", "item", FieldKind::Payload));
    r
}

/// The shape of a list envelope.
pub fn api_list_shape() -> (r: Vec<FieldShape>)
    ensures
        r@.len() == 2,
        r@[0].name@ == "status_code"@ && r@[0].wire_name@ == "statusCode"@ && r@[0].kind
            == FieldKind::Status,
        r@[1].name@ == "items"@ && r@[1].wire_name@ == "items"@ && r@[1].kind
            == FieldKind::PayloadList,
{
    let mut r: Vec<FieldShape> = Vec::new();
    r.push(field("status_code", "statusCode", FieldKind::Status));
    r.push(field("items", "items", FieldKind::PayloadList));
    r
}

/// The shape of an error envelope: only what reaches the wire, so the
/// local-only UI hint is absent.
pub fn api_error_shape() -> (r: Vec<FieldShape>)
    ensures
        r@.len() == 2,
        r@[0].name@ == "status_code"@ && r@[0].wire_name@ == "statusCode"@ && r@[0].kind
            == FieldKind::Status,
        r@[1].name@ == "errors"@ && r@[1].wire_name@ == "errors"@ && r@[1].kind
            == FieldKind::TextList,
{
    let mut r: Vec<FieldShape> = Vec::new();
    r.push(field("status_code", "statusCode", FieldKind::Status));
    r.push(field("errors", "errors", FieldKind::TextList));
    r
}

} // verus!
