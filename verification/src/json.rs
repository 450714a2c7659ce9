//! Flat JSON objects.

use vstd::prelude::*;

verus! {

/// A value to write.
pub enum JsonField {
    Text(String),
    Number(u64),
}

/// What a member of an object turned out to be.
pub enum JsonMember {
    Text(String),
    /// A number, with its value if that is one of `u64`.
    Number(Option<u64>),
    /// Some other value.
    Other,
    /// The object has no such member.
    Missing,
}

/// A member without its representation.
pub enum MemberView {
    Text(Seq<char>),
    Number(Option<u64>),
    Other,
    Missing,
}

impl View for JsonField {
    type V = MemberView;

    open spec fn view(&self) -> MemberView {
        match self {
            JsonField::Text(s) => MemberView::Text(s@),
            JsonField::Number(n) => MemberView::Number(Some(*n)),
        }
    }
}

impl View for JsonMember {
    type V = MemberView;

    open spec fn view(&self) -> MemberView {
        match self {
            JsonMember::Text(s) => MemberView::Text(s@),
            JsonMember::Number(n) => MemberView::Number(*n),
            JsonMember::Other => MemberView::Other,
            JsonMember::Missing => MemberView::Missing,
        }
    }
}

/// The fields of a list.
pub open spec fn field_views(v: Seq<(String, JsonField)>) -> Seq<(Seq<char>, MemberView)> {
    v.map_values(|f: (String, JsonField)| (f.0@, f.1@))
}

/// The object that the fields make up. Of several fields of one name the last
/// one counts.
pub open spec fn object_of(fields: Seq<(Seq<char>, MemberView)>) -> Map<Seq<char>, MemberView>
    decreases fields.len(),
{
    if fields.len() == 0 {
        Map::empty()
    } else {
        object_of(fields.drop_last()).insert(fields.last().0, fields.last().1)
    }
}

/// The member of that name.
pub open spec fn member_named(members: Map<Seq<char>, MemberView>, key: Seq<char>) -> MemberView {
    if members.contains_key(key) {
        members[key]
    } else {
        MemberView::Missing
    }
}

/// `serde_json::Value`: a JSON text that was read.
#[verifier::external_type_specification]
#[verifier::external_body]
pub struct ExValue(serde_json::Value);

/// The members of a `serde_json::Value`; what is no object has none.
pub uninterp spec fn members_of(doc: serde_json::Value) -> Map<Seq<char>, MemberView>;

/// The members of what `serde_json::from_str` reads in a text, or the text
/// that its error displays.
pub uninterp spec fn json_document(payload: Seq<char>) -> Result<
    Map<Seq<char>, MemberView>,
    Seq<char>,
>;

/// The text that `Value::to_string` gives for an object of these fields.
pub uninterp spec fn json_text(fields: Seq<(Seq<char>, MemberView)>) -> Seq<char>;

/// Reading the text gives an object of just these fields.
pub open spec fn gives_back(payload: Seq<char>, fields: Seq<(Seq<char>, MemberView)>) -> bool {
    json_document(payload) == Ok::<Map<Seq<char>, MemberView>, Seq<char>>(object_of(fields))
}

/// `serde_json::Value::to_string` writes an object with these fields. Reading
/// that text gives an object of just these fields.
#[verifier::external_body]
pub(crate) fn write_object(fields: Vec<(String, JsonField)>) -> (r: String)
    ensures
        r@ == json_text(field_views(fields@)),
        gives_back(r@, field_views(fields@)),
{
    let pairs = fields.into_iter().map(|f| match f.1 {
        JsonField::Text(s) => (f.0, serde_json::Value::from(s)),
        JsonField::Number(n) => (f.0, serde_json::Value::from(n)),
    });
    serde_json::Value::Object(pairs.collect()).to_string()
}

/// `serde_json::from_str` reads a text. What comes out depends on the text
/// alone; its error is handed on as the text that it displays.
#[verifier::external_body]
pub(crate) fn parse_document(payload: &str) -> (r: Result<serde_json::Value, String>)
    ensures
        match r {
            Ok(doc) => json_document(payload@) == Ok::<Map<Seq<char>, MemberView>, Seq<char>>(
                members_of(doc),
            ),
            Err(m) => json_document(payload@) == Err::<Map<Seq<char>, MemberView>, Seq<char>>(
                m@,
            ),
        },
{
    serde_json::from_str(payload).map_err(|e| e.to_string())
}

/// `serde_json::Value::get` gives the member of an object of that name, if it
/// has one. A number is taken as `Number::as_u64` gives it.
#[verifier::external_body]
pub(crate) fn get_member(doc: &serde_json::Value, key: &str) -> (r: JsonMember)
    ensures
        r@ == member_named(members_of(*doc), key@),
{
    match doc.get(key) {
        Some(serde_json::Value::String(s)) => JsonMember::Text(s.clone()),
        Some(serde_json::Value::Number(n)) => JsonMember::Number(n.as_u64()),
        Some(_) => JsonMember::Other,
        None => JsonMember::Missing,
    }
}

} // verus!
