//! Decoding of the JSON chunk that a `data: ` line carries.
use vstd::prelude::*;
use vstd::string::*;

verus! {

#[verifier::external_type_specification]
#[verifier::external_body]
pub struct ExValue(serde_json::Value);

/// Whether serde_json reads `text` as one JSON value.
pub uninterp spec fn json_valid(text: Seq<char>) -> bool;

/// The message that serde_json gives for `text` where it does not read it.
pub uninterp spec fn json_error_text(text: Seq<char>) -> Seq<char>;

/// Whether the JSON value that `text` holds is an object.
pub uninterp spec fn json_is_object(text: Seq<char>) -> bool;

/// The member `key` of the JSON value that `text` holds.
pub uninterp spec fn json_member(text: Seq<char>, key: Seq<char>) -> MemberView;

/// A parsed JSON document, together with the text it was read from.
pub struct Document {
    text: String,
    value: serde_json::Value,
}

impl Document {
    pub closed spec fn text(&self) -> Seq<char> {
        self.text@
    }
}

/// Relies on `serde_json::from_str::<serde_json::Value>`: it reads `text` as a
/// JSON value or reports why it cannot, through the error's `Display`.
#[verifier::external_body]
fn parse_document(text: &str) -> (r: Result<Document, String>)
    ensures
        r is Ok <==> json_valid(text@),
        r matches Ok(d) ==> d.text() == text@,
        r matches Err(m) ==> m@ == json_error_text(text@),
{
    match serde_json::from_str::<serde_json::Value>(text) {
        Ok(value) => Ok(Document { text: text.to_string(), value }),
        Err(e) => Err(e.to_string()),
    }
}

/// Relies on `serde_json::Value::is_object`.
#[verifier::external_body]
fn document_is_object(d: &Document) -> (r: bool)
    ensures
        r == json_is_object(d.text()),
{
    d.value.is_object()
}

/// What a member of a JSON object is, as far as a chunk is concerned.
pub enum MemberView {
    Absent,
    Null,
    Flag(bool),
    Text(Seq<char>),
    Other,
}

/// A member of a JSON object: missing, `null`, a boolean, a string, or
/// anything else.
pub enum Member {
    Absent,
    Null,
    Flag(bool),
    Text(String),
    Other,
}

impl View for Member {
    type V = MemberView;

    open spec fn view(&self) -> MemberView {
        match self {
            Member::Absent => MemberView::Absent,
            Member::Null => MemberView::Null,
            Member::Flag(b) => MemberView::Flag(*b),
            Member::Text(s) => MemberView::Text(s@),
            Member::Other => MemberView::Other,
        }
    }
}

/// Relies on `serde_json::Value::get` with a string key: the member of an
/// object, or `None`.
#[verifier::external_body]
fn document_member(d: &Document, key: &str) -> (r: Member)
    ensures
        r@ == json_member(d.text(), key@),
{
    match d.value.get(key) {
        None => Member::Absent,
        Some(serde_json::Value::Null) => Member::Null,
        Some(serde_json::Value::Bool(b)) => Member::Flag(*b),
        Some(serde_json::Value::String(s)) => Member::Text(s.clone()),
        Some(_) => Member::Other,
    }
}

/// The mathematical value of a [`Chunk`].
pub struct ChunkView {
    pub content: Option<Seq<char>>,
    pub error: Option<Seq<char>>,
    pub finish_reason: Option<Seq<char>>,
    pub done: Option<bool>,
}

/// One upstream chunk. A missing field means that the chunk gives no such signal.
pub struct Chunk {
    pub content: Option<String>,
    pub error: Option<String>,
    pub finish_reason: Option<String>,
    pub done: Option<bool>,
}

impl View for Chunk {
    type V = ChunkView;

    open spec fn view(&self) -> ChunkView {
        ChunkView {
            content: crate::event::opt_view(self.content),
            error: crate::event::opt_view(self.error),
            finish_reason: crate::event::opt_view(self.finish_reason),
            done: self.done,
        }
    }
}

/// A string field of a chunk: `Ok(None)` where it is missing or `null`,
/// `Err(())` where it holds anything but a string.
pub open spec fn text_field(m: MemberView) -> Result<Option<Seq<char>>, ()> {
    match m {
        MemberView::Absent => Ok(None),
        MemberView::Null => Ok(None),
        MemberView::Text(s) => Ok(Some(s)),
        _ => Err(()),
    }
}

/// A boolean field of a chunk, read as [`text_field`] reads a string.
pub open spec fn flag_field(m: MemberView) -> Result<Option<bool>, ()> {
    match m {
        MemberView::Absent => Ok(None),
        MemberView::Null => Ok(None),
        MemberView::Flag(b) => Ok(Some(b)),
        _ => Err(()),
    }
}

pub open spec fn content_key() -> Seq<char> {
    "content"@
}

pub open spec fn error_key() -> Seq<char> {
    "error"@
}

pub open spec fn finish_reason_key() -> Seq<char> {
    "finish_reason"@
}

pub open spec fn done_key() -> Seq<char> {
    "done"@
}

/// The message for a member that does not have the type a chunk asks for.
pub open spec fn invalid_field_text(key: Seq<char>) -> Seq<char> {
    "invalid type for "@ + key
}

/// The chunk that four members make, or the message of the first one that
/// does not fit.
pub open spec fn chunk_of_members(
    content: MemberView,
    error: MemberView,
    finish_reason: MemberView,
    done: MemberView,
) -> Result<ChunkView, Seq<char>> {
    if text_field(content) is Err {
        Err(invalid_field_text(content_key()))
    } else if text_field(error) is Err {
        Err(invalid_field_text(error_key()))
    } else if text_field(finish_reason) is Err {
        Err(invalid_field_text(finish_reason_key()))
    } else if flag_field(done) is Err {
        Err(invalid_field_text(done_key()))
    } else {
        Ok(
            ChunkView {
                content: text_field(content)->Ok_0,
                error: text_field(error)->Ok_0,
                finish_reason: text_field(finish_reason)->Ok_0,
                done: flag_field(done)->Ok_0,
            },
        )
    }
}

/// The message for a JSON value that is not an object.
pub open spec fn not_object_text() -> Seq<char> {
    "expected a JSON object"@
}

/// The chunk that a payload holds, or why it holds none.
pub open spec fn chunk_of(text: Seq<char>) -> Result<ChunkView, Seq<char>> {
    if !json_valid(text) {
        Err(json_error_text(text))
    } else if !json_is_object(text) {
        Err(not_object_text())
    } else {
        chunk_of_members(
            json_member(text, content_key()),
            json_member(text, error_key()),
            json_member(text, finish_reason_key()),
            json_member(text, done_key()),
        )
    }
}

fn text_field_of(m: Member) -> (r: Result<Option<String>, ()>)
    ensures
        (r is Err) == (text_field(m@) is Err),
        r matches Ok(o) ==> text_field(m@) == Ok::<Option<Seq<char>>, ()>(
            crate::event::opt_view(o),
        ),
{
    match m {
        Member::Absent => Ok(None),
        Member::Null => Ok(None),
        Member::Text(s) => Ok(Some(s)),
        _ => Err(()),
    }
}

fn flag_field_of(m: Member) -> (r: Result<Option<bool>, ()>)
    ensures
        (r is Err) == (flag_field(m@) is Err),
        r matches Ok(o) ==> flag_field(m@) == Ok::<Option<bool>, ()>(o),
{
    match m {
        Member::Absent => Ok(None),
        Member::Null => Ok(None),
        Member::Flag(b) => Ok(Some(b)),
        _ => Err(()),
    }
}

fn invalid_field(key: &str) -> (r: String)
    ensures
        r@ == invalid_field_text(key@),
{
    let mut s = String::from_str("invalid type for ");
    s.append(key);
    s
}

/// Decodes the payload of a `data: ` line as a chunk.
pub fn decode_chunk(text: &str) -> (r: Result<Chunk, String>)
    ensures
        r is Ok <==> chunk_of(text@) is Ok,
        r matches Ok(c) ==> chunk_of(text@) == Ok::<ChunkView, Seq<char>>(c@),
        r matches Err(m) ==> chunk_of(text@) == Err::<ChunkView, Seq<char>>(m@),
{
    let d = match parse_document(text) {
        Ok(d) => d,
        Err(m) => return Err(m),
    };
    if !document_is_object(&d) {
        return Err(String::from_str("expected a JSON object"));
    }
    let content = text_field_of(document_member(&d, "content"));
    let error = text_field_of(document_member(&d, "error"));
    let finish_reason = text_field_of(document_member(&d, "finish_reason"));
    let done = flag_field_of(document_member(&d, "done"));
    let content = match content {
        Ok(c) => c,
        Err(()) => return Err(invalid_field("content")),
    };
    let error = match error {
        Ok(c) => c,
        Err(()) => return Err(invalid_field("error")),
    };
    let finish_reason = match finish_reason {
        Ok(c) => c,
        Err(()) => return Err(invalid_field("finish_reason")),
    };
    let done = match done {
        Ok(c) => c,
        Err(()) => return Err(invalid_field("done")),
    };
    Ok(Chunk { content, error, finish_reason, done })
}

} // verus!
