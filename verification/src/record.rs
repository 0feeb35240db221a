//! The units of a streamed chat response: roles, request messages, and the
//! decoded records of the newline-delimited response protocol.

use vstd::prelude::*;

verus! {

/// Origin of a chat message or of a streamed response fragment.
#[derive(Clone, Copy, Debug, PartialEq, Eq, Structural)]
pub enum Role {
    System,
    User,
    Assistant,
    Tool,
}

/// One message of a chat request: a role, the message text, optional
/// reasoning text, and optional base64-encoded image attachments.
#[derive(Clone, Debug)]
pub struct ChatMessage {
    pub role: Role,
    pub content: String,
    pub thinking: Option<String>,
    pub images: Option<Vec<String>>,
}

/// Mathematical content of one decoded stream record: the fields of the
/// record that the job logic reads.
pub ghost struct RecordModel {
    pub role: Role,
    pub content: Seq<u8>,
    pub done: bool,
}

/// One decoded unit of an endpoint's streamed response: the fragment's
/// origin, the incremental text produced since the previous record (as
/// UTF-8 bytes), and the terminal marker.
#[derive(Clone, Debug)]
pub struct StreamRecord {
    pub role: Role,
    pub content: Vec<u8>,
    pub done: bool,
}

impl View for StreamRecord {
    type V = RecordModel;

    open spec fn view(&self) -> RecordModel {
        RecordModel { role: self.role, content: self.content@, done: self.done }
    }
}

/// The record, if any, that one newline-delimited line of response bytes
/// carries: `Some` exactly when the line is a well-formed JSON response
/// record, and then its role, content and done fields. A function of the
/// bytes alone.
pub uninterp spec fn record_of(line: Seq<u8>) -> Option<RecordModel>;

/// Relies on `serde_json::from_slice` and the accessors of
/// `serde_json::Value`: whether a byte line parses as one well-formed
/// response record, and which role, content and done flag it carries,
/// are functions of the line's bytes alone.
#[verifier::external_body]
pub(crate) fn parse_record_line(line: &[u8]) -> (r: Option<StreamRecord>)
    ensures
        r is Some <==> record_of(line@) is Some,
        r matches Some(rec) ==> rec@ == record_of(line@)->Some_0,
{
    let v: serde_json::Value = serde_json::from_slice(line).ok()?;
    if !(v.get("model")?.is_string() && v.get("created_at")?.is_string()) {
        return None;
    }
    let message = v.get("message")?;
    let role = match message.get("role")?.as_str()? {
        "system" => Role::System,
        "user" => Role::User,
        "assistant" => Role::Assistant,
        "tool" => Role::Tool,
        _ => return None,
    };
    let content = message.get("content")?.as_str()?.as_bytes().to_vec();
    Some(StreamRecord { role, content, done: v.get("done")?.as_bool()? })
}

} // verus!
