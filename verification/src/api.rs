//! Wire payloads of the request layer. The embedding binary mirrors these
//! with its serialization derives and converts at the boundary.

use vstd::prelude::*;

verus! {

/// Body of a write to one memory key.
pub struct SetValue {
    pub value: String,
}

/// Body of an embed request: the document id and its text.
pub struct EmbedPayload {
    pub id: String,
    pub content: String,
}

/// Body of a nearest-neighbor query request.
pub struct QueryPayload {
    pub content: String,
}

/// Body of a chat request.
pub struct ChatPayload {
    pub message: String,
}

/// Body of a program-run request: the program's code.
pub struct SentienceRequest {
    pub code: String,
}

/// Body of a program-run response: the program's output.
pub struct SentienceResponse {
    pub output: String,
}

} // verus!
