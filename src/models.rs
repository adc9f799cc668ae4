//! Messages of a conversation and the pieces of a streamed reply.
use vstd::prelude::*;

verus! {

/// The user's settings: the key that authorises requests.
#[derive(Clone)]
pub struct Config {
    pub api_key: String,
}

/// One message of a conversation.
#[derive(Clone)]
pub struct ChatMessage {
    pub role: String,
    pub content: String,
    pub reasoning_content: Option<String>,
    pub tool_calls: Option<Vec<ToolCall>>,
}

/// A call of a tool that the model asked for.
#[derive(Clone)]
pub struct ToolCall {
    pub id: String,
    pub typ: String,
    pub function: FunctionInfo,
}

#[derive(Clone)]
pub struct FunctionInfo {
    pub name: String,
    pub arguments: String,
}

/// The format that the reply is asked for in.
#[derive(Clone)]
pub struct ResponseFormat {
    pub typ: String,
}

/// The payload of one data line of the stream.
pub struct StreamingChunk {
    pub choices: Vec<StreamingChoice>,
}

pub struct StreamingChoice {
    pub delta: Option<DeltaMessage>,
}

/// An increment of the reply: a fragment of reasoning text, of answer text,
/// both, or neither.
pub struct DeltaMessage {
    pub reasoning_content: Option<String>,
    pub content: Option<String>,
}

/// The text of an optional fragment; an absent one is empty.
pub open spec fn fragment(o: Option<String>) -> Seq<char> {
    match o {
        Some(s) => s@,
        None => Seq::empty(),
    }
}

/// The delta that a chunk carries: that of its first choice, if any.
pub open spec fn first_delta_of(c: StreamingChunk) -> Option<DeltaMessage> {
    if c.choices@.len() > 0 {
        c.choices@[0].delta
    } else {
        None
    }
}

impl StreamingChunk {
    /// The delta of the first choice; the other choices are ignored.
    pub fn first_delta(self) -> (r: Option<DeltaMessage>)
        ensures
            r == first_delta_of(self),
    {
        let mut choices = self.choices;
        if choices.len() == 0 {
            None
        } else {
            let c = choices.swap_remove(0);
            c.delta
        }
    }
}

} // verus!
