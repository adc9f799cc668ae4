//! Decisions taken on the command line's values before a request is sent:
//! the model, the query, and what becomes of the conversation history.
use vstd::prelude::*;
use crate::models::ChatMessage;

verus! {

/// What the memory mode does with the saved conversation.
#[derive(PartialEq, Eq, Structural, Clone, Copy)]
pub enum MemoryAction {
    /// Start a new conversation.
    New,
    /// Carry on with the latest conversation.
    Continue,
}

/// The characters that `char::is_whitespace` accepts (Unicode White_Space).
pub open spec fn is_white(c: char) -> bool {
    let u = c as u32;
    (9 <= u <= 13) || u == 32 || u == 0x85 || u == 0xA0 || u == 0x1680 || (0x2000 <= u <= 0x200A)
        || u == 0x2028 || u == 0x2029 || u == 0x202F || u == 0x205F || u == 0x3000
}

pub open spec fn trim_start_chars(s: Seq<char>) -> Seq<char>
    decreases s.len(),
{
    if s.len() > 0 && is_white(s[0]) {
        trim_start_chars(s.drop_first())
    } else {
        s
    }
}

pub open spec fn trim_end_chars(s: Seq<char>) -> Seq<char>
    decreases s.len(),
{
    if s.len() > 0 && is_white(s.last()) {
        trim_end_chars(s.drop_last())
    } else {
        s
    }
}

/// A text with the whitespace at both ends removed.
pub open spec fn trim_chars(s: Seq<char>) -> Seq<char> {
    trim_end_chars(trim_start_chars(s))
}

/// Relies on str::trim: the text without leading and trailing characters
/// for which `char::is_whitespace` holds.
#[verifier::external_body]
fn trim_str(s: &str) -> (r: &str)
    ensures
        r@ == trim_chars(s@),
{
    s.trim()
}

/// The model that a version name selects: `r1` the reasoning model, any
/// other the chat model.
pub fn model_for_version(version: &str) -> (r: String)
    ensures
        version@ == "r1"@ ==> r@ == "deepseek-reasoner"@,
        version@ != "r1"@ ==> r@ == "deepseek-chat"@,
{
    let v = String::from_str(version);
    let r1 = String::from_str("r1");
    if v == r1 {
        String::from_str("deepseek-reasoner")
    } else {
        String::from_str("deepseek-chat")
    }
}

/// The query sent: the query alone when the piped text is blank, else the
/// trimmed piped text, a line break, and the query.
pub fn compose_query(piped: &str, query: &str) -> (r: String)
    ensures
        trim_chars(piped@).len() == 0 ==> r@ == query@,
        trim_chars(piped@).len() > 0 ==> r@ == trim_chars(piped@) + "\n"@ + query@,
{
    let t = trim_str(piped);
    if t.unicode_len() == 0 {
        String::from_str(query)
    } else {
        let mut r = String::from_str(t);
        r.append("\n");
        r.append(query);
        r
    }
}

/// The query given: that of the subcommand where one was used, else the
/// one given without a subcommand. `None` means no query was given.
pub fn choose_query(sub_query: Option<Option<String>>, top_query: Option<String>) -> (r: Option<String>)
    ensures
        sub_query is Some ==> r == sub_query->0,
        sub_query is None ==> r == top_query,
{
    match sub_query {
        Some(q) => q,
        None => top_query,
    }
}

/// The memory action: none without the memory flag; with it, a new
/// conversation where the `new` subcommand was used, else the latest one
/// continued.
pub fn memory_action(memory: bool, new_subcommand: bool) -> (r: Option<MemoryAction>)
    ensures
        !memory ==> r is None,
        memory && new_subcommand ==> r == Some(MemoryAction::New),
        memory && !new_subcommand ==> r == Some(MemoryAction::Continue),
{
    if !memory {
        None
    } else if new_subcommand {
        Some(MemoryAction::New)
    } else {
        Some(MemoryAction::Continue)
    }
}

/// Whether the saved conversation is loaded: only when it is continued.
pub fn loads_history(action: Option<MemoryAction>) -> (r: bool)
    ensures
        r == (action == Some(MemoryAction::Continue)),
{
    match action {
        Some(MemoryAction::Continue) => true,
        _ => false,
    }
}

/// A message with this role and text, and nothing else.
pub fn plain_message(role: &str, content: String) -> (r: ChatMessage)
    ensures
        r.role@ == role@,
        r.content == content,
        r.reasoning_content is None,
        r.tool_calls is None,
{
    ChatMessage { role: String::from_str(role), content, reasoning_content: None, tool_calls: None }
}

/// The history with the user's query added at its end.
pub fn push_user_query(history: &mut Vec<ChatMessage>, query: String)
    ensures
        final(history)@.len() == old(history)@.len() + 1,
        final(history)@.subrange(0, old(history)@.len() as int) == old(history)@,
        final(history)@.last().role@ == "user"@,
        final(history)@.last().content == query,
{
    history.push(plain_message("user", query));
    proof {
        assert(history@.subrange(0, old(history)@.len() as int) =~= old(history)@);
    }
}

/// The history with the assistant's reply added at its end.
pub fn push_reply(history: &mut Vec<ChatMessage>, reply: String)
    ensures
        final(history)@.len() == old(history)@.len() + 1,
        final(history)@.subrange(0, old(history)@.len() as int) == old(history)@,
        final(history)@.last().role@ == "assistant"@,
        final(history)@.last().content == reply,
{
    history.push(plain_message("assistant", reply));
    proof {
        assert(history@.subrange(0, old(history)@.len() as int) =~= old(history)@);
    }
}

} // verus!
