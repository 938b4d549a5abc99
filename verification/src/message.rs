//! The messages that a conversation is made of.

use vstd::prelude::*;

use crate::text::opt_text;

verus! {

/// Who a message is from.
#[derive(Debug, Clone, Copy, PartialEq, Eq, Structural)]
pub enum Role {
    User,
    Assistant,
    Tool,
}

/// A tool call that the model asks for.
#[derive(Debug, Clone, PartialEq, Eq)]
pub struct ToolCall {
    pub id: String,
    pub name: String,
    /// The arguments, as JSON text.
    pub arguments: String,
}

/// A [`ToolCall`] as the contracts see it.
pub struct CallText {
    pub id: Seq<char>,
    pub name: Seq<char>,
    pub arguments: Seq<char>,
}

impl View for ToolCall {
    type V = CallText;

    open spec fn view(&self) -> CallText {
        CallText { id: self.id@, name: self.name@, arguments: self.arguments@ }
    }
}

/// What each call of a list holds.
pub open spec fn calls(v: Seq<ToolCall>) -> Seq<CallText> {
    v.map_values(|c: ToolCall| c@)
}

impl ToolCall {
    /// A copy of the call.
    pub fn copy(&self) -> (r: ToolCall)
        ensures
            r@ == self@,
    {
        ToolCall {
            id: self.id.clone(),
            name: self.name.clone(),
            arguments: self.arguments.clone(),
        }
    }
}

/// A copy of a list of calls.
pub fn copy_calls(v: &[ToolCall]) -> (r: Vec<ToolCall>)
    ensures
        calls(r@) == calls(v@),
{
    let mut r: Vec<ToolCall> = Vec::new();
    let mut i: usize = 0;
    proof {
        assert(calls(r@) =~= calls(v@).take(0));
    }
    while i < v.len()
        invariant
            i <= v@.len(),
            calls(r@) == calls(v@).take(i as int),
        decreases v@.len() - i,
    {
        let ghost before = r@;
        r.push(v[i].copy());
        proof {
            assert(calls(r@) =~= calls(before).push(v@[i as int]@));
            assert(calls(v@).take(i + 1) =~= calls(v@).take(i as int).push(v@[i as int]@));
        }
        i = i + 1;
    }
    proof {
        assert(calls(v@).take(i as int) =~= calls(v@));
    }
    r
}

/// A message of a conversation.
///
/// What the user or the model says stands in `content`. A message of the model that asks for
/// tool calls has them in `tool_calls`. The result of a tool stands in `content`, with the call
/// it belongs to in `tool_call_id`.
#[derive(Debug, Clone, PartialEq, Eq)]
pub struct Message {
    pub role: Role,
    pub content: String,
    pub tool_call_id: Option<String>,
    pub tool_calls: Vec<ToolCall>,
}

/// A [`Message`] as the contracts see it.
pub struct MessageText {
    pub role: Role,
    pub content: Seq<char>,
    pub tool_call_id: Option<Seq<char>>,
    pub tool_calls: Seq<CallText>,
}

impl View for Message {
    type V = MessageText;

    open spec fn view(&self) -> MessageText {
        MessageText {
            role: self.role,
            content: self.content@,
            tool_call_id: opt_text(self.tool_call_id),
            tool_calls: calls(self.tool_calls@),
        }
    }
}

/// What each message of a conversation holds.
pub open spec fn messages(v: Seq<Message>) -> Seq<MessageText> {
    v.map_values(|m: Message| m@)
}

impl MessageText {
    /// What the user says.
    pub open spec fn user(content: Seq<char>) -> MessageText {
        MessageText { role: Role::User, content, tool_call_id: None, tool_calls: seq![] }
    }

    /// What the model says.
    pub open spec fn assistant(content: Seq<char>) -> MessageText {
        MessageText { role: Role::Assistant, content, tool_call_id: None, tool_calls: seq![] }
    }

    /// The tool calls that the model asks for.
    pub open spec fn assistant_tool_calls(tool_calls: Seq<CallText>) -> MessageText {
        MessageText { role: Role::Assistant, content: seq![], tool_call_id: None, tool_calls }
    }

    /// The result of a tool call.
    pub open spec fn tool(content: Seq<char>, tool_call_id: Seq<char>) -> MessageText {
        MessageText {
            role: Role::Tool,
            content,
            tool_call_id: Some(tool_call_id),
            tool_calls: seq![],
        }
    }
}

impl Message {
    /// What the user says.
    pub fn user(content: &str) -> (r: Message)
        ensures
            r@ == MessageText::user(content@),
    {
        let tool_calls: Vec<ToolCall> = Vec::new();
        proof {
            assert(calls(tool_calls@) =~= seq![]);
        }
        Message { role: Role::User, content: content.to_owned(), tool_call_id: None, tool_calls }
    }

    /// What the model says.
    pub fn assistant(content: &str) -> (r: Message)
        ensures
            r@ == MessageText::assistant(content@),
    {
        let tool_calls: Vec<ToolCall> = Vec::new();
        proof {
            assert(calls(tool_calls@) =~= seq![]);
        }
        Message {
            role: Role::Assistant,
            content: content.to_owned(),
            tool_call_id: None,
            tool_calls,
        }
    }

    /// The tool calls that the model asks for; such a message has no text.
    pub fn assistant_tool_calls(tool_calls: Vec<ToolCall>) -> (r: Message)
        ensures
            r@ == MessageText::assistant_tool_calls(calls(tool_calls@)),
    {
        let content = String::new();
        proof {
            assert(content@ =~= seq![]);
        }
        Message { role: Role::Assistant, content, tool_call_id: None, tool_calls }
    }

    /// The result of the tool call with the given id.
    pub fn tool(content: &str, tool_call_id: &str) -> (r: Message)
        ensures
            r@ == MessageText::tool(content@, tool_call_id@),
    {
        let tool_calls: Vec<ToolCall> = Vec::new();
        proof {
            assert(calls(tool_calls@) =~= seq![]);
        }
        Message {
            role: Role::Tool,
            content: content.to_owned(),
            tool_call_id: Some(tool_call_id.to_owned()),
            tool_calls,
        }
    }
}

} // verus!
