//! Talking to an OpenAI-compatible model: what is sent, and what the replies mean.
//!
//! A reply comes whole or as a stream of server-sent events. The program around this library
//! sends the request, reads the lines and turns JSON into the types below.

use vstd::prelude::*;

use crate::json::{compact, json_compact, same_members};
use crate::message::{calls, messages, CallText, Message, MessageText, Role, ToolCall};
use crate::text::{
    all_blank, cat2, cat3, chars_of, lemma_trimmed_start_is, lemma_trimmed_start_split, opt_owned,
    opt_text, same, string_between, strip_prefix, trim, trim_start, trimmed, trimmed_start,
    white_space,
};
use crate::tool::{
    all_definitions, definition_texts, definitions, DefinitionText, ParametersText, ToolDefinition,
    ToolParameters,
};

verus! {

/// A reply of the model: text, or tool calls that it asks for.
#[derive(Debug, Clone, PartialEq, Eq)]
pub enum Response {
    Text(String),
    ToolCall(Vec<ToolCall>),
}

/// A [`Response`] as the contracts see it.
pub enum ResponseText {
    Text(Seq<char>),
    ToolCall(Seq<CallText>),
}

impl View for Response {
    type V = ResponseText;

    open spec fn view(&self) -> ResponseText {
        match self {
            Response::Text(s) => ResponseText::Text(s@),
            Response::ToolCall(v) => ResponseText::ToolCall(calls(v@)),
        }
    }
}

/// What happens while a reply streams in.
#[derive(Debug, Clone, PartialEq, Eq)]
pub enum ModelEvent {
    /// A piece of the reply's text.
    TextDelta(String),
}

/// The text that an event carries, if there is one.
pub open spec fn event_text(e: Option<ModelEvent>) -> Option<Seq<char>> {
    match e {
        Some(ModelEvent::TextDelta(s)) => Some(s@),
        None => None,
    }
}

impl Response {
    /// The event that stands for a reply that did not stream in: its text in one piece.
    pub fn as_event(&self) -> (r: Option<ModelEvent>)
        ensures
            event_text(r) == match self@ {
                ResponseText::Text(s) => Some(s),
                ResponseText::ToolCall(_) => None,
            },
    {
        match self {
            Response::Text(text) => Some(ModelEvent::TextDelta(text.clone())),
            Response::ToolCall(_) => None,
        }
    }
}

/// A model behind an OpenAI-compatible interface.
#[derive(Debug, Clone, PartialEq, Eq)]
pub struct OpenAICompatibleModel {
    pub api_key: String,
    pub base_url: String,
    pub model: String,
}

// ---------------------------------------------------------------------------------------------
// Requests
// ---------------------------------------------------------------------------------------------

/// A function call inside a message, arguments as JSON text.
#[derive(Debug, Clone, PartialEq, Eq)]
pub struct ApiFunctionCall {
    pub name: String,
    pub arguments: String,
}

/// A tool call inside a message.
#[derive(Debug, Clone, PartialEq, Eq)]
pub struct ApiToolCall {
    pub id: String,
    /// Always `function`.
    pub kind: String,
    pub function: ApiFunctionCall,
}

/// An [`ApiToolCall`] as the contracts see it.
pub struct ApiCallText {
    pub id: Seq<char>,
    pub kind: Seq<char>,
    pub name: Seq<char>,
    pub arguments: Seq<char>,
}

impl View for ApiToolCall {
    type V = ApiCallText;

    open spec fn view(&self) -> ApiCallText {
        ApiCallText {
            id: self.id@,
            kind: self.kind@,
            name: self.function.name@,
            arguments: self.function.arguments@,
        }
    }
}

/// What each call of a list holds.
pub open spec fn api_calls(v: Seq<ApiToolCall>) -> Seq<ApiCallText> {
    v.map_values(|c: ApiToolCall| c@)
}

/// A message as it is sent. What is `None`, or empty among the tool calls, is left out.
#[derive(Debug, Clone, PartialEq, Eq)]
pub struct ApiMessage {
    pub role: String,
    pub content: Option<String>,
    pub tool_call_id: Option<String>,
    pub tool_calls: Vec<ApiToolCall>,
}

/// An [`ApiMessage`] as the contracts see it.
pub struct ApiMessageText {
    pub role: Seq<char>,
    pub content: Option<Seq<char>>,
    pub tool_call_id: Option<Seq<char>>,
    pub tool_calls: Seq<ApiCallText>,
}

impl View for ApiMessage {
    type V = ApiMessageText;

    open spec fn view(&self) -> ApiMessageText {
        ApiMessageText {
            role: self.role@,
            content: opt_text(self.content),
            tool_call_id: opt_text(self.tool_call_id),
            tool_calls: api_calls(self.tool_calls@),
        }
    }
}

/// What each message of a request holds.
pub open spec fn api_messages(v: Seq<ApiMessage>) -> Seq<ApiMessageText> {
    v.map_values(|m: ApiMessage| m@)
}

/// The function that a tool is described as.
#[derive(Debug, Clone)]
pub struct ApiFunction {
    pub name: String,
    pub description: String,
    pub parameters: ToolParameters,
}

/// A tool as it is described in a request.
#[derive(Debug, Clone)]
pub struct ApiTool {
    /// Always `function`.
    pub kind: String,
    pub function: ApiFunction,
}

/// An [`ApiTool`] as the contracts see it.
pub struct ApiToolText {
    pub kind: Seq<char>,
    pub name: Seq<char>,
    pub description: Seq<char>,
    pub parameters: ParametersText,
}

impl View for ApiTool {
    type V = ApiToolText;

    open spec fn view(&self) -> ApiToolText {
        ApiToolText {
            kind: self.kind@,
            name: self.function.name@,
            description: self.function.description@,
            parameters: self.function.parameters@,
        }
    }
}

/// What each tool of a request holds.
pub open spec fn api_tools(v: Seq<ApiTool>) -> Seq<ApiToolText> {
    v.map_values(|t: ApiTool| t@)
}

/// A request. An empty list of tools, and `stream` where it is false, are left out.
#[derive(Debug, Clone)]
pub struct ChatRequest {
    pub model: String,
    pub messages: Vec<ApiMessage>,
    pub tools: Vec<ApiTool>,
    pub stream: bool,
}

/// The word for a role.
pub open spec fn role_word(role: Role) -> Seq<char> {
    match role {
        Role::User => "user"@,
        Role::Assistant => "assistant"@,
        Role::Tool => "tool"@,
    }
}

/// How a tool call is sent whose arguments in compact JSON are as given; where there are none,
/// an empty object stands for them.
pub open spec fn api_call_with(call: CallText, arguments: Option<Seq<char>>) -> ApiCallText {
    ApiCallText {
        id: call.id,
        kind: "function"@,
        name: call.name,
        arguments: match arguments {
            Some(text) => text,
            None => "{}"@,
        },
    }
}

/// How a tool call is sent: its arguments as compact JSON text.
pub open spec fn api_call_of(call: CallText) -> ApiCallText {
    api_call_with(call, json_compact(call.arguments))
}

/// How a message is sent: one that only asks for tool calls has no content at all.
pub open spec fn api_message_of(m: MessageText) -> ApiMessageText {
    ApiMessageText {
        role: role_word(m.role),
        content: if m.content.len() == 0 && m.tool_calls.len() > 0 {
            None
        } else {
            Some(m.content)
        },
        tool_call_id: m.tool_call_id,
        tool_calls: m.tool_calls.map_values(|c: CallText| api_call_of(c)),
    }
}

/// How a tool is described in a request.
pub open spec fn api_tool_of(d: DefinitionText) -> ApiToolText {
    ApiToolText {
        kind: "function"@,
        name: d.name,
        description: d.description,
        parameters: d.parameters,
    }
}

impl ApiToolCall {
    /// Writes a tool call for a request.
    pub fn from_core(call: &ToolCall) -> (r: ApiToolCall)
        ensures
            r@ == api_call_of(call@),
            keeps_members(r.function.arguments@, call.arguments@),
    {
        ApiToolCall::with_arguments(call, compact(call.arguments.as_str()))
    }

    /// Writes a tool call whose arguments have been made compact, where they are JSON.
    pub fn with_arguments(call: &ToolCall, arguments: Option<String>) -> (r: ApiToolCall)
        ensures
            r@ == api_call_with(call@, opt_text(arguments)),
    {
        ApiToolCall {
            id: call.id.clone(),
            kind: "function".to_owned(),
            function: ApiFunctionCall {
                name: call.name.clone(),
                arguments: match arguments {
                    Some(text) => text,
                    None => "{}".to_owned(),
                },
            },
        }
    }
}

impl ApiMessage {
    /// Writes a message for a request.
    pub fn from_core(message: &Message) -> (r: ApiMessage)
        ensures
            r@ == api_message_of(message@),
    {
        let role = match message.role {
            Role::User => "user",
            Role::Assistant => "assistant",
            Role::Tool => "tool",
        };
        let content = if message.content.as_str().is_empty() && message.tool_calls.len() > 0 {
            None
        } else {
            Some(message.content.clone())
        };
        let mut tool_calls: Vec<ApiToolCall> = Vec::new();
        let ghost want = calls(message.tool_calls@).map_values(|c: CallText| api_call_of(c));
        let mut i: usize = 0;
        proof {
            assert(api_calls(tool_calls@) =~= want.take(0));
        }
        while i < message.tool_calls.len()
            invariant
                i <= message.tool_calls@.len(),
                want == calls(message.tool_calls@).map_values(|c: CallText| api_call_of(c)),
                api_calls(tool_calls@) == want.take(i as int),
            decreases message.tool_calls@.len() - i,
        {
            let ghost before = tool_calls@;
            tool_calls.push(ApiToolCall::from_core(&message.tool_calls[i]));
            proof {
                assert(api_calls(tool_calls@) =~= api_calls(before).push(want[i as int]));
                assert(want.take(i + 1) =~= want.take(i as int).push(want[i as int]));
            }
            i = i + 1;
        }
        proof {
            assert(want.take(i as int) =~= want);
        }
        ApiMessage {
            role: role.to_owned(),
            content,
            tool_call_id: opt_owned(&message.tool_call_id),
            tool_calls,
        }
    }
}

fn api_tool(d: ToolDefinition) -> (r: ApiTool)
    ensures
        r@ == api_tool_of(d@),
{
    ApiTool {
        kind: "function".to_owned(),
        function: ApiFunction {
            name: d.name.to_owned(),
            description: d.description.to_owned(),
            parameters: d.parameters,
        },
    }
}

/// All tools, as they are described in a request.
fn all_api_tools() -> (r: Vec<ApiTool>)
    ensures
        api_tools(r@) == definition_texts().map_values(|d: DefinitionText| api_tool_of(d)),
{
    let mut left = all_definitions();
    let ghost want = definition_texts().map_values(|d: DefinitionText| api_tool_of(d));
    let mut r: Vec<ApiTool> = Vec::new();
    proof {
        assert(api_tools(r@) =~= want.take(0));
    }
    while left.len() > 0
        invariant
            r@.len() + left@.len() == want.len(),
            want == definition_texts().map_values(|d: DefinitionText| api_tool_of(d)),
            definitions(left@) == definition_texts().skip(r@.len() as int),
            api_tools(r@) == want.take(r@.len() as int),
        decreases left@.len(),
    {
        let ghost n = r@.len() as int;
        let ghost rest = left@;
        let ghost before = r@;
        let d = left.remove(0);
        proof {
            assert(definitions(rest)[0] == d@);
            assert(d@ == definition_texts()[n]);
            assert(definitions(left@) =~= definitions(rest).skip(1));
            assert(definitions(rest).skip(1) =~= definition_texts().skip(n + 1));
        }
        r.push(api_tool(d));
        proof {
            assert(api_tools(r@) =~= api_tools(before).push(want[n]));
            assert(want.take(n + 1) =~= want.take(n).push(want[n]));
        }
    }
    proof {
        assert(want.take(r@.len() as int) =~= want);
    }
    r
}

impl OpenAICompatibleModel {
    /// A model with the given key; the address and the name of the model are those given, or the
    /// usual ones.
    pub fn new(api_key: String, base_url: Option<String>, model: Option<String>) -> (r:
        OpenAICompatibleModel)
        ensures
            r.api_key@ == api_key@,
            r.base_url@ == match base_url {
                Some(url) => url@,
                None => "https://api.openai.com/v1"@,
            },
            r.model@ == match model {
                Some(name) => name@,
                None => "gpt-4o-mini"@,
            },
    {
        let base_url = match base_url {
            Some(url) => url,
            None => "https://api.openai.com/v1".to_owned(),
        };
        let model = match model {
            Some(name) => name,
            None => "gpt-4o-mini".to_owned(),
        };
        OpenAICompatibleModel::new_with_base_url(api_key, base_url, model)
    }

    /// A model with the given key, address and name.
    pub fn new_with_base_url(api_key: String, base_url: String, model: String) -> (r:
        OpenAICompatibleModel)
        ensures
            r.api_key@ == api_key@,
            r.base_url@ == base_url@,
            r.model@ == model@,
    {
        OpenAICompatibleModel { api_key, base_url, model }
    }

    /// The address that requests go to.
    pub fn endpoint(&self) -> (r: String)
        ensures
            r@ == self.base_url@ + "/chat/completions"@,
    {
        cat2(self.base_url.as_str(), "/chat/completions")
    }

    /// The request for a reply to a conversation, whole or as a stream. It describes all tools.
    pub fn request(&self, conversation: &[Message], stream: bool) -> (r: ChatRequest)
        ensures
            r.model@ == self.model@,
            api_messages(r.messages@) == messages(conversation@).map_values(
                |m: MessageText| api_message_of(m),
            ),
            api_tools(r.tools@) == definition_texts().map_values(
                |d: DefinitionText| api_tool_of(d),
            ),
            r.stream == stream,
    {
        let ghost want = messages(conversation@).map_values(|m: MessageText| api_message_of(m));
        let mut sent: Vec<ApiMessage> = Vec::new();
        let mut i: usize = 0;
        proof {
            assert(api_messages(sent@) =~= want.take(0));
        }
        while i < conversation.len()
            invariant
                i <= conversation@.len(),
                want == messages(conversation@).map_values(|m: MessageText| api_message_of(m)),
                api_messages(sent@) == want.take(i as int),
            decreases conversation@.len() - i,
        {
            let ghost before = sent@;
            sent.push(ApiMessage::from_core(&conversation[i]));
            proof {
                assert(api_messages(sent@) =~= api_messages(before).push(want[i as int]));
                assert(want.take(i + 1) =~= want.take(i as int).push(want[i as int]));
            }
            i = i + 1;
        }
        proof {
            assert(want.take(i as int) =~= want);
        }
        ChatRequest { model: self.model.clone(), messages: sent, tools: all_api_tools(), stream }
    }
}

/// What is said of a reply whose status is not a success. A body that could not be read is
/// `None`.
pub fn api_error(status: &str, body: Option<String>) -> (r: String)
    ensures
        r@ == "API error: "@ + status@ + " body="@ + match body {
            Some(text) => text@,
            None => "<unreadable body>"@,
        },
{
    let mut r = cat3("API error: ", status, " body=");
    match body {
        Some(text) => {
            r.append(text.as_str());
        },
        None => {
            r.append("<unreadable body>");
        },
    }
    r
}

// ---------------------------------------------------------------------------------------------
// Whole replies
// ---------------------------------------------------------------------------------------------

/// The function of a tool call in a reply.
#[derive(Debug, Clone, PartialEq, Eq)]
pub struct ResponseFunction {
    pub name: String,
    pub arguments: String,
}

/// A tool call in a reply.
#[derive(Debug, Clone, PartialEq, Eq)]
pub struct ResponseToolCall {
    pub id: String,
    pub function: ResponseFunction,
}

/// The message in a reply.
#[derive(Debug, Clone, PartialEq, Eq)]
pub struct ResponseMessage {
    pub content: Option<String>,
    pub tool_calls: Option<Vec<ResponseToolCall>>,
}

/// One of the choices in a reply.
#[derive(Debug, Clone, PartialEq, Eq)]
pub struct Choice {
    pub message: ResponseMessage,
}

/// A reply.
#[derive(Debug, Clone, PartialEq, Eq)]
pub struct ChatResponse {
    pub choices: Vec<Choice>,
}

/// A JSON text, or `null` where there is none.
pub open spec fn or_null(json: Option<Seq<char>>) -> Seq<char> {
    match json {
        Some(text) => text,
        None => "null"@,
    }
}

/// JSON text made compact; what is not JSON becomes `null`.
pub open spec fn json_or_null(raw: Seq<char>) -> Seq<char> {
    or_null(json_compact(raw))
}

/// Puts `null` in the place of a JSON text that is not there.
pub fn text_or_null(json: Option<String>) -> (r: String)
    ensures
        r@ == or_null(opt_text(json)),
{
    match json {
        Some(text) => text,
        None => "null".to_owned(),
    }
}

/// What becomes of the arguments of a call: where they are JSON, no string member is lost or
/// changed.
pub open spec fn keeps_members(arguments: Seq<char>, raw: Seq<char>) -> bool {
    json_compact(raw) is Some ==> same_members(arguments, raw)
}

fn compact_or_null(raw: &str) -> (r: String)
    ensures
        r@ == json_or_null(raw@),
        keeps_members(r@, raw@),
{
    text_or_null(compact(raw))
}

/// The call that a tool call in a reply stands for.
pub open spec fn response_call(c: ResponseToolCall) -> CallText {
    CallText {
        id: c.id@,
        name: c.function.name@,
        arguments: json_or_null(c.function.arguments@),
    }
}

/// What a reply means: the first choice counts, and in it tool calls before text.
pub open spec fn chat_result(r: ChatResponse) -> Result<ResponseText, Seq<char>> {
    if r.choices@.len() == 0 {
        Err("model returned no choices"@)
    } else {
        let message = r.choices@[0].message;
        if message.tool_calls is Some && message.tool_calls->0@.len() > 0 {
            Ok(
                ResponseText::ToolCall(
                    message.tool_calls->0@.map_values(|c: ResponseToolCall| response_call(c)),
                ),
            )
        } else {
            Ok(
                ResponseText::Text(
                    match message.content {
                        Some(text) => text@,
                        None => seq![],
                    },
                ),
            )
        }
    }
}

fn response_calls(given: &Vec<ResponseToolCall>) -> (r: Vec<ToolCall>)
    ensures
        calls(r@) == given@.map_values(|c: ResponseToolCall| response_call(c)),
        forall|i: int|
            0 <= i < given@.len() ==> keeps_members(
                (#[trigger] r@[i]).arguments@,
                given@[i].function.arguments@,
            ),
{
    let ghost want = given@.map_values(|c: ResponseToolCall| response_call(c));
    let mut r: Vec<ToolCall> = Vec::new();
    let mut i: usize = 0;
    proof {
        assert(calls(r@) =~= want.take(0));
    }
    while i < given.len()
        invariant
            i <= given@.len(),
            want == given@.map_values(|c: ResponseToolCall| response_call(c)),
            r@.len() == i,
            calls(r@) == want.take(i as int),
            forall|k: int|
                0 <= k < i ==> keeps_members(
                    (#[trigger] r@[k]).arguments@,
                    given@[k].function.arguments@,
                ),
        decreases given@.len() - i,
    {
        let ghost before = r@;
        r.push(
            ToolCall {
                id: given[i].id.clone(),
                name: given[i].function.name.clone(),
                arguments: compact_or_null(given[i].function.arguments.as_str()),
            },
        );
        proof {
            assert(r@.last()@ == want[i as int]);
            assert(calls(r@) =~= calls(before).push(want[i as int]));
            assert(want.take(i + 1) =~= want.take(i as int).push(want[i as int]));
        }
        i = i + 1;
    }
    proof {
        assert(want.take(i as int) =~= want);
    }
    r
}

/// Takes the meaning out of a reply.
pub fn chat_to_response(reply: &ChatResponse) -> (r: Result<Response, String>)
    ensures
        match r {
            Ok(response) => chat_result(*reply) == Ok::<ResponseText, Seq<char>>(response@),
            Err(e) => chat_result(*reply) == Err::<ResponseText, Seq<char>>(e@),
        },
        r matches Ok(Response::ToolCall(v)) ==> forall|i: int|
            0 <= i < v@.len() ==> keeps_members(
                (#[trigger] v@[i]).arguments@,
                reply.choices@[0].message.tool_calls->0@[i].function.arguments@,
            ),
{
    if reply.choices.len() == 0 {
        return Err("model returned no choices".to_owned());
    }
    let message = &reply.choices[0].message;
    match &message.tool_calls {
        Some(given) => {
            if given.len() > 0 {
                let v = response_calls(given);
                proof {
                    assert(calls(v@).len() == given@.len());
                }
                return Ok(Response::ToolCall(v));
            }
        },
        None => {},
    }
    match &message.content {
        Some(text) => Ok(Response::Text(text.clone())),
        None => {
            let none = String::new();
            proof {
                assert(none@ =~= seq![]);
            }
            Ok(Response::Text(none))
        },
    }
}

// ---------------------------------------------------------------------------------------------
// Streams
// ---------------------------------------------------------------------------------------------

/// A piece of a function in a streamed tool call.
#[derive(Debug, Clone, PartialEq, Eq)]
pub struct StreamDeltaFunction {
    pub name: Option<String>,
    pub arguments: Option<String>,
}

/// A piece of a streamed tool call.
#[derive(Debug, Clone, PartialEq, Eq)]
pub struct StreamDeltaToolCall {
    /// Which of the calls it belongs to.
    pub index: usize,
    pub id: Option<String>,
    pub function: Option<StreamDeltaFunction>,
}

/// What a chunk adds to a reply.
#[derive(Debug, Clone, PartialEq, Eq)]
pub struct StreamDelta {
    pub content: Option<String>,
    pub tool_calls: Vec<StreamDeltaToolCall>,
}

/// One of the choices in a chunk.
#[derive(Debug, Clone, PartialEq, Eq)]
pub struct StreamChoice {
    pub delta: StreamDelta,
    pub finish_reason: Option<String>,
}

/// A chunk of a streamed reply. What the model reasons is no part of it.
#[derive(Debug, Clone, PartialEq, Eq)]
pub struct StreamChunk {
    pub choices: Vec<StreamChoice>,
}

/// A tool call as far as it has streamed in.
#[derive(Debug, Clone, PartialEq, Eq)]
pub struct StreamToolCall {
    pub index: usize,
    /// The first id that was not empty.
    pub id: String,
    /// The first name that was not empty.
    pub name: String,
    /// The pieces of the arguments in a row.
    pub arguments: String,
}

/// A [`StreamToolCall`] as the contracts see it.
pub struct SlotText {
    pub index: usize,
    pub id: Seq<char>,
    pub name: Seq<char>,
    pub arguments: Seq<char>,
}

impl View for StreamToolCall {
    type V = SlotText;

    open spec fn view(&self) -> SlotText {
        SlotText {
            index: self.index,
            id: self.id@,
            name: self.name@,
            arguments: self.arguments@,
        }
    }
}

/// What each call of a list holds.
pub open spec fn slots(v: Seq<StreamToolCall>) -> Seq<SlotText> {
    v.map_values(|c: StreamToolCall| c@)
}

/// A reply as far as it has streamed in.
#[derive(Debug, Clone, PartialEq, Eq)]
pub struct StreamAccumulator {
    pub content: String,
    pub tool_calls: Vec<StreamToolCall>,
}

/// A [`StreamAccumulator`] as the contracts see it.
pub struct AccumulatorText {
    pub content: Seq<char>,
    pub tool_calls: Seq<SlotText>,
}

impl View for StreamAccumulator {
    type V = AccumulatorText;

    open spec fn view(&self) -> AccumulatorText {
        AccumulatorText { content: self.content@, tool_calls: slots(self.tool_calls@) }
    }
}

impl Default for StreamAccumulator {
    /// A reply of which nothing has come in yet.
    fn default() -> (r: StreamAccumulator)
        ensures
            r@ == (AccumulatorText { content: seq![], tool_calls: seq![] }),
    {
        let r = StreamAccumulator { content: String::new(), tool_calls: Vec::new() };
        proof {
            assert(r.content@ =~= seq![]);
            assert(slots(r.tool_calls@) =~= seq![]);
        }
        r
    }
}

/// The value that a field has after a piece came in: the first that is not empty stays.
pub open spec fn first_given(have: Seq<char>, piece: Option<Seq<char>>) -> Seq<char> {
    if have.len() == 0 && piece is Some {
        piece->0
    } else {
        have
    }
}

/// The name that a piece of a call gives.
pub open spec fn piece_name(tc: StreamDeltaToolCall) -> Option<Seq<char>> {
    match tc.function {
        Some(f) => opt_text(f.name),
        None => None,
    }
}

/// The arguments that a piece of a call gives.
pub open spec fn piece_arguments(tc: StreamDeltaToolCall) -> Seq<char> {
    match tc.function {
        Some(f) => match f.arguments {
            Some(s) => s@,
            None => seq![],
        },
        None => seq![],
    }
}

/// A call after a piece of it came in.
pub open spec fn grown(slot: SlotText, tc: StreamDeltaToolCall) -> SlotText {
    SlotText {
        index: slot.index,
        id: first_given(slot.id, opt_text(tc.id)),
        name: first_given(slot.name, piece_name(tc)),
        arguments: slot.arguments + piece_arguments(tc),
    }
}

/// A call of which nothing has come in yet.
pub open spec fn fresh(index: usize) -> SlotText {
    SlotText { index, id: seq![], name: seq![], arguments: seq![] }
}

/// The place of the first call with the given index, or the number of calls where there is none.
pub open spec fn slot_of(all: Seq<SlotText>, index: usize) -> int
    decreases all.len(),
{
    if all.len() == 0 || all[0].index == index {
        0
    } else {
        1 + slot_of(all.skip(1), index)
    }
}

/// The calls after a piece came in: it goes to the call with its index, which is added where it
/// is new.
pub open spec fn absorbed(all: Seq<SlotText>, tc: StreamDeltaToolCall) -> Seq<SlotText> {
    let k = slot_of(all, tc.index);
    if k < all.len() {
        all.update(k, grown(all[k], tc))
    } else {
        all.push(grown(fresh(tc.index), tc))
    }
}

/// The calls after pieces came in one after the other.
pub open spec fn absorbed_all(all: Seq<SlotText>, pieces: Seq<StreamDeltaToolCall>) -> Seq<SlotText>
    decreases pieces.len(),
{
    if pieces.len() == 0 {
        all
    } else {
        absorbed(absorbed_all(all, pieces.drop_last()), pieces.last())
    }
}

/// The text that a chunk adds; an empty piece adds none.
pub open spec fn chunk_text(chunk: Option<StreamChunk>) -> Option<Seq<char>> {
    match chunk {
        Some(c) => if c.choices@.len() > 0 {
            match c.choices@[0].delta.content {
                Some(text) => if text@.len() > 0 {
                    Some(text@)
                } else {
                    None
                },
                None => None,
            }
        } else {
            None
        },
        None => None,
    }
}

/// The pieces of tool calls that a chunk adds.
pub open spec fn chunk_pieces(chunk: Option<StreamChunk>) -> Seq<StreamDeltaToolCall> {
    match chunk {
        Some(c) => if c.choices@.len() > 0 {
            c.choices@[0].delta.tool_calls@
        } else {
            seq![]
        },
        None => seq![],
    }
}

/// Whether a chunk ends the stream: the model waits for its tool calls.
pub open spec fn chunk_ends(chunk: Option<StreamChunk>) -> bool {
    match chunk {
        Some(c) => c.choices@.len() > 0 && opt_text(c.choices@[0].finish_reason) == Some(
            "tool_calls"@,
        ),
        None => false,
    }
}

/// A reply after a chunk came in. A line that holds no chunk changes nothing.
pub open spec fn accumulated(acc: AccumulatorText, chunk: Option<StreamChunk>) -> AccumulatorText {
    AccumulatorText {
        content: match chunk_text(chunk) {
            Some(text) => acc.content + text,
            None => acc.content,
        },
        tool_calls: absorbed_all(acc.tool_calls, chunk_pieces(chunk)),
    }
}

/// The place of a call: the first one with its index, or behind all where there is none.
proof fn lemma_slot_of(all: Seq<SlotText>, index: usize)
    ensures
        0 <= slot_of(all, index) <= all.len(),
        forall|i: int| 0 <= i < slot_of(all, index) ==> (#[trigger] all[i]).index != index,
        slot_of(all, index) < all.len() ==> all[slot_of(all, index)].index == index,
    decreases all.len(),
{
    if all.len() > 0 && all[0].index != index {
        let rest = all.skip(1);
        lemma_slot_of(rest, index);
        assert forall|i: int| 0 <= i < slot_of(all, index) implies (#[trigger] all[i]).index
            != index by {
            if i > 0 {
                assert(rest[i - 1] == all[i]);
            }
        }
    }
}

/// A place with that index, and none before it, is the place of the call.
proof fn lemma_slot_of_is(all: Seq<SlotText>, index: usize, k: int)
    requires
        0 <= k <= all.len(),
        forall|i: int| 0 <= i < k ==> (#[trigger] all[i]).index != index,
        k < all.len() ==> all[k].index == index,
    ensures
        slot_of(all, index) == k,
{
    lemma_slot_of(all, index);
    let m = slot_of(all, index);
    if m < k {
        assert(all[m].index != index);
    } else if k < m {
        assert(all[k].index != index);
    }
}

fn grow(slot: &mut StreamToolCall, tc: &StreamDeltaToolCall)
    ensures
        final(slot)@ == grown(old(slot)@, *tc),
{
    let ghost before = slot@;
    match &tc.id {
        Some(id) => {
            if slot.id.as_str().is_empty() {
                slot.id = id.clone();
            }
        },
        None => {},
    }
    match &tc.function {
        Some(f) => {
            match &f.name {
                Some(name) => {
                    if slot.name.as_str().is_empty() {
                        slot.name = name.clone();
                    }
                },
                None => {},
            }
            match &f.arguments {
                Some(args) => {
                    slot.arguments.append(args.as_str());
                },
                None => {},
            }
        },
        None => {},
    }
    proof {
        assert(before.arguments + Seq::<char>::empty() =~= before.arguments);
    }
}

fn absorb(all: &mut Vec<StreamToolCall>, tc: &StreamDeltaToolCall)
    ensures
        slots(final(all)@) == absorbed(slots(old(all)@), *tc),
{
    let ghost before = slots(all@);
    let mut k: usize = 0;
    while k < all.len() && all[k].index != tc.index
        invariant
            k <= all@.len(),
            before == slots(all@),
            *all == *old(all),
            forall|i: int| 0 <= i < k ==> (#[trigger] before[i]).index != tc.index,
        decreases all@.len() - k,
    {
        k = k + 1;
    }
    proof {
        lemma_slot_of_is(before, tc.index, k as int);
    }
    if k < all.len() {
        let mut slot = all.remove(k);
        grow(&mut slot, tc);
        all.insert(k, slot);
        proof {
            assert(slots(all@) =~= before.update(k as int, grown(before[k as int], *tc)));
        }
    } else {
        let mut slot = StreamToolCall {
            index: tc.index,
            id: String::new(),
            name: String::new(),
            arguments: String::new(),
        };
        proof {
            assert(slot.id@ =~= seq![]);
            assert(slot.name@ =~= seq![]);
            assert(slot.arguments@ =~= seq![]);
        }
        grow(&mut slot, tc);
        all.push(slot);
        proof {
            assert(slots(all@) =~= before.push(grown(fresh(tc.index), *tc)));
        }
    }
}

/// Adds a chunk to a reply, and says whether it ends the stream and what text it adds. A line
/// whose data was no chunk (`None`) is passed over.
pub fn accumulate_chunk(chunk: &Option<StreamChunk>, acc: &mut StreamAccumulator) -> (r: (
    bool,
    Option<ModelEvent>,
))
    ensures
        final(acc)@ == accumulated(old(acc)@, *chunk),
        r.0 == chunk_ends(*chunk),
        event_text(r.1) == chunk_text(*chunk),
{
    let choice = match chunk {
        Some(c) => {
            if c.choices.len() == 0 {
                return (false, None);
            }
            &c.choices[0]
        },
        None => {
            return (false, None);
        },
    };
    let mut event: Option<ModelEvent> = None;
    match &choice.delta.content {
        Some(text) => {
            if !text.as_str().is_empty() {
                acc.content.append(text.as_str());
                event = Some(ModelEvent::TextDelta(text.clone()));
            }
        },
        None => {},
    }
    let pieces = &choice.delta.tool_calls;
    let ghost start = old(acc)@.tool_calls;
    let ghost content = acc.content@;
    let mut i: usize = 0;
    proof {
        assert(pieces@.take(0) =~= seq![]);
    }
    while i < pieces.len()
        invariant
            i <= pieces@.len(),
            acc.content@ == content,
            slots(acc.tool_calls@) == absorbed_all(start, pieces@.take(i as int)),
        decreases pieces@.len() - i,
    {
        absorb(&mut acc.tool_calls, &pieces[i]);
        proof {
            assert(pieces@.take(i + 1).drop_last() =~= pieces@.take(i as int));
        }
        i = i + 1;
    }
    proof {
        assert(pieces@.take(i as int) =~= pieces@);
    }
    let ended = match &choice.finish_reason {
        Some(reason) => same(reason.as_str(), "tool_calls"),
        None => false,
    };
    (ended, event)
}

/// What a line of a stream of events is.
#[derive(Debug, Clone, PartialEq, Eq)]
pub enum SseLine {
    /// Nothing to look at: empty, a comment, or another field.
    Skip,
    /// The end of the stream.
    Done,
    /// A chunk in JSON.
    Data(String),
}

/// An [`SseLine`] as the contracts see it.
pub enum SseText {
    Skip,
    Done,
    Data(Seq<char>),
}

impl View for SseLine {
    type V = SseText;

    open spec fn view(&self) -> SseText {
        match self {
            SseLine::Skip => SseText::Skip,
            SseLine::Done => SseText::Done,
            SseLine::Data(s) => SseText::Data(s@),
        }
    }
}

/// A line without the line ending behind it.
pub open spec fn without_line_end(s: Seq<char>) -> Seq<char>
    decreases s.len(),
{
    if s.len() > 0 && (s.last() == '\r' || s.last() == '\n') {
        without_line_end(s.drop_last())
    } else {
        s
    }
}

/// What a line of a stream of events means.
pub open spec fn sse_meaning(line: Seq<char>) -> SseText {
    let text = without_line_end(line);
    if text.len() == 0 || text[0] == ':' || !"data:"@.is_prefix_of(text) {
        SseText::Skip
    } else {
        let data = trimmed_start(text.skip("data:"@.len() as int));
        if data == "[DONE]"@ {
            SseText::Done
        } else {
            SseText::Data(data)
        }
    }
}

/// Reads a line of a stream of events.
pub fn read_sse_line(line: &str) -> (r: SseLine)
    ensures
        r@ == sse_meaning(line@),
{
    let cs = chars_of(line);
    let mut end: usize = cs.len();
    proof {
        assert(cs@.take(end as int) =~= line@);
    }
    while end > 0 && (cs[end - 1] == '\r' || cs[end - 1] == '\n')
        invariant
            end <= cs@.len(),
            without_line_end(cs@.take(end as int)) == without_line_end(line@),
        decreases end,
    {
        proof {
            assert(cs@.take(end as int).drop_last() =~= cs@.take(end - 1));
        }
        end = end - 1;
    }
    let text = string_between(cs.as_slice(), 0, end);
    proof {
        assert(text@ =~= cs@.take(end as int));
    }
    if end == 0 || cs[0] == ':' {
        return SseLine::Skip;
    }
    match strip_prefix(text.as_str(), "data:") {
        None => SseLine::Skip,
        Some(rest) => {
            let data = trim_start(rest.as_str());
            if same(data.as_str(), "[DONE]") {
                SseLine::Done
            } else {
                SseLine::Data(data)
            }
        },
    }
}

/// Takes a line of a stream of events: adds the chunk in it to the reply, and says whether the
/// stream has ended and what text was added. `chunk` is what the data of the line holds, where
/// there is data and it is a chunk.
pub fn parse_sse_line(line: &str, chunk: &Option<StreamChunk>, acc: &mut StreamAccumulator) -> (r: (
    bool,
    Option<ModelEvent>,
))
    ensures
        match sse_meaning(line@) {
            SseText::Skip => !r.0 && r.1 is None && final(acc)@ == old(acc)@,
            SseText::Done => r.0 && r.1 is None && final(acc)@ == old(acc)@,
            SseText::Data(_) => {
                &&& final(acc)@ == accumulated(old(acc)@, *chunk)
                &&& r.0 == chunk_ends(*chunk)
                &&& event_text(r.1) == chunk_text(*chunk)
            },
        },
{
    match read_sse_line(line) {
        SseLine::Skip => (false, None),
        SseLine::Done => (true, None),
        SseLine::Data(_) => accumulate_chunk(chunk, acc),
    }
}

/// The arguments of a streamed call: none at all count as an empty object.
pub open spec fn stream_arguments(raw: Seq<char>) -> Seq<char> {
    if trimmed(raw).len() == 0 {
        "{}"@
    } else {
        json_or_null(trimmed(raw))
    }
}

/// The call that streamed in.
pub open spec fn stream_call(slot: SlotText) -> CallText {
    CallText { id: slot.id, name: slot.name, arguments: stream_arguments(slot.arguments) }
}

/// What a streamed reply means: tool calls count before text.
pub open spec fn stream_result(acc: AccumulatorText) -> ResponseText {
    if acc.tool_calls.len() > 0 {
        ResponseText::ToolCall(acc.tool_calls.map_values(|s: SlotText| stream_call(s)))
    } else {
        ResponseText::Text(acc.content)
    }
}

/// Reads the arguments of a streamed call.
pub fn stream_arguments_value(raw: &str) -> (r: String)
    ensures
        r@ == stream_arguments(raw@),
        trimmed(raw@).len() > 0 ==> keeps_members(r@, trimmed(raw@)),
{
    let raw = trim(raw);
    if raw.as_str().is_empty() {
        "{}".to_owned()
    } else {
        compact_or_null(raw.as_str())
    }
}

/// Takes the meaning out of a streamed reply.
pub fn stream_to_response(acc: &StreamAccumulator) -> (r: Response)
    ensures
        r@ == stream_result(acc@),
        r matches Response::ToolCall(v) ==> forall|i: int|
            0 <= i < v@.len() && trimmed(acc.tool_calls@[i].arguments@).len() > 0 ==> keeps_members(
                (#[trigger] v@[i]).arguments@,
                trimmed(acc.tool_calls@[i].arguments@),
            ),
{
    if acc.tool_calls.len() == 0 {
        return Response::Text(acc.content.clone());
    }
    let ghost want = slots(acc.tool_calls@).map_values(|s: SlotText| stream_call(s));
    let mut r: Vec<ToolCall> = Vec::new();
    let mut i: usize = 0;
    proof {
        assert(calls(r@) =~= want.take(0));
    }
    while i < acc.tool_calls.len()
        invariant
            i <= acc.tool_calls@.len(),
            want == slots(acc.tool_calls@).map_values(|s: SlotText| stream_call(s)),
            r@.len() == i,
            calls(r@) == want.take(i as int),
            forall|k: int|
                0 <= k < i && trimmed(acc.tool_calls@[k].arguments@).len() > 0 ==> keeps_members(
                    (#[trigger] r@[k]).arguments@,
                    trimmed(acc.tool_calls@[k].arguments@),
                ),
        decreases acc.tool_calls@.len() - i,
    {
        let ghost before = r@;
        let slot = &acc.tool_calls[i];
        r.push(
            ToolCall {
                id: slot.id.clone(),
                name: slot.name.clone(),
                arguments: stream_arguments_value(slot.arguments.as_str()),
            },
        );
        proof {
            assert(r@.last()@ == want[i as int]);
            assert(calls(r@) =~= calls(before).push(want[i as int]));
            assert(want.take(i + 1) =~= want.take(i as int).push(want[i as int]));
        }
        i = i + 1;
    }
    proof {
        assert(want.take(i as int) =~= want);
    }
    Response::ToolCall(r)
}

// ---------------------------------------------------------------------------------------------
// Laws
// ---------------------------------------------------------------------------------------------

/// A reply after chunks came in one after the other.
pub open spec fn accumulated_all(acc: AccumulatorText, chunks: Seq<Option<StreamChunk>>) ->
    AccumulatorText
    decreases chunks.len(),
{
    if chunks.len() == 0 {
        acc
    } else {
        accumulated(accumulated_all(acc, chunks.drop_last()), chunks.last())
    }
}

/// The pieces of text that chunks add, in a row.
pub open spec fn texts_of(chunks: Seq<Option<StreamChunk>>) -> Seq<char>
    decreases chunks.len(),
{
    if chunks.len() == 0 {
        seq![]
    } else {
        texts_of(chunks.drop_last()) + match chunk_text(chunks.last()) {
            Some(text) => text,
            None => seq![],
        }
    }
}

/// The text of a reply is what was shown while it streamed in: the pieces in a row, nothing
/// else.
pub proof fn law_text_is_what_was_shown(acc: AccumulatorText, chunks: Seq<Option<StreamChunk>>)
    ensures
        accumulated_all(acc, chunks).content == acc.content + texts_of(chunks),
    decreases chunks.len(),
{
    if chunks.len() == 0 {
        assert(acc.content + texts_of(chunks) =~= acc.content);
    } else {
        law_text_is_what_was_shown(acc, chunks.drop_last());
        assert(accumulated_all(acc, chunks).content =~= acc.content + texts_of(chunks));
    }
}

/// Whether no two calls have the same index.
pub open spec fn distinct(all: Seq<SlotText>) -> bool {
    forall|i: int, j: int|
        0 <= i < j < all.len() ==> (#[trigger] all[i]).index != (#[trigger] all[j]).index
}

/// No two calls of a streamed reply have the same index, whatever pieces come in.
pub proof fn law_calls_stay_distinct(all: Seq<SlotText>, pieces: Seq<StreamDeltaToolCall>)
    requires
        distinct(all),
    ensures
        distinct(absorbed_all(all, pieces)),
    decreases pieces.len(),
{
    if pieces.len() > 0 {
        law_calls_stay_distinct(all, pieces.drop_last());
        lemma_slot_of(absorbed_all(all, pieces.drop_last()), pieces.last().index);
    }
}

/// The call with the given index, or one of which nothing has come in yet.
pub open spec fn call_at(all: Seq<SlotText>, index: usize) -> SlotText {
    if slot_of(all, index) < all.len() {
        all[slot_of(all, index)]
    } else {
        fresh(index)
    }
}

/// The pieces that belong to a call, applied to it one after the other.
pub open spec fn grown_all(
    slot: SlotText,
    index: usize,
    pieces: Seq<StreamDeltaToolCall>,
) -> SlotText
    decreases pieces.len(),
{
    if pieces.len() == 0 {
        slot
    } else if pieces.last().index == index {
        grown(grown_all(slot, index, pieces.drop_last()), pieces.last())
    } else {
        grown_all(slot, index, pieces.drop_last())
    }
}

proof fn lemma_absorbed_at(all: Seq<SlotText>, tc: StreamDeltaToolCall, index: usize)
    ensures
        call_at(absorbed(all, tc), index) == if tc.index == index {
            grown(call_at(all, index), tc)
        } else {
            call_at(all, index)
        },
{
    lemma_slot_of(all, tc.index);
    lemma_slot_of(all, index);
    let k = slot_of(all, index);
    let after = absorbed(all, tc);
    if tc.index == index {
        lemma_slot_of_is(after, index, k);
    } else if k < all.len() {
        lemma_slot_of_is(after, index, k);
    } else {
        lemma_slot_of_is(after, index, after.len() as int);
    }
}

/// Each call is built from its own pieces alone, in the order in which they came, however the
/// pieces of different calls are mixed.
pub proof fn law_calls_do_not_mix(
    all: Seq<SlotText>,
    pieces: Seq<StreamDeltaToolCall>,
    index: usize,
)
    ensures
        call_at(absorbed_all(all, pieces), index) == grown_all(call_at(all, index), index, pieces),
    decreases pieces.len(),
{
    if pieces.len() > 0 {
        law_calls_do_not_mix(all, pieces.drop_last(), index);
        lemma_absorbed_at(absorbed_all(all, pieces.drop_last()), pieces.last(), index);
    }
}

/// The pieces of arguments that belong to a call, in a row.
pub open spec fn arguments_for(index: usize, pieces: Seq<StreamDeltaToolCall>) -> Seq<char>
    decreases pieces.len(),
{
    if pieces.len() == 0 {
        seq![]
    } else if pieces.last().index == index {
        arguments_for(index, pieces.drop_last()) + piece_arguments(pieces.last())
    } else {
        arguments_for(index, pieces.drop_last())
    }
}

/// The arguments of a call are the pieces that belong to it, in a row; its id and its name, once
/// there, stay.
pub proof fn law_arguments_are_joined(
    all: Seq<SlotText>,
    pieces: Seq<StreamDeltaToolCall>,
    index: usize,
)
    ensures
        ({
            let before = call_at(all, index);
            let after = call_at(absorbed_all(all, pieces), index);
            &&& after.arguments == before.arguments + arguments_for(index, pieces)
            &&& before.id.len() > 0 ==> after.id == before.id
            &&& before.name.len() > 0 ==> after.name == before.name
        }),
    decreases pieces.len(),
{
    let before = call_at(all, index);
    if pieces.len() == 0 {
        assert(before.arguments + arguments_for(index, pieces) =~= before.arguments);
    } else {
        law_arguments_are_joined(all, pieces.drop_last(), index);
        lemma_absorbed_at(absorbed_all(all, pieces.drop_last()), pieces.last(), index);
        let after = call_at(absorbed_all(all, pieces), index);
        assert(after.arguments =~= before.arguments + arguments_for(index, pieces));
    }
}

/// A streamed reply is a request for tools exactly where a call came in, whatever text came with
/// it: as many calls as came in, in their order, each with its own id and name, and with the
/// arguments that streamed in for it. Otherwise it is the text that came in.
pub proof fn law_streamed_calls_are_answered_for(acc: AccumulatorText)
    ensures
        stream_result(acc) is ToolCall <==> acc.tool_calls.len() > 0,
        stream_result(acc) matches ResponseText::ToolCall(made) ==> made.len()
            == acc.tool_calls.len() && forall|k: int|
            0 <= k < made.len() ==> (#[trigger] made[k]).id == acc.tool_calls[k].id && made[k].name
                == acc.tool_calls[k].name && made[k].arguments == (if trimmed(
                acc.tool_calls[k].arguments,
            ).len() == 0 {
                "{}"@
            } else if json_compact(trimmed(acc.tool_calls[k].arguments)) is Some {
                json_compact(trimmed(acc.tool_calls[k].arguments))->0
            } else {
                "null"@
            }),
        acc.tool_calls.len() == 0 <==> stream_result(acc) == ResponseText::Text(acc.content),
{
}

/// A whole reply is a request for tools exactly where its first choice holds a call, whatever text
/// comes with it: as many calls as it holds, in their order, each with its own id and name.
/// Otherwise it is the text of that choice; without a choice there is no meaning.
pub proof fn law_replied_calls_are_answered_for(r: ChatResponse)
    ensures
        chat_result(r) is Err <==> r.choices@.len() == 0,
        chat_result(r) matches Ok(meant) ==> {
            let message = r.choices@[0].message;
            let called = message.tool_calls is Some && message.tool_calls->0@.len() > 0;
            &&& meant is ToolCall <==> called
            &&& meant matches ResponseText::ToolCall(made) ==> made.len()
                == message.tool_calls->0@.len() && forall|k: int|
                0 <= k < made.len() ==> (#[trigger] made[k]).id == message.tool_calls->0@[k].id@
                    && made[k].name == message.tool_calls->0@[k].function.name@
                    && made[k].arguments == (if json_compact(
                    message.tool_calls->0@[k].function.arguments@,
                ) is Some {
                    json_compact(message.tool_calls->0@[k].function.arguments@)->0
                } else {
                    "null"@
                })
            &&& !called && message.content is Some ==> meant == ResponseText::Text(
                message.content->0@,
            )
            &&& !called && message.content is None ==> meant == ResponseText::Text(seq![])
        },
{
}

/// A chunk adds its own text, whole and whatever else the chunk holds, behind what came before,
/// and hands on all its pieces of calls; what has no first choice adds nothing.
pub proof fn law_chunks_add_what_they_hold(acc: AccumulatorText, c: StreamChunk)
    ensures
        c.choices@.len() > 0 && c.choices@[0].delta.content is Some ==> accumulated(
            acc,
            Some(c),
        ).content == acc.content + c.choices@[0].delta.content->0@,
        c.choices@.len() > 0 && c.choices@[0].delta.content is None ==> accumulated(
            acc,
            Some(c),
        ).content == acc.content,
        c.choices@.len() > 0 ==> accumulated(acc, Some(c)).tool_calls == absorbed_all(
            acc.tool_calls,
            c.choices@[0].delta.tool_calls@,
        ),
        c.choices@.len() > 0 && c.choices@[0].delta.content is Some
            && c.choices@[0].delta.content->0@.len() > 0 ==> chunk_text(Some(c)) == Some(
            c.choices@[0].delta.content->0@,
        ),
        c.choices@.len() == 0 ==> accumulated(acc, Some(c)) == acc,
        accumulated(acc, None) == acc,
        chunk_ends(Some(c)) <==> c.choices@.len() > 0 && c.choices@[0].finish_reason is Some
            && c.choices@[0].finish_reason->0@ == "tool_calls"@,
        !chunk_ends(None),
{
    if c.choices@.len() > 0 && c.choices@[0].delta.content is Some {
        let text = c.choices@[0].delta.content->0@;
        if text.len() == 0 {
            assert(acc.content + text =~= acc.content);
        }
    }
}

/// Pieces are taken one after the other.
pub proof fn law_pieces_are_taken_in_turn(
    all: Seq<SlotText>,
    a: Seq<StreamDeltaToolCall>,
    b: Seq<StreamDeltaToolCall>,
    tc: StreamDeltaToolCall,
)
    ensures
        absorbed_all(all, a + b) == absorbed_all(absorbed_all(all, a), b),
        absorbed_all(all, seq![tc]) == absorbed(all, tc),
        absorbed_all(all, seq![]) == all,
    decreases b.len(),
{
    let one = seq![tc];
    assert(one.drop_last() =~= seq![]);
    assert(absorbed_all(all, one.drop_last()) == all);
    if b.len() == 0 {
        assert(a + b =~= a);
    } else {
        assert((a + b).drop_last() =~= a + b.drop_last());
        law_pieces_are_taken_in_turn(all, a, b.drop_last(), tc);
    }
}

/// A piece goes to the call of its index, or begins a new one behind the others; no other call
/// changes. Its arguments are added to those that are there; its id and its name count where there
/// is none yet.
pub proof fn law_piece_goes_to_its_call(all: Seq<SlotText>, tc: StreamDeltaToolCall, k: int)
    ensures
        (forall|i: int| 0 <= i < all.len() ==> (#[trigger] all[i]).index != tc.index) ==> {
            let r = absorbed(all, tc);
            &&& r.len() == all.len() + 1
            &&& r.drop_last() == all
            &&& r.last().index == tc.index
            &&& r.last().arguments == piece_arguments(tc)
            &&& tc.id is Some ==> r.last().id == tc.id->0@
            &&& tc.id is None ==> r.last().id.len() == 0
            &&& tc.function is Some && tc.function->0.name is Some ==> r.last().name
                == tc.function->0.name->0@
            &&& tc.function is None || tc.function->0.name is None ==> r.last().name.len() == 0
        },
        0 <= k < all.len() && all[k].index == tc.index && (forall|i: int|
            0 <= i < k ==> (#[trigger] all[i]).index != tc.index) ==> {
            let r = absorbed(all, tc);
            &&& r.len() == all.len()
            &&& forall|i: int| 0 <= i < all.len() && i != k ==> #[trigger] r[i] == all[i]
            &&& r[k].index == all[k].index
            &&& r[k].arguments == all[k].arguments + piece_arguments(tc)
            &&& all[k].id.len() > 0 || tc.id is None ==> r[k].id == all[k].id
            &&& all[k].id.len() == 0 && tc.id is Some ==> r[k].id == tc.id->0@
            &&& all[k].name.len() > 0 || tc.function is None || tc.function->0.name is None
                ==> r[k].name == all[k].name
            &&& all[k].name.len() == 0 && tc.function is Some && tc.function->0.name is Some
                ==> r[k].name == tc.function->0.name->0@
        },
        tc.function is Some && tc.function->0.arguments is Some ==> piece_arguments(tc)
            == tc.function->0.arguments->0@,
        tc.function is None || tc.function->0.arguments is None ==> piece_arguments(tc).len() == 0,
{
    let r = absorbed(all, tc);
    if forall|i: int| 0 <= i < all.len() ==> (#[trigger] all[i]).index != tc.index {
        lemma_slot_of_is(all, tc.index, all.len() as int);
        assert(r.drop_last() =~= all);
        assert(r.last().arguments =~= piece_arguments(tc));
    }
    if 0 <= k < all.len() && all[k].index == tc.index && (forall|i: int|
        0 <= i < k ==> (#[trigger] all[i]).index != tc.index) {
        lemma_slot_of_is(all, tc.index, k);
    }
}

/// Whether a text is made of carriage returns and line feeds only.
pub open spec fn line_end(e: Seq<char>) -> bool {
    forall|i: int| 0 <= i < e.len() ==> #[trigger] e[i] == '\r' || e[i] == '\n'
}

/// A line of the stream counts exactly where it begins with `data:`. What it carries is all that
/// follows, without the white space in front and the end of the line; `[DONE]` is the end.
pub proof fn law_stream_lines(line: Seq<char>, w: Seq<char>, data: Seq<char>, e: Seq<char>)
    requires
        all_blank(w),
        line_end(e),
        data.len() > 0,
        !white_space(data[0]),
        data.last() != '\r',
        data.last() != '\n',
    ensures
        sse_meaning(line) is Skip <==> !"data:"@.is_prefix_of(line),
        sse_meaning("data:"@ + w + data + e) == (if data == "[DONE]"@ {
            SseText::Done
        } else {
            SseText::Data(data)
        }),
        sse_meaning(line) is Done ==> exists|v: Seq<char>, f: Seq<char>|
            all_blank(v) && line_end(f) && line == #[trigger] ("data:"@ + v + "[DONE]"@ + f),
{
    reveal_strlit("data:");
    let p = "data:"@;
    let text = without_line_end(line);
    lemma_without_line_end(line);
    assert(p.len() == 5);
    if p.is_prefix_of(line) {
        if text.len() < 5 {
            assert(line.skip(text.len() as int)[0] == line[text.len() as int]);
            assert(line.subrange(0, 5)[text.len() as int] == p[text.len() as int]);
            assert(p[0] == 'd' && p[1] == 'a' && p[2] == 't' && p[3] == 'a' && p[4] == ':');
        }
        assert(text.subrange(0, 5) =~= line.subrange(0, 5));
        assert(text[0] == text.subrange(0, 5)[0]);
    } else if p.is_prefix_of(text) {
        assert(line.subrange(0, 5) =~= text.subrange(0, 5));
    }
    let t = p + w + data;
    assert(t.last() == data.last());
    lemma_line_end_goes(t, e);
    assert(t.subrange(0, 5) =~= p);
    assert(t[0] == 'd');
    assert(t.skip(5) =~= w + data);
    lemma_trimmed_start_is(w, data);
    if sse_meaning(line) is Done {
        let rest = text.skip(5);
        lemma_trimmed_start_split(rest);
        let v = rest.take(rest.len() - trimmed_start(rest).len());
        let f = line.skip(text.len() as int);
        assert(text =~= p + v + "[DONE]"@) by {
            assert(text.subrange(0, 5) =~= p);
            assert(rest =~= v + "[DONE]"@);
            assert(text =~= text.subrange(0, 5) + rest);
        }
        assert(line =~= text + f);
        assert(line =~= p + v + "[DONE]"@ + f);
    }
}

proof fn lemma_without_line_end(s: Seq<char>)
    ensures
        without_line_end(s).len() <= s.len(),
        s.take(without_line_end(s).len() as int) == without_line_end(s),
        line_end(s.skip(without_line_end(s).len() as int)),
    decreases s.len(),
{
    let n = without_line_end(s).len() as int;
    if s.len() > 0 && (s.last() == '\r' || s.last() == '\n') {
        let front = s.drop_last();
        lemma_without_line_end(front);
        assert(s.take(n) =~= front.take(n));
        assert forall|i: int| 0 <= i < s.skip(n).len() implies #[trigger] s.skip(n)[i] == '\r'
            || s.skip(n)[i] == '\n' by {
            if i < s.skip(n).len() - 1 {
                assert(s.skip(n)[i] == front.skip(n)[i]);
            }
        }
    } else {
        assert(s.take(n) =~= s);
    }
}

proof fn lemma_line_end_goes(t: Seq<char>, e: Seq<char>)
    requires
        line_end(e),
        t.len() > 0,
        t.last() != '\r',
        t.last() != '\n',
    ensures
        without_line_end(t + e) == t,
    decreases e.len(),
{
    if e.len() == 0 {
        assert(t + e =~= t);
    } else {
        assert((t + e).last() == e[e.len() - 1]);
        assert((t + e).drop_last() =~= t + e.drop_last());
        assert forall|i: int| 0 <= i < e.drop_last().len() implies #[trigger] e.drop_last()[i]
            == '\r' || e.drop_last()[i] == '\n' by {
            assert(e.drop_last()[i] == e[i]);
        }
        lemma_line_end_goes(t, e.drop_last());
    }
}

/// A message is sent as it is: with the word for its role, its whole content (which is left out
/// only where it is empty and there are calls), the id that it answers, and all its calls in
/// order, each with its id, its name and its arguments.
pub proof fn law_messages_are_sent_whole(m: MessageText)
    ensures
        ({
            let r = api_message_of(m);
            &&& m.role == Role::User ==> r.role == "user"@
            &&& m.role == Role::Assistant ==> r.role == "assistant"@
            &&& m.role == Role::Tool ==> r.role == "tool"@
            &&& r.tool_call_id == m.tool_call_id
            &&& r.content is None <==> m.content.len() == 0 && m.tool_calls.len() > 0
            &&& r.content is Some ==> r.content->0 == m.content
            &&& r.tool_calls.len() == m.tool_calls.len()
            &&& forall|k: int|
                0 <= k < r.tool_calls.len() ==> (#[trigger] r.tool_calls[k]).id
                    == m.tool_calls[k].id && r.tool_calls[k].name == m.tool_calls[k].name
                    && r.tool_calls[k].kind == "function"@ && r.tool_calls[k].arguments == (
                if json_compact(m.tool_calls[k].arguments) is Some {
                    json_compact(m.tool_calls[k].arguments)->0
                } else {
                    "{}"@
                })
        }),
{
}

/// A tool is described to the model as it is defined.
pub proof fn law_tools_are_sent_whole(d: DefinitionText)
    ensures
        api_tool_of(d).name == d.name,
        api_tool_of(d).description == d.description,
        api_tool_of(d).parameters == d.parameters,
        api_tool_of(d).kind == "function"@,
{
}

/// A line of the stream with nothing but white space behind `data:` carries the empty text.
pub proof fn law_empty_stream_line(w: Seq<char>)
    requires
        all_blank(w),
    ensures
        sse_meaning("data:"@ + w) == SseText::Data(Seq::<char>::empty()),
{
    reveal_strlit("data:");
    reveal_strlit("[DONE]");
    let p = "data:"@;
    let line = p + w;
    let text = without_line_end(line);
    lemma_without_line_end(line);
    assert(p =~= line.subrange(0, 5));
    if text.len() < 5 {
        let k = text.len() as int;
        assert(line.skip(k)[0] == line[k]);
        assert(line[k] == p[k]);
        assert(p[0] == 'd' && p[1] == 'a' && p[2] == 't' && p[3] == 'a' && p[4] == ':');
    }
    assert(text.subrange(0, 5) =~= p);
    assert(text[0] == 'd');
    let rest = text.skip(5);
    assert forall|i: int| 0 <= i < rest.len() implies white_space(#[trigger] rest[i]) by {
        assert(rest[i] == w[i]);
    }
    lemma_trimmed_start_is(rest, Seq::<char>::empty());
    assert(rest + Seq::<char>::empty() =~= rest);
    assert("[DONE]"@.len() == 6);
}

/// What [`stream_to_response`] gives back: as many calls as came in, whatever the text, the k-th
/// with the id and the name of the k-th; and the text exactly where no call came in.
pub proof fn law_stream_to_response(acc: &StreamAccumulator, r: Response)
    requires
        call_ensures(stream_to_response, (acc,), r),
    ensures
        r is ToolCall <==> acc.tool_calls@.len() > 0,
        r matches Response::ToolCall(made) ==> made@.len() == acc.tool_calls@.len() && forall|k: int|
            0 <= k < made@.len() ==> (#[trigger] made@[k]).id@ == acc.tool_calls@[k].id@
                && made@[k].name@ == acc.tool_calls@[k].name@,
        r matches Response::Text(text) ==> text@ == acc.content@,
{
    law_streamed_calls_are_answered_for(acc@);
    assert(slots(acc.tool_calls@).len() == acc.tool_calls@.len());
    if r is ToolCall {
        let made = r->ToolCall_0;
        let seen = calls(made@);
        assert(seen.len() == made@.len());
        assert forall|k: int| 0 <= k < made@.len() implies (#[trigger] made@[k]).id@
            == acc.tool_calls@[k].id@ && made@[k].name@ == acc.tool_calls@[k].name@ by {
            assert(seen[k] == made@[k]@);
            assert(slots(acc.tool_calls@)[k] == acc.tool_calls@[k]@);
        }
    }
}

/// Only text that is there is shown: a chunk with an empty text, or none, shows nothing.
pub proof fn law_empty_text_is_not_shown(c: StreamChunk)
    ensures
        chunk_text(None) is None,
        c.choices@.len() == 0 ==> chunk_text(Some(c)) is None,
        c.choices@.len() > 0 && (c.choices@[0].delta.content is None
            || c.choices@[0].delta.content->0@.len() == 0) ==> chunk_text(Some(c)) is None,
{
}

} // verus!
