//! One turn of the agent: from what the user says to what the model answers, with the tool calls
//! in between.
//!
//! The program around this library asks the model and runs the tools; a [`Turn`] says which of
//! the two is next, and keeps the conversation.

use vstd::prelude::*;

use crate::capabilities::{denial, denial_message, Capabilities};
use crate::error::{ToolError, ToolFault};
use crate::message::{calls, copy_calls, messages, CallText, Message, MessageText, Role, ToolCall};
use crate::model::{Response, ResponseText};
use crate::text::cat2;
use crate::tool::{arguments_of, tool_of, Tool, ToolText};

verus! {

/// How often the model may ask for tool calls before it has to answer.
pub const MAX_TOOL_ROUNDS: usize = 8;

/// Why a turn ended without an answer. What goes wrong with a tool is no such reason: the model
/// is told, and goes on.
#[derive(Debug, Clone, PartialEq, Eq)]
pub enum AgentError {
    /// The model asked for tool calls too often.
    TooManyToolRounds,
    /// The model could not be reached, or its reply could not be read.
    Model(String),
}

/// An [`AgentError`] as the contracts see it.
pub enum AgentFault {
    TooManyToolRounds,
    Model(Seq<char>),
}

impl View for AgentError {
    type V = AgentFault;

    open spec fn view(&self) -> AgentFault {
        match self {
            AgentError::TooManyToolRounds => AgentFault::TooManyToolRounds,
            AgentError::Model(s) => AgentFault::Model(s@),
        }
    }
}

impl AgentError {
    /// The sentence that tells the user what went wrong.
    pub fn message(&self) -> (r: String)
        ensures
            r@ == match self@ {
                AgentFault::TooManyToolRounds => "too many tool-call rounds, giving up"@,
                AgentFault::Model(s) => s,
            },
    {
        match self {
            AgentError::TooManyToolRounds => "too many tool-call rounds, giving up".to_owned(),
            AgentError::Model(s) => s.clone(),
        }
    }
}

// ---------------------------------------------------------------------------------------------
// The model of a turn
// ---------------------------------------------------------------------------------------------

/// A [`Turn`] as the contracts see it.
pub struct TurnText {
    /// How long the conversation was before the turn.
    pub start: int,
    /// How often the model has asked for tool calls.
    pub rounds: int,
    /// The calls that have no result yet, in order.
    pub pending: Seq<CallText>,
}

/// What happens in a turn.
pub enum TurnEvent {
    /// The model replied, or failed to.
    Reply(Result<ResponseText, Seq<char>>),
    /// The first of the pending calls has a result.
    ToolResult(Seq<char>),
}

/// Whether and how a turn has ended.
pub enum TurnEnd {
    Running,
    Answered,
    Failed(AgentFault),
}

/// A turn together with the conversation.
pub struct TurnState {
    pub conversation: Seq<MessageText>,
    pub turn: TurnText,
    pub end: TurnEnd,
}

/// A turn that has just begun: the user has spoken.
pub open spec fn begun(before: Seq<MessageText>, user_text: Seq<char>) -> TurnState {
    TurnState {
        conversation: before.push(MessageText::user(user_text)),
        turn: TurnText { start: before.len() as int, rounds: 0, pending: seq![] },
        end: TurnEnd::Running,
    }
}

/// A turn that failed: nothing of it stays in the conversation.
pub open spec fn failed(s: TurnState, fault: AgentFault) -> TurnState {
    TurnState {
        conversation: s.conversation.take(s.turn.start),
        turn: s.turn,
        end: TurnEnd::Failed(fault),
    }
}

/// What a reply of the model does to a turn.
pub open spec fn after_reply(s: TurnState, reply: Result<ResponseText, Seq<char>>) -> TurnState {
    match reply {
        Err(e) => failed(s, AgentFault::Model(e)),
        Ok(ResponseText::Text(answer)) => TurnState {
            conversation: s.conversation.push(MessageText::assistant(answer)),
            turn: s.turn,
            end: TurnEnd::Answered,
        },
        Ok(ResponseText::ToolCall(asked)) => if s.turn.rounds >= MAX_TOOL_ROUNDS {
            failed(s, AgentFault::TooManyToolRounds)
        } else {
            TurnState {
                conversation: s.conversation.push(MessageText::assistant_tool_calls(asked)),
                turn: TurnText {
                    start: s.turn.start,
                    rounds: s.turn.rounds + 1,
                    pending: asked,
                },
                end: TurnEnd::Running,
            }
        },
    }
}

/// What the result of a tool call does to a turn.
pub open spec fn after_tool(s: TurnState, result: Seq<char>) -> TurnState {
    TurnState {
        conversation: s.conversation.push(MessageText::tool(result, s.turn.pending[0].id)),
        turn: TurnText {
            start: s.turn.start,
            rounds: s.turn.rounds,
            pending: s.turn.pending.skip(1),
        },
        end: TurnEnd::Running,
    }
}

/// What is next in a turn.
pub enum NextText {
    /// Ask the model for a reply to the conversation.
    AskModel,
    /// The first pending call is not run; this is its result. Whether it was not allowed.
    Answer(Seq<char>, bool),
    /// Run this tool for the first pending call.
    Run(ToolText),
}

/// What the model is told of a tool that failed.
pub open spec fn tool_error_text(fault: ToolFault) -> Seq<char> {
    "tool error: "@ + fault.message()
}

/// What becomes of a tool call: first it has to be allowed, then it has to be a call of a tool.
pub open spec fn call_decision(caps: Capabilities, call: CallText) -> NextText {
    match caps.missing(call.name) {
        Some(c) => NextText::Answer(denial(call.name, c), true),
        None => match tool_of(call.name, arguments_of(call.arguments)) {
            Ok(tool) => NextText::Run(tool),
            Err(fault) => NextText::Answer(tool_error_text(fault), false),
        },
    }
}

// ---------------------------------------------------------------------------------------------
// A turn
// ---------------------------------------------------------------------------------------------

/// A turn of the agent.
#[derive(Debug)]
pub struct Turn {
    /// How long the conversation was before the turn.
    start: usize,
    /// How often the model has asked for tool calls.
    rounds: usize,
    /// The calls that have no result yet, in order.
    pending: Vec<ToolCall>,
}

impl View for Turn {
    type V = TurnText;

    closed spec fn view(&self) -> TurnText {
        TurnText {
            start: self.start as int,
            rounds: self.rounds as int,
            pending: calls(self.pending@),
        }
    }
}

/// What is next in a turn.
#[derive(Debug)]
pub enum NextStep {
    /// Ask the model for a reply to the conversation.
    AskModel,
    /// The first pending call is not run; this is its result. Whether it was not allowed.
    Answer(String, bool),
    /// Run this tool for the first pending call.
    Run(Tool),
}

impl View for NextStep {
    type V = NextText;

    open spec fn view(&self) -> NextText {
        match self {
            NextStep::AskModel => NextText::AskModel,
            NextStep::Answer(s, denied) => NextText::Answer(s@, *denied),
            NextStep::Run(tool) => NextText::Run(tool@),
        }
    }
}

/// The reply of a model as the contracts see it.
pub open spec fn reply_text(r: Result<Response, String>) -> Result<ResponseText, Seq<char>> {
    match r {
        Ok(response) => Ok(response@),
        Err(e) => Err(e@),
    }
}

/// Whether a turn has ended, as the functions below return it.
pub open spec fn end_text(r: Option<Result<(), AgentError>>) -> TurnEnd {
    match r {
        None => TurnEnd::Running,
        Some(Ok(())) => TurnEnd::Answered,
        Some(Err(e)) => TurnEnd::Failed(e@),
    }
}

/// What a tool gives the model: its result, or what went wrong.
pub fn tool_reply(result: Result<String, ToolError>) -> (r: String)
    ensures
        r@ == match result {
            Ok(text) => text@,
            Err(e) => tool_error_text(e@),
        },
{
    match result {
        Ok(text) => text,
        Err(e) => cat2("tool error: ", e.message().as_str()),
    }
}

impl Turn {
    /// The turn and the conversation together.
    pub open spec fn with(&self, conversation: Seq<Message>) -> TurnState {
        TurnState {
            conversation: messages(conversation),
            turn: self@,
            end: TurnEnd::Running,
        }
    }

    /// Begins a turn with what the user says.
    pub fn begin(conversation: &mut Vec<Message>, user_text: &str) -> (r: Turn)
        ensures
            r.with(final(conversation)@) == begun(messages(old(conversation)@), user_text@),
    {
        let ghost before = conversation@;
        let start: usize = conversation.len();
        conversation.push(Message::user(user_text));
        let r = Turn { start, rounds: 0, pending: Vec::new() };
        proof {
            assert(messages(conversation@) =~= messages(before).push(
                MessageText::user(user_text@),
            ));
            assert(calls(r.pending@) =~= seq![]);
        }
        r
    }

    /// The first pending call.
    pub fn current(&self) -> (r: Option<&ToolCall>)
        ensures
            match r {
                Some(call) => self@.pending.len() > 0 && call@ == self@.pending[0],
                None => self@.pending.len() == 0,
            },
    {
        if self.pending.len() == 0 {
            None
        } else {
            Some(&self.pending[0])
        }
    }

    /// Says what is next.
    pub fn next(&self, caps: &Capabilities) -> (r: NextStep)
        ensures
            r@ == if self@.pending.len() == 0 {
                NextText::AskModel
            } else {
                call_decision(*caps, self@.pending[0])
            },
    {
        if self.pending.len() == 0 {
            return NextStep::AskModel;
        }
        let call = &self.pending[0];
        match denial_message(caps, call.name.as_str()) {
            Some(text) => NextStep::Answer(text, true),
            None => match Tool::from_call(call.name.as_str(), call.arguments.as_str()) {
                Ok(tool) => NextStep::Run(tool),
                Err(e) => NextStep::Answer(cat2("tool error: ", e.message().as_str()), false),
            },
        }
    }

    /// Takes the reply of the model. Says whether the turn has ended: with an answer, which then
    /// stands in the conversation, or with a failure, which leaves the conversation as it was
    /// before the turn.
    pub fn on_reply(
        &mut self,
        conversation: &mut Vec<Message>,
        reply: Result<Response, String>,
    ) -> (r: Option<Result<(), AgentError>>)
        requires
            old(self)@.pending.len() == 0,
            old(self)@.start <= messages(old(conversation)@).len(),
        ensures
            ({
                let after = after_reply(
                    old(self).with(old(conversation)@),
                    reply_text(reply),
                );
                &&& messages(final(conversation)@) == after.conversation
                &&& final(self)@ == after.turn
                &&& end_text(r) == after.end
            }),
    {
        let ghost before = conversation@;
        match reply {
            Ok(Response::Text(answer)) => {
                conversation.push(Message::assistant(answer.as_str()));
                proof {
                    assert(messages(conversation@) =~= messages(before).push(
                        MessageText::assistant(answer@),
                    ));
                }
                Some(Ok(()))
            },
            Ok(Response::ToolCall(asked)) => {
                if self.rounds >= MAX_TOOL_ROUNDS {
                    conversation.truncate(self.start);
                    proof {
                        assert(messages(conversation@) =~= messages(before).take(
                            self.start as int,
                        ));
                    }
                    return Some(Err(AgentError::TooManyToolRounds));
                }
                self.rounds = self.rounds + 1;
                self.pending = copy_calls(asked.as_slice());
                conversation.push(Message::assistant_tool_calls(asked));
                proof {
                    assert(messages(conversation@) =~= messages(before).push(
                        MessageText::assistant_tool_calls(calls(asked@)),
                    ));
                }
                None
            },
            Err(e) => {
                conversation.truncate(self.start);
                proof {
                    assert(messages(conversation@) =~= messages(before).take(self.start as int));
                }
                Some(Err(AgentError::Model(e)))
            },
        }
    }

    /// Takes the result of the first pending call.
    pub fn on_tool_result(&mut self, conversation: &mut Vec<Message>, result: &str)
        requires
            old(self)@.pending.len() > 0,
        ensures
            final(self).with(final(conversation)@) == after_tool(
                old(self).with(old(conversation)@),
                result@,
            ),
    {
        let ghost before = conversation@;
        let ghost waiting = self.pending@;
        let call = self.pending.remove(0);
        conversation.push(Message::tool(result, call.id.as_str()));
        proof {
            assert(calls(waiting)[0] == call@);
            assert(calls(self.pending@) =~= calls(waiting).skip(1));
            assert(messages(conversation@) =~= messages(before).push(
                MessageText::tool(result@, call.id@),
            ));
        }
    }
}

// ---------------------------------------------------------------------------------------------
// Laws
// ---------------------------------------------------------------------------------------------

/// What an event does to a turn. Nothing happens to a turn that has ended; a reply counts only
/// where no call is pending, a result only where one is.
pub open spec fn after_event(s: TurnState, e: TurnEvent) -> TurnState {
    match (s.end, e) {
        (TurnEnd::Running, TurnEvent::Reply(reply)) => if s.turn.pending.len() == 0 {
            after_reply(s, reply)
        } else {
            s
        },
        (TurnEnd::Running, TurnEvent::ToolResult(result)) => if s.turn.pending.len() > 0 {
            after_tool(s, result)
        } else {
            s
        },
        _ => s,
    }
}

/// A turn after events one after the other.
pub open spec fn after_events(s: TurnState, events: Seq<TurnEvent>) -> TurnState
    decreases events.len(),
{
    if events.len() == 0 {
        s
    } else {
        after_event(after_events(s, events.drop_last()), events.last())
    }
}

/// The calls that are still open after the messages of a turn, read in order: a message that
/// asks for calls opens them, the result of a call has to be that of the first open one. Nothing
/// where the messages are out of order.
pub open spec fn open_calls(part: Seq<MessageText>) -> Option<Seq<CallText>>
    decreases part.len(),
{
    if part.len() == 0 {
        Some(seq![])
    } else {
        match open_calls(part.drop_last()) {
            None => None,
            Some(open) => match part.last().role {
                Role::Assistant => if open.len() == 0 {
                    Some(part.last().tool_calls)
                } else {
                    None
                },
                Role::Tool => if open.len() > 0 && part.last().tool_call_id == Some(open[0].id) {
                    Some(open.skip(1))
                } else {
                    None
                },
                Role::User => None,
            },
        }
    }
}

/// How many messages ask for tool calls.
pub open spec fn asking(part: Seq<MessageText>) -> int
    decreases part.len(),
{
    if part.len() == 0 {
        0
    } else {
        asking(part.drop_last()) + if part.last().tool_calls.len() > 0 {
            1int
        } else {
            0int
        }
    }
}

/// What holds of every turn: it begins with what the user says behind the conversation so far;
/// then come the calls that the model asks for, each with its result in the same order; the
/// model asks at most [`MAX_TOOL_ROUNDS`] times. A turn that was answered ends with the answer,
/// and no call is open. Of a turn that failed nothing is left.
pub open spec fn turn_holds(s: TurnState, before: Seq<MessageText>, user_text: Seq<char>) -> bool {
    &&& s.turn.start == before.len()
    &&& 0 <= s.turn.rounds <= MAX_TOOL_ROUNDS
    &&& match s.end {
        TurnEnd::Failed(_) => s.conversation == before,
        _ => {
            let part = s.conversation.skip(before.len() as int + 1);
            &&& before.push(MessageText::user(user_text)).is_prefix_of(s.conversation)
            &&& asking(part) <= s.turn.rounds
            &&& match s.end {
                TurnEnd::Answered => {
                    &&& part.len() > 0
                    &&& part.last().role == Role::Assistant
                    &&& open_calls(part) == Some(Seq::<CallText>::empty())
                },
                _ => open_calls(part) == Some(s.turn.pending),
            }
        },
    }
}

proof fn lemma_event_keeps(
    s: TurnState,
    e: TurnEvent,
    before: Seq<MessageText>,
    user_text: Seq<char>,
)
    requires
        turn_holds(s, before, user_text),
    ensures
        turn_holds(after_event(s, e), before, user_text),
{
    let n = before.len() as int;
    let t = after_event(s, e);
    let head = before.push(MessageText::user(user_text));
    if s.end is Running {
        assert(head == s.conversation.subrange(0, n + 1));
        assert(s.conversation.take(n) =~= before) by {
            assert forall|i: int| 0 <= i < n implies s.conversation[i] == before[i] by {
                assert(s.conversation.subrange(0, n + 1)[i] == head[i]);
            }
        }
        let part = s.conversation.skip(n + 1);
        let grew = t.conversation.len() == s.conversation.len() + 1;
        if grew {
            let more = t.conversation.skip(n + 1);
            assert(more.drop_last() =~= part);
            assert(more.last() == t.conversation.last());
            assert(t.conversation.subrange(0, n + 1) =~= head);
        }
    }
}

/// Whatever happens in a turn, the conversation stays in order: see [`turn_holds`]. In
/// particular a turn that fails leaves the conversation as it was.
pub proof fn law_conversation_stays_in_order(
    before: Seq<MessageText>,
    user_text: Seq<char>,
    events: Seq<TurnEvent>,
)
    ensures
        turn_holds(after_events(begun(before, user_text), events), before, user_text),
    decreases events.len(),
{
    if events.len() == 0 {
        let s = begun(before, user_text);
        let head = before.push(MessageText::user(user_text));
        assert(s.conversation.skip(before.len() as int + 1) =~= seq![]);
        assert(s.conversation.subrange(0, before.len() as int + 1) =~= head);
    } else {
        law_conversation_stays_in_order(before, user_text, events.drop_last());
        lemma_event_keeps(
            after_events(begun(before, user_text), events.drop_last()),
            events.last(),
            before,
            user_text,
        );
    }
}

/// A model that asks for tool calls once more than is allowed ends the turn, and the
/// conversation is as it was.
pub proof fn law_too_many_rounds_fail(
    before: Seq<MessageText>,
    user_text: Seq<char>,
    events: Seq<TurnEvent>,
    asked: Seq<CallText>,
)
    requires
        after_events(begun(before, user_text), events).end is Running,
        after_events(begun(before, user_text), events).turn.pending.len() == 0,
        after_events(begun(before, user_text), events).turn.rounds == MAX_TOOL_ROUNDS,
    ensures
        ({
            let s = after_event(
                after_events(begun(before, user_text), events),
                TurnEvent::Reply(Ok(ResponseText::ToolCall(asked))),
            );
            &&& s.end == TurnEnd::Failed(AgentFault::TooManyToolRounds)
            &&& s.conversation == before
        }),
{
    law_conversation_stays_in_order(before, user_text, events);
    lemma_event_keeps(
        after_events(begun(before, user_text), events),
        TurnEvent::Reply(Ok(ResponseText::ToolCall(asked))),
        before,
        user_text,
    );
}

/// A call that is not allowed never reaches a tool, whatever its arguments are.
pub proof fn law_denied_calls_do_not_run(caps: Capabilities, call: CallText)
    requires
        caps.missing(call.name) is Some,
    ensures
        call_decision(caps, call) == NextText::Answer(
            denial(call.name, caps.missing(call.name)->0),
            true,
        ),
{
}

/// A turn begins with what the user said behind the conversation, word for word, and with no call
/// to answer.
pub proof fn law_turn_begins_with_the_user(before: Seq<MessageText>, user_text: Seq<char>)
    ensures
        ({
            let s = begun(before, user_text);
            &&& s.conversation.len() == before.len() + 1
            &&& s.conversation.drop_last() == before
            &&& s.conversation.last().role == Role::User
            &&& s.conversation.last().content == user_text
            &&& s.conversation.last().tool_calls.len() == 0
            &&& s.conversation.last().tool_call_id is None
            &&& s.end is Running
            &&& s.turn.pending.len() == 0
            &&& s.turn.rounds == 0
        }),
{
    assert(begun(before, user_text).conversation.drop_last() =~= before);
}

/// An answer of the model ends the turn and is kept behind the conversation, word for word, the
/// empty answer among them. A failure of the model ends the turn with its reason and puts the
/// conversation back to where the turn began.
pub proof fn law_answer_ends_the_turn(s: TurnState, answer: Seq<char>, reason: Seq<char>)
    requires
        s.end is Running,
        s.turn.pending.len() == 0,
        0 <= s.turn.start <= s.conversation.len(),
    ensures
        ({
            let t = after_event(s, TurnEvent::Reply(Ok(ResponseText::Text(answer))));
            &&& t.end is Answered
            &&& t.conversation.len() == s.conversation.len() + 1
            &&& t.conversation.drop_last() == s.conversation
            &&& t.conversation.last().role == Role::Assistant
            &&& t.conversation.last().content == answer
            &&& t.conversation.last().tool_calls.len() == 0
            &&& t.conversation.last().tool_call_id is None
        }),
        ({
            let t = after_event(s, TurnEvent::Reply(Err(reason)));
            &&& t.end == TurnEnd::Failed(AgentFault::Model(reason))
            &&& t.conversation == s.conversation.take(s.turn.start)
        }),
{
    let t = after_event(s, TurnEvent::Reply(Ok(ResponseText::Text(answer))));
    assert(t.conversation.drop_last() =~= s.conversation);
}

/// A request for tools, as long as there may be one more, is kept behind the conversation with all
/// its calls, and these are what waits for results, in the same order; it counts as one round.
pub proof fn law_request_waits_for_its_calls(s: TurnState, asked: Seq<CallText>)
    requires
        s.end is Running,
        s.turn.pending.len() == 0,
        s.turn.rounds < MAX_TOOL_ROUNDS,
    ensures
        ({
            let t = after_event(s, TurnEvent::Reply(Ok(ResponseText::ToolCall(asked))));
            &&& t.end is Running
            &&& t.conversation.len() == s.conversation.len() + 1
            &&& t.conversation.drop_last() == s.conversation
            &&& t.conversation.last().role == Role::Assistant
            &&& t.conversation.last().tool_calls == asked
            &&& t.conversation.last().content.len() == 0
            &&& t.conversation.last().tool_call_id is None
            &&& t.turn.pending == asked
            &&& t.turn.rounds == s.turn.rounds + 1
            &&& t.turn.start == s.turn.start
        }),
{
    let t = after_event(s, TurnEvent::Reply(Ok(ResponseText::ToolCall(asked))));
    assert(t.conversation.drop_last() =~= s.conversation);
}

/// The events by which results come in.
pub open spec fn result_events(results: Seq<Seq<char>>) -> Seq<TurnEvent> {
    results.map_values(|r: Seq<char>| TurnEvent::ToolResult(r))
}

/// The results of the calls are kept behind the conversation in the order of the calls, each whole
/// and with the id of its own call, as many as came in; the calls behind them wait on.
pub proof fn law_results_answer_the_calls(s: TurnState, results: Seq<Seq<char>>)
    requires
        s.end is Running,
        results.len() <= s.turn.pending.len(),
    ensures
        ({
            let t = after_events(s, result_events(results));
            let n = s.conversation.len() as int;
            &&& t.end is Running
            &&& t.turn.pending == s.turn.pending.skip(results.len() as int)
            &&& t.turn.rounds == s.turn.rounds
            &&& t.turn.start == s.turn.start
            &&& t.conversation.len() == n + results.len()
            &&& t.conversation.take(n) == s.conversation
            &&& forall|k: int|
                0 <= k < results.len() ==> {
                    let m = #[trigger] t.conversation[n + k];
                    &&& m.role == Role::Tool
                    &&& m.content == results[k]
                    &&& m.tool_call_id == Some(s.turn.pending[k].id)
                    &&& m.tool_calls.len() == 0
                }
        }),
    decreases results.len(),
{
    let n = s.conversation.len() as int;
    let t = after_events(s, result_events(results));
    if results.len() == 0 {
        assert(t.turn.pending =~= s.turn.pending.skip(0));
        assert(t.conversation.take(n) =~= s.conversation);
    } else {
        let front = results.drop_last();
        let before = after_events(s, result_events(front));
        law_results_answer_the_calls(s, front);
        assert(result_events(results).drop_last() =~= result_events(front));
        assert(result_events(results).last() == TurnEvent::ToolResult(results.last()));
        let last = results.len() - 1;
        assert(before.turn.pending[0] == s.turn.pending[last]);
        assert(t.turn.pending =~= s.turn.pending.skip(results.len() as int));
        assert(t.conversation.take(n) =~= before.conversation.take(n));
        assert forall|k: int| 0 <= k < results.len() implies {
            let m = #[trigger] t.conversation[n + k];
            &&& m.role == Role::Tool
            &&& m.content == results[k]
            &&& m.tool_call_id == Some(s.turn.pending[k].id)
            &&& m.tool_calls.len() == 0
        } by {
            if k < last {
                assert(t.conversation[n + k] == before.conversation[n + k]);
                assert(front[k] == results[k]);
            }
        }
    }
}

/// A call that is allowed runs as the tool of its name with its own arguments. Where there is no
/// such tool or the arguments do not suit it, nothing runs and the model is told what is wrong.
pub proof fn law_allowed_calls_run(caps: Capabilities, call: CallText)
    requires
        caps.missing(call.name) is None,
    ensures
        call_decision(caps, call) is Run <==> tool_of(call.name, arguments_of(call.arguments)) is Ok,
        call_decision(caps, call) matches NextText::Run(tool) ==> tool_of(
            call.name,
            arguments_of(call.arguments),
        ) == Ok::<ToolText, ToolFault>(tool),
        call_decision(caps, call) matches NextText::Answer(text, denied) ==> !denied && tool_of(
            call.name,
            arguments_of(call.arguments),
        ) is Err && text == "tool error: "@ + tool_of(
            call.name,
            arguments_of(call.arguments),
        )->Err_0.message(),
        !(call_decision(caps, call) is AskModel),
{
}

/// The model may ask for tools eight times in a turn: as long as it has asked less often another
/// request is taken up, and with the next one the turn fails.
pub proof fn law_eight_rounds(s: TurnState, asked: Seq<CallText>)
    requires
        s.end is Running,
        s.turn.pending.len() == 0,
    ensures
        ({
            let t = after_event(s, TurnEvent::Reply(Ok(ResponseText::ToolCall(asked))));
            &&& s.turn.rounds < 8 ==> t.end is Running
            &&& s.turn.rounds >= 8 ==> t.end == TurnEnd::Failed(AgentFault::TooManyToolRounds)
                && t.conversation == s.conversation.take(s.turn.start)
        }),
{
}

/// What [`tool_reply`] gives back: the result of a tool that succeeded, word for word, and what is
/// told of the fault of one that did not.
pub proof fn law_tool_reply(result: Result<String, ToolError>, r: String)
    requires
        call_ensures(tool_reply, (result,), r),
    ensures
        result matches Ok(text) ==> r@ == text@,
        result matches Err(e) ==> r@ == "tool error: "@ + e@.message(),
{
}

} // verus!
