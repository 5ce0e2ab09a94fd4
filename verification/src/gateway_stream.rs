//! The decisions a gateway websocket stream makes. A control stream manages
//! sessions, a conversation stream serves one local conversation, a history
//! stream serves the rollout of a conversation, and a broker stream relays a
//! conversation that another process runs. For each client message this
//! module says what the stream does with it; for a broker stream it also
//! keeps the handshake, the ids of the requests it sends and the server
//! requests that wait for the client's answer. Reading and writing the
//! sockets, the broker connection and the rollout files is left to the
//! caller, which performs each action and hands back what came of it.
use vstd::prelude::*;

use crate::keyed_list::{distinct_keys, keyed_map, set_key, take_key};
use crate::rollout_history::{history_plan_spec, plan_history_request, HistoryRequestPlan, HISTORY_MAX_LINES};
use crate::text::{clone_string, concat, has_prefix, opt_view, starts_with, to_owned_string};

verus! {

/// The kinds of websocket stream a gateway serves.
#[derive(Debug, Clone, Copy, PartialEq, Eq, Structural)]
pub enum StreamKind {
    Control,
    Conversation,
    History,
    Broker,
}

/// A client message, as far as the stream's decisions read it.
#[derive(Debug, Clone)]
pub enum ClientCommand {
    SendUserMessage,
    ListConversations { limit: Option<usize> },
    NewConversation,
    ResumeConversation { conversation_id: String },
    RenameConversation { conversation_id: String },
    DeleteConversation { conversation_id: String },
    HistoryRequest { before: Option<usize>, after: Option<usize>, limit: Option<usize>, anchor: Option<String> },
    Interrupt,
    ApprovalResponse { call_id: String },
    DynamicToolResponse { call_id: String },
    UserInputAnswer { call_id: String },
}

/// The id of a request on the broker connection.
#[derive(Debug, Clone)]
pub enum BrokerRequestId {
    Integer(i64),
    Text(String),
}

/// What a stream does with a client message.
#[derive(Debug, Clone)]
pub enum StreamAction {
    /// Answer with this error and go on.
    Reply { error: String },
    /// Answer with this error and close the stream.
    ReplyAndClose { error: String },
    ListConversations { limit: Option<usize> },
    NewConversation,
    ResumeConversation { conversation_id: String },
    RenameConversation { conversation_id: String },
    DeleteConversation { conversation_id: String },
    /// Read a page of the rollout.
    LoadHistory { plan: HistoryRequestPlan },
    /// Hand the message to the local conversation.
    SubmitToConversation,
    /// Hand the message to the broker's bookkeeping.
    ForwardToBroker,
    /// Send the message to the broker as a request with this id.
    BrokerRequest { request_id: i64 },
    /// Answer the broker's request that has this id.
    BrokerAnswer { request_id: BrokerRequestId },
    /// Nothing to do.
    Ignore,
}

/// The number of history lines a request asks for: the most that is
/// served when it names none, and at least one.
pub open spec fn request_limit(limit: Option<usize>) -> usize {
    match limit {
        None => HISTORY_MAX_LINES,
        Some(0) => 1,
        Some(v) => if v > HISTORY_MAX_LINES {
            HISTORY_MAX_LINES
        } else {
            v
        },
    }
}

/// How a history request is answered on a stream that serves history: it
/// may name a page before an index or after one, not both; otherwise the
/// page its anchor and bounds describe is read.
pub open spec fn history_routed(
    before: Option<usize>,
    after: Option<usize>,
    limit: Option<usize>,
    anchor: Option<Seq<char>>,
    a: StreamAction,
) -> bool {
    if before is Some && after is Some {
        a matches StreamAction::Reply { error } && error@ == "use either before or after, not both"@
    } else {
        a == StreamAction::LoadHistory { plan: history_plan_spec(anchor, before, after, request_limit(limit)) }
    }
}

/// A refusal with this text.
pub open spec fn refused(a: StreamAction, text: Seq<char>) -> bool {
    a matches StreamAction::Reply { error } && error@ == text
}

/// The session operations every stream but the history stream runs.
pub open spec fn session_routed(cmd: ClientCommand, a: StreamAction) -> bool {
    match cmd {
        ClientCommand::ListConversations { limit } => a == StreamAction::ListConversations { limit },
        ClientCommand::NewConversation => a == StreamAction::NewConversation,
        ClientCommand::ResumeConversation { conversation_id: id } =>
            a matches StreamAction::ResumeConversation { conversation_id } && conversation_id@ == id@,
        _ => false,
    }
}

/// Whether a command lists, creates or resumes a conversation.
pub open spec fn is_session_command(cmd: ClientCommand) -> bool {
    ||| cmd is ListConversations
    ||| cmd is NewConversation
    ||| cmd is ResumeConversation
}

/// Whether a command is for the conversation itself: a user message, an
/// interrupt, or an answer to a request the conversation made.
pub open spec fn is_turn_command(cmd: ClientCommand) -> bool {
    ||| cmd is SendUserMessage
    ||| cmd is Interrupt
    ||| cmd is ApprovalResponse
    ||| cmd is DynamicToolResponse
    ||| cmd is UserInputAnswer
}

/// What each kind of stream does with a client message. A control stream
/// manages sessions and refuses the rest; a conversation stream runs
/// session queries, history requests and the conversation's own commands,
/// and leaves renaming and deleting to the control stream; a history stream
/// serves history requests only; a broker stream runs session queries and
/// history requests, hands the conversation's commands to the broker, and
/// closes on an attempt to rename or delete.
pub open spec fn routed(kind: StreamKind, cmd: ClientCommand, a: StreamAction) -> bool {
    match kind {
        StreamKind::Control => match cmd {
            ClientCommand::RenameConversation { conversation_id: id } =>
                a matches StreamAction::RenameConversation { conversation_id } && conversation_id@ == id@,
            ClientCommand::DeleteConversation { conversation_id: id } =>
                a matches StreamAction::DeleteConversation { conversation_id } && conversation_id@ == id@,
            _ => if is_session_command(cmd) {
                session_routed(cmd, a)
            } else {
                refused(a, "unsupported control message"@)
            },
        },
        StreamKind::Conversation => match cmd {
            ClientCommand::HistoryRequest { before, after, limit, anchor } =>
                history_routed(before, after, limit, opt_view(anchor), a),
            ClientCommand::RenameConversation { .. } | ClientCommand::DeleteConversation { .. } =>
                refused(a, "session management must be handled by the websocket host"@),
            _ => if is_session_command(cmd) {
                session_routed(cmd, a)
            } else {
                a == StreamAction::SubmitToConversation
            },
        },
        StreamKind::History => match cmd {
            ClientCommand::HistoryRequest { before, after, limit, anchor } =>
                history_routed(before, after, limit, opt_view(anchor), a),
            _ => refused(a, "history stream only accepts history requests"@),
        },
        StreamKind::Broker => match cmd {
            ClientCommand::HistoryRequest { before, after, limit, anchor } =>
                history_routed(before, after, limit, opt_view(anchor), a),
            ClientCommand::RenameConversation { .. } | ClientCommand::DeleteConversation { .. } =>
                a matches StreamAction::ReplyAndClose { error } && error@ == "session management is not supported via broker stream"@,
            _ => if is_session_command(cmd) {
                session_routed(cmd, a)
            } else {
                a == StreamAction::ForwardToBroker
            },
        },
    }
}

fn reply(text: &str) -> (a: StreamAction)
    ensures
        refused(a, text@),
{
    StreamAction::Reply { error: to_owned_string(text) }
}

fn route_history(before: Option<usize>, after: Option<usize>, limit: Option<usize>, anchor: &Option<String>) -> (a: StreamAction)
    ensures
        history_routed(before, after, limit, opt_view(*anchor), a),
{
    if before.is_some() && after.is_some() {
        return reply("use either before or after, not both");
    }
    let anchor_str: Option<&str> = match anchor {
        Some(s) => Some(s.as_str()),
        None => None,
    };
    let plan = plan_history_request(anchor_str, before, after, limit);
    StreamAction::LoadHistory { plan }
}

fn route_session(cmd: &ClientCommand) -> (a: StreamAction)
    requires
        is_session_command(*cmd),
    ensures
        session_routed(*cmd, a),
{
    match cmd {
        ClientCommand::ListConversations { limit } => StreamAction::ListConversations { limit: *limit },
        ClientCommand::NewConversation => StreamAction::NewConversation,
        ClientCommand::ResumeConversation { conversation_id } =>
            StreamAction::ResumeConversation { conversation_id: clone_string(conversation_id) },
        _ => StreamAction::Ignore,
    }
}

/// What a stream of this kind does with a client message.
pub fn route_client_command(kind: StreamKind, cmd: &ClientCommand) -> (a: StreamAction)
    ensures
        routed(kind, *cmd, a),
{
    match kind {
        StreamKind::Control => match cmd {
            ClientCommand::RenameConversation { conversation_id } =>
                StreamAction::RenameConversation { conversation_id: clone_string(conversation_id) },
            ClientCommand::DeleteConversation { conversation_id } =>
                StreamAction::DeleteConversation { conversation_id: clone_string(conversation_id) },
            ClientCommand::ListConversations { .. } | ClientCommand::NewConversation | ClientCommand::ResumeConversation { .. } =>
                route_session(cmd),
            _ => reply("unsupported control message"),
        },
        StreamKind::Conversation => match cmd {
            ClientCommand::HistoryRequest { before, after, limit, anchor } =>
                route_history(*before, *after, *limit, anchor),
            ClientCommand::RenameConversation { .. } | ClientCommand::DeleteConversation { .. } =>
                reply("session management must be handled by the websocket host"),
            ClientCommand::ListConversations { .. } | ClientCommand::NewConversation | ClientCommand::ResumeConversation { .. } =>
                route_session(cmd),
            _ => StreamAction::SubmitToConversation,
        },
        StreamKind::History => match cmd {
            ClientCommand::HistoryRequest { before, after, limit, anchor } =>
                route_history(*before, *after, *limit, anchor),
            _ => reply("history stream only accepts history requests"),
        },
        StreamKind::Broker => match cmd {
            ClientCommand::HistoryRequest { before, after, limit, anchor } =>
                route_history(*before, *after, *limit, anchor),
            ClientCommand::RenameConversation { .. } | ClientCommand::DeleteConversation { .. } =>
                StreamAction::ReplyAndClose { error: to_owned_string("session management is not supported via broker stream") },
            ClientCommand::ListConversations { .. } | ClientCommand::NewConversation | ClientCommand::ResumeConversation { .. } =>
                route_session(cmd),
            _ => StreamAction::ForwardToBroker,
        },
    }
}

/// The kinds of server request that wait for the client's answer.
#[derive(Debug, Clone, Copy, PartialEq, Eq, Structural)]
pub enum ServerRequestKind {
    ApplyPatch,
    ExecCommand,
    DynamicTool,
}

/// A request the broker sends on the conversation's behalf: what it asks,
/// the call it is about, and its id.
#[derive(Debug, Clone)]
pub struct ServerRequest {
    pub kind: ServerRequestKind,
    pub call_id: String,
    pub request_id: BrokerRequestId,
}

/// What a read of the broker connection yields. A notification carries
/// its method and the event its parameters hold, where they hold one; a
/// request carries the server request it is, where it is one.
#[derive(Debug)]
pub enum BrokerMessage<E> {
    Response { id: BrokerRequestId, subscription: Result<String, String> },
    Error { id: BrokerRequestId, message: String },
    Notification { method: String, event: Option<E> },
    Request { request: Option<ServerRequest> },
    Other,
    Closed,
    ReadFailed { detail: String },
}

/// How the subscription handshake goes on after a broker message.
#[derive(Debug)]
pub enum HandshakeStep {
    Waiting,
    Subscribed,
    Failed { error: String },
}

/// What a subscribed broker stream does with a broker message.
#[derive(Debug)]
pub enum BrokerStep<E> {
    /// Send the conversation's event to the client.
    Forward { event: E },
    /// Send this error to the client and go on.
    Reply { error: String },
    /// Stop relaying, after sending the error if there is one.
    Stop { error: Option<String> },
    Ignore,
}

/// The id of the request that introduces the gateway to the broker.
pub const INITIALIZE_REQUEST_ID: i64 = 1;

/// The id of the request that subscribes to the conversation.
pub const ADD_LISTENER_REQUEST_ID: i64 = 2;

/// The id of the first request a client's message becomes.
pub const FIRST_CLIENT_REQUEST_ID: i64 = 3;

/// The waiting requests once a server request is recorded: a later request
/// for a call replaces an earlier one.
pub open spec fn recorded(
    pending: Map<Seq<char>, (ServerRequestKind, BrokerRequestId)>,
    request: Option<ServerRequest>,
) -> Map<Seq<char>, (ServerRequestKind, BrokerRequestId)> {
    match request {
        Some(r) => pending.insert(r.call_id@, (r.kind, r.request_id)),
        None => pending,
    }
}

/// The request an approval for this call answers: a waiting patch or
/// command approval request.
pub open spec fn approval_target(
    pending: Map<Seq<char>, (ServerRequestKind, BrokerRequestId)>,
    call_id: Seq<char>,
) -> Option<BrokerRequestId> {
    if pending.contains_key(call_id) && pending[call_id].0 != ServerRequestKind::DynamicTool {
        Some(pending[call_id].1)
    } else {
        None
    }
}

/// The request a dynamic tool response for this call answers.
pub open spec fn dynamic_tool_target(
    pending: Map<Seq<char>, (ServerRequestKind, BrokerRequestId)>,
    call_id: Seq<char>,
) -> Option<BrokerRequestId> {
    if pending.contains_key(call_id) && pending[call_id].0 == ServerRequestKind::DynamicTool {
        Some(pending[call_id].1)
    } else {
        None
    }
}

/// The waiting requests after an answer: the request it answered, if any,
/// is no longer waiting; an answer of the wrong kind leaves it waiting.
pub open spec fn answered(
    pending: Map<Seq<char>, (ServerRequestKind, BrokerRequestId)>,
    call_id: Seq<char>,
    target: Option<BrokerRequestId>,
) -> Map<Seq<char>, (ServerRequestKind, BrokerRequestId)> {
    if target is Some {
        pending.remove(call_id)
    } else {
        pending
    }
}

/// The event a notification carries: only notifications whose method is
/// under `codex/event/` carry one.
pub open spec fn notification_event<E>(method: Seq<char>, event: Option<E>) -> Option<E> {
    if has_prefix(method, "codex/event/"@) {
        event
    } else {
        None
    }
}

/// Whether an id is that of the subscription request.
pub open spec fn is_add_listener_id(id: BrokerRequestId) -> bool {
    id == BrokerRequestId::Integer(ADD_LISTENER_REQUEST_ID)
}

/// Whether a command becomes a new request to the broker.
pub open spec fn takes_request_id(cmd: ClientCommand) -> bool {
    ||| cmd is SendUserMessage
    ||| cmd is Interrupt
    ||| cmd is UserInputAnswer
}

fn is_add_listener(id: &BrokerRequestId) -> (r: bool)
    ensures
        r == is_add_listener_id(*id),
{
    match id {
        BrokerRequestId::Integer(n) => *n == ADD_LISTENER_REQUEST_ID,
        BrokerRequestId::Text(_) => false,
    }
}

fn event_of<E>(method: &String, event: Option<E>) -> (r: Option<E>)
    ensures
        r == notification_event(method@, event),
{
    if starts_with(method.as_str(), "codex/event/") {
        event
    } else {
        None
    }
}

/// The state of a stream relayed through a broker: the subscription once
/// the handshake has made one, the conversation's events that came before
/// it, the server requests waiting for the client's answer by call id, and
/// the id the next request to the broker gets.
pub struct BrokerStream<E> {
    subscription: Option<String>,
    buffered: Vec<E>,
    pending: Vec<(String, (ServerRequestKind, BrokerRequestId))>,
    next_request_id: i64,
}

impl<E> BrokerStream<E> {
    /// The subscription id, once the handshake has made one.
    pub closed spec fn subscription(&self) -> Option<Seq<char>> {
        opt_view(self.subscription)
    }

    /// The events held back until the stream's snapshot is sent.
    pub closed spec fn buffered(&self) -> Seq<E> {
        self.buffered@
    }

    /// The server requests waiting for an answer, by call id.
    pub closed spec fn pending(&self) -> Map<Seq<char>, (ServerRequestKind, BrokerRequestId)> {
        keyed_map(self.pending@)
    }

    /// The id the next request to the broker gets.
    pub closed spec fn next_request_id(&self) -> i64 {
        self.next_request_id
    }

    /// Call ids are distinct, and request ids are past the handshake's.
    pub closed spec fn wf(&self) -> bool {
        &&& distinct_keys(self.pending@)
        &&& self.next_request_id >= FIRST_CLIENT_REQUEST_ID
    }

    /// A stream that has not subscribed yet.
    pub fn new() -> (b: Self)
        ensures
            b.wf(),
            b.subscription() is None,
            b.buffered() == Seq::<E>::empty(),
            b.pending() == Map::<Seq<char>, (ServerRequestKind, BrokerRequestId)>::empty(),
            b.next_request_id() == FIRST_CLIENT_REQUEST_ID,
    {
        let b = BrokerStream { subscription: None, buffered: Vec::new(), pending: Vec::new(), next_request_id: FIRST_CLIENT_REQUEST_ID };
        proof {
            assert(keyed_map(b.pending@) =~= Map::<Seq<char>, (ServerRequestKind, BrokerRequestId)>::empty());
        }
        b
    }

    /// The subscription id, once the handshake has made one.
    pub fn subscription_id(&self) -> (r: Option<String>)
        ensures
            opt_view(r) == self.subscription(),
    {
        match &self.subscription {
            Some(s) => Some(clone_string(s)),
            None => None,
        }
    }

    /// The id of the request that ends the subscription when the stream
    /// closes: the next unused one.
    pub fn closing_request_id(&self) -> (id: i64)
        ensures
            id == self.next_request_id(),
    {
        self.next_request_id
    }

    fn record(&mut self, request: Option<ServerRequest>)
        requires
            old(self).wf(),
        ensures
            final(self).wf(),
            final(self).pending() == recorded(old(self).pending(), request),
            final(self).subscription() == old(self).subscription(),
            final(self).buffered() == old(self).buffered(),
            final(self).next_request_id() == old(self).next_request_id(),
    {
        match request {
            Some(r) => {
                let ServerRequest { kind, call_id, request_id } = r;
                set_key(&mut self.pending, call_id, (kind, request_id));
            },
            None => {},
        }
    }

    /// Takes the events held back during the handshake, in the order they
    /// came.
    pub fn take_buffered(&mut self) -> (r: Vec<E>)
        requires
            old(self).wf(),
        ensures
            final(self).wf(),
            r@ == old(self).buffered(),
            final(self).buffered() == Seq::<E>::empty(),
            final(self).subscription() == old(self).subscription(),
            final(self).pending() == old(self).pending(),
            final(self).next_request_id() == old(self).next_request_id(),
    {
        let mut r: Vec<E> = Vec::new();
        std::mem::swap(&mut r, &mut self.buffered);
        r
    }

    /// Takes a broker message while the stream waits for its subscription.
    /// The answer to the subscription request ends the wait, with the
    /// subscription id it holds or an error; an error answer to it, or the
    /// end of the connection, fails the handshake. Meanwhile the
    /// conversation's events are held back and server requests are
    /// recorded; anything else is passed over.
    pub fn on_handshake_message(&mut self, msg: BrokerMessage<E>) -> (step: HandshakeStep)
        requires
            old(self).wf(),
            old(self).subscription() is None,
        ensures
            final(self).wf(),
            final(self).next_request_id() == old(self).next_request_id(),
            match msg {
                BrokerMessage::Response { id, subscription } => if is_add_listener_id(id) {
                    &&& final(self).pending() == old(self).pending()
                    &&& final(self).buffered() == old(self).buffered()
                    &&& match subscription {
                        Ok(sid) => step is Subscribed && final(self).subscription() == Some(sid@),
                        Err(detail) => step matches HandshakeStep::Failed { error }
                            && error@ == "invalid broker response: "@ + detail@
                            && final(self).subscription() is None,
                    }
                } else {
                    step is Waiting && final(self).subscription() is None
                        && final(self).pending() == old(self).pending()
                        && final(self).buffered() == old(self).buffered()
                },
                BrokerMessage::Error { id, message } => {
                    &&& final(self).subscription() is None
                    &&& final(self).pending() == old(self).pending()
                    &&& final(self).buffered() == old(self).buffered()
                    &&& if is_add_listener_id(id) {
                        step matches HandshakeStep::Failed { error } && error@ == message@
                    } else {
                        step is Waiting
                    }
                },
                BrokerMessage::Notification { method, event } => {
                    &&& step is Waiting
                    &&& final(self).subscription() is None
                    &&& final(self).pending() == old(self).pending()
                    &&& final(self).buffered() == match notification_event(method@, event) {
                        Some(e) => old(self).buffered().push(e),
                        None => old(self).buffered(),
                    }
                },
                BrokerMessage::Request { request } => {
                    &&& step is Waiting
                    &&& final(self).subscription() is None
                    &&& final(self).pending() == recorded(old(self).pending(), request)
                    &&& final(self).buffered() == old(self).buffered()
                },
                BrokerMessage::Other => {
                    &&& step is Waiting
                    &&& final(self).subscription() is None
                    &&& final(self).pending() == old(self).pending()
                    &&& final(self).buffered() == old(self).buffered()
                },
                BrokerMessage::Closed => {
                    &&& step matches HandshakeStep::Failed { error } && error@ == "broker connection closed"@
                    &&& final(self).subscription() is None
                    &&& final(self).pending() == old(self).pending()
                    &&& final(self).buffered() == old(self).buffered()
                },
                BrokerMessage::ReadFailed { detail } => {
                    &&& step matches HandshakeStep::Failed { error } && error@ == "failed to read broker message: "@ + detail@
                    &&& final(self).subscription() is None
                    &&& final(self).pending() == old(self).pending()
                    &&& final(self).buffered() == old(self).buffered()
                },
            },
    {
        match msg {
            BrokerMessage::Response { id, subscription } => {
                if is_add_listener(&id) {
                    match subscription {
                        Ok(sid) => {
                            self.subscription = Some(sid);
                            HandshakeStep::Subscribed
                        },
                        Err(detail) => HandshakeStep::Failed { error: concat("invalid broker response: ", detail.as_str()) },
                    }
                } else {
                    HandshakeStep::Waiting
                }
            },
            BrokerMessage::Error { id, message } => {
                if is_add_listener(&id) {
                    HandshakeStep::Failed { error: message }
                } else {
                    HandshakeStep::Waiting
                }
            },
            BrokerMessage::Notification { method, event } => {
                match event_of(&method, event) {
                    Some(e) => self.buffered.push(e),
                    None => {},
                }
                HandshakeStep::Waiting
            },
            BrokerMessage::Request { request } => {
                self.record(request);
                HandshakeStep::Waiting
            },
            BrokerMessage::Other => HandshakeStep::Waiting,
            BrokerMessage::Closed => HandshakeStep::Failed { error: to_owned_string("broker connection closed") },
            BrokerMessage::ReadFailed { detail } =>
                HandshakeStep::Failed { error: concat("failed to read broker message: ", detail.as_str()) },
        }
    }

    /// Takes a broker message once subscribed: the conversation's events go
    /// to the client, server requests are recorded, error messages are
    /// passed on, and the end of the connection or a failed read stops the
    /// stream.
    pub fn on_broker_message(&mut self, msg: BrokerMessage<E>) -> (step: BrokerStep<E>)
        requires
            old(self).wf(),
        ensures
            final(self).wf(),
            final(self).subscription() == old(self).subscription(),
            final(self).buffered() == old(self).buffered(),
            final(self).next_request_id() == old(self).next_request_id(),
            final(self).pending() == match msg {
                BrokerMessage::Request { request } => recorded(old(self).pending(), request),
                _ => old(self).pending(),
            },
            match msg {
                BrokerMessage::Notification { method, event } => match notification_event(method@, event) {
                    Some(e) => step == BrokerStep::Forward { event: e },
                    None => step is Ignore,
                },
                BrokerMessage::Error { id, message } => step matches BrokerStep::Reply { error } && error@ == message@,
                BrokerMessage::Closed => step == BrokerStep::<E>::Stop { error: None },
                BrokerMessage::ReadFailed { detail } =>
                    step matches BrokerStep::Stop { error: Some(error) } && error@ == "broker read failed: "@ + detail@,
                _ => step is Ignore,
            },
    {
        match msg {
            BrokerMessage::Notification { method, event } => match event_of(&method, event) {
                Some(e) => BrokerStep::Forward { event: e },
                None => BrokerStep::Ignore,
            },
            BrokerMessage::Request { request } => {
                self.record(request);
                BrokerStep::Ignore
            },
            BrokerMessage::Error { id, message } => BrokerStep::Reply { error: message },
            BrokerMessage::Closed => BrokerStep::Stop { error: None },
            BrokerMessage::ReadFailed { detail } =>
                BrokerStep::Stop { error: Some(concat("broker read failed: ", detail.as_str())) },
            _ => BrokerStep::Ignore,
        }
    }

    /// Takes a pending request of the wanted kind for this call: its id,
    /// with the request no longer waiting; a request of the other kind stays.
    fn answer(&mut self, call_id: &String, dynamic_tool: bool) -> (r: Option<BrokerRequestId>)
        requires
            old(self).wf(),
        ensures
            final(self).wf(),
            r == if dynamic_tool {
                dynamic_tool_target(old(self).pending(), call_id@)
            } else {
                approval_target(old(self).pending(), call_id@)
            },
            final(self).pending() == answered(old(self).pending(), call_id@, r),
            final(self).subscription() == old(self).subscription(),
            final(self).buffered() == old(self).buffered(),
            final(self).next_request_id() == old(self).next_request_id(),
    {
        let ghost p0 = keyed_map(self.pending@);
        match take_key(&mut self.pending, call_id.as_str()) {
            None => None,
            Some(entry) => {
                let (kind, request_id) = entry;
                let is_dynamic = kind == ServerRequestKind::DynamicTool;
                if is_dynamic == dynamic_tool {
                    Some(request_id)
                } else {
                    set_key(&mut self.pending, clone_string(call_id), (kind, request_id));
                    proof {
                        assert(p0.remove(call_id@).insert(call_id@, p0[call_id@]) =~= p0);
                    }
                    None
                }
            },
        }
    }

    /// What the broker stream does with a client message. A user message,
    /// an interrupt or a user input answer becomes a request to the broker
    /// under the next request id. An approval answers the patch or command
    /// approval request waiting for its call, and a dynamic tool response
    /// the dynamic tool request; either is passed over when no such request
    /// waits. Everything else is routed as on any broker stream.
    pub fn route(&mut self, cmd: &ClientCommand) -> (a: StreamAction)
        requires
            old(self).wf(),
            takes_request_id(*cmd) ==> old(self).next_request_id() < i64::MAX,
        ensures
            final(self).wf(),
            final(self).subscription() == old(self).subscription(),
            final(self).buffered() == old(self).buffered(),
            match *cmd {
                ClientCommand::SendUserMessage | ClientCommand::Interrupt | ClientCommand::UserInputAnswer { .. } => {
                    &&& a == StreamAction::BrokerRequest { request_id: old(self).next_request_id() }
                    &&& final(self).next_request_id() == old(self).next_request_id() + 1
                    &&& final(self).pending() == old(self).pending()
                },
                ClientCommand::ApprovalResponse { call_id } => {
                    &&& a == match approval_target(old(self).pending(), call_id@) {
                        Some(id) => StreamAction::BrokerAnswer { request_id: id },
                        None => StreamAction::Ignore,
                    }
                    &&& final(self).pending() == answered(old(self).pending(), call_id@, approval_target(old(self).pending(), call_id@))
                    &&& final(self).next_request_id() == old(self).next_request_id()
                },
                ClientCommand::DynamicToolResponse { call_id } => {
                    &&& a == match dynamic_tool_target(old(self).pending(), call_id@) {
                        Some(id) => StreamAction::BrokerAnswer { request_id: id },
                        None => StreamAction::Ignore,
                    }
                    &&& final(self).pending() == answered(old(self).pending(), call_id@, dynamic_tool_target(old(self).pending(), call_id@))
                    &&& final(self).next_request_id() == old(self).next_request_id()
                },
                _ => {
                    &&& routed(StreamKind::Broker, *cmd, a)
                    &&& final(self).pending() == old(self).pending()
                    &&& final(self).next_request_id() == old(self).next_request_id()
                },
            },
    {
        match cmd {
            ClientCommand::SendUserMessage | ClientCommand::Interrupt | ClientCommand::UserInputAnswer { .. } => {
                let id = self.next_request_id;
                self.next_request_id = id + 1;
                StreamAction::BrokerRequest { request_id: id }
            },
            ClientCommand::ApprovalResponse { call_id } => match self.answer(call_id, false) {
                Some(id) => StreamAction::BrokerAnswer { request_id: id },
                None => StreamAction::Ignore,
            },
            ClientCommand::DynamicToolResponse { call_id } => match self.answer(call_id, true) {
                Some(id) => StreamAction::BrokerAnswer { request_id: id },
                None => StreamAction::Ignore,
            },
            _ => route_client_command(StreamKind::Broker, cmd),
        }
    }
}

/// Whether two request ids are the same id.
pub open spec fn same_request_id(a: BrokerRequestId, b: BrokerRequestId) -> bool {
    match (a, b) {
        (BrokerRequestId::Integer(x), BrokerRequestId::Integer(y)) => x == y,
        (BrokerRequestId::Text(x), BrokerRequestId::Text(y)) => x@ == y@,
        _ => false,
    }
}

fn request_ids_match(a: &BrokerRequestId, b: &BrokerRequestId) -> (r: bool)
    ensures
        r == same_request_id(*a, *b),
{
    match (a, b) {
        (BrokerRequestId::Integer(x), BrokerRequestId::Integer(y)) => *x == *y,
        (BrokerRequestId::Text(x), BrokerRequestId::Text(y)) => crate::text::str_eq(x.as_str(), y.as_str()),
        _ => false,
    }
}

/// How a wait for the answer to one request goes on.
#[derive(Debug)]
pub enum WaitStep {
    Waiting,
    Answered,
    Failed { error: String },
}

/// Takes a broker message while waiting for the answer to the request with
/// this id: its response ends the wait, an error for it or the end of the
/// connection fails it, and anything else is passed over.
pub fn wait_step<E>(expected: &BrokerRequestId, msg: &BrokerMessage<E>) -> (step: WaitStep)
    ensures
        match *msg {
            BrokerMessage::Response { id, .. } => if same_request_id(id, *expected) {
                step is Answered
            } else {
                step is Waiting
            },
            BrokerMessage::Error { id, message } => if same_request_id(id, *expected) {
                step matches WaitStep::Failed { error } && error@ == message@
            } else {
                step is Waiting
            },
            BrokerMessage::Closed => step matches WaitStep::Failed { error } && error@ == "broker connection closed"@,
            BrokerMessage::ReadFailed { detail } =>
                step matches WaitStep::Failed { error } && error@ == "failed to read broker response: "@ + detail@,
            _ => step is Waiting,
        },
{
    match msg {
        BrokerMessage::Response { id, .. } => if request_ids_match(id, expected) {
            WaitStep::Answered
        } else {
            WaitStep::Waiting
        },
        BrokerMessage::Error { id, message } => if request_ids_match(id, expected) {
            WaitStep::Failed { error: clone_string(message) }
        } else {
            WaitStep::Waiting
        },
        BrokerMessage::Closed => WaitStep::Failed { error: to_owned_string("broker connection closed") },
        BrokerMessage::ReadFailed { detail } =>
            WaitStep::Failed { error: concat("failed to read broker response: ", detail.as_str()) },
        _ => WaitStep::Waiting,
    }
}

/// The session operations a stream runs for its client.
#[derive(Debug, Clone, Copy, PartialEq, Eq, Structural)]
pub enum SessionOp {
    List,
    Create,
    Resume,
    Rename,
    Delete,
}

/// What follows a session operation: whether the client is answered, and
/// whether every control stream is sent the new list of sessions.
#[derive(Debug, Clone, Copy, PartialEq, Eq, Structural)]
pub struct FollowUp {
    pub reply: bool,
    pub broadcast: bool,
}

/// A failed operation is answered with its error and changes nothing. On a
/// control stream a listing is answered, a new or resumed conversation is
/// answered and announced, and a rename or a delete is only announced; the
/// other streams answer and announce nothing.
pub open spec fn follow_up_spec(kind: StreamKind, op: SessionOp, succeeded: bool) -> FollowUp {
    if !succeeded {
        FollowUp { reply: true, broadcast: false }
    } else if kind == StreamKind::Control {
        match op {
            SessionOp::List => FollowUp { reply: true, broadcast: false },
            SessionOp::Create | SessionOp::Resume => FollowUp { reply: true, broadcast: true },
            SessionOp::Rename | SessionOp::Delete => FollowUp { reply: false, broadcast: true },
        }
    } else {
        FollowUp { reply: !(op == SessionOp::Rename || op == SessionOp::Delete), broadcast: false }
    }
}

/// What follows a session operation on a stream of this kind.
pub fn follow_up(kind: StreamKind, op: SessionOp, succeeded: bool) -> (f: FollowUp)
    ensures
        f == follow_up_spec(kind, op, succeeded),
{
    if !succeeded {
        FollowUp { reply: true, broadcast: false }
    } else {
        match kind {
            StreamKind::Control => match op {
                SessionOp::List => FollowUp { reply: true, broadcast: false },
                SessionOp::Create | SessionOp::Resume => FollowUp { reply: true, broadcast: true },
                SessionOp::Rename | SessionOp::Delete => FollowUp { reply: false, broadcast: true },
            },
            _ => match op {
                SessionOp::Rename | SessionOp::Delete => FollowUp { reply: false, broadcast: false },
                _ => FollowUp { reply: true, broadcast: false },
            },
        }
    }
}

/// The snapshot a stream opens with.
#[derive(Debug, Clone, Copy, PartialEq, Eq, Structural)]
pub enum SnapshotPlan {
    /// An empty snapshot, marked truncated; nothing is read.
    Empty,
    /// The last lines of the rollout, at most this many.
    Load { limit: usize },
}

/// A snapshot limit of zero asks for no snapshot at all.
pub fn opening_snapshot(snapshot_limit: usize) -> (p: SnapshotPlan)
    ensures
        p == if snapshot_limit == 0 {
            SnapshotPlan::Empty
        } else {
            SnapshotPlan::Load { limit: snapshot_limit }
        },
{
    if snapshot_limit == 0 {
        SnapshotPlan::Empty
    } else {
        SnapshotPlan::Load { limit: snapshot_limit }
    }
}

/// Whether a stream builds the line index of its rollout as it opens: a
/// broker stream always does, a conversation or history stream when it
/// read a snapshot, and a control stream has no rollout.
pub fn warms_index_at_open(kind: StreamKind, snapshot_limit: usize) -> (r: bool)
    ensures
        r == match kind {
            StreamKind::Control => false,
            StreamKind::Broker => true,
            _ => snapshot_limit != 0,
        },
{
    match kind {
        StreamKind::Control => false,
        StreamKind::Broker => true,
        _ => snapshot_limit != 0,
    }
}

/// Whether a stream ends when its conversation has no rollout file: a
/// history stream reports the conversation missing and closes; the others
/// open with an empty snapshot.
pub fn missing_rollout_closes(kind: StreamKind) -> (r: bool)
    ensures
        r == (kind == StreamKind::History),
{
    match kind {
        StreamKind::History => true,
        _ => false,
    }
}

/// The messages a stream sends its client.
#[derive(Debug, Clone, Copy, PartialEq, Eq, Structural)]
pub enum Outgoing {
    /// The snapshot, or the error sent in its place, as the stream opens.
    Opening,
    /// An event of the conversation.
    Event,
    /// An answer to a client message.
    Reply,
}

/// Whether a stream closes when a message cannot be sent: a conversation
/// stream always does, a broker stream unless the message was an answer,
/// and control and history streams never do.
pub fn closes_on_failed_send(kind: StreamKind, out: Outgoing) -> (r: bool)
    ensures
        r == match kind {
            StreamKind::Conversation => true,
            StreamKind::Broker => out != Outgoing::Reply,
            _ => false,
        },
{
    match kind {
        StreamKind::Conversation => true,
        StreamKind::Broker => match out {
            Outgoing::Reply => false,
            _ => true,
        },
        _ => false,
    }
}

/// The errors a stream reports to its client besides those of routing.
#[derive(Debug, Clone)]
pub enum StreamError {
    InvalidMessage { detail: String },
    SnapshotFailed { detail: String },
    ConversationNotFound,
    BrokerNotConfigured,
    BrokerUnsupported,
    BrokerConnect { detail: String },
    BrokerInitialize,
    BrokerSubscribe,
    BrokerRequestFailed { detail: String },
    UnsupportedBrokerRequest,
    InvalidBrokerResponse { detail: String },
}

/// The text of a stream error.
pub open spec fn stream_error_text(e: StreamError) -> Seq<char> {
    match e {
        StreamError::InvalidMessage { detail } => "invalid client message: "@ + detail@,
        StreamError::SnapshotFailed { detail } => "failed to load rollout: "@ + detail@,
        StreamError::ConversationNotFound => "conversation not found"@,
        StreamError::BrokerNotConfigured => "broker is not configured"@,
        StreamError::BrokerUnsupported => "broker mode is not supported on this platform"@,
        StreamError::BrokerConnect { detail } => "failed to connect to broker: "@ + detail@,
        StreamError::BrokerInitialize => "failed to send broker initialize"@,
        StreamError::BrokerSubscribe => "failed to subscribe to broker"@,
        StreamError::BrokerRequestFailed { detail } => "failed to send broker request: "@ + detail@,
        StreamError::UnsupportedBrokerRequest => "unsupported broker request"@,
        StreamError::InvalidBrokerResponse { detail } => "invalid broker response: "@ + detail@,
    }
}

impl StreamError {
    /// The text the client is sent.
    pub fn text(&self) -> (r: String)
        ensures
            r@ == stream_error_text(*self),
    {
        match self {
            StreamError::InvalidMessage { detail } => concat("invalid client message: ", detail.as_str()),
            StreamError::SnapshotFailed { detail } => concat("failed to load rollout: ", detail.as_str()),
            StreamError::ConversationNotFound => to_owned_string("conversation not found"),
            StreamError::BrokerNotConfigured => to_owned_string("broker is not configured"),
            StreamError::BrokerUnsupported => to_owned_string("broker mode is not supported on this platform"),
            StreamError::BrokerConnect { detail } => concat("failed to connect to broker: ", detail.as_str()),
            StreamError::BrokerInitialize => to_owned_string("failed to send broker initialize"),
            StreamError::BrokerSubscribe => to_owned_string("failed to subscribe to broker"),
            StreamError::BrokerRequestFailed { detail } => concat("failed to send broker request: ", detail.as_str()),
            StreamError::UnsupportedBrokerRequest => to_owned_string("unsupported broker request"),
            StreamError::InvalidBrokerResponse { detail } => concat("invalid broker response: ", detail.as_str()),
        }
    }
}

/// What a failure to hand one of the conversation's commands on is
/// reported as, before the failure's own text.
pub open spec fn forward_failure_prefix(cmd: ClientCommand) -> Seq<char> {
    match cmd {
        ClientCommand::SendUserMessage => "failed to send message: "@,
        ClientCommand::Interrupt => "failed to interrupt: "@,
        ClientCommand::ApprovalResponse { .. } => "failed to submit approval response: "@,
        ClientCommand::DynamicToolResponse { .. } => "failed to submit dynamic tool response: "@,
        _ => "failed to submit user input: "@,
    }
}

/// The error sent when one of the conversation's commands could not be
/// handed on.
pub fn forward_failure_text(cmd: &ClientCommand, detail: &str) -> (r: String)
    requires
        is_turn_command(*cmd),
    ensures
        r@ == forward_failure_prefix(*cmd) + detail@,
{
    match cmd {
        ClientCommand::SendUserMessage => concat("failed to send message: ", detail),
        ClientCommand::Interrupt => concat("failed to interrupt: ", detail),
        ClientCommand::ApprovalResponse { .. } => concat("failed to submit approval response: ", detail),
        ClientCommand::DynamicToolResponse { .. } => concat("failed to submit dynamic tool response: ", detail),
        _ => concat("failed to submit user input: ", detail),
    }
}

/// A server request is answered once, and only by an answer of its own
/// kind: once it is recorded, an answer of its kind takes its id and
/// leaves nothing waiting for the call, so a second answer finds nothing;
/// an answer of the other kind finds nothing and leaves it waiting.
pub proof fn law_broker_request_answered_once(
    pending: Map<Seq<char>, (ServerRequestKind, BrokerRequestId)>,
    request: ServerRequest,
)
    ensures
        ({
            let p1 = recorded(pending, Some(request));
            let c = request.call_id@;
            if request.kind == ServerRequestKind::DynamicTool {
                &&& dynamic_tool_target(p1, c) == Some(request.request_id)
                &&& dynamic_tool_target(answered(p1, c, dynamic_tool_target(p1, c)), c) is None
                &&& approval_target(p1, c) is None
                &&& answered(p1, c, approval_target(p1, c)) == p1
            } else {
                &&& approval_target(p1, c) == Some(request.request_id)
                &&& approval_target(answered(p1, c, approval_target(p1, c)), c) is None
                &&& dynamic_tool_target(p1, c) is None
                &&& answered(p1, c, dynamic_tool_target(p1, c)) == p1
            }
        }),
{
}

} // verus!
