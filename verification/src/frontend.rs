//! Handing tool calls to the frontend.
//!
//! As an approval, this is a state machine: its host performs an action at a
//! time and hands back what came of it.

use vstd::prelude::*;

use crate::conversation;
use crate::conversation::{
    Message, MessageContent, MessageContentView, MessageView, Role, ToolCallView, ToolOutput,
    ToolOutputView, ToolRequest, ToolRequestView, ToolResult, Visibility,
};
use crate::external;

verus! {

/// What the request to the frontend waits for.
#[derive(Clone, Copy, Debug, PartialEq, Eq, Structural)]
pub enum FrontendPhase {
    /// To be started.
    Starting,
    /// To learn whether the frontend has the tool.
    Checking,
    /// The request to be taken.
    Sending,
    /// The frontend to reply.
    Receiving,
    /// Nothing.
    Finished,
}

/// What the host reports.
pub enum FrontendEvent {
    /// The request is to be dealt with.
    Begin,
    /// Whether the frontend has the tool.
    Checked(bool),
    /// The request was taken.
    Sent,
    /// The frontend replied, or never will.
    Received(Option<(String, ToolResult<ToolOutput>)>),
}

/// What a [`FrontendEvent`] holds.
pub enum FrontendEventView {
    Begin,
    Checked(bool),
    Sent,
    Received(Option<(Seq<char>, Result<ToolOutputView, rmcp::model::ErrorData>)>),
}

impl View for FrontendEvent {
    type V = FrontendEventView;

    open spec fn view(&self) -> FrontendEventView {
        match self {
            FrontendEvent::Begin => FrontendEventView::Begin,
            FrontendEvent::Checked(known) => FrontendEventView::Checked(*known),
            FrontendEvent::Sent => FrontendEventView::Sent,
            FrontendEvent::Received(Some(reply)) => FrontendEventView::Received(
                Some((reply.0@, conversation::result_view(reply.1))),
            ),
            FrontendEvent::Received(None) => FrontendEventView::Received(None),
        }
    }
}

/// What the host is to do.
pub enum FrontendAction {
    /// Find out whether the frontend has this tool.
    CheckTool { tool_name: String },
    /// Pass the request on to the frontend.
    Send(Message),
    /// Wait for the reply.
    Receive,
    /// The request is dealt with.
    Finish,
    /// The event was not waited for.
    Ignored,
}

/// What a [`FrontendAction`] holds.
pub enum FrontendActionView {
    CheckTool { tool_name: Seq<char> },
    Send(MessageView),
    Receive,
    Finish,
    Ignored,
}

impl View for FrontendAction {
    type V = FrontendActionView;

    open spec fn view(&self) -> FrontendActionView {
        match self {
            FrontendAction::CheckTool { tool_name } => FrontendActionView::CheckTool {
                tool_name: tool_name@,
            },
            FrontendAction::Send(message) => FrontendActionView::Send(message@),
            FrontendAction::Receive => FrontendActionView::Receive,
            FrontendAction::Finish => FrontendActionView::Finish,
            FrontendAction::Ignored => FrontendActionView::Ignored,
        }
    }
}

/// The message that asks the frontend for a call.
pub open spec fn frontend_message(request_id: Seq<char>, call: ToolCallView) -> MessageView {
    MessageView::empty(Role::Assistant).with(
        MessageContentView::FrontendToolRequest { id: request_id, tool_call: Ok(call) },
    )
}

/// What a step comes to.
pub struct FrontendStep {
    pub phase: FrontendPhase,
    pub response: MessageView,
    pub action: FrontendActionView,
}

/// One step of a request to the frontend. The reply of the frontend goes into
/// the response, with the metadata of the request. An event that is not waited
/// for changes nothing.
pub open spec fn frontend_step(
    request: ToolRequestView,
    phase: FrontendPhase,
    response: MessageView,
    event: FrontendEventView,
) -> FrontendStep {
    let finish = FrontendStep {
        phase: FrontendPhase::Finished,
        response,
        action: FrontendActionView::Finish,
    };
    match (phase, event) {
        (FrontendPhase::Starting, FrontendEventView::Begin) => match request.tool_call {
            Ok(call) => FrontendStep {
                phase: FrontendPhase::Checking,
                response,
                action: FrontendActionView::CheckTool { tool_name: call.name },
            },
            Err(_) => finish,
        },
        (FrontendPhase::Checking, FrontendEventView::Checked(true)) => FrontendStep {
            phase: FrontendPhase::Sending,
            response,
            action: FrontendActionView::Send(
                frontend_message(request.id, request.tool_call->Ok_0),
            ),
        },
        (FrontendPhase::Checking, FrontendEventView::Checked(false)) => finish,
        (FrontendPhase::Sending, FrontendEventView::Sent) => FrontendStep {
            phase: FrontendPhase::Receiving,
            response,
            action: FrontendActionView::Receive,
        },
        (FrontendPhase::Receiving, FrontendEventView::Received(Some(reply))) => FrontendStep {
            response: response.with(
                MessageContentView::ToolResponse {
                    id: reply.0,
                    tool_result: reply.1,
                    metadata: request.metadata,
                },
            ),
            ..finish
        },
        (FrontendPhase::Receiving, FrontendEventView::Received(None)) => finish,
        _ => FrontendStep { phase, response, action: FrontendActionView::Ignored },
    }
}

/// A request that may be for the frontend.
pub struct FrontendRun<'a> {
    request: &'a ToolRequest,
    phase: FrontendPhase,
}

impl<'a> View for FrontendRun<'a> {
    type V = FrontendPhase;

    closed spec fn view(&self) -> FrontendPhase {
        self.phase
    }
}

impl<'a> FrontendRun<'a> {
    #[verifier::type_invariant]
    spec fn well_formed(self) -> bool {
        self.phase == FrontendPhase::Checking ==> self.request.tool_call is Ok
    }

    /// The request.
    pub closed spec fn request(self) -> ToolRequest {
        *self.request
    }

    /// A request that is still to be dealt with.
    pub fn new(request: &'a ToolRequest) -> (run: FrontendRun<'a>)
        ensures
            run.request() == *request,
            run@ == FrontendPhase::Starting,
    {
        FrontendRun { request, phase: FrontendPhase::Starting }
    }

    /// Whether the request is dealt with.
    pub fn is_finished(&self) -> (finished: bool)
        ensures
            finished == (self@ == FrontendPhase::Finished),
    {
        match self.phase {
            FrontendPhase::Finished => true,
            _ => false,
        }
    }

    /// Takes the next step. The host performs the action that comes out, and
    /// hands back what came of it as the next event.
    pub fn step(self, event: FrontendEvent, response: &mut Message) -> (next: (
        FrontendRun<'a>,
        FrontendAction,
    ))
        ensures
            next.0.request() == self.request(),
            ({
                let step = frontend_step(self.request()@, self@, old(response)@, event@);
                &&& next.0@ == step.phase
                &&& next.1@ == step.action
                &&& final(response)@ == step.response
            }),
            // The frontend is asked about the tool that the request names.
            next.1 is CheckTool <==> self@ is Starting && event is Begin && self.request().tool_call is Ok,
            next.1 matches FrontendAction::CheckTool { tool_name } ==> {
                &&& tool_name@ == external::params_name(self.request().tool_call->Ok_0.params)
                &&& next.0@ is Checking
            },
            // It is sent the call of the request, once.
            next.1 is Send <==> self@ is Checking && event == FrontendEvent::Checked(true),
            next.1 matches FrontendAction::Send(message) ==> {
                &&& message.role == Role::Assistant
                &&& message.visibility.user_visible && message.visibility.agent_visible
                &&& message.content@.len() == 1
                &&& message.content@[0] matches MessageContent::FrontendToolRequest(part)
                &&& part.id@ == self.request().id@
                &&& part.tool_call is Ok && self.request().tool_call is Ok
                &&& part.tool_call->Ok_0.params == self.request().tool_call->Ok_0.params
                &&& next.0@ is Sending
            },
            // One reply is awaited.
            next.1 is Receive <==> self@ is Sending && event is Sent,
            next.1 is Receive ==> next.0@ is Receiving,
            next.1 is Finish <==> next.0@ is Finished && !(self@ is Finished),
            next.1 is Finish <==> {
                ||| self@ is Starting && event is Begin && self.request().tool_call is Err
                ||| self@ is Checking && event == FrontendEvent::Checked(false)
                ||| self@ is Receiving && event is Received
            },
            next.1 is Ignored ==> next.0@ == self@,
            // The reply goes into the response, at its end, and nothing else does.
            match event {
                FrontendEvent::Received(Some(reply)) if self@ is Receiving => {
                    &&& final(response).role == old(response).role
                    &&& final(response).visibility == old(response).visibility
                    &&& final(response).content@.len() == old(response).content@.len() + 1
                    &&& final(response).content@.drop_last() == old(response).content@
                    &&& final(response).content@.last() matches MessageContent::ToolResponse(part)
                    &&& part.id == reply.0
                    &&& part.tool_result == reply.1
                    &&& part.metadata is Some <==> self.request().metadata is Some
                    &&& part.metadata matches Some(copied) ==> external::object_entries(copied)
                        == external::object_entries(self.request().metadata->0)
                },
                _ => *final(response) == *old(response),
            },
    {
        proof {
            use_type_invariant(&self);
        }
        let request = self.request;
        match (self.phase, event) {
            (FrontendPhase::Starting, FrontendEvent::Begin) => match &request.tool_call {
                Ok(call) => (
                    FrontendRun { request, phase: FrontendPhase::Checking },
                    FrontendAction::CheckTool { tool_name: call.name().to_owned() },
                ),
                Err(_) => (
                    FrontendRun { request, phase: FrontendPhase::Finished },
                    FrontendAction::Finish,
                ),
            },
            (FrontendPhase::Checking, FrontendEvent::Checked(known)) => {
                if known {
                    if let Ok(call) = &request.tool_call {
                        let message = Message::assistant().with_frontend_tool_request(
                            request.id.clone(),
                            Ok(call.duplicate()),
                        );
                        return (
                            FrontendRun { request, phase: FrontendPhase::Sending },
                            FrontendAction::Send(message),
                        );
                    }
                }
                (FrontendRun { request, phase: FrontendPhase::Finished }, FrontendAction::Finish)
            },
            (FrontendPhase::Sending, FrontendEvent::Sent) => (
                FrontendRun { request, phase: FrontendPhase::Receiving },
                FrontendAction::Receive,
            ),
            (FrontendPhase::Receiving, FrontendEvent::Received(reply)) => {
                if let Some((id, result)) = reply {
                    response.add_tool_response_with_metadata(id, result, &request.metadata);
                }
                (FrontendRun { request, phase: FrontendPhase::Finished }, FrontendAction::Finish)
            },
            _ => (self, FrontendAction::Ignored),
        }
    }
}

/// What a series of events comes to.
pub struct FrontendHistory {
    pub phase: FrontendPhase,
    pub response: MessageView,
    /// The actions that came out, one for each event.
    pub actions: Seq<FrontendActionView>,
}

/// Takes one step for each event.
pub open spec fn frontend_run(
    request: ToolRequestView,
    response: MessageView,
    events: Seq<FrontendEventView>,
) -> FrontendHistory
    decreases events.len(),
{
    if events.len() == 0 {
        FrontendHistory { phase: FrontendPhase::Starting, response, actions: Seq::empty() }
    } else {
        let before = frontend_run(request, response, events.drop_last());
        let step = frontend_step(request, before.phase, before.response, events.last());
        FrontendHistory {
            phase: step.phase,
            response: step.response,
            actions: before.actions.push(step.action),
        }
    }
}

proof fn lemma_run_push(
    request: ToolRequestView,
    response: MessageView,
    events: Seq<FrontendEventView>,
    event: FrontendEventView,
)
    ensures
        ({
            let before = frontend_run(request, response, events);
            let step = frontend_step(request, before.phase, before.response, event);
            frontend_run(request, response, events.push(event)) == (FrontendHistory {
                phase: step.phase,
                response: step.response,
                actions: before.actions.push(step.action),
            })
        }),
{
    assert(events.push(event).drop_last() =~= events);
}

/// Whatever a host reports, the frontend is sent nothing but one request for the
/// very call that was asked for, and it is sent it for a known tool only: an
/// assistant message for all to see, whose only part carries the identifier and
/// the call of the request.
pub proof fn law_frontend_is_sent_the_call_itself(
    request: ToolRequest,
    phase: FrontendPhase,
    response: MessageView,
    event: FrontendEventView,
)
    requires
        phase is Checking ==> request.tool_call is Ok,
    ensures
        ({
            let action = frontend_step(request@, phase, response, event).action;
            &&& action is Send <==> phase is Checking && event == FrontendEventView::Checked(true)
            &&& action matches FrontendActionView::Send(message) ==> {
                &&& message.role == Role::Assistant
                &&& message.visibility.user_visible && message.visibility.agent_visible
                &&& message.content.len() == 1
                &&& message.content[0] matches MessageContentView::FrontendToolRequest {
                    id,
                    tool_call,
                }
                &&& id == request.id@
                &&& tool_call matches Ok(call)
                &&& call.params == request.tool_call->Ok_0.params
            }
        }),
{
}

/// Only a reply that is awaited goes into the response: at its end, under the
/// identifier that it came with, as it came, and with the metadata of the
/// request. All that was in the response before stays.
pub proof fn law_reply_is_kept_as_it_came(
    request: ToolRequest,
    phase: FrontendPhase,
    response: MessageView,
    event: FrontendEventView,
)
    ensures
        ({
            let after = frontend_step(request@, phase, response, event).response;
            match event {
                FrontendEventView::Received(Some(reply)) if phase is Receiving => {
                    &&& after.role == response.role
                    &&& after.visibility == response.visibility
                    &&& after.content.len() == response.content.len() + 1
                    &&& after.content.drop_last() == response.content
                    &&& after.content.last() matches MessageContentView::ToolResponse {
                        id,
                        tool_result,
                        metadata,
                    }
                    &&& id == reply.0
                    &&& tool_result == reply.1
                    &&& metadata is Some <==> request.metadata is Some
                    &&& metadata matches Some(entries) ==> entries == external::object_entries(
                        request.metadata->0,
                    )
                },
                _ => after == response,
            }
        }),
{
    let after = frontend_step(request@, phase, response, event).response;
    if after.content.len() > response.content.len() {
        assert(after.content.drop_last() =~= response.content);
    }
}

/// The frontend is asked whether it has the tool that the call of the request
/// names, before anything else; a request without a call is left alone, and so is
/// one whose tool the frontend does not have. Once the call was taken, one reply
/// is awaited.
pub proof fn law_frontend_is_asked_for_its_tools_only(
    request: ToolRequest,
    phase: FrontendPhase,
    response: MessageView,
    event: FrontendEventView,
)
    ensures
        ({
            let step = frontend_step(request@, phase, response, event);
            &&& step.action is CheckTool <==> phase is Starting && event is Begin
                && request.tool_call is Ok
            &&& step.action matches FrontendActionView::CheckTool { tool_name } ==> {
                &&& tool_name == external::params_name(request.tool_call->Ok_0.params)
                &&& step.phase is Checking
            }
            &&& step.action is Send ==> step.phase is Sending
            &&& step.action is Receive <==> phase is Sending && event is Sent
            &&& step.action is Receive ==> step.phase is Receiving
            &&& step.action is Finish <==> {
                ||| phase is Starting && event is Begin && request.tool_call is Err
                ||| phase is Checking && event == FrontendEventView::Checked(false)
                ||| phase is Receiving && event is Received
            }
            &&& step.action is Finish ==> step.phase is Finished
            &&& step.action is Ignored ==> step.phase == phase
        }),
{
}

/// Whatever a host reports, what the frontend is asked to perform is asked of it
/// once at most, and whatever is awaited of it was asked before.
pub proof fn law_frontend_is_asked_at_most_once(
    request: ToolRequestView,
    response: MessageView,
    events: Seq<FrontendEventView>,
    i: int,
    j: int,
)
    requires
        0 <= i < events.len(),
        0 <= j < events.len(),
    ensures
        ({
            let actions = frontend_run(request, response, events).actions;
            &&& actions.len() == events.len()
            &&& actions[i] is Send && actions[j] is Send ==> i == j
            &&& actions[i] is Receive && actions[j] is Receive ==> i == j
            &&& actions[i] is CheckTool && actions[j] is CheckTool ==> i == j
            &&& actions[i] is Finish && actions[j] is Finish ==> i == j
            &&& actions[i] is Receive ==> exists|k: int| 0 <= k < i && #[trigger] actions[k] is Send
            &&& actions[i] is Send ==> exists|k: int|
                0 <= k < i && #[trigger] actions[k] is CheckTool
        }),
{
    lemma_run_trace(request, response, events);
}

proof fn lemma_run_trace(
    request: ToolRequestView,
    response: MessageView,
    events: Seq<FrontendEventView>,
)
    ensures
        ({
            let run = frontend_run(request, response, events);
            let actions = run.actions;
            &&& actions.len() == events.len()
            &&& run.phase is Starting ==> forall|i: int|
                0 <= i < actions.len() ==> #[trigger] actions[i] is Ignored
            &&& run.phase is Checking ==> forall|i: int|
                0 <= i < actions.len() ==> #[trigger] actions[i] is Ignored || actions[i] is CheckTool
            &&& run.phase is Sending ==> forall|i: int|
                0 <= i < actions.len() ==> !(#[trigger] actions[i] is Receive || actions[i] is Finish)
            &&& run.phase is Receiving ==> forall|i: int|
                0 <= i < actions.len() ==> !(#[trigger] actions[i] is Finish)
            &&& run.phase is Checking ==> exists|k: int|
                0 <= k < actions.len() && #[trigger] actions[k] is CheckTool
            &&& run.phase is Sending ==> exists|k: int|
                0 <= k < actions.len() && #[trigger] actions[k] is Send
            &&& forall|i: int, j: int|
                0 <= i < j < actions.len() && (#[trigger] actions[i] is Send || actions[i] is Receive
                    || actions[i] is CheckTool || actions[i] is Finish) && (
                #[trigger] actions[j] is Send || actions[j] is Receive || actions[j] is CheckTool
                    || actions[j] is Finish) ==> {
                    &&& !(actions[i] is Send && actions[j] is Send)
                    &&& !(actions[i] is Receive && actions[j] is Receive)
                    &&& !(actions[i] is CheckTool && actions[j] is CheckTool)
                    &&& !(actions[i] is Finish && actions[j] is Finish)
                }
            &&& forall|i: int|
                0 <= i < actions.len() && #[trigger] actions[i] is Receive ==> exists|k: int|
                    0 <= k < i && #[trigger] actions[k] is Send
            &&& forall|i: int|
                0 <= i < actions.len() && #[trigger] actions[i] is Send ==> exists|k: int|
                    0 <= k < i && #[trigger] actions[k] is CheckTool
        }),
    decreases events.len(),
{
    if events.len() > 0 {
        lemma_run_trace(request, response, events.drop_last());
        let before = frontend_run(request, response, events.drop_last());
        let run = frontend_run(request, response, events);
        assert(run.actions.len() == before.actions.len() + 1);
        assert forall|i: int| 0 <= i < before.actions.len() implies #[trigger] run.actions[i]
            == before.actions[i] by {}
        let last = run.actions[run.actions.len() - 1];
        if before.phase is Sending {
            let k = choose|k: int|
                0 <= k < before.actions.len() && #[trigger] before.actions[k] is Send;
            assert(run.actions[k] is Send);
        }
        if before.phase is Checking {
            let k = choose|k: int|
                0 <= k < before.actions.len() && #[trigger] before.actions[k] is CheckTool;
            assert(run.actions[k] is CheckTool);
        }
        assert forall|i: int| 0 <= i < run.actions.len() && #[trigger] run.actions[i] is Receive implies exists|
            k: int,
        |
            0 <= k < i && #[trigger] run.actions[k] is Send by {
            if i < before.actions.len() {
                assert(before.actions[i] is Receive);
                let k = choose|k: int| 0 <= k < i && #[trigger] before.actions[k] is Send;
                assert(run.actions[k] is Send);
            }
        }
        assert forall|i: int| 0 <= i < run.actions.len() && #[trigger] run.actions[i] is Send implies exists|
            k: int,
        |
            0 <= k < i && #[trigger] run.actions[k] is CheckTool by {
            if i < before.actions.len() {
                assert(before.actions[i] is Send);
                let k = choose|k: int| 0 <= k < i && #[trigger] before.actions[k] is CheckTool;
                assert(run.actions[k] is CheckTool);
            }
        }
    }
}

/// A request for a tool of the frontend is passed on, and the reply goes into
/// the response.
pub proof fn law_frontend_call_is_relayed(
    request: ToolRequestView,
    response: MessageView,
    reply: Option<(Seq<char>, Result<ToolOutputView, rmcp::model::ErrorData>)>,
)
    requires
        request.tool_call is Ok,
    ensures
        frontend_run(
            request,
            response,
            seq![
                FrontendEventView::Begin,
                FrontendEventView::Checked(true),
                FrontendEventView::Sent,
                FrontendEventView::Received(reply),
            ],
        ) == (FrontendHistory {
            phase: FrontendPhase::Finished,
            response: match reply {
                Some(reply) => MessageView {
                    content: response.content.push(
                        MessageContentView::ToolResponse {
                            id: reply.0,
                            tool_result: reply.1,
                            metadata: request.metadata,
                        },
                    ),
                    ..response
                },
                None => response,
            },
            actions: seq![
                FrontendActionView::CheckTool { tool_name: request.tool_call->Ok_0.name },
                FrontendActionView::Send(
                    MessageView {
                        role: Role::Assistant,
                        visibility: Visibility { user_visible: true, agent_visible: true },
                        content: seq![
                            MessageContentView::FrontendToolRequest {
                                id: request.id,
                                tool_call: request.tool_call,
                            },
                        ],
                    },
                ),
                FrontendActionView::Receive,
                FrontendActionView::Finish,
            ],
        }),
{
    let none = Seq::<FrontendEventView>::empty();
    let begun = none.push(FrontendEventView::Begin);
    let checked = begun.push(FrontendEventView::Checked(true));
    let sent = checked.push(FrontendEventView::Sent);
    let received = sent.push(FrontendEventView::Received(reply));
    lemma_run_push(request, response, none, FrontendEventView::Begin);
    lemma_run_push(request, response, begun, FrontendEventView::Checked(true));
    lemma_run_push(request, response, checked, FrontendEventView::Sent);
    lemma_run_push(request, response, sent, FrontendEventView::Received(reply));
    assert(seq![
        FrontendEventView::Begin,
        FrontendEventView::Checked(true),
        FrontendEventView::Sent,
        FrontendEventView::Received(reply),
    ] =~= received);
    let message = frontend_message(request.id, request.tool_call->Ok_0);
    assert(message.content =~= seq![
        MessageContentView::FrontendToolRequest { id: request.id, tool_call: request.tool_call },
    ]);
    assert(frontend_run(request, response, received).actions =~= seq![
        FrontendActionView::CheckTool { tool_name: request.tool_call->Ok_0.name },
        FrontendActionView::Send(message),
        FrontendActionView::Receive,
        FrontendActionView::Finish,
    ]);
}

/// A request that could not be understood, or that is not for the frontend, is
/// left alone: nothing is sent, and the response stays as it is.
pub proof fn law_other_requests_are_left_alone(request: ToolRequestView, response: MessageView)
    ensures
        request.tool_call is Err ==> frontend_run(
            request,
            response,
            seq![FrontendEventView::Begin],
        ) == (FrontendHistory {
            phase: FrontendPhase::Finished,
            response,
            actions: seq![FrontendActionView::Finish],
        }),
        request.tool_call is Ok ==> frontend_run(
            request,
            response,
            seq![FrontendEventView::Begin, FrontendEventView::Checked(false)],
        ) == (FrontendHistory {
            phase: FrontendPhase::Finished,
            response,
            actions: seq![
                FrontendActionView::CheckTool { tool_name: request.tool_call->Ok_0.name },
                FrontendActionView::Finish,
            ],
        }),
{
    let none = Seq::<FrontendEventView>::empty();
    let begun = none.push(FrontendEventView::Begin);
    lemma_run_push(request, response, none, FrontendEventView::Begin);
    lemma_run_push(request, response, begun, FrontendEventView::Checked(false));
    assert(seq![FrontendEventView::Begin] =~= begun);
    assert(seq![FrontendEventView::Begin, FrontendEventView::Checked(false)] =~= begun.push(
        FrontendEventView::Checked(false),
    ));
    if request.tool_call is Err {
        assert(frontend_run(request, response, begun).actions =~= seq![
            FrontendActionView::Finish,
        ]);
    } else {
        assert(frontend_run(
            request,
            response,
            begun.push(FrontendEventView::Checked(false)),
        ).actions =~= seq![
            FrontendActionView::CheckTool { tool_name: request.tool_call->Ok_0.name },
            FrontendActionView::Finish,
        ]);
    }
}

/// Whatever a host reports, at most one reply goes into the response, and it
/// does so at the end.
pub proof fn law_at_most_one_reply_is_added(
    request: ToolRequestView,
    response: MessageView,
    events: Seq<FrontendEventView>,
)
    ensures
        ({
            let run = frontend_run(request, response, events);
            ||| run.response == response
            ||| {
                &&& run.phase == FrontendPhase::Finished
                &&& exists|part: MessageContentView|
                    part is ToolResponse && run.response == #[trigger] response.with(part)
            }
        }),
    decreases events.len(),
{
    if events.len() > 0 {
        law_at_most_one_reply_is_added(request, response, events.drop_last());
    }
}

} // verus!
