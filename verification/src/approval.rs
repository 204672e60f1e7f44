//! Asking the user whether tools may run.
//!
//! The approval of a list of requests is a state machine. Its host performs an
//! action at a time and hands back what came of it.

use vstd::prelude::*;

use crate::conversation;
use crate::conversation::{
    Message, MessageContent, MessageContentView, MessageView, OutputBlockView, Role, ToolCall,
    ToolCallView, ToolOutputView, ToolRequest, ToolRequestView, Visibility,
};
use crate::external;
use crate::external::error_output;
use crate::responses;
use crate::responses::ResponseMap;
use crate::text;
use crate::text::{channel_closed_message, confirmation_id, DECLINED_RESPONSE};

verus! {

/// What the user says to a call.
#[derive(Clone, Copy, Debug, PartialEq, Eq, Structural)]
pub enum Permission {
    AlwaysAllow,
    AllowOnce,
    Cancel,
    DenyOnce,
    AlwaysDeny,
}

/// What is remembered of a tool.
#[derive(Clone, Copy, Debug, PartialEq, Eq, Structural)]
pub enum PermissionLevel {
    AlwaysAllow,
    AskBefore,
    NeverAllow,
}

/// What an inspection makes of a request.
pub enum InspectionAction {
    Allow,
    Deny,
    /// The user is to be asked, with a word of explanation.
    RequireApproval(Option<String>),
}

/// The outcome of one inspection.
pub struct InspectionResult {
    pub tool_request_id: String,
    pub action: InspectionAction,
}

/// What an [`InspectionResult`] holds.
pub struct InspectionResultView {
    pub tool_request_id: Seq<char>,
    /// The explanation that comes with the demand to ask the user.
    pub explanation: Option<Seq<char>>,
}

impl View for InspectionResult {
    type V = InspectionResultView;

    open spec fn view(&self) -> InspectionResultView {
        InspectionResultView {
            tool_request_id: self.tool_request_id@,
            explanation: match self.action {
                InspectionAction::RequireApproval(Some(message)) => Some(message@),
                _ => None,
            },
        }
    }
}

/// Whether a call may run.
pub open spec fn allows(permission: Permission) -> bool {
    permission == Permission::AllowOnce || permission == Permission::AlwaysAllow
}

/// What is to be remembered of the tool.
pub open spec fn remembered(permission: Permission) -> Option<PermissionLevel> {
    match permission {
        Permission::AlwaysAllow => Some(PermissionLevel::AlwaysAllow),
        Permission::AlwaysDeny => Some(PermissionLevel::NeverAllow),
        _ => None,
    }
}

/// What the record of a security finding says of the user's decision.
pub open spec fn verdict(permission: Permission) -> Seq<char> {
    if allows(permission) {
        "ALLOW"@
    } else {
        "BLOCK"@
    }
}

/// The explanation of the first inspection of the request, if it gives one.
pub open spec fn security_message(
    inspections: Seq<InspectionResultView>,
    request_id: Seq<char>,
) -> Option<Seq<char>>
    decreases inspections.len(),
{
    if inspections.len() == 0 {
        None
    } else if inspections[0].tool_request_id == request_id {
        inspections[0].explanation
    } else {
        security_message(inspections.drop_first(), request_id)
    }
}

/// What an approval is about.
#[derive(Clone, Copy)]
pub struct ApprovalContext<'a> {
    pub requests: &'a [ToolRequest],
    pub inspection_results: &'a [InspectionResult],
    pub is_subagent: bool,
    pub session_id: &'a str,
}

/// What an [`ApprovalContext`] holds.
pub struct ApprovalContextView {
    pub requests: Seq<ToolRequestView>,
    pub inspections: Seq<InspectionResultView>,
    pub is_subagent: bool,
    pub session_id: Seq<char>,
}

impl<'a> View for ApprovalContext<'a> {
    type V = ApprovalContextView;

    open spec fn view(&self) -> ApprovalContextView {
        ApprovalContextView {
            requests: conversation::request_views(self.requests@),
            inspections: self.inspection_results@.map_values(
                |inspection: InspectionResult| inspection@,
            ),
            is_subagent: self.is_subagent,
            session_id: self.session_id@,
        }
    }
}

/// What an approval waits for.
#[derive(Clone, Copy, Debug, PartialEq, Eq, Structural)]
pub enum ApprovalPhase {
    /// To be started.
    Starting,
    /// The confirmation of the call to be registered.
    Registering,
    /// The question to be taken.
    Prompting,
    /// The user to answer.
    Confirming,
    /// The answer to be recorded with a security finding.
    Auditing(Permission),
    /// The call to be dispatched.
    Dispatching(Permission),
    /// The permission of the tool to be remembered.
    Remembering,
    /// Nothing.
    Finished,
}

/// How far an approval has come.
pub struct ApprovalState {
    /// The request that is being dealt with.
    pub position: int,
    pub phase: ApprovalPhase,
}

/// What the host reports.
pub enum ApprovalEvent {
    /// The approval is to start.
    Begin,
    /// The confirmation is registered: an answer will not be missed.
    Registered,
    /// The question was taken.
    PromptTaken,
    /// The user answered. A security finding may be known for the request.
    Confirmed { permission: Permission, finding_id: Option<String> },
    /// No answer can come any more.
    ChannelClosed,
    /// The answer is recorded.
    Audited,
    /// The call is dispatched.
    Dispatched,
    /// The permission is remembered.
    Remembered,
}

/// What an [`ApprovalEvent`] holds.
pub enum ApprovalEventView {
    Begin,
    Registered,
    PromptTaken,
    Confirmed { permission: Permission, finding_id: Option<Seq<char>> },
    ChannelClosed,
    Audited,
    Dispatched,
    Remembered,
}

impl View for ApprovalEvent {
    type V = ApprovalEventView;

    open spec fn view(&self) -> ApprovalEventView {
        match self {
            ApprovalEvent::Begin => ApprovalEventView::Begin,
            ApprovalEvent::Registered => ApprovalEventView::Registered,
            ApprovalEvent::PromptTaken => ApprovalEventView::PromptTaken,
            ApprovalEvent::Confirmed { permission, finding_id } => ApprovalEventView::Confirmed {
                permission: *permission,
                finding_id: conversation::optional_text(*finding_id),
            },
            ApprovalEvent::ChannelClosed => ApprovalEventView::ChannelClosed,
            ApprovalEvent::Audited => ApprovalEventView::Audited,
            ApprovalEvent::Dispatched => ApprovalEventView::Dispatched,
            ApprovalEvent::Remembered => ApprovalEventView::Remembered,
        }
    }
}

/// What the host is to do.
pub enum ApprovalAction {
    /// Register a confirmation under this key.
    Register { confirmation_id: String },
    /// Pass the question on to the user.
    Prompt(Message),
    /// Wait for the answer to this request.
    AwaitConfirmation { request_id: String },
    /// Record the user's decision on a security finding.
    Audit {
        finding_id: String,
        request_id: String,
        permission: Permission,
        verdict: &'static str,
    },
    /// Dispatch the call, and let it run with the others.
    Dispatch { tool_call: ToolCall, request_id: String },
    /// Remember the permission of the tool.
    Remember { tool_name: String, level: PermissionLevel },
    /// All requests are dealt with.
    Finish,
    /// The approval cannot go on.
    Fail { message: String },
    /// The event was not waited for.
    Ignored,
}

/// What an [`ApprovalAction`] holds.
pub enum ApprovalActionView {
    Register { confirmation_id: Seq<char> },
    Prompt(MessageView),
    AwaitConfirmation { request_id: Seq<char> },
    Audit {
        finding_id: Seq<char>,
        request_id: Seq<char>,
        permission: Permission,
        verdict: Seq<char>,
    },
    Dispatch { tool_call: ToolCallView, request_id: Seq<char> },
    Remember { tool_name: Seq<char>, level: PermissionLevel },
    Finish,
    Fail { message: Seq<char> },
    Ignored,
}

impl View for ApprovalAction {
    type V = ApprovalActionView;

    open spec fn view(&self) -> ApprovalActionView {
        match self {
            ApprovalAction::Register { confirmation_id } => ApprovalActionView::Register {
                confirmation_id: confirmation_id@,
            },
            ApprovalAction::Prompt(message) => ApprovalActionView::Prompt(message@),
            ApprovalAction::AwaitConfirmation { request_id } =>
                ApprovalActionView::AwaitConfirmation { request_id: request_id@ },
            ApprovalAction::Audit { finding_id, request_id, permission, verdict } =>
                ApprovalActionView::Audit {
                finding_id: finding_id@,
                request_id: request_id@,
                permission: *permission,
                verdict: verdict@,
            },
            ApprovalAction::Dispatch { tool_call, request_id } => ApprovalActionView::Dispatch {
                tool_call: tool_call@,
                request_id: request_id@,
            },
            ApprovalAction::Remember { tool_name, level } => ApprovalActionView::Remember {
                tool_name: tool_name@,
                level: *level,
            },
            ApprovalAction::Finish => ApprovalActionView::Finish,
            ApprovalAction::Fail { message } => ApprovalActionView::Fail { message: message@ },
            ApprovalAction::Ignored => ApprovalActionView::Ignored,
        }
    }
}

/// The first request at or after `from` that asks for a call, or the end.
pub open spec fn next_request(requests: Seq<ToolRequestView>, from: int) -> int
    decreases requests.len() - from,
{
    if from >= requests.len() || requests[from].tool_call is Ok {
        from
    } else {
        next_request(requests, from + 1)
    }
}

/// The call that a request asks for.
pub open spec fn call_at(context: ApprovalContextView, position: int) -> ToolCallView {
    context.requests[position].tool_call->Ok_0
}

/// The key under which the confirmation of a request is awaited.
pub open spec fn key_at(context: ApprovalContextView, position: int) -> Seq<char> {
    text::confirmation_key(
        context.is_subagent,
        context.session_id,
        context.requests[position].id,
    )
}

/// The question whether the call of a request may run. Only the user sees it.
pub open spec fn prompt_at(context: ApprovalContextView, position: int) -> MessageView {
    MessageView {
        role: Role::Assistant,
        visibility: Visibility { user_visible: true, agent_visible: false },
        content: seq![
            MessageContentView::ActionRequired {
                id: key_at(context, position),
                tool_name: call_at(context, position).name,
                arguments: ToolCall::argument_entries(call_at(context, position)),
                prompt: security_message(context.inspections, context.requests[position].id),
            },
        ],
    }
}

/// What a step of an approval comes to.
pub struct ApprovalStep {
    pub state: ApprovalState,
    pub responses: Map<Seq<char>, MessageView>,
    pub action: ApprovalActionView,
}

/// Turns to the next request that asks for a call.
pub open spec fn proceed(
    context: ApprovalContextView,
    from: int,
    responses: Map<Seq<char>, MessageView>,
) -> ApprovalStep {
    let position = next_request(context.requests, from);
    if position < context.requests.len() {
        ApprovalStep {
            state: ApprovalState { position, phase: ApprovalPhase::Registering },
            responses,
            action: ApprovalActionView::Register { confirmation_id: key_at(context, position) },
        }
    } else {
        ApprovalStep {
            state: ApprovalState { position, phase: ApprovalPhase::Finished },
            responses,
            action: ApprovalActionView::Finish,
        }
    }
}

/// Remembers the permission of the tool, if that is asked for, before turning
/// to the next request.
pub open spec fn remember(
    context: ApprovalContextView,
    position: int,
    permission: Permission,
    responses: Map<Seq<char>, MessageView>,
) -> ApprovalStep {
    match remembered(permission) {
        Some(level) => ApprovalStep {
            state: ApprovalState { position, phase: ApprovalPhase::Remembering },
            responses,
            action: ApprovalActionView::Remember {
                tool_name: call_at(context, position).name,
                level,
            },
        },
        None => proceed(context, position + 1, responses),
    }
}

/// The responses once a request was declined.
pub open spec fn declined(
    context: ApprovalContextView,
    position: int,
    responses: Map<Seq<char>, MessageView>,
) -> Map<Seq<char>, MessageView> {
    responses::with_response(
        responses,
        context.requests[position].id,
        Ok(conversation::error_output_view(DECLINED_RESPONSE@)),
        context.requests[position].metadata,
    )
}

/// Acts on the answer: an allowed call is dispatched, any other request is
/// answered in place of its tool.
pub open spec fn decide(
    context: ApprovalContextView,
    position: int,
    permission: Permission,
    responses: Map<Seq<char>, MessageView>,
) -> ApprovalStep {
    if allows(permission) {
        ApprovalStep {
            state: ApprovalState { position, phase: ApprovalPhase::Dispatching(permission) },
            responses,
            action: ApprovalActionView::Dispatch {
                tool_call: call_at(context, position),
                request_id: context.requests[position].id,
            },
        }
    } else {
        remember(context, position, permission, declined(context, position, responses))
    }
}

/// One step of an approval. An event that is not waited for changes nothing.
pub open spec fn approval_step(
    context: ApprovalContextView,
    state: ApprovalState,
    responses: Map<Seq<char>, MessageView>,
    event: ApprovalEventView,
) -> ApprovalStep {
    let position = state.position;
    match (state.phase, event) {
        (ApprovalPhase::Starting, ApprovalEventView::Begin) => proceed(context, 0, responses),
        (ApprovalPhase::Registering, ApprovalEventView::Registered) => ApprovalStep {
            state: ApprovalState { position, phase: ApprovalPhase::Prompting },
            responses,
            action: ApprovalActionView::Prompt(prompt_at(context, position)),
        },
        (ApprovalPhase::Prompting, ApprovalEventView::PromptTaken) => ApprovalStep {
            state: ApprovalState { position, phase: ApprovalPhase::Confirming },
            responses,
            action: ApprovalActionView::AwaitConfirmation {
                request_id: context.requests[position].id,
            },
        },
        (ApprovalPhase::Confirming, ApprovalEventView::ChannelClosed) => ApprovalStep {
            state: ApprovalState { position, phase: ApprovalPhase::Finished },
            responses,
            action: ApprovalActionView::Fail {
                message: text::channel_closed_text(context.requests[position].id),
            },
        },
        (
            ApprovalPhase::Confirming,
            ApprovalEventView::Confirmed { permission, finding_id: Some(finding_id) },
        ) => ApprovalStep {
            state: ApprovalState { position, phase: ApprovalPhase::Auditing(permission) },
            responses,
            action: ApprovalActionView::Audit {
                finding_id,
                request_id: context.requests[position].id,
                permission,
                verdict: verdict(permission),
            },
        },
        (
            ApprovalPhase::Confirming,
            ApprovalEventView::Confirmed { permission, finding_id: None },
        ) => decide(context, position, permission, responses),
        (ApprovalPhase::Auditing(permission), ApprovalEventView::Audited) => decide(
            context,
            position,
            permission,
            responses,
        ),
        (ApprovalPhase::Dispatching(permission), ApprovalEventView::Dispatched) => remember(
            context,
            position,
            permission,
            responses,
        ),
        (ApprovalPhase::Remembering, ApprovalEventView::Remembered) => proceed(
            context,
            position + 1,
            responses,
        ),
        _ => ApprovalStep { state, responses, action: ApprovalActionView::Ignored },
    }
}

/// Whether the state is one that an approval can be in.
pub open spec fn is_valid(context: ApprovalContextView, state: ApprovalState) -> bool {
    match state.phase {
        ApprovalPhase::Starting | ApprovalPhase::Finished => true,
        _ => 0 <= state.position < context.requests.len()
            && context.requests[state.position].tool_call is Ok,
    }
}

/// Whether a call may run.
pub fn is_allowed(permission: Permission) -> (allowed: bool)
    ensures
        allowed == allows(permission),
        allowed <==> permission == Permission::AllowOnce || permission == Permission::AlwaysAllow,
{
    match permission {
        Permission::AllowOnce | Permission::AlwaysAllow => true,
        _ => false,
    }
}

fn remembered_level(permission: Permission) -> (level: Option<PermissionLevel>)
    ensures
        level == remembered(permission),
{
    match permission {
        Permission::AlwaysAllow => Some(PermissionLevel::AlwaysAllow),
        Permission::AlwaysDeny => Some(PermissionLevel::NeverAllow),
        _ => None,
    }
}

/// Finds what the first inspection of the request has to say to the user.
pub fn find_security_message(
    inspection_results: &[InspectionResult],
    request_id: &String,
) -> (message: Option<String>)
    ensures
        conversation::optional_text(message) == security_message(
            inspection_results@.map_values(|inspection: InspectionResult| inspection@),
            request_id@,
        ),
        (forall|i: int|
            0 <= i < inspection_results@.len() ==> (
            #[trigger] inspection_results@[i]).tool_request_id@ != request_id@) ==> message is None,
        forall|i: int|
            0 <= i < inspection_results@.len() && (#[trigger] inspection_results@[i]).tool_request_id@
                == request_id@ && (forall|j: int|
                0 <= j < i ==> (#[trigger] inspection_results@[j]).tool_request_id@ != request_id@)
                ==> match (inspection_results@[i].action, message) {
                (InspectionAction::RequireApproval(Some(text)), message) => message matches Some(
                    given,
                ) && given@ == text@,
                (_, message) => message is None,
            },
{
    let ghost views = inspection_results@.map_values(|inspection: InspectionResult| inspection@);
    assert(views.skip(0) =~= views);
    for i in 0..inspection_results.len()
        invariant
            views == inspection_results@.map_values(|inspection: InspectionResult| inspection@),
            security_message(views, request_id@) == security_message(
                views.skip(i as int),
                request_id@,
            ),
            forall|j: int|
                0 <= j < i ==> (#[trigger] inspection_results@[j]).tool_request_id@ != request_id@,
    {
        let inspection = &inspection_results[i];
        proof {
            assert(views.skip(i as int)[0] == inspection@);
            assert(views.skip(i as int).drop_first() =~= views.skip(i + 1));
        }
        if inspection.tool_request_id == *request_id {
            return match &inspection.action {
                InspectionAction::RequireApproval(Some(message)) => Some(message.clone()),
                _ => None,
            };
        }
    }
    None
}

/// An approval of a list of requests.
pub struct ApprovalRun<'a> {
    context: ApprovalContext<'a>,
    position: usize,
    phase: ApprovalPhase,
}

impl<'a> View for ApprovalRun<'a> {
    type V = ApprovalState;

    closed spec fn view(&self) -> ApprovalState {
        ApprovalState { position: self.position as int, phase: self.phase }
    }
}

impl<'a> ApprovalRun<'a> {
    #[verifier::type_invariant]
    spec fn well_formed(self) -> bool {
        is_valid(self.context@, self@)
    }

    /// What the approval is about.
    pub closed spec fn context(self) -> ApprovalContext<'a> {
        self.context
    }

    /// An approval that has not started.
    pub fn new(context: ApprovalContext<'a>) -> (run: ApprovalRun<'a>)
        ensures
            run.context() == context,
            run@ == (ApprovalState { position: 0, phase: ApprovalPhase::Starting }),
    {
        ApprovalRun { context, position: 0, phase: ApprovalPhase::Starting }
    }

    /// Whether the approval has come to its end.
    pub fn is_finished(&self) -> (finished: bool)
        ensures
            finished == (self@.phase == ApprovalPhase::Finished),
    {
        match self.phase {
            ApprovalPhase::Finished => true,
            _ => false,
        }
    }

    /// Takes the next step. The host performs the action that comes out, and
    /// hands back what came of it as the next event. A request that the user
    /// declined is answered in `responses`.
    pub fn step(self, event: ApprovalEvent, responses: &mut ResponseMap) -> (next: (
        ApprovalRun<'a>,
        ApprovalAction,
    ))
        ensures
            next.0.context() == self.context(),
            ({
                let step = approval_step(self.context()@, self@, old(responses)@, event@);
                &&& next.0@ == step.state
                &&& next.1@ == step.action
                &&& final(responses)@ == step.responses
            }),
            ({
                let context = self.context();
                let position = self@.position;
                let request = context.requests@[position];
                let params = request.tool_call->Ok_0.params;
                // The answer of the user that is acted on now.
                let answer = match (self@.phase, event) {
                    (
                        ApprovalPhase::Confirming,
                        ApprovalEvent::Confirmed { permission, finding_id: None },
                    ) => Some(permission),
                    (ApprovalPhase::Auditing(permission), ApprovalEvent::Audited) => Some(
                        permission,
                    ),
                    _ => None,
                };
                let allowed = answer == Some(Permission::AllowOnce) || answer == Some(
                    Permission::AlwaysAllow,
                );
                // The permission under which a call was dispatched just now.
                let granted = match (self@.phase, event) {
                    (ApprovalPhase::Dispatching(permission), ApprovalEvent::Dispatched) => Some(
                        permission,
                    ),
                    _ => None,
                };
                &&& !(self@.phase is Starting || self@.phase is Finished) ==> 0 <= position
                    < context.requests@.len() && request.tool_call is Ok
                // The user is asked about the call of the request, and about no other.
                &&& next.1 is Prompt <==> self@.phase is Registering && event is Registered
                &&& next.1 matches ApprovalAction::Prompt(message) ==> {
                    &&& message.role == Role::Assistant
                    &&& message.visibility.user_visible && !message.visibility.agent_visible
                    &&& message.content@.len() == 1
                    &&& message.content@[0] matches MessageContent::ActionRequired(question)
                    &&& question.id@ == if context.is_subagent {
                        context.session_id@ + seq![':'] + request.id@
                    } else {
                        request.id@
                    }
                    &&& question.tool_name@ == external::params_name(params)
                    &&& external::object_entries(question.arguments)
                        == match external::params_arguments(params) {
                        Some(entries) => entries,
                        None => Map::empty(),
                    }
                    &&& (forall|i: int|
                        0 <= i < context.inspection_results@.len() ==> (
                        #[trigger] context.inspection_results@[i]).tool_request_id@ != request.id@)
                        ==> question.prompt is None
                    &&& forall|i: int|
                        0 <= i < context.inspection_results@.len() && (
                        #[trigger] context.inspection_results@[i]).tool_request_id@ == request.id@
                            && (forall|j: int|
                            0 <= j < i ==> (
                            #[trigger] context.inspection_results@[j]).tool_request_id@
                                != request.id@) ==> match context.inspection_results@[i].action {
                            InspectionAction::RequireApproval(Some(text)) => question.prompt is Some
                                && question.prompt->0@ == text@,
                            _ => question.prompt is None,
                        }
                    &&& next.0@ == (ApprovalState { position, phase: ApprovalPhase::Prompting })
                }
                // The answer to this request is awaited.
                &&& next.1 is AwaitConfirmation <==> self@.phase is Prompting
                    && event is PromptTaken
                &&& next.1 matches ApprovalAction::AwaitConfirmation { request_id } ==> {
                    &&& request_id@ == request.id@
                    &&& next.0@ == (ApprovalState { position, phase: ApprovalPhase::Confirming })
                }
                &&& next.1 is Fail <==> self@.phase is Confirming && event is ChannelClosed
                &&& next.1 matches ApprovalAction::Fail { message } ==> {
                    &&& message@ == "Confirmation channel closed for request "@ + request.id@
                    &&& next.0@.phase is Finished
                }
                // A decision on a finding is recorded before it is acted on.
                &&& next.1 is Audit <==> self@.phase is Confirming && (
                event matches ApprovalEvent::Confirmed { finding_id, .. } && finding_id is Some)
                &&& next.1 matches ApprovalAction::Audit {
                    finding_id,
                    request_id,
                    permission,
                    verdict,
                } ==> {
                    &&& event == (ApprovalEvent::Confirmed {
                        permission,
                        finding_id: Some(finding_id),
                    })
                    &&& request_id@ == request.id@
                    &&& verdict@ == match permission {
                        Permission::AllowOnce | Permission::AlwaysAllow => "ALLOW"@,
                        Permission::Cancel | Permission::DenyOnce | Permission::AlwaysDeny =>
                            "BLOCK"@,
                    }
                    &&& next.0@ == (ApprovalState {
                        position,
                        phase: ApprovalPhase::Auditing(permission),
                    })
                }
                // What is allowed is dispatched: the call of the request itself.
                &&& next.1 is Dispatch <==> allowed
                &&& next.1 matches ApprovalAction::Dispatch { tool_call, request_id } ==> {
                    &&& tool_call.params == params
                    &&& request_id@ == request.id@
                    &&& next.0@ == (ApprovalState {
                        position,
                        phase: ApprovalPhase::Dispatching(answer->0),
                    })
                }
                // What is to last is remembered of the tool.
                &&& next.1 is Remember <==> granted == Some(Permission::AlwaysAllow) || granted
                    == Some(Permission::AlwaysDeny) || answer == Some(Permission::AlwaysDeny)
                &&& next.1 matches ApprovalAction::Remember { tool_name, level } ==> {
                    &&& tool_name@ == external::params_name(params)
                    &&& level == if granted == Some(Permission::AlwaysAllow) {
                        PermissionLevel::AlwaysAllow
                    } else {
                        PermissionLevel::NeverAllow
                    }
                    &&& next.0@ == (ApprovalState { position, phase: ApprovalPhase::Remembering })
                }
                // Then it is the turn of the next request that asks for a call.
                &&& (next.1 is Register || next.1 is Finish) <==> {
                    ||| self@.phase is Starting && event is Begin
                    ||| self@.phase is Remembering && event is Remembered
                    ||| answer == Some(Permission::Cancel) || answer == Some(Permission::DenyOnce)
                    ||| granted == Some(Permission::AllowOnce)
                    ||| granted == Some(Permission::Cancel) || granted == Some(
                        Permission::DenyOnce,
                    )
                }
                &&& next.1 is Register || next.1 is Finish ==> {
                    let from = if self@.phase is Starting {
                        0
                    } else {
                        position + 1
                    };
                    &&& from <= next.0@.position <= context.requests@.len()
                    &&& forall|i: int|
                        from <= i < next.0@.position ==> (
                        #[trigger] context.requests@[i]).tool_call is Err
                    &&& next.1 is Register <==> next.0@.position < context.requests@.len()
                }
                &&& next.1 matches ApprovalAction::Register { confirmation_id } ==> {
                    let coming = context.requests@[next.0@.position];
                    &&& coming.tool_call is Ok
                    &&& confirmation_id@ == if context.is_subagent {
                        context.session_id@ + seq![':'] + coming.id@
                    } else {
                        coming.id@
                    }
                    &&& next.0@.phase is Registering
                }
                &&& next.1 is Finish ==> next.0@.phase is Finished
                &&& next.1 is Ignored ==> next.0@ == self@
                // A request that is not allowed is answered, once; nothing else is.
                &&& final(responses)@.dom() == old(responses)@.dom()
                &&& forall|id: Seq<char>|
                    id != request.id@ || answer is None || allowed ==> (#[trigger] final(responses)@[id])
                        == old(responses)@[id]
                &&& answer is Some && !allowed && old(responses)@.contains_key(request.id@) ==> {
                    let before = old(responses)@[request.id@];
                    let after = final(responses)@[request.id@];
                    &&& after.role == before.role
                    &&& after.visibility == before.visibility
                    &&& after.content.len() == before.content.len() + 1
                    &&& after.content.drop_last() == before.content
                    &&& after.content.last() matches MessageContentView::ToolResponse {
                        id,
                        tool_result,
                        metadata,
                    }
                    &&& id == request.id@
                    &&& tool_result matches Ok(ToolOutputView::Composed { content, is_error })
                    &&& is_error == Some(true)
                    &&& content == seq![OutputBlockView::Text(DECLINED_RESPONSE@)]
                    &&& metadata is Some <==> request.metadata is Some
                    &&& metadata matches Some(entries) ==> entries == external::object_entries(
                        request.metadata->0,
                    )
                }
            }),
    {
        proof {
            use_type_invariant(&self);
            let context = self.context();
            let position = self@.position;
            if 0 <= position < context.requests@.len() {
                assert(context@.requests[position] == context.requests@[position]@);
                lemma_next_request(context, position + 1);
            }
            lemma_next_request(context, 0);
            lemma_keys(context);
        }
        let position = self.position;
        match (self.phase, event) {
            (ApprovalPhase::Starting, ApprovalEvent::Begin) => proceed_from(self.context, 0),
            (ApprovalPhase::Registering, ApprovalEvent::Registered) => {
                let message = compose_prompt(self.context, position);
                (
                    ApprovalRun { context: self.context, position, phase: ApprovalPhase::Prompting },
                    ApprovalAction::Prompt(message),
                )
            },
            (ApprovalPhase::Prompting, ApprovalEvent::PromptTaken) => (
                ApprovalRun { context: self.context, position, phase: ApprovalPhase::Confirming },
                ApprovalAction::AwaitConfirmation {
                    request_id: self.context.requests[position].id.clone(),
                },
            ),
            (ApprovalPhase::Confirming, ApprovalEvent::ChannelClosed) => {
                let message = channel_closed_message(self.context.requests[position].id.as_str());
                (
                    ApprovalRun { context: self.context, position, phase: ApprovalPhase::Finished },
                    ApprovalAction::Fail { message },
                )
            },
            (ApprovalPhase::Confirming, ApprovalEvent::Confirmed { permission, finding_id }) => {
                match finding_id {
                    Some(finding_id) => (
                        ApprovalRun {
                            context: self.context,
                            position,
                            phase: ApprovalPhase::Auditing(permission),
                        },
                        ApprovalAction::Audit {
                            finding_id,
                            request_id: self.context.requests[position].id.clone(),
                            permission,
                            verdict: if is_allowed(permission) {
                                "ALLOW"
                            } else {
                                "BLOCK"
                            },
                        },
                    ),
                    None => decide_on(self.context, position, permission, responses),
                }
            },
            (ApprovalPhase::Auditing(permission), ApprovalEvent::Audited) => decide_on(
                self.context,
                position,
                permission,
                responses,
            ),
            (ApprovalPhase::Dispatching(permission), ApprovalEvent::Dispatched) => remember_choice(
                self.context,
                position,
                permission,
            ),
            (ApprovalPhase::Remembering, ApprovalEvent::Remembered) => proceed_from(
                self.context,
                position + 1,
            ),
            _ => (self, ApprovalAction::Ignored),
        }
    }
}

proof fn lemma_next_request(context: ApprovalContext<'_>, from: int)
    requires
        0 <= from <= context.requests@.len(),
    ensures
        ({
            let position = next_request(context@.requests, from);
            &&& from <= position <= context.requests@.len()
            &&& forall|i: int|
                from <= i < position ==> (#[trigger] context.requests@[i]).tool_call is Err
            &&& position < context.requests@.len() ==> {
                &&& context.requests@[position].tool_call is Ok
                &&& context@.requests[position] == context.requests@[position]@
            }
        }),
    decreases context.requests@.len() - from,
{
    if from < context.requests@.len() {
        assert(context@.requests[from] == context.requests@[from]@);
        if !(context.requests@[from].tool_call is Ok) {
            lemma_next_request(context, from + 1);
        }
    }
}

proof fn lemma_keys(context: ApprovalContext<'_>)
    ensures
        forall|i: int|
            0 <= i < context.requests@.len() ==> #[trigger] key_at(context@, i) == if context.is_subagent {
                context.session_id@ + seq![':'] + context.requests@[i].id@
            } else {
                context.requests@[i].id@
            },
{
    assert forall|i: int| 0 <= i < context.requests@.len() implies #[trigger] key_at(context@, i)
        == if context.is_subagent {
        context.session_id@ + seq![':'] + context.requests@[i].id@
    } else {
        context.requests@[i].id@
    } by {
        text::law_confirmation_key_names_the_request(
            context.session_id@,
            context.requests@[i].id@,
        );
        assert(context@.requests[i] == context.requests@[i]@);
    }
}

/// Turns to the next request that asks for a call.
fn proceed_from<'a>(context: ApprovalContext<'a>, from: usize) -> (next: (
    ApprovalRun<'a>,
    ApprovalAction,
))
    requires
        from <= context.requests@.len(),
    ensures
        next.0.context() == context,
        forall|responses: Map<Seq<char>, MessageView>|
            {
                let step = #[trigger] proceed(context@, from as int, responses);
                &&& next.0@ == step.state
                &&& next.1@ == step.action
                &&& step.responses == responses
            },
{
    let mut position: usize = from;
    while position < context.requests.len()
        invariant
            from <= position <= context.requests@.len(),
            next_request(context@.requests, from as int) == next_request(
                context@.requests,
                position as int,
            ),
        decreases context.requests@.len() - position,
    {
        let request = &context.requests[position];
        assert(context@.requests[position as int] == request@);
        if request.tool_call.is_ok() {
            let key = confirmation_id(
                context.is_subagent,
                context.session_id,
                request.id.as_str(),
            );
            return (
                ApprovalRun { context, position, phase: ApprovalPhase::Registering },
                ApprovalAction::Register { confirmation_id: key },
            );
        }
        position = position + 1;
    }
    (ApprovalRun { context, position, phase: ApprovalPhase::Finished }, ApprovalAction::Finish)
}

/// Composes the question whether the call of a request may run.
fn compose_prompt<'a>(context: ApprovalContext<'a>, position: usize) -> (message: Message)
    requires
        position < context.requests@.len(),
        context.requests@[position as int].tool_call is Ok,
    ensures
        message@ == prompt_at(context@, position as int),
        message.role == Role::Assistant,
        message.visibility.user_visible && !message.visibility.agent_visible,
        message.content@.len() == 1,
        message.content@[0] matches MessageContent::ActionRequired(question) && {
            let request = context.requests@[position as int];
            let params = request.tool_call->Ok_0.params;
            &&& question.id@ == if context.is_subagent {
                context.session_id@ + seq![':'] + request.id@
            } else {
                request.id@
            }
            &&& question.tool_name@ == external::params_name(params)
            &&& external::object_entries(question.arguments) == match external::params_arguments(
                params,
            ) {
                Some(entries) => entries,
                None => Map::empty(),
            }
            &&& (forall|i: int|
                0 <= i < context.inspection_results@.len() ==> (
                #[trigger] context.inspection_results@[i]).tool_request_id@ != request.id@)
                ==> question.prompt is None
            &&& forall|i: int|
                0 <= i < context.inspection_results@.len() && (
                #[trigger] context.inspection_results@[i]).tool_request_id@ == request.id@ && (
                forall|j: int|
                    0 <= j < i ==> (#[trigger] context.inspection_results@[j]).tool_request_id@
                        != request.id@) ==> match context.inspection_results@[i].action {
                    InspectionAction::RequireApproval(Some(text)) => question.prompt is Some
                        && question.prompt->0@ == text@,
                    _ => question.prompt is None,
                }
        },
{
    let request = &context.requests[position];
    assert(context@.requests[position as int] == request@);
    let key = confirmation_id(context.is_subagent, context.session_id, request.id.as_str());
    let prompt = find_security_message(context.inspection_results, &request.id);
    let message = match &request.tool_call {
        Ok(call) => Message::assistant().with_action_required(
            key,
            call.name().to_owned(),
            call.arguments_or_default(),
            prompt,
        ),
        Err(_) => Message::assistant(),
    };
    let message = message.user_only();
    assert(message@.content =~= prompt_at(context@, position as int).content);
    message
}

/// Remembers the permission of the tool, if that is asked for, before turning
/// to the next request.
fn remember_choice<'a>(
    context: ApprovalContext<'a>,
    position: usize,
    permission: Permission,
) -> (next: (ApprovalRun<'a>, ApprovalAction))
    requires
        position < context.requests@.len(),
        context.requests@[position as int].tool_call is Ok,
    ensures
        next.0.context() == context,
        forall|responses: Map<Seq<char>, MessageView>|
            {
                let step = #[trigger] remember(context@, position as int, permission, responses);
                &&& next.0@ == step.state
                &&& next.1@ == step.action
                &&& step.responses == responses
            },
{
    let request = &context.requests[position];
    assert(context@.requests[position as int] == request@);
    match (remembered_level(permission), &request.tool_call) {
        (Some(level), Ok(call)) => (
            ApprovalRun { context, position, phase: ApprovalPhase::Remembering },
            ApprovalAction::Remember { tool_name: call.name().to_owned(), level },
        ),
        _ => proceed_from(context, position + 1),
    }
}

/// Acts on the answer of the user.
fn decide_on<'a>(
    context: ApprovalContext<'a>,
    position: usize,
    permission: Permission,
    responses: &mut ResponseMap,
) -> (next: (ApprovalRun<'a>, ApprovalAction))
    requires
        position < context.requests@.len(),
        context.requests@[position as int].tool_call is Ok,
    ensures
        next.0.context() == context,
        ({
            let step = decide(context@, position as int, permission, old(responses)@);
            &&& next.0@ == step.state
            &&& next.1@ == step.action
            &&& final(responses)@ == step.responses
        }),
{
    let request = &context.requests[position];
    assert(context@.requests[position as int] == request@);
    if is_allowed(permission) {
        if let Ok(call) = &request.tool_call {
            return (
                ApprovalRun {
                    context,
                    position,
                    phase: ApprovalPhase::Dispatching(permission),
                },
                ApprovalAction::Dispatch {
                    tool_call: call.duplicate(),
                    request_id: request.id.clone(),
                },
            );
        }
    }
    responses.add_tool_response(
        &request.id,
        Ok(error_output(DECLINED_RESPONSE.to_owned())),
        &request.metadata,
    );
    remember_choice(context, position, permission)
}

} // verus!
