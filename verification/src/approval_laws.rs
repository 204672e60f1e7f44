//! What holds of every approval.

use vstd::prelude::*;

use crate::approval;
use crate::approval::{
    ApprovalActionView, ApprovalContext, ApprovalContextView, ApprovalEventView, ApprovalPhase,
    ApprovalState, InspectionAction, InspectionResult, Permission, PermissionLevel,
};
use crate::conversation::{
    MessageContentView, MessageView, OutputBlockView, Role, ToolOutputView, Visibility,
};
use crate::external;
use crate::text;
use crate::text::DECLINED_RESPONSE;

verus! {

/// What a series of events comes to.
pub struct ApprovalHistory {
    pub state: ApprovalState,
    pub responses: Map<Seq<char>, MessageView>,
    /// The actions that came out, one for each event.
    pub actions: Seq<ApprovalActionView>,
}

/// Takes one step for each event, from the given state.
pub open spec fn approval_run(
    context: ApprovalContextView,
    state: ApprovalState,
    responses: Map<Seq<char>, MessageView>,
    events: Seq<ApprovalEventView>,
) -> ApprovalHistory
    decreases events.len(),
{
    if events.len() == 0 {
        ApprovalHistory { state, responses, actions: Seq::empty() }
    } else {
        let step = approval::approval_step(context, state, responses, events[0]);
        let later = approval_run(context, step.state, step.responses, events.drop_first());
        ApprovalHistory {
            state: later.state,
            responses: later.responses,
            actions: seq![step.action] + later.actions,
        }
    }
}

/// The state of an approval that has not started.
pub open spec fn unstarted() -> ApprovalState {
    ApprovalState { position: 0, phase: ApprovalPhase::Starting }
}

/// What the user says to a request, and the security finding that is known for
/// it.
pub struct Decision {
    pub permission: Permission,
    pub finding_id: Option<Seq<char>>,
}

/// What a host reports when it carries out the actions for one request.
pub open spec fn request_events(decision: Decision) -> Seq<ApprovalEventView> {
    seq![
        ApprovalEventView::Registered,
        ApprovalEventView::PromptTaken,
        ApprovalEventView::Confirmed {
            permission: decision.permission,
            finding_id: decision.finding_id,
        },
    ] + (if decision.finding_id is Some {
        seq![ApprovalEventView::Audited]
    } else {
        Seq::empty()
    }) + (match decision.permission {
        Permission::AllowOnce => seq![ApprovalEventView::Dispatched],
        Permission::AlwaysAllow => seq![
            ApprovalEventView::Dispatched,
            ApprovalEventView::Remembered,
        ],
        Permission::AlwaysDeny => seq![ApprovalEventView::Remembered],
        Permission::DenyOnce | Permission::Cancel => Seq::empty(),
    })
}

/// What is done for one request: a confirmation is registered, and only then is
/// the question asked; the decision is recorded with a security finding; the
/// call is dispatched if it may run; and a lasting permission is remembered.
pub open spec fn request_actions(
    context: ApprovalContextView,
    position: int,
    decision: Decision,
) -> Seq<ApprovalActionView> {
    let request = context.requests[position];
    let call = request.tool_call->Ok_0;
    let key = if context.is_subagent {
        context.session_id + ":"@ + request.id
    } else {
        request.id
    };
    let dispatch = ApprovalActionView::Dispatch { tool_call: call, request_id: request.id };
    seq![
        ApprovalActionView::Register { confirmation_id: key },
        ApprovalActionView::Prompt(
            MessageView {
                role: Role::Assistant,
                visibility: Visibility { user_visible: true, agent_visible: false },
                content: seq![
                    MessageContentView::ActionRequired {
                        id: key,
                        tool_name: call.name,
                        arguments: match call.arguments {
                            Some(entries) => entries,
                            None => Map::empty(),
                        },
                        prompt: approval::security_message(context.inspections, request.id),
                    },
                ],
            },
        ),
        ApprovalActionView::AwaitConfirmation { request_id: request.id },
    ] + (match decision.finding_id {
        Some(finding_id) => seq![
            ApprovalActionView::Audit {
                finding_id,
                request_id: request.id,
                permission: decision.permission,
                verdict: match decision.permission {
                    Permission::AllowOnce | Permission::AlwaysAllow => "ALLOW"@,
                    _ => "BLOCK"@,
                },
            },
        ],
        None => Seq::empty(),
    }) + (match decision.permission {
        Permission::AllowOnce => seq![dispatch],
        Permission::AlwaysAllow => seq![
            dispatch,
            ApprovalActionView::Remember {
                tool_name: call.name,
                level: PermissionLevel::AlwaysAllow,
            },
        ],
        Permission::AlwaysDeny => seq![
            ApprovalActionView::Remember {
                tool_name: call.name,
                level: PermissionLevel::NeverAllow,
            },
        ],
        Permission::DenyOnce | Permission::Cancel => Seq::empty(),
    })
}

/// What a host reports while the requests from `from` on are dealt with.
pub open spec fn all_events(
    context: ApprovalContextView,
    decisions: Seq<Decision>,
    from: int,
) -> Seq<ApprovalEventView>
    decreases context.requests.len() - from,
{
    if from >= context.requests.len() {
        Seq::empty()
    } else if context.requests[from].tool_call is Ok {
        request_events(decisions[from]) + all_events(context, decisions, from + 1)
    } else {
        all_events(context, decisions, from + 1)
    }
}

/// What is done for the requests from `from` on, one after the other. Requests
/// that could not be understood are passed over.
pub open spec fn all_actions(
    context: ApprovalContextView,
    decisions: Seq<Decision>,
    from: int,
) -> Seq<ApprovalActionView>
    decreases context.requests.len() - from,
{
    if from >= context.requests.len() {
        seq![ApprovalActionView::Finish]
    } else if context.requests[from].tool_call is Ok {
        request_actions(context, from, decisions[from]) + all_actions(context, decisions, from + 1)
    } else {
        all_actions(context, decisions, from + 1)
    }
}

/// The responses once the requests from `from` on are dealt with: each request
/// that was not allowed is answered.
pub open spec fn all_responses(
    context: ApprovalContextView,
    decisions: Seq<Decision>,
    from: int,
    responses: Map<Seq<char>, MessageView>,
) -> Map<Seq<char>, MessageView>
    decreases context.requests.len() - from,
{
    if from >= context.requests.len() {
        responses
    } else if context.requests[from].tool_call is Ok && decisions[from].permission
        != Permission::AllowOnce && decisions[from].permission != Permission::AlwaysAllow
        && responses.contains_key(context.requests[from].id) {
        let id = context.requests[from].id;
        let answer = MessageContentView::ToolResponse {
            id,
            tool_result: Ok(
                ToolOutputView::Composed {
                    content: seq![OutputBlockView::Text(DECLINED_RESPONSE@)],
                    is_error: Some(true),
                },
            ),
            metadata: context.requests[from].metadata,
        };
        let answered = MessageView {
            content: responses[id].content.push(answer),
            ..responses[id]
        };
        all_responses(context, decisions, from + 1, responses.insert(id, answered))
    } else {
        all_responses(context, decisions, from + 1, responses)
    }
}

proof fn lemma_run_append(
    context: ApprovalContextView,
    state: ApprovalState,
    responses: Map<Seq<char>, MessageView>,
    first: Seq<ApprovalEventView>,
    second: Seq<ApprovalEventView>,
)
    ensures
        ({
            let whole = approval_run(context, state, responses, first + second);
            let before = approval_run(context, state, responses, first);
            let after = approval_run(context, before.state, before.responses, second);
            &&& whole.state == after.state
            &&& whole.responses == after.responses
            &&& whole.actions == before.actions + after.actions
        }),
    decreases first.len(),
{
    let whole = approval_run(context, state, responses, first + second);
    let before = approval_run(context, state, responses, first);
    let after = approval_run(context, before.state, before.responses, second);
    if first.len() == 0 {
        assert(first + second =~= second);
        assert(whole.actions =~= before.actions + after.actions);
    } else {
        let step = approval::approval_step(context, state, responses, first[0]);
        lemma_run_append(context, step.state, step.responses, first.drop_first(), second);
        assert((first + second).drop_first() =~= first.drop_first() + second);
        assert((first + second)[0] == first[0]);
        assert(whole.actions =~= before.actions + after.actions);
    }
}

proof fn lemma_run_one(
    context: ApprovalContextView,
    state: ApprovalState,
    responses: Map<Seq<char>, MessageView>,
    event: ApprovalEventView,
)
    ensures
        ({
            let run = approval_run(context, state, responses, seq![event]);
            let step = approval::approval_step(context, state, responses, event);
            &&& run.state == step.state
            &&& run.responses == step.responses
            &&& run.actions == seq![step.action]
        }),
{
    let step = approval::approval_step(context, state, responses, event);
    assert(seq![event].drop_first() =~= Seq::empty());
    let later = approval_run(context, step.state, step.responses, Seq::empty());
    assert(approval_run(context, state, responses, seq![event]).actions =~= seq![step.action]);
}

/// The first action for the requests from `from` on is the one that turning to
/// them gives.
proof fn lemma_proceed_starts(
    context: ApprovalContextView,
    decisions: Seq<Decision>,
    from: int,
    responses: Map<Seq<char>, MessageView>,
)
    requires
        0 <= from <= context.requests.len(),
    ensures
        all_actions(context, decisions, from).len() > 0,
        all_actions(context, decisions, from)[0] == approval::proceed(
            context,
            from,
            responses,
        ).action,
    decreases context.requests.len() - from,
{
    if from < context.requests.len() && !(context.requests[from].tool_call is Ok) {
        lemma_proceed_starts(context, decisions, from + 1, responses);
    }
}

/// Deals with one request, from its registration on.
proof fn lemma_request_run(
    context: ApprovalContextView,
    position: int,
    decision: Decision,
    responses: Map<Seq<char>, MessageView>,
)
    requires
        0 <= position < context.requests.len(),
        context.requests[position].tool_call is Ok,
    ensures
        ({
            let run = approval_run(
                context,
                ApprovalState { position, phase: ApprovalPhase::Registering },
                responses,
                request_events(decision),
            );
            let settled = if approval::allows(decision.permission) {
                responses
            } else {
                approval::declined(context, position, responses)
            };
            let next = approval::proceed(context, position + 1, settled);
            &&& run.state == next.state
            &&& run.responses == settled
            &&& run.actions == request_actions(context, position, decision).drop_first().push(
                next.action,
            )
        }),
{
    let permission = decision.permission;
    let start = ApprovalState { position, phase: ApprovalPhase::Registering };
    let confirming = ApprovalState { position, phase: ApprovalPhase::Confirming };
    let settled = if approval::allows(permission) {
        responses
    } else {
        approval::declined(context, position, responses)
    };
    let next = approval::proceed(context, position + 1, settled);
    let asked = seq![ApprovalEventView::Registered, ApprovalEventView::PromptTaken];
    let confirmed = ApprovalEventView::Confirmed { permission, finding_id: decision.finding_id };
    let audited: Seq<ApprovalEventView> = if decision.finding_id is Some {
        seq![ApprovalEventView::Audited]
    } else {
        Seq::empty()
    };
    let dispatched: Seq<ApprovalEventView> = if approval::allows(permission) {
        seq![ApprovalEventView::Dispatched]
    } else {
        Seq::empty()
    };
    let remembered: Seq<ApprovalEventView> = if approval::remembered(permission) is Some {
        seq![ApprovalEventView::Remembered]
    } else {
        Seq::empty()
    };
    let prompting = ApprovalState { position, phase: ApprovalPhase::Prompting };

    // The question is asked.
    lemma_run_one(context, start, responses, ApprovalEventView::Registered);
    lemma_run_one(context, prompting, responses, ApprovalEventView::PromptTaken);
    lemma_run_append(
        context,
        start,
        responses,
        seq![ApprovalEventView::Registered],
        seq![ApprovalEventView::PromptTaken],
    );
    assert(asked =~= seq![ApprovalEventView::Registered] + seq![ApprovalEventView::PromptTaken]);

    // The answer comes, and is recorded with a finding.
    let answered = seq![confirmed] + audited;
    let decided = approval::decide(context, position, permission, responses);
    lemma_run_one(context, confirming, responses, confirmed);
    if decision.finding_id is Some {
        let auditing = ApprovalState { position, phase: ApprovalPhase::Auditing(permission) };
        lemma_run_one(context, auditing, responses, ApprovalEventView::Audited);
        lemma_run_append(context, confirming, responses, seq![confirmed], audited);
    } else {
        assert(answered =~= seq![confirmed]);
    }
    lemma_run_append(context, start, responses, asked, answered);

    // The decision is carried out.
    let carried = dispatched + remembered;
    let dispatching = ApprovalState { position, phase: ApprovalPhase::Dispatching(permission) };
    let remembering = ApprovalState { position, phase: ApprovalPhase::Remembering };
    lemma_run_one(context, dispatching, responses, ApprovalEventView::Dispatched);
    lemma_run_one(context, remembering, settled, ApprovalEventView::Remembered);
    lemma_run_append(context, dispatching, responses, dispatched, remembered);
    lemma_run_append(context, start, responses, asked + answered, carried);
    assert(request_events(decision) =~= asked + answered + carried);
    if !approval::allows(permission) {
        assert(carried =~= remembered);
    }
    let run = approval_run(context, start, responses, request_events(decision));
    assert(run.actions =~= request_actions(context, position, decision).drop_first().push(
        next.action,
    ));
}

proof fn lemma_all_run(
    context: ApprovalContextView,
    decisions: Seq<Decision>,
    from: int,
    responses: Map<Seq<char>, MessageView>,
)
    requires
        0 <= from <= context.requests.len(),
    ensures
        ({
            let run = approval_run(
                context,
                approval::proceed(context, from, responses).state,
                responses,
                all_events(context, decisions, from),
            );
            &&& run.state.phase == ApprovalPhase::Finished
            &&& run.responses == all_responses(context, decisions, from, responses)
            &&& run.actions == all_actions(context, decisions, from).drop_first()
        }),
    decreases context.requests.len() - from,
{
    if from < context.requests.len() {
        if context.requests[from].tool_call is Ok {
            let decision = decisions[from];
            let settled = if approval::allows(decision.permission) {
                responses
            } else {
                approval::declined(context, from, responses)
            };
            lemma_request_run(context, from, decision, responses);
            lemma_all_run(context, decisions, from + 1, settled);
            lemma_proceed_starts(context, decisions, from + 1, settled);
            lemma_run_append(
                context,
                approval::proceed(context, from, responses).state,
                responses,
                request_events(decision),
                all_events(context, decisions, from + 1),
            );
            let run = approval_run(
                context,
                approval::proceed(context, from, responses).state,
                responses,
                all_events(context, decisions, from),
            );
            assert(run.actions =~= all_actions(context, decisions, from).drop_first());
        } else {
            lemma_all_run(context, decisions, from + 1, responses);
        }
    } else {
        let run = approval_run(
            context,
            approval::proceed(context, from, responses).state,
            responses,
            all_events(context, decisions, from),
        );
        assert(run.actions =~= all_actions(context, decisions, from).drop_first());
    }
}

/// An approval whose host carries out each action deals with every request that
/// asks for a call, in order and once: it asks the user, dispatches the calls
/// that may run, answers the others in place of their tools, and remembers what
/// the user wants remembered. Then it finishes.
pub proof fn law_approval_settles_every_request(
    context: ApprovalContextView,
    decisions: Seq<Decision>,
    responses: Map<Seq<char>, MessageView>,
)
    ensures
        ({
            let run = approval_run(
                context,
                unstarted(),
                responses,
                seq![ApprovalEventView::Begin] + all_events(context, decisions, 0),
            );
            &&& run.state.phase == ApprovalPhase::Finished
            &&& run.actions == all_actions(context, decisions, 0)
            &&& run.responses == all_responses(context, decisions, 0, responses)
        }),
{
    lemma_run_one(context, unstarted(), responses, ApprovalEventView::Begin);
    lemma_run_append(
        context,
        unstarted(),
        responses,
        seq![ApprovalEventView::Begin],
        all_events(context, decisions, 0),
    );
    lemma_all_run(context, decisions, 0, responses);
    lemma_proceed_starts(context, decisions, 0, responses);
    let run = approval_run(
        context,
        unstarted(),
        responses,
        seq![ApprovalEventView::Begin] + all_events(context, decisions, 0),
    );
    assert(run.actions =~= all_actions(context, decisions, 0));
}

/// What the first `count` events come to, from the start of an approval.
pub open spec fn history(
    context: ApprovalContextView,
    responses: Map<Seq<char>, MessageView>,
    events: Seq<ApprovalEventView>,
    count: int,
) -> ApprovalHistory {
    approval_run(context, unstarted(), responses, events.take(count))
}

proof fn lemma_run_length(
    context: ApprovalContextView,
    state: ApprovalState,
    responses: Map<Seq<char>, MessageView>,
    events: Seq<ApprovalEventView>,
)
    ensures
        approval_run(context, state, responses, events).actions.len() == events.len(),
    decreases events.len(),
{
    if events.len() > 0 {
        let step = approval::approval_step(context, state, responses, events[0]);
        lemma_run_length(context, step.state, step.responses, events.drop_first());
    }
}

proof fn lemma_history_step(
    context: ApprovalContextView,
    responses: Map<Seq<char>, MessageView>,
    events: Seq<ApprovalEventView>,
    k: int,
)
    requires
        0 <= k < events.len(),
    ensures
        ({
            let before = history(context, responses, events, k);
            let after = history(context, responses, events, k + 1);
            let step = approval::approval_step(context, before.state, before.responses, events[k]);
            &&& after.state == step.state
            &&& after.responses == step.responses
            &&& after.actions == before.actions.push(step.action)
            &&& history(context, responses, events, events.len() as int).actions[k] == step.action
        }),
{
    let before = history(context, responses, events, k);
    let all = events.take(events.len() as int);
    lemma_run_append(context, unstarted(), responses, events.take(k), seq![events[k]]);
    lemma_run_one(context, before.state, before.responses, events[k]);
    assert(events.take(k + 1) =~= events.take(k) + seq![events[k]]);
    let after = history(context, responses, events, k + 1);
    let step = approval::approval_step(context, before.state, before.responses, events[k]);
    assert(after.actions =~= before.actions.push(step.action));
    lemma_run_append(context, unstarted(), responses, events.take(k + 1), events.skip(k + 1));
    assert(all =~= events.take(k + 1) + events.skip(k + 1));
    lemma_run_length(context, unstarted(), responses, events.take(k));
}

proof fn lemma_history_start(
    context: ApprovalContextView,
    responses: Map<Seq<char>, MessageView>,
    events: Seq<ApprovalEventView>,
)
    ensures
        history(context, responses, events, 0).state == unstarted(),
        history(context, responses, events, 0).responses == responses,
{
}

/// Whether the user answered at the given event, for the request at `position`.
pub open spec fn is_answer(
    context: ApprovalContextView,
    responses: Map<Seq<char>, MessageView>,
    events: Seq<ApprovalEventView>,
    k: int,
    position: int,
    permission: Permission,
) -> bool {
    &&& 0 <= k < events.len()
    &&& history(context, responses, events, k).state == (ApprovalState {
        position,
        phase: ApprovalPhase::Confirming,
    })
    &&& events[k] matches ApprovalEventView::Confirmed { permission: given, .. } && given
        == permission
}

proof fn lemma_audit_follows_answer(
    context: ApprovalContextView,
    responses: Map<Seq<char>, MessageView>,
    events: Seq<ApprovalEventView>,
    k: int,
)
    requires
        0 <= k <= events.len(),
    ensures
        history(context, responses, events, k).state.phase matches ApprovalPhase::Auditing(permission)
            ==> exists|j: int|
            j < k && #[trigger] is_answer(
                context,
                responses,
                events,
                j,
                history(context, responses, events, k).state.position,
                permission,
            ),
    decreases k,
{
    if k == 0 {
        lemma_history_start(context, responses, events);
    } else {
        lemma_history_step(context, responses, events, k - 1);
        let before = history(context, responses, events, k - 1).state;
        let after = history(context, responses, events, k).state;
        if let ApprovalPhase::Auditing(permission) = after.phase {
            if before.phase == ApprovalPhase::Confirming {
                assert(is_answer(context, responses, events, k - 1, after.position, permission));
            } else {
                lemma_audit_follows_answer(context, responses, events, k - 1);
                let j = choose|j: int|
                    j < k - 1 && #[trigger] is_answer(
                        context,
                        responses,
                        events,
                        j,
                        before.position,
                        permission,
                    );
                assert(is_answer(context, responses, events, j, after.position, permission));
            }
        }
    }
}

/// Whatever a host reports, a call is dispatched only once the user has allowed
/// that very call, and what is dispatched is what the request asks for.
pub proof fn law_dispatch_needs_permission(
    context: ApprovalContextView,
    responses: Map<Seq<char>, MessageView>,
    events: Seq<ApprovalEventView>,
    k: int,
)
    requires
        0 <= k < events.len(),
        history(context, responses, events, events.len() as int).actions[k] is Dispatch,
    ensures
        ({
            let position = history(context, responses, events, k).state.position;
            &&& history(context, responses, events, events.len() as int).actions[k] == (
            ApprovalActionView::Dispatch {
                tool_call: context.requests[position].tool_call->Ok_0,
                request_id: context.requests[position].id,
            })
            &&& exists|j: int, permission: Permission|
                {
                    &&& j <= k
                    &&& #[trigger] is_answer(context, responses, events, j, position, permission)
                    &&& permission == Permission::AllowOnce || permission == Permission::AlwaysAllow
                }
        }),
{
    lemma_history_step(context, responses, events, k);
    lemma_audit_follows_answer(context, responses, events, k);
    let state = history(context, responses, events, k).state;
    match state.phase {
        ApprovalPhase::Confirming => {
            let permission = events[k]->permission;
            assert(is_answer(context, responses, events, k, state.position, permission));
        },
        ApprovalPhase::Auditing(permission) => {
            let j = choose|j: int|
                j < k && #[trigger] is_answer(
                    context,
                    responses,
                    events,
                    j,
                    state.position,
                    permission,
                );
            assert(is_answer(context, responses, events, j, state.position, permission));
        },
        _ => {},
    }
}

/// How far a state is from the start.
spec fn progress(context: ApprovalContextView, state: ApprovalState) -> int {
    match state.phase {
        ApprovalPhase::Starting => 0,
        ApprovalPhase::Registering => 1 + 10 * state.position,
        ApprovalPhase::Prompting => 2 + 10 * state.position,
        ApprovalPhase::Confirming => 3 + 10 * state.position,
        ApprovalPhase::Auditing(_) => 4 + 10 * state.position,
        ApprovalPhase::Dispatching(_) => 5 + 10 * state.position,
        ApprovalPhase::Remembering => 6 + 10 * state.position,
        ApprovalPhase::Finished => 10 + 10 * (context.requests.len() as int),
    }
}

proof fn lemma_next_request_range(context: ApprovalContextView, from: int)
    requires
        0 <= from <= context.requests.len(),
    ensures
        ({
            let position = approval::next_request(context.requests, from);
            &&& from <= position <= context.requests.len()
            &&& position < context.requests.len() ==> context.requests[position].tool_call is Ok
        }),
    decreases context.requests.len() - from,
{
    if from < context.requests.len() && !(context.requests[from].tool_call is Ok) {
        lemma_next_request_range(context, from + 1);
    }
}

proof fn lemma_step_progress(
    context: ApprovalContextView,
    state: ApprovalState,
    responses: Map<Seq<char>, MessageView>,
    event: ApprovalEventView,
)
    requires
        approval::is_valid(context, state),
    ensures
        ({
            let step = approval::approval_step(context, state, responses, event);
            &&& approval::is_valid(context, step.state)
            &&& progress(context, state) <= progress(context, step.state)
            &&& step.action != ApprovalActionView::Ignored ==> progress(context, state) < progress(
                context,
                step.state,
            )
        }),
{
    lemma_next_request_range(context, 0);
    if 0 <= state.position < context.requests.len() {
        lemma_next_request_range(context, state.position + 1);
    }
}

proof fn lemma_history_progress(
    context: ApprovalContextView,
    responses: Map<Seq<char>, MessageView>,
    events: Seq<ApprovalEventView>,
    j: int,
    k: int,
)
    requires
        0 <= j <= k <= events.len(),
    ensures
        approval::is_valid(context, history(context, responses, events, k).state),
        progress(context, history(context, responses, events, j).state) <= progress(
            context,
            history(context, responses, events, k).state,
        ),
    decreases k,
{
    if k == 0 {
        lemma_history_start(context, responses, events);
    } else {
        lemma_history_progress(
            context,
            responses,
            events,
            if j < k {
                j
            } else {
                0
            },
            k - 1,
        );
        let before = history(context, responses, events, k - 1);
        lemma_history_step(context, responses, events, k - 1);
        lemma_step_progress(context, before.state, before.responses, events[k - 1]);
    }
}

/// Whatever a host reports, calls are dispatched in the order of their requests,
/// and none of them twice.
pub proof fn law_calls_are_dispatched_once_and_in_order(
    context: ApprovalContextView,
    responses: Map<Seq<char>, MessageView>,
    events: Seq<ApprovalEventView>,
    j: int,
    k: int,
)
    requires
        0 <= j < k < events.len(),
        history(context, responses, events, events.len() as int).actions[j] is Dispatch,
        history(context, responses, events, events.len() as int).actions[k] is Dispatch,
    ensures
        history(context, responses, events, j).state.position < history(
            context,
            responses,
            events,
            k,
        ).state.position,
{
    lemma_history_step(context, responses, events, j);
    lemma_history_step(context, responses, events, k);
    lemma_history_progress(context, responses, events, j + 1, k);
    lemma_history_progress(context, responses, events, 0, j);
}

/// Whether an action asks the user about the tool and the arguments of the call
/// that came in as `params`.
pub open spec fn asks_about(
    action: ApprovalActionView,
    params: rmcp::model::CallToolRequestParams,
) -> bool {
    &&& action matches ApprovalActionView::Prompt(question)
    &&& question.content.len() == 1
    &&& question.content[0] matches MessageContentView::ActionRequired {
        tool_name,
        arguments,
        ..
    } && {
        &&& tool_name == external::params_name(params)
        &&& arguments == match external::params_arguments(params) {
            Some(entries) => entries,
            None => Map::empty(),
        }
    }
}

proof fn lemma_answer_follows_question(
    context: ApprovalContextView,
    responses: Map<Seq<char>, MessageView>,
    events: Seq<ApprovalEventView>,
    k: int,
)
    requires
        0 <= k <= events.len(),
    ensures
        ({
            let state = history(context, responses, events, k).state;
            let actions = history(context, responses, events, events.len() as int).actions;
            state.phase is Prompting || state.phase is Confirming || state.phase is Auditing
                ==> exists|j: int|
                0 <= j < k && #[trigger] actions[j] == ApprovalActionView::Prompt(
                    approval::prompt_at(context, state.position),
                )
        }),
    decreases k,
{
    if k == 0 {
        lemma_history_start(context, responses, events);
    } else {
        lemma_history_step(context, responses, events, k - 1);
        lemma_answer_follows_question(context, responses, events, k - 1);
    }
}

/// Whatever a host reports, a call is dispatched only once the user was asked
/// about that very call: about the tool that the dispatched parameters name, and
/// about the arguments that they hold.
pub proof fn law_user_is_asked_about_the_dispatched_call(
    context: ApprovalContext<'_>,
    responses: Map<Seq<char>, MessageView>,
    events: Seq<ApprovalEventView>,
    k: int,
)
    requires
        0 <= k < events.len(),
        history(context@, responses, events, events.len() as int).actions[k] is Dispatch,
    ensures
        ({
            let actions = history(context@, responses, events, events.len() as int).actions;
            let position = history(context@, responses, events, k).state.position;
            &&& 0 <= position < context.requests@.len()
            &&& context.requests@[position].tool_call is Ok
            &&& actions[k]->tool_call.params == context.requests@[position].tool_call->Ok_0.params
            &&& actions[k]->Dispatch_request_id == context.requests@[position].id@
            &&& exists|j: int|
                0 <= j < k && #[trigger] asks_about(
                    actions[j],
                    context.requests@[position].tool_call->Ok_0.params,
                )
        }),
{
    let actions = history(context@, responses, events, events.len() as int).actions;
    let state = history(context@, responses, events, k).state;
    lemma_history_step(context@, responses, events, k);
    lemma_history_progress(context@, responses, events, 0, k);
    lemma_answer_follows_question(context@, responses, events, k);
    let j = choose|j: int|
        0 <= j < k && #[trigger] actions[j] == ApprovalActionView::Prompt(
            approval::prompt_at(context@, state.position),
        );
    assert(context@.requests[state.position] == context.requests@[state.position]@);
    assert(asks_about(actions[j], context.requests@[state.position].tool_call->Ok_0.params));
}

/// A question is asked when the confirmation of a request is registered, and it
/// is about that very request: it names the tool and shows the arguments of the
/// call that the request holds, and the explanation of its first inspection, if
/// that gives one. The user alone sees it.
pub proof fn law_question_is_about_the_request_itself(
    context: ApprovalContext<'_>,
    state: ApprovalState,
    responses: Map<Seq<char>, MessageView>,
    event: ApprovalEventView,
)
    requires
        approval::is_valid(context@, state),
    ensures
        ({
            let action = approval::approval_step(context@, state, responses, event).action;
            let request = context.requests@[state.position];
            let params = request.tool_call->Ok_0.params;
            &&& action is Prompt <==> state.phase is Registering && event is Registered
            &&& action matches ApprovalActionView::Prompt(message) ==> {
                &&& 0 <= state.position < context.requests@.len()
                &&& request.tool_call is Ok
                &&& message.role == Role::Assistant
                &&& message.visibility.user_visible
                &&& !message.visibility.agent_visible
                &&& message.content.len() == 1
                &&& message.content[0] matches MessageContentView::ActionRequired {
                    id,
                    tool_name,
                    arguments,
                    prompt,
                }
                &&& id == if context.is_subagent {
                    context.session_id@ + seq![':'] + request.id@
                } else {
                    request.id@
                }
                &&& tool_name == external::params_name(params)
                &&& arguments == match external::params_arguments(params) {
                    Some(entries) => entries,
                    None => Map::empty(),
                }
                &&& (forall|i: int|
                    0 <= i < context.inspection_results@.len() ==> (
                    #[trigger] context.inspection_results@[i]).tool_request_id@ != request.id@)
                    ==> prompt is None
                &&& forall|i: int|
                    0 <= i < context.inspection_results@.len() && (
                    #[trigger] context.inspection_results@[i]).tool_request_id@ == request.id@ && (
                    forall|j: int|
                        0 <= j < i ==> (#[trigger] context.inspection_results@[j]).tool_request_id@
                            != request.id@) ==> prompt == match context.inspection_results@[i].action {
                        InspectionAction::RequireApproval(Some(text)) => Some(text@),
                        _ => None,
                    }
            }
        }),
{
    if 0 <= state.position < context.requests@.len() {
        let request = context.requests@[state.position];
        assert(context@.requests[state.position] == request@);
        text::law_confirmation_key_names_the_request(context.session_id@, request.id@);
        lemma_first_inspection(context.inspection_results@, request.id@);
    }
}

proof fn lemma_first_inspection(inspections: Seq<InspectionResult>, request_id: Seq<char>)
    ensures
        ({
            let message = approval::security_message(
                inspections.map_values(|inspection: InspectionResult| inspection@),
                request_id,
            );
            &&& (forall|i: int|
                0 <= i < inspections.len() ==> (#[trigger] inspections[i]).tool_request_id@
                    != request_id) ==> message is None
            &&& forall|i: int|
                0 <= i < inspections.len() && (#[trigger] inspections[i]).tool_request_id@
                    == request_id && (forall|j: int|
                    0 <= j < i ==> (#[trigger] inspections[j]).tool_request_id@ != request_id)
                    ==> message == match inspections[i].action {
                    InspectionAction::RequireApproval(Some(text)) => Some(text@),
                    _ => None,
                }
        }),
    decreases inspections.len(),
{
    let views = inspections.map_values(|inspection: InspectionResult| inspection@);
    if inspections.len() > 0 {
        let rest = inspections.drop_first();
        assert(views.drop_first() =~= rest.map_values(|inspection: InspectionResult| inspection@));
        lemma_first_inspection(rest, request_id);
        let message = approval::security_message(views, request_id);
        if inspections[0].tool_request_id@ != request_id {
            assert forall|i: int|
                0 <= i < inspections.len() && (#[trigger] inspections[i]).tool_request_id@
                    == request_id && (forall|j: int|
                    0 <= j < i ==> (#[trigger] inspections[j]).tool_request_id@
                        != request_id) implies message == match inspections[i].action {
                InspectionAction::RequireApproval(Some(text)) => Some(text@),
                _ => None,
            } by {
                assert(rest[i - 1] == inspections[i]);
                assert forall|j: int| 0 <= j < i - 1 implies (#[trigger] rest[j]).tool_request_id@
                    != request_id by {
                    assert(rest[j] == inspections[j + 1]);
                }
            }
            if forall|i: int|
                0 <= i < inspections.len() ==> (#[trigger] inspections[i]).tool_request_id@
                    != request_id {
                assert forall|i: int| 0 <= i < rest.len() implies (
                #[trigger] rest[i]).tool_request_id@ != request_id by {
                    assert(rest[i] == inspections[i + 1]);
                }
            }
        }
    }
}

/// A call is dispatched exactly when the user has allowed it, once or always,
/// and what is dispatched under the identifier of a request is the very call
/// that this request holds.
pub proof fn law_dispatched_call_is_that_of_the_request(
    context: ApprovalContext<'_>,
    state: ApprovalState,
    responses: Map<Seq<char>, MessageView>,
    event: ApprovalEventView,
)
    requires
        approval::is_valid(context@, state),
    ensures
        ({
            let step = approval::approval_step(context@, state, responses, event);
            let request = context.requests@[state.position];
            &&& step.action is Dispatch <==> {
                ||| state.phase is Confirming && (event == ApprovalEventView::Confirmed {
                    permission: Permission::AllowOnce,
                    finding_id: None,
                } || event == ApprovalEventView::Confirmed {
                    permission: Permission::AlwaysAllow,
                    finding_id: None,
                })
                ||| event is Audited && (state.phase == ApprovalPhase::Auditing(
                    Permission::AllowOnce,
                ) || state.phase == ApprovalPhase::Auditing(Permission::AlwaysAllow))
            }
            &&& step.action matches ApprovalActionView::Dispatch { tool_call, request_id } ==> {
                &&& 0 <= state.position < context.requests@.len()
                &&& request.tool_call is Ok
                &&& tool_call.params == request.tool_call->Ok_0.params
                &&& request_id == request.id@
                &&& step.responses == responses
            }
        }),
{
    if 0 <= state.position < context.requests@.len() {
        assert(context@.requests[state.position] == context.requests@[state.position]@);
    }
}

/// Whatever the user does not allow is answered in place of its tool: the
/// response to that request, if there is one, says at its end that the user
/// declined. No other response changes, and no other step changes any.
pub proof fn law_declined_request_is_answered(
    context: ApprovalContext<'_>,
    state: ApprovalState,
    responses: Map<Seq<char>, MessageView>,
    event: ApprovalEventView,
    id: Seq<char>,
)
    requires
        approval::is_valid(context@, state),
    ensures
        ({
            let step = approval::approval_step(context@, state, responses, event);
            let request = context.requests@[state.position];
            let is_declined = {
                ||| state.phase is Confirming && (event matches ApprovalEventView::Confirmed {
                    permission,
                    finding_id: None,
                } && permission != Permission::AllowOnce && permission != Permission::AlwaysAllow)
                ||| event is Audited && (state.phase matches ApprovalPhase::Auditing(permission)
                    && permission != Permission::AllowOnce && permission
                    != Permission::AlwaysAllow)
            };
            &&& step.responses.contains_key(id) <==> responses.contains_key(id)
            &&& responses.contains_key(id) && !(is_declined && id == request.id@)
                ==> step.responses[id] == responses[id]
            &&& responses.contains_key(id) && is_declined && id == request.id@ ==> {
                let before = responses[id];
                let after = step.responses[id];
                &&& after.role == before.role
                &&& after.visibility == before.visibility
                &&& after.content.len() == before.content.len() + 1
                &&& after.content.drop_last() == before.content
                &&& after.content.last() matches MessageContentView::ToolResponse {
                    id: answered,
                    tool_result,
                    metadata,
                }
                &&& answered == request.id@
                &&& tool_result matches Ok(ToolOutputView::Composed { content, is_error })
                &&& is_error == Some(true)
                &&& content == seq![OutputBlockView::Text(DECLINED_RESPONSE@)]
                &&& metadata is Some <==> request.metadata is Some
                &&& metadata matches Some(entries) ==> entries == external::object_entries(
                    request.metadata->0,
                )
            }
        }),
{
    if 0 <= state.position < context.requests@.len() {
        assert(context@.requests[state.position] == context.requests@[state.position]@);
    }
    let step = approval::approval_step(context@, state, responses, event);
    if responses.contains_key(id) && step.responses[id] != responses[id] {
        assert(step.responses[id].content.drop_last() =~= responses[id].content);
    }
}

/// A lasting decision, and no other, is remembered: of the tool that the call of
/// the request names, and as the user has made it.
pub proof fn law_lasting_decision_is_remembered(
    context: ApprovalContext<'_>,
    state: ApprovalState,
    responses: Map<Seq<char>, MessageView>,
    event: ApprovalEventView,
)
    requires
        approval::is_valid(context@, state),
        // A call is under way only if it was allowed.
        state.phase matches ApprovalPhase::Dispatching(permission) ==> permission
            == Permission::AllowOnce || permission == Permission::AlwaysAllow,
    ensures
        ({
            let action = approval::approval_step(context@, state, responses, event).action;
            let request = context.requests@[state.position];
            let lasting_allowance = event is Dispatched && state.phase
                == ApprovalPhase::Dispatching(Permission::AlwaysAllow);
            let lasting_denial = {
                ||| state.phase is Confirming && event == (ApprovalEventView::Confirmed {
                    permission: Permission::AlwaysDeny,
                    finding_id: None,
                })
                ||| event is Audited && state.phase == ApprovalPhase::Auditing(
                    Permission::AlwaysDeny,
                )
            };
            &&& action is Remember <==> lasting_allowance || lasting_denial
            &&& action matches ApprovalActionView::Remember { tool_name, level } ==> {
                &&& request.tool_call is Ok
                &&& tool_name == external::params_name(request.tool_call->Ok_0.params)
                &&& lasting_allowance ==> level == PermissionLevel::AlwaysAllow
                &&& lasting_denial ==> level == PermissionLevel::NeverAllow
            }
        }),
{
    if 0 <= state.position < context.requests@.len() {
        assert(context@.requests[state.position] == context.requests@[state.position]@);
    }
}

/// A decision on a request with a security finding is recorded before it is
/// acted on: with the finding, the request, what the user said, and whether that
/// lets the call run.
pub proof fn law_decision_on_a_finding_is_recorded(
    context: ApprovalContext<'_>,
    state: ApprovalState,
    responses: Map<Seq<char>, MessageView>,
    event: ApprovalEventView,
)
    requires
        approval::is_valid(context@, state),
    ensures
        ({
            let step = approval::approval_step(context@, state, responses, event);
            &&& step.action is Audit <==> state.phase is Confirming && (
            event matches ApprovalEventView::Confirmed { finding_id, .. } && finding_id is Some)
            &&& step.action matches ApprovalActionView::Audit {
                finding_id,
                request_id,
                permission,
                verdict,
            } ==> {
                &&& event == ApprovalEventView::Confirmed {
                    permission,
                    finding_id: Some(finding_id),
                }
                &&& request_id == context.requests@[state.position].id@
                &&& verdict == "ALLOW"@ <==> permission == Permission::AllowOnce || permission
                    == Permission::AlwaysAllow
                &&& verdict == "ALLOW"@ || verdict == "BLOCK"@
                &&& step.state == (ApprovalState {
                    position: state.position,
                    phase: ApprovalPhase::Auditing(permission),
                })
                &&& step.responses == responses
            }
        }),
{
    reveal_strlit("ALLOW");
    reveal_strlit("BLOCK");
    assert("ALLOW"@[0] != "BLOCK"@[0]);
    if 0 <= state.position < context.requests@.len() {
        assert(context@.requests[state.position] == context.requests@[state.position]@);
    }
}

/// Once a request is dealt with, it is the turn of the next one that asks for a
/// call: none of these is passed over, and no request that could not be
/// understood gets a turn. The answer is registered for, under the key of that
/// request, before anything is asked. The approval finishes when none is left.
pub proof fn law_every_call_gets_its_turn(
    context: ApprovalContext<'_>,
    state: ApprovalState,
    responses: Map<Seq<char>, MessageView>,
    event: ApprovalEventView,
)
    requires
        approval::is_valid(context@, state),
    ensures
        ({
            let step = approval::approval_step(context@, state, responses, event);
            let from = if state.phase is Starting {
                0
            } else {
                state.position + 1
            };
            &&& state.phase is Starting && event is Begin ==> step.action is Register
                || step.action is Finish
            &&& state.phase is Remembering && event is Remembered ==> step.action is Register
                || step.action is Finish
            &&& event is Dispatched && state.phase == ApprovalPhase::Dispatching(
                Permission::AllowOnce,
            ) ==> step.action is Register || step.action is Finish
            &&& state.phase is Confirming && (event == ApprovalEventView::Confirmed {
                permission: Permission::DenyOnce,
                finding_id: None,
            } || event == ApprovalEventView::Confirmed {
                permission: Permission::Cancel,
                finding_id: None,
            }) ==> step.action is Register || step.action is Finish
            &&& event is Audited && (state.phase == ApprovalPhase::Auditing(Permission::DenyOnce)
                || state.phase == ApprovalPhase::Auditing(Permission::Cancel))
                ==> step.action is Register || step.action is Finish
            &&& step.action is Register || step.action is Finish ==> {
                &&& from <= step.state.position <= context.requests@.len()
                &&& forall|i: int|
                    from <= i < step.state.position ==> (
                    #[trigger] context.requests@[i]).tool_call is Err
                &&& step.action is Finish <==> step.state.position == context.requests@.len()
                &&& step.action is Finish <==> step.state.phase is Finished
            }
            &&& step.action matches ApprovalActionView::Register { confirmation_id } ==> {
                let request = context.requests@[step.state.position];
                &&& request.tool_call is Ok
                &&& confirmation_id == if context.is_subagent {
                    context.session_id@ + seq![':'] + request.id@
                } else {
                    request.id@
                }
                &&& step.state.phase is Registering
            }
            // While a request is dealt with, it stays the one that is dealt with.
            &&& !(step.action is Register || step.action is Finish) ==> step.state.position
                == state.position
            &&& step.action is Ignored ==> step.state == state && step.responses == responses
        }),
{
    lemma_turn(context, 0);
    if 0 <= state.position < context.requests@.len() {
        assert(context@.requests[state.position] == context.requests@[state.position]@);
        lemma_turn(context, state.position + 1);
    }
}

proof fn lemma_turn(context: ApprovalContext<'_>, from: int)
    requires
        0 <= from <= context.requests@.len(),
    ensures
        ({
            let position = approval::next_request(context@.requests, from);
            let request = context.requests@[position];
            &&& from <= position <= context.requests@.len()
            &&& forall|i: int|
                from <= i < position ==> (#[trigger] context.requests@[i]).tool_call is Err
            &&& position < context.requests@.len() ==> {
                &&& request.tool_call is Ok
                &&& approval::key_at(context@, position) == if context.is_subagent {
                    context.session_id@ + seq![':'] + request.id@
                } else {
                    request.id@
                }
            }
        }),
    decreases context.requests@.len() - from,
{
    if from < context.requests@.len() {
        let request = context.requests@[from];
        assert(context@.requests[from] == request@);
        text::law_confirmation_key_names_the_request(context.session_id@, request.id@);
        if !(request.tool_call is Ok) {
            lemma_turn(context, from + 1);
        }
    }
}

/// The answer that is awaited is the answer to the request that the question was
/// about. If it can no longer come, the approval fails and says so.
pub proof fn law_answer_is_awaited_for_the_request(
    context: ApprovalContext<'_>,
    state: ApprovalState,
    responses: Map<Seq<char>, MessageView>,
    event: ApprovalEventView,
)
    requires
        approval::is_valid(context@, state),
    ensures
        ({
            let step = approval::approval_step(context@, state, responses, event);
            let request = context.requests@[state.position];
            &&& step.action is AwaitConfirmation <==> state.phase is Prompting
                && event is PromptTaken
            &&& step.action matches ApprovalActionView::AwaitConfirmation { request_id } ==> {
                &&& request_id == request.id@
                &&& step.state.phase is Confirming
            }
            &&& step.action is Fail <==> state.phase is Confirming && event is ChannelClosed
            &&& step.action matches ApprovalActionView::Fail { message } ==> {
                &&& message == "Confirmation channel closed for request "@ + request.id@
                &&& step.state.phase is Finished
                &&& step.responses == responses
            }
        }),
{
    if 0 <= state.position < context.requests@.len() {
        assert(context@.requests[state.position] == context.requests@[state.position]@);
    }
}

/// Once an approval has finished or failed, nothing that a host reports leads
/// to any action or changes any response.
pub proof fn law_finished_approval_does_nothing(
    context: ApprovalContextView,
    responses: Map<Seq<char>, MessageView>,
    events: Seq<ApprovalEventView>,
    j: int,
    k: int,
)
    requires
        0 <= j <= k < events.len(),
        history(context, responses, events, j).state.phase == ApprovalPhase::Finished,
    ensures
        history(context, responses, events, events.len() as int).actions[k]
            == ApprovalActionView::Ignored,
        history(context, responses, events, k + 1).state == history(
            context,
            responses,
            events,
            j,
        ).state,
        history(context, responses, events, k + 1).responses == history(
            context,
            responses,
            events,
            j,
        ).responses,
    decreases k,
{
    lemma_history_step(context, responses, events, k);
    if j < k {
        law_finished_approval_does_nothing(context, responses, events, j, k - 1);
    }
}

/// If the answer to a request can no longer come, the approval fails with an
/// error that names the request. It is then finished.
pub proof fn law_closed_channel_fails_the_approval(
    context: ApprovalContextView,
    responses: Map<Seq<char>, MessageView>,
    events: Seq<ApprovalEventView>,
    k: int,
)
    requires
        0 <= k < events.len(),
        history(context, responses, events, k).state.phase == ApprovalPhase::Confirming,
        events[k] == ApprovalEventView::ChannelClosed,
    ensures
        history(context, responses, events, events.len() as int).actions[k] == (
        ApprovalActionView::Fail {
            message: "Confirmation channel closed for request "@
                + context.requests[history(context, responses, events, k).state.position].id,
        }),
        history(context, responses, events, k + 1).state.phase == ApprovalPhase::Finished,
        history(context, responses, events, k + 1).responses == history(
            context,
            responses,
            events,
            k,
        ).responses,
{
    lemma_history_step(context, responses, events, k);
}

/// Whether responses differ at most by what was added to their messages.
pub open spec fn has_grown(
    before: Map<Seq<char>, MessageView>,
    after: Map<Seq<char>, MessageView>,
) -> bool {
    &&& after.dom() == before.dom()
    &&& forall|id: Seq<char>| #[trigger]
        before.contains_key(id) ==> {
            &&& after[id].role == before[id].role
            &&& after[id].visibility == before[id].visibility
            &&& before[id].content.is_prefix_of(after[id].content)
        }
}

/// Whatever a host reports, an approval creates no response message, drops none
/// and takes nothing out of one.
pub proof fn law_responses_only_grow(
    context: ApprovalContextView,
    responses: Map<Seq<char>, MessageView>,
    events: Seq<ApprovalEventView>,
    k: int,
)
    requires
        0 <= k <= events.len(),
    ensures
        has_grown(responses, history(context, responses, events, k).responses),
    decreases k,
{
    if k == 0 {
        lemma_history_start(context, responses, events);
    } else {
        law_responses_only_grow(context, responses, events, k - 1);
        lemma_history_step(context, responses, events, k - 1);
        let before = history(context, responses, events, k - 1).responses;
        let after = history(context, responses, events, k).responses;
        assert(has_grown(before, after)) by {
            assert(after.dom() =~= before.dom());
        }
        assert forall|id: Seq<char>| #[trigger] responses.contains_key(id) implies {
            &&& after[id].role == responses[id].role
            &&& after[id].visibility == responses[id].visibility
            &&& responses[id].content.is_prefix_of(after[id].content)
        } by {
            assert(before.contains_key(id));
        }
    }
}

proof fn lemma_allowed_history(
    context: ApprovalContextView,
    responses: Map<Seq<char>, MessageView>,
    events: Seq<ApprovalEventView>,
    k: int,
)
    requires
        0 <= k <= events.len(),
        forall|j: int|
            0 <= j < events.len() ==> (#[trigger] events[j] matches ApprovalEventView::Confirmed {
                permission,
                ..
            } ==> permission == Permission::AllowOnce || permission == Permission::AlwaysAllow),
    ensures
        history(context, responses, events, k).responses == responses,
        history(context, responses, events, k).state.phase matches ApprovalPhase::Auditing(permission)
            ==> approval::allows(permission),
    decreases k,
{
    if k == 0 {
        lemma_history_start(context, responses, events);
    } else {
        lemma_allowed_history(context, responses, events, k - 1);
        lemma_history_step(context, responses, events, k - 1);
        assert(events[k - 1] matches ApprovalEventView::Confirmed { permission, .. }
            ==> approval::allows(permission));
    }
}

/// An approval in which the user allows everything answers no request itself.
pub proof fn law_allowed_requests_are_left_to_their_tools(
    context: ApprovalContextView,
    responses: Map<Seq<char>, MessageView>,
    events: Seq<ApprovalEventView>,
    k: int,
)
    requires
        0 <= k <= events.len(),
        forall|j: int|
            0 <= j < events.len() ==> (#[trigger] events[j] matches ApprovalEventView::Confirmed {
                permission,
                ..
            } ==> permission == Permission::AllowOnce || permission == Permission::AlwaysAllow),
    ensures
        history(context, responses, events, k).responses == responses,
{
    lemma_allowed_history(context, responses, events, k);
}

} // verus!
