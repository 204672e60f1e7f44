use rmcp::model::{CallToolRequestParams, ErrorData};

use tool_execution::approval::{
    find_security_message, is_allowed, ApprovalAction, ApprovalContext, ApprovalEvent, ApprovalRun,
    InspectionAction, InspectionResult, Permission, PermissionLevel,
};
use tool_execution::conversation::{
    JsonObject, Message, MessageContent, OutputBlock, Role, ToolCall, ToolOutput, ToolRequest,
    Visibility,
};
use tool_execution::responses::ResponseMap;
use tool_execution::text::DECLINED_RESPONSE;

fn object(key: &str, value: &str) -> JsonObject {
    let mut object = JsonObject::new();
    object.insert(key.to_string(), value.into());
    object
}

fn request(id: &str, name: &str, arguments: Option<JsonObject>) -> ToolRequest {
    let mut params = CallToolRequestParams::new(name.to_string());
    params.arguments = arguments;
    ToolRequest {
        id: id.to_string(),
        tool_call: Ok(ToolCall::from_params(params)),
        metadata: None,
        tool_meta: None,
    }
}

fn malformed(id: &str) -> ToolRequest {
    ToolRequest {
        id: id.to_string(),
        tool_call: Err(ErrorData::invalid_params("invalid call", None)),
        metadata: None,
        tool_meta: None,
    }
}

fn inspection(id: &str, action: InspectionAction) -> InspectionResult {
    InspectionResult {
        tool_request_id: id.to_string(),
        action,
    }
}

fn context<'a>(
    requests: &'a [ToolRequest],
    inspection_results: &'a [InspectionResult],
    is_subagent: bool,
) -> ApprovalContext<'a> {
    ApprovalContext {
        requests,
        inspection_results,
        is_subagent,
        session_id: "s1",
    }
}

fn confirmed(permission: Permission, finding_id: Option<&str>) -> ApprovalEvent {
    ApprovalEvent::Confirmed {
        permission,
        finding_id: finding_id.map(str::to_string),
    }
}

fn describe(action: &ApprovalAction) -> String {
    match action {
        ApprovalAction::Register { confirmation_id } => format!("register {confirmation_id}"),
        ApprovalAction::Prompt(_) => "prompt".to_string(),
        ApprovalAction::AwaitConfirmation { request_id } => format!("await {request_id}"),
        ApprovalAction::Audit {
            finding_id,
            request_id,
            permission,
            verdict,
        } => format!("audit {finding_id} {request_id} {permission:?} {verdict}"),
        ApprovalAction::Dispatch {
            tool_call,
            request_id,
        } => format!("dispatch {request_id} {}", tool_call.name()),
        ApprovalAction::Remember { tool_name, level } => format!("remember {tool_name} {level:?}"),
        ApprovalAction::Finish => "finish".to_string(),
        ApprovalAction::Fail { message } => format!("fail {message}"),
        ApprovalAction::Ignored => "ignored".to_string(),
    }
}

fn drive(
    context: ApprovalContext,
    events: Vec<ApprovalEvent>,
    responses: &mut ResponseMap,
) -> (Vec<String>, bool) {
    let mut run = ApprovalRun::new(context);
    let mut actions = Vec::new();
    for event in events {
        let (next, action) = run.step(event, responses);
        run = next;
        actions.push(describe(&action));
    }
    (actions, run.is_finished())
}

#[test]
fn allowed_and_denied_calls_are_settled_in_order() {
    let requests = [
        request("a", "shell", None),
        malformed("bad"),
        request("b", "write", None),
        request("c", "read", None),
        request("d", "fetch", None),
    ];
    let mut responses = ResponseMap::new();
    for id in ["a", "b", "c"] {
        responses.insert(id.to_string(), Message::user());
    }
    let events = vec![
        ApprovalEvent::Begin,
        ApprovalEvent::Registered,
        ApprovalEvent::PromptTaken,
        confirmed(Permission::AllowOnce, None),
        ApprovalEvent::Dispatched,
        ApprovalEvent::Registered,
        ApprovalEvent::PromptTaken,
        confirmed(Permission::AlwaysDeny, Some("f7")),
        ApprovalEvent::Audited,
        ApprovalEvent::Remembered,
        ApprovalEvent::Registered,
        ApprovalEvent::PromptTaken,
        confirmed(Permission::AlwaysAllow, Some("f8")),
        ApprovalEvent::Audited,
        ApprovalEvent::Dispatched,
        ApprovalEvent::Remembered,
        ApprovalEvent::Registered,
        ApprovalEvent::PromptTaken,
        confirmed(Permission::Cancel, None),
    ];
    let (actions, finished) = drive(context(&requests, &[], false), events, &mut responses);
    assert_eq!(
        actions,
        [
            "register a",
            "prompt",
            "await a",
            "dispatch a shell",
            "register b",
            "prompt",
            "await b",
            "audit f7 b AlwaysDeny BLOCK",
            "remember write NeverAllow",
            "register c",
            "prompt",
            "await c",
            "audit f8 c AlwaysAllow ALLOW",
            "dispatch c read",
            "remember read AlwaysAllow",
            "register d",
            "prompt",
            "await d",
            "finish",
        ]
    );
    assert!(finished);
    assert!(responses.get("a").unwrap().content.is_empty());
    assert!(responses.get("c").unwrap().content.is_empty());
    assert!(responses.get("d").is_none());
    assert_eq!(responses.get("b").unwrap().content.len(), 1);
}

#[test]
fn a_declined_request_is_answered_with_its_metadata() {
    let mut declined = request("a", "shell", None);
    declined.metadata = Some(object("signature", "x"));
    let requests = [declined];
    let mut responses = ResponseMap::new();
    responses.insert("a".to_string(), Message::user());
    let events = vec![
        ApprovalEvent::Begin,
        ApprovalEvent::Registered,
        ApprovalEvent::PromptTaken,
        confirmed(Permission::DenyOnce, None),
    ];
    let (actions, finished) = drive(context(&requests, &[], false), events, &mut responses);
    assert_eq!(actions, ["register a", "prompt", "await a", "finish"]);
    assert!(finished);
    let message = responses.get("a").unwrap();
    assert_eq!(message.role, Role::User);
    let MessageContent::ToolResponse(response) = &message.content[0] else {
        panic!("expected a tool response");
    };
    assert_eq!(response.id, "a");
    assert_eq!(response.metadata, Some(object("signature", "x")));
    let Ok(ToolOutput::Composed { content, is_error }) = &response.tool_result else {
        panic!("expected a composed output");
    };
    assert_eq!(*is_error, Some(true));
    assert_eq!(content.len(), 1);
    let OutputBlock::Text(text) = &content[0] else {
        panic!("expected text");
    };
    assert_eq!(text, DECLINED_RESPONSE);
    assert_eq!(
        DECLINED_RESPONSE,
        "The user has declined to run this tool. DO NOT attempt to call this tool again. If there are no alternative methods to proceed, clearly explain the situation and STOP."
    );
}

#[test]
fn the_question_is_for_the_user_alone() {
    let requests = [
        request("a", "shell", Some(object("cmd", "ls"))),
        request("b", "read", None),
    ];
    let inspections = [
        inspection("b", InspectionAction::Allow),
        inspection("a", InspectionAction::RequireApproval(Some("risky".to_string()))),
        inspection("a", InspectionAction::RequireApproval(Some("later".to_string()))),
        inspection("b", InspectionAction::RequireApproval(Some("late".to_string()))),
    ];
    let mut responses = ResponseMap::new();
    let mut run = ApprovalRun::new(context(&requests, &inspections, true));
    let expected = [
        ("s1:a", "shell", object("cmd", "ls"), Some("risky".to_string())),
        ("s1:b", "read", JsonObject::new(), None),
    ];
    let mut event = ApprovalEvent::Begin;
    for (key, name, arguments, prompt) in expected {
        let (next, action) = run.step(event, &mut responses);
        assert_eq!(describe(&action), format!("register {key}"));
        let (next, action) = next.step(ApprovalEvent::Registered, &mut responses);
        let ApprovalAction::Prompt(message) = action else {
            panic!("expected a question");
        };
        assert_eq!(message.role, Role::Assistant);
        assert_eq!(
            message.visibility,
            Visibility {
                user_visible: true,
                agent_visible: false
            }
        );
        assert_eq!(message.content.len(), 1);
        let MessageContent::ActionRequired(question) = &message.content[0] else {
            panic!("expected a question");
        };
        assert_eq!(question.id, key);
        assert_eq!(question.tool_name, name);
        assert_eq!(question.arguments, arguments.clone());
        assert_eq!(question.prompt, prompt);
        let (next, _) = next.step(ApprovalEvent::PromptTaken, &mut responses);
        let (next, action) = next.step(confirmed(Permission::AllowOnce, None), &mut responses);
        let ApprovalAction::Dispatch { tool_call, .. } = action else {
            panic!("expected a dispatch");
        };
        assert_eq!(tool_call.name(), name);
        assert_eq!(tool_call.params.name, name);
        assert_eq!(tool_call.params.arguments.unwrap_or_default(), arguments);
        run = next;
        event = ApprovalEvent::Dispatched;
    }
}

#[test]
fn a_closed_channel_ends_the_approval() {
    let requests = [request("a", "shell", None), request("b", "read", None)];
    let mut responses = ResponseMap::new();
    responses.insert("a".to_string(), Message::user());
    let events = vec![
        ApprovalEvent::Begin,
        ApprovalEvent::Registered,
        ApprovalEvent::PromptTaken,
        ApprovalEvent::ChannelClosed,
        ApprovalEvent::Begin,
        confirmed(Permission::AllowOnce, None),
    ];
    let (actions, finished) = drive(context(&requests, &[], false), events, &mut responses);
    assert_eq!(
        actions,
        [
            "register a",
            "prompt",
            "await a",
            "fail Confirmation channel closed for request a",
            "ignored",
            "ignored",
        ]
    );
    assert!(finished);
    assert!(responses.get("a").unwrap().content.is_empty());
}

#[test]
fn events_that_are_not_waited_for_change_nothing() {
    let requests = [request("a", "shell", None)];
    let mut responses = ResponseMap::new();
    let events = vec![
        confirmed(Permission::AllowOnce, None),
        ApprovalEvent::Begin,
        confirmed(Permission::AllowOnce, None),
        ApprovalEvent::Registered,
        ApprovalEvent::Dispatched,
        ApprovalEvent::PromptTaken,
        ApprovalEvent::Audited,
        confirmed(Permission::AllowOnce, None),
        confirmed(Permission::AllowOnce, None),
    ];
    let (actions, finished) = drive(context(&requests, &[], false), events, &mut responses);
    assert_eq!(
        actions,
        [
            "ignored",
            "register a",
            "ignored",
            "prompt",
            "ignored",
            "await a",
            "ignored",
            "dispatch a shell",
            "ignored",
        ]
    );
    assert!(!finished);
}

#[test]
fn nothing_to_ask_finishes_at_once() {
    let requests = [malformed("a"), malformed("b")];
    let mut responses = ResponseMap::new();
    let (actions, finished) = drive(
        context(&requests, &[], false),
        vec![ApprovalEvent::Begin],
        &mut responses,
    );
    assert_eq!(actions, ["finish"]);
    assert!(finished);
}

#[test]
fn only_the_first_inspection_of_a_request_speaks() {
    let inspections = [
        inspection("a", InspectionAction::Deny),
        inspection("a", InspectionAction::RequireApproval(Some("late".to_string()))),
        inspection("b", InspectionAction::RequireApproval(None)),
        inspection("c", InspectionAction::RequireApproval(Some("why".to_string()))),
    ];
    let message = |id: &str| find_security_message(&inspections, &id.to_string());
    assert_eq!(message("a"), None);
    assert_eq!(message("b"), None);
    assert_eq!(message("c"), Some("why".to_string()));
    assert_eq!(message("d"), None);
}

#[test]
fn permissions_that_allow() {
    assert!(is_allowed(Permission::AllowOnce));
    assert!(is_allowed(Permission::AlwaysAllow));
    assert!(!is_allowed(Permission::DenyOnce));
    assert!(!is_allowed(Permission::AlwaysDeny));
    assert!(!is_allowed(Permission::Cancel));
    assert_ne!(PermissionLevel::AlwaysAllow, PermissionLevel::NeverAllow);
}

#[test]
fn inserting_a_response_replaces_the_one_before() {
    let mut responses = ResponseMap::new();
    responses.insert("a".to_string(), Message::user());
    responses.insert("b".to_string(), Message::user());
    responses.insert("a".to_string(), Message::assistant());
    assert_eq!(responses.get("a").unwrap().role, Role::Assistant);
    assert_eq!(responses.get("b").unwrap().role, Role::User);
    assert!(responses.get("c").is_none());
    responses.add_tool_response(
        &"c".to_string(),
        Err(ErrorData::invalid_params("x", None)),
        &None,
    );
    assert!(responses.get("c").is_none());
    assert!(responses.get("a").unwrap().content.is_empty());
}
