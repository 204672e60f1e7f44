use std::path::PathBuf;

use rmcp::model::{
    CallToolRequestParams, CallToolResult, ContentBlock, ErrorData, ServerNotification,
    ToolListChangedNotification,
};
use tokio::sync::mpsc;

use tool_execution::context::{ToolCallContext, ToolCallNotificationEmitter};
use tool_execution::conversation::{
    JsonObject, Message, MessageContent, Role, ToolCall, ToolOutput, ToolRequest, ToolResult,
};
use tool_execution::frontend::{FrontendAction, FrontendEvent, FrontendRun};
use tool_execution::stream::{
    identify_item, settle_dispatch, ToolCallResult, ToolEvent, ToolFuture, ToolStreamItem,
    ToolStreamState,
};
use tool_execution::text::{
    channel_closed_message, confirmation_id, decimal, overflow_message,
    CHAT_MODE_TOOL_SKIPPED_RESPONSE,
};

fn notification() -> ServerNotification {
    ServerNotification::ToolListChangedNotification(ToolListChangedNotification::default())
}

fn describe(item: Option<ToolStreamItem<u32>>) -> String {
    match item {
        None => "nothing".to_string(),
        Some(ToolStreamItem::ActionRequired(_)) => "action".to_string(),
        Some(ToolStreamItem::Message(_)) => "message".to_string(),
        Some(ToolStreamItem::Result(result)) => format!("result {result}"),
    }
}

#[test]
fn a_stream_relays_until_its_result() {
    let mut state = ToolStreamState::new();
    let events: Vec<ToolEvent<u32>> = vec![
        ToolEvent::Notification(Some(notification())),
        ToolEvent::ActionRequired(None),
        ToolEvent::ActionRequired(Some(Message::assistant())),
        ToolEvent::Notification(None),
        ToolEvent::Notification(Some(notification())),
        ToolEvent::Done(7),
        ToolEvent::Notification(Some(notification())),
        ToolEvent::Done(8),
    ];
    let mut seen = Vec::new();
    for event in events {
        seen.push(format!("{} {}", describe(state.step(event)), state.is_finished()));
    }
    assert_eq!(
        seen,
        [
            "message false",
            "nothing false",
            "action false",
            "nothing false",
            "message false",
            "result 7 true",
            "nothing true",
            "nothing true",
        ]
    );
}

#[test]
fn items_carry_their_request() {
    assert_eq!(
        identify_item(&"r1".to_string(), 3),
        ("r1".to_string(), 3)
    );
}

fn parts(call: ToolCallResult<u8, u16, u32>) -> (String, Option<u16>, Option<u32>) {
    let result = match call.result {
        ToolFuture::Pending(future) => format!("pending {future}"),
        ToolFuture::Ready(Ok(ToolOutput::Reported(result))) => format!("{:?}", result.is_error),
        ToolFuture::Ready(Ok(ToolOutput::Composed { .. })) => "composed".to_string(),
        ToolFuture::Ready(Err(error)) => error.message.to_string(),
    };
    (result, call.notification_stream, call.action_required_stream)
}

#[test]
fn a_ready_result_comes_without_streams() {
    let result = CallToolResult::success(vec![ContentBlock::text("done")]);
    let call = ToolCallResult::from(Ok(ToolOutput::Reported(result)));
    assert_eq!(parts(call), ("Some(false)".to_string(), None, None));
}

#[test]
fn a_failed_dispatch_reports_its_error() {
    let failed: ToolResult<ToolCallResult<u8, u16, u32>> =
        Err(ErrorData::invalid_params("no such tool", None));
    assert_eq!(
        parts(settle_dispatch(failed)),
        ("no such tool".to_string(), None, None)
    );
    let running = ToolCallResult {
        result: ToolFuture::Pending(1),
        notification_stream: Some(2),
        action_required_stream: Some(3),
    };
    assert_eq!(
        parts(settle_dispatch(Ok(running))),
        ("pending 1".to_string(), Some(2), Some(3))
    );
}

#[test]
fn a_slow_consumer_does_not_hold_up_a_tool() {
    let (sender, mut receiver) = mpsc::channel(1);
    let emitter = ToolCallNotificationEmitter::new(sender);
    let context = ToolCallContext::new("s".to_string(), None, None)
        .with_notification_emitter(emitter)
        .clone();
    let emitter = context.notification_emitter().unwrap();
    emitter.emit_best_effort(notification());
    emitter.emit_best_effort(notification());
    assert!(receiver.try_recv().is_ok());
    assert!(receiver.try_recv().is_err());
    emitter.emit_best_effort(notification());
    assert!(receiver.try_recv().is_ok());
    drop(receiver);
    emitter.emit_best_effort(notification());
}

#[test]
fn a_context_keeps_what_it_is_given() {
    let context = ToolCallContext::new(
        "session".to_string(),
        Some(PathBuf::from("/work/dir")),
        Some("r1".to_string()),
    );
    assert_eq!(context.session_id, "session");
    assert_eq!(context.working_dir_str(), Some("/work/dir"));
    assert_eq!(context.tool_call_request_id, Some("r1".to_string()));
    assert!(context.notification_emitter().is_none());
    let copy = context.clone();
    assert_eq!(copy.working_dir, Some(PathBuf::from("/work/dir")));
    let bare = ToolCallContext::new("session".to_string(), None, None);
    assert_eq!(bare.working_dir_str(), None);
}

fn frontend_request() -> ToolRequest {
    let mut metadata = JsonObject::new();
    metadata.insert("k".to_string(), "v".into());
    ToolRequest {
        id: "r1".to_string(),
        tool_call: Ok(ToolCall::from_params(CallToolRequestParams::new("pick_file"))),
        metadata: Some(metadata),
        tool_meta: None,
    }
}

#[test]
fn a_frontend_call_is_passed_on_and_answered() {
    let request = frontend_request();
    let mut response = Message::user();
    let run = FrontendRun::new(&request);
    let (run, action) = run.step(FrontendEvent::Begin, &mut response);
    let FrontendAction::CheckTool { tool_name } = action else {
        panic!("expected a check");
    };
    assert_eq!(tool_name, "pick_file");
    let (run, action) = run.step(FrontendEvent::Checked(true), &mut response);
    let FrontendAction::Send(message) = action else {
        panic!("expected a message");
    };
    assert_eq!(message.role, Role::Assistant);
    assert!(message.visibility.agent_visible);
    let MessageContent::FrontendToolRequest(sent) = &message.content[0] else {
        panic!("expected a frontend request");
    };
    assert_eq!(sent.id, "r1");
    let Ok(call) = &sent.tool_call else {
        panic!("expected a call");
    };
    assert_eq!(call.name(), "pick_file");
    assert_eq!(call.params.name, "pick_file");
    let (run, action) = run.step(FrontendEvent::Sent, &mut response);
    assert!(matches!(action, FrontendAction::Receive));
    assert!(response.content.is_empty());
    assert!(!run.is_finished());
    let reply = ToolOutput::Reported(CallToolResult::success(vec![]));
    let (run, action) = run.step(
        FrontendEvent::Received(Some(("reply".to_string(), Ok(reply)))),
        &mut response,
    );
    assert!(matches!(action, FrontendAction::Finish));
    assert!(run.is_finished());
    assert_eq!(response.content.len(), 1);
    let MessageContent::ToolResponse(added) = &response.content[0] else {
        panic!("expected a tool response");
    };
    assert_eq!(added.id, "reply");
    assert_eq!(added.metadata, request.metadata);
    let (_, action) = run.step(FrontendEvent::Begin, &mut response);
    assert!(matches!(action, FrontendAction::Ignored));
    assert_eq!(response.content.len(), 1);
}

#[test]
fn a_frontend_that_is_gone_leaves_no_answer() {
    let request = frontend_request();
    let mut response = Message::user();
    let mut run = FrontendRun::new(&request);
    for event in [
        FrontendEvent::Begin,
        FrontendEvent::Checked(true),
        FrontendEvent::Sent,
        FrontendEvent::Received(None),
    ] {
        run = run.step(event, &mut response).0;
    }
    assert!(run.is_finished());
    assert!(response.content.is_empty());
}

#[test]
fn other_requests_do_not_reach_the_frontend() {
    let request = frontend_request();
    let mut response = Message::user();
    let (run, _) = FrontendRun::new(&request).step(FrontendEvent::Begin, &mut response);
    let (run, action) = run.step(FrontendEvent::Checked(false), &mut response);
    assert!(matches!(action, FrontendAction::Finish));
    assert!(run.is_finished());
    let mut malformed = frontend_request();
    malformed.tool_call = Err(ErrorData::invalid_params("invalid call", None));
    let (run, action) = FrontendRun::new(&malformed).step(FrontendEvent::Begin, &mut response);
    assert!(matches!(action, FrontendAction::Finish));
    assert!(run.is_finished());
    assert!(response.content.is_empty());
}

#[test]
fn numbers_are_written_in_decimal() {
    assert_eq!(decimal(0), "0");
    assert_eq!(decimal(9), "9");
    assert_eq!(decimal(10), "10");
    assert_eq!(decimal(1234567890), "1234567890");
    assert_eq!(decimal(usize::MAX), format!("{}", usize::MAX));
}

#[test]
fn composed_texts() {
    assert_eq!(
        overflow_message(8),
        "This tool call was not executed because the ordered tool batch exceeds its limit of 8 calls. Wait for the admitted calls to finish, then submit this work in a later batch."
    );
    assert_eq!(
        channel_closed_message("r1"),
        "Confirmation channel closed for request r1"
    );
    assert_eq!(confirmation_id(false, "s1", "r1"), "r1");
    assert_eq!(confirmation_id(true, "s1", "r1"), "s1:r1");
    assert_ne!(confirmation_id(true, "s1", "r1"), confirmation_id(true, "s2", "r1"));
    assert_ne!(confirmation_id(true, "a", "a:b"), confirmation_id(true, "a:a", "a:b"));
    assert_ne!(confirmation_id(true, "s1", "r1"), confirmation_id(false, "s1", "r1"));
    assert_eq!(
        CHAT_MODE_TOOL_SKIPPED_RESPONSE,
        "Let the user know the tool call was skipped in goose chat mode. DO NOT apologize for skipping the tool call. DO NOT say sorry. Provide an explanation of what the tool call would do, structured as a plan for the user. Again, DO NOT apologize. **Example Plan:**\n 1. **Identify Task Scope** - Determine the purpose and expected outcome.\n 2. **Outline Steps** - Break down the steps.\n If needed, adjust the explanation based on user preferences or questions."
    );
}
