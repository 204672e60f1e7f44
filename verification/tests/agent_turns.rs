use std::collections::HashMap;
use std::sync::{Arc, Mutex};

use futures::executor::block_on;
use futures::future;
use futures::stream::{self, BoxStream};
use futures::{FutureExt, StreamExt};
use rmcp::model::{CallToolRequestParams, CallToolResult, ContentBlock};
use tokio_util::sync::CancellationToken;

use tool_execution::approval::{
    ApprovalAction, ApprovalContext, ApprovalEvent, ApprovalRun, Permission, PermissionLevel,
};
use tool_execution::conversation::{
    Message, MessageContent, ToolCall, ToolOutput, ToolRequest, ToolResult,
};
use tool_execution::policy::OrderedToolCalls;
use tool_execution::responses::ResponseMap;
use tool_execution::schedule::{schedule_tool_streams, Branch, LaneAnswer};
use tool_execution::stream::{identify_item, ToolEvent, ToolStreamItem, ToolStreamState};

const WAIT: &str = "ordered_wait";
const AUTO: &str = "ordered_auto";
const ALIAS: &str = "developer__ordered_wait";
const PARALLEL: &str = "parallel";

type Item = ToolStreamItem<ToolResult<ToolOutput>>;
type ToolStream = BoxStream<'static, Item>;

fn call(id: &str, name: &str, block: bool) -> (ToolRequest, bool) {
    let request = ToolRequest {
        id: id.to_string(),
        tool_call: Ok(ToolCall::from_params(CallToolRequestParams::new(
            name.to_string(),
        ))),
        metadata: None,
        tool_meta: None,
    };
    (request, block)
}

/// One turn of an agent whose tools record in which order they are entered.
struct Turn {
    requests: Vec<ToolRequest>,
    blocking: HashMap<String, CancellationToken>,
    entries: Arc<Mutex<Vec<String>>>,
    asked: Vec<String>,
    responses: ResponseMap,
    policy: OrderedToolCalls,
    ask_before_wait: bool,
    cancel: CancellationToken,
}

impl Turn {
    fn new(calls: Vec<(ToolRequest, bool)>, bound: usize, wait_permission: PermissionLevel) -> Turn {
        let mut responses = ResponseMap::new();
        let mut blocking = HashMap::new();
        let mut requests = Vec::new();
        for (request, block) in calls {
            responses.insert(request.id.clone(), Message::user());
            if block {
                blocking.insert(request.id.clone(), CancellationToken::new());
            }
            requests.push(request);
        }
        Turn {
            requests,
            blocking,
            entries: Arc::new(Mutex::new(Vec::new())),
            asked: Vec::new(),
            responses,
            policy: OrderedToolCalls::new(
                vec![WAIT.to_string(), AUTO.to_string(), ALIAS.to_string()],
                bound,
            ),
            ask_before_wait: wait_permission == PermissionLevel::AskBefore,
            cancel: CancellationToken::new(),
        }
    }

    fn name(request: &ToolRequest) -> String {
        match &request.tool_call {
            Ok(call) => call.name().to_string(),
            Err(_) => String::new(),
        }
    }

    fn stream(&self, id: &str) -> (String, ToolStream) {
        let entries = self.entries.clone();
        let body_id = id.to_string();
        let release = self.blocking.get(id).cloned();
        let report = async move {
            entries.lock().unwrap().push(body_id.clone());
            if let Some(release) = release {
                release.cancelled().await;
            }
            let result = CallToolResult::success(vec![ContentBlock::text(body_id)]);
            let mut state = ToolStreamState::new();
            state
                .step(ToolEvent::Done(Ok(ToolOutput::Reported(result))))
                .unwrap()
        };
        (id.to_string(), stream::once(report).boxed())
    }

    /// Dispatches what needs no approval, and then what the user allows.
    fn start(&mut self, answers: &[(&str, Permission)]) -> BoxStream<'static, (String, Item)> {
        let mut tool_futures = Vec::new();
        let mut to_ask = Vec::new();
        for request in &self.requests {
            let name = Turn::name(request);
            if name == WAIT && self.ask_before_wait {
                to_ask.push(call(&request.id, &name, false).0);
            } else {
                tool_futures.push(self.stream(&request.id));
            }
        }
        let mut run = ApprovalRun::new(ApprovalContext {
            requests: &to_ask,
            inspection_results: &[],
            is_subagent: true,
            session_id: "session",
        });
        let mut event = ApprovalEvent::Begin;
        let mut responses = std::mem::replace(&mut self.responses, ResponseMap::new());
        loop {
            let (next, action) = run.step(event, &mut responses);
            run = next;
            event = match action {
                ApprovalAction::Register { confirmation_id } => {
                    let request_id = confirmation_id.strip_prefix("session:").unwrap();
                    self.asked.push(request_id.to_string());
                    ApprovalEvent::Registered
                }
                ApprovalAction::Prompt(_) => ApprovalEvent::PromptTaken,
                ApprovalAction::AwaitConfirmation { request_id } => {
                    assert!(self.entries().is_empty());
                    let answer = answers.iter().find(|(id, _)| *id == request_id).unwrap();
                    ApprovalEvent::Confirmed {
                        permission: answer.1,
                        finding_id: None,
                    }
                }
                ApprovalAction::Dispatch { request_id, .. } => {
                    tool_futures.push(self.stream(&request_id));
                    ApprovalEvent::Dispatched
                }
                ApprovalAction::Finish => break,
                _ => panic!("unexpected action"),
            };
        }
        self.responses = responses;
        let branches = schedule_tool_streams(
            tool_futures,
            &self.requests,
            Some(&self.policy),
            self.cancel.clone(),
        );
        let identify = |request_id: String, stream: ToolStream| {
            stream.map(move |item| identify_item(&request_id, item)).boxed()
        };
        stream::select_all(branches.into_iter().map(|branch| match branch {
            Branch::Tool(request_id, stream) => identify(request_id, stream),
            Branch::Rejected(request_id, output) => {
                stream::once(future::ready((request_id, ToolStreamItem::Result(Ok(output))))).boxed()
            }
            Branch::Lane(lane) => stream::unfold(lane, move |mut lane| {
                lane.call_ended();
                future::ready(match lane.next_call() {
                    LaneAnswer::Start(request_id, stream) => {
                        Some((identify(request_id, stream), lane))
                    }
                    LaneAnswer::Busy | LaneAnswer::Done => None,
                })
            })
            .flatten()
            .boxed(),
        }))
        .boxed()
    }

    fn entries(&self) -> Vec<String> {
        self.entries.lock().unwrap().clone()
    }

    fn release(&self, id: &str) {
        self.blocking[id].cancel();
    }

    /// Takes all that is ready.
    fn poll(&mut self, running: &mut BoxStream<'static, (String, Item)>) {
        while let Some(Some((id, item))) = running.next().now_or_never() {
            self.collect(id, item);
        }
    }

    fn finish(&mut self, mut running: BoxStream<'static, (String, Item)>) {
        while let Some((id, item)) = block_on(running.next()) {
            self.collect(id, item);
        }
    }

    fn collect(&mut self, id: String, item: Item) {
        if let ToolStreamItem::Result(result) = item {
            self.responses.add_tool_response(&id, result, &None);
        }
    }

    fn assert_error_response(&self, id: &str) {
        let message = self.responses.get(id).expect("expected a response");
        let Some(MessageContent::ToolResponse(response)) = message.content.last() else {
            panic!("expected a paired tool response");
        };
        assert_eq!(response.id, id);
        assert!(match &response.tool_result {
            Ok(ToolOutput::Reported(result)) => result.is_error == Some(true),
            Ok(ToolOutput::Composed { is_error, .. }) => *is_error == Some(true),
            Err(_) => true,
        });
    }
}

#[test]
fn source_order_survives_mixed_permission_buckets() {
    let mut turn = Turn::new(
        vec![call("first", WAIT, true), call("second", AUTO, false)],
        8,
        PermissionLevel::AskBefore,
    );
    let mut running = turn.start(&[("first", Permission::AllowOnce)]);
    assert_eq!(turn.asked, ["first"]);
    turn.poll(&mut running);
    assert_eq!(turn.entries(), ["first"]);
    turn.release("first");
    turn.finish(running);
    assert_eq!(turn.entries(), ["first", "second"]);
}

#[test]
fn denied_first_call_does_not_block_following_calls() {
    let mut turn = Turn::new(
        vec![call("denied", WAIT, false), call("allowed", AUTO, false)],
        8,
        PermissionLevel::AskBefore,
    );
    let running = turn.start(&[("denied", Permission::DenyOnce)]);
    assert_eq!(turn.asked, ["denied"]);
    turn.finish(running);
    assert_eq!(turn.entries(), ["allowed"]);
    turn.assert_error_response("denied");
}

#[test]
fn unrelated_tools_run_while_ordered_call_is_blocked() {
    let mut turn = Turn::new(
        vec![
            call("first", AUTO, true),
            call("second", AUTO, false),
            call("unrelated", PARALLEL, false),
        ],
        8,
        PermissionLevel::AlwaysAllow,
    );
    let mut running = turn.start(&[]);
    turn.poll(&mut running);
    assert!(turn.entries().contains(&"first".to_string()));
    assert!(turn.entries().contains(&"unrelated".to_string()));
    assert_eq!(turn.entries().len(), 2);
    turn.release("first");
    turn.finish(running);
    assert_eq!(
        turn.entries()
            .iter()
            .filter(|id| id.as_str() != "unrelated")
            .cloned()
            .collect::<Vec<_>>(),
        ["first", "second"]
    );
}

#[test]
fn overflow_never_invokes_the_rejected_body() {
    let mut turn = Turn::new(
        vec![
            call("first", AUTO, false),
            call("second", AUTO, false),
            call("overflow", AUTO, false),
            call("unrelated", PARALLEL, false),
        ],
        2,
        PermissionLevel::AlwaysAllow,
    );
    let running = turn.start(&[]);
    turn.finish(running);
    let entries = turn.entries();
    assert_eq!(entries.len(), 3);
    assert!(!entries.iter().any(|id| id == "overflow"));
    turn.assert_error_response("overflow");
}

#[test]
fn cancellation_and_stream_drop_never_invoke_waiting_calls() {
    for drop_stream in [false, true] {
        let mut turn = Turn::new(
            vec![call("first", AUTO, true), call("waiting", AUTO, false)],
            8,
            PermissionLevel::AlwaysAllow,
        );
        let mut running = turn.start(&[]);
        turn.poll(&mut running);
        assert_eq!(turn.entries(), ["first"]);
        if drop_stream {
            drop(running);
        } else {
            turn.cancel.cancel();
            turn.release("first");
            turn.finish(running);
        }
        assert_eq!(turn.entries(), ["first"]);
    }
}

#[test]
fn configured_aliases_share_the_ordered_lane() {
    let mut turn = Turn::new(
        vec![call("canonical", WAIT, true), call("alias", ALIAS, false)],
        8,
        PermissionLevel::AlwaysAllow,
    );
    let mut running = turn.start(&[]);
    turn.poll(&mut running);
    assert_eq!(turn.entries(), ["canonical"]);
    turn.release("canonical");
    turn.finish(running);
    assert_eq!(turn.entries(), ["canonical", "alias"]);
}

#[test]
fn approval_resume_preserves_the_original_ordered_batch_bound() {
    let mut turn = Turn::new(
        vec![
            call("first", AUTO, false),
            call("second", WAIT, false),
            call("overflow", AUTO, false),
        ],
        2,
        PermissionLevel::AskBefore,
    );
    let running = turn.start(&[("second", Permission::AllowOnce)]);
    assert_eq!(turn.asked, ["second"]);
    turn.finish(running);
    assert_eq!(turn.entries(), ["first", "second"]);
    turn.assert_error_response("overflow");
}

#[test]
fn partial_approval_keeps_the_group_and_original_bound_intact() {
    let mut turn = Turn::new(
        vec![
            call("head", AUTO, false),
            call("approval_a", WAIT, false),
            call("approval_b", WAIT, false),
        ],
        2,
        PermissionLevel::AskBefore,
    );
    let running = turn.start(&[
        ("approval_a", Permission::AllowOnce),
        ("approval_b", Permission::AllowOnce),
    ]);
    assert_eq!(turn.asked, ["approval_a", "approval_b"]);
    assert!(turn.entries().is_empty());
    turn.finish(running);
    assert_eq!(turn.entries(), ["head", "approval_a"]);
    turn.assert_error_response("approval_b");
}
