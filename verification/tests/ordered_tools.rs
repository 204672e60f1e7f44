use std::collections::HashMap;
use std::future::Future;
use std::sync::{Arc, Mutex};

use futures::executor::block_on;
use futures::future;
use futures::stream::{self, BoxStream};
use futures::{FutureExt, StreamExt};
use rmcp::model::{CallToolRequestParams, CallToolResult, ContentBlock, ErrorData};
use tokio::sync::oneshot;
use tokio_util::sync::CancellationToken;

use tool_execution::conversation::{
    OutputBlock, ToolCall, ToolOutput, ToolRequest, ToolResult,
};
use tool_execution::policy::OrderedToolCalls;
use tool_execution::schedule::{schedule_tool_streams, Branch, LaneAnswer};
use tool_execution::stream::{identify_item, ToolEvent, ToolStreamItem, ToolStreamState};

type Item = ToolStreamItem<ToolResult<ToolOutput>>;
type ToolStream = BoxStream<'static, Item>;
type IdentifiedToolStream = BoxStream<'static, (String, Item)>;

fn identify_stream(request_id: String, stream: ToolStream) -> IdentifiedToolStream {
    stream.map(move |item| identify_item(&request_id, item)).boxed()
}

fn run_batch(branches: Vec<Branch<ToolStream>>) -> IdentifiedToolStream {
    stream::select_all(branches.into_iter().map(|branch| match branch {
        Branch::Tool(request_id, stream) => identify_stream(request_id, stream),
        Branch::Rejected(request_id, output) => {
            stream::once(future::ready((request_id, ToolStreamItem::Result(Ok(output))))).boxed()
        }
        Branch::Lane(lane) => stream::unfold(lane, |mut lane| {
            lane.call_ended();
            future::ready(match lane.next_call() {
                LaneAnswer::Start(request_id, stream) => {
                    Some((identify_stream(request_id, stream), lane))
                }
                LaneAnswer::Busy | LaneAnswer::Done => None,
            })
        })
        .flatten()
        .boxed(),
    }))
    .boxed()
}

fn schedule(
    tool_streams: Vec<(String, ToolStream)>,
    requests: &[ToolRequest],
    policy: Option<&OrderedToolCalls>,
    cancel: CancellationToken,
) -> IdentifiedToolStream {
    run_batch(schedule_tool_streams(tool_streams, requests, policy, cancel))
}

fn policy(max_calls: usize) -> OrderedToolCalls {
    OrderedToolCalls::new(
        vec!["python".to_string(), "developer__python".to_string()],
        max_calls,
    )
}

fn request(id: &str, name: &str) -> ToolRequest {
    ToolRequest {
        id: id.to_string(),
        tool_call: Ok(ToolCall::from_params(CallToolRequestParams::new(
            name.to_string(),
        ))),
        metadata: None,
        tool_meta: None,
    }
}

fn tool_stream<F>(done: F) -> ToolStream
where
    F: Future<Output = ToolResult<ToolOutput>> + Send + 'static,
{
    let report = async move {
        let result = done.await;
        let mut state = ToolStreamState::new();
        state.step(ToolEvent::Done(result)).unwrap()
    };
    stream::once(report).boxed()
}

fn call(
    id: &str,
    starts: &Arc<Mutex<Vec<String>>>,
    wait: Option<oneshot::Receiver<()>>,
) -> (String, ToolStream) {
    let id = id.to_string();
    let body_id = id.clone();
    let starts = starts.clone();
    let body = async move {
        starts.lock().unwrap().push(body_id.clone());
        if let Some(wait) = wait {
            let _ = wait.await;
        }
        Ok(ToolOutput::Reported(CallToolResult::success(vec![
            ContentBlock::text(body_id),
        ])))
    };
    (id, tool_stream(body))
}

fn is_error(output: &ToolOutput) -> Option<bool> {
    match output {
        ToolOutput::Reported(result) => result.is_error,
        ToolOutput::Composed { is_error, .. } => *is_error,
    }
}

fn next_result(stream: &mut IdentifiedToolStream) -> (String, ToolOutput) {
    let (id, item) = block_on(stream.next()).expect("expected a tool result");
    let ToolStreamItem::Result(result) = item else {
        panic!("expected a result item");
    };
    (id, result.unwrap_or_else(|_| panic!("expected an output")))
}

#[test]
fn ordered_calls_follow_request_order_across_aliases() {
    let starts = Arc::new(Mutex::new(Vec::new()));
    let requests = [
        request("first", "python"),
        request("second", "developer__python"),
    ];
    let mut scheduled = schedule(
        vec![call("second", &starts, None), call("first", &starts, None)],
        &requests,
        Some(&policy(2)),
        CancellationToken::new(),
    );
    assert_eq!(next_result(&mut scheduled).0, "first");
    assert_eq!(*starts.lock().unwrap(), ["first"]);
    assert_eq!(next_result(&mut scheduled).0, "second");
    assert_eq!(*starts.lock().unwrap(), ["first", "second"]);
    assert!(block_on(scheduled.next()).is_none());
}

#[test]
fn denied_and_malformed_requests_leave_no_queue_holes() {
    let starts = Arc::new(Mutex::new(Vec::new()));
    let mut malformed = request("malformed", "python");
    malformed.tool_call = Err(ErrorData::invalid_params("invalid call", None));
    let requests = [
        request("denied", "python"),
        malformed,
        request("approved", "python"),
    ];
    let mut scheduled = schedule(
        vec![call("approved", &starts, None)],
        &requests,
        Some(&policy(1)),
        CancellationToken::new(),
    );
    assert_eq!(next_result(&mut scheduled).0, "approved");
    assert_eq!(*starts.lock().unwrap(), ["approved"]);
}

#[test]
fn unrelated_tools_run_while_the_ordered_lane_is_waiting() {
    let starts = Arc::new(Mutex::new(Vec::new()));
    let (release, wait) = oneshot::channel();
    let requests = [
        request("first", "python"),
        request("second", "python"),
        request("other", "read"),
    ];
    let mut scheduled = schedule(
        vec![
            call("second", &starts, None),
            call("first", &starts, Some(wait)),
            call("other", &starts, None),
        ],
        &requests,
        Some(&policy(2)),
        CancellationToken::new(),
    );
    assert_eq!(next_result(&mut scheduled).0, "other");
    assert!(scheduled.next().now_or_never().is_none());
    assert!(!starts.lock().unwrap().contains(&"second".to_string()));
    release.send(()).unwrap();
    assert_eq!(next_result(&mut scheduled).0, "first");
    assert_eq!(next_result(&mut scheduled).0, "second");
}

#[test]
fn ordered_overflow_never_polls_the_rejected_tool() {
    let starts = Arc::new(Mutex::new(Vec::new()));
    let requests = [request("first", "python"), request("overflow", "python")];
    let mut scheduled = schedule(
        vec![
            call("overflow", &starts, None),
            call("first", &starts, None),
        ],
        &requests,
        Some(&policy(1)),
        CancellationToken::new(),
    );
    let mut results = HashMap::new();
    for _ in 0..2 {
        let (id, result) = next_result(&mut scheduled);
        results.insert(id, result);
    }
    assert_eq!(is_error(&results["overflow"]), Some(true));
    assert_ne!(is_error(&results["first"]), Some(true));
    assert_eq!(*starts.lock().unwrap(), ["first"]);
}

#[test]
fn dropping_a_batch_never_polls_its_waiting_calls() {
    let starts = Arc::new(Mutex::new(Vec::new()));
    let (_release, wait) = oneshot::channel();
    let (queued_release, queued_wait) = oneshot::channel();
    let requests = [request("first", "python"), request("queued", "python")];
    let mut scheduled = schedule(
        vec![
            call("first", &starts, Some(wait)),
            call("queued", &starts, Some(queued_wait)),
        ],
        &requests,
        Some(&policy(2)),
        CancellationToken::new(),
    );
    assert!(scheduled.next().now_or_never().is_none());
    assert_eq!(*starts.lock().unwrap(), ["first"]);
    drop(scheduled);
    assert!(queued_release.is_closed());
    assert_eq!(*starts.lock().unwrap(), ["first"]);
}

#[test]
fn cancellation_does_not_advance_to_the_next_ordered_call() {
    let starts = Arc::new(Mutex::new(Vec::new()));
    let requests = [request("first", "python"), request("queued", "python")];
    let cancel = CancellationToken::new();
    let mut scheduled = schedule(
        vec![call("first", &starts, None), call("queued", &starts, None)],
        &requests,
        Some(&policy(2)),
        cancel.clone(),
    );
    assert_eq!(next_result(&mut scheduled).0, "first");
    cancel.cancel();
    assert!(block_on(scheduled.next()).is_none());
    assert_eq!(*starts.lock().unwrap(), ["first"]);
}

#[test]
fn separate_batches_do_not_share_admission_or_a_lock() {
    let starts = Arc::new(Mutex::new(Vec::new()));
    let (_release, wait) = oneshot::channel();
    let configuration = policy(1);
    let requests = [request("same-id", "python")];
    let mut first = schedule(
        vec![call("same-id", &starts, Some(wait))],
        &requests,
        Some(&configuration),
        CancellationToken::new(),
    );
    assert!(first.next().now_or_never().is_none());
    let mut second = schedule(
        vec![call("same-id", &starts, None)],
        &requests,
        Some(&configuration),
        CancellationToken::new(),
    );
    assert_eq!(next_result(&mut second).0, "same-id");
    assert_eq!(*starts.lock().unwrap(), ["same-id", "same-id"]);
}

#[test]
fn default_scheduling_keeps_tools_concurrent() {
    let starts = Arc::new(Mutex::new(Vec::new()));
    let (_release, wait) = oneshot::channel();
    let requests = [request("first", "python"), request("second", "python")];
    let mut scheduled = schedule(
        vec![
            call("first", &starts, Some(wait)),
            call("second", &starts, None),
        ],
        &requests,
        None,
        CancellationToken::new(),
    );
    assert_eq!(next_result(&mut scheduled).0, "second");
    assert_eq!(*starts.lock().unwrap(), ["first", "second"]);
}

#[test]
fn provider_metadata_cannot_place_a_tool_in_the_ordered_lane() {
    let starts = Arc::new(Mutex::new(Vec::new()));
    let (_release, wait) = oneshot::channel();
    let mut unrelated = request("other", "read");
    let mut meta = serde_json::Map::new();
    meta.insert("goose.execution_mode".to_string(), "sequential".into());
    meta.insert("goose_extension".to_string(), "developer".into());
    meta.insert("tool_name".to_string(), "python".into());
    unrelated.tool_meta = Some(serde_json::Value::Object(meta));
    let requests = [request("first", "python"), unrelated];
    let mut scheduled = schedule(
        vec![
            call("first", &starts, Some(wait)),
            call("other", &starts, None),
        ],
        &requests,
        Some(&policy(1)),
        CancellationToken::new(),
    );
    assert_eq!(next_result(&mut scheduled).0, "other");
}

fn shape(branches: Vec<Branch<u32>>, cancelled: bool) -> Vec<String> {
    branches
        .into_iter()
        .map(|branch| match branch {
            Branch::Tool(id, stream) => format!("tool {id} {stream}"),
            Branch::Rejected(id, _) => format!("rejected {id}"),
            Branch::Lane(mut lane) => {
                let mut calls = Vec::new();
                while let LaneAnswer::Start(id, stream) = lane.next_call_unless(cancelled) {
                    calls.push(format!("{id} {stream}"));
                    assert!(matches!(lane.next_call_unless(cancelled), LaneAnswer::Busy));
                    lane.call_ended();
                }
                assert!(matches!(lane.next_call_unless(false), LaneAnswer::Done));
                format!("lane {}", calls.join(", "))
            }
        })
        .collect()
}

fn entry(id: &str, stream: u32) -> (String, u32) {
    (id.to_string(), stream)
}

#[test]
fn branches_come_in_a_fixed_order() {
    let requests = [
        request("a", "python"),
        request("b", "read"),
        request("c", "developer__python"),
        request("d", "python"),
    ];
    let streams = vec![
        entry("d", 1),
        entry("b", 2),
        entry("c", 3),
        entry("unknown", 4),
        entry("a", 5),
    ];
    let branches =
        schedule_tool_streams(streams, &requests, Some(&policy(2)), CancellationToken::new());
    assert_eq!(
        shape(branches, false),
        ["tool b 2", "tool unknown 4", "rejected d", "lane a 5, c 3"]
    );
}

#[test]
fn a_cancelled_lane_hands_out_nothing() {
    let requests = [request("a", "python"), request("b", "python")];
    let streams = vec![entry("a", 1), entry("b", 2)];
    let branches =
        schedule_tool_streams(streams, &requests, Some(&policy(2)), CancellationToken::new());
    assert_eq!(shape(branches, true), ["lane "]);
}

#[test]
fn the_last_request_of_an_identifier_counts() {
    let requests = [
        request("twice", "python"),
        request("other", "python"),
        request("twice", "python"),
    ];
    let streams = vec![entry("twice", 1), entry("other", 2), entry("twice", 3)];
    let branches =
        schedule_tool_streams(streams, &requests, Some(&policy(8)), CancellationToken::new());
    assert_eq!(shape(branches, false), ["lane other 2, twice 1, twice 3"]);
}

#[test]
fn a_request_that_is_not_ordered_does_not_hide_one_that_is() {
    let requests = [request("twice", "python"), request("twice", "read")];
    let branches = schedule_tool_streams(
        vec![entry("twice", 1)],
        &requests,
        Some(&policy(1)),
        CancellationToken::new(),
    );
    assert_eq!(shape(branches, false), ["lane twice 1"]);
}

#[test]
fn nothing_to_run_gives_no_branches() {
    let none: Vec<(String, u32)> = Vec::new();
    let branches = schedule_tool_streams(none, &[], Some(&policy(1)), CancellationToken::new());
    assert!(branches.is_empty());
}

#[test]
fn leaving_out_an_unanswered_request_changes_nothing() {
    let with = [
        request("denied", "python"),
        request("a", "python"),
        request("b", "python"),
    ];
    let without = [request("a", "python"), request("b", "python")];
    let first = schedule_tool_streams(
        vec![entry("b", 1), entry("a", 2)],
        &with,
        Some(&policy(1)),
        CancellationToken::new(),
    );
    let second = schedule_tool_streams(
        vec![entry("b", 1), entry("a", 2)],
        &without,
        Some(&policy(1)),
        CancellationToken::new(),
    );
    assert_eq!(shape(first, false), ["rejected b", "lane a 2"]);
    assert_eq!(shape(second, false), ["rejected b", "lane a 2"]);
}

#[test]
fn a_refused_request_is_told_the_limit() {
    let requests: Vec<ToolRequest> = (0..13).map(|i| request(&format!("r{i}"), "python")).collect();
    let streams = (0..13).map(|i| entry(&format!("r{i}"), i)).collect();
    let branches =
        schedule_tool_streams(streams, &requests, Some(&policy(12)), CancellationToken::new());
    assert_eq!(branches.len(), 2);
    let Branch::Rejected(id, output) = &branches[0] else {
        panic!("expected a refusal");
    };
    assert_eq!(id, "r12");
    let ToolOutput::Composed { content, is_error } = output else {
        panic!("expected a composed output");
    };
    assert_eq!(*is_error, Some(true));
    assert_eq!(content.len(), 1);
    let OutputBlock::Text(text) = &content[0] else {
        panic!("expected text");
    };
    assert_eq!(
        text,
        "This tool call was not executed because the ordered tool batch exceeds its limit of 12 calls. Wait for the admitted calls to finish, then submit this work in a later batch."
    );
}

#[test]
fn a_lane_sees_the_cancellation_of_its_batch() {
    let requests = [
        request("a", "python"),
        request("b", "python"),
        request("c", "python"),
    ];
    let cancel = CancellationToken::new();
    let mut branches = schedule_tool_streams(
        vec![entry("a", 1), entry("b", 2), entry("c", 3)],
        &requests,
        Some(&policy(3)),
        cancel.clone(),
    );
    let Some(Branch::Lane(mut lane)) = branches.pop() else {
        panic!("expected a lane");
    };
    assert!(matches!(lane.next_call(), LaneAnswer::Start(_, 1)));
    lane.call_ended();
    assert!(matches!(lane.next_call(), LaneAnswer::Start(_, 2)));
    cancel.cancel();
    assert!(matches!(lane.next_call(), LaneAnswer::Busy));
    lane.call_ended();
    assert!(matches!(lane.next_call(), LaneAnswer::Done));
    assert!(matches!(lane.next_call(), LaneAnswer::Done));
}

#[test]
fn names_are_matched_exactly() {
    let policy = OrderedToolCalls::new(
        vec!["python".to_string(), "python".to_string(), "".to_string()],
        3,
    );
    assert!(policy.contains("python"));
    assert!(policy.contains(""));
    assert!(!policy.contains("Python"));
    assert!(!policy.contains("developer__python"));
    assert!(!policy.contains("pytho"));
    assert_eq!(policy.max_calls(), 3);
    let copy = policy.clone();
    assert!(copy.contains("python"));
    assert_eq!(copy.max_calls(), 3);
}

#[test]
fn a_policy_shows_its_names_as_a_set() {
    let named = OrderedToolCalls::new(vec!["python".to_string(), "python".to_string()], 3);
    assert_eq!(
        format!("{named:?}"),
        "OrderedToolCalls { tool_names: {\"python\"}, max_calls: 3 }"
    );
    let unnamed = OrderedToolCalls::new(Vec::new(), 1);
    assert_eq!(
        format!("{unnamed:?}"),
        "OrderedToolCalls { tool_names: {}, max_calls: 1 }"
    );
}
