//! How the tool streams of a batch are run.

use std::collections::VecDeque;

use tokio_util::sync::CancellationToken;
use vstd::hash_map::StringHashMap;
use vstd::prelude::*;

use crate::conversation;
use crate::conversation::{
    OutputBlock, ToolOutput, ToolOutputView, ToolRequest, ToolRequestView,
};
use crate::external;
use crate::external::{error_output, is_cancelled};
use crate::policy::{OrderedToolCalls, OrderedToolCallsView};
use crate::text;
use crate::text::overflow_message;

verus! {

/// The ordered calls of a batch. They start one at a time, in order, and each of
/// them only once the one before has ended.
#[verifier::reject_recursive_types(S)]
pub struct Lane<S> {
    waiting: VecDeque<(String, S)>,
    running: bool,
    cancel: CancellationToken,
}

/// What a [`Lane`] holds.
#[verifier::reject_recursive_types(S)]
pub struct LaneView<S> {
    /// The calls that still wait, the next one first.
    pub waiting: Seq<(Seq<char>, S)>,
    /// Whether a call has started and not ended.
    pub running: bool,
}

impl<S> View for Lane<S> {
    type V = LaneView<S>;

    closed spec fn view(&self) -> LaneView<S> {
        LaneView { waiting: stream_views(self.waiting@), running: self.running }
    }
}

/// One of the streams that run side by side in a batch.
#[verifier::reject_recursive_types(S)]
pub enum Branch<S> {
    /// The stream of one call, with the request that it answers.
    Tool(String, S),
    /// The answer to a request whose call is not going to run.
    Rejected(String, ToolOutput),
    /// The calls that run one after the other.
    Lane(Lane<S>),
}

/// What a [`Branch`] holds.
#[verifier::reject_recursive_types(S)]
pub enum BranchView<S> {
    Tool(Seq<char>, S),
    Rejected(Seq<char>, ToolOutputView),
    Lane(LaneView<S>),
}

impl<S> View for Branch<S> {
    type V = BranchView<S>;

    open spec fn view(&self) -> BranchView<S> {
        match self {
            Branch::Tool(request_id, stream) => BranchView::Tool(request_id@, *stream),
            Branch::Rejected(request_id, output) => BranchView::Rejected(request_id@, output@),
            Branch::Lane(lane) => BranchView::Lane(lane@),
        }
    }
}

/// What each branch of a batch holds.
pub open spec fn branch_views<S>(branches: Seq<Branch<S>>) -> Seq<BranchView<S>> {
    branches.map_values(|branch: Branch<S>| branch@)
}

/// Streams with the requests that they answer.
pub open spec fn stream_views<S>(streams: Seq<(String, S)>) -> Seq<(Seq<char>, S)> {
    streams.map_values(|entry: (String, S)| (entry.0@, entry.1))
}

/// Whether a request is for a tool that shares the lane.
pub open spec fn is_ordered(request: ToolRequestView, tool_names: Set<Seq<char>>) -> bool {
    request.tool_call matches Ok(call) && tool_names.contains(call.name)
}

/// Where the call with the given identifier stands among the requests, if it
/// shares the lane. If several requests have that identifier, the last one of
/// those that share the lane counts.
pub open spec fn lane_position(
    requests: Seq<ToolRequestView>,
    tool_names: Set<Seq<char>>,
    request_id: Seq<char>,
) -> Option<int>
    decreases requests.len(),
{
    if requests.len() == 0 {
        None
    } else if requests.last().id == request_id && is_ordered(requests.last(), tool_names) {
        Some(requests.len() - 1)
    } else {
        lane_position(requests.drop_last(), tool_names, request_id)
    }
}

/// The streams that answer the request at the given position of the lane.
pub open spec fn streams_at<S>(
    streams: Seq<(Seq<char>, S)>,
    requests: Seq<ToolRequestView>,
    tool_names: Set<Seq<char>>,
    position: int,
) -> Seq<(Seq<char>, S)> {
    streams.filter(
        |entry: (Seq<char>, S)| lane_position(requests, tool_names, entry.0) == Some(position),
    )
}

/// The streams that answer one of the first `count` requests and share the
/// lane, in the order of those requests.
pub open spec fn ordered_streams<S>(
    streams: Seq<(Seq<char>, S)>,
    requests: Seq<ToolRequestView>,
    tool_names: Set<Seq<char>>,
    count: nat,
) -> Seq<(Seq<char>, S)>
    decreases count,
{
    if count == 0 {
        Seq::empty()
    } else {
        ordered_streams(streams, requests, tool_names, (count - 1) as nat) + streams_at(
            streams,
            requests,
            tool_names,
            count - 1,
        )
    }
}

/// The streams that do not share the lane, in the order in which they came.
pub open spec fn free_streams<S>(
    streams: Seq<(Seq<char>, S)>,
    requests: Seq<ToolRequestView>,
    tool_names: Set<Seq<char>>,
) -> Seq<(Seq<char>, S)> {
    streams.filter(
        |entry: (Seq<char>, S)| lane_position(requests, tool_names, entry.0) is None,
    )
}

/// How many of `count` ordered calls a lane takes.
pub open spec fn admitted_count(count: nat, max_calls: nat) -> nat {
    if count < max_calls {
        count
    } else {
        max_calls
    }
}

/// One branch for each stream.
pub open spec fn tool_branches<S>(streams: Seq<(Seq<char>, S)>) -> Seq<BranchView<S>> {
    streams.map_values(|entry: (Seq<char>, S)| BranchView::Tool(entry.0, entry.1))
}

/// One refusal for each stream.
pub open spec fn rejected_branches<S>(streams: Seq<(Seq<char>, S)>, max_calls: nat) -> Seq<
    BranchView<S>,
> {
    streams.map_values(
        |entry: (Seq<char>, S)|
            BranchView::Rejected(
                entry.0,
                conversation::error_output_view(text::overflow_text(max_calls)),
            ),
    )
}

/// The lane, if there is anything for it to run.
pub open spec fn lane_branches<S>(streams: Seq<(Seq<char>, S)>) -> Seq<BranchView<S>> {
    if streams.len() == 0 {
        Seq::empty()
    } else {
        seq![BranchView::Lane(LaneView { waiting: streams, running: false })]
    }
}

/// The streams that the lane runs.
pub open spec fn admitted_streams<S>(
    streams: Seq<(Seq<char>, S)>,
    requests: Seq<ToolRequestView>,
    policy: OrderedToolCallsView,
) -> Seq<(Seq<char>, S)> {
    let ordered = ordered_streams(streams, requests, policy.tool_names, requests.len());
    ordered.take(admitted_count(ordered.len(), policy.max_calls) as int)
}

/// The streams that share the lane and do not run, since it is full.
pub open spec fn overflow_streams<S>(
    streams: Seq<(Seq<char>, S)>,
    requests: Seq<ToolRequestView>,
    policy: OrderedToolCallsView,
) -> Seq<(Seq<char>, S)> {
    let ordered = ordered_streams(streams, requests, policy.tool_names, requests.len());
    ordered.skip(admitted_count(ordered.len(), policy.max_calls) as int)
}

/// The branches of a batch. Without a policy each stream is a branch. With one,
/// the streams that share the lane run there in the order of their requests, as
/// many as the lane takes; the rest of them are refused.
pub open spec fn scheduled<S>(
    streams: Seq<(Seq<char>, S)>,
    requests: Seq<ToolRequestView>,
    policy: Option<OrderedToolCallsView>,
) -> Seq<BranchView<S>> {
    match policy {
        None => tool_branches(streams),
        Some(policy) => tool_branches(free_streams(streams, requests, policy.tool_names))
            + rejected_branches(overflow_streams(streams, requests, policy), policy.max_calls)
            + lane_branches(admitted_streams(streams, requests, policy)),
    }
}

/// Whether an output is marked as an error and says, and says only, that the
/// limit was exceeded.
pub open spec fn says_overflow(output: ToolOutput, max_calls: nat) -> bool {
    &&& output matches ToolOutput::Composed { content, is_error }
    &&& is_error == Some(true)
    &&& content@.len() == 1
    &&& content@[0] matches OutputBlock::Text(message)
    &&& message@
        == "This tool call was not executed because the ordered tool batch exceeds its limit of "@
        + text::decimal_digits(max_calls)
        + " calls. Wait for the admitted calls to finish, then submit this work in a later batch."@
}

/// What an optional policy holds.
pub open spec fn policy_view(policy: Option<&OrderedToolCalls>) -> Option<OrderedToolCallsView> {
    match policy {
        Some(policy) => Some(policy@),
        None => None,
    }
}

proof fn lemma_filter_push<A>(items: Seq<A>, item: A, pred: spec_fn(A) -> bool)
    ensures
        items.push(item).filter(pred) == if pred(item) {
            items.filter(pred).push(item)
        } else {
            items.filter(pred)
        },
{
    reveal(Seq::filter);
    assert(items.push(item).drop_last() =~= items);
}

pub(crate) proof fn lemma_lane_position_range(
    requests: Seq<ToolRequestView>,
    tool_names: Set<Seq<char>>,
    request_id: Seq<char>,
)
    ensures
        lane_position(requests, tool_names, request_id) matches Some(position) ==> {
            &&& 0 <= position < requests.len()
            &&& requests[position].id == request_id
            &&& is_ordered(requests[position], tool_names)
        },
    decreases requests.len(),
{
    if requests.len() > 0 {
        lemma_lane_position_range(requests.drop_last(), tool_names, request_id);
    }
}

/// Whether a table gives the position of each call that shares the lane.
spec fn is_position_table(
    table: Map<Seq<char>, usize>,
    requests: Seq<ToolRequestView>,
    tool_names: Set<Seq<char>>,
) -> bool {
    forall|request_id: Seq<char>|
        match lane_position(requests, tool_names, request_id) {
            Some(position) => #[trigger] table.contains_key(request_id) && table[request_id]
                == position,
            None => !table.contains_key(request_id),
        }
}

/// Finds the position of each call that shares the lane.
fn lane_positions(requests: &[ToolRequest], policy: &OrderedToolCalls) -> (positions: StringHashMap<
    usize,
>)
    ensures
        is_position_table(
            positions@,
            conversation::request_views(requests@),
            policy@.tool_names,
        ),
{
    let mut positions: StringHashMap<usize> = StringHashMap::new();
    for i in 0..requests.len()
        invariant
            is_position_table(
                positions@,
                conversation::request_views(requests@).take(i as int),
                policy@.tool_names,
            ),
    {
        let request = &requests[i];
        let ghost before = positions@;
        if let Ok(call) = &request.tool_call {
            if policy.contains(call.name()) {
                positions.insert(request.id.clone(), i);
            }
        }
        proof {
            let views = conversation::request_views(requests@);
            let names = policy@.tool_names;
            assert(views.take(i + 1).drop_last() =~= views.take(i as int));
            assert(views.take(i + 1).last() == request@);
            assert forall|request_id: Seq<char>|
                match lane_position(views.take(i + 1), names, request_id) {
                    Some(position) => #[trigger] positions@.contains_key(request_id)
                        && positions@[request_id] == position,
                    None => !positions@.contains_key(request_id),
                } by {
                assert(before.contains_key(request_id) == (lane_position(
                    views.take(i as int),
                    names,
                    request_id,
                ) is Some));
            }
        }
    }
    proof {
        let views = conversation::request_views(requests@);
        assert(views.take(requests@.len() as int) =~= views);
    }
    positions
}

/// Parts the streams that share the lane from the others, and puts them in the
/// order of their requests.
fn order_streams<S>(
    tool_streams: Vec<(String, S)>,
    requests: &[ToolRequest],
    policy: &OrderedToolCalls,
) -> (parts: (Vec<(String, S)>, Vec<(String, S)>))
    ensures
        stream_views(parts.0@) == free_streams(
            stream_views(tool_streams@),
            conversation::request_views(requests@),
            policy@.tool_names,
        ),
        stream_views(parts.1@) == ordered_streams(
            stream_views(tool_streams@),
            conversation::request_views(requests@),
            policy@.tool_names,
            requests@.len(),
        ),
{
    let ghost streams = stream_views(tool_streams@);
    let ghost views = conversation::request_views(requests@);
    let ghost names = policy@.tool_names;
    let positions = lane_positions(requests, policy);
    let mut free: Vec<(String, S)> = Vec::new();
    let mut slots: Vec<Vec<(String, S)>> = Vec::new();
    for i in 0..requests.len()
        invariant
            slots@.len() == i,
            forall|p: int| 0 <= p < i ==> (#[trigger] slots@[p])@.len() == 0,
    {
        slots.push(Vec::new());
    }
    proof {
        reveal(Seq::filter);
        assert(stream_views(free@) =~= free_streams(streams.take(0), views, names));
        assert forall|p: int| 0 <= p < slots@.len() implies stream_views((#[trigger] slots@[p])@)
            == streams_at(streams.take(0), views, names, p) by {
            assert(stream_views(slots@[p]@) =~= streams_at(streams.take(0), views, names, p));
        }
    }
    for entry in it: tool_streams
        invariant
            streams == stream_views(it.seq()),
            views == conversation::request_views(requests@),
            names == policy@.tool_names,
            is_position_table(positions@, views, names),
            slots@.len() == requests@.len(),
            stream_views(free@) == free_streams(streams.take(it.index()), views, names),
            forall|p: int|
                0 <= p < slots@.len() ==> stream_views((#[trigger] slots@[p])@) == streams_at(
                    streams.take(it.index()),
                    views,
                    names,
                    p,
                ),
    {
        let ghost taken = streams.take(it.index());
        let ghost item = (entry.0@, entry.1);
        let ghost before_free = free@;
        let ghost before_slots = slots@;
        proof {
            assert(streams.take(it.index() + 1) =~= taken.push(item));
            lemma_lane_position_range(views, names, item.0);
        }
        let (request_id, stream) = entry;
        let ghost moved = (request_id, stream);
        match positions.get(request_id.as_str()) {
            Some(position) => {
                let position: usize = *position;
                slots[position].push((request_id, stream));
            },
            None => {
                free.push((request_id, stream));
            },
        }
        proof {
            lemma_filter_push(
                taken,
                item,
                |entry: (Seq<char>, S)| lane_position(views, names, entry.0) is None,
            );
            assert(stream_views(before_free.push(moved)) =~= stream_views(before_free).push(item));
            assert forall|p: int| 0 <= p < slots@.len() implies stream_views((#[trigger] slots@[p])@)
                == streams_at(taken.push(item), views, names, p) by {
                lemma_filter_push(
                    taken,
                    item,
                    |entry: (Seq<char>, S)| lane_position(views, names, entry.0) == Some(p),
                );
                assert(stream_views(before_slots[p]@) == streams_at(taken, views, names, p));
                assert(stream_views(before_slots[p]@.push(moved)) =~= stream_views(
                    before_slots[p]@,
                ).push(item));
            }
        }
    }
    assert(streams.take(streams.len() as int) =~= streams);
    let mut ordered: Vec<(String, S)> = Vec::new();
    assert(stream_views(ordered@) =~= ordered_streams(streams, views, names, 0));
    for slot in it: slots
        invariant
            it.seq().len() == requests@.len(),
            forall|p: int|
                0 <= p < it.seq().len() ==> stream_views((#[trigger] it.seq()[p])@) == streams_at(
                    streams,
                    views,
                    names,
                    p,
                ),
            stream_views(ordered@) == ordered_streams(streams, views, names, it.index() as nat),
    {
        let ghost before = ordered@;
        let mut slot = slot;
        let ghost added = slot@;
        ordered.append(&mut slot);
        proof {
            assert(added == it.seq()[it.index()]@);
            assert(stream_views(before + added) =~= stream_views(before) + stream_views(added));
        }
    }
    (free, ordered)
}

/// What a lane answers when it is asked for its next call.
#[verifier::reject_recursive_types(S)]
pub enum LaneAnswer<S> {
    /// This call is to start, for this request.
    Start(String, S),
    /// The call before has not ended.
    Busy,
    /// Nothing is left to run.
    Done,
}

/// What a [`LaneAnswer`] holds.
#[verifier::reject_recursive_types(S)]
pub enum LaneAnswerView<S> {
    Start(Seq<char>, S),
    Busy,
    Done,
}

impl<S> View for LaneAnswer<S> {
    type V = LaneAnswerView<S>;

    open spec fn view(&self) -> LaneAnswerView<S> {
        match self {
            LaneAnswer::Start(request_id, stream) => LaneAnswerView::Start(request_id@, *stream),
            LaneAnswer::Busy => LaneAnswerView::Busy,
            LaneAnswer::Done => LaneAnswerView::Done,
        }
    }
}

impl<S> LaneView<S> {
    /// What the lane answers when it is asked for its next call, given whether
    /// the batch was cancelled by then.
    pub open spec fn answer(self, cancelled: bool) -> LaneAnswerView<S> {
        if self.running {
            LaneAnswerView::Busy
        } else if self.waiting.len() == 0 || cancelled {
            LaneAnswerView::Done
        } else {
            LaneAnswerView::Start(self.waiting[0].0, self.waiting[0].1)
        }
    }

    /// The lane once it was asked for its next call. A lane that sees the
    /// cancellation drops the calls that still wait.
    pub open spec fn asked(self, cancelled: bool) -> LaneView<S> {
        if self.running {
            self
        } else if self.waiting.len() == 0 || cancelled {
            LaneView { waiting: Seq::empty(), running: false }
        } else {
            LaneView { waiting: self.waiting.drop_first(), running: true }
        }
    }

    /// The lane once its running call has ended.
    pub open spec fn ended(self) -> LaneView<S> {
        LaneView { running: false, ..self }
    }
}

impl<S> Lane<S> {
    /// What cancels the batch of the lane.
    pub closed spec fn token(self) -> CancellationToken {
        self.cancel
    }

    /// A lane that runs the given calls in order until it is cancelled.
    fn new(calls: Vec<(String, S)>, cancel: CancellationToken) -> (lane: Lane<S>)
        ensures
            lane@ == (LaneView { waiting: stream_views(calls@), running: false }),
            lane.token() == cancel,
    {
        let mut waiting: VecDeque<(String, S)> = VecDeque::new();
        for call in it: calls
            invariant
                waiting@ == it.seq().take(it.index()),
        {
            waiting.push_back(call);
        }
        assert(waiting@ =~= calls@);
        Lane { waiting, running: false, cancel }
    }

    /// Asks for the next call. Once the batch was cancelled no call starts any
    /// more, and those that still wait are dropped.
    pub fn next_call(&mut self) -> (answer: LaneAnswer<S>)
        ensures
            final(self).token() == old(self).token(),
            exists|cancelled: bool|
                {
                    &&& #[trigger] external::was_reported(old(self).token(), cancelled)
                    &&& answer@ == old(self)@.answer(cancelled)
                    &&& final(self)@ == old(self)@.asked(cancelled)
                    &&& cancelled && !old(self)@.running ==> answer is Done
                        && final(self)@.waiting.len() == 0 && !final(self)@.running
                    &&& !cancelled && !old(self)@.running && old(self)@.waiting.len() > 0 ==> {
                        &&& answer matches LaneAnswer::Start(request_id, stream)
                        &&& request_id@ == old(self)@.waiting[0].0
                        &&& stream == old(self)@.waiting[0].1
                    }
                },
            old(self)@.running ==> answer is Busy && final(self)@ == old(self)@,
            old(self)@.waiting.len() == 0 ==> !(answer is Start),
            (forall|cancelled: bool| #[trigger]
                external::was_reported(old(self).token(), cancelled) ==> cancelled) ==> !(
            answer is Start),
    {
        let cancelled = is_cancelled(&self.cancel);
        proof {
            external::law_report_is_what_the_token_answered(self.cancel, cancelled);
        }
        self.next_call_unless(cancelled)
    }

    /// Asks for the next call, given whether the batch was cancelled.
    pub fn next_call_unless(&mut self, cancelled: bool) -> (answer: LaneAnswer<S>)
        ensures
            final(self).token() == old(self).token(),
            answer@ == old(self)@.answer(cancelled),
            final(self)@ == old(self)@.asked(cancelled),
            answer is Busy <==> old(self)@.running,
            answer is Start <==> !old(self)@.running && !cancelled && old(self)@.waiting.len() > 0,
            answer matches LaneAnswer::Start(request_id, stream) ==> {
                &&& request_id@ == old(self)@.waiting[0].0
                &&& stream == old(self)@.waiting[0].1
                &&& final(self)@.waiting == old(self)@.waiting.skip(1)
            },
            answer is Busy ==> final(self)@.waiting == old(self)@.waiting,
            answer is Done ==> final(self)@.waiting.len() == 0,
            final(self)@.running <==> !(answer is Done),
    {
        if self.running {
            return LaneAnswer::Busy;
        }
        if cancelled {
            self.waiting.clear();
            assert(self@.waiting =~= Seq::empty());
            return LaneAnswer::Done;
        }
        match self.waiting.pop_front() {
            Some((request_id, stream)) => {
                self.running = true;
                assert(self@.waiting =~= old(self)@.waiting.drop_first());
                LaneAnswer::Start(request_id, stream)
            },
            None => {
                assert(self@.waiting =~= Seq::empty());
                LaneAnswer::Done
            },
        }
    }

    /// Takes note that the running call has ended.
    pub fn call_ended(&mut self)
        ensures
            final(self).token() == old(self).token(),
            final(self)@ == old(self)@.ended(),
            !final(self)@.running,
            final(self)@.waiting == old(self)@.waiting,
    {
        self.running = false;
    }
}

/// Schedule only streams that survived permission checks. Missing denied or
/// malformed requests never reserve a lane position. The lane holds cold
/// streams, so dropping the batch cannot start its queued tool bodies.
///
/// The branches of the batch are meant to run side by side.
pub fn schedule_tool_streams<S>(
    tool_streams: Vec<(String, S)>,
    requests: &[ToolRequest],
    policy: Option<&OrderedToolCalls>,
    cancel: CancellationToken,
) -> (branches: Vec<Branch<S>>)
    ensures
        branch_views(branches@) == scheduled(
            stream_views(tool_streams@),
            conversation::request_views(requests@),
            policy_view(policy),
        ),
        forall|i: int|
            0 <= i < branches@.len() ==> (#[trigger] branches@[i] matches Branch::Lane(lane)
                ==> lane.token() == cancel),
        policy is None ==> branches@.len() == tool_streams@.len() && forall|i: int|
            0 <= i < branches@.len() ==> #[trigger] branches@[i] == Branch::Tool(
                tool_streams@[i].0,
                tool_streams@[i].1,
            ),
        forall|i: int|
            0 <= i < branches@.len() ==> (#[trigger] branches@[i] matches Branch::Rejected(_, output)
                ==> says_overflow(output, policy->0@.max_calls)),
{
    match policy {
        None => free_branches(tool_streams),
        Some(policy) => {
            let (free, mut ordered) = order_streams(tool_streams, requests, policy);
            let ghost all = ordered@;
            let max_calls = policy.max_calls();
            let mut branches = free_branches(free);
            let ghost free_part = branches@;
            let count: usize = if ordered.len() < max_calls {
                ordered.len()
            } else {
                max_calls
            };
            let overflow = ordered.split_off(count);
            let admitted = ordered;
            proof {
                assert(stream_views(admitted@) =~= stream_views(all).take(count as int));
                assert(stream_views(overflow@) =~= stream_views(all).skip(count as int));
            }
            let mut rejected = reject_streams(overflow, max_calls);
            let ghost rejected_part = rejected@;
            branches.append(&mut rejected);
            let ghost before_lane = branches@;
            proof {
                assert(branch_views(before_lane) =~= branch_views(free_part) + branch_views(
                    rejected_part,
                ));
            }
            if admitted.len() > 0 {
                let lane = Branch::Lane(Lane::new(admitted, cancel));
                branches.push(lane);
                assert(branch_views(branches@) =~= branch_views(before_lane).push(lane@));
            }
            assert(branch_views(branches@) =~= branch_views(before_lane) + lane_branches(
                stream_views(admitted@),
            ));
            branches
        },
    }
}

/// Lets each stream run on its own.
fn free_branches<S>(tool_streams: Vec<(String, S)>) -> (branches: Vec<Branch<S>>)
    ensures
        branch_views(branches@) == tool_branches(stream_views(tool_streams@)),
        branches@.len() == tool_streams@.len(),
        forall|i: int|
            0 <= i < branches@.len() ==> #[trigger] branches@[i] == Branch::Tool(
                tool_streams@[i].0,
                tool_streams@[i].1,
            ),
{
    let mut branches: Vec<Branch<S>> = Vec::new();
    for entry in it: tool_streams
        invariant
            branches@.len() == it.index(),
            forall|i: int|
                0 <= i < it.index() ==> #[trigger] branches@[i] == Branch::Tool(
                    it.seq()[i].0,
                    it.seq()[i].1,
                ),
    {
        let (request_id, stream) = entry;
        branches.push(Branch::Tool(request_id, stream));
    }
    assert(branch_views(branches@) =~= tool_branches(stream_views(tool_streams@)));
    branches
}

/// Answers each request whose call is not going to run, and drops the call.
fn reject_streams<S>(tool_streams: Vec<(String, S)>, max_calls: usize) -> (branches: Vec<Branch<S>>)
    ensures
        branch_views(branches@) == rejected_branches(
            stream_views(tool_streams@),
            max_calls as nat,
        ),
        forall|i: int|
            0 <= i < branches@.len() ==> (#[trigger] branches@[i] matches Branch::Rejected(_, output)
                && says_overflow(output, max_calls as nat)),
{
    let mut branches: Vec<Branch<S>> = Vec::new();
    for entry in it: tool_streams
        invariant
            branches@.len() == it.index(),
            forall|i: int|
                0 <= i < it.index() ==> (#[trigger] branches@[i])@ == BranchView::<S>::Rejected(
                    it.seq()[i].0@,
                    conversation::error_output_view(text::overflow_text(max_calls as nat)),
                ),
            forall|i: int|
                0 <= i < it.index() ==> (#[trigger] branches@[i] matches Branch::Rejected(_, output)
                    && says_overflow(output, max_calls as nat)),
    {
        let (request_id, _stream) = entry;
        let output = error_output(overflow_message(max_calls));
        proof {
            conversation::law_output_is_seen_in_full(output, 0);
            conversation::law_error_output_says_its_text(text::overflow_text(max_calls as nat));
            assert(says_overflow(output, max_calls as nat));
        }
        branches.push(Branch::Rejected(request_id, output));
    }
    assert(branch_views(branches@) =~= rejected_branches(
        stream_views(tool_streams@),
        max_calls as nat,
    ));
    branches
}

} // verus!
