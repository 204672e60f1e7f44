//! What holds of every schedule.

use vstd::prelude::*;

use crate::conversation;
use crate::conversation::{OutputBlockView, ToolOutputView, ToolRequest, ToolRequestView};
use crate::external;
use crate::policy::OrderedToolCallsView;
use crate::schedule;
use crate::schedule::{Branch, BranchView, LaneAnswerView, LaneView};
use crate::text;

verus! {

proof fn lemma_filter_agree<A>(items: Seq<A>, p: spec_fn(A) -> bool, q: spec_fn(A) -> bool)
    requires
        forall|i: int| 0 <= i < items.len() ==> p(#[trigger] items[i]) == q(items[i]),
    ensures
        items.filter(p) == items.filter(q),
    decreases items.len(),
{
    reveal(Seq::filter);
    if items.len() > 0 {
        let rest = items.drop_last();
        assert forall|i: int| 0 <= i < rest.len() implies p(#[trigger] rest[i]) == q(rest[i]) by {
            assert(rest[i] == items[i]);
        }
        lemma_filter_agree(rest, p, q);
        assert(p(items[items.len() - 1]) == q(items[items.len() - 1]));
    }
}

proof fn lemma_filter_none<A>(items: Seq<A>, p: spec_fn(A) -> bool)
    requires
        forall|i: int| 0 <= i < items.len() ==> !p(#[trigger] items[i]),
    ensures
        items.filter(p) == Seq::<A>::empty(),
    decreases items.len(),
{
    reveal(Seq::filter);
    if items.len() > 0 {
        let rest = items.drop_last();
        assert forall|i: int| 0 <= i < rest.len() implies !p(#[trigger] rest[i]) by {
            assert(rest[i] == items[i]);
        }
        lemma_filter_none(rest, p);
        assert(!p(items[items.len() - 1]));
    }
}

proof fn lemma_filter_all<A>(items: Seq<A>, p: spec_fn(A) -> bool)
    requires
        forall|i: int| 0 <= i < items.len() ==> p(#[trigger] items[i]),
    ensures
        items.filter(p) == items,
    decreases items.len(),
{
    reveal(Seq::filter);
    if items.len() > 0 {
        let rest = items.drop_last();
        assert forall|i: int| 0 <= i < rest.len() implies p(#[trigger] rest[i]) by {
            assert(rest[i] == items[i]);
        }
        lemma_filter_all(rest, p);
        assert(p(items[items.len() - 1]));
        assert(items =~= rest.push(items.last()));
    }
}

/// If each item meets exactly one of two conditions or neither, those that meet
/// either are those that meet the first and those that meet the second.
proof fn lemma_filter_split<A>(
    items: Seq<A>,
    p: spec_fn(A) -> bool,
    q: spec_fn(A) -> bool,
    either: spec_fn(A) -> bool,
)
    requires
        forall|i: int|
            0 <= i < items.len() ==> {
                &&& either(#[trigger] items[i]) == (p(items[i]) || q(items[i]))
                &&& !(p(items[i]) && q(items[i]))
            },
    ensures
        items.filter(either).to_multiset() == items.filter(p).to_multiset().add(
            items.filter(q).to_multiset(),
        ),
    decreases items.len(),
{
    broadcast use vstd::seq_lib::group_to_multiset_ensures;

    reveal(Seq::filter);
    if items.len() > 0 {
        let rest = items.drop_last();
        let last = items[items.len() - 1];
        assert forall|i: int| 0 <= i < rest.len() implies {
            &&& either(#[trigger] rest[i]) == (p(rest[i]) || q(rest[i]))
            &&& !(p(rest[i]) && q(rest[i]))
        } by {
            assert(rest[i] == items[i]);
        }
        lemma_filter_split(rest, p, q, either);
        assert(items.filter(either).to_multiset() =~= items.filter(p).to_multiset().add(
            items.filter(q).to_multiset(),
        ));
    } else {
        assert(items.filter(either).to_multiset() =~= items.filter(p).to_multiset().add(
            items.filter(q).to_multiset(),
        ));
    }
}

/// Whether a stream answers one of the first `count` requests and shares the
/// lane.
spec fn is_before<S>(
    requests: Seq<ToolRequestView>,
    tool_names: Set<Seq<char>>,
    count: int,
) -> spec_fn((Seq<char>, S)) -> bool {
    |entry: (Seq<char>, S)|
        schedule::lane_position(requests, tool_names, entry.0) matches Some(position) && position
            < count
}

proof fn lemma_ordered_multiset<S>(
    streams: Seq<(Seq<char>, S)>,
    requests: Seq<ToolRequestView>,
    tool_names: Set<Seq<char>>,
    count: nat,
)
    ensures
        schedule::ordered_streams(streams, requests, tool_names, count).to_multiset()
            == streams.filter(is_before(requests, tool_names, count as int)).to_multiset(),
    decreases count,
{
    broadcast use vstd::seq_lib::group_to_multiset_ensures;

    if count == 0 {
        assert forall|i: int| 0 <= i < streams.len() implies !is_before(requests, tool_names, 0)(
            #[trigger] streams[i],
        ) by {
            schedule::lemma_lane_position_range(requests, tool_names, streams[i].0);
        }
        lemma_filter_none(streams, is_before(requests, tool_names, 0));
    } else {
        let at = |entry: (Seq<char>, S)|
            schedule::lane_position(requests, tool_names, entry.0) == Some(count - 1);
        lemma_ordered_multiset(streams, requests, tool_names, (count - 1) as nat);
        lemma_filter_split(
            streams,
            is_before(requests, tool_names, count - 1),
            at,
            is_before(requests, tool_names, count as int),
        );
        let earlier = schedule::ordered_streams(streams, requests, tool_names, (count - 1) as nat);
        vstd::seq_lib::lemma_multiset_commutative(earlier, streams.filter(at));
    }
}

/// A schedule loses no stream and invents none: each one runs on its own, runs
/// in the lane or is refused, and does only one of these.
pub proof fn law_streams_are_partitioned<S>(
    streams: Seq<(Seq<char>, S)>,
    requests: Seq<ToolRequestView>,
    policy: OrderedToolCallsView,
)
    ensures
        (schedule::free_streams(streams, requests, policy.tool_names) + schedule::admitted_streams(
            streams,
            requests,
            policy,
        ) + schedule::overflow_streams(streams, requests, policy)).to_multiset()
            == streams.to_multiset(),
{
    let names = policy.tool_names;
    let free = schedule::free_streams(streams, requests, names);
    let ordered = schedule::ordered_streams(streams, requests, names, requests.len());
    let admitted = schedule::admitted_streams(streams, requests, policy);
    let overflow = schedule::overflow_streams(streams, requests, policy);
    assert(admitted + overflow =~= ordered);
    assert(free + admitted + overflow =~= free + ordered);
    let is_free = |entry: (Seq<char>, S)|
        schedule::lane_position(requests, names, entry.0) is None;
    let any = |entry: (Seq<char>, S)| true;
    assert forall|i: int| 0 <= i < streams.len() implies {
        &&& any(#[trigger] streams[i]) == (is_free(streams[i]) || is_before(
            requests,
            names,
            requests.len() as int,
        )(streams[i]))
        &&& !(is_free(streams[i]) && is_before(requests, names, requests.len() as int)(streams[i]))
    } by {
        schedule::lemma_lane_position_range(requests, names, streams[i].0);
    }
    lemma_filter_split(
        streams,
        is_free,
        is_before(requests, names, requests.len() as int),
        any,
    );
    lemma_filter_all(streams, any);
    lemma_ordered_multiset(streams, requests, names, requests.len());
    vstd::seq_lib::lemma_multiset_commutative(free, ordered);
}

proof fn lemma_filter_meets<A>(items: Seq<A>, p: spec_fn(A) -> bool)
    ensures
        forall|i: int| 0 <= i < items.filter(p).len() ==> p(#[trigger] items.filter(p)[i]),
    decreases items.len(),
{
    reveal(Seq::filter);
    if items.len() > 0 {
        lemma_filter_meets(items.drop_last(), p);
    }
}

proof fn lemma_ordered_sorted<S>(
    streams: Seq<(Seq<char>, S)>,
    requests: Seq<ToolRequestView>,
    tool_names: Set<Seq<char>>,
    count: nat,
)
    ensures
        ({
            let ordered = schedule::ordered_streams(streams, requests, tool_names, count);
            &&& forall|i: int|
                0 <= i < ordered.len() ==> {
                    &&& schedule::lane_position(requests, tool_names, (#[trigger] ordered[i]).0) is Some
                    &&& schedule::lane_position(requests, tool_names, ordered[i].0)->0 < count
                }
            &&& forall|i: int, j: int|
                0 <= i < j < ordered.len() ==> schedule::lane_position(
                    requests,
                    tool_names,
                    (#[trigger] ordered[i]).0,
                )->0 <= schedule::lane_position(requests, tool_names, (#[trigger] ordered[j]).0)->0
        }),
    decreases count,
{
    if count > 0 {
        lemma_ordered_sorted(streams, requests, tool_names, (count - 1) as nat);
        let earlier = schedule::ordered_streams(streams, requests, tool_names, (count - 1) as nat);
        let at = |entry: (Seq<char>, S)|
            schedule::lane_position(requests, tool_names, entry.0) == Some(count - 1);
        let added = streams.filter(at);
        lemma_filter_meets(streams, at);
        let ordered = schedule::ordered_streams(streams, requests, tool_names, count);
        assert(ordered =~= earlier + added);
        assert forall|i: int| 0 <= i < ordered.len() implies {
            &&& schedule::lane_position(requests, tool_names, (#[trigger] ordered[i]).0) is Some
            &&& schedule::lane_position(requests, tool_names, ordered[i].0)->0 < count
            &&& i >= earlier.len() ==> schedule::lane_position(requests, tool_names, ordered[i].0)->0
                == count - 1
        } by {
            if i < earlier.len() {
                assert(ordered[i] == earlier[i]);
            } else {
                assert(ordered[i] == added[i - earlier.len()]);
                assert(at(added[i - earlier.len()]));
            }
        }
        assert forall|i: int, j: int| 0 <= i < j < ordered.len() implies schedule::lane_position(
            requests,
            tool_names,
            (#[trigger] ordered[i]).0,
        )->0 <= schedule::lane_position(requests, tool_names, (#[trigger] ordered[j]).0)->0 by {
            if j < earlier.len() {
                assert(ordered[i] == earlier[i]);
                assert(ordered[j] == earlier[j]);
            }
        }
    }
}

/// The calls of the lane run in the order of their requests, and no refused
/// call comes before one that runs.
pub proof fn law_lane_follows_request_order<S>(
    streams: Seq<(Seq<char>, S)>,
    requests: Seq<ToolRequestView>,
    policy: OrderedToolCallsView,
)
    ensures
        ({
            let lane = schedule::admitted_streams(streams, requests, policy)
                + schedule::overflow_streams(streams, requests, policy);
            &&& forall|i: int|
                0 <= i < lane.len() ==> schedule::lane_position(
                    requests,
                    policy.tool_names,
                    (#[trigger] lane[i]).0,
                ) is Some
            &&& forall|i: int, j: int|
                0 <= i < j < lane.len() ==> schedule::lane_position(
                    requests,
                    policy.tool_names,
                    (#[trigger] lane[i]).0,
                )->0 <= schedule::lane_position(
                    requests,
                    policy.tool_names,
                    (#[trigger] lane[j]).0,
                )->0
        }),
{
    let ordered = schedule::ordered_streams(
        streams,
        requests,
        policy.tool_names,
        requests.len(),
    );
    lemma_ordered_sorted(streams, requests, policy.tool_names, requests.len());
    assert(schedule::admitted_streams(streams, requests, policy) + schedule::overflow_streams(
        streams,
        requests,
        policy,
    ) =~= ordered);
}

/// Streams that answer the same request keep the order in which they came.
pub proof fn law_lane_keeps_order_of_arrival<S>(
    streams: Seq<(Seq<char>, S)>,
    requests: Seq<ToolRequestView>,
    policy: OrderedToolCallsView,
    position: int,
)
    requires
        0 <= position < requests.len(),
    ensures
        (schedule::admitted_streams(streams, requests, policy) + schedule::overflow_streams(
            streams,
            requests,
            policy,
        )).filter(
            |entry: (Seq<char>, S)|
                schedule::lane_position(requests, policy.tool_names, entry.0) == Some(position),
        ) == schedule::streams_at(streams, requests, policy.tool_names, position),
{
    let ordered = schedule::ordered_streams(
        streams,
        requests,
        policy.tool_names,
        requests.len(),
    );
    assert(schedule::admitted_streams(streams, requests, policy) + schedule::overflow_streams(
        streams,
        requests,
        policy,
    ) =~= ordered);
    lemma_ordered_at(streams, requests, policy.tool_names, requests.len(), position);
}

proof fn lemma_ordered_at<S>(
    streams: Seq<(Seq<char>, S)>,
    requests: Seq<ToolRequestView>,
    tool_names: Set<Seq<char>>,
    count: nat,
    position: int,
)
    ensures
        schedule::ordered_streams(streams, requests, tool_names, count).filter(
            |entry: (Seq<char>, S)|
                schedule::lane_position(requests, tool_names, entry.0) == Some(position),
        ) == if 0 <= position < count {
            schedule::streams_at(streams, requests, tool_names, position)
        } else {
            Seq::empty()
        },
    decreases count,
{
    let here = |entry: (Seq<char>, S)|
        schedule::lane_position(requests, tool_names, entry.0) == Some(position);
    if count == 0 {
        reveal(Seq::filter);
    } else {
        let earlier = schedule::ordered_streams(streams, requests, tool_names, (count - 1) as nat);
        let at = |entry: (Seq<char>, S)|
            schedule::lane_position(requests, tool_names, entry.0) == Some(count - 1);
        let added = streams.filter(at);
        lemma_ordered_at(streams, requests, tool_names, (count - 1) as nat, position);
        Seq::filter_distributes_over_add(earlier, added, here);
        lemma_filter_meets(streams, at);
        assert forall|i: int| 0 <= i < added.len() implies here(#[trigger] added[i]) == (position
            == count - 1) by {
            assert(at(added[i]));
        }
        if position == count - 1 {
            lemma_filter_all(added, here);
            assert(earlier.filter(here) + added =~= added);
        } else {
            lemma_filter_none(added, here);
            assert(earlier.filter(here) + Seq::<(Seq<char>, S)>::empty() =~= earlier.filter(here));
        }
    }
}

/// A lane takes no more calls than it may, and refuses none while it has room.
pub proof fn law_lane_is_bounded<S>(
    streams: Seq<(Seq<char>, S)>,
    requests: Seq<ToolRequestView>,
    policy: OrderedToolCallsView,
)
    ensures
        schedule::admitted_streams(streams, requests, policy).len() <= policy.max_calls,
        schedule::overflow_streams(streams, requests, policy).len() > 0
            ==> schedule::admitted_streams(streams, requests, policy).len() == policy.max_calls,
{
}

proof fn lemma_position_without(
    requests: Seq<ToolRequestView>,
    tool_names: Set<Seq<char>>,
    request_id: Seq<char>,
    k: int,
)
    requires
        0 <= k < requests.len(),
        !(requests[k].id == request_id && schedule::is_ordered(requests[k], tool_names)),
    ensures
        schedule::lane_position(requests.remove(k), tool_names, request_id) == match (
        schedule::lane_position(requests, tool_names, request_id)) {
            Some(position) => if position < k {
                Some(position)
            } else {
                Some(position - 1)
            },
            None => None,
        },
        schedule::lane_position(requests, tool_names, request_id) != Some(k),
    decreases requests.len(),
{
    schedule::lemma_lane_position_range(requests.drop_last(), tool_names, request_id);
    if k == requests.len() - 1 {
        assert(requests.remove(k) =~= requests.drop_last());
    } else {
        lemma_position_without(requests.drop_last(), tool_names, request_id, k);
        assert(requests.remove(k).drop_last() =~= requests.drop_last().remove(k));
        assert(requests.remove(k).last() == requests.last());
    }
}

proof fn lemma_ordered_without<S>(
    streams: Seq<(Seq<char>, S)>,
    requests: Seq<ToolRequestView>,
    tool_names: Set<Seq<char>>,
    k: int,
    count: nat,
)
    requires
        0 <= k < requests.len(),
        count < requests.len(),
        forall|i: int|
            0 <= i < streams.len() ==> !(requests[k].id == (#[trigger] streams[i]).0
                && schedule::is_ordered(requests[k], tool_names)),
    ensures
        schedule::ordered_streams(streams, requests.remove(k), tool_names, count)
            == schedule::ordered_streams(
            streams,
            requests,
            tool_names,
            if count <= k {
                count
            } else {
                count + 1
            },
        ),
    decreases count,
{
    let without = requests.remove(k);
    assert forall|i: int| 0 <= i < streams.len() implies {
        &&& schedule::lane_position(requests, tool_names, (#[trigger] streams[i]).0) != Some(k)
        &&& schedule::lane_position(without, tool_names, streams[i].0) == match (
        schedule::lane_position(requests, tool_names, streams[i].0)) {
            Some(position) => if position < k {
                Some(position)
            } else {
                Some(position - 1)
            },
            None => None,
        }
    } by {
        lemma_position_without(requests, tool_names, streams[i].0, k);
    }
    if count > 0 {
        lemma_ordered_without(streams, requests, tool_names, k, (count - 1) as nat);
        let shifted = if count - 1 < k {
            count - 1
        } else {
            count as int
        };
        lemma_filter_agree(
            streams,
            |entry: (Seq<char>, S)|
                schedule::lane_position(without, tool_names, entry.0) == Some(count - 1),
            |entry: (Seq<char>, S)|
                schedule::lane_position(requests, tool_names, entry.0) == Some(shifted),
        );
    }
    if count > k {
        let at = |entry: (Seq<char>, S)|
            schedule::lane_position(requests, tool_names, entry.0) == Some(k);
        lemma_filter_none(streams, at);
        if count == k + 1 {
            let earlier = schedule::ordered_streams(streams, requests, tool_names, k as nat);
            assert(schedule::ordered_streams(streams, requests, tool_names, (k + 1) as nat)
                =~= earlier);
        }
    }
}

/// Missing denied or malformed requests never reserve a lane position: a
/// request that is not for a tool of the lane, or that no stream answers, can be
/// left out without any effect on the schedule.
pub proof fn law_absent_requests_leave_no_holes<S>(
    streams: Seq<(Seq<char>, S)>,
    requests: Seq<ToolRequestView>,
    policy: Option<OrderedToolCallsView>,
    k: int,
)
    requires
        0 <= k < requests.len(),
        policy matches Some(policy) ==> (!schedule::is_ordered(requests[k], policy.tool_names)
            || forall|i: int| 0 <= i < streams.len() ==> (#[trigger] streams[i]).0 != requests[k].id),
    ensures
        schedule::scheduled(streams, requests.remove(k), policy) == schedule::scheduled(
            streams,
            requests,
            policy,
        ),
{
    if let Some(policy) = policy {
        let names = policy.tool_names;
        let without = requests.remove(k);
        assert forall|i: int| 0 <= i < streams.len() implies (schedule::lane_position(
            without,
            names,
            (#[trigger] streams[i]).0,
        ) is None) == (schedule::lane_position(requests, names, streams[i].0) is None) by {
            lemma_position_without(requests, names, streams[i].0, k);
        }
        lemma_filter_agree(
            streams,
            |entry: (Seq<char>, S)| schedule::lane_position(without, names, entry.0) is None,
            |entry: (Seq<char>, S)| schedule::lane_position(requests, names, entry.0) is None,
        );
        lemma_ordered_without(streams, requests, names, k, without.len());
        if k == without.len() {
            let at = |entry: (Seq<char>, S)|
                schedule::lane_position(requests, names, entry.0) == Some(k);
            assert forall|i: int| 0 <= i < streams.len() implies !at(#[trigger] streams[i]) by {
                lemma_position_without(requests, names, streams[i].0, k);
            }
            lemma_filter_none(streams, at);
            assert(schedule::ordered_streams(streams, requests, names, requests.len())
                =~= schedule::ordered_streams(streams, requests, names, k as nat));
        }
    }
}

/// Whether two requests differ at most in what the provider says of them.
pub open spec fn same_call(first: ToolRequestView, second: ToolRequestView) -> bool {
    &&& first.id == second.id
    &&& match (first.tool_call, second.tool_call) {
        (Ok(first), Ok(second)) => first.name == second.name,
        (Err(_), Err(_)) => true,
        _ => false,
    }
}

proof fn lemma_position_of_same_calls(
    first: Seq<ToolRequestView>,
    second: Seq<ToolRequestView>,
    tool_names: Set<Seq<char>>,
    request_id: Seq<char>,
)
    requires
        first.len() == second.len(),
        forall|i: int| 0 <= i < first.len() ==> same_call(#[trigger] first[i], second[i]),
    ensures
        schedule::lane_position(first, tool_names, request_id) == schedule::lane_position(
            second,
            tool_names,
            request_id,
        ),
    decreases first.len(),
{
    if first.len() > 0 {
        assert forall|i: int| 0 <= i < first.drop_last().len() implies same_call(
            #[trigger] first.drop_last()[i],
            second.drop_last()[i],
        ) by {
            assert(first.drop_last()[i] == first[i]);
        }
        lemma_position_of_same_calls(
            first.drop_last(),
            second.drop_last(),
            tool_names,
            request_id,
        );
        assert(same_call(first[first.len() - 1], second[first.len() - 1]));
    }
}

proof fn lemma_ordered_of_same_calls<S>(
    streams: Seq<(Seq<char>, S)>,
    first: Seq<ToolRequestView>,
    second: Seq<ToolRequestView>,
    tool_names: Set<Seq<char>>,
    count: nat,
)
    requires
        first.len() == second.len(),
        forall|i: int| 0 <= i < first.len() ==> same_call(#[trigger] first[i], second[i]),
    ensures
        schedule::ordered_streams(streams, first, tool_names, count) == schedule::ordered_streams(
            streams,
            second,
            tool_names,
            count,
        ),
    decreases count,
{
    if count > 0 {
        lemma_ordered_of_same_calls(streams, first, second, tool_names, (count - 1) as nat);
        assert forall|i: int| 0 <= i < streams.len() implies schedule::lane_position(
            first,
            tool_names,
            (#[trigger] streams[i]).0,
        ) == schedule::lane_position(second, tool_names, streams[i].0) by {
            lemma_position_of_same_calls(first, second, tool_names, streams[i].0);
        }
        lemma_filter_agree(
            streams,
            |entry: (Seq<char>, S)|
                schedule::lane_position(first, tool_names, entry.0) == Some(count - 1),
            |entry: (Seq<char>, S)|
                schedule::lane_position(second, tool_names, entry.0) == Some(count - 1),
        );
    }
}

/// The schedule comes solely from the host's policy and the order of the
/// requests: what a provider says in metadata, and the arguments of the calls,
/// have no effect on it.
pub proof fn law_provider_metadata_is_ignored<S>(
    streams: Seq<(Seq<char>, S)>,
    first: Seq<ToolRequestView>,
    second: Seq<ToolRequestView>,
    policy: Option<OrderedToolCallsView>,
)
    requires
        first.len() == second.len(),
        forall|i: int| 0 <= i < first.len() ==> same_call(#[trigger] first[i], second[i]),
    ensures
        schedule::scheduled(streams, first, policy) == schedule::scheduled(streams, second, policy),
{
    if let Some(policy) = policy {
        let names = policy.tool_names;
        assert forall|i: int| 0 <= i < streams.len() implies schedule::lane_position(
            first,
            names,
            (#[trigger] streams[i]).0,
        ) == schedule::lane_position(second, names, streams[i].0) by {
            lemma_position_of_same_calls(first, second, names, streams[i].0);
        }
        lemma_filter_agree(
            streams,
            |entry: (Seq<char>, S)| schedule::lane_position(first, names, entry.0) is None,
            |entry: (Seq<char>, S)| schedule::lane_position(second, names, entry.0) is None,
        );
        lemma_ordered_of_same_calls(streams, first, second, names, first.len());
    }
}

proof fn lemma_filter_has<A>(items: Seq<A>, p: spec_fn(A) -> bool, i: int)
    requires
        0 <= i < items.len(),
        p(items[i]),
    ensures
        items.filter(p).contains(items[i]),
    decreases items.len(),
{
    reveal(Seq::filter);
    if i == items.len() - 1 {
        assert(items.filter(p)[items.filter(p).len() - 1] == items[i]);
    } else {
        let rest = items.drop_last();
        lemma_filter_has(rest, p, i);
        let j = choose|j: int| 0 <= j < rest.filter(p).len() && rest.filter(p)[j] == items[i];
        assert(items.filter(p)[j] == items[i]);
    }
}

proof fn lemma_ordered_has<S>(
    streams: Seq<(Seq<char>, S)>,
    requests: Seq<ToolRequestView>,
    tool_names: Set<Seq<char>>,
    count: nat,
    i: int,
)
    requires
        0 <= i < streams.len(),
        schedule::lane_position(requests, tool_names, streams[i].0) matches Some(position)
            && position < count,
    ensures
        schedule::ordered_streams(streams, requests, tool_names, count).contains(streams[i]),
    decreases count,
{
    schedule::lemma_lane_position_range(requests, tool_names, streams[i].0);
    let earlier = schedule::ordered_streams(streams, requests, tool_names, (count - 1) as nat);
    let at = |entry: (Seq<char>, S)|
        schedule::lane_position(requests, tool_names, entry.0) == Some(count - 1);
    let added = streams.filter(at);
    let ordered = schedule::ordered_streams(streams, requests, tool_names, count);
    assert(ordered =~= earlier + added);
    if at(streams[i]) {
        lemma_filter_has(streams, at, i);
        let j = choose|j: int| 0 <= j < added.len() && added[j] == streams[i];
        assert(ordered[earlier.len() + j] == streams[i]);
    } else {
        lemma_ordered_has(streams, requests, tool_names, (count - 1) as nat, i);
        let j = choose|j: int| 0 <= j < earlier.len() && earlier[j] == streams[i];
        assert(ordered[j] == streams[i]);
    }
}

/// Every stream of a batch is accounted for. One that does not share the lane
/// is a branch of its own, so it never waits for the lane. Any other one is in
/// the lane, or its request is told that the batch exceeds the limit.
pub proof fn law_every_stream_is_answered<S>(
    streams: Seq<(Seq<char>, S)>,
    requests: Seq<ToolRequestView>,
    policy: OrderedToolCallsView,
    i: int,
)
    requires
        0 <= i < streams.len(),
    ensures
        ({
            let branches = schedule::scheduled(streams, requests, Some(policy));
            let entry = streams[i];
            if schedule::lane_position(requests, policy.tool_names, entry.0) is None {
                branches.contains(BranchView::Tool(entry.0, entry.1))
            } else {
                ||| branches.contains(
                    BranchView::Rejected(
                        entry.0,
                        conversation::error_output_view(text::overflow_text(policy.max_calls)),
                    ),
                )
                ||| {
                    &&& branches.len() > 0
                    &&& branches.last() == BranchView::Lane(
                        LaneView {
                            waiting: schedule::admitted_streams(streams, requests, policy),
                            running: false,
                        },
                    )
                    &&& schedule::admitted_streams(streams, requests, policy).contains(entry)
                }
            }
        }),
{
    let names = policy.tool_names;
    let entry = streams[i];
    let free = schedule::free_streams(streams, requests, names);
    let admitted = schedule::admitted_streams(streams, requests, policy);
    let overflow = schedule::overflow_streams(streams, requests, policy);
    let tools = schedule::tool_branches(free);
    let rejected = schedule::rejected_branches(overflow, policy.max_calls);
    let lane = schedule::lane_branches(admitted);
    let branches = schedule::scheduled(streams, requests, Some(policy));
    assert(branches == tools + rejected + lane);
    if schedule::lane_position(requests, names, entry.0) is None {
        lemma_filter_has(
            streams,
            |entry: (Seq<char>, S)| schedule::lane_position(requests, names, entry.0) is None,
            i,
        );
        let j = choose|j: int| 0 <= j < free.len() && free[j] == entry;
        assert(tools[j] == BranchView::Tool(entry.0, entry.1));
        assert(branches[j] == BranchView::Tool(entry.0, entry.1));
    } else {
        let ordered = schedule::ordered_streams(streams, requests, names, requests.len());
        schedule::lemma_lane_position_range(requests, names, entry.0);
        lemma_ordered_has(streams, requests, names, requests.len(), i);
        let j = choose|j: int| 0 <= j < ordered.len() && ordered[j] == entry;
        if j < admitted.len() {
            assert(admitted[j] == entry);
            assert(branches.last() == lane[0]);
        } else {
            assert(overflow[j - admitted.len()] == entry);
            assert(rejected[j - admitted.len()] == BranchView::<S>::Rejected(
                entry.0,
                conversation::error_output_view(text::overflow_text(policy.max_calls)),
            ));
            assert(branches[tools.len() + j - admitted.len()] == rejected[j - admitted.len()]);
        }
    }
}

/// Whether a request has the given identifier and asks for a tool with one of the
/// given names.
pub open spec fn asks_for_one_of(
    request: ToolRequest,
    request_id: Seq<char>,
    tool_names: Set<Seq<char>>,
) -> bool {
    &&& request.id@ == request_id
    &&& request.tool_call is Ok
    &&& tool_names.contains(external::params_name(request.tool_call->Ok_0.params))
}

/// Whether `order` lists the streams that answer requests for the named tools,
/// each of them once and no other, by the places of their requests, and those
/// with the same place as they came. The place of a stream is where the last such
/// request with its identifier stands.
pub open spec fn is_request_order<S>(
    streams: Seq<(Seq<char>, S)>,
    requests: Seq<ToolRequest>,
    tool_names: Set<Seq<char>>,
    order: Seq<int>,
    places: Seq<int>,
) -> bool {
    &&& order.len() == places.len()
    &&& forall|k: int|
        0 <= k < order.len() ==> {
            &&& 0 <= #[trigger] order[k] < streams.len()
            &&& 0 <= places[k] < requests.len()
            &&& asks_for_one_of(requests[places[k]], streams[order[k]].0, tool_names)
        }
    &&& forall|k: int, q: int|
        0 <= k < order.len() && places[k] < q < requests.len() ==> !asks_for_one_of(
            #[trigger] requests[q],
            streams[#[trigger] order[k]].0,
            tool_names,
        )
    &&& forall|k: int, l: int|
        0 <= k < l < order.len() ==> {
            &&& #[trigger] places[k] <= #[trigger] places[l]
            &&& places[k] == places[l] ==> order[k] < order[l]
        }
    &&& forall|i: int, q: int|
        0 <= i < streams.len() && 0 <= q < requests.len() && asks_for_one_of(
            #[trigger] requests[q],
            (#[trigger] streams[i]).0,
            tool_names,
        ) ==> order.contains(i)
}

proof fn lemma_lane_position_is_last(
    requests: Seq<ToolRequest>,
    tool_names: Set<Seq<char>>,
    request_id: Seq<char>,
)
    ensures
        ({
            let position = schedule::lane_position(
                conversation::request_views(requests),
                tool_names,
                request_id,
            );
            let after = match position {
                Some(position) => position,
                None => -1,
            };
            &&& position is Some ==> 0 <= position->0 < requests.len() && asks_for_one_of(
                requests[position->0],
                request_id,
                tool_names,
            )
            &&& forall|q: int|
                after < q < requests.len() ==> !asks_for_one_of(
                    #[trigger] requests[q],
                    request_id,
                    tool_names,
                )
        }),
    decreases requests.len(),
{
    let views = conversation::request_views(requests);
    if requests.len() > 0 {
        let rest = requests.drop_last();
        assert(views.drop_last() =~= conversation::request_views(rest));
        assert(views.last() == requests.last()@);
        lemma_lane_position_is_last(rest, tool_names, request_id);
        let position = schedule::lane_position(views, tool_names, request_id);
        let after = match position {
            Some(position) => position,
            None => -1,
        };
        assert forall|q: int| after < q < requests.len() implies !asks_for_one_of(
            #[trigger] requests[q],
            request_id,
            tool_names,
        ) by {
            if q < rest.len() {
                assert(rest[q] == requests[q]);
            }
        }
        if position is Some && position->0 < rest.len() {
            assert(rest[position->0] == requests[position->0]);
        }
    }
}

/// Where the items that meet a condition stand.
proof fn lemma_filter_indices<A>(items: Seq<A>, p: spec_fn(A) -> bool) -> (indices: Seq<int>)
    ensures
        indices.len() == items.filter(p).len(),
        forall|k: int|
            0 <= k < indices.len() ==> {
                &&& 0 <= #[trigger] indices[k] < items.len()
                &&& items[indices[k]] == items.filter(p)[k]
                &&& p(items[indices[k]])
            },
        forall|k: int, l: int|
            0 <= k < l < indices.len() ==> #[trigger] indices[k] < #[trigger] indices[l],
        forall|i: int| 0 <= i < items.len() && p(#[trigger] items[i]) ==> indices.contains(i),
    decreases items.len(),
{
    reveal(Seq::filter);
    if items.len() == 0 {
        Seq::empty()
    } else {
        let rest = items.drop_last();
        let last = items.len() - 1;
        let before = lemma_filter_indices(rest, p);
        let indices = if p(items[last]) {
            before.push(last)
        } else {
            before
        };
        assert forall|k: int| 0 <= k < indices.len() implies {
            &&& 0 <= #[trigger] indices[k] < items.len()
            &&& items[indices[k]] == items.filter(p)[k]
            &&& p(items[indices[k]])
        } by {
            if k < before.len() {
                assert(indices[k] == before[k]);
                assert(rest[before[k]] == items[before[k]]);
            }
        }
        assert forall|k: int, l: int| 0 <= k < l < indices.len() implies #[trigger] indices[k]
            < #[trigger] indices[l] by {
            assert(indices[k] == before[k]);
            if l < before.len() {
                assert(indices[l] == before[l]);
            }
        }
        assert forall|i: int| 0 <= i < items.len() && p(
            #[trigger] items[i],
        ) implies indices.contains(i) by {
            if i < last {
                assert(rest[i] == items[i]);
                let k = choose|k: int| 0 <= k < before.len() && before[k] == i;
                assert(indices[k] == i);
            } else {
                assert(indices[before.len() as int] == i);
            }
        }
        indices
    }
}

/// Which streams share the lane, in its order, and where their requests stand.
proof fn lemma_lane_order<S>(
    streams: Seq<(Seq<char>, S)>,
    requests: Seq<ToolRequestView>,
    tool_names: Set<Seq<char>>,
    count: nat,
) -> (listed: (Seq<int>, Seq<int>))
    ensures
        ({
            let (order, places) = listed;
            let ordered = schedule::ordered_streams(streams, requests, tool_names, count);
            &&& order.len() == ordered.len()
            &&& places.len() == ordered.len()
            &&& forall|k: int|
                0 <= k < order.len() ==> {
                    &&& 0 <= #[trigger] order[k] < streams.len()
                    &&& streams[order[k]] == ordered[k]
                    &&& schedule::lane_position(requests, tool_names, streams[order[k]].0) == Some(
                        places[k],
                    )
                    &&& places[k] < count
                }
            &&& forall|k: int, l: int|
                0 <= k < l < order.len() ==> {
                    &&& #[trigger] places[k] <= #[trigger] places[l]
                    &&& places[k] == places[l] ==> order[k] < order[l]
                }
            &&& forall|i: int|
                0 <= i < streams.len() && (schedule::lane_position(
                    requests,
                    tool_names,
                    (#[trigger] streams[i]).0,
                ) matches Some(position) && position < count) ==> order.contains(i)
        }),
    decreases count,
{
    if count == 0 {
        assert forall|i: int| 0 <= i < streams.len() implies !(schedule::lane_position(
            requests,
            tool_names,
            (#[trigger] streams[i]).0,
        ) matches Some(position) && position < count) by {
            schedule::lemma_lane_position_range(requests, tool_names, streams[i].0);
        }
        (Seq::empty(), Seq::empty())
    } else {
        let (earlier, earlier_places) = lemma_lane_order(
            streams,
            requests,
            tool_names,
            (count - 1) as nat,
        );
        let here = |entry: (Seq<char>, S)|
            schedule::lane_position(requests, tool_names, entry.0) == Some(count - 1);
        let added = lemma_filter_indices(streams, here);
        let order = earlier + added;
        let places = earlier_places + Seq::new(added.len(), |k: int| count - 1);
        let ordered = schedule::ordered_streams(streams, requests, tool_names, count);
        let first = schedule::ordered_streams(streams, requests, tool_names, (count - 1) as nat);
        assert(ordered =~= first + streams.filter(here));
        assert forall|k: int| 0 <= k < order.len() implies {
            &&& 0 <= #[trigger] order[k] < streams.len()
            &&& streams[order[k]] == ordered[k]
            &&& schedule::lane_position(requests, tool_names, streams[order[k]].0) == Some(
                places[k],
            )
            &&& places[k] < count
            &&& k < earlier.len() ==> places[k] < count - 1
        } by {
            if k < earlier.len() {
                assert(order[k] == earlier[k]);
            } else {
                assert(order[k] == added[k - earlier.len()]);
                assert(here(streams[added[k - earlier.len()]]));
            }
        }
        assert forall|k: int, l: int| 0 <= k < l < order.len() implies {
            &&& #[trigger] places[k] <= #[trigger] places[l]
            &&& places[k] == places[l] ==> order[k] < order[l]
        } by {
            if l < earlier.len() {
                assert(places[k] == earlier_places[k] && places[l] == earlier_places[l]);
                assert(order[k] == earlier[k] && order[l] == earlier[l]);
            } else if k < earlier.len() {
                assert(order[k] == earlier[k]);
                assert(places[k] == earlier_places[k]);
            } else if k >= earlier.len() {
                assert(order[k] == added[k - earlier.len()]);
                assert(order[l] == added[l - earlier.len()]);
            }
        }
        assert forall|i: int|
            0 <= i < streams.len() && (schedule::lane_position(
                requests,
                tool_names,
                (#[trigger] streams[i]).0,
            ) matches Some(position) && position < count) implies order.contains(i) by {
            if here(streams[i]) {
                let k = choose|k: int| 0 <= k < added.len() && added[k] == i;
                assert(order[earlier.len() + k] == i);
            } else {
                let k = choose|k: int| 0 <= k < earlier.len() && earlier[k] == i;
                assert(order[k] == i);
            }
        }
        (order, places)
    }
}

/// With a policy, the branches of a batch are these and no others: one for each
/// stream that answers no request for a named tool, as they came; one refusal for
/// each stream that comes after the first `max_calls` of the others, in the order
/// of their requests; and, if there are such others, one lane that waits with the
/// first `max_calls` of them, in that order. A call within the limit is never
/// refused, and one beyond it never runs.
pub proof fn law_schedule_runs_what_fits<S>(
    streams: Seq<(Seq<char>, S)>,
    requests: Seq<ToolRequest>,
    policy: OrderedToolCallsView,
)
    requires
        policy.max_calls > 0,
    ensures
        ({
            let branches = schedule::scheduled(
                streams,
                conversation::request_views(requests),
                Some(policy),
            );
            let free = streams.filter(
                |entry: (Seq<char>, S)|
                    forall|q: int|
                        0 <= q < requests.len() ==> !asks_for_one_of(
                            #[trigger] requests[q],
                            entry.0,
                            policy.tool_names,
                        ),
            );
            exists|order: Seq<int>, places: Seq<int>|
                {
                    let admitted = if order.len() < policy.max_calls {
                        order.len()
                    } else {
                        policy.max_calls
                    };
                    &&& #[trigger] is_request_order(
                        streams,
                        requests,
                        policy.tool_names,
                        order,
                        places,
                    )
                    &&& branches.len() == free.len() + (order.len() - admitted) + if order.len() > 0 {
                        1int
                    } else {
                        0int
                    }
                    &&& forall|i: int|
                        0 <= i < free.len() ==> #[trigger] branches[i] == (BranchView::Tool(
                            free[i].0,
                            free[i].1,
                        ))
                    &&& forall|k: int|
                        admitted <= k < order.len() ==> branches[free.len() + k - admitted] == (
                        BranchView::<S>::Rejected(
                            streams[#[trigger] order[k]].0,
                            ToolOutputView::Composed {
                                content: seq![
                                    OutputBlockView::Text(
                                        "This tool call was not executed because the ordered tool batch exceeds its limit of "@
                                            + text::decimal_digits(policy.max_calls)
                                            + " calls. Wait for the admitted calls to finish, then submit this work in a later batch."@,
                                    ),
                                ],
                                is_error: Some(true),
                            },
                        ))
                    &&& order.len() > 0 ==> {
                        &&& branches.last() matches BranchView::Lane(lane)
                        &&& !lane.running
                        &&& lane.waiting.len() == admitted
                        &&& forall|k: int|
                            0 <= k < admitted ==> lane.waiting[k] == streams[#[trigger] order[k]]
                    }
                }
        }),
{
    let names = policy.tool_names;
    let views = conversation::request_views(requests);
    let (order, places) = lemma_lane_order(streams, views, names, requests.len());
    assert forall|i: int| 0 <= i < streams.len() implies {
        let position = schedule::lane_position(views, names, (#[trigger] streams[i]).0);
        let after = match position {
            Some(position) => position,
            None => -1,
        };
        &&& position is Some ==> 0 <= position->0 < requests.len() && asks_for_one_of(
            requests[position->0],
            streams[i].0,
            names,
        )
        &&& forall|q: int|
            after < q < requests.len() ==> !asks_for_one_of(
                #[trigger] requests[q],
                streams[i].0,
                names,
            )
    } by {
        lemma_lane_position_is_last(requests, names, streams[i].0);
    }
    assert(is_request_order(streams, requests, names, order, places));
    let is_free = |entry: (Seq<char>, S)|
        forall|q: int|
            0 <= q < requests.len() ==> !asks_for_one_of(#[trigger] requests[q], entry.0, names);
    lemma_filter_agree(
        streams,
        |entry: (Seq<char>, S)| schedule::lane_position(views, names, entry.0) is None,
        is_free,
    );
    let free = streams.filter(is_free);
    let branches = schedule::scheduled(streams, views, Some(policy));
    let tools = schedule::tool_branches(free);
    let admitted = schedule::admitted_streams(streams, views, policy);
    let overflow = schedule::overflow_streams(streams, views, policy);
    let rejected = schedule::rejected_branches(overflow, policy.max_calls);
    let lane = schedule::lane_branches(admitted);
    assert(branches == tools + rejected + lane);
    assert forall|k: int| admitted.len() <= k < order.len() implies branches[free.len() + k
        - admitted.len()] == (BranchView::<S>::Rejected(
        streams[#[trigger] order[k]].0,
        conversation::error_output_view(text::overflow_text(policy.max_calls)),
    )) by {
        assert(overflow[k - admitted.len()] == streams[order[k]]);
        assert(rejected[k - admitted.len()] == branches[free.len() + k - admitted.len()]);
    }
    if order.len() > 0 {
        assert(branches.last() == lane[0]);
        assert forall|k: int| 0 <= k < admitted.len() implies admitted[k] == streams[
        #[trigger] order[k]] by {}
    }
}

/// What a branch is taken to hold is all that it holds.
pub proof fn law_branch_is_seen_in_full<S>(
    branches: Seq<Branch<S>>,
    streams: Seq<(String, S)>,
    i: int,
)
    ensures
        schedule::branch_views(branches).len() == branches.len(),
        0 <= i < branches.len() ==> match (branches[i], schedule::branch_views(branches)[i]) {
            (Branch::Tool(request_id, stream), BranchView::Tool(seen_id, seen)) => seen_id
                == request_id@ && seen == stream,
            (Branch::Rejected(request_id, output), BranchView::Rejected(seen_id, seen)) => seen_id
                == request_id@ && seen == output@,
            (Branch::Lane(lane), BranchView::Lane(seen)) => seen == lane@,
            _ => false,
        },
        schedule::stream_views(streams).len() == streams.len(),
        0 <= i < streams.len() ==> {
            &&& schedule::stream_views(streams)[i].0 == streams[i].0@
            &&& schedule::stream_views(streams)[i].1 == streams[i].1
        },
{
}

/// A lane that is asked for its next call answers by what it holds: while a call
/// runs it is busy; once the batch is cancelled it is done, whatever still waits;
/// else it starts the call that has waited longest; and it is done when none
/// waits. It changes by nothing but that.
pub proof fn law_lane_answers_by_what_it_holds<S>(lane: LaneView<S>, cancelled: bool)
    ensures
        lane.running ==> lane.answer(cancelled) is Busy && lane.asked(cancelled) == lane,
        !lane.running && cancelled ==> {
            &&& lane.answer(cancelled) is Done
            &&& lane.asked(cancelled).waiting.len() == 0
            &&& !lane.asked(cancelled).running
        },
        !lane.running && !cancelled && lane.waiting.len() > 0 ==> {
            &&& lane.answer(cancelled) == LaneAnswerView::Start(
                lane.waiting[0].0,
                lane.waiting[0].1,
            )
            &&& lane.asked(cancelled).waiting == lane.waiting.skip(1)
            &&& lane.asked(cancelled).running
        },
        !lane.running && lane.waiting.len() == 0 ==> {
            &&& lane.answer(cancelled) is Done
            &&& lane.asked(cancelled).waiting.len() == 0
            &&& !lane.asked(cancelled).running
        },
        lane.ended().waiting == lane.waiting,
        !lane.ended().running,
{
}

/// A lane whose token can only report that it is cancelled starts nothing: the
/// answer that goes by what the token reports is that the lane is done, unless a
/// call is still running. One whose token can only report that it is not cancelled
/// starts what waits first.
pub proof fn law_lane_goes_by_its_token<S>(
    lane: LaneView<S>,
    token: tokio_util::sync::CancellationToken,
    answer: LaneAnswerView<S>,
)
    requires
        exists|cancelled: bool| #[trigger]
            external::was_reported(token, cancelled) && answer == lane.answer(cancelled),
    ensures
        !external::was_reported(token, false) ==> {
            &&& !(answer is Start)
            &&& !lane.running ==> answer is Done
        },
        !external::was_reported(token, true) && !lane.running && lane.waiting.len() > 0 ==> answer
            == LaneAnswerView::Start(lane.waiting[0].0, lane.waiting[0].1),
        lane.running ==> answer is Busy,
{
}

/// Without a policy, every stream is a branch of its own.
pub proof fn law_default_scheduling_is_concurrent<S>(
    streams: Seq<(Seq<char>, S)>,
    requests: Seq<ToolRequestView>,
)
    ensures
        schedule::scheduled(streams, requests, None).len() == streams.len(),
        forall|i: int|
            0 <= i < streams.len() ==> #[trigger] schedule::scheduled(streams, requests, None)[i]
                == BranchView::Tool(streams[i].0, streams[i].1),
{
}

/// What happens to a lane.
pub enum LaneEvent {
    /// It is asked for its next call. The batch may have been cancelled.
    Asked { cancelled: bool },
    /// Its running call ends.
    Ended,
}

/// What became of a lane.
#[verifier::reject_recursive_types(S)]
pub struct LaneHistory<S> {
    pub lane: LaneView<S>,
    /// The calls that have started, the first one first.
    pub started: Seq<(Seq<char>, S)>,
}

/// What becomes of a lane that is to run the given calls.
pub open spec fn lane_history<S>(calls: Seq<(Seq<char>, S)>, events: Seq<LaneEvent>) -> LaneHistory<
    S,
>
    decreases events.len(),
{
    if events.len() == 0 {
        LaneHistory {
            lane: LaneView { waiting: calls, running: false },
            started: Seq::empty(),
        }
    } else {
        let before = lane_history(calls, events.drop_last());
        match events.last() {
            LaneEvent::Asked { cancelled } => LaneHistory {
                lane: before.lane.asked(cancelled),
                started: match before.lane.answer(cancelled) {
                    LaneAnswerView::Start(request_id, stream) => before.started.push(
                        (request_id, stream),
                    ),
                    _ => before.started,
                },
            },
            LaneEvent::Ended => LaneHistory { lane: before.lane.ended(), ..before },
        }
    }
}

/// Whether a call starts at the given event.
pub open spec fn starts_at<S>(
    calls: Seq<(Seq<char>, S)>,
    events: Seq<LaneEvent>,
    k: int,
) -> bool {
    &&& 0 <= k < events.len()
    &&& events[k] matches LaneEvent::Asked { cancelled } && lane_history(
        calls,
        events.take(k),
    ).lane.answer(cancelled) is Start
}

proof fn lemma_lane_step<S>(calls: Seq<(Seq<char>, S)>, events: Seq<LaneEvent>, k: int)
    requires
        0 <= k < events.len(),
    ensures
        events.take(k + 1).drop_last() == events.take(k),
        events.take(k + 1).last() == events[k],
{
    assert(events.take(k + 1).drop_last() =~= events.take(k));
}

/// The calls of a lane start in their order, and each of them at most once.
/// None is passed over: what has not started still waits, unless the lane has
/// seen the cancellation and dropped the rest.
pub proof fn law_lane_starts_calls_in_order<S>(
    calls: Seq<(Seq<char>, S)>,
    events: Seq<LaneEvent>,
)
    ensures
        ({
            let history = lane_history(calls, events);
            &&& history.started.len() <= calls.len()
            &&& history.started == calls.take(history.started.len() as int)
            &&& history.lane.waiting == calls.skip(history.started.len() as int) || (
            history.lane.waiting == Seq::<(Seq<char>, S)>::empty() && exists|k: int|
                0 <= k < events.len() && #[trigger] events[k] == (
                LaneEvent::Asked { cancelled: true }))
        }),
    decreases events.len(),
{
    if events.len() == 0 {
        assert(calls.take(0) =~= Seq::empty());
        assert(calls.skip(0) =~= calls);
    } else {
        law_lane_starts_calls_in_order(calls, events.drop_last());
        let before = lane_history(calls, events.drop_last());
        let history = lane_history(calls, events);
        let count = before.started.len() as int;
        if exists|k: int|
            0 <= k < events.drop_last().len() && #[trigger] events.drop_last()[k]
                == (LaneEvent::Asked { cancelled: true }) {
            let k = choose|k: int|
                0 <= k < events.drop_last().len() && #[trigger] events.drop_last()[k]
                    == (LaneEvent::Asked { cancelled: true });
            assert(events[k] == (LaneEvent::Asked { cancelled: true }));
        }
        assert(events[events.len() - 1] == events.last());
        if let LaneEvent::Asked { cancelled } = events.last() {
            if before.lane.answer(cancelled) is Start {
                assert(before.lane.waiting == calls.skip(count));
                assert(history.started =~= calls.take(count + 1));
                assert(history.lane.waiting =~= calls.skip(count + 1));
            } else if !before.lane.running && !cancelled {
                assert(history.lane.waiting =~= before.lane.waiting);
            }
        }
    }
}

/// Two calls of a lane never run at the same time: between the starts of two
/// calls, the one that started first has ended.
pub proof fn law_lane_is_sequential<S>(
    calls: Seq<(Seq<char>, S)>,
    events: Seq<LaneEvent>,
    i: int,
    j: int,
)
    requires
        i < j,
        starts_at(calls, events, i),
        starts_at(calls, events, j),
    ensures
        exists|k: int| i < k < j && #[trigger] events[k] == LaneEvent::Ended,
{
    lemma_lane_step(calls, events, i);
    assert(lane_history(calls, events.take(i + 1)).lane.running);
    if forall|k: int| i < k < j ==> #[trigger] events[k] != LaneEvent::Ended {
        lemma_lane_stays_busy(calls, events, i, j);
    }
}

proof fn lemma_lane_stays_busy<S>(
    calls: Seq<(Seq<char>, S)>,
    events: Seq<LaneEvent>,
    i: int,
    j: int,
)
    requires
        0 <= i < j <= events.len(),
        lane_history(calls, events.take(i + 1)).lane.running,
        forall|k: int| i < k < j ==> #[trigger] events[k] != LaneEvent::Ended,
    ensures
        lane_history(calls, events.take(j)).lane.running,
    decreases j,
{
    if i + 1 < j {
        lemma_lane_stays_busy(calls, events, i, j - 1);
        lemma_lane_step(calls, events, j - 1);
        assert(events[j - 1] != LaneEvent::Ended);
    }
}

/// Once a lane has seen the cancellation, no call of it starts any more.
pub proof fn law_cancelled_lane_starts_nothing<S>(
    calls: Seq<(Seq<char>, S)>,
    events: Seq<LaneEvent>,
    i: int,
    j: int,
)
    requires
        0 <= i <= j < events.len(),
        events[i] == (LaneEvent::Asked { cancelled: true }),
        !lane_history(calls, events.take(i)).lane.running,
    ensures
        !starts_at(calls, events, j),
{
    if i < j {
        lemma_lane_stays_empty(calls, events, i, j);
    }
}

proof fn lemma_lane_stays_empty<S>(
    calls: Seq<(Seq<char>, S)>,
    events: Seq<LaneEvent>,
    i: int,
    j: int,
)
    requires
        0 <= i < j <= events.len(),
        events[i] == (LaneEvent::Asked { cancelled: true }),
        !lane_history(calls, events.take(i)).lane.running,
    ensures
        lane_history(calls, events.take(j)).lane.waiting.len() == 0,
        !lane_history(calls, events.take(j)).lane.running,
    decreases j,
{
    lemma_lane_step(calls, events, j - 1);
    if i < j - 1 {
        lemma_lane_stays_empty(calls, events, i, j - 1);
    }
}

/// A lane that is asked whenever its call before has ended runs all of its
/// calls, as long as the batch is not cancelled.
pub proof fn law_uncancelled_lane_runs_everything<S>(calls: Seq<(Seq<char>, S)>, count: nat)
    requires
        count <= calls.len(),
    ensures
        lane_history(calls, uncancelled_events(count)).started == calls.take(count as int),
        lane_history(calls, uncancelled_events(count)).lane == (LaneView {
            waiting: calls.skip(count as int),
            running: false,
        }),
    decreases count,
{
    if count == 0 {
        assert(calls.skip(0) =~= calls);
        assert(calls.take(0) =~= Seq::empty());
    } else {
        let before = uncancelled_events((count - 1) as nat);
        law_uncancelled_lane_runs_everything(calls, (count - 1) as nat);
        let asked = before.push(LaneEvent::Asked { cancelled: false });
        assert(asked.drop_last() =~= before);
        assert(uncancelled_events(count).drop_last() =~= asked);
        assert(lane_history(calls, asked).started =~= calls.take(count as int));
        assert(lane_history(calls, asked).lane.waiting =~= calls.skip(count as int));
    }
}

/// A lane is asked, and its call ends, so many times.
pub open spec fn uncancelled_events(count: nat) -> Seq<LaneEvent>
    decreases count,
{
    if count == 0 {
        Seq::empty()
    } else {
        uncancelled_events((count - 1) as nat).push(LaneEvent::Asked { cancelled: false }).push(
            LaneEvent::Ended,
        )
    }
}

} // verus!
