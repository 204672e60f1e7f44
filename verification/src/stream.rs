//! What a running tool call reports.

use rmcp::model::ServerNotification;
use vstd::prelude::*;

use crate::conversation::{Message, ToolOutput, ToolResult};

verus! {

/// The output of a call, or what will produce it.
#[verifier::reject_recursive_types(F)]
pub enum ToolFuture<F> {
    Ready(ToolResult<ToolOutput>),
    Pending(F),
}

/// Combines the result of a tool call with optional streams that report from
/// the tool while it runs: its notifications, and what it asks of the user.
#[verifier::reject_recursive_types(F)]
#[verifier::reject_recursive_types(N)]
#[verifier::reject_recursive_types(A)]
pub struct ToolCallResult<F, N, A> {
    pub result: ToolFuture<F>,
    pub notification_stream: Option<N>,
    pub action_required_stream: Option<A>,
}

impl<F, N, A> From<ToolResult<ToolOutput>> for ToolCallResult<F, N, A> {
    fn from(result: ToolResult<ToolOutput>) -> (call: ToolCallResult<F, N, A>) {
        ToolCallResult {
            result: ToolFuture::Ready(result),
            notification_stream: None,
            action_required_stream: None,
        }
    }
}

impl<F, N, A> vstd::std_specs::convert::FromSpecImpl<ToolResult<ToolOutput>> for ToolCallResult<F, N, A> {
    open spec fn obeys_from_spec() -> bool {
        true
    }

    open spec fn from_spec(result: ToolResult<ToolOutput>) -> ToolCallResult<F, N, A> {
        ToolCallResult {
            result: ToolFuture::Ready(result),
            notification_stream: None,
            action_required_stream: None,
        }
    }
}

/// A result that is there already is the result of the call, and nothing else is
/// reported with it.
pub proof fn law_ready_result_is_kept<F, N, A>(
    result: ToolResult<ToolOutput>,
    call: ToolCallResult<F, N, A>,
)
    requires
        <ToolCallResult<F, N, A> as vstd::std_specs::convert::FromSpec<
            ToolResult<ToolOutput>,
        >>::from_spec(result) == call,
    ensures
        call.result == ToolFuture::<F>::Ready(result),
        call.notification_stream is None,
        call.action_required_stream is None,
{
}

/// What is left to run of a call that was dispatched. A call that could not be
/// dispatched reports that error, and nothing else.
pub fn settle_dispatch<F, N, A>(dispatched: ToolResult<ToolCallResult<F, N, A>>) -> (call:
    ToolCallResult<F, N, A>)
    ensures
        call == match dispatched {
            Ok(call) => call,
            Err(error) => ToolCallResult {
                result: ToolFuture::Ready(Err(error)),
                notification_stream: None,
                action_required_stream: None,
            },
        },
{
    match dispatched {
        Ok(call) => call,
        Err(error) => ToolCallResult::from(Err(error)),
    }
}

/// An item of the stream of a call.
#[verifier::reject_recursive_types(T)]
pub enum ToolStreamItem<T> {
    ActionRequired(Message),
    Message(ServerNotification),
    Result(T),
}

/// What happens while a call runs. A source that has ended gives `None`.
#[verifier::reject_recursive_types(T)]
pub enum ToolEvent<T> {
    ActionRequired(Option<Message>),
    Notification(Option<ServerNotification>),
    Done(T),
}

/// The item that reports an event, if there is anything to report.
pub open spec fn reported<T>(event: ToolEvent<T>) -> Option<ToolStreamItem<T>> {
    match event {
        ToolEvent::ActionRequired(Some(message)) => Some(ToolStreamItem::ActionRequired(message)),
        ToolEvent::Notification(Some(message)) => Some(ToolStreamItem::Message(message)),
        ToolEvent::Done(result) => Some(ToolStreamItem::Result(result)),
        _ => None,
    }
}

/// How far the stream of a call has come.
#[derive(Debug)]
pub struct ToolStreamState {
    finished: bool,
}

impl View for ToolStreamState {
    type V = bool;

    /// Whether the result has been reported.
    closed spec fn view(&self) -> bool {
        self.finished
    }
}

impl ToolStreamState {
    /// The stream of a call that starts to run.
    pub fn new() -> (state: ToolStreamState)
        ensures
            !state@,
    {
        ToolStreamState { finished: false }
    }

    /// Whether the stream has ended.
    pub fn is_finished(&self) -> (finished: bool)
        ensures
            finished == self@,
    {
        self.finished
    }

    /// Reports an event. The stream ends with the result of the call.
    pub fn step<T>(&mut self, event: ToolEvent<T>) -> (item: Option<ToolStreamItem<T>>)
        ensures
            item == if old(self)@ {
                None
            } else {
                reported(event)
            },
            final(self)@ == (old(self)@ || event is Done),
            old(self)@ ==> item is None,
            !old(self)@ ==> match event {
                ToolEvent::ActionRequired(Some(message)) => item == Some(
                    ToolStreamItem::<T>::ActionRequired(message),
                ),
                ToolEvent::Notification(Some(notification)) => item == Some(
                    ToolStreamItem::<T>::Message(notification),
                ),
                ToolEvent::Done(result) => item == Some(ToolStreamItem::<T>::Result(result)),
                ToolEvent::ActionRequired(None) | ToolEvent::Notification(None) => item is None,
            },
    {
        if self.finished {
            return None;
        }
        match event {
            ToolEvent::ActionRequired(Some(message)) => Some(
                ToolStreamItem::ActionRequired(message),
            ),
            ToolEvent::Notification(Some(message)) => Some(ToolStreamItem::Message(message)),
            ToolEvent::Done(result) => {
                self.finished = true;
                Some(ToolStreamItem::Result(result))
            },
            _ => None,
        }
    }
}

/// Says which request an item belongs to.
pub fn identify_item<T>(request_id: &String, item: T) -> (identified: (String, T))
    ensures
        identified.0@ == request_id@,
        identified.1 == item,
{
    (request_id.clone(), item)
}

/// What a stream reports of the given events, from the first to the last.
pub open spec fn reported_items<T>(finished: bool, events: Seq<ToolEvent<T>>) -> Seq<
    ToolStreamItem<T>,
>
    decreases events.len(),
{
    if finished || events.len() == 0 {
        Seq::empty()
    } else {
        let later = reported_items(events[0] is Done, events.drop_first());
        match reported(events[0]) {
            Some(item) => seq![item] + later,
            None => later,
        }
    }
}

/// The items that report the given events, in the order of the events: one for
/// each event but those that say that a source has ended.
pub open spec fn relayed_items<T>(events: Seq<ToolEvent<T>>) -> Seq<ToolStreamItem<T>> {
    events.filter(
        |event: ToolEvent<T>|
            event != ToolEvent::<T>::ActionRequired(None) && event
                != ToolEvent::<T>::Notification(None),
    ).map_values(
        |event: ToolEvent<T>|
            match event {
                ToolEvent::ActionRequired(message) => ToolStreamItem::ActionRequired(message->0),
                ToolEvent::Notification(notification) => ToolStreamItem::Message(notification->0),
                ToolEvent::Done(result) => ToolStreamItem::Result(result),
            },
    )
}

proof fn lemma_relayed_first<T>(events: Seq<ToolEvent<T>>)
    requires
        events.len() > 0,
    ensures
        relayed_items(events) == match reported(events[0]) {
            Some(item) => seq![item] + relayed_items(events.drop_first()),
            None => relayed_items(events.drop_first()),
        },
{
    let p = |event: ToolEvent<T>|
        event != ToolEvent::<T>::ActionRequired(None) && event
            != ToolEvent::<T>::Notification(None);
    let head = seq![events[0]];
    let rest = events.drop_first();
    assert(events =~= head + rest);
    Seq::filter_distributes_over_add(head, rest, p);
    reveal(Seq::filter);
    assert(head.drop_last() =~= Seq::empty());
    assert(Seq::<ToolEvent<T>>::empty().filter(p) =~= Seq::empty());
    if p(events[0]) {
        assert(head.filter(p) =~= head);
        assert(relayed_items(events) =~= seq![reported(events[0])->0] + relayed_items(rest));
    } else {
        assert(head.filter(p) =~= Seq::empty());
        assert(relayed_items(events) =~= relayed_items(rest));
    }
}

/// Each message of a running call, each notification and the result is passed on
/// as it is. Only that a source has ended is not worth a word, and nothing is
/// said after the result.
pub proof fn law_every_event_is_passed_on<T>(
    message: Message,
    notification: ServerNotification,
    result: T,
    event: ToolEvent<T>,
)
    ensures
        reported(ToolEvent::<T>::ActionRequired(Some(message))) == Some(
            ToolStreamItem::<T>::ActionRequired(message),
        ),
        reported(ToolEvent::<T>::Notification(Some(notification))) == Some(
            ToolStreamItem::<T>::Message(notification),
        ),
        reported(ToolEvent::Done(result)) == Some(ToolStreamItem::Result(result)),
        reported(event) is None <==> event == ToolEvent::<T>::ActionRequired(None) || event
            == ToolEvent::<T>::Notification(None),
{
}

/// Nothing that a call reports is changed or mixed up on its way: what comes out
/// of a stream tells what went in.
pub proof fn law_reports_tell_events_apart<T>(first: ToolEvent<T>, second: ToolEvent<T>)
    requires
        reported(first) is Some,
        reported(first) == reported(second),
    ensures
        first == second,
{
}

proof fn lemma_reported_append<T>(finished: bool, first: Seq<ToolEvent<T>>, second: Seq<ToolEvent<T>>)
    ensures
        reported_items(finished, first + second) == reported_items(finished, first)
            + reported_items(
            finished || exists|i: int| 0 <= i < first.len() && #[trigger] first[i] is Done,
            second,
        ),
    decreases first.len(),
{
    let over = finished || exists|i: int| 0 <= i < first.len() && #[trigger] first[i] is Done;
    if finished {
        assert(reported_items(finished, first + second) =~= Seq::empty());
        assert(Seq::<ToolStreamItem<T>>::empty() + Seq::<ToolStreamItem<T>>::empty()
            =~= Seq::empty());
    } else if first.len() == 0 {
        assert(first + second =~= second);
        assert(reported_items(finished, first) + reported_items(over, second) =~= reported_items(
            finished,
            second,
        ));
    } else {
        let rest = first.drop_first();
        let done = first[0] is Done;
        lemma_reported_append(done, rest, second);
        assert((first + second).drop_first() =~= rest + second);
        let later = done || exists|i: int| 0 <= i < rest.len() && #[trigger] rest[i] is Done;
        if exists|i: int| 0 <= i < rest.len() && #[trigger] rest[i] is Done {
            let i = choose|i: int| 0 <= i < rest.len() && #[trigger] rest[i] is Done;
            assert(first[i + 1] is Done);
        }
        if over {
            let i = choose|i: int| 0 <= i < first.len() && #[trigger] first[i] is Done;
            if i > 0 {
                assert(rest[i - 1] is Done);
            }
        }
        assert(over == later);
        assert(reported_items(finished, first + second) =~= reported_items(finished, first)
            + reported_items(over, second));
    }
}

proof fn lemma_reported_push<T>(events: Seq<ToolEvent<T>>, event: ToolEvent<T>)
    ensures
        reported_items(false, events.push(event)) == if exists|i: int|
            0 <= i < events.len() && #[trigger] events[i] is Done {
            reported_items(false, events)
        } else {
            match reported(event) {
                Some(item) => reported_items(false, events).push(item),
                None => reported_items(false, events),
            }
        },
{
    let said = reported_items(false, events);
    lemma_reported_append(false, events, seq![event]);
    assert(events.push(event) =~= events + seq![event]);
    assert(seq![event].drop_first() =~= Seq::empty());
    assert(reported_items(event is Done, Seq::<ToolEvent<T>>::empty()) =~= Seq::empty());
    assert(said + Seq::<ToolStreamItem<T>>::empty() =~= said);
    if let Some(item) = reported(event) {
        assert(said + (seq![item] + Seq::<ToolStreamItem<T>>::empty()) =~= said.push(item));
    }
}

/// Whatever happened before, a message that a running call sends is the next
/// thing that its stream says, and so is a notification, and so is its result;
/// that a source has ended adds nothing; and once a result was there, nothing
/// adds anything.
pub proof fn law_stream_grows_by_what_happens<T>(
    events: Seq<ToolEvent<T>>,
    message: Message,
    notification: ServerNotification,
    result: T,
    event: ToolEvent<T>,
)
    ensures
        (forall|i: int| 0 <= i < events.len() ==> !(#[trigger] events[i] is Done)) ==> {
            let said = reported_items(false, events);
            &&& reported_items(false, events.push(ToolEvent::ActionRequired(Some(message))))
                == said.push(ToolStreamItem::ActionRequired(message))
            &&& reported_items(false, events.push(ToolEvent::Notification(Some(notification))))
                == said.push(ToolStreamItem::Message(notification))
            &&& reported_items(false, events.push(ToolEvent::Done(result))) == said.push(
                ToolStreamItem::Result(result),
            )
            &&& reported_items(false, events.push(ToolEvent::ActionRequired(None))) == said
            &&& reported_items(false, events.push(ToolEvent::Notification(None))) == said
        },
        (exists|i: int| 0 <= i < events.len() && #[trigger] events[i] is Done) ==> reported_items(
            false,
            events.push(event),
        ) == reported_items(false, events),
        reported_items(false, Seq::<ToolEvent<T>>::empty()) == Seq::<ToolStreamItem<T>>::empty(),
{
    lemma_reported_push(events, ToolEvent::ActionRequired(Some(message)));
    lemma_reported_push(events, ToolEvent::Notification(Some(notification)));
    lemma_reported_push(events, ToolEvent::Done(result));
    lemma_reported_push(events, ToolEvent::ActionRequired(None));
    lemma_reported_push(events, ToolEvent::Notification(None));
    lemma_reported_push(events, event);
}

/// While a call runs, all that it reports is passed on in order, and nothing
/// else.
pub proof fn law_running_call_is_relayed<T>(events: Seq<ToolEvent<T>>)
    requires
        forall|i: int| 0 <= i < events.len() ==> !(#[trigger] events[i] is Done),
    ensures
        reported_items(false, events) == relayed_items(events),
        forall|i: int|
            0 <= i < reported_items(false, events).len() ==> !(#[trigger] reported_items(
                false,
                events,
            )[i] is Result),
    decreases events.len(),
{
    if events.len() > 0 {
        assert forall|i: int| 0 <= i < events.drop_first().len() implies !(
        #[trigger] events.drop_first()[i] is Done) by {
            assert(events.drop_first()[i] == events[i + 1]);
        }
        law_running_call_is_relayed(events.drop_first());
        lemma_relayed_first(events);
        let later = reported_items(false, events.drop_first());
        assert(!(events[0] is Done));
        assert forall|i: int| 0 <= i < reported_items(false, events).len() implies !(
        #[trigger] reported_items(false, events)[i] is Result) by {
            if reported(events[0]) is Some {
                if i > 0 {
                    assert(reported_items(false, events)[i] == later[i - 1]);
                }
            } else {
                assert(reported_items(false, events)[i] == later[i]);
            }
        }
    } else {
        reveal(Seq::filter);
        assert(relayed_items(events) =~= Seq::empty());
    }
}

/// The result of a call is reported once, after all that happened before it,
/// and nothing is reported after it.
pub proof fn law_result_comes_once_and_last<T>(events: Seq<ToolEvent<T>>, done: int)
    requires
        0 <= done < events.len(),
        events[done] is Done,
        forall|i: int| 0 <= i < done ==> !(#[trigger] events[i] is Done),
    ensures
        reported_items(false, events) == relayed_items(events.take(done)).push(
            ToolStreamItem::Result(events[done]->Done_0),
        ),
    decreases events.len(),
{
    if done == 0 {
        reveal(Seq::filter);
        assert(relayed_items(events.take(0)) =~= Seq::empty());
        assert(reported_items(true, events.drop_first()) =~= Seq::empty());
        assert(reported_items(false, events) =~= seq![
            ToolStreamItem::Result(events[0]->Done_0),
        ]);
    } else {
        let rest = events.drop_first();
        assert forall|i: int| 0 <= i < done - 1 implies !(#[trigger] rest[i] is Done) by {
            assert(rest[i] == events[i + 1]);
        }
        law_result_comes_once_and_last(rest, done - 1);
        lemma_relayed_first(events.take(done));
        assert(events.take(done).drop_first() =~= rest.take(done - 1));
        assert(events.take(done)[0] == events[0]);
        assert(reported_items(false, events) =~= relayed_items(events.take(done)).push(
            ToolStreamItem::Result(events[done]->Done_0),
        ));
    }
}

} // verus!
