//! The messages that answer the tool requests of a turn.

use vstd::prelude::*;

use crate::conversation;
use crate::conversation::{
    JsonEntries, JsonObject, Message, MessageContentView, MessageView, ToolOutput, ToolOutputView,
    ToolResult,
};
use crate::external;

verus! {

/// The response messages of a turn, each under the request that it answers.
pub struct ResponseMap {
    /// Of several entries with one identifier, the last one counts.
    entries: Vec<(String, Message)>,
}

spec fn entry_map(entries: Seq<(String, Message)>) -> Map<Seq<char>, MessageView>
    decreases entries.len(),
{
    if entries.len() == 0 {
        Map::empty()
    } else {
        entry_map(entries.drop_last()).insert(entries.last().0@, entries.last().1@)
    }
}

impl View for ResponseMap {
    type V = Map<Seq<char>, MessageView>;

    closed spec fn view(&self) -> Map<Seq<char>, MessageView> {
        entry_map(self.entries@)
    }
}

/// The responses once a tool response was added to the one that answers
/// `request_id`. Nothing is added where no message answers that request.
pub open spec fn with_response(
    responses: Map<Seq<char>, MessageView>,
    request_id: Seq<char>,
    tool_result: Result<ToolOutputView, rmcp::model::ErrorData>,
    metadata: Option<JsonEntries>,
) -> Map<Seq<char>, MessageView> {
    if responses.contains_key(request_id) {
        responses.insert(
            request_id,
            responses[request_id].with(
                MessageContentView::ToolResponse { id: request_id, tool_result, metadata },
            ),
        )
    } else {
        responses
    }
}

/// A tool response goes to the end of the message that answers its request, as
/// it is. No other message changes, and where none answers the request, nothing
/// does.
pub proof fn law_response_is_added_to_its_request(
    responses: Map<Seq<char>, MessageView>,
    request_id: Seq<char>,
    tool_result: Result<ToolOutputView, rmcp::model::ErrorData>,
    metadata: Option<JsonEntries>,
    id: Seq<char>,
)
    ensures
        ({
            let after = with_response(responses, request_id, tool_result, metadata);
            &&& after.dom() == responses.dom()
            &&& id != request_id ==> after[id] == responses[id]
            &&& responses.contains_key(request_id) ==> {
                &&& after[request_id].role == responses[request_id].role
                &&& after[request_id].visibility == responses[request_id].visibility
                &&& after[request_id].content.len() == responses[request_id].content.len() + 1
                &&& after[request_id].content.drop_last() == responses[request_id].content
                &&& after[request_id].content.last() == (MessageContentView::ToolResponse {
                    id: request_id,
                    tool_result,
                    metadata,
                })
            }
        }),
{
    let after = with_response(responses, request_id, tool_result, metadata);
    assert(after.dom() =~= responses.dom());
    if responses.contains_key(request_id) {
        assert(after[request_id].content.drop_last() =~= responses[request_id].content);
    }
}

proof fn lemma_entry_map_at(entries: Seq<(String, Message)>, i: int, id: Seq<char>)
    requires
        0 <= i < entries.len(),
        entries[i].0@ == id,
        forall|j: int| i < j < entries.len() ==> (#[trigger] entries[j]).0@ != id,
    ensures
        entry_map(entries).contains_key(id),
        entry_map(entries)[id] == entries[i].1@,
    decreases entries.len(),
{
    if i < entries.len() - 1 {
        assert(entries[entries.len() - 1].0@ != id);
        assert forall|j: int| i < j < entries.drop_last().len() implies (
        #[trigger] entries.drop_last()[j]).0@ != id by {
            assert(entries.drop_last()[j] == entries[j]);
        }
        lemma_entry_map_at(entries.drop_last(), i, id);
    }
}

proof fn lemma_entry_map_without(entries: Seq<(String, Message)>, id: Seq<char>)
    requires
        forall|j: int| 0 <= j < entries.len() ==> (#[trigger] entries[j]).0@ != id,
    ensures
        !entry_map(entries).contains_key(id),
    decreases entries.len(),
{
    if entries.len() > 0 {
        assert(entries[entries.len() - 1].0@ != id);
        assert forall|j: int| 0 <= j < entries.drop_last().len() implies (
        #[trigger] entries.drop_last()[j]).0@ != id by {
            assert(entries.drop_last()[j] == entries[j]);
        }
        lemma_entry_map_without(entries.drop_last(), id);
    }
}

proof fn lemma_entry_map_update(entries: Seq<(String, Message)>, i: int, entry: (String, Message))
    requires
        0 <= i < entries.len(),
        entries[i].0@ == entry.0@,
        forall|j: int| i < j < entries.len() ==> (#[trigger] entries[j]).0@ != entry.0@,
    ensures
        entry_map(entries.update(i, entry)) == entry_map(entries).insert(entry.0@, entry.1@),
    decreases entries.len(),
{
    let updated = entries.update(i, entry);
    if i == entries.len() - 1 {
        assert(updated.drop_last() =~= entries.drop_last());
        assert(entry_map(updated) =~= entry_map(entries).insert(entry.0@, entry.1@));
    } else {
        assert(entries[entries.len() - 1].0@ != entry.0@);
        assert forall|j: int| i < j < entries.drop_last().len() implies (
        #[trigger] entries.drop_last()[j]).0@ != entry.0@ by {
            assert(entries.drop_last()[j] == entries[j]);
        }
        lemma_entry_map_update(entries.drop_last(), i, entry);
        assert(updated.drop_last() =~= entries.drop_last().update(i, entry));
        assert(entry_map(updated) =~= entry_map(entries).insert(entry.0@, entry.1@));
    }
}

impl ResponseMap {
    /// No responses at all.
    pub fn new() -> (responses: ResponseMap)
        ensures
            responses@ == Map::<Seq<char>, MessageView>::empty(),
    {
        ResponseMap { entries: Vec::new() }
    }

    /// Where the message that answers the request is kept.
    fn position(&self, request_id: &str) -> (position: Option<usize>)
        ensures
            match position {
                Some(i) => {
                    &&& i < self.entries@.len()
                    &&& self.entries@[i as int].0@ == request_id@
                    &&& forall|j: int|
                        i < j < self.entries@.len() ==> (#[trigger] self.entries@[j]).0@
                            != request_id@
                    &&& self@.contains_key(request_id@)
                    &&& self@[request_id@] == self.entries@[i as int].1@
                },
                None => !self@.contains_key(request_id@),
            },
    {
        let wanted = request_id.to_owned();
        let mut i: usize = self.entries.len();
        while i > 0
            invariant
                i <= self.entries@.len(),
                wanted@ == request_id@,
                forall|j: int|
                    i <= j < self.entries@.len() ==> (#[trigger] self.entries@[j]).0@
                        != request_id@,
            decreases i,
        {
            i = i - 1;
            if self.entries[i].0 == wanted {
                proof {
                    lemma_entry_map_at(self.entries@, i as int, request_id@);
                }
                return Some(i);
            }
        }
        proof {
            lemma_entry_map_without(self.entries@, request_id@);
        }
        None
    }

    /// Lets a message answer the request, in place of any message before.
    pub fn insert(&mut self, request_id: String, message: Message)
        ensures
            final(self)@ == old(self)@.insert(request_id@, message@),
    {
        match self.position(request_id.as_str()) {
            Some(i) => {
                proof {
                    lemma_entry_map_update(self.entries@, i as int, (request_id, message));
                }
                self.entries[i] = (request_id, message);
            },
            None => {
                self.entries.push((request_id, message));
                assert(self.entries@.drop_last() =~= old(self).entries@);
            },
        }
    }

    /// The message that answers the request.
    pub fn get(&self, request_id: &str) -> (message: Option<&Message>)
        ensures
            match message {
                Some(message) => self@.contains_key(request_id@) && message@ == self@[request_id@],
                None => !self@.contains_key(request_id@),
            },
    {
        match self.position(request_id) {
            Some(i) => Some(&self.entries[i].1),
            None => None,
        }
    }

    /// Adds a tool response to the message that answers the request, if there
    /// is one.
    pub fn add_tool_response(
        &mut self,
        request_id: &String,
        tool_result: ToolResult<ToolOutput>,
        metadata: &Option<JsonObject>,
    )
        ensures
            final(self)@ == with_response(
                old(self)@,
                request_id@,
                conversation::result_view(tool_result),
                conversation::optional_entries(*metadata),
            ),
            final(self)@.dom() == old(self)@.dom(),
            forall|id: Seq<char>|
                id != request_id@ ==> (#[trigger] final(self)@[id]) == old(self)@[id],
            old(self)@.contains_key(request_id@) ==> {
                let before = old(self)@[request_id@];
                let after = final(self)@[request_id@];
                &&& after.role == before.role
                &&& after.visibility == before.visibility
                &&& after.content.len() == before.content.len() + 1
                &&& after.content.drop_last() == before.content
                &&& after.content.last() matches MessageContentView::ToolResponse {
                    id,
                    tool_result: kept,
                    metadata: entries,
                }
                &&& id == request_id@
                &&& match (tool_result, kept) {
                    (Ok(output), Ok(seen)) => seen == output@,
                    (Err(error), Err(seen)) => seen == error,
                    _ => false,
                }
                &&& entries is Some <==> metadata is Some
                &&& entries matches Some(entries) ==> entries == external::object_entries(
                    metadata->0,
                )
            },
    {
        proof {
            law_response_is_added_to_its_request(
                self@,
                request_id@,
                conversation::result_view(tool_result),
                conversation::optional_entries(*metadata),
                request_id@,
            );
        }

        if let Some(i) = self.position(request_id.as_str()) {
            self.entries[i].1.add_tool_response_with_metadata(
                request_id.clone(),
                tool_result,
                metadata,
            );
            proof {
                lemma_entry_map_update(old(self).entries@, i as int, self.entries@[i as int]);
                assert(self.entries@ =~= old(self).entries@.update(
                    i as int,
                    self.entries@[i as int],
                ));
            }
        }
    }
}

} // verus!
