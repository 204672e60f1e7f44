//! Tool requests, tool outputs and the messages that carry them.

use vstd::prelude::*;

use crate::external;
use crate::external::{
    arguments_of_params, clone_object, clone_params, empty_object, name_of_params,
};

verus! {

/// A JSON object, as tool arguments and provider metadata are given.
pub type JsonObject = serde_json::Map<String, serde_json::Value>;

/// The outcome of a tool-level operation.
pub type ToolResult<T> = Result<T, rmcp::model::ErrorData>;

/// The entries of a JSON object, each value as its JSON text.
pub type JsonEntries = Map<Seq<char>, Seq<char>>;

/// The entries of an optional JSON object.
pub open spec fn optional_entries(object: Option<JsonObject>) -> Option<JsonEntries> {
    match object {
        Some(object) => Some(external::object_entries(object)),
        None => None,
    }
}

/// The characters of an optional text.
pub open spec fn optional_text(text: Option<String>) -> Option<Seq<char>> {
    match text {
        Some(text) => Some(text@),
        None => None,
    }
}

/// A call that the model asks for.
pub struct ToolCall {
    /// The call as it arrived, for the tool that serves it.
    pub params: rmcp::model::CallToolRequestParams,
}

/// What a [`ToolCall`] holds.
pub struct ToolCallView {
    /// The tool to call.
    pub name: Seq<char>,
    /// The arguments of the call.
    pub arguments: Option<JsonEntries>,
    /// The call as it arrived.
    pub params: rmcp::model::CallToolRequestParams,
}

impl View for ToolCall {
    type V = ToolCallView;

    open spec fn view(&self) -> ToolCallView {
        ToolCallView {
            name: external::params_name(self.params),
            arguments: external::params_arguments(self.params),
            params: self.params,
        }
    }
}

/// Copies an optional JSON object.
pub fn clone_optional_object(object: &Option<JsonObject>) -> (copy: Option<JsonObject>)
    ensures
        optional_entries(copy) == optional_entries(*object),
        copy is Some <==> object is Some,
        copy matches Some(copied) ==> external::object_entries(copied) == external::object_entries(
            object->0,
        ),
{
    match object {
        Some(object) => Some(clone_object(object)),
        None => None,
    }
}

impl ToolCall {
    /// The call that the parameters of a request ask for.
    pub fn from_params(params: rmcp::model::CallToolRequestParams) -> (call: ToolCall)
        ensures
            call@.name == external::params_name(params),
            call@.arguments == external::params_arguments(params),
            call@.params == params,
            call.params == params,
    {
        ToolCall { params }
    }

    /// The tool to call.
    pub fn name(&self) -> (name: &str)
        ensures
            name@ == self@.name,
            name@ == external::params_name(self.params),
    {
        name_of_params(&self.params)
    }

    /// Copies the call.
    pub fn duplicate(&self) -> (copy: ToolCall)
        ensures
            copy@ == self@,
            copy.params == self.params,
    {
        ToolCall { params: clone_params(&self.params) }
    }

    /// The arguments of the call; none at all count as an empty object.
    pub open spec fn argument_entries(call: ToolCallView) -> JsonEntries {
        match call.arguments {
            Some(entries) => entries,
            None => Map::empty(),
        }
    }

    /// Copies the arguments of the call; none at all count as an empty object.
    pub fn arguments_or_default(&self) -> (arguments: JsonObject)
        ensures
            external::object_entries(arguments) == ToolCall::argument_entries(self@),
            match external::params_arguments(self.params) {
                Some(entries) => external::object_entries(arguments) == entries,
                None => external::object_entries(arguments) == JsonEntries::empty(),
            },
    {
        match arguments_of_params(&self.params) {
            Some(arguments) => clone_object(arguments),
            None => empty_object(),
        }
    }
}

/// A tool request of the model, as its provider handed it over.
pub struct ToolRequest {
    /// Identifies the request within its turn.
    pub id: String,
    /// The requested call, or why the request could not be understood.
    pub tool_call: ToolResult<ToolCall>,
    /// What the provider wants back with the response.
    pub metadata: Option<JsonObject>,
    /// What the provider says of the tool.
    pub tool_meta: Option<serde_json::Value>,
}

/// What a [`ToolRequest`] holds.
pub struct ToolRequestView {
    pub id: Seq<char>,
    pub tool_call: Result<ToolCallView, rmcp::model::ErrorData>,
    pub metadata: Option<JsonEntries>,
    pub tool_meta: Option<serde_json::Value>,
}

impl View for ToolRequest {
    type V = ToolRequestView;

    open spec fn view(&self) -> ToolRequestView {
        ToolRequestView {
            id: self.id@,
            tool_call: match self.tool_call {
                Ok(call) => Ok(call@),
                Err(error) => Err(error),
            },
            metadata: optional_entries(self.metadata),
            tool_meta: self.tool_meta,
        }
    }
}

/// What each request of a list holds.
pub open spec fn request_views(requests: Seq<ToolRequest>) -> Seq<ToolRequestView> {
    requests.map_values(|request: ToolRequest| request@)
}

/// A part of a tool output.
pub enum OutputBlock {
    /// Plain text.
    Text(String),
    /// Anything else.
    Other(rmcp::model::ContentBlock),
}

/// What an [`OutputBlock`] holds.
pub enum OutputBlockView {
    Text(Seq<char>),
    Other(rmcp::model::ContentBlock),
}

impl View for OutputBlock {
    type V = OutputBlockView;

    open spec fn view(&self) -> OutputBlockView {
        match self {
            OutputBlock::Text(text) => OutputBlockView::Text(text@),
            OutputBlock::Other(block) => OutputBlockView::Other(*block),
        }
    }
}

/// What a tool call came to.
pub enum ToolOutput {
    /// The output of a tool, passed on as it came.
    Reported(rmcp::model::CallToolResult),
    /// An output that stands in for that of a tool that did not run.
    Composed { content: Vec<OutputBlock>, is_error: Option<bool> },
}

/// What a [`ToolOutput`] holds.
pub enum ToolOutputView {
    Reported(rmcp::model::CallToolResult),
    Composed { content: Seq<OutputBlockView>, is_error: Option<bool> },
}

impl View for ToolOutput {
    type V = ToolOutputView;

    open spec fn view(&self) -> ToolOutputView {
        match self {
            ToolOutput::Reported(result) => ToolOutputView::Reported(*result),
            ToolOutput::Composed { content, is_error } => ToolOutputView::Composed {
                content: content@.map_values(|block: OutputBlock| block@),
                is_error: *is_error,
            },
        }
    }
}

/// The error output that says `text`.
pub open spec fn error_output_view(text: Seq<char>) -> ToolOutputView {
    ToolOutputView::Composed {
        content: seq![OutputBlockView::Text(text)],
        is_error: Some(true),
    }
}

/// What the outcome of a tool call holds.
pub open spec fn result_view(result: ToolResult<ToolOutput>) -> Result<
    ToolOutputView,
    rmcp::model::ErrorData,
> {
    match result {
        Ok(output) => Ok(output@),
        Err(error) => Err(error),
    }
}

/// Who a message is from.
#[derive(Clone, Copy, Debug, PartialEq, Eq, Structural)]
pub enum Role {
    User,
    Assistant,
}

/// Who gets to see a message.
#[derive(Clone, Copy, Debug, PartialEq, Eq, Structural)]
pub struct Visibility {
    pub user_visible: bool,
    pub agent_visible: bool,
}

/// The question whether a tool may run.
pub struct ToolConfirmation {
    /// The key under which the answer is awaited.
    pub id: String,
    pub tool_name: String,
    pub arguments: JsonObject,
    /// What an inspection has to say of the call.
    pub prompt: Option<String>,
}

/// A call that the frontend is to perform.
pub struct FrontendToolRequest {
    pub id: String,
    pub tool_call: ToolResult<ToolCall>,
}

/// The answer to a tool request.
pub struct ToolResponse {
    pub id: String,
    pub tool_result: ToolResult<ToolOutput>,
    pub metadata: Option<JsonObject>,
}

/// A part of a message.
pub enum MessageContent {
    Text(String),
    ActionRequired(ToolConfirmation),
    FrontendToolRequest(FrontendToolRequest),
    ToolResponse(ToolResponse),
}

/// What a [`MessageContent`] holds.
pub enum MessageContentView {
    Text(Seq<char>),
    ActionRequired {
        id: Seq<char>,
        tool_name: Seq<char>,
        arguments: JsonEntries,
        prompt: Option<Seq<char>>,
    },
    FrontendToolRequest { id: Seq<char>, tool_call: Result<ToolCallView, rmcp::model::ErrorData> },
    ToolResponse {
        id: Seq<char>,
        tool_result: Result<ToolOutputView, rmcp::model::ErrorData>,
        metadata: Option<JsonEntries>,
    },
}

impl View for MessageContent {
    type V = MessageContentView;

    open spec fn view(&self) -> MessageContentView {
        match self {
            MessageContent::Text(text) => MessageContentView::Text(text@),
            MessageContent::ActionRequired(confirmation) => MessageContentView::ActionRequired {
                id: confirmation.id@,
                tool_name: confirmation.tool_name@,
                arguments: external::object_entries(confirmation.arguments),
                prompt: optional_text(confirmation.prompt),
            },
            MessageContent::FrontendToolRequest(request) => MessageContentView::FrontendToolRequest {
                id: request.id@,
                tool_call: match request.tool_call {
                    Ok(call) => Ok(call@),
                    Err(error) => Err(error),
                },
            },
            MessageContent::ToolResponse(response) => MessageContentView::ToolResponse {
                id: response.id@,
                tool_result: result_view(response.tool_result),
                metadata: optional_entries(response.metadata),
            },
        }
    }
}

/// A message of a conversation.
pub struct Message {
    pub role: Role,
    pub visibility: Visibility,
    pub content: Vec<MessageContent>,
}

/// What a [`Message`] holds.
pub struct MessageView {
    pub role: Role,
    pub visibility: Visibility,
    pub content: Seq<MessageContentView>,
}

impl View for Message {
    type V = MessageView;

    open spec fn view(&self) -> MessageView {
        MessageView {
            role: self.role,
            visibility: self.visibility,
            content: self.content@.map_values(|part: MessageContent| part@),
        }
    }
}

impl MessageView {
    /// The message with one more part at its end.
    pub open spec fn with(self, part: MessageContentView) -> MessageView {
        MessageView { content: self.content.push(part), ..self }
    }

    /// A message of the given role that everyone sees and that says nothing.
    pub open spec fn empty(role: Role) -> MessageView {
        MessageView {
            role,
            visibility: Visibility { user_visible: true, agent_visible: true },
            content: Seq::empty(),
        }
    }
}

impl Message {
    /// An empty message of the assistant.
    pub fn assistant() -> (message: Message)
        ensures
            message@ == MessageView::empty(Role::Assistant),
            message.role == Role::Assistant,
            message.visibility == (Visibility { user_visible: true, agent_visible: true }),
            message.content@.len() == 0,
    {
        let message = Message {
            role: Role::Assistant,
            visibility: Visibility { user_visible: true, agent_visible: true },
            content: Vec::new(),
        };
        assert(message@.content =~= Seq::empty());
        message
    }

    /// An empty message of the user.
    pub fn user() -> (message: Message)
        ensures
            message@ == MessageView::empty(Role::User),
            message.role == Role::User,
            message.visibility == (Visibility { user_visible: true, agent_visible: true }),
            message.content@.len() == 0,
    {
        let message = Message {
            role: Role::User,
            visibility: Visibility { user_visible: true, agent_visible: true },
            content: Vec::new(),
        };
        assert(message@.content =~= Seq::empty());
        message
    }

    /// Adds a part at the end of the message.
    pub fn add_content(&mut self, part: MessageContent)
        ensures
            final(self)@ == old(self)@.with(part@),
            final(self).role == old(self).role,
            final(self).visibility == old(self).visibility,
            final(self).content@ == old(self).content@.push(part),
    {
        self.content.push(part);
        assert(self@.content =~= old(self)@.content.push(part@));
    }

    /// Adds the question whether a tool may run.
    pub fn with_action_required(
        self,
        id: String,
        tool_name: String,
        arguments: JsonObject,
        prompt: Option<String>,
    ) -> (message: Message)
        ensures
            message@ == self@.with(
                (MessageContentView::ActionRequired {
                    id: id@,
                    tool_name: tool_name@,
                    arguments: external::object_entries(arguments),
                    prompt: optional_text(prompt),
                }),
            ),
            message.role == self.role,
            message.visibility == self.visibility,
            message.content@ == self.content@.push(
                (MessageContent::ActionRequired(
                    (ToolConfirmation { id, tool_name, arguments, prompt }),
                )),
            ),
    {
        let mut message = self;
        message.add_content(
            MessageContent::ActionRequired(ToolConfirmation { id, tool_name, arguments, prompt }),
        );
        message
    }

    /// Adds a call that the frontend is to perform.
    pub fn with_frontend_tool_request(
        self,
        id: String,
        tool_call: ToolResult<ToolCall>,
    ) -> (message: Message)
        ensures
            message@ == self@.with(
                (MessageContentView::FrontendToolRequest {
                    id: id@,
                    tool_call: match tool_call {
                        Ok(call) => Ok(call@),
                        Err(error) => Err(error),
                    },
                }),
            ),
            message.role == self.role,
            message.visibility == self.visibility,
            message.content@ == self.content@.push(
                (MessageContent::FrontendToolRequest((FrontendToolRequest { id, tool_call }))),
            ),
    {
        let mut message = self;
        message.add_content(
            MessageContent::FrontendToolRequest(FrontendToolRequest { id, tool_call }),
        );
        message
    }

    /// Hides the message from the agent.
    pub fn user_only(self) -> (message: Message)
        ensures
            message@ == (MessageView {
                visibility: Visibility { user_visible: true, agent_visible: false },
                ..self@
            }),
            message.role == self.role,
            message.visibility == (Visibility { user_visible: true, agent_visible: false }),
            message.content@ == self.content@,
    {
        let mut message = self;
        message.visibility = Visibility { user_visible: true, agent_visible: false };
        message
    }

    /// Adds the answer to a tool request, with the metadata of that request.
    pub fn add_tool_response_with_metadata(
        &mut self,
        id: String,
        tool_result: ToolResult<ToolOutput>,
        metadata: &Option<JsonObject>,
    )
        ensures
            final(self)@ == old(self)@.with(
                (MessageContentView::ToolResponse {
                    id: id@,
                    tool_result: result_view(tool_result),
                    metadata: optional_entries(*metadata),
                }),
            ),
            final(self).role == old(self).role,
            final(self).visibility == old(self).visibility,
            final(self).content@.len() == old(self).content@.len() + 1,
            final(self).content@.drop_last() == old(self).content@,
            final(self).content@.last() matches MessageContent::ToolResponse(response) && {
                &&& response.id == id
                &&& response.tool_result == tool_result
                &&& response.metadata is Some <==> metadata is Some
                &&& response.metadata matches Some(copied) ==> external::object_entries(copied)
                    == external::object_entries(metadata->0)
            },
    {
        let metadata = clone_optional_object(metadata);
        self.add_content(MessageContent::ToolResponse(ToolResponse { id, tool_result, metadata }));
        assert(self.content@.drop_last() =~= old(self).content@);
    }
}

/// What a message is taken to hold is all that it holds: its role, who sees it,
/// and each of its parts with everything in it, in order and none twice.
pub proof fn law_message_is_seen_in_full(message: Message, i: int)
    ensures
        message@.role == message.role,
        message@.visibility == message.visibility,
        message@.content.len() == message.content@.len(),
        0 <= i < message.content@.len() ==> match message.content@[i] {
            MessageContent::Text(text) => message@.content[i] == (MessageContentView::Text(text@)),
            MessageContent::ActionRequired(question) => {
                &&& message@.content[i] matches MessageContentView::ActionRequired {
                    id,
                    tool_name,
                    arguments,
                    prompt,
                }
                &&& id == question.id@
                &&& tool_name == question.tool_name@
                &&& arguments == external::object_entries(question.arguments)
                &&& prompt is Some <==> question.prompt is Some
                &&& prompt matches Some(text) ==> text == question.prompt->0@
            },
            MessageContent::FrontendToolRequest(request) => {
                &&& message@.content[i] matches MessageContentView::FrontendToolRequest {
                    id,
                    tool_call,
                }
                &&& id == request.id@
                &&& match (tool_call, request.tool_call) {
                    (Ok(seen), Ok(call)) => seen.params == call.params,
                    (Err(seen), Err(error)) => seen == error,
                    _ => false,
                }
            },
            MessageContent::ToolResponse(response) => {
                &&& message@.content[i] matches MessageContentView::ToolResponse {
                    id,
                    tool_result,
                    metadata,
                }
                &&& id == response.id@
                &&& match (tool_result, response.tool_result) {
                    (Ok(seen), Ok(output)) => seen == output@,
                    (Err(seen), Err(error)) => seen == error,
                    _ => false,
                }
                &&& metadata is Some <==> response.metadata is Some
                &&& metadata matches Some(entries) ==> entries == external::object_entries(
                    response.metadata->0,
                )
            },
        },
{
}

/// What an output is taken to hold is all that it holds.
pub proof fn law_output_is_seen_in_full(output: ToolOutput, i: int)
    ensures
        match (output, output@) {
            (ToolOutput::Reported(result), ToolOutputView::Reported(seen)) => seen == result,
            (
                ToolOutput::Composed { content, is_error },
                ToolOutputView::Composed { content: blocks, is_error: marked },
            ) => {
                &&& marked == is_error
                &&& blocks.len() == content@.len()
                &&& 0 <= i < blocks.len() ==> match (content@[i], blocks[i]) {
                    (OutputBlock::Text(text), OutputBlockView::Text(seen)) => seen == text@,
                    (OutputBlock::Other(block), OutputBlockView::Other(seen)) => seen == block,
                    _ => false,
                }
            },
            _ => false,
        },
{
}

/// An error output says its text, once and nothing else, and is marked as an
/// error.
pub proof fn law_error_output_says_its_text(text: Seq<char>)
    ensures
        error_output_view(text) matches ToolOutputView::Composed { content, is_error } && {
            &&& is_error == Some(true)
            &&& content.len() == 1
            &&& content[0] == OutputBlockView::Text(text)
        },
{
}

/// What a request is taken to ask for is what it asks for: a call that was
/// understood is seen with its name, its arguments and its parameters.
pub proof fn law_request_is_seen_in_full(requests: Seq<ToolRequest>, i: int)
    requires
        0 <= i < requests.len(),
    ensures
        request_views(requests).len() == requests.len(),
        request_views(requests)[i].id == requests[i].id@,
        match (request_views(requests)[i].tool_call, requests[i].tool_call) {
            (Ok(seen), Ok(call)) => {
                &&& seen.params == call.params
                &&& seen.name == external::params_name(call.params)
                &&& seen.arguments == external::params_arguments(call.params)
            },
            (Err(seen), Err(error)) => seen == error,
            _ => false,
        },
        request_views(requests)[i].metadata is Some <==> requests[i].metadata is Some,
        request_views(requests)[i].metadata matches Some(entries) ==> entries
            == external::object_entries(requests[i].metadata->0),
{
}

} // verus!
