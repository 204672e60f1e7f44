//! The functions of outside crates that the library calls.
//!
//! Nothing in this module is proved: each contract is what the outside function
//! is taken to do.

use vstd::prelude::*;

use crate::conversation;
use crate::conversation::{JsonEntries, JsonObject, OutputBlock, ToolOutput};

verus! {

/// What a `serde_json::Map` holds: each key with the JSON text of its value.
pub uninterp spec fn object_entries(object: serde_json::Map<String, serde_json::Value>) -> Map<
    Seq<char>,
    Seq<char>,
>;

/// `serde_json::Map::new`: the new object holds nothing.
#[verifier::external_body]
pub(crate) fn empty_object() -> (object: JsonObject)
    ensures
        object_entries(object) == JsonEntries::empty(),
{
    serde_json::Map::new()
}

/// `serde_json::Map::clone`: the copy holds what the object holds.
#[verifier::external_body]
pub(crate) fn clone_object(object: &JsonObject) -> (copy: JsonObject)
    ensures
        object_entries(copy) == object_entries(*object),
{
    object.clone()
}

/// The tool that a call names: `rmcp::model::CallToolRequestParams::name`.
pub uninterp spec fn params_name(params: rmcp::model::CallToolRequestParams) -> Seq<char>;

/// Reads `rmcp::model::CallToolRequestParams::name`: the same parameters always
/// name the same tool.
#[verifier::external_body]
pub(crate) fn name_of_params(params: &rmcp::model::CallToolRequestParams) -> (name: &str)
    ensures
        name@ == params_name(*params),
{
    &params.name
}

/// What the arguments of a call hold:
/// `rmcp::model::CallToolRequestParams::arguments`.
pub uninterp spec fn params_arguments(params: rmcp::model::CallToolRequestParams) -> Option<
    Map<Seq<char>, Seq<char>>,
>;

/// Reads `rmcp::model::CallToolRequestParams::arguments`: the same parameters
/// always hold the same arguments, or none.
#[verifier::external_body]
pub(crate) fn arguments_of_params(params: &rmcp::model::CallToolRequestParams) -> (arguments:
    Option<&JsonObject>)
    ensures
        arguments is Some <==> params_arguments(*params) is Some,
        arguments matches Some(object) ==> Some(object_entries(*object)) == params_arguments(
            *params,
        ),
{
    params.arguments.as_ref()
}

/// `rmcp::model::CallToolRequestParams::clone`, which is derived: the copy is
/// the same request in every field.
#[verifier::external_body]
pub(crate) fn clone_params(params: &rmcp::model::CallToolRequestParams) -> (copy:
    rmcp::model::CallToolRequestParams)
    ensures
        copy == *params,
{
    params.clone()
}

/// `rmcp::model::CallToolResult::error` on the one block that
/// `rmcp::model::ContentBlock::text` makes of `text`: an output that is marked
/// as an error and whose only content is that text. What else the result holds
/// is the same for all texts, and is left out.
#[verifier::external_body]
pub(crate) fn error_output(text: String) -> (output: ToolOutput)
    ensures
        output@ == conversation::error_output_view(text@),
{
    let block = rmcp::model::ContentBlock::text(text);
    let result = rmcp::model::CallToolResult::error(vec![block]);
    ToolOutput::Composed {
        content: result.content.into_iter().map(|block| match block {
            rmcp::model::ContentBlock::Text(block) => OutputBlock::Text(block.text),
            block => OutputBlock::Other(block),
        }).collect(),
        is_error: result.is_error,
    }
}

/// `tokio_util::sync::CancellationToken::is_cancelled`. The answer depends on
/// when it is asked, so nothing is claimed of it.
#[verifier::external_body]
pub(crate) fn is_cancelled(token: &tokio_util::sync::CancellationToken) -> (cancelled: bool) {
    token.is_cancelled()
}

/// Whether the token was asked whether it is cancelled, and gave this answer.
/// Nothing but the call itself shows that.
pub closed spec fn was_reported(
    token: tokio_util::sync::CancellationToken,
    cancelled: bool,
) -> bool {
    call_ensures(is_cancelled, (&token,), cancelled)
}

/// What counts as the report of a token is what `is_cancelled` has returned for
/// that very token, and nothing else.
pub(crate) proof fn law_report_is_what_the_token_answered(
    token: tokio_util::sync::CancellationToken,
    cancelled: bool,
)
    ensures
        was_reported(token, cancelled) <==> call_ensures(is_cancelled, (&token,), cancelled),
{
}

/// `tokio::sync::mpsc::Sender::try_send`, which never waits. Whether the
/// notification was taken depends on the receiving side, so nothing is claimed
/// of the answer.
#[verifier::external_body]
pub(crate) fn try_send(
    sender: &tokio::sync::mpsc::Sender<rmcp::model::ServerNotification>,
    notification: rmcp::model::ServerNotification,
) -> (sent: bool) {
    sender.try_send(notification).is_ok()
}

/// Whether the notification was handed to the channel of the sender, which took
/// it or not. Nothing but the call itself shows that.
pub closed spec fn was_offered(
    sender: tokio::sync::mpsc::Sender<rmcp::model::ServerNotification>,
    notification: rmcp::model::ServerNotification,
    sent: bool,
) -> bool {
    call_ensures(try_send, (&sender, notification), sent)
}

/// What counts as offered is what `try_send` was called with, and nothing else.
pub(crate) proof fn law_offer_is_what_the_channel_was_handed(
    sender: tokio::sync::mpsc::Sender<rmcp::model::ServerNotification>,
    notification: rmcp::model::ServerNotification,
    sent: bool,
)
    ensures
        was_offered(sender, notification, sent) <==> call_ensures(
            try_send,
            (&sender, notification),
            sent,
        ),
{
}

/// `tokio::sync::mpsc::Sender::clone`: the copy sends into the same channel, so
/// it stands for the same sender.
#[verifier::external_body]
pub(crate) fn clone_sender(
    sender: &tokio::sync::mpsc::Sender<rmcp::model::ServerNotification>,
) -> (copy: tokio::sync::mpsc::Sender<rmcp::model::ServerNotification>)
    ensures
        copy == *sender,
{
    sender.clone()
}

/// `std::path::PathBuf::clone`: the copy is the same path.
#[verifier::external_body]
pub(crate) fn clone_path(path: &std::path::PathBuf) -> (copy: std::path::PathBuf)
    ensures
        copy == *path,
{
    path.clone()
}

/// `std::fmt::Formatter::debug_set`, with the names as its entries: they are
/// written as a set in braces. What comes of it depends on what is written to,
/// so nothing is claimed of the answer.
#[verifier::external_body]
pub(crate) fn write_set(formatter: &mut std::fmt::Formatter<'_>, names: &Vec<String>) -> (written:
    Result<(), std::fmt::Error>) {
    formatter.debug_set().entries(names.iter()).finish()
}

/// What a path holds, where that is valid Unicode.
pub uninterp spec fn path_text(path: std::path::PathBuf) -> Option<Seq<char>>;

/// `std::path::Path::to_str`: the path as text, where it is valid Unicode.
#[verifier::external_body]
pub(crate) fn path_to_str(path: &std::path::PathBuf) -> (text: Option<&str>)
    ensures
        text is Some <==> path_text(*path) is Some,
        text matches Some(text) ==> Some(text@) == path_text(*path),
{
    path.to_str()
}

} // verus!
