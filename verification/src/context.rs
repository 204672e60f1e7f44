//! What a tool call is told of its surroundings.

use std::path::PathBuf;

use rmcp::model::ServerNotification;
use tokio::sync::mpsc::Sender;
use vstd::prelude::*;

use crate::conversation;
use crate::external;
use crate::external::{clone_path, clone_sender, path_to_str, try_send};

verus! {

/// Lets a tool report while it runs.
pub struct ToolCallNotificationEmitter {
    sender: Sender<ServerNotification>,
}

impl ToolCallNotificationEmitter {
    /// The channel that takes the notifications.
    pub closed spec fn sender(self) -> Sender<ServerNotification> {
        self.sender
    }

    /// Reports through the given channel.
    pub fn new(sender: Sender<ServerNotification>) -> (emitter: ToolCallNotificationEmitter)
        ensures
            emitter.sender() == sender,
    {
        ToolCallNotificationEmitter { sender }
    }

    /// Reports without waiting. A notification that the channel does not take
    /// at once is lost: a slow consumer must not delay the tool.
    pub fn emit_best_effort(&self, notification: ServerNotification)
        ensures
            exists|sent: bool| #[trigger]
                external::was_offered(self.sender(), notification, sent),
    {
        let sent = try_send(&self.sender, notification);
        proof {
            external::law_offer_is_what_the_channel_was_handed(self.sender, notification, sent);
            assert(external::was_offered(self.sender(), notification, sent));
        }
    }
}

impl Clone for ToolCallNotificationEmitter {
    fn clone(&self) -> (copy: ToolCallNotificationEmitter)
        ensures
            copy.sender() == self.sender(),
    {
        ToolCallNotificationEmitter { sender: clone_sender(&self.sender) }
    }
}

/// Context passed through the tool call dispatch chain.
pub struct ToolCallContext {
    pub session_id: String,
    pub working_dir: Option<PathBuf>,
    pub tool_call_request_id: Option<String>,
    notification_emitter: Option<ToolCallNotificationEmitter>,
}

/// What a [`ToolCallContext`] holds.
pub struct ToolCallContextView {
    pub session_id: Seq<char>,
    pub working_dir: Option<PathBuf>,
    pub tool_call_request_id: Option<Seq<char>>,
    pub notification_emitter: Option<ToolCallNotificationEmitter>,
}

impl View for ToolCallContext {
    type V = ToolCallContextView;

    closed spec fn view(&self) -> ToolCallContextView {
        ToolCallContextView {
            session_id: self.session_id@,
            working_dir: self.working_dir,
            tool_call_request_id: conversation::optional_text(self.tool_call_request_id),
            notification_emitter: self.notification_emitter,
        }
    }
}

/// What a context is taken to hold is what its fields hold.
proof fn law_context_is_seen_in_full(context: ToolCallContext)
    ensures
        context@.session_id == context.session_id@,
        context@.working_dir == context.working_dir,
        context@.tool_call_request_id is Some <==> context.tool_call_request_id is Some,
        context@.tool_call_request_id matches Some(request_id) ==> request_id
            == context.tool_call_request_id->0@,
        context@.notification_emitter == context.notification_emitter,
{
}

impl Clone for ToolCallContext {
    fn clone(&self) -> (copy: ToolCallContext)
        ensures
            copy@ == self@,
    {
        ToolCallContext {
            session_id: self.session_id.clone(),
            working_dir: match &self.working_dir {
                Some(path) => Some(clone_path(path)),
                None => None,
            },
            tool_call_request_id: match &self.tool_call_request_id {
                Some(request_id) => Some(request_id.clone()),
                None => None,
            },
            notification_emitter: match &self.notification_emitter {
                Some(emitter) => Some(emitter.clone()),
                None => None,
            },
        }
    }
}

impl ToolCallContext {
    /// The context of a call that does not report while it runs.
    pub fn new(
        session_id: String,
        working_dir: Option<PathBuf>,
        tool_call_request_id: Option<String>,
    ) -> (context: ToolCallContext)
        ensures
            context@ == (ToolCallContextView {
                session_id: session_id@,
                working_dir,
                tool_call_request_id: conversation::optional_text(tool_call_request_id),
                notification_emitter: None,
            }),
    {
        ToolCallContext { session_id, working_dir, tool_call_request_id, notification_emitter: None }
    }

    /// The working directory, if there is one and it is valid Unicode.
    pub fn working_dir_str(&self) -> (text: Option<&str>)
        ensures
            match text {
                Some(text) => self@.working_dir matches Some(path) && external::path_text(path)
                    == Some(text@),
                None => self@.working_dir matches Some(path) ==> external::path_text(path) is None,
            },
    {
        match &self.working_dir {
            Some(path) => path_to_str(path),
            None => None,
        }
    }

    /// Lets the tool report through the given emitter.
    pub fn with_notification_emitter(
        self,
        notification_emitter: ToolCallNotificationEmitter,
    ) -> (context: ToolCallContext)
        ensures
            context@ == (ToolCallContextView {
                notification_emitter: Some(notification_emitter),
                ..self@
            }),
    {
        let mut context = self;
        context.notification_emitter = Some(notification_emitter);
        context
    }

    /// What the tool reports through.
    pub fn notification_emitter(&self) -> (emitter: Option<&ToolCallNotificationEmitter>)
        ensures
            match emitter {
                Some(emitter) => self@.notification_emitter == Some(*emitter),
                None => self@.notification_emitter is None,
            },
    {
        self.notification_emitter.as_ref()
    }
}

} // verus!
