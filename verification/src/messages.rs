//! The backend's WebSocket text messages, as plain data. The boundary parses
//! the JSON frames and hands the library these values; the executor's state
//! machine consumes them.

use vstd::prelude::*;

verus! {

#[derive(Clone, Debug)]
pub struct StatusMessage {
    pub sid: Option<String>,
}

#[derive(Clone, Debug)]
pub struct ExecutionStartMessage {
    pub prompt_id: String,
    pub timestamp: usize,
}

#[derive(Clone, Debug)]
pub struct ExecutionCachedMessage {
    pub nodes: Vec<String>,
    pub prompt_id: String,
    pub timestamp: usize,
}

#[derive(Clone, Debug)]
pub struct ExecutingMessage {
    pub node: String,
    pub display_node: String,
    pub prompt_id: String,
}

#[derive(Clone, Debug)]
pub struct ProgressMessage {
    pub value: usize,
    pub max: usize,
    pub prompt_id: String,
    pub node: String,
}

#[derive(Clone, Debug)]
pub struct ExecutionSuccessMessage {
    pub prompt_id: String,
    pub timestamp: usize,
}

#[derive(Clone, Debug)]
pub struct ExecutionErrorMessage {
    pub prompt_id: String,
    pub timestamp: usize,
    pub node_id: String,
    pub node_type: String,
    pub exception_type: Option<String>,
    pub exception_message: Option<String>,
}

#[derive(Clone, Debug)]
#[non_exhaustive]
pub enum WorkflowMessage {
    Status(StatusMessage),
    ExecutionStart(ExecutionStartMessage),
    ExecutionCached(ExecutionCachedMessage),
    Executing(ExecutingMessage),
    Progress(ProgressMessage),
    ExecutionSuccess(ExecutionSuccessMessage),
    ExecutionError(ExecutionErrorMessage),
}

/// The part of a message the executor's transition function reads.
pub ghost enum MessageView {
    Status,
    ExecutionStart { prompt_id: Seq<char> },
    ExecutionCached { prompt_id: Seq<char> },
    Executing { prompt_id: Seq<char>, node: Seq<char> },
    Progress { prompt_id: Seq<char>, node: Seq<char>, value: usize, max: usize },
    ExecutionSuccess { prompt_id: Seq<char> },
    ExecutionError { prompt_id: Seq<char>, exception_message: Option<Seq<char>> },
}

impl View for WorkflowMessage {
    type V = MessageView;

    open spec fn view(&self) -> MessageView {
        match self {
            WorkflowMessage::Status(_) => MessageView::Status,
            WorkflowMessage::ExecutionStart(d) => MessageView::ExecutionStart {
                prompt_id: d.prompt_id@,
            },
            WorkflowMessage::ExecutionCached(d) => MessageView::ExecutionCached {
                prompt_id: d.prompt_id@,
            },
            WorkflowMessage::Executing(d) => MessageView::Executing {
                prompt_id: d.prompt_id@,
                node: d.node@,
            },
            WorkflowMessage::Progress(d) => MessageView::Progress {
                prompt_id: d.prompt_id@,
                node: d.node@,
                value: d.value,
                max: d.max,
            },
            WorkflowMessage::ExecutionSuccess(d) => MessageView::ExecutionSuccess {
                prompt_id: d.prompt_id@,
            },
            WorkflowMessage::ExecutionError(d) => MessageView::ExecutionError {
                prompt_id: d.prompt_id@,
                exception_message: match d.exception_message {
                    Some(ref m) => Some(m@),
                    None => None,
                },
            },
        }
    }
}

} // verus!
