//! The workflow task and the executor's message state machine: how a task's
//! result moves from `Pending` through `Running` to `Done` or `Error` as
//! WebSocket messages and binary frames arrive. Connecting, posting the graph
//! and reading frames happen outside the library; every decision is here.

use crate::messages::{MessageView, WorkflowMessage};
use crate::payload::WorkflowPayload;
use vstd::prelude::*;
use vstd::slice::{slice_subrange, slice_to_vec};

verus! {

/// Progress of a running workflow. The fraction shown to clients is
/// `progress_value / progress_max`; the two are kept as the backend sent them.
#[derive(Debug)]
pub struct WorkflowRunningResult {
    pub progress_value: usize,
    pub progress_max: usize,
    pub previews: Vec<Vec<u8>>,
}

/// Observable state of one workflow task.
#[derive(Debug)]
pub enum WorkflowResult {
    Pending(usize),
    Running(WorkflowRunningResult),
    Done(Vec<Vec<u8>>),
    Error(String),
}

/// Mathematical image of a [`WorkflowResult`].
pub ghost enum ResultView {
    Pending(usize),
    Running { value: usize, max: usize, previews: Seq<Seq<u8>> },
    Done(Seq<Seq<u8>>),
    Error(Seq<char>),
}

impl View for WorkflowResult {
    type V = ResultView;

    open spec fn view(&self) -> ResultView {
        match self {
            WorkflowResult::Pending(n) => ResultView::Pending(*n),
            WorkflowResult::Running(r) => ResultView::Running {
                value: r.progress_value,
                max: r.progress_max,
                previews: r.previews.deep_view(),
            },
            WorkflowResult::Done(v) => ResultView::Done(v.deep_view()),
            WorkflowResult::Error(s) => ResultView::Error(s@),
        }
    }
}

/// Position of a result on the lifecycle `Pending -> Running -> terminal`.
pub open spec fn result_rank(r: ResultView) -> int {
    match r {
        ResultView::Pending(_) => 0,
        ResultView::Running { .. } => 1,
        ResultView::Done(_) => 2,
        ResultView::Error(_) => 2,
    }
}

fn copy_bytes(v: &Vec<u8>) -> (r: Vec<u8>)
    ensures
        r@ == v@,
{
    slice_to_vec(v.as_slice())
}

fn copy_frames(v: &Vec<Vec<u8>>) -> (r: Vec<Vec<u8>>)
    ensures
        r.deep_view() == v.deep_view(),
{
    let mut r: Vec<Vec<u8>> = Vec::new();
    let n = v.len();
    let mut i: usize = 0;
    while i < n
        invariant
            0 <= i <= n,
            n == v@.len(),
            r@.len() == i,
            forall|j: int| 0 <= j < i ==> (#[trigger] r@[j])@ == v@[j]@,
        decreases n - i,
    {
        r.push(copy_bytes(&v[i]));
        i = i + 1;
    }
    proof {
        assert(r.deep_view() =~= v.deep_view());
    }
    r
}

/// What a poll of the result returns. The same value as the live result,
/// except that a finished task's artifacts are stripped: previews are public,
/// final artifacts are not.
pub fn preview(r: &WorkflowResult) -> (p: WorkflowResult)
    ensures
        r@ is Done ==> p@ == ResultView::Done(Seq::<Seq<u8>>::empty()),
        !(r@ is Done) ==> p@ == r@,
{
    match r {
        WorkflowResult::Pending(n) => WorkflowResult::Pending(*n),
        WorkflowResult::Running(rr) => {
            let copy = WorkflowRunningResult {
                progress_value: rr.progress_value,
                progress_max: rr.progress_max,
                previews: copy_frames(&rr.previews),
            };
            WorkflowResult::Running(copy)
        },
        WorkflowResult::Done(_) => {
            let empty: Vec<Vec<u8>> = Vec::new();
            proof {
                assert(empty.deep_view() =~= Seq::<Seq<u8>>::empty());
            }
            WorkflowResult::Done(empty)
        },
        WorkflowResult::Error(s) => WorkflowResult::Error(s.clone()),
    }
}

/// Copies a result value; the copy's view equals the original's.
pub fn copy_result(r: &WorkflowResult) -> (p: WorkflowResult)
    ensures
        p@ == r@,
{
    match r {
        WorkflowResult::Pending(n) => WorkflowResult::Pending(*n),
        WorkflowResult::Running(rr) => WorkflowResult::Running(
            WorkflowRunningResult {
                progress_value: rr.progress_value,
                progress_max: rr.progress_max,
                previews: copy_frames(&rr.previews),
            },
        ),
        WorkflowResult::Done(v) => WorkflowResult::Done(copy_frames(v)),
        WorkflowResult::Error(s) => WorkflowResult::Error(s.clone()),
    }
}

/// Mathematical image of a [`WorkflowTask`].
pub ghost struct TaskView {
    pub id: Seq<char>,
    pub payload: WorkflowPayload,
    pub result: ResultView,
}

/// One accepted workflow: its id, the payload it was admitted with, and the
/// last observed result.
#[derive(Debug)]
pub struct WorkflowTask {
    id: String,
    payload: WorkflowPayload,
    result: WorkflowResult,
}

impl View for WorkflowTask {
    type V = TaskView;

    closed spec fn view(&self) -> TaskView {
        TaskView { id: self.id@, payload: self.payload, result: self.result@ }
    }
}

impl WorkflowTask {
    /// A freshly admitted task: result `Pending(0)`.
    pub fn new(payload: WorkflowPayload, id: String) -> (r: Self)
        ensures
            r@ == (TaskView { id: id@, payload: payload, result: ResultView::Pending(0) }),
    {
        WorkflowTask { id, payload, result: WorkflowResult::Pending(0) }
    }

    pub fn id(&self) -> (r: &String)
        ensures
            r@ == self@.id,
    {
        &self.id
    }

    pub fn payload(&self) -> (r: &WorkflowPayload)
        ensures
            *r == self@.payload,
    {
        &self.payload
    }

    pub fn result(&self) -> (r: &WorkflowResult)
        ensures
            r@ == self@.result,
    {
        &self.result
    }

    pub fn set_result(&mut self, result: WorkflowResult)
        ensures
            final(self)@ == (TaskView {
                id: old(self)@.id,
                payload: old(self)@.payload,
                result: result@,
            }),
    {
        self.result = result;
    }
}

/// A built graph, ready to post: the graph JSON and the two node ids the
/// executor watches (the sampler for progress and previews, the output node
/// for artifacts).
#[derive(Clone, Debug)]
pub struct ComfyUIPrompt {
    pub prompt: String,
    pub k_sampler_node_id: String,
    pub output_node_id: String,
}

/// The reasons a run fails before or at the backend.
#[derive(Debug)]
pub enum WorkflowExecutionError {
    WebSocketConnectionError,
    ComfyUIError(String),
    InvalidResponse(String),
}

impl WorkflowExecutionError {
    /// The human-readable description of this error.
    pub fn message(&self) -> (r: String)
        ensures
            self matches WorkflowExecutionError::WebSocketConnectionError ==> r@
                == "failed to connect to node using websocket"@,
            self matches WorkflowExecutionError::ComfyUIError(m) ==> r@ == "ComfyUI error: "@
                + m@,
            self matches WorkflowExecutionError::InvalidResponse(m) ==> r@
                == "Invalid response: "@ + m@,
    {
        match self {
            WorkflowExecutionError::WebSocketConnectionError => String::from_str(
                "failed to connect to node using websocket",
            ),
            WorkflowExecutionError::ComfyUIError(m) => String::from_str("ComfyUI error: ").concat(
                m.as_str(),
            ),
            WorkflowExecutionError::InvalidResponse(m) => String::from_str(
                "Invalid response: ",
            ).concat(m.as_str()),
        }
    }
}

/// Mathematical image of a [`TaskExecutor`].
pub ghost struct ExecutorView {
    pub sampler: Seq<char>,
    pub output: Seq<char>,
    pub task: Seq<char>,
    pub prompt: Seq<char>,
    pub current: Option<Seq<char>>,
    pub results: Seq<Seq<u8>>,
    pub result: ResultView,
}

/// One event seen on the WebSocket: a parsed text message, a binary frame, or
/// anything else (other frame kinds and transient read errors are ignored).
#[derive(Debug)]
pub enum WsEvent {
    Text(WorkflowMessage),
    Binary(Vec<u8>),
    Other,
}

/// The transition a text message causes, and whether the run is over.
/// Only messages whose `prompt_id` matches are acted on.
pub open spec fn msg_step(s: ExecutorView, m: MessageView) -> (ExecutorView, bool) {
    match m {
        MessageView::Status => (s, false),
        MessageView::ExecutionStart { prompt_id } => if prompt_id == s.prompt {
            (
                ExecutorView {
                    result: ResultView::Running { value: 0, max: 1, previews: Seq::empty() },
                    ..s
                },
                false,
            )
        } else {
            (s, false)
        },
        MessageView::ExecutionCached { .. } => (s, false),
        MessageView::Executing { prompt_id, node } => if prompt_id == s.prompt {
            (ExecutorView { current: Some(node), ..s }, false)
        } else {
            (s, false)
        },
        MessageView::Progress { prompt_id, node, value, max } => if prompt_id == s.prompt && node
            == s.sampler {
            let previews = match s.result {
                ResultView::Running { previews, .. } => previews,
                _ => Seq::empty(),
            };
            (
                ExecutorView {
                    result: ResultView::Running { value: value, max: max, previews: previews },
                    ..s
                },
                false,
            )
        } else {
            (s, false)
        },
        MessageView::ExecutionSuccess { prompt_id } => if prompt_id == s.prompt {
            (
                ExecutorView { result: ResultView::Done(s.results), results: Seq::empty(), ..s },
                true,
            )
        } else {
            (s, false)
        },
        MessageView::ExecutionError { prompt_id, exception_message } => if prompt_id == s.prompt {
            let text = match exception_message {
                Some(t) => t,
                None => Seq::empty(),
            };
            (ExecutorView { result: ResultView::Error(text), ..s }, true)
        } else {
            (s, false)
        },
    }
}

/// The transition a binary frame causes. The first eight bytes are a framing
/// header; a frame shorter than the header is ignored. The rest replaces the
/// preview while the sampler node runs, or is appended to the artifacts while
/// the output node runs.
pub open spec fn bin_step(s: ExecutorView, data: Seq<u8>) -> ExecutorView {
    if data.len() < 8 {
        s
    } else {
        match s.current {
            None => s,
            Some(node) => if node == s.sampler {
                match s.result {
                    ResultView::Running { value, max, .. } => ExecutorView {
                        result: ResultView::Running {
                            value: value,
                            max: max,
                            previews: seq![data.skip(8)],
                        },
                        ..s
                    },
                    _ => s,
                }
            } else if node == s.output {
                ExecutorView { results: s.results.push(data.skip(8)), ..s }
            } else {
                s
            },
        }
    }
}

/// The transition one WebSocket event causes.
pub open spec fn event_step(s: ExecutorView, e: WsEvent) -> (ExecutorView, bool) {
    match e {
        WsEvent::Text(m) => msg_step(s, m@),
        WsEvent::Binary(d) => (bin_step(s, d@), false),
        WsEvent::Other => (s, false),
    }
}

/// Folds a whole event sequence, stopping at the first terminal event.
pub open spec fn run_events(s: ExecutorView, evs: Seq<WsEvent>) -> ExecutorView
    decreases evs.len(),
{
    if evs.len() == 0 {
        s
    } else {
        let r = event_step(s, evs[0]);
        if r.1 {
            r.0
        } else {
            run_events(r.0, evs.skip(1))
        }
    }
}

proof fn lemma_event_step_monotonic(s: ExecutorView, e: WsEvent)
    requires
        result_rank(s.result) < 2,
    ensures
        result_rank(event_step(s, e).0.result) >= result_rank(s.result),
        !event_step(s, e).1 ==> result_rank(event_step(s, e).0.result) < 2,
{
}

/// The lifecycle is monotone: over any event sequence, a result never moves
/// backwards on `Pending -> Running -> (Done | Error)`; in particular a
/// workflow observed `Running` is never `Pending` again, and a terminal
/// result ends the run.
pub proof fn lemma_run_events_monotonic(s: ExecutorView, evs: Seq<WsEvent>)
    requires
        result_rank(s.result) < 2,
    ensures
        result_rank(run_events(s, evs).result) >= result_rank(s.result),
    decreases evs.len(),
{
    if evs.len() > 0 {
        let r = event_step(s, evs[0]);
        lemma_event_step_monotonic(s, evs[0]);
        if !r.1 {
            lemma_run_events_monotonic(r.0, evs.skip(1));
        }
    }
}

/// Drives one task against one backend. Holds the two watched node ids, the
/// task and prompt ids, the node the backend is currently executing, the
/// artifacts collected so far, and the task's live result.
#[derive(Debug)]
pub struct TaskExecutor {
    k_sampler_node_id: String,
    output_node_id: String,
    task_id: String,
    prompt_id: String,
    current_node_id: Option<String>,
    results: Vec<Vec<u8>>,
    result: WorkflowResult,
}

impl View for TaskExecutor {
    type V = ExecutorView;

    closed spec fn view(&self) -> ExecutorView {
        ExecutorView {
            sampler: self.k_sampler_node_id@,
            output: self.output_node_id@,
            task: self.task_id@,
            prompt: self.prompt_id@,
            current: match self.current_node_id {
                Some(ref n) => Some(n@),
                None => None,
            },
            results: self.results.deep_view(),
            result: self.result@,
        }
    }
}

impl TaskExecutor {
    /// A fresh executor for a built prompt: no current node, no artifacts,
    /// an empty prompt id (set after the graph is posted), result `Pending(0)`.
    pub fn new(prompt: ComfyUIPrompt, task_id: &str) -> (r: Self)
        ensures
            r@ == (ExecutorView {
                sampler: prompt.k_sampler_node_id@,
                output: prompt.output_node_id@,
                task: task_id@,
                prompt: Seq::<char>::empty(),
                current: None,
                results: Seq::<Seq<u8>>::empty(),
                result: ResultView::Pending(0),
            }),
    {
        let r = TaskExecutor {
            k_sampler_node_id: prompt.k_sampler_node_id,
            output_node_id: prompt.output_node_id,
            task_id: task_id.to_owned(),
            prompt_id: String::new(),
            current_node_id: None,
            results: Vec::new(),
            result: WorkflowResult::Pending(0),
        };
        proof {
            assert(r.results.deep_view() =~= Seq::<Seq<u8>>::empty());
        }
        r
    }

    /// Records the prompt id the backend assigned when the graph was posted.
    pub fn set_prompt_id(&mut self, prompt_id: &str)
        ensures
            final(self)@ == (ExecutorView { prompt: prompt_id@, ..old(self)@ }),
    {
        self.prompt_id = prompt_id.to_owned();
    }

    /// Marks the task failed with the given message, as the run does when the
    /// connection or the post fails before any message arrives.
    pub fn fail(&mut self, message: String)
        ensures
            final(self)@ == (ExecutorView { result: ResultView::Error(message@), ..old(self)@ }),
    {
        self.result = WorkflowResult::Error(message);
    }

    pub fn result(&self) -> (r: &WorkflowResult)
        ensures
            r@ == self@.result,
    {
        &self.result
    }

    pub fn task_id(&self) -> (r: &String)
        ensures
            r@ == self@.task,
    {
        &self.task_id
    }

    /// Applies one text message; returns whether the run is over.
    pub fn on_message(&mut self, message: &WorkflowMessage) -> (done: bool)
        ensures
            final(self)@ == msg_step(old(self)@, message@).0,
            done == msg_step(old(self)@, message@).1,
    {
        match message {
            WorkflowMessage::Status(_) => false,
            WorkflowMessage::ExecutionStart(d) => {
                if d.prompt_id == self.prompt_id {
                    let previews: Vec<Vec<u8>> = Vec::new();
                    proof {
                        assert(previews.deep_view() =~= Seq::<Seq<u8>>::empty());
                    }
                    self.result = WorkflowResult::Running(
                        WorkflowRunningResult { progress_value: 0, progress_max: 1, previews },
                    );
                }
                false
            },
            WorkflowMessage::ExecutionCached(_) => false,
            WorkflowMessage::Executing(d) => {
                if d.prompt_id == self.prompt_id {
                    self.current_node_id = Some(d.node.clone());
                }
                false
            },
            WorkflowMessage::Progress(d) => {
                if d.prompt_id == self.prompt_id && d.node == self.k_sampler_node_id {
                    let mut previews: Vec<Vec<u8>> = Vec::new();
                    proof {
                        assert(previews.deep_view() =~= Seq::<Seq<u8>>::empty());
                    }
                    match &mut self.result {
                        WorkflowResult::Running(rr) => {
                            core::mem::swap(&mut previews, &mut rr.previews);
                        },
                        _ => {},
                    }
                    self.result = WorkflowResult::Running(
                        WorkflowRunningResult {
                            progress_value: d.value,
                            progress_max: d.max,
                            previews,
                        },
                    );
                }
                false
            },
            WorkflowMessage::ExecutionSuccess(d) => {
                if d.prompt_id == self.prompt_id {
                    let mut artifacts: Vec<Vec<u8>> = Vec::new();
                    proof {
                        assert(artifacts.deep_view() =~= Seq::<Seq<u8>>::empty());
                    }
                    core::mem::swap(&mut artifacts, &mut self.results);
                    self.result = WorkflowResult::Done(artifacts);
                    true
                } else {
                    false
                }
            },
            WorkflowMessage::ExecutionError(d) => {
                if d.prompt_id == self.prompt_id {
                    let text = match &d.exception_message {
                        Some(m) => m.clone(),
                        None => String::new(),
                    };
                    self.result = WorkflowResult::Error(text);
                    true
                } else {
                    false
                }
            },
        }
    }

    /// Applies one binary frame.
    pub fn on_binary(&mut self, data: &[u8])
        ensures
            final(self)@ == bin_step(old(self)@, data@),
    {
        let n = data.len();
        if n < 8 {
            return ;
        }
        let is_sampler = match &self.current_node_id {
            Some(node) => *node == self.k_sampler_node_id,
            None => {
                return ;
            },
        };
        let payload = slice_to_vec(slice_subrange(data, 8, n));
        proof {
            assert(payload@ =~= data@.skip(8));
        }
        if is_sampler {
            match &mut self.result {
                WorkflowResult::Running(rr) => {
                    let mut one: Vec<Vec<u8>> = Vec::new();
                    one.push(payload);
                    rr.previews = one;
                    proof {
                        assert(rr.previews.deep_view() =~~= seq![data@.skip(8)]);
                    }
                },
                _ => {},
            }
        } else {
            let is_output = match &self.current_node_id {
                Some(node) => *node == self.output_node_id,
                None => false,
            };
            if is_output {
                self.results.push(payload);
                proof {
                    assert(self.results.deep_view() =~~= old(self).results.deep_view().push(
                        data@.skip(8),
                    ));
                }
            }
        }
    }

    /// Applies the events of one WebSocket session in order, stopping at the
    /// first message that ends the run. Returns whether the run ended on a
    /// terminal message (rather than on the stream closing).
    pub fn process_events(&mut self, events: &Vec<WsEvent>) -> (done: bool)
        ensures
            final(self)@ == run_events(old(self)@, events@),
            done ==> final(self)@.result is Done || final(self)@.result is Error,
    {
        let n = events.len();
        proof {
            assert(events@.skip(0) =~= events@);
        }
        let mut i: usize = 0;
        while i < n
            invariant
                0 <= i <= n,
                n == events@.len(),
                run_events(old(self)@, events@) == run_events(self@, events@.skip(i as int)),
            decreases n - i,
        {
            let ghost pre = self@;
            let done = match &events[i] {
                WsEvent::Text(m) => self.on_message(m),
                WsEvent::Binary(d) => {
                    self.on_binary(d.as_slice());
                    false
                },
                WsEvent::Other => false,
            };
            proof {
                assert(events@.skip(i as int)[0] == events@[i as int]);
                assert(events@.skip(i as int).skip(1) =~= events@.skip(i + 1));
                assert((self@, done) == event_step(pre, events@[i as int]));
            }
            if done {
                proof {
                    assert(run_events(pre, events@.skip(i as int)) == self@);
                }
                return true;
            }
            i = i + 1;
        }
        proof {
            assert(events@.skip(n as int) =~= Seq::<WsEvent>::empty());
        }
        false
    }
}

} // verus!
