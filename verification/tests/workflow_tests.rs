use comfy_router::messages::{
    ExecutingMessage, ExecutionErrorMessage, ExecutionStartMessage, ExecutionSuccessMessage,
    ProgressMessage, StatusMessage, WorkflowMessage,
};
use comfy_router::payload::{
    CurrentNodeId, Image, LoRAPayload, Model, SD15WorkflowPayload, WorkflowPayload,
};
use comfy_router::task::{
    preview, ComfyUIPrompt, TaskExecutor, WorkflowExecutionError, WorkflowResult, WsEvent,
};

fn prompt() -> ComfyUIPrompt {
    ComfyUIPrompt {
        prompt: String::from("{}"),
        k_sampler_node_id: String::from("9"),
        output_node_id: String::from("11"),
    }
}

fn started_executor() -> TaskExecutor {
    let mut ex = TaskExecutor::new(prompt(), "task-1");
    ex.set_prompt_id("p-1");
    ex
}

fn start_msg() -> WorkflowMessage {
    WorkflowMessage::ExecutionStart(ExecutionStartMessage {
        prompt_id: String::from("p-1"),
        timestamp: 0,
    })
}

fn executing(node: &str) -> WorkflowMessage {
    WorkflowMessage::Executing(ExecutingMessage {
        node: String::from(node),
        display_node: String::from(node),
        prompt_id: String::from("p-1"),
    })
}

fn binary_frame(payload: &[u8]) -> Vec<u8> {
    let mut data = vec![0u8; 8];
    data.extend_from_slice(payload);
    data
}

#[test]
fn executor_runs_to_done_and_collects_artifacts() {
    let mut ex = started_executor();
    let events = vec![
        WsEvent::Text(WorkflowMessage::Status(StatusMessage { sid: None })),
        WsEvent::Text(start_msg()),
        WsEvent::Text(executing("9")),
        WsEvent::Text(WorkflowMessage::Progress(ProgressMessage {
            value: 5,
            max: 20,
            prompt_id: String::from("p-1"),
            node: String::from("9"),
        })),
        WsEvent::Binary(binary_frame(b"preview")),
        WsEvent::Text(executing("11")),
        WsEvent::Binary(binary_frame(b"img1")),
        WsEvent::Binary(binary_frame(b"img2")),
        WsEvent::Text(WorkflowMessage::ExecutionSuccess(ExecutionSuccessMessage {
            prompt_id: String::from("p-1"),
            timestamp: 9,
        })),
        // events after the terminal message are not processed
        WsEvent::Text(executing("9")),
    ];
    let done = ex.process_events(&events);
    assert!(done);
    match ex.result() {
        WorkflowResult::Done(artifacts) => {
            assert_eq!(artifacts.len(), 2);
            assert_eq!(artifacts[0], b"img1".to_vec());
            assert_eq!(artifacts[1], b"img2".to_vec());
        },
        other => panic!("expected Done, got {:?}", other),
    }
}

#[test]
fn executor_tracks_progress_and_previews() {
    let mut ex = started_executor();
    ex.on_message(&start_msg());
    match ex.result() {
        WorkflowResult::Running(r) => {
            assert_eq!(r.progress_value, 0);
            assert_eq!(r.progress_max, 1);
            assert!(r.previews.is_empty());
        },
        other => panic!("expected Running, got {:?}", other),
    }
    ex.on_message(&executing("9"));
    ex.on_binary(&binary_frame(b"frame1"));
    ex.on_binary(&binary_frame(b"frame2"));
    let done = ex.on_message(&WorkflowMessage::Progress(ProgressMessage {
        value: 3,
        max: 4,
        prompt_id: String::from("p-1"),
        node: String::from("9"),
    }));
    assert!(!done);
    match ex.result() {
        WorkflowResult::Running(r) => {
            assert_eq!(r.progress_value, 3);
            assert_eq!(r.progress_max, 4);
            // only the latest preview frame is kept
            assert_eq!(r.previews, vec![b"frame2".to_vec()]);
        },
        other => panic!("expected Running, got {:?}", other),
    }
}

#[test]
fn executor_ignores_foreign_prompt_ids_and_short_frames() {
    let mut ex = started_executor();
    ex.on_message(&WorkflowMessage::ExecutionStart(ExecutionStartMessage {
        prompt_id: String::from("someone-else"),
        timestamp: 0,
    }));
    assert!(matches!(ex.result(), WorkflowResult::Pending(0)));
    ex.on_message(&start_msg());
    ex.on_message(&executing("9"));
    ex.on_binary(b"short");
    match ex.result() {
        WorkflowResult::Running(r) => assert!(r.previews.is_empty()),
        other => panic!("expected Running, got {:?}", other),
    }
    let done = ex.on_message(&WorkflowMessage::ExecutionSuccess(ExecutionSuccessMessage {
        prompt_id: String::from("someone-else"),
        timestamp: 0,
    }));
    assert!(!done);
}

#[test]
fn executor_reports_backend_errors() {
    let mut ex = started_executor();
    ex.on_message(&start_msg());
    let done = ex.on_message(&WorkflowMessage::ExecutionError(ExecutionErrorMessage {
        prompt_id: String::from("p-1"),
        timestamp: 3,
        node_id: String::from("9"),
        node_type: String::from("KSampler"),
        exception_type: Some(String::from("OOM")),
        exception_message: Some(String::from("out of memory")),
    }));
    assert!(done);
    match ex.result() {
        WorkflowResult::Error(m) => assert_eq!(m, "out of memory"),
        other => panic!("expected Error, got {:?}", other),
    }
}

#[test]
fn executor_fail_marks_error() {
    let mut ex = started_executor();
    ex.fail(WorkflowExecutionError::WebSocketConnectionError.message());
    match ex.result() {
        WorkflowResult::Error(m) => {
            assert_eq!(m, "failed to connect to node using websocket");
        },
        other => panic!("expected Error, got {:?}", other),
    }
}

#[test]
fn execution_error_messages() {
    assert_eq!(
        WorkflowExecutionError::ComfyUIError(String::from("boom")).message(),
        "ComfyUI error: boom"
    );
    assert_eq!(
        WorkflowExecutionError::InvalidResponse(String::from("nope")).message(),
        "Invalid response: nope"
    );
}

#[test]
fn preview_strips_finished_artifacts_only() {
    let done = WorkflowResult::Done(vec![b"img1".to_vec(), b"img2".to_vec()]);
    match preview(&done) {
        WorkflowResult::Done(v) => assert!(v.is_empty()),
        other => panic!("expected Done, got {:?}", other),
    }

    let mut ex = started_executor();
    ex.on_message(&start_msg());
    ex.on_message(&executing("9"));
    ex.on_binary(&binary_frame(b"frame"));
    match preview(ex.result()) {
        WorkflowResult::Running(r) => assert_eq!(r.previews, vec![b"frame".to_vec()]),
        other => panic!("expected Running, got {:?}", other),
    }

    match preview(&WorkflowResult::Pending(4)) {
        WorkflowResult::Pending(n) => assert_eq!(n, 4),
        other => panic!("expected Pending, got {:?}", other),
    }
}

#[test]
fn node_id_counter_is_sequential() {
    let mut ids = CurrentNodeId::new();
    assert_eq!(ids.get(), "3");
    assert_eq!(ids.get(), "4");
    assert_eq!(ids.get(), "5");
}

#[test]
fn asset_requests_follow_translation_order() {
    let payload = SD15WorkflowPayload {
        checkpoint: Model::Custom(String::from("https://x/ckpt.safetensors")),
        vae: Some(Model::Custom(String::from("https://x/vae.pt"))),
        loras: vec![
            LoRAPayload { model: Model::BuildIn(String::from("builtin")), weight_bits: 0 },
            LoRAPayload {
                model: Model::Custom(String::from("https://x/lora.safetensors")),
                weight_bits: 0,
            },
        ],
        controlnets: vec![],
        prompt: String::from("a cat"),
        negative_prompt: String::new(),
        input_image: Some(Image::Url(String::from("https://x/input.png"))),
        input_mask: None,
        denoise_bits: None,
        width: 512,
        height: 512,
        batch_size: 1,
        sampler: String::from("euler"),
        scheduler: String::from("normal"),
        steps: 20,
        cfg_scale_bits: 0,
        seed: None,
    };
    let wanted = payload.asset_requests();
    assert_eq!(
        wanted,
        vec![
            (String::from("https://x/ckpt.safetensors"), String::from("models/checkpoints")),
            (String::from("https://x/vae.pt"), String::from("models/vae")),
            (String::from("https://x/lora.safetensors"), String::from("models/loras")),
            (String::from("https://x/input.png"), String::from("input")),
        ]
    );
    let as_payload = WorkflowPayload::SD15(payload);
    assert_eq!(as_payload.asset_requests().len(), 4);
    assert!(as_payload.cache_map().is_empty());
}
