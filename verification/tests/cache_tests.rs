use comfy_router::config::AppConfig;
use comfy_router::download::{
    create_download_task, new_fresh_id, CreateDownloadTaskResult, DownloadRequestError,
    DownloadState, DownloadStatus, DownloadTask,
};
use comfy_router::manage::{plan_eviction, CacheFileInfo};
use comfy_router::persist::{encode_record, load_record, parse_record};
use comfy_router::text::{file_id_for, parse_dec_u64, u32_dec_string};

#[test]
fn task_derivation_strips_query_and_keeps_extension() {
    let t = DownloadTask::new("https://x.example/m/a.safetensors?t=1", "f1").expect("valid url");
    assert_eq!(t.url(), "https://x.example/m/a.safetensors");
    assert_eq!(t.downloadable_url(), "https://x.example/m/a.safetensors?t=1");
    assert_eq!(t.file_id(), "f1.safetensors");
    assert!(matches!(t.status(), DownloadStatus::Pending));
    assert!(DownloadTask::new("not a url", "f1").is_none());
}

#[test]
fn file_id_extension_rules() {
    assert_eq!(file_id_for("ab", "/m/a.tar.gz"), "ab.gz");
    assert_eq!(file_id_for("ab", "/m/file"), "ab");
    assert_eq!(file_id_for("ab", "/m/.hidden"), "ab");
    assert_eq!(file_id_for("ab", "/m/a."), "ab.");
    assert_eq!(file_id_for("ab", "/m/"), "ab");
}

#[test]
fn request_deduplicates_concurrent_fetches() {
    let mut state = DownloadState::new();
    let (fid1, r1) = create_download_task(
        &mut state,
        "https://x.example/a.safetensors?t=1",
        "models/checkpoints",
        "f1",
        false,
    )
    .expect("valid url");
    assert_eq!(fid1, "f1.safetensors");
    match r1 {
        CreateDownloadTaskResult::Created(plan) => {
            assert!(plan.spawn);
            assert!(plan.stale.is_empty());
            assert!(plan.stale_file_id.is_none());
        },
        _ => panic!("fresh request must start a fetch"),
    }

    // same canonical URL (different query), different fresh id: same file id,
    // no second fetch
    let (fid2, r2) = create_download_task(
        &mut state,
        "https://x.example/a.safetensors?t=2",
        "models/loras",
        "f2",
        false,
    )
    .expect("valid url");
    assert_eq!(fid2, "f1.safetensors");
    match r2 {
        CreateDownloadTaskResult::Created(plan) => {
            assert!(!plan.spawn);
        },
        _ => panic!("pending record must be awaited"),
    }

    let dirs = state.target_dirs("f1.safetensors").expect("tracked");
    assert_eq!(dirs.len(), 2);
    assert!(dirs.contains(&String::from("models/checkpoints")));
    assert!(dirs.contains(&String::from("models/loras")));
    assert_eq!(state.tasks().len(), 1);
    assert!(state.get_notification("f1.safetensors"));
}

#[test]
fn request_rejects_invalid_url() {
    let mut state = DownloadState::new();
    let err = create_download_task(&mut state, ":::", "d", "f", false).expect_err("bad url");
    assert!(matches!(err, DownloadRequestError::InvalidUrl));
    assert_eq!(state.tasks().len(), 0);
}

#[test]
fn completed_record_with_file_is_reused() {
    let mut state = DownloadState::new();
    let (fid, _) =
        create_download_task(&mut state, "https://x/a.png", "input", "f1", false).unwrap();
    state.update_status(&fid, DownloadStatus::Completed);
    state.remove_notification(&fid);
    let (fid2, r2) =
        create_download_task(&mut state, "https://x/a.png", "other", "f2", true).unwrap();
    assert_eq!(fid2, fid);
    assert!(matches!(r2, CreateDownloadTaskResult::Existed));
    let dirs = state.target_dirs(&fid).unwrap();
    assert_eq!(dirs.len(), 2);
}

#[test]
fn completed_record_without_file_is_rebuilt() {
    let mut state = DownloadState::new();
    let (fid, _) =
        create_download_task(&mut state, "https://x/a.png", "input", "f1", false).unwrap();
    state.update_status(&fid, DownloadStatus::Completed);
    state.remove_notification(&fid);
    let (fid2, r2) =
        create_download_task(&mut state, "https://x/a.png", "input", "f2", false).unwrap();
    assert_eq!(fid2, "f2.png");
    match r2 {
        CreateDownloadTaskResult::Created(plan) => {
            assert!(plan.spawn);
            assert_eq!(plan.stale, vec![String::from("input")]);
            assert_eq!(plan.stale_file_id, Some(String::from("f1.png")));
        },
        _ => panic!("vanished file must be refetched"),
    }
    assert!(state.get_by_id("f1.png").is_none());
    assert!(state.get_by_id("f2.png").is_some());
}

#[test]
fn failed_record_is_retried() {
    let mut state = DownloadState::new();
    let (fid, _) =
        create_download_task(&mut state, "https://x/a.png", "input", "f1", false).unwrap();
    state.update_status(&fid, DownloadStatus::Failed);
    state.remove_notification(&fid);
    let (fid2, r2) =
        create_download_task(&mut state, "https://x/a.png", "input", "f2", false).unwrap();
    assert_eq!(fid2, "f2.png");
    match r2 {
        CreateDownloadTaskResult::Created(plan) => {
            assert!(plan.spawn);
            assert!(plan.stale.is_empty());
            assert!(plan.stale_file_id.is_none());
        },
        _ => panic!("failed record must be retried"),
    }
    assert!(matches!(
        state.get_by_id("f2.png").unwrap().status(),
        DownloadStatus::Pending
    ));
}

#[test]
fn index_lookup_and_removal() {
    let mut state = DownloadState::new();
    let (fid, _) =
        create_download_task(&mut state, "https://x/a.png?v=1", "input", "f1", false).unwrap();
    assert!(state.get_by_id(&fid).is_some());
    assert!(state.get_by_url("https://x/a.png").is_some());
    assert!(state.get_by_url("https://x/a.png?v=1").is_none());
    let removed = state.remove(&fid).expect("tracked");
    assert_eq!(removed.file_id(), &fid);
    assert!(state.get_by_id(&fid).is_none());
    assert!(state.get_by_url("https://x/a.png").is_none());
    assert!(state.remove(&fid).is_none());
}

#[test]
fn notification_table_tracks_inflight_ids() {
    let mut state = DownloadState::new();
    assert!(!state.get_notification("x"));
    state.set_notification("x");
    state.set_notification("x");
    assert!(state.get_notification("x"));
    assert!(state.remove_notification("x"));
    assert!(!state.get_notification("x"));
    assert!(!state.remove_notification("x"));
}

#[test]
fn colliding_file_id_is_rejected() {
    let mut state = DownloadState::new();
    create_download_task(&mut state, "https://x/a.png", "input", "f1", false).unwrap();
    let err = create_download_task(&mut state, "https://x/b.png", "input", "f1", false)
        .expect_err("same derived id");
    assert!(matches!(err, DownloadRequestError::IdCollision));
    assert_eq!(state.tasks().len(), 1);
}

#[test]
fn fresh_ids_have_uuid_length() {
    let id = new_fresh_id();
    assert_eq!(id.len(), 36);
    let id2 = new_fresh_id();
    assert_ne!(id, id2);
}

fn file(name: &str, size: u64, modified: u64) -> CacheFileInfo {
    CacheFileInfo { name: String::from(name), size, modified }
}

#[test]
fn sweep_removes_oldest_until_budget_fits() {
    let files = vec![file("old", 60, 1), file("mid", 30, 2), file("new", 30, 3)];
    let (kept, evicted) = plan_eviction(files, 100);
    assert_eq!(evicted.len(), 1);
    assert_eq!(evicted[0].name, "old");
    assert_eq!(kept.len(), 2);
    assert_eq!(kept.iter().map(|f| f.size).sum::<u64>(), 60);
}

#[test]
fn sweep_keeps_everything_under_budget() {
    let files = vec![file("a", 10, 5), file("b", 20, 1)];
    let (kept, evicted) = plan_eviction(files, 100);
    assert_eq!(kept.len(), 2);
    assert!(evicted.is_empty());
}

#[test]
fn sweep_can_empty_the_cache() {
    let files = vec![file("a", 10, 2), file("b", 20, 1)];
    let (kept, evicted) = plan_eviction(files, 0);
    assert!(kept.is_empty());
    assert_eq!(evicted.len(), 2);
    assert_eq!(evicted[0].name, "b");
    assert_eq!(evicted[1].name, "a");
}

#[test]
fn record_file_round_trips() {
    let mut state = DownloadState::new();
    let (fid, _) = create_download_task(
        &mut state,
        "https://x.example/m/a.png?sig=1",
        "input",
        "f1",
        false,
    )
    .unwrap();
    state.update_status(&fid, DownloadStatus::Completed);
    create_download_task(&mut state, "https://x.example/b.bin", "models/loras", "f2", false)
        .unwrap();
    state.add_target_dir(&fid, "weird\\di\"r");

    let text = encode_record(&state);
    let tasks = parse_record(&text).expect("own encoding parses");
    assert_eq!(tasks.len(), 2);
    assert_eq!(tasks[0].file_id(), "f1.png");
    assert_eq!(tasks[0].url(), "https://x.example/m/a.png");
    assert_eq!(tasks[0].downloadable_url(), "https://x.example/m/a.png?sig=1");
    assert!(matches!(tasks[0].status(), DownloadStatus::Completed));
    assert_eq!(
        tasks[0].target_dirs(),
        &vec![String::from("input"), String::from("weird\\di\"r")]
    );
    assert_eq!(tasks[1].file_id(), "f2.bin");
    assert!(matches!(tasks[1].status(), DownloadStatus::Pending));

    let restored = load_record(&text);
    assert_eq!(encode_record(&restored), text);
    assert!(!restored.get_notification(&fid));
}

#[test]
fn record_file_exact_text() {
    let mut state = DownloadState::new();
    create_download_task(&mut state, "https://h/x.png?q=1", "input", "f1", false).unwrap();
    let text = encode_record(&state);
    let mut expected = String::from(
        "{\"downloads\":{\"f1.png\":{\"url\":\"https://h/x.png\",\"downloadable_url\":",
    );
    expected.push_str("\"https://h/x.png?q=1\",\"status\":\"pending\",\"file_id\":\"f1.png\"}},");
    expected.push_str("\"url_mapping\":{\"https://h/x.png\":\"f1.png\"},");
    expected.push_str("\"symlinks\":{\"f1.png\":[\"input\"]}}");
    assert_eq!(text, expected);
}

#[test]
fn empty_record_round_trips() {
    let state = DownloadState::new();
    let text = encode_record(&state);
    assert_eq!(text, "{\"downloads\":{},\"url_mapping\":{},\"symlinks\":{}}");
    let tasks = parse_record(&text).expect("empty record parses");
    assert!(tasks.is_empty());
}

#[test]
fn corrupt_record_defaults_to_empty() {
    assert!(parse_record("").is_none());
    assert!(parse_record("{}").is_none());
    assert!(parse_record("not json at all").is_none());
    let state = load_record("garbage");
    assert_eq!(state.tasks().len(), 0);
    let mismatched = "{\"downloads\":{},\"url_mapping\":{\"u\":\"f\"},\"symlinks\":{}}";
    assert!(parse_record(mismatched).is_none());
}

#[test]
fn decimal_parsing() {
    assert_eq!(parse_dec_u64("0"), Some(0));
    assert_eq!(parse_dec_u64("123"), Some(123));
    assert_eq!(parse_dec_u64("007"), Some(7));
    assert_eq!(parse_dec_u64("18446744073709551615"), Some(u64::MAX));
    assert_eq!(parse_dec_u64("18446744073709551616"), None);
    assert_eq!(parse_dec_u64(""), None);
    assert_eq!(parse_dec_u64("12x"), None);
    assert_eq!(parse_dec_u64("-1"), None);
}

#[test]
fn decimal_printing() {
    assert_eq!(u32_dec_string(0), "0");
    assert_eq!(u32_dec_string(7), "7");
    assert_eq!(u32_dec_string(1234), "1234");
    assert_eq!(u32_dec_string(u32::MAX), "4294967295");
}

fn env(pairs: &[(&str, &str)]) -> Vec<(String, String)> {
    pairs.iter().map(|(k, v)| (String::from(*k), String::from(*v))).collect()
}

#[test]
fn config_defaults() {
    let cfg = AppConfig::from_env(&Vec::new());
    assert_eq!(cfg.host, "0.0.0.0");
    assert_eq!(cfg.port, 8080);
    assert_eq!(cfg.username, "admin");
    assert_eq!(cfg.password, "admin");
    assert_eq!(cfg.workflow_history_limit, 50);
    assert_eq!(cfg.workflow_pending_limit, 25);
    assert_eq!(cfg.env, "dev");
    assert_eq!(cfg.cache_dir, "/tmp/cache");
    assert_eq!(cfg.root_dir, "/tmp/model");
    assert_eq!(cfg.record_path, "/tmp/record.json");
    assert_eq!(cfg.max_cache_bytes, 64 * 1024 * 1024 * 1024);
}

#[test]
fn config_reads_environment_values() {
    let cfg = AppConfig::from_env(&env(&[
        ("COMFY_ROUTER__HOST", "127.0.0.1"),
        ("COMFY_ROUTER__PORT", "9999"),
        ("COMFY_ROUTER__HISTORY_LIMIT", "7"),
        ("COMFY_ROUTER__DOWNLOAD__MAX_CACHE_BYTES", "1000"),
    ]));
    assert_eq!(cfg.host, "127.0.0.1");
    assert_eq!(cfg.port, 9999);
    assert_eq!(cfg.workflow_history_limit, 7);
    assert_eq!(cfg.max_cache_bytes, 1000);
}

#[test]
fn config_falls_back_on_unparseable_values() {
    let cfg = AppConfig::from_env(&env(&[
        ("COMFY_ROUTER__PORT", "not a number"),
        ("COMFY_ROUTER__PENDING_LIMIT", "99999999999999999999999"),
    ]));
    assert_eq!(cfg.port, 8080);
    assert_eq!(cfg.workflow_pending_limit, 25);
}
