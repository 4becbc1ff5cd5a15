use compression_pool::cmd::head::client::{
    classify_send_status, HttpTimeouts, SendOutcome, SendStatus, WorkerClient, CONNECT_TIMEOUT_SECS,
    REQUEST_TIMEOUT_SECS,
};
use compression_pool::cmd::worker::files::DownloadError;
use compression_pool::cmd::head::orchestrator::{
    after_download, open_slots, DownloadNext, Orchestrator, OrchestratorError, ResultAction,
};
use compression_pool::cmd::worker::jobs::{crf_search_command, encode_command};
use compression_pool::cmd::worker::{encode_tmp_path, finished_path, loaded_path};
use compression_pool::config::Config;
use compression_pool::types::{
    secs_or_zero, FinishedWork, RunningResponse, RunningWork, WorkRequest, WorkStatus, WorkType,
};

fn strings(v: &[&str]) -> Vec<String> {
    v.iter().map(|s| s.to_string()).collect()
}

fn base_config(workers: &[&str]) -> Config {
    Config {
        workers: strings(workers),
        input_folder: "./inputs".into(),
        output_folder: "./outputs".into(),
        ab_av1_args: strings(&["--min-vmaf", "95"]),
        ffmpeg_args: vec![],
        container: "mp4".into(),
    }
}

#[test]
fn clock_fallback() {
    assert_eq!(secs_or_zero(Some(1_700_000_000)), 1_700_000_000);
    assert_eq!(secs_or_zero(None), 0);
}

#[test]
fn process_arguments() {
    let req = WorkRequest {
        task_id: 0x123,
        filename: "a.mkv".into(),
        arguments: strings(&["--preset", "4"]),
        container: "webm".into(),
    };
    let id = "00000000-0000-0000-0000-000000000123";
    assert_eq!(
        crf_search_command(&req),
        strings(&["crf-search", "--input", &format!("./loaded/{id}"), "--preset", "4"])
    );
    assert_eq!(
        encode_command(&req),
        strings(&[
            "-i",
            &format!("./loaded/{id}"),
            "--preset",
            "4",
            "-y",
            &format!("./finished/.encode-{id}.tmp.webm"),
        ])
    );
}

#[test]
fn download_attempts() {
    assert_eq!(after_download(1, true), DownloadNext::Publish);
    assert_eq!(after_download(1, false), DownloadNext::Retry);
    assert_eq!(after_download(2, false), DownloadNext::Retry);
    assert_eq!(after_download(3, false), DownloadNext::GiveUp);
    assert_eq!(after_download(3, true), DownloadNext::Publish);
}

#[test]
fn no_workers_and_errors() {
    let o = Orchestrator::new(base_config(&[]), strings(&["a.mkv"])).unwrap();
    assert_eq!(o.queues.crf.len(), 1);
    assert!(matches!(
        Orchestrator::new(base_config(&["http://h:1", "nope"]), vec![]),
        Err(OrchestratorError::Client(_))
    ));
    assert!(matches!(
        Orchestrator::new(base_config(&["nope"]), strings(&["a.mkv", "A.webm"])),
        Err(OrchestratorError::Paths(_))
    ));
}

#[test]
fn slots_bound_dispatches() {
    let mut o = Orchestrator::new(base_config(&["http://h:1"]), strings(&["a.mkv", "b.mkv", "c.mkv"])).unwrap();
    let running = RunningResponse {
        works: vec![RunningWork { id: 9, work_type: WorkType::Encode, filename: "x".into(), start_time: 0 }],
        max_works: 3,
    };
    let mut slots = open_slots(0, &running);
    assert_eq!(slots.left, 2);
    let t = o.next_dispatch(&mut slots).unwrap();
    o.settle(&mut slots, t, Ok(SendOutcome::Accepted));
    assert_eq!(slots.left, 1);
    let t = o.next_dispatch(&mut slots).unwrap();
    o.settle(&mut slots, t, Ok(SendOutcome::Accepted));
    assert!(o.next_dispatch(&mut slots).is_none());
    assert_eq!(o.active.len(), 2);
    assert_eq!(o.queues.crf.len(), 1);
    // A busy worker gets nothing more this round.
    let mut slots = open_slots(0, &RunningResponse { works: vec![], max_works: 5 });
    let t = o.next_dispatch(&mut slots).unwrap();
    o.settle(&mut slots, t, Ok(SendOutcome::Busy));
    assert_eq!(slots.left, 0);
    assert!(o.next_dispatch(&mut slots).is_none());
    assert_eq!(o.queues.crf.len(), 1);
}

#[test]
fn copy_keeps_the_input_name() {
    let o = Orchestrator::new(base_config(&[]), strings(&["clip.mkv"])).unwrap();
    let c = o.source_copy(&o.queues.crf[0]);
    assert_eq!((c.from_folder.as_str(), c.to_folder.as_str(), c.name.as_str()), ("./inputs", "./outputs", "clip.mkv"));
}

#[test]
fn task_files_are_distinct() {
    let (a, b) = (0x10u128, 0x01u128 << 124);
    assert_ne!(loaded_path(&a), loaded_path(&b));
    assert_ne!(finished_path(&a), finished_path(&b));
    assert_ne!(encode_tmp_path(&a, "mp4"), encode_tmp_path(&b, "mp4"));
    assert_ne!(encode_tmp_path(&a, "mp4"), finished_path(&a));
    assert_eq!(finished_path(&b), "./finished/10000000-0000-0000-0000-000000000000");
}

#[test]
fn result_actions() {
    let mut o = Orchestrator::new(base_config(&["http://h:1"]), strings(&["a.mkv"])).unwrap();
    let mut slots = open_slots(0, &RunningResponse { works: vec![], max_works: 1 });
    let t = o.next_dispatch(&mut slots).unwrap();
    let id = t.id;
    o.settle(&mut slots, t, Ok(SendOutcome::Accepted));
    let mut f = FinishedWork {
        task_id: id,
        work_type: WorkType::CrfSearch,
        filename: "a.mkv".into(),
        metadata: "30".into(),
        status: WorkStatus::Succeeded,
        error: String::new(),
    };
    assert!(matches!(o.result_action(0, &f), ResultAction::Succeeded(t) if t.id == id));
    assert!(matches!(o.result_action(1, &f), ResultAction::Ignore));
    f.status = WorkStatus::Failed;
    assert!(matches!(o.result_action(0, &f), ResultAction::Failed(_)));
    f.work_type = WorkType::Encode;
    assert!(matches!(o.result_action(0, &f), ResultAction::Ignore));
}

#[test]
fn clients_always_build_for_parsing_addresses() {
    let c = WorkerClient::new("http://10.0.0.2:9111").unwrap();
    assert_eq!(c.timeouts, HttpTimeouts { connect_secs: CONNECT_TIMEOUT_SECS, request_secs: REQUEST_TIMEOUT_SECS });
    assert_eq!((c.timeouts.connect_secs, c.timeouts.request_secs), (5, 300));
    let o = Orchestrator::new(base_config(&["http://h:1", "http://h:2/x"]), strings(&["a.mkv"])).unwrap();
    assert_eq!(o.clients.len(), 2);
    assert_eq!(o.clients[1].base, "http://h:2/x/");
}

#[test]
fn send_statuses() {
    assert_eq!(classify_send_status(200), SendStatus::Accepted);
    assert_eq!(classify_send_status(202), SendStatus::Accepted);
    assert_eq!(classify_send_status(299), SendStatus::Accepted);
    assert_eq!(classify_send_status(429), SendStatus::Busy);
    assert_eq!(classify_send_status(409), SendStatus::Conflict);
    assert_eq!(classify_send_status(400), SendStatus::Unexpected);
    assert_eq!(classify_send_status(500), SendStatus::Unexpected);
    assert_eq!(DownloadError::BadTaskId.status_code(), 400);
    assert_eq!(DownloadError::NotAvailable.status_code(), 404);
}
