use compression_pool::cmd::head::client::{ClientError, SendOutcome, WorkerClient};
use compression_pool::cmd::head::orchestrator::{
    download_temp_name, download_usable, free_slots, Orchestrator, OrchestratorError, SuccessPlan,
};
use compression_pool::cmd::head::queue::{Queues, Task, MAX_ATTEMPTS};
use compression_pool::cmd::worker::files::{content_disposition, loaded_listing, DownloadError};
use compression_pool::cmd::worker::jobs::{
    crf_search_result, encode_output_ok, encode_result, CommandOutcome, EncodeOutcome,
    ReserveError,
};
use compression_pool::cmd::worker::{encode_tmp_path, finished_path, loaded_path, upload_tmp_path, Works};
use compression_pool::config::{Config, ConfigError, CrfSearch, Encoder, Folders, Settings};
use compression_pool::paths::{is_valid_filename, output_name, select_videos, PathError};
use compression_pool::text::{parse_u32, tail, u32_text};
use compression_pool::types::{
    now_unix, FinishedResponse, FinishedWork, RunningResponse, RunningWork, WorkRequest,
    WorkStatus, WorkType, NO_CRF_METADATA,
};

fn request(id: u128, filename: &str) -> WorkRequest {
    WorkRequest {
        task_id: id,
        filename: filename.to_string(),
        arguments: vec![],
        container: "mp4".to_string(),
    }
}

fn strings(v: &[&str]) -> Vec<String> {
    v.iter().map(|s| s.to_string()).collect()
}

fn config(ffmpeg: &[&str]) -> Config {
    Config {
        workers: strings(&["http://127.0.0.1:9111", "http://127.0.0.1:9112"]),
        input_folder: "./inputs".into(),
        output_folder: "./outputs".into(),
        ab_av1_args: strings(&["--min-vmaf", "95"]),
        ffmpeg_args: strings(ffmpeg),
        container: "mp4".into(),
    }
}

fn settings(workers: &[&str], container: &str, ab: &str, ff: &str) -> Settings {
    Settings {
        workers: strings(workers),
        folders: Folders { input_folder: "./in".into(), output_folder: "./out".into() },
        crf_search: CrfSearch { ab_av1_arguments: ab.into() },
        encoder: Encoder { ffmpeg_arguments: ff.into(), ffmpeg_container: container.into() },
    }
}

// ---------------------------------------------------------------- text

#[test]
fn tail_keeps_last_ten_lines() {
    let text: String = (1..=12).map(|i| format!("l{i}\n")).collect();
    assert_eq!(tail(&text), "l3\nl4\nl5\nl6\nl7\nl8\nl9\nl10\nl11\nl12");
    assert_eq!(tail("a\r\nb"), "a\nb");
    assert_eq!(tail(""), "");
}

#[test]
fn decimal_round_trip() {
    for n in [0u32, 7, 10, 63, 4_294_967_295] {
        let t = u32_text(n);
        assert_eq!(t, n.to_string());
        assert_eq!(parse_u32(&t.chars().collect()), Some(n));
    }
    assert_eq!(parse_u32(&"+12".chars().collect()), Some(12));
    assert_eq!(parse_u32(&"+".chars().collect()), None);
    assert_eq!(parse_u32(&"-1".chars().collect()), None);
    assert_eq!(parse_u32(&"4294967296".chars().collect()), None);
    assert_eq!(parse_u32(&"".chars().collect()), None);
}

// ---------------------------------------------------------------- crf

#[test]
fn crf_first_announcing_line_wins() {
    // The first "crf" of a line is the one read.
    assert_eq!(compression_pool::crf::parse_crf("crf x crf 30\ncrf 31"), Some(31));
    assert_eq!(compression_pool::crf::parse_crf("crf 99\ncrf 12"), Some(12));
    assert_eq!(compression_pool::crf::parse_crf("crf 99999999999999999999\ncrf 12"), Some(12));
    assert_eq!(compression_pool::crf::parse_crf("crf\n42"), None);
    assert_eq!(compression_pool::crf::parse_crf("CrF=:= 7"), Some(7));
}

// ---------------------------------------------------------------- paths

#[test]
fn select_videos_sorts_and_checks() {
    let r = select_videos(strings(&["b.mkv", "notes.txt", "a.MP4", "c.webm"])).unwrap();
    assert_eq!(r, vec!["a.MP4", "b.mkv", "c.webm"]);
    let e = select_videos(strings(&["ok.mkv", "bad\u{7}.mkv"])).unwrap_err();
    assert_eq!(e, PathError::InvalidFilename("bad\u{7}.mkv".into()));
    // A name that is not a video is never checked.
    assert!(select_videos(strings(&["bad\u{7}.txt"])).unwrap().is_empty());
}

#[test]
fn collision_names_first_pair() {
    let e = compression_pool::paths::check_output_collisions(
        &strings(&["x.mkv", "A.mkv", "y.mkv", "a.webm", "x.avi"]),
        "mp4",
    )
    .unwrap_err();
    assert_eq!(
        e,
        PathError::OutputCollision {
            previous: "A.mkv".into(),
            file: "a.webm".into(),
            output: "a.mp4".into()
        }
    );
}

#[test]
fn container_is_trimmed() {
    assert_eq!(compression_pool::paths::normalize_container(" mkv\t").unwrap(), "mkv");
    assert_eq!(
        compression_pool::paths::normalize_container("m.kv").unwrap_err(),
        PathError::InvalidContainer("m.kv".into())
    );
}

// ---------------------------------------------------------------- config

#[test]
fn settings_validation() {
    assert!(matches!(
        settings(&[], "", "", "").validate_workers(),
        Err(ConfigError::NoWorkers)
    ));
    match settings(&["http://a:1", "not a url"], "", "", "").validate_workers() {
        Err(ConfigError::InvalidWorkerUrl(w)) => assert_eq!(w, "not a url"),
        _ => panic!("expected an invalid URL"),
    }
    assert!(settings(&["http://a:1"], "", "", "").validate_workers().is_ok());
    assert!(matches!(
        settings(&["http://a:1"], "m.kv", "", "").into_config(),
        Err(ConfigError::Container(_))
    ));
    assert!(matches!(
        settings(&["http://a:1"], "", "\"open", "").into_config(),
        Err(ConfigError::UnclosedQuotes)
    ));
    assert!(matches!(
        settings(&["http://a:1"], "", "", "'open").into_config(),
        Err(ConfigError::UnclosedQuotes)
    ));
    let c = settings(&["http://a:1"], " ", "--preset 4", "-c:v libsvtav1").into_config().unwrap();
    assert_eq!(c.container, "mp4");
    assert_eq!(c.ab_av1_args, vec!["--preset", "4"]);
    assert_eq!(c.ffmpeg_args, vec!["-c:v", "libsvtav1"]);
    assert_eq!(c.input_folder, "./in");
}

// ---------------------------------------------------------------- client

#[test]
fn client_base_gets_trailing_slash() {
    let c = WorkerClient::new("http://h:1/api").unwrap();
    assert_eq!(c.base.as_str(), "http://h:1/api/");
    assert!(matches!(WorkerClient::new("not a url"), Err(ClientError::InvalidUrl)));
    let c = WorkerClient::new("mailto:x@y").unwrap();
    assert!(matches!(c.url_with_segments(&["a"]), Err(ClientError::CannotBeABase)));
}

// ---------------------------------------------------------------- worker

#[test]
fn task_paths() {
    let id = 1u128;
    let text = "00000000-0000-0000-0000-000000000001";
    assert_eq!(loaded_path(&id), format!("./loaded/{text}"));
    assert_eq!(finished_path(&id), format!("./finished/{text}"));
    assert_eq!(encode_tmp_path(&id, "mkv"), format!("./finished/.encode-{text}.tmp.mkv"));
    assert_eq!(upload_tmp_path(&id), format!("./loaded/.upload-{text}.part"));
    assert_eq!(download_temp_name(id), format!(".download-{text}.part"));
}

#[test]
fn finished_task_is_not_started_again() {
    let mut works = Works::default();
    let r = request(7, "clip.mkv");
    works.reserve(1, WorkType::Encode, &r).unwrap();
    works.publish(encode_result(&r, EncodeOutcome::Published));
    assert!(works.running.is_empty());
    assert_eq!(works.finished[&7].filename, "clip.mp4");
    // Sending the same request again is a harmless duplicate.
    works.reserve(1, WorkType::Encode, &r).unwrap();
    assert!(works.running.is_empty());
    // A different kind under the same identifier conflicts.
    assert_eq!(
        works.reserve(1, WorkType::CrfSearch, &r).unwrap_err().status_code(),
        409
    );
    assert!(works.clear(7));
    assert!(!works.clear(7));
    assert!(works.finished.is_empty());
}

#[test]
fn reserve_refusals() {
    let mut works = Works::default();
    let mut r = request(1, "a.mkv");
    r.container = "m.kv".into();
    assert_eq!(works.reserve(1, WorkType::Encode, &r), Err(ReserveError::InvalidContainer));
    assert_eq!(ReserveError::InvalidContainer.status_code(), 400);
    assert_eq!(works.reserve(0, WorkType::Encode, &request(2, "a.mkv")), Err(ReserveError::NoCapacity));
}

#[test]
fn reports_and_responses() {
    let mut works = Works::default();
    works.reserve(2, WorkType::CrfSearch, &request(1, "a.mkv")).unwrap();
    works.reserve(2, WorkType::Encode, &request(2, "b.mkv")).unwrap();
    let running = works.running_response(2);
    assert_eq!(running.max_works, 2);
    assert_eq!(running.works.len(), 2);
    let b = running.works.iter().find(|w| w.id == 2).unwrap();
    assert_eq!(b.filename, "b.mkv");
    assert_eq!(b.work_type, WorkType::Encode);
    assert!(running.works.iter().any(|w| w.id == 1 && w.filename == "a.mkv"));
    works.publish(crf_search_result(
        &request(1, "a.mkv"),
        CommandOutcome::Exited { success: true, stdout: b"crf 30\n".to_vec(), stderr: vec![] },
    ));
    let finished = works.finished_response();
    assert_eq!(finished.finished.len(), 1);
    assert_eq!(finished.finished[0].metadata, "30");
    assert_eq!(works.running_response(2).works.len(), 1);
}

#[test]
fn crf_search_outcomes() {
    let r = request(1, "a.mkv");
    let f = crf_search_result(&r, CommandOutcome::SpawnFailed("not found".into()));
    assert_eq!(f.status, WorkStatus::Failed);
    assert_eq!(f.error, "could not run ab-av1: not found");
    let f = crf_search_result(
        &r,
        CommandOutcome::Exited { success: false, stdout: vec![], stderr: b"Error: no suitable crf found\n".to_vec() },
    );
    assert_eq!(f.status, WorkStatus::Succeeded);
    assert_eq!(f.metadata, NO_CRF_METADATA);
    let f = crf_search_result(
        &r,
        CommandOutcome::Exited { success: false, stdout: vec![], stderr: b"x\ny\n".to_vec() },
    );
    assert_eq!(f.error, "ab-av1 exited unsuccessfully: x\ny");
    assert_eq!(f.filename, "a.mkv");
    let f = crf_search_result(
        &r,
        CommandOutcome::Exited { success: true, stdout: b"done".to_vec(), stderr: b"crf 70".to_vec() },
    );
    assert_eq!(f.error, "could not extract a valid CRF from ab-av1 output");
    let f = crf_search_result(
        &r,
        CommandOutcome::Exited { success: true, stdout: b"done".to_vec(), stderr: b"No suitable CRF".to_vec() },
    );
    assert_eq!(f.metadata, NO_CRF_METADATA);
    // Invalid UTF-8 is read lossily.
    let f = crf_search_result(
        &r,
        CommandOutcome::Exited { success: true, stdout: vec![0xff, b'c', b'r', b'f', b' ', b'9'], stderr: vec![] },
    );
    assert_eq!(f.metadata, "9");
}

#[test]
fn encode_outcomes() {
    let r = request(1, "movie.webm");
    assert_eq!(encode_result(&r, EncodeOutcome::Published).filename, "movie.mp4");
    let f = encode_result(&r, EncodeOutcome::EmptyOutput);
    assert_eq!(f.error, "ffmpeg produced an empty file");
    assert_eq!(f.filename, "movie.webm");
    assert_eq!(
        encode_result(&r, EncodeOutcome::ExitFailed(b"bad\n".to_vec())).error,
        "ffmpeg exited unsuccessfully: bad"
    );
    assert_eq!(
        encode_result(&r, EncodeOutcome::PublishFailed("denied".into())).error,
        "could not publish the result: denied"
    );
    assert_eq!(
        encode_result(&r, EncodeOutcome::SpawnFailed("gone".into())).error,
        "could not run ffmpeg: gone"
    );
    assert!(encode_output_ok(Some(1)));
    assert!(!encode_output_ok(Some(0)));
    assert!(!encode_output_ok(None));
}

#[test]
fn downloads_only_successful_encodes() {
    let mut works = Works::default();
    let id = 0x0123u128;
    let text = "00000000-0000-0000-0000-000000000123";
    assert_eq!(works.download_name("nope"), Err(DownloadError::BadTaskId));
    assert_eq!(works.download_name(text), Err(DownloadError::NotAvailable));
    works.publish(FinishedWork {
        task_id: id,
        work_type: WorkType::CrfSearch,
        filename: "a.mkv".into(),
        metadata: "30".into(),
        status: WorkStatus::Succeeded,
        error: String::new(),
    });
    assert_eq!(works.download_name(text), Err(DownloadError::NotAvailable));
    works.publish(FinishedWork {
        task_id: id,
        work_type: WorkType::Encode,
        filename: "a.mp4".into(),
        metadata: String::new(),
        status: WorkStatus::Succeeded,
        error: String::new(),
    });
    assert_eq!(works.finished.len(), 1);
    assert_eq!(works.download_name(text), Ok((id, "a.mp4".to_string())));
    // Cleared: no longer downloadable.
    assert!(works.clear(id));
    assert_eq!(works.download_name(text), Err(DownloadError::NotAvailable));
    assert_eq!(content_disposition("a\"b.mp4"), "attachment; filename=\"a_b.mp4\"");
}

#[test]
fn loaded_listing_hides_partial_uploads() {
    let r = loaded_listing(strings(&["b", ".upload-x.part", "a", "é", "Z"]));
    assert_eq!(r, vec!["Z", "a", "b", "é"]);
}

// ---------------------------------------------------------------- head

#[test]
fn orchestrator_starts_with_one_task_per_video() {
    let o = Orchestrator::new(config(&["-c:v", "libsvtav1"]), strings(&["a.mkv", "b.mkv"])).unwrap();
    assert_eq!(o.queues.crf.len(), 2);
    assert!(o.queues.encode.is_empty());
    assert_eq!(o.queues.crf[0].arguments, vec!["--min-vmaf", "95"]);
    assert_eq!(o.clients.len(), 2);
    assert!(!o.is_done());
    let o = Orchestrator::new(config(&["-crf", "30"]), strings(&["a.mkv"])).unwrap();
    assert_eq!(o.queues.encode.len(), 1);
    assert_eq!(o.queues.encode[0].work_type, WorkType::Encode);
    assert!(matches!(
        Orchestrator::new(config(&[]), strings(&["a.mkv", "A.webm"])),
        Err(OrchestratorError::Paths(_))
    ));
    let mut bad = config(&[]);
    bad.workers = strings(&["::"]);
    assert!(matches!(Orchestrator::new(bad, vec![]), Err(OrchestratorError::Client(_))));
}

#[test]
fn failed_task_is_given_up_after_three_attempts() {
    let mut o = Orchestrator::new(config(&[]), strings(&["a.mkv"])).unwrap();
    for attempt in 1..=MAX_ATTEMPTS {
        let t = o.queues.pop_for(0).unwrap();
        o.retry_or_fail(t, "boom");
        if attempt < MAX_ATTEMPTS {
            assert_eq!(o.queues.crf[0].attempts, attempt);
            assert!(o.failures.is_empty());
        }
    }
    assert!(o.queues.is_empty());
    assert_eq!(o.failures, vec![("a.mkv".to_string(), "boom".to_string())]);
    assert!(o.is_done());
}

#[test]
fn send_outcomes() {
    let mut o = Orchestrator::new(config(&[]), strings(&["a.mkv", "b.mkv"])).unwrap();
    let t = o.queues.pop_for(1).unwrap();
    let id = t.id;
    assert!(o.after_send(1, t, Ok(SendOutcome::Accepted)));
    assert_eq!(o.active.len(), 1);
    assert_eq!(o.active[&id].worker, 1);
    let t = o.queues.pop_for(0).unwrap();
    assert!(!o.after_send(0, t, Ok(SendOutcome::Busy)));
    assert_eq!(o.queues.crf[0].affinity, None);
    let t = o.queues.pop_for(0).unwrap();
    assert!(o.after_send(0, t, Err("timeout".into())));
    assert_eq!(o.queues.crf[0].affinity, Some(0));
    // Pinned to worker 0: worker 1 cannot take it.
    assert!(o.queues.pop_for(1).is_none());
    let t = o.queues.pop_for(0).unwrap();
    assert!(o.after_send(0, t, Ok(SendOutcome::Conflict("taken".into()))));
    assert_eq!(o.queues.crf[0].attempts, 1);
    let req = o.work_request(&o.queues.crf[0].clone());
    assert_eq!(req.filename, "b.mkv");
    assert_eq!(req.container, "mp4");
    // The accepted task's result is matched only from its own worker.
    let f = FinishedWork {
        task_id: id,
        work_type: WorkType::CrfSearch,
        filename: "a.mkv".into(),
        metadata: "31".into(),
        status: WorkStatus::Succeeded,
        error: String::new(),
    };
    assert!(o.finished_match(0, &f).is_none());
    let task = o.finished_match(1, &f).unwrap();
    assert!(matches!(o.success_plan(&task, &f), SuccessPlan::QueueEncode(31)));
    o.queue_encode(&task, 31, 1);
    let e = o.queues.encode.back().unwrap();
    assert_eq!(e.arguments, vec!["-crf", "31"]);
    assert_eq!(e.affinity, Some(1));
    o.complete(id);
    assert!(o.active.is_empty());
}

#[test]
fn success_plans() {
    let o = Orchestrator::new(config(&[]), vec![]).unwrap();
    let t = Task::new("a.mkv".into(), WorkType::CrfSearch, vec![]);
    let mut f = FinishedWork {
        task_id: t.id,
        work_type: WorkType::CrfSearch,
        filename: "a.mkv".into(),
        metadata: NO_CRF_METADATA.into(),
        status: WorkStatus::Succeeded,
        error: String::new(),
    };
    assert!(matches!(o.success_plan(&t, &f), SuccessPlan::CopySource));
    f.metadata = "x".into();
    assert!(matches!(o.success_plan(&t, &f), SuccessPlan::CrfNotInteger));
    f.metadata = "64".into();
    assert!(matches!(o.success_plan(&t, &f), SuccessPlan::CrfOutOfRange(64)));
    f.metadata = "+7".into();
    assert!(matches!(o.success_plan(&t, &f), SuccessPlan::QueueEncode(7)));
    let e = Task::new("a.mkv".into(), WorkType::Encode, vec![]);
    assert!(matches!(o.success_plan(&e, &f), SuccessPlan::Publish));
}

fn snapshot(running: &[u128], finished: &[u128]) -> Option<(RunningResponse, FinishedResponse)> {
    Some((
        RunningResponse {
            works: running
                .iter()
                .map(|id| RunningWork { id: *id, work_type: WorkType::CrfSearch, filename: "a.mkv".into(), start_time: 0 })
                .collect(),
            max_works: 2,
        },
        FinishedResponse {
            finished: finished
                .iter()
                .map(|id| FinishedWork {
                    task_id: *id,
                    work_type: WorkType::CrfSearch,
                    filename: "a.mkv".into(),
                    metadata: String::new(),
                    status: WorkStatus::Failed,
                    error: String::new(),
                })
                .collect(),
        },
    ))
}

#[test]
fn polls_adopt_and_resend() {
    let mut o = Orchestrator::new(config(&[]), strings(&["a.mkv", "b.mkv"])).unwrap();
    let a = o.queues.crf[0].id;
    let b = o.queues.crf[1].id;
    // Worker 1 already runs task a: it is adopted.
    o.adopt_and_track(&vec![None, snapshot(&[a], &[])]);
    assert_eq!(o.queues.crf.len(), 1);
    assert_eq!(o.active[&a].task.id, a);
    assert_eq!(o.active[&a].worker, 1);
    // Seen: stamped now, not due.
    assert!(o.due_for_resend(&vec![None, snapshot(&[a], &[])], 1_000).is_empty());
    // Missing from here on.
    o.adopt_and_track(&vec![None, snapshot(&[], &[])]);
    assert!(o.due_for_resend(&vec![None, snapshot(&[], &[])], 5_999).is_empty());
    // Worker down: no decision.
    assert!(o.due_for_resend(&vec![None, None], 9_000).is_empty());
    assert_eq!(o.due_for_resend(&vec![None, snapshot(&[], &[])], 6_000), vec![a]);
    o.mark_present(a);
    assert_eq!(o.active[&a].missing_since, None);
    let (t, w) = o.active_task(a).unwrap();
    assert_eq!((t.id, w), (a, 1));
    assert!(o.active_task(b).is_none());
    let t = o.active[&a].task.clone();
    o.fail_active(t, "crashed");
    assert!(o.active.is_empty());
    assert_eq!(o.queues.crf[0].id, a);
}

#[test]
fn small_rules() {
    let r = RunningResponse { works: vec![], max_works: 3 };
    assert_eq!(free_slots(&r), 3);
    let r = RunningResponse {
        works: (0..5u128).map(|id| RunningWork { id, work_type: WorkType::Encode, filename: "x".into(), start_time: 0 }).collect(),
        max_works: 3,
    };
    assert_eq!(free_slots(&r), 0);
    assert!(download_usable(1));
    assert!(!download_usable(0));
    assert!(now_unix() > 1_600_000_000);
    let _ = Queues::default();
}

#[test]
fn requeued_pinned_task_comes_back_first() {
    let mut q = Queues::default();
    q.encode.push_back(Task::new("a.mkv".into(), WorkType::Encode, vec![]));
    let mut t = Task::new("b.mkv".into(), WorkType::Encode, vec![]);
    t.affinity = Some(2);
    let id = t.id;
    q.requeue_front(t);
    assert_eq!(q.pop_for(2).unwrap().id, id);
    // Taking a task leaves the others in place.
    assert_eq!(q.encode.len(), 1);
    assert_eq!(q.encode[0].filename, "a.mkv");
    assert!(q.remove(&id).is_none());
}

#[test]
fn accepting_twice_keeps_one_record() {
    let mut o = Orchestrator::new(config(&[]), strings(&["a.mkv"])).unwrap();
    let t = o.queues.pop_for(0).unwrap();
    let copy = t.clone();
    assert!(o.after_send(0, t, Ok(SendOutcome::Accepted)));
    let id = copy.id;
    assert!(o.after_send(1, copy, Ok(SendOutcome::Accepted)));
    assert_eq!(o.active.len(), 1);
    assert_eq!(o.active[&id].worker, 1);
}

#[test]
fn reported_crf_is_read_back() {
    let o = Orchestrator::new(config(&["-preset", "4"]), vec![]).unwrap();
    let r = request(5, "a.mkv");
    let f = crf_search_result(
        &r,
        CommandOutcome::Exited { success: true, stdout: b"Best crf 27".to_vec(), stderr: vec![] },
    );
    let t = Task::new("a.mkv".into(), WorkType::CrfSearch, vec![]);
    assert!(matches!(o.success_plan(&t, &f), SuccessPlan::QueueEncode(27)));
}

#[test]
fn no_suitable_crf_is_understood() {
    let o = Orchestrator::new(config(&["-preset", "4"]), vec![]).unwrap();
    let r = request(6, "b.mkv");
    let t = Task::new("b.mkv".into(), WorkType::CrfSearch, vec![]);
    let f = crf_search_result(
        &r,
        CommandOutcome::Exited {
            success: false,
            stdout: vec![],
            stderr: b"Error: No suitable CRF found".to_vec(),
        },
    );
    assert!(matches!(o.success_plan(&t, &f), SuccessPlan::CopySource));
    let f = crf_search_result(
        &r,
        CommandOutcome::Exited { success: true, stdout: b"crf 80\nno suitable crf".to_vec(), stderr: vec![] },
    );
    assert!(matches!(o.success_plan(&t, &f), SuccessPlan::CopySource));
}

#[test]
fn published_names_pass_the_name_check() {
    for (input, container) in [("Mi vídeo.mkv", "webm"), ("a", "mp4"), (".x", "mkv"), ("a.b.c", "MP4")] {
        let out = output_name(input, container);
        assert!(is_valid_filename(input));
        assert!(is_valid_filename(&out), "{out:?}");
    }
}
