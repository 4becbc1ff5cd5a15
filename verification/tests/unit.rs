use compression_pool::cmd::head::client::WorkerClient;
use compression_pool::cmd::head::queue::{Queues, Task};
use compression_pool::cmd::worker::jobs::ReserveError;
use compression_pool::cmd::worker::Works;
use compression_pool::config::{args_fixed_quality, split_args};
use compression_pool::crf::{is_no_suitable_crf, parse_crf};
use compression_pool::paths::{
    check_output_collisions, is_valid_filename, is_video, normalize_container, output_name,
};
use compression_pool::types::{WorkRequest, WorkType};

#[test]
fn url_segments_are_encoded() {
    let c = WorkerClient::new("http://localhost:9111").unwrap();
    let url = c
        .url_with_segments(&["finished", "download", "video clip+#.webm"])
        .unwrap();
    assert_eq!(
        url.as_str(),
        "http://localhost:9111/finished/download/video%20clip+%23.webm"
    );
    // A single segment: the path is not altered.
    let parsed = url::Url::parse(&url).unwrap();
    assert_eq!(parsed.path_segments().unwrap().count(), 3);
}

fn task(ty: WorkType, affinity: Option<usize>) -> Task {
    let mut t = Task::new("v.mkv".into(), ty, vec![]);
    t.affinity = affinity;
    t
}

#[test]
fn encode_has_priority_over_crf() {
    let mut q = Queues::default();
    q.crf.push_back(task(WorkType::CrfSearch, None));
    q.encode.push_back(task(WorkType::Encode, None));
    assert_eq!(q.pop_for(0).unwrap().work_type, WorkType::Encode);
    assert_eq!(q.pop_for(0).unwrap().work_type, WorkType::CrfSearch);
}

#[test]
fn affinity_is_respected() {
    let mut q = Queues::default();
    q.encode.push_back(task(WorkType::Encode, Some(1)));
    q.encode.push_back(task(WorkType::Encode, None));
    // Worker 0 can only take the task without affinity.
    assert!(q.pop_for(0).is_some());
    assert!(q.pop_for(0).is_none());
    // Worker 1 takes its own.
    assert_eq!(q.pop_for(1).unwrap().affinity, Some(1));
}

fn req(id: u128, filename: &str) -> WorkRequest {
    WorkRequest {
        task_id: id,
        filename: filename.to_string(),
        arguments: vec![],
        container: "mp4".to_string(),
    }
}

#[test]
fn concurrent_reservation_never_exceeds_max_works() {
    let mut works = Works::default();
    let a = req(1, "a.mkv");
    let b = req(2, "b.mkv");
    let r1 = works.reserve(1, WorkType::Encode, &a);
    let r2 = works.reserve(1, WorkType::Encode, &b);
    let ok = [r1.is_ok(), r2.is_ok()].iter().filter(|b| **b).count();
    let busy = [&r1, &r2]
        .iter()
        .filter(|r| matches!(r, Err(ReserveError::NoCapacity)))
        .count();
    assert_eq!(ok, 1, "only one reservation can succeed");
    assert_eq!(busy, 1, "the other must receive 429");
    assert_eq!(ReserveError::NoCapacity.status_code(), 429);
}

#[test]
fn idempotent_same_task_id() {
    let mut works = Works::default();
    let id = 0x1234_5678_9abc_def0_1234_5678_9abc_def0u128;
    works.reserve(1, WorkType::Encode, &req(id, "a.mkv")).unwrap();
    // Same ID, same task: success without launching another process.
    works.reserve(1, WorkType::Encode, &req(id, "a.mkv")).unwrap();
    assert_eq!(works.running.len(), 1);
    // Same ID, different task: conflict 409.
    let other = works.reserve(1, WorkType::CrfSearch, &req(id, "a.mkv"));
    assert!(matches!(other, Err(ReserveError::Conflict)));
    let other = works.reserve(1, WorkType::Encode, &req(id, "b.mkv"));
    assert!(matches!(other, Err(ReserveError::Conflict)));
}

#[test]
fn rejects_untrusted_filenames() {
    let mut works = Works::default();
    let mut id = 10u128;
    for bad in ["../x.mkv", "carpeta/x.mkv", "carpeta\\x.mkv", ".", "..", "a\0b.mkv"] {
        id += 1;
        let r = works.reserve(1, WorkType::Encode, &req(id, bad));
        assert!(matches!(r, Err(ReserveError::InvalidFilename)), "{bad:?}");
    }
    assert!(works.running.is_empty());
}

#[test]
fn splits_quoted_args() {
    let v = split_args("-metadata \"title=Mi vídeo\" -c:v libsvtav1").unwrap();
    assert_eq!(v, vec!["-metadata", "title=Mi vídeo", "-c:v", "libsvtav1"]);
    let v = split_args("--min-vmaf 95 --preset 4").unwrap();
    assert_eq!(v, vec!["--min-vmaf", "95", "--preset", "4"]);
    assert_eq!(split_args("").unwrap(), Vec::<String>::new());
}

#[test]
fn unclosed_quotes_error() {
    assert!(split_args("-metadata \"title=sin cerrar").is_err());
}

#[test]
fn detects_quality_args() {
    assert!(args_fixed_quality(&["-crf".into(), "24".into()]));
    assert!(args_fixed_quality(&["-crf=24".into()]));
    assert!(args_fixed_quality(&["-preset".into(), "6".into(), "-b:v".into(), "1M".into()]));
    assert!(args_fixed_quality(&["-b:v=2M".into()]));
    assert!(!args_fixed_quality(&["-preset".into(), "6".into(), "-c:v".into(), "libsvtav1".into()]));
    assert!(!args_fixed_quality(&[]));
}

#[test]
fn parses_valid_crf() {
    assert_eq!(parse_crf("blah blah\ncrf 42\n"), Some(42));
    assert_eq!(parse_crf("CRF: 37"), Some(37));
    assert_eq!(parse_crf("using crf=20 today"), Some(20));
    assert_eq!(parse_crf("  crf   55 done"), Some(55));
    assert_eq!(parse_crf("crf 0"), Some(0));
    assert_eq!(parse_crf("crf 63"), Some(63));
}

#[test]
fn rejects_invalid_crf() {
    assert_eq!(parse_crf("crf 64"), None);
    assert_eq!(parse_crf("crf 100"), None);
    assert_eq!(parse_crf("crf"), None);
    assert_eq!(parse_crf("nothing here"), None);
    assert_eq!(parse_crf(""), None);
}

#[test]
fn no_suitable() {
    assert!(is_no_suitable_crf("Error: no suitable crf found"));
    assert!(is_no_suitable_crf("No Suitable CRF"));
    assert!(!is_no_suitable_crf("crf 37"));
}

#[test]
fn valid_filenames() {
    assert!(is_valid_filename("video.mkv"));
    assert!(is_valid_filename("video clip+#.webm"));
    assert!(is_valid_filename("Mi vídeo.mp4"));
    assert!(!is_valid_filename("../archivo.mp4"));
    assert!(!is_valid_filename("carpeta/archivo.mp4"));
    assert!(!is_valid_filename("carpeta\\archivo.mp4"));
    assert!(!is_valid_filename("."));
    assert!(!is_valid_filename(".."));
    assert!(!is_valid_filename(""));
    assert!(!is_valid_filename("a\0b.mkv"));
    assert!(!is_valid_filename("a\nb.mkv"));
}

#[test]
fn containers() {
    assert_eq!(normalize_container("").unwrap(), "mp4");
    assert_eq!(normalize_container("  ").unwrap(), "mp4");
    assert_eq!(normalize_container("mkv").unwrap(), "mkv");
    assert_eq!(normalize_container("webm").unwrap(), "webm");
    assert!(normalize_container("m.kv").is_err());
    assert!(normalize_container("mk v").is_err());
    assert!(normalize_container("../x").is_err());
    assert!(normalize_container("mk-v").is_err());
}

#[test]
fn video_detection() {
    assert!(is_video("a.mp4"));
    assert!(is_video("a.MKV"));
    assert!(is_video("a.WebM"));
    assert!(!is_video("a.txt"));
    assert!(!is_video("noext"));
}

#[test]
fn output_names() {
    assert_eq!(output_name("pelicula.mkv", "mp4"), "pelicula.mp4");
    assert_eq!(output_name("pelicula.webm", "mp4"), "pelicula.mp4");
    assert_eq!(output_name("sin.ext.rara.mkv", "webm"), "sin.ext.rara.webm");
}

#[test]
fn collisions() {
    assert!(check_output_collisions(&["pelicula.mkv".into(), "pelicula.webm".into()], "mp4").is_err());
    assert!(check_output_collisions(&["a.mkv".into(), "b.webm".into()], "mp4").is_ok());
}
