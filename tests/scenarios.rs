use rdownloader::dispatcher::{
    backoff_secs, check_protocol, on_probe_response, probe_outcome, select_mode, DispatchError,
    DownloadMode, ProbeResponse, ProbeStep,
};
use rdownloader::executor::{
    check_chunk_response, check_stream_response, completed_bytes, fetch_concurrency, finish_run,
    mark_completed, pending_chunks, reconcile, state_is_valid, DownloadError, DownloadState,
    ResumeAction, StoredState,
};
use rdownloader::planner::ChunkState;

fn response(status: u16) -> ProbeResponse {
    ProbeResponse {
        status,
        content_range: None,
        content_length: None,
        accept_ranges: None,
        etag: None,
        content_type: None,
    }
}

fn record(url: &str, total: u64, etag: Option<&str>, chunks: Vec<ChunkState>) -> DownloadState {
    DownloadState { url: url.to_string(), total_size: total, etag: etag.map(String::from), chunks }
}

#[test]
fn parallel_happy_path() {
    let mut resp = response(206);
    resp.content_range = Some("bytes 0-1/5242880".to_string());
    resp.etag = Some("\"v1\"".to_string());
    resp.content_type = Some("application/zip".to_string());
    let outcome = match on_probe_response(1, &resp) {
        ProbeStep::Proceed(o) => o,
        other => panic!("unexpected step {:?}", other),
    };
    assert_eq!(outcome.total_size, Some(5242880));
    assert!(outcome.accept_ranges);
    assert_eq!(outcome.identity_tag.as_deref(), Some("\"v1\""));
    assert_eq!(outcome.content_type.as_deref(), Some("application/zip"));
    assert_eq!(select_mode(&outcome), DownloadMode::Multipart(5242880));
    assert_eq!(fetch_concurrency(true), 8);

    let url = "http://example.com/a.zip";
    let mut r = reconcile(StoredState::Absent, url, 5242880, &outcome.identity_tag, true);
    assert_eq!(r.action, ResumeAction::Fresh);
    assert_eq!(r.state.chunks, vec![ChunkState { start: 0, end: 5242879, completed: false }]);
    assert_eq!(pending_chunks(&r.state), vec![0]);
    let ok = check_chunk_response(206, &outcome.content_type, &outcome.content_type);
    assert!(ok.is_ok());
    mark_completed(&mut r.state, 0);
    assert_eq!(completed_bytes(&r.state), 5242880);
    let end = finish_run(&vec![ok]);
    assert!(end.outcome.is_ok());
    assert!(end.remove_sidecar);
}

#[test]
fn cold_restart_on_size_change() {
    let url = "http://example.com/f";
    let old = record(url, 100, Some("a"), vec![ChunkState { start: 0, end: 99, completed: true }]);
    let etag = Some("a".to_string());
    let r = reconcile(StoredState::Found(old), url, 200, &etag, false);
    assert_eq!(r.action, ResumeAction::ColdRestart);
    assert_eq!(r.state.total_size, 200);
    assert_eq!(r.state.chunks, vec![ChunkState { start: 0, end: 199, completed: false }]);
    assert_eq!(completed_bytes(&r.state), 0);
}

#[test]
fn cold_restart_on_url_or_etag_change() {
    let chunks = vec![ChunkState { start: 0, end: 99, completed: true }];
    let etag = Some("a".to_string());
    let r = reconcile(StoredState::Found(record("http://x/1", 100, Some("a"), chunks.clone())), "http://x/2", 100, &etag, false);
    assert_eq!(r.action, ResumeAction::ColdRestart);
    let r = reconcile(StoredState::Found(record("http://x/1", 100, None, chunks.clone())), "http://x/1", 100, &etag, false);
    assert_eq!(r.action, ResumeAction::ColdRestart);
    let r = reconcile(StoredState::Unreadable, "http://x/1", 100, &etag, false);
    assert_eq!(r.action, ResumeAction::ColdRestart);
    assert_eq!(r.state.chunks, vec![ChunkState { start: 0, end: 99, completed: false }]);
}

#[test]
fn malformed_record_is_not_resumed() {
    let bad = record("http://x/1", 100, None, vec![ChunkState { start: 0, end: 49, completed: true }]);
    assert!(!state_is_valid(&bad));
    let r = reconcile(StoredState::Found(bad), "http://x/1", 100, &None, false);
    assert_eq!(r.action, ResumeAction::ColdRestart);
}

#[test]
fn warm_resume() {
    let url = "http://example.com/f";
    let chunks = vec![
        ChunkState { start: 0, end: 999, completed: true },
        ChunkState { start: 1000, end: 1999, completed: false },
    ];
    let etag = Some("e".to_string());
    let mut r = reconcile(StoredState::Found(record(url, 2000, Some("e"), chunks.clone())), url, 2000, &etag, true);
    assert_eq!(r.action, ResumeAction::WarmResume);
    assert_eq!(r.state.chunks, chunks);
    assert_eq!(completed_bytes(&r.state), 1000);
    assert_eq!(pending_chunks(&r.state), vec![1]);
    mark_completed(&mut r.state, 1);
    assert_eq!(completed_bytes(&r.state), 2000);
    assert!(pending_chunks(&r.state).is_empty());
    let end = finish_run(&vec![Ok(())]);
    assert!(end.remove_sidecar);
}

#[test]
fn probe_backoff() {
    assert!(matches!(on_probe_response(1, &response(500)), ProbeStep::RetryAfter(1)));
    assert!(matches!(on_probe_response(2, &response(500)), ProbeStep::RetryAfter(2)));
    assert!(matches!(on_probe_response(3, &response(200)), ProbeStep::Proceed(_)));
    assert_eq!(backoff_secs(1), 1);
    assert_eq!(backoff_secs(2), 2);
    assert_eq!(backoff_secs(3), 4);
}

#[test]
fn probe_gives_up_with_last_status() {
    match on_probe_response(3, &response(503)) {
        ProbeStep::GiveUp(DispatchError::HttpError(s)) => assert_eq!(s, 503),
        other => panic!("unexpected step {:?}", other),
    }
}

#[test]
fn content_type_guard() {
    let pdf = Some("application/pdf".to_string());
    let html = Some("text/html".to_string());
    assert!(matches!(check_chunk_response(206, &html, &pdf), Err(DownloadError::ContentTypeMismatch)));
    assert!(matches!(check_chunk_response(206, &None, &pdf), Err(DownloadError::ContentTypeMismatch)));
    assert!(matches!(check_chunk_response(404, &pdf, &pdf), Err(DownloadError::HttpError(404))));
    assert!(check_chunk_response(200, &pdf, &pdf).is_ok());
    assert!(check_chunk_response(206, &None, &None).is_ok());

    let url = "http://example.com/doc.pdf";
    let total = 30 * 1024 * 1024;
    let mut r = reconcile(StoredState::Absent, url, total, &None, true);
    assert_eq!(r.state.chunks.len(), 3);
    let results = vec![Ok(()), check_chunk_response(206, &html, &pdf), Ok(())];
    mark_completed(&mut r.state, 0);
    mark_completed(&mut r.state, 2);
    let end = finish_run(&results);
    assert!(matches!(end.outcome, Err(DownloadError::ChunkDownloadFailed)));
    assert!(!end.remove_sidecar);
    let again = reconcile(StoredState::Found(r.state), url, total, &None, true);
    assert_eq!(again.action, ResumeAction::WarmResume);
    assert_eq!(pending_chunks(&again.state), vec![1]);
}

#[test]
fn stream_fallback() {
    let outcome = probe_outcome(&response(200));
    assert_eq!(outcome.total_size, None);
    assert_eq!(select_mode(&outcome), DownloadMode::Stream);
    assert!(check_stream_response(200).is_ok());
    assert!(matches!(check_stream_response(404), Err(DownloadError::HttpError(404))));
}

#[test]
fn size_from_content_length() {
    let mut resp = response(200);
    resp.content_length = Some("2097152".to_string());
    resp.accept_ranges = Some("bytes".to_string());
    assert_eq!(select_mode(&probe_outcome(&resp)), DownloadMode::Multipart(2097152));
    resp.accept_ranges = Some("none".to_string());
    assert_eq!(select_mode(&probe_outcome(&resp)), DownloadMode::Sequential(2097152));
    resp.accept_ranges = None;
    resp.content_length = Some("1048576".to_string());
    assert_eq!(select_mode(&probe_outcome(&resp)), DownloadMode::Sequential(1048576));
    assert_eq!(fetch_concurrency(false), 1);
}

#[test]
fn content_range_wins_over_content_length() {
    let mut resp = response(206);
    resp.content_range = Some("bytes 0-1/500".to_string());
    resp.content_length = Some("2".to_string());
    let o = probe_outcome(&resp);
    assert_eq!(o.total_size, Some(500));
    assert_eq!(select_mode(&o), DownloadMode::Sequential(500));
}

#[test]
fn protocol_check() {
    assert!(check_protocol("http://a").is_ok());
    assert!(check_protocol("https://a").is_ok());
    match check_protocol("ftp://a") {
        Err(DispatchError::UnsupportedProtocol(u)) => assert_eq!(u, "ftp://a"),
        other => panic!("unexpected {:?}", other),
    }
    assert!(check_protocol("http:/a").is_err());
}
