use anyflipdl::error::AppError;
use anyflipdl::queue::{CancelOutcome, CompletionStatus, DownloadOutcome, QueueState, MAX_COMPLETED_HISTORY};

fn add(q: &mut QueueState, id: &str, url: &str) -> Result<usize, AppError> {
    q.enqueue(id.to_string(), url.to_string(), "pdf".to_string(), "/tmp".to_string(), false)
}

#[test]
fn queue_positions_count_the_active_download() {
    let mut q = QueueState::new();
    assert_eq!(add(&mut q, "a", "https://anyflip.com/user/book1").unwrap(), 0);
    assert_eq!(add(&mut q, "b", "https://anyflip.com/user/book2").unwrap(), 1);
    let rep = q.start_next();
    assert!(!rep.idle);
    assert_eq!(q.active().unwrap().id, "a");
    assert_eq!(add(&mut q, "c", "https://anyflip.com/user/book3").unwrap(), 2);
    assert_eq!(q.pending_len(), 2);
}

#[test]
fn enqueue_rejects_duplicate_url() {
    let mut q = QueueState::new();
    add(&mut q, "a", "https://anyflip.com/user/book").unwrap();
    let err = add(&mut q, "b", "https://anyflip.com/user/book").unwrap_err();
    assert!(err.to_string().contains("already"));
    assert_eq!(err.to_string(), "Download error: URL is already in the queue");
    q.start_next();
    let err = add(&mut q, "c", "https://anyflip.com/user/book").unwrap_err();
    assert_eq!(err.to_string(), "Download error: URL is already being downloaded");
}

#[test]
fn enqueue_validates_url() {
    let mut q = QueueState::new();
    assert!(add(&mut q, "a", "https://google.com/not-anyflip").is_err());
    assert_eq!(q.pending_len(), 0);
}

#[test]
fn enqueue_validates_format() {
    let mut q = QueueState::new();
    let err = q
        .enqueue("b".to_string(), "https://anyflip.com/user/book".to_string(), "docx".to_string(), "/tmp".to_string(), false)
        .unwrap_err();
    assert!(err.to_string().contains("must be 'pdf' or 'epub'"));
    assert_eq!(q.pending_len(), 0);
}

#[test]
fn cancel_nonexistent_is_ok() {
    let mut q = QueueState::new();
    add(&mut q, "a", "https://anyflip.com/user/book1").unwrap();
    assert_eq!(q.cancel("nonexistent-id", 0), CancelOutcome::NotFound);
    assert_eq!(q.pending_len(), 1);
}

#[test]
fn cancel_pending_removes_from_queue() {
    let mut q = QueueState::new();
    add(&mut q, "a", "https://anyflip.com/user/book1").unwrap();
    add(&mut q, "b", "https://anyflip.com/user/book2").unwrap();
    q.start_next();
    assert_eq!(q.cancel("b", 0), CancelOutcome::RemovedPending);
    assert_eq!(q.pending_len(), 0);
    assert_eq!(q.cancel("a", 1500), CancelOutcome::CancelledActive);
    assert!(q.active().is_none());
    let snap = q.snapshot();
    assert_eq!(snap.completed.len(), 1);
    assert_eq!(snap.completed[0].id, "a");
    assert_eq!(snap.completed[0].status, "Cancelled");
}

#[test]
fn next_item_starts_after_completion() {
    let mut q = QueueState::new();
    add(&mut q, "a", "https://anyflip.com/user/book1").unwrap();
    add(&mut q, "b", "https://anyflip.com/user/book2").unwrap();
    q.start_next();
    q.finish_active(DownloadOutcome::Failed(AppError::DownloadError("boom".to_string())), 10);
    assert_eq!(q.active().unwrap().id, "b");
    q.finish_active(DownloadOutcome::Finished("/tmp/x.pdf".to_string()), 20);
    let snap = q.snapshot();
    assert!(snap.active.is_none());
    assert_eq!(snap.completed.len(), 2);
    assert_eq!(snap.completed[0].status, "Error");
    assert_eq!(snap.completed[0].error, Some("Download error: boom".to_string()));
    assert_eq!(snap.completed[1].status, "Success");
    assert_eq!(snap.completed[1].output_path, Some("/tmp/x.pdf".to_string()));
    assert_eq!(CompletionStatus::Success.name(), "Success");
}

#[test]
fn queue_pause_and_resume_only_the_active() {
    let mut q = QueueState::new();
    add(&mut q, "a", "https://anyflip.com/user/book1").unwrap();
    assert_eq!(
        q.pause("a").unwrap_err().to_string(),
        "Download error: Cannot pause: download is not active"
    );
    q.start_next();
    assert!(q.pause("a").is_ok());
    assert!(q.resume("a").is_ok());
    assert!(q.resume("zzz").is_err());
}

#[test]
fn queue_history_is_bounded() {
    let mut q = QueueState::new();
    for i in 0..(MAX_COMPLETED_HISTORY + 5) {
        let url = format!("https://anyflip.com/user/book{}", i);
        add(&mut q, &format!("id{}", i), &url).unwrap();
        q.start_next();
        q.finish_active(DownloadOutcome::Finished(format!("/out/{}.pdf", i)), 1);
    }
    let snap = q.snapshot();
    assert_eq!(snap.completed.len(), MAX_COMPLETED_HISTORY);
    assert_eq!(snap.completed[0].id, "id5");
}

#[test]
fn get_state_returns_snapshot() {
    let mut q = QueueState::new();
    add(&mut q, "a", "https://anyflip.com/user/book1").unwrap();
    add(&mut q, "b", "https://anyflip.com/user/book2").unwrap();
    let snap = q.snapshot();
    let total = snap.pending.len() + snap.completed.len() + if snap.active.is_some() { 1 } else { 0 };
    assert!(total >= 2, "Expected at least 2 items in queue state");
    assert_eq!(snap.pending.len(), 2);
    assert_eq!(snap.pending[1].id, "b");
    assert_eq!(snap.pending[1].position, 1);
    assert!(q.start_next().skipped.is_empty());
    let empty = QueueState::new().snapshot();
    assert!(empty.active.is_none() && empty.pending.is_empty() && empty.completed.is_empty());
}

#[test]
fn queue_enqueue_then_cancel_restores_the_queue() {
    let mut q = QueueState::new();
    add(&mut q, "a", "https://anyflip.com/user/book1").unwrap();
    let before = q.snapshot();
    add(&mut q, "b", "https://anyflip.com/user/book2").unwrap();
    assert_eq!(q.cancel("b", 0), CancelOutcome::RemovedPending);
    let after = q.snapshot();
    assert_eq!(after.pending.len(), before.pending.len());
    assert_eq!(after.pending[0].id, before.pending[0].id);
    assert_eq!(after.completed.len(), before.completed.len());
}

#[test]
fn error_moves_to_completed() {
    let mut q = QueueState::new();
    add(&mut q, "a", "https://anyflip.com/user/book").unwrap();
    q.start_next();
    q.finish_active(DownloadOutcome::Failed(AppError::MetadataError("not found".to_string())), 3);
    let state = q.snapshot();
    assert!(!state.completed.is_empty(), "Expected at least one completed item after download failure");
    assert_eq!(state.completed[0].status, "Error");
}

#[test]
fn enqueued_item_waits_at_the_back() {
    let mut q = QueueState::new();
    add(&mut q, "a", "https://anyflip.com/user/book1").unwrap();
    q.start_next();
    add(&mut q, "b", "https://anyflip.com/user/book2").unwrap();
    let pos = add(&mut q, "c", "https://anyflip.com/user/book3").unwrap();
    let snap = q.snapshot();
    assert_eq!(snap.active.as_ref().unwrap().id, "a");
    assert_eq!(snap.pending.len(), 2);
    assert_eq!(snap.pending[1].id, "c");
    assert_eq!(pos, 2);
    q.start_next();
    assert_eq!(q.active().unwrap().id, "a");
}

#[test]
fn aborted_download_starts_nothing_by_itself() {
    let mut q = QueueState::new();
    add(&mut q, "a", "https://anyflip.com/user/book1").unwrap();
    add(&mut q, "b", "https://anyflip.com/user/book2").unwrap();
    q.start_next();
    q.finish_active(DownloadOutcome::Aborted, 5);
    assert!(q.active().is_none());
    assert_eq!(q.pending_len(), 1);
}
