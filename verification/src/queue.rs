//! The download queue: one active download at a time, a FIFO of pending
//! items, and a bounded history of finished items.
//!
//! The state machine here makes every decision; the caller performs the
//! downloads and reports their outcome back.

use vstd::prelude::*;
use std::collections::VecDeque;
use crate::error::{AppError, ErrorKind};
use crate::text::concat;
use crate::validator::{
    format_fault_message, is_known_format, save_path_fault, url_fault, validate_format,
    validate_save_path, validate_url,
};

verus! {

broadcast use vstd::string::group_string_axioms;

/// Maximum number of finished items kept for display.
pub const MAX_COMPLETED_HISTORY: usize = 100;

/// How a finished download ended.
#[derive(Debug, Clone, Copy, PartialEq, Eq, Structural)]
pub enum CompletionStatus {
    Success,
    Error,
    Cancelled,
}

/// A download request, waiting or active.
#[derive(Debug)]
pub struct QueueItem {
    pub id: String,
    pub url: String,
    pub format: String,
    pub save_path: String,
    pub compression: bool,
}

/// A finished download.
#[derive(Debug)]
pub struct CompletedItem {
    pub id: String,
    pub url: String,
    pub status: CompletionStatus,
    pub output_path: Option<String>,
    pub error: Option<String>,
    pub duration_ms: u64,
}

pub ghost struct ItemView {
    pub id: Seq<char>,
    pub url: Seq<char>,
    pub format: Seq<char>,
    pub save_path: Seq<char>,
    pub compression: bool,
}

pub ghost struct RecordView {
    pub id: Seq<char>,
    pub url: Seq<char>,
    pub status: CompletionStatus,
    pub output_path: Option<Seq<char>>,
    pub error: Option<Seq<char>>,
    pub duration_ms: u64,
}

pub ghost struct QueueView {
    pub active: Option<ItemView>,
    pub pending: Seq<ItemView>,
    pub completed: Seq<RecordView>,
}

pub open spec fn opt_str_view(o: Option<String>) -> Option<Seq<char>> {
    match o {
        Some(s) => Some(s@),
        None => None,
    }
}

impl View for QueueItem {
    type V = ItemView;

    open spec fn view(&self) -> ItemView {
        ItemView {
            id: self.id@,
            url: self.url@,
            format: self.format@,
            save_path: self.save_path@,
            compression: self.compression,
        }
    }
}

impl View for CompletedItem {
    type V = RecordView;

    open spec fn view(&self) -> RecordView {
        RecordView {
            id: self.id@,
            url: self.url@,
            status: self.status,
            output_path: opt_str_view(self.output_path),
            error: opt_str_view(self.error),
            duration_ms: self.duration_ms,
        }
    }
}

pub open spec fn item_views(s: Seq<QueueItem>) -> Seq<ItemView> {
    s.map_values(|i: QueueItem| i@)
}

pub open spec fn record_views(s: Seq<CompletedItem>) -> Seq<RecordView> {
    s.map_values(|r: CompletedItem| r@)
}

/// The last `n` elements of `s` (all of them if there are fewer).
pub open spec fn keep_last<T>(s: Seq<T>, n: nat) -> Seq<T> {
    if s.len() > n {
        s.skip(s.len() - n)
    } else {
        s
    }
}

/// The history after trimming it to its most recent entries.
pub open spec fn pruned(c: Seq<RecordView>) -> Seq<RecordView> {
    keep_last(c, MAX_COMPLETED_HISTORY as nat)
}

/// The record of a finished item.
pub open spec fn record_of(
    item: ItemView,
    status: CompletionStatus,
    output_path: Option<Seq<char>>,
    error: Option<Seq<char>>,
    duration_ms: u64,
) -> RecordView {
    RecordView { id: item.id, url: item.url, status, output_path, error, duration_ms }
}

/// Whether some pending item has this URL.
pub open spec fn pending_has_url(pending: Seq<ItemView>, url: Seq<char>) -> bool {
    exists|i: int| 0 <= i < pending.len() && (#[trigger] pending[i]).url == url
}

/// Whether some pending item has this id.
pub open spec fn pending_has_id(pending: Seq<ItemView>, id: Seq<char>) -> bool {
    exists|i: int| 0 <= i < pending.len() && (#[trigger] pending[i]).id == id
}

/// The position of the first pending item with this id.
pub open spec fn first_with_id(pending: Seq<ItemView>, id: Seq<char>) -> int {
    choose|p: int|
        0 <= p < pending.len() && pending[p].id == id && forall|j: int|
            0 <= j < p ==> (#[trigger] pending[j]).id != id
}

impl QueueView {
    /// The invariant the queue keeps: the history is bounded and no URL is
    /// queued or active twice.
    pub open spec fn wf(self) -> bool {
        &&& self.completed.len() <= MAX_COMPLETED_HISTORY
        &&& forall|i: int, j: int|
            0 <= i < j < self.pending.len() ==> (#[trigger] self.pending[i]).url
                != (#[trigger] self.pending[j]).url
        &&& self.active matches Some(a) ==> !pending_has_url(self.pending, a.url)
    }

    /// Why an enqueue request is refused, as an error kind and detail.
    pub open spec fn enqueue_fault(self, url: Seq<char>, format: Seq<char>, save_path: Seq<char>) -> Option<
        (ErrorKind, Seq<char>),
    > {
        if url_fault(url) is Some {
            Some((ErrorKind::InvalidUrl, url_fault(url).unwrap()))
        } else if !is_known_format(format) {
            Some((ErrorKind::InvalidUrl, format_fault_message(format)))
        } else if save_path_fault(save_path) is Some {
            Some((ErrorKind::InvalidUrl, save_path_fault(save_path).unwrap()))
        } else if self.active matches Some(a) && a.url == url {
            Some((ErrorKind::DownloadError, "URL is already being downloaded"@))
        } else if pending_has_url(self.pending, url) {
            Some((ErrorKind::DownloadError, "URL is already in the queue"@))
        } else {
            None
        }
    }

    /// The queue after an accepted enqueue.
    pub open spec fn enqueued(self, item: ItemView) -> QueueView {
        QueueView { pending: self.pending.push(item), ..self }
    }

    /// The position reported for a newly enqueued item.
    pub open spec fn enqueue_position(self) -> nat {
        self.pending.len() + if self.active is Some { 1nat } else { 0nat }
    }

    /// The queue after cancelling `id` (`elapsed_ms` is how long an active
    /// download had run).
    pub open spec fn cancelled(self, id: Seq<char>, elapsed_ms: u64) -> QueueView {
        if self.active is Some && self.active.unwrap().id == id {
            let a = self.active.unwrap();
            QueueView {
                active: None,
                pending: self.pending,
                completed: pruned(
                    self.completed.push(
                        record_of(a, CompletionStatus::Cancelled, None, None, elapsed_ms),
                    ),
                ),
            }
        } else if pending_has_id(self.pending, id) {
            QueueView { pending: self.pending.remove(first_with_id(self.pending, id)), ..self }
        } else {
            self
        }
    }

    /// The queue after starting the next download, when none is active.
    pub open spec fn started(self) -> QueueView {
        if self.active is Some {
            self
        } else {
            let (a, p, c) = start_from(self.completed, self.pending);
            QueueView { active: a, pending: p, completed: c }
        }
    }
}

/// The record of a pending item refused at start for its URL.
pub open spec fn invalid_record(item: ItemView) -> RecordView {
    record_of(
        item,
        CompletionStatus::Error,
        None,
        Some("Invalid URL: "@ + url_fault(item.url).unwrap()),
        0,
    )
}

/// Pops pending items from the front, moving those with an invalid URL to
/// the history, until one can start.
pub open spec fn start_from(completed: Seq<RecordView>, pending: Seq<ItemView>) -> (
    Option<ItemView>,
    Seq<ItemView>,
    Seq<RecordView>,
)
    decreases pending.len(),
{
    if pending.len() == 0 {
        (None, pending, completed)
    } else if url_fault(pending[0].url) is Some {
        start_from(pruned(completed.push(invalid_record(pending[0]))), pending.drop_first())
    } else {
        (Some(pending[0]), pending.drop_first(), completed)
    }
}

/// The (id, message) of each item refused at start, in order.
pub open spec fn skipped_from(pending: Seq<ItemView>) -> Seq<(Seq<char>, Seq<char>)>
    decreases pending.len(),
{
    if pending.len() == 0 || url_fault(pending[0].url) is None {
        seq![]
    } else {
        seq![(pending[0].id, invalid_record(pending[0]).error.unwrap())] + skipped_from(
            pending.drop_first(),
        )
    }
}

/// An item refused when it was due to start.
pub struct SkippedItem {
    pub id: String,
    pub error: String,
}

/// What starting the next download did.
pub struct StartReport {
    /// Items dropped because their URL no longer validates.
    pub skipped: Vec<SkippedItem>,
    /// The queue ran empty without starting anything.
    pub idle: bool,
}

pub open spec fn skipped_views(s: Seq<SkippedItem>) -> Seq<(Seq<char>, Seq<char>)> {
    s.map_values(|k: SkippedItem| (k.id@, k.error@))
}

/// What happened to the active download's task.
pub enum DownloadOutcome {
    /// The pipeline produced this output file.
    Finished(String),
    /// The pipeline failed with this error.
    Failed(AppError),
    /// The task was aborted (its cancellation was already recorded).
    Aborted,
    /// The task panicked; the text describes it.
    Panicked(String),
}

impl QueueView {
    /// The queue after the active download ended with `outcome`.
    pub open spec fn finished(self, outcome: DownloadOutcome, duration_ms: u64) -> QueueView {
        match self.active {
            None => self,
            Some(a) => {
                let rest = QueueView { active: None, ..self };
                match outcome {
                    DownloadOutcome::Aborted => rest,
                    DownloadOutcome::Finished(path) => QueueView {
                        completed: pruned(
                            self.completed.push(
                                record_of(a, CompletionStatus::Success, Some(path@), None, duration_ms),
                            ),
                        ),
                        ..rest
                    }.started(),
                    DownloadOutcome::Failed(e) => QueueView {
                        completed: pruned(
                            self.completed.push(
                                record_of(a, CompletionStatus::Error, None, Some(e.message()), duration_ms),
                            ),
                        ),
                        ..rest
                    }.started(),
                    DownloadOutcome::Panicked(m) => QueueView {
                        completed: pruned(
                            self.completed.push(
                                record_of(
                                    a,
                                    CompletionStatus::Error,
                                    None,
                                    Some("Internal error: "@ + m@),
                                    duration_ms,
                                ),
                            ),
                        ),
                        ..rest
                    }.started(),
                }
            },
        }
    }
}

/// What cancelling found.
#[derive(Debug, Clone, Copy, PartialEq, Eq, Structural)]
pub enum CancelOutcome {
    /// The active download was cancelled (its task must be aborted).
    CancelledActive,
    /// A pending item was removed.
    RemovedPending,
    /// Nothing had that id.
    NotFound,
}

/// The queue state, without its invariant attached (see [`QueueState`]).
struct QueueCore {
    active: Option<QueueItem>,
    pending: VecDeque<QueueItem>,
    completed: Vec<CompletedItem>,
}

impl View for QueueCore {
    type V = QueueView;

    closed spec fn view(&self) -> QueueView {
        QueueView {
            active: match self.active {
                Some(a) => Some(a@),
                None => None,
            },
            pending: item_views(self.pending@),
            completed: record_views(self.completed@),
        }
    }
}


/// Trims a history to its most recent entries.
fn prune_completed(completed: &mut Vec<CompletedItem>)
    ensures
        record_views(final(completed)@) == pruned(record_views(old(completed)@)),
{
    if completed.len() > MAX_COMPLETED_HISTORY {
        let excess = completed.len() - MAX_COMPLETED_HISTORY;
        let tail = completed.split_off(excess);
        *completed = tail;
        assert(record_views(completed@) =~= pruned(record_views(old(completed)@)));
    }
}

proof fn lemma_push_views(c: Seq<CompletedItem>, r: CompletedItem)
    ensures
        record_views(c.push(r)) == record_views(c).push(r@),
{
    assert(record_views(c.push(r)) =~= record_views(c).push(r@));
}

impl QueueCore {
    /// An empty queue.
    fn new() -> (q: QueueCore)
        ensures
            q@ == (QueueView { active: None, pending: seq![], completed: seq![] }),
            q@.wf(),
    {
        let q = QueueCore { active: None, pending: VecDeque::new(), completed: Vec::new() };
        assert(q@.pending =~= seq![]);
        assert(q@.completed =~= seq![]);
        q
    }

    /// Whether the URL is the active one.
    fn active_has_url(&self, url: &str) -> (b: bool)
        ensures
            b == (self@.active matches Some(a) && a.url == url@),
    {
        match &self.active {
            Some(a) => crate::text::eq_chars(
                &crate::text::chars_of(a.url.as_str()),
                &crate::text::chars_of(url),
            ),
            None => false,
        }
    }

    /// Whether a pending item has this URL.
    fn pending_url_index(&self, url: &str) -> (b: bool)
        ensures
            b == pending_has_url(self@.pending, url@),
    {
        let target = crate::text::chars_of(url);
        let mut i: usize = 0;
        while i < self.pending.len()
            invariant
                i <= self.pending@.len(),
                target@ == url@,
                self@.pending == item_views(self.pending@),
                forall|j: int| 0 <= j < i ==> (#[trigger] self@.pending[j]).url != url@,
            decreases self.pending@.len() - i,
        {
            if crate::text::eq_chars(&crate::text::chars_of(self.pending[i].url.as_str()), &target) {
                assert(self@.pending[i as int].url == url@);
                return true;
            }
            i = i + 1;
        }
        false
    }

    /// Add a download request at the back of the queue.
    ///
    /// Validates the URL, format and save path, and refuses a URL that is
    /// already active or queued. Returns the reported queue position.
    fn enqueue(
        &mut self,
        id: String,
        url: String,
        format: String,
        save_path: String,
        compression: bool,
    ) -> (r: Result<usize, AppError>)
        requires
            old(self)@.wf(),
            old(self)@.pending.len() < usize::MAX,
        ensures
            final(self)@.wf(),
            match old(self)@.enqueue_fault(url@, format@, save_path@) {
                Some((k, m)) => r matches Err(e) && e.is(k, m) && final(self)@ == old(self)@,
                None => r == Ok::<usize, AppError>(old(self)@.enqueue_position() as usize)
                    && final(self)@ == old(self)@.enqueued(
                    ItemView {
                        id: id@,
                        url: url@,
                        format: format@,
                        save_path: save_path@,
                        compression,
                    },
                ),
            },
    {
        validate_url(url.as_str())?;
        validate_format(format.as_str())?;
        validate_save_path(save_path.as_str())?;
        if self.active_has_url(url.as_str()) {
            return Err(AppError::download("URL is already being downloaded"));
        }
        if self.pending_url_index(url.as_str()) {
            return Err(AppError::download("URL is already in the queue"));
        }
        let position: usize = self.pending.len() + if self.active.is_some() { 1 } else { 0 };
        let ghost old_pending = self.pending@;
        self.pending.push_back(QueueItem { id, url, format, save_path, compression });
        assert(item_views(self.pending@) =~= item_views(old_pending).push(self.pending@.last()@));
        Ok(position)
    }
}


proof fn lemma_first_with_id(pending: Seq<ItemView>, id: Seq<char>, i: int)
    requires
        0 <= i < pending.len(),
        pending[i].id == id,
        forall|j: int| 0 <= j < i ==> (#[trigger] pending[j]).id != id,
    ensures
        first_with_id(pending, id) == i,
        pending_has_id(pending, id),
{
    let p = first_with_id(pending, id);
    assert(0 <= p < pending.len() && pending[p].id == id && forall|j: int|
        0 <= j < p ==> (#[trigger] pending[j]).id != id);
    if p < i {
        assert(pending[p].id != id);
    } else if i < p {
        assert(pending[i].id != id);
    }
}

proof fn lemma_remove_keeps_wf(q: QueueView, p: int)
    requires
        q.wf(),
        0 <= p < q.pending.len(),
    ensures
        (QueueView { pending: q.pending.remove(p), ..q }).wf(),
{
    let r = q.pending.remove(p);
    assert forall|i: int, j: int| 0 <= i < j < r.len() implies (#[trigger] r[i]).url != (#[trigger] r[j]).url by {
        let oi = if i < p { i } else { i + 1 };
        let oj = if j < p { j } else { j + 1 };
        assert(r[i] == q.pending[oi]);
        assert(r[j] == q.pending[oj]);
    }
    if q.active is Some {
        let a = q.active.unwrap();
        if pending_has_url(r, a.url) {
            let k = choose|k: int| 0 <= k < r.len() && (#[trigger] r[k]).url == a.url;
            let ok = if k < p { k } else { k + 1 };
            assert(r[k] == q.pending[ok]);
            assert(pending_has_url(q.pending, a.url));
        }
    }
}

impl QueueCore {
    /// Whether the active download has this id.
    fn active_has_id(&self, id: &[char]) -> (b: bool)
        ensures
            b == (self@.active matches Some(a) && a.id == id@),
    {
        match &self.active {
            Some(a) => crate::text::eq_chars(&crate::text::chars_of(a.id.as_str()), id),
            None => false,
        }
    }

    /// Cancel a download by id.
    ///
    /// An active download moves to the history as cancelled (the caller
    /// aborts its task); the first pending item with the id is removed; an
    /// unknown id changes nothing.
    fn cancel(&mut self, id: &str, elapsed_ms: u64) -> (o: CancelOutcome)
        requires
            old(self)@.wf(),
        ensures
            final(self)@.wf(),
            final(self)@ == old(self)@.cancelled(id@, elapsed_ms),
            o == if old(self)@.active matches Some(a) && a.id == id@ {
                CancelOutcome::CancelledActive
            } else if pending_has_id(old(self)@.pending, id@) {
                CancelOutcome::RemovedPending
            } else {
                CancelOutcome::NotFound
            },
    {
        let target = crate::text::chars_of(id);
        if self.active_has_id(&target) {
            let a = self.active.take().unwrap();
            let ghost old_c = self.completed@;
            let rec = CompletedItem {
                id: a.id,
                url: a.url,
                status: CompletionStatus::Cancelled,
                output_path: None,
                error: None,
                duration_ms: elapsed_ms,
            };
            self.completed.push(rec);
            proof {
                lemma_push_views(old_c, rec);
            }
            prune_completed(&mut self.completed);
            return CancelOutcome::CancelledActive;
        }
        let mut i: usize = 0;
        while i < self.pending.len()
            invariant
                i <= self.pending@.len(),
                target@ == id@,
                self@ == old(self)@,
                old(self)@.wf(),
                !(old(self)@.active matches Some(a) && a.id == id@),
                forall|j: int| 0 <= j < i ==> (#[trigger] self@.pending[j]).id != id@,
            decreases self.pending@.len() - i,
        {
            if crate::text::eq_chars(&crate::text::chars_of(self.pending[i].id.as_str()), &target) {
                proof {
                    lemma_first_with_id(self@.pending, id@, i as int);
                    lemma_remove_keeps_wf(self@, i as int);
                }
                let ghost old_p = self.pending@;
                let _removed = self.pending.remove(i);
                assert(item_views(self.pending@) =~= item_views(old_p).remove(i as int));
                return CancelOutcome::RemovedPending;
            }
            i = i + 1;
        }
        CancelOutcome::NotFound
    }

    /// Whether the active download has this id: pausing and resuming apply
    /// only to it.
    fn check_active(&self, id: &str, msg: &str) -> (r: Result<(), AppError>)
        ensures
            r is Ok <==> (self@.active matches Some(a) && a.id == id@),
            r matches Err(e) ==> e.is(ErrorKind::DownloadError, msg@),
    {
        if self.active_has_id(&crate::text::chars_of(id)) {
            Ok(())
        } else {
            Err(AppError::download(msg))
        }
    }

    /// Pause the active download. Succeeds only when `id` is the active
    /// download (the caller then raises its pause flag).
    fn pause(&self, id: &str) -> (r: Result<(), AppError>)
        ensures
            r is Ok <==> (self@.active matches Some(a) && a.id == id@),
            r matches Err(e) ==> e.is(
                ErrorKind::DownloadError,
                "Cannot pause: download is not active"@,
            ),
    {
        self.check_active(id, "Cannot pause: download is not active")
    }

    /// Resume the active download. Succeeds only when `id` is the active
    /// download (the caller then lowers its pause flag).
    fn resume(&self, id: &str) -> (r: Result<(), AppError>)
        ensures
            r is Ok <==> (self@.active matches Some(a) && a.id == id@),
            r matches Err(e) ==> e.is(
                ErrorKind::DownloadError,
                "Cannot resume: download is not active"@,
            ),
    {
        self.check_active(id, "Cannot resume: download is not active")
    }
}


proof fn lemma_drop_first_keeps_wf(q: QueueView)
    requires
        q.wf(),
        q.active is None,
        q.pending.len() > 0,
    ensures
        (QueueView { pending: q.pending.drop_first(), ..q }).wf(),
        (QueueView { active: Some(q.pending[0]), pending: q.pending.drop_first(), ..q }).wf(),
{
    let r = q.pending.drop_first();
    assert forall|i: int, j: int| 0 <= i < j < r.len() implies (#[trigger] r[i]).url != (#[trigger] r[j]).url by {
        assert(r[i] == q.pending[i + 1]);
        assert(r[j] == q.pending[j + 1]);
    }
    if pending_has_url(r, q.pending[0].url) {
        let k = choose|k: int| 0 <= k < r.len() && (#[trigger] r[k]).url == q.pending[0].url;
        assert(r[k] == q.pending[k + 1]);
    }
}

proof fn lemma_start_from_skipped(c: Seq<RecordView>, p: Seq<ItemView>)
    requires
        p.len() > 0,
        url_fault(p[0].url) is Some,
    ensures
        start_from(c, p) == start_from(pruned(c.push(invalid_record(p[0]))), p.drop_first()),
        skipped_from(p) == seq![(p[0].id, invalid_record(p[0]).error.unwrap())] + skipped_from(
            p.drop_first(),
        ),
{
}

/// Information about the active download, for display.
pub struct ActiveDownloadInfo {
    pub id: String,
    pub url: String,
    pub format: String,
}

/// A pending item and its position (0 is next), for display.
pub struct QueueItemInfo {
    pub id: String,
    pub url: String,
    pub format: String,
    pub position: usize,
}

/// A finished item, for display.
pub struct CompletedItemInfo {
    pub id: String,
    pub url: String,
    pub status: String,
    pub output_path: Option<String>,
    pub error: Option<String>,
}

/// A copy of the queue state for display.
pub struct QueueStateSnapshot {
    pub active: Option<ActiveDownloadInfo>,
    pub pending: Vec<QueueItemInfo>,
    pub completed: Vec<CompletedItemInfo>,
}

/// The name under which a status is displayed.
pub open spec fn status_name(s: CompletionStatus) -> Seq<char> {
    match s {
        CompletionStatus::Success => "Success"@,
        CompletionStatus::Error => "Error"@,
        CompletionStatus::Cancelled => "Cancelled"@,
    }
}

impl CompletionStatus {
    /// The display name of the status.
    pub fn name(&self) -> (s: String)
        ensures
            s@ == status_name(*self),
    {
        match self {
            CompletionStatus::Success => "Success".to_owned(),
            CompletionStatus::Error => "Error".to_owned(),
            CompletionStatus::Cancelled => "Cancelled".to_owned(),
        }
    }
}

/// `snap` shows exactly the queue `q`.
pub open spec fn snapshot_of(snap: QueueStateSnapshot, q: QueueView) -> bool {
    &&& match (snap.active, q.active) {
        (None, None) => true,
        (Some(i), Some(a)) => i.id@ == a.id && i.url@ == a.url && i.format@ == a.format,
        _ => false,
    }
    &&& snap.pending@.len() == q.pending.len()
    &&& forall|i: int|
        0 <= i < q.pending.len() ==> {
            let info = #[trigger] snap.pending@[i];
            &&& info.id@ == q.pending[i].id
            &&& info.url@ == q.pending[i].url
            &&& info.format@ == q.pending[i].format
            &&& info.position == i
        }
    &&& snap.completed@.len() == q.completed.len()
    &&& forall|i: int|
        0 <= i < q.completed.len() ==> {
            let info = #[trigger] snap.completed@[i];
            &&& info.id@ == q.completed[i].id
            &&& info.url@ == q.completed[i].url
            &&& info.status@ == status_name(q.completed[i].status)
            &&& opt_str_view(info.output_path) == q.completed[i].output_path
            &&& opt_str_view(info.error) == q.completed[i].error
        }
}

fn clone_opt(o: &Option<String>) -> (r: Option<String>)
    ensures
        opt_str_view(r) == opt_str_view(*o),
{
    match o {
        Some(s) => Some(s.clone()),
        None => None,
    }
}

impl QueueCore {
    /// The active download, if any.
    fn active(&self) -> (a: Option<&QueueItem>)
        ensures
            match a {
                Some(i) => self@.active == Some(i@),
                None => self@.active is None,
            },
    {
        self.active.as_ref()
    }

    /// Number of pending items.
    fn pending_len(&self) -> (n: usize)
        ensures
            n == self@.pending.len(),
    {
        self.pending.len()
    }

    /// Start the next download if none is active.
    ///
    /// Items are taken from the front of the queue; one whose URL no longer
    /// validates moves to the history as an error and the next is tried.
    /// `idle` tells that the queue ran empty without starting anything.
    fn start_next(&mut self) -> (rep: StartReport)
        requires
            old(self)@.wf(),
        ensures
            final(self)@.wf(),
            final(self)@ == old(self)@.started(),
            old(self)@.active is Some ==> rep.skipped@.len() == 0 && !rep.idle,
            old(self)@.active is None ==> skipped_views(rep.skipped@) == skipped_from(
                old(self)@.pending,
            ) && rep.idle == (final(self)@.active is None),
    {
        let mut skipped: Vec<SkippedItem> = Vec::new();
        if self.active.is_some() {
            return StartReport { skipped, idle: false };
        }
        loop
            invariant
                old(self)@.active is None,
                self@.active is None,
                self@.wf(),
                start_from(old(self)@.completed, old(self)@.pending) == start_from(
                    self@.completed,
                    self@.pending,
                ),
                skipped_from(old(self)@.pending) == skipped_views(skipped@) + skipped_from(
                    self@.pending,
                ),
            decreases self@.pending.len(),
        {
            let ghost before = self@;
            proof {
                if before.pending.len() > 0 {
                    lemma_drop_first_keeps_wf(before);
                }
            }
            match self.pending.pop_front() {
                None => {
                    assert(skipped_views(skipped@) + seq![] =~= skipped_views(skipped@));
                    return StartReport { skipped, idle: true };
                },
                Some(item) => {
                    assert(item_views(self.pending@) =~= before.pending.drop_first());
                    match validate_url(item.url.as_str()) {
                        Err(e) => {
                            proof {
                                lemma_start_from_skipped(before.completed, before.pending);
                            }
                            let msg = e.to_string();
                            let skip = SkippedItem { id: item.id.clone(), error: msg.clone() };
                            let ghost old_c = self.completed@;
                            let rec = CompletedItem {
                                id: item.id,
                                url: item.url,
                                status: CompletionStatus::Error,
                                output_path: None,
                                error: Some(msg),
                                duration_ms: 0,
                            };
                            assert(rec@ == invalid_record(before.pending[0]));
                            self.completed.push(rec);
                            proof {
                                lemma_push_views(old_c, rec);
                            }
                            prune_completed(&mut self.completed);
                            let ghost old_s = skipped@;
                            skipped.push(skip);
                            assert(skipped_views(skipped@) =~= skipped_views(old_s).push(
                                (skip.id@, skip.error@),
                            ));
                            assert(skipped_views(skipped@) + skipped_from(self@.pending) =~= skipped_views(old_s) + (seq![(before.pending[0].id, invalid_record(before.pending[0]).error.unwrap())] + skipped_from(self@.pending)));
                        },
                        Ok(()) => {
                            self.active = Some(item);
                            assert(skipped_views(skipped@) + seq![] =~= skipped_views(skipped@));
                            return StartReport { skipped, idle: false };
                        },
                    }
                },
            }
        }
    }

    /// Record how the active download ended and start the next one.
    ///
    /// `Aborted` only clears the active slot (its cancellation was already
    /// recorded); the other outcomes add a history entry first. With no
    /// active download nothing changes.
    fn finish_active(&mut self, outcome: DownloadOutcome, duration_ms: u64) -> (rep: StartReport)
        requires
            old(self)@.wf(),
        ensures
            final(self)@.wf(),
            final(self)@ == old(self)@.finished(outcome, duration_ms),
            (old(self)@.active is None || outcome is Aborted) ==> rep.skipped@.len() == 0
                && !rep.idle,
            (old(self)@.active is Some && !(outcome is Aborted)) ==> skipped_views(rep.skipped@)
                == skipped_from(old(self)@.pending) && rep.idle == (final(self)@.active is None),
    {
        let a = match self.active.take() {
            Some(a) => a,
            None => return StartReport { skipped: Vec::new(), idle: false },
        };
        let rec = match outcome {
            DownloadOutcome::Aborted => {
                return StartReport { skipped: Vec::new(), idle: false };
            },
            DownloadOutcome::Finished(path) => CompletedItem {
                id: a.id,
                url: a.url,
                status: CompletionStatus::Success,
                output_path: Some(path),
                error: None,
                duration_ms,
            },
            DownloadOutcome::Failed(e) => CompletedItem {
                id: a.id,
                url: a.url,
                status: CompletionStatus::Error,
                output_path: None,
                error: Some(e.to_string()),
                duration_ms,
            },
            DownloadOutcome::Panicked(m) => CompletedItem {
                id: a.id,
                url: a.url,
                status: CompletionStatus::Error,
                output_path: None,
                error: Some(concat("Internal error: ", m.as_str())),
                duration_ms,
            },
        };
        let ghost old_c = self.completed@;
        self.completed.push(rec);
        proof {
            lemma_push_views(old_c, rec);
        }
        prune_completed(&mut self.completed);
        self.start_next()
    }

    /// A copy of the state for display.
    fn snapshot(&self) -> (snap: QueueStateSnapshot)
        ensures
            snapshot_of(snap, self@),
    {
        let active = match &self.active {
            Some(a) => Some(
                ActiveDownloadInfo { id: a.id.clone(), url: a.url.clone(), format: a.format.clone() },
            ),
            None => None,
        };
        let mut pending: Vec<QueueItemInfo> = Vec::new();
        let mut i: usize = 0;
        while i < self.pending.len()
            invariant
                i <= self@.pending.len(),
                pending@.len() == i,
                self@.pending == item_views(self.pending@),
                forall|k: int|
                    0 <= k < i ==> {
                        let info = #[trigger] pending@[k];
                        &&& info.id@ == self@.pending[k].id
                        &&& info.url@ == self@.pending[k].url
                        &&& info.format@ == self@.pending[k].format
                        &&& info.position == k
                    },
            decreases self@.pending.len() - i,
        {
            let item = &self.pending[i];
            pending.push(
                QueueItemInfo {
                    id: item.id.clone(),
                    url: item.url.clone(),
                    format: item.format.clone(),
                    position: i,
                },
            );
            i = i + 1;
        }
        let mut completed: Vec<CompletedItemInfo> = Vec::new();
        let mut j: usize = 0;
        while j < self.completed.len()
            invariant
                j <= self@.completed.len(),
                completed@.len() == j,
                self@.completed == record_views(self.completed@),
                forall|k: int|
                    0 <= k < j ==> {
                        let info = #[trigger] completed@[k];
                        &&& info.id@ == self@.completed[k].id
                        &&& info.url@ == self@.completed[k].url
                        &&& info.status@ == status_name(self@.completed[k].status)
                        &&& opt_str_view(info.output_path) == self@.completed[k].output_path
                        &&& opt_str_view(info.error) == self@.completed[k].error
                    },
            decreases self@.completed.len() - j,
        {
            let c = &self.completed[j];
            completed.push(
                CompletedItemInfo {
                    id: c.id.clone(),
                    url: c.url.clone(),
                    status: c.status.name(),
                    output_path: clone_opt(&c.output_path),
                    error: clone_opt(&c.error),
                },
            );
            j = j + 1;
        }
        QueueStateSnapshot { active, pending, completed }
    }
}


/// The download queue: at most one active download, the pending requests in
/// order, and a bounded history of finished ones. Its invariant
/// ([`QueueView::wf`]) holds in every state.
pub struct QueueState {
    core: QueueCore,
}

impl View for QueueState {
    type V = QueueView;

    closed spec fn view(&self) -> QueueView {
        self.core@
    }
}

impl QueueState {
    /// The history is bounded and no URL is queued or active twice.
    #[verifier::type_invariant]
    spec fn keeps_queue_invariant(&self) -> bool {
        self.core@.wf()
    }

    /// An empty queue.
    pub fn new() -> (q: QueueState)
        ensures
            q@ == (QueueView { active: None, pending: seq![], completed: seq![] }),
    {
        QueueState { core: QueueCore::new() }
    }

    /// Takes the state out, leaving an empty queue in its place.
    fn take_core(&mut self) -> (c: QueueCore)
        ensures
            c@ == old(self)@,
            c@.wf(),
            final(self)@ == (QueueView { active: None, pending: seq![], completed: seq![] }),
    {
        proof {
            use_type_invariant(&*self);
        }
        let mut c = QueueCore::new();
        std::mem::swap(&mut c, &mut self.core);
        c
    }

    /// Add a download request at the back of the queue.
    ///
    /// Validates the URL, format and save path, and refuses a URL that is
    /// already active or queued. Returns the reported queue position.
    pub fn enqueue(
        &mut self,
        id: String,
        url: String,
        format: String,
        save_path: String,
        compression: bool,
    ) -> (r: Result<usize, AppError>)
        requires
            old(self)@.pending.len() < usize::MAX,
        ensures
            match old(self)@.enqueue_fault(url@, format@, save_path@) {
                Some((k, m)) => r matches Err(e) && e.is(k, m) && final(self)@ == old(self)@,
                None => r == Ok::<usize, AppError>(old(self)@.enqueue_position() as usize)
                    && final(self)@ == old(self)@.enqueued(
                    ItemView {
                        id: id@,
                        url: url@,
                        format: format@,
                        save_path: save_path@,
                        compression,
                    },
                ),
            },
    {
        let mut c = self.take_core();
        let r = c.enqueue(id, url, format, save_path, compression);
        self.core = c;
        r
    }

    /// Cancel a download by id.
    ///
    /// An active download moves to the history as cancelled (the caller
    /// aborts its task); the first pending item with the id is removed; an
    /// unknown id changes nothing.
    pub fn cancel(&mut self, id: &str, elapsed_ms: u64) -> (o: CancelOutcome)
        ensures
            final(self)@ == old(self)@.cancelled(id@, elapsed_ms),
            o == if old(self)@.active matches Some(a) && a.id == id@ {
                CancelOutcome::CancelledActive
            } else if pending_has_id(old(self)@.pending, id@) {
                CancelOutcome::RemovedPending
            } else {
                CancelOutcome::NotFound
            },
    {
        let mut c = self.take_core();
        let o = c.cancel(id, elapsed_ms);
        self.core = c;
        o
    }

    /// Pause the active download. Succeeds only when `id` is the active
    /// download (the caller then raises its pause flag).
    pub fn pause(&self, id: &str) -> (r: Result<(), AppError>)
        ensures
            r is Ok <==> (self@.active matches Some(a) && a.id == id@),
            r matches Err(e) ==> e.is(
                ErrorKind::DownloadError,
                "Cannot pause: download is not active"@,
            ),
    {
        self.core.pause(id)
    }

    /// Resume the active download. Succeeds only when `id` is the active
    /// download (the caller then lowers its pause flag).
    pub fn resume(&self, id: &str) -> (r: Result<(), AppError>)
        ensures
            r is Ok <==> (self@.active matches Some(a) && a.id == id@),
            r matches Err(e) ==> e.is(
                ErrorKind::DownloadError,
                "Cannot resume: download is not active"@,
            ),
    {
        self.core.resume(id)
    }

    /// The active download, if any.
    pub fn active(&self) -> (a: Option<&QueueItem>)
        ensures
            match a {
                Some(i) => self@.active == Some(i@),
                None => self@.active is None,
            },
    {
        self.core.active()
    }

    /// Number of pending items.
    pub fn pending_len(&self) -> (n: usize)
        ensures
            n == self@.pending.len(),
    {
        self.core.pending_len()
    }

    /// Start the next download if none is active.
    ///
    /// Items are taken from the front of the queue; one whose URL no longer
    /// validates moves to the history as an error and the next is tried.
    /// `idle` tells that the queue ran empty without starting anything.
    pub fn start_next(&mut self) -> (rep: StartReport)
        ensures
            final(self)@ == old(self)@.started(),
            old(self)@.active is Some ==> rep.skipped@.len() == 0 && !rep.idle,
            old(self)@.active is None ==> skipped_views(rep.skipped@) == skipped_from(
                old(self)@.pending,
            ) && rep.idle == (final(self)@.active is None),
    {
        let mut c = self.take_core();
        let rep = c.start_next();
        self.core = c;
        rep
    }

    /// Record how the active download ended and start the next one.
    ///
    /// `Aborted` only clears the active slot (its cancellation was already
    /// recorded); the other outcomes add a history entry first. With no
    /// active download nothing changes.
    pub fn finish_active(&mut self, outcome: DownloadOutcome, duration_ms: u64) -> (rep: StartReport)
        ensures
            final(self)@ == old(self)@.finished(outcome, duration_ms),
            (old(self)@.active is None || outcome is Aborted) ==> rep.skipped@.len() == 0
                && !rep.idle,
            (old(self)@.active is Some && !(outcome is Aborted)) ==> skipped_views(rep.skipped@)
                == skipped_from(old(self)@.pending) && rep.idle == (final(self)@.active is None),
    {
        let mut c = self.take_core();
        let rep = c.finish_active(outcome, duration_ms);
        self.core = c;
        rep
    }

    /// A copy of the state for display.
    pub fn snapshot(&self) -> (snap: QueueStateSnapshot)
        ensures
            snapshot_of(snap, self@),
    {
        self.core.snapshot()
    }
}

/// Cancelling an item right after enqueuing it gives back the queue as it
/// was, provided its id was not already in use.
pub proof fn law_enqueue_then_cancel_restores(q: QueueView, item: ItemView, elapsed_ms: u64)
    requires
        q.wf(),
        q.enqueue_fault(item.url, item.format, item.save_path) is None,
        !pending_has_id(q.pending, item.id),
        !(q.active matches Some(a) && a.id == item.id),
    ensures
        q.enqueued(item).cancelled(item.id, elapsed_ms) == q,
{
    let e = q.enqueued(item);
    let n = q.pending.len() as int;
    assert forall|j: int| 0 <= j < n implies (#[trigger] e.pending[j]).id != item.id by {
        assert(e.pending[j] == q.pending[j]);
        if q.pending[j].id == item.id {
            assert(pending_has_id(q.pending, item.id));
        }
    }
    lemma_first_with_id(e.pending, item.id, n);
    assert(e.pending.remove(n) =~= q.pending);
}

/// A URL that was accepted into the queue is refused a second time, while
/// it waits.
pub proof fn law_duplicate_url_refused(
    q: QueueView,
    item: ItemView,
    format: Seq<char>,
    save_path: Seq<char>,
)
    requires
        q.wf(),
        q.enqueue_fault(item.url, item.format, item.save_path) is None,
        is_known_format(format),
        save_path_fault(save_path) is None,
    ensures
        q.enqueued(item).enqueue_fault(item.url, format, save_path) == Some(
            (ErrorKind::DownloadError, "URL is already in the queue"@),
        ),
{
    let e = q.enqueued(item);
    assert(e.pending[q.pending.len() as int] == item);
    assert(pending_has_url(e.pending, item.url));
}

/// Cancelling an id that is neither active nor pending changes nothing.
pub proof fn law_cancel_unknown_is_noop(q: QueueView, id: Seq<char>, elapsed_ms: u64)
    requires
        !pending_has_id(q.pending, id),
        !(q.active matches Some(a) && a.id == id),
    ensures
        q.cancelled(id, elapsed_ms) == q,
{
}

/// Downloads start in the order they were enqueued: with nothing active
/// and nothing waiting, enqueuing `a` then `b` starts `a` and leaves `b`
/// waiting.
pub proof fn law_first_in_first_started(q: QueueView, a: ItemView, b: ItemView)
    requires
        q.wf(),
        q.active is None,
        q.pending.len() == 0,
        q.enqueue_fault(a.url, a.format, a.save_path) is None,
        q.enqueued(a).enqueue_fault(b.url, b.format, b.save_path) is None,
    ensures
        q.enqueued(a).enqueued(b).started().active == Some(a),
        q.enqueued(a).enqueued(b).started().pending == seq![b],
        q.enqueued(a).enqueued(b).started().completed == q.completed,
{
    let e = q.enqueued(a).enqueued(b);
    assert(e.pending =~= seq![a, b]);
    assert(e.pending.drop_first() =~= seq![b]);
}

/// The history never holds more than the allowed number of entries, in any
/// state the queue operations produce.
pub proof fn law_history_bounded(q: QueueView)
    requires
        q.wf(),
    ensures
        q.completed.len() <= MAX_COMPLETED_HISTORY,
{
}

/// Starting is idempotent once a download is active: a second start changes
/// nothing.
pub proof fn law_start_idempotent(q: QueueView)
    ensures
        q.started().active is Some ==> q.started().started() == q.started(),
{
}

/// Starting pops the invalid items at the front: the item started, if
/// any, is the first pending item whose URL validates, and what waits after
/// it stays pending in order.
proof fn lemma_start_from(completed: Seq<RecordView>, pending: Seq<ItemView>)
    ensures
        start_from(completed, pending).0 is None <==> forall|i: int|
            0 <= i < pending.len() ==> url_fault((#[trigger] pending[i]).url) is Some,
        start_from(completed, pending).0 matches Some(x) ==> exists|k: int|
            0 <= k < pending.len() && #[trigger] pending[k] == x && url_fault(x.url) is None
                && (forall|j: int| 0 <= j < k ==> url_fault((#[trigger] pending[j]).url) is Some)
                && start_from(completed, pending).1 == pending.skip(k + 1),
    decreases pending.len(),
{
    if pending.len() > 0 {
        if url_fault(pending[0].url) is Some {
            let c1 = pruned(completed.push(invalid_record(pending[0])));
            let t = pending.drop_first();
            lemma_start_from(c1, t);
            if start_from(c1, t).0 is None {
                assert forall|i: int| 0 <= i < pending.len() implies url_fault((#[trigger] pending[i]).url) is Some by {
                    if i > 0 {
                        assert(pending[i] == t[i - 1]);
                    }
                }
            } else {
                let x = start_from(c1, t).0.unwrap();
                let k = choose|k: int|
                    0 <= k < t.len() && #[trigger] t[k] == x && url_fault(x.url) is None
                        && (forall|j: int| 0 <= j < k ==> url_fault((#[trigger] t[j]).url) is Some)
                        && start_from(c1, t).1 == t.skip(k + 1);
                assert(pending[k + 1] == x);
                assert forall|j: int| 0 <= j < k + 1 implies url_fault((#[trigger] pending[j]).url) is Some by {
                    if j > 0 {
                        assert(pending[j] == t[j - 1]);
                    }
                }
                assert(t.skip(k + 1) =~= pending.skip(k + 2));
            }
        } else {
            assert(pending[0] == pending[0]);
            assert(pending.drop_first() =~= pending.skip(1));
        }
    }
}

/// When the active download ends (other than by an abort, whose
/// cancellation was already recorded), the next pending item whose URL
/// validates starts at once without a further request: it is the first such
/// item, the invalid ones before it leave the queue, and the items after it
/// keep waiting in order. Nothing starts only when no pending URL validates.
pub proof fn law_next_valid_item_starts(q: QueueView, outcome: DownloadOutcome, duration_ms: u64)
    requires
        q.active is Some,
        !(outcome is Aborted),
    ensures
        q.finished(outcome, duration_ms).active is None <==> forall|i: int|
            0 <= i < q.pending.len() ==> url_fault((#[trigger] q.pending[i]).url) is Some,
        q.finished(outcome, duration_ms).active matches Some(x) ==> exists|k: int|
            0 <= k < q.pending.len() && #[trigger] q.pending[k] == x && url_fault(x.url) is None
                && (forall|j: int| 0 <= j < k ==> url_fault((#[trigger] q.pending[j]).url) is Some)
                && q.finished(outcome, duration_ms).pending == q.pending.skip(k + 1),
{
    let a = q.active.unwrap();
    let c = match outcome {
        DownloadOutcome::Finished(path) => pruned(
            q.completed.push(record_of(a, CompletionStatus::Success, Some(path@), None, duration_ms)),
        ),
        DownloadOutcome::Failed(e) => pruned(
            q.completed.push(record_of(a, CompletionStatus::Error, None, Some(e.message()), duration_ms)),
        ),
        DownloadOutcome::Panicked(m) => pruned(
            q.completed.push(
                record_of(a, CompletionStatus::Error, None, Some("Internal error: "@ + m@), duration_ms),
            ),
        ),
        DownloadOutcome::Aborted => q.completed,
    };
    lemma_start_from(c, q.pending);
}

/// An accepted request waits at the back of the queue: the items ahead of it
/// and the active download are unchanged, and the reported position counts
/// it together with everything ahead of it.
pub proof fn law_enqueued_item_is_last(q: QueueView, item: ItemView)
    ensures
        q.enqueued(item).pending.last() == item,
        q.enqueued(item).pending.drop_last() == q.pending,
        q.enqueued(item).active == q.active,
        q.enqueued(item).completed == q.completed,
        q.enqueue_position() + 1 == q.enqueued(item).pending.len() + if q.active is Some {
            1nat
        } else {
            0nat
        },
{
    assert(q.enqueued(item).pending.drop_last() =~= q.pending);
}

/// At most one download runs at a time: starting does nothing while one is
/// active, and an enqueue never touches the active download.
pub proof fn law_one_active_at_a_time(q: QueueView, item: ItemView)
    ensures
        q.active is Some ==> q.started() == q,
        q.enqueued(item).active == q.active,
{
}

} // verus!
