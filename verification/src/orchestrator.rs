//! The decisions of the download pipeline: validating a request, judging
//! each phase's result, naming the output, and the registry of downloads
//! that wait for a password.

use vstd::prelude::*;
use crate::document::DocumentMetadata;
use crate::error::{AppError, ErrorKind};
use crate::output::{OutputFile, sanitized_title, substituted};
use crate::text::{chars_of, concat, eq_chars, eq_str};
use crate::url_parser::{ParsedUrl, parse, parse_outcome};
use crate::validator::{
    format_fault_message, invalid_url_with, is_known_format, page_count_fault, save_path_fault,
    url_fault, validate_format, validate_page_count, validate_save_path, validate_url,
};
use tokio::sync::oneshot::Sender;

verus! {

/// Average size of a page in a PDF (150 KiB).
pub const ESTIMATED_PAGE_SIZE_PDF: u64 = 153600;

/// Average size of a page in an EPUB (120 KiB).
pub const ESTIMATED_PAGE_SIZE_EPUB: u64 = 122880;

/// The estimated size per page for a format: EPUB pages are smaller, any
/// other format is sized as PDF.
pub open spec fn page_size_estimate(format: Seq<char>) -> u64 {
    if format == "epub"@ {
        ESTIMATED_PAGE_SIZE_EPUB
    } else {
        ESTIMATED_PAGE_SIZE_PDF
    }
}

/// Estimated output size in bytes: the page count times the average page
/// size of the format.
pub fn estimate_file_size(page_count: usize, format: &str) -> (n: u64)
    requires
        page_count * ESTIMATED_PAGE_SIZE_PDF <= u64::MAX,
    ensures
        n == page_count * page_size_estimate(format@),
{
    let per_page = if eq_str(&chars_of(format), "epub") {
        ESTIMATED_PAGE_SIZE_EPUB
    } else {
        ESTIMATED_PAGE_SIZE_PDF
    };
    assert(page_count * per_page <= page_count * ESTIMATED_PAGE_SIZE_PDF) by (nonlinear_arith)
        requires
            per_page <= ESTIMATED_PAGE_SIZE_PDF,
    ;
    page_count as u64 * per_page
}

/// Why a download request is refused before any work, checking the URL,
/// then the format, then the save path (`None` if it is accepted).
pub open spec fn request_fault(url: Seq<char>, format: Seq<char>, save_path: Seq<char>) -> Option<
    Seq<char>,
> {
    if url_fault(url) is Some {
        url_fault(url)
    } else if !is_known_format(format) {
        Some(format_fault_message(format))
    } else {
        save_path_fault(save_path)
    }
}

/// The first phase of a download: validate the URL, the format and the save
/// path, in that order, then parse the URL.
pub fn validate_request(url: &str, format: &str, save_path: &str) -> (r: Result<ParsedUrl, AppError>)
    ensures
        match request_fault(url@, format@, save_path@) {
            Some(m) => r matches Err(e) && invalid_url_with(e, m),
            None => parse_outcome(url@, r),
        },
{
    validate_url(url)?;
    validate_format(format)?;
    validate_save_path(save_path)?;
    parse(url)
}

/// What follows the fetch of the metadata.
#[derive(Debug)]
pub enum MetadataStep {
    /// Go on with this metadata.
    Proceed(DocumentMetadata),
    /// The document is protected: ask the user for a password and fetch again.
    AskPassword,
    /// Stop with this error.
    Fail(AppError),
}

/// Judges the result of fetching the metadata. A first refusal for want of
/// a password asks for one; any other failure stops the pipeline; metadata
/// whose page count is out of range is refused.
pub fn after_metadata(result: Result<DocumentMetadata, AppError>, with_password: bool) -> (s:
    MetadataStep)
    ensures
        match result {
            Ok(m) => match page_count_fault(m.page_count as nat) {
                None => s == MetadataStep::Proceed(m),
                Some(msg) => s matches MetadataStep::Fail(e) && invalid_url_with(e, msg),
            },
            Err(e) => if e.kind() == ErrorKind::PasswordRequired && !with_password {
                s is AskPassword
            } else {
                s == MetadataStep::Fail(e)
            },
        },
{
    match result {
        Ok(m) => match validate_page_count(m.page_count) {
            Ok(()) => MetadataStep::Proceed(m),
            Err(e) => MetadataStep::Fail(e),
        },
        Err(e) => {
            if !with_password {
                if let AppError::PasswordRequired(_) = e {
                    return MetadataStep::AskPassword;
                }
            }
            MetadataStep::Fail(e)
        },
    }
}

/// The error event shown to the user: the error's message, a code, and
/// whether retrying may help.
#[derive(Debug, Clone)]
pub struct ErrorNotice {
    pub message: String,
    pub code: String,
    pub retryable: bool,
}

/// A notice for `e` with the given code.
pub open spec fn notice_for(n: ErrorNotice, e: AppError, code: Seq<char>, retryable: bool) -> bool {
    n.message@ == e.message() && n.code@ == code && n.retryable == retryable
}

fn make_notice(e: &AppError, code: &str, retryable: bool) -> (n: ErrorNotice)
    ensures
        notice_for(n, *e, code@, retryable),
{
    ErrorNotice { message: e.to_string(), code: code.to_string(), retryable }
}

/// What follows the download of the pages.
#[derive(Debug)]
pub enum PagesStep {
    /// Every page is on disk: convert.
    Convert,
    /// The pages are protected: ask the user for a password and download again.
    AskPassword,
    /// Stop with this error, telling the user when there is a notice.
    Fail { error: AppError, notice: Option<ErrorNotice> },
}

/// Judges the result of downloading the pages. A first refusal for want of a
/// password asks for one; another first failure is reported as a retryable
/// `DOWNLOAD_FAILED`; a failure of the download with a password is passed on
/// as it is.
pub fn after_pages(result: Result<(), AppError>, with_password: bool) -> (s: PagesStep)
    ensures
        match result {
            Ok(()) => s is Convert,
            Err(e) => if with_password {
                s matches PagesStep::Fail { error, notice } && error == e && notice is None
            } else if e.kind() == ErrorKind::PasswordRequired {
                s is AskPassword
            } else {
                s matches PagesStep::Fail { error, notice } && error == e && (notice matches Some(
                    n,
                ) && notice_for(n, e, "DOWNLOAD_FAILED"@, true))
            },
        },
{
    match result {
        Ok(()) => PagesStep::Convert,
        Err(e) => {
            if with_password {
                return PagesStep::Fail { error: e, notice: None };
            }
            if let AppError::PasswordRequired(_) = e {
                return PagesStep::AskPassword;
            }
            let n = make_notice(&e, "DOWNLOAD_FAILED", true);
            PagesStep::Fail { error: e, notice: Some(n) }
        },
    }
}

/// The error when the wait for a password ends without one.
pub fn password_cancelled() -> (e: AppError)
    ensures
        e.is(ErrorKind::DownloadError, "Password submission was cancelled"@),
{
    AppError::DownloadError("Password submission was cancelled".to_string())
}

/// The document formats the pipeline converts to.
#[derive(Debug, Clone, Copy, PartialEq, Eq)]
pub enum OutputFormat {
    Pdf,
    Epub,
}

/// The converter for a format; any other format is refused as
/// `UNSUPPORTED_FORMAT`.
pub fn conversion_target(format: &str) -> (r: Result<OutputFormat, (AppError, ErrorNotice)>)
    ensures
        format@ == "pdf"@ ==> r == Ok::<OutputFormat, (AppError, ErrorNotice)>(OutputFormat::Pdf),
        format@ == "epub"@ ==> r == Ok::<OutputFormat, (AppError, ErrorNotice)>(OutputFormat::Epub),
        !is_known_format(format@) ==> (r matches Err((e, n)) && e.is(
            ErrorKind::ConversionError,
            "Unsupported format: "@ + format@,
        ) && notice_for(n, e, "UNSUPPORTED_FORMAT"@, false)),
{
    proof {
        reveal_strlit("pdf");
        reveal_strlit("epub");
        assert("pdf"@.len() != "epub"@.len());
    }
    let f = chars_of(format);
    if eq_str(&f, "pdf") {
        return Ok(OutputFormat::Pdf);
    }
    if eq_str(&f, "epub") {
        return Ok(OutputFormat::Epub);
    }
    let e = AppError::ConversionError(concat("Unsupported format: ", format));
    let n = make_notice(&e, "UNSUPPORTED_FORMAT", false);
    Err((e, n))
}

/// Judges the result of the conversion: a failure is reported as a
/// non-retryable `CONVERSION_FAILED`.
pub fn after_conversion(result: Result<(), AppError>) -> (r: Result<(), (AppError, ErrorNotice)>)
    ensures
        match result {
            Ok(()) => r is Ok,
            Err(e) => r matches Err((e2, n)) && e2 == e && notice_for(
                n,
                e,
                "CONVERSION_FAILED"@,
                false,
            ),
        },
{
    match result {
        Ok(()) => Ok(()),
        Err(e) => {
            let n = make_notice(&e, "CONVERSION_FAILED", false);
            Err((e, n))
        },
    }
}

/// Checks the converted file from what is known of it (`size` is 0 when it
/// could not be read): it must exist and not be empty; a failure is a
/// non-retryable `VERIFY_FAILED`.
pub fn verify_output(exists: bool, size: u64, path_text: &str) -> (r: Result<
    (),
    (AppError, ErrorNotice),
>)
    ensures
        !exists ==> (r matches Err((e, n)) && e.is(
            ErrorKind::ConversionError,
            "Output file does not exist after conversion: "@ + path_text@,
        ) && notice_for(n, e, "VERIFY_FAILED"@, false)),
        exists && size == 0 ==> (r matches Err((e, n)) && e.is(
            ErrorKind::ConversionError,
            "Output file is empty: "@ + path_text@,
        ) && notice_for(n, e, "VERIFY_FAILED"@, false)),
        exists && size > 0 ==> r is Ok,
{
    if !exists {
        let e = AppError::ConversionError(
            concat("Output file does not exist after conversion: ", path_text),
        );
        let n = make_notice(&e, "VERIFY_FAILED", false);
        return Err((e, n));
    }
    if size == 0 {
        let e = AppError::ConversionError(concat("Output file is empty: ", path_text));
        let n = make_notice(&e, "VERIFY_FAILED", false);
        return Err((e, n));
    }
    Ok(())
}

/// The author of a document as text; an absent author counts as empty.
pub open spec fn author_text(author: Option<String>) -> Seq<char> {
    match author {
        Some(a) => a@,
        None => Seq::<char>::empty(),
    }
}

/// The output file name of a download: the naming pattern applied to the
/// metadata (an absent author counts as empty), then `.` and the format.
pub fn output_file_name(
    pattern: &str,
    metadata: &DocumentMetadata,
    format: &str,
) -> (r: String)
    ensures
        exists|secs: u64|
            r@ == sanitized_title(
                #[trigger] substituted(
                    pattern@,
                    metadata.title@,
                    author_text(metadata.author),
                    metadata.page_count as nat,
                    format@,
                    crate::calendar::date_text(secs),
                ),
            ) + "."@ + format@,
{
    let author: &str = match &metadata.author {
        Some(a) => a.as_str(),
        None => "",
    };
    proof {
        reveal_strlit("");
        assert(author@ == author_text(metadata.author));
    }
    let mut name = OutputFile::apply_naming_pattern(
        pattern,
        metadata.title.as_str(),
        author,
        metadata.page_count,
        format,
    );
    let ghost secs = choose|secs: u64|
        name@ == sanitized_title(
            #[trigger] substituted(
                pattern@,
                metadata.title@,
                author@,
                metadata.page_count as nat,
                format@,
                crate::calendar::date_text(secs),
            ),
        );
    name.append(".");
    name.append(format);
    assert(name@ == sanitized_title(
        substituted(
            pattern@,
            metadata.title@,
            author_text(metadata.author),
            metadata.page_count as nat,
            format@,
            crate::calendar::date_text(secs),
        ),
    ) + "."@ + format@);
    name
}

// ---------------------------------------------------------------------------
// Downloads waiting for a password
// ---------------------------------------------------------------------------

#[verifier::external_type_specification]
#[verifier::external_body]
#[verifier::reject_recursive_types(T)]
pub struct ExOneshotSender<T>(Sender<T>);

/// `oneshot::Sender::send`: `true` when the password was handed to the
/// waiting task, `false` when that task had already gone. Which of the two
/// happens depends on the other task, so nothing is claimed.
#[verifier::external_body]
fn deliver(tx: Sender<String>, password: String) -> (delivered: bool) {
    tx.send(password).is_ok()
}

/// The pending password requests, one per download. They are kept as a
/// list of (id, sender) pairs with distinct ids: the map the verifier
/// specifies for `String` keys removes an entry without handing its value
/// back, and a sender has to be taken out to be used.
pub struct PasswordRegistry {
    entries: Vec<(String, Sender<String>)>,
}

pub open spec fn entries_map(s: Seq<(String, Sender<String>)>) -> Map<Seq<char>, Sender<String>>
    decreases s.len(),
{
    if s.len() == 0 {
        Map::empty()
    } else {
        entries_map(s.drop_last()).insert(s.last().0@, s.last().1)
    }
}

pub open spec fn ids_distinct(s: Seq<(String, Sender<String>)>) -> bool {
    forall|i: int, j: int| 0 <= i < j < s.len() ==> s[i].0@ != s[j].0@
}

proof fn lemma_entries_map_keys(s: Seq<(String, Sender<String>)>, k: Seq<char>)
    ensures
        entries_map(s).contains_key(k) <==> exists|i: int| 0 <= i < s.len() && s[i].0@ == k,
    decreases s.len(),
{
    if s.len() > 0 {
        lemma_entries_map_keys(s.drop_last(), k);
        if entries_map(s.drop_last()).contains_key(k) {
            let i = choose|i: int| 0 <= i < s.drop_last().len() && s.drop_last()[i].0@ == k;
            assert(s[i].0@ == k);
        }
        if exists|i: int| 0 <= i < s.len() && s[i].0@ == k {
            let i = choose|i: int| 0 <= i < s.len() && s[i].0@ == k;
            if i < s.len() - 1 {
                assert(s.drop_last()[i].0@ == k);
            }
        }
    }
}

proof fn lemma_entries_map_value(s: Seq<(String, Sender<String>)>, i: int)
    requires
        ids_distinct(s),
        0 <= i < s.len(),
    ensures
        entries_map(s).contains_key(s[i].0@),
        entries_map(s)[s[i].0@] == s[i].1,
    decreases s.len(),
{
    if i < s.len() - 1 {
        lemma_entries_map_value(s.drop_last(), i);
    }
}

proof fn lemma_entries_map_remove(s: Seq<(String, Sender<String>)>, i: int)
    requires
        ids_distinct(s),
        0 <= i < s.len(),
    ensures
        entries_map(s.remove(i)) =~= entries_map(s).remove(s[i].0@),
        ids_distinct(s.remove(i)),
    decreases s.len(),
{
    let k = s[i].0@;
    if i == s.len() - 1 {
        assert(s.remove(i) =~= s.drop_last());
        lemma_entries_map_keys(s.drop_last(), k);
        assert(!entries_map(s.drop_last()).contains_key(k));
    } else {
        lemma_entries_map_remove(s.drop_last(), i);
        assert(s.remove(i).drop_last() =~= s.drop_last().remove(i));
        assert(s.remove(i).last() == s.last());
        assert(s.last().0@ != k);
    }
}

impl PasswordRegistry {
    /// Download id to the sender that hands its password over.
    pub closed spec fn pending(&self) -> Map<Seq<char>, Sender<String>> {
        entries_map(self.entries@)
    }

    /// No download id is registered twice.
    #[verifier::type_invariant]
    spec fn ids_are_distinct(&self) -> bool {
        ids_distinct(self.entries@)
    }

    /// An empty registry.
    pub fn new() -> (r: PasswordRegistry)
        ensures
            r.pending() == Map::<Seq<char>, Sender<String>>::empty(),
    {
        PasswordRegistry { entries: Vec::new() }
    }

    /// Removes and returns the sender registered for a download.
    pub fn take(&mut self, download_id: &str) -> (r: Option<Sender<String>>)
        ensures
            final(self).pending() == old(self).pending().remove(download_id@),
            old(self).pending().contains_key(download_id@) ==> r == Some(
                old(self).pending()[download_id@],
            ),
            !old(self).pending().contains_key(download_id@) ==> r is None,
    {
        proof {
            use_type_invariant(&*self);
        }
        let mut entries: Vec<(String, Sender<String>)> = Vec::new();
        std::mem::swap(&mut entries, &mut self.entries);
        let id = chars_of(download_id);
        let mut i: usize = 0;
        while i < entries.len()
            invariant
                i <= entries.len(),
                entries@ == old(self).entries@,
                ids_distinct(entries@),
                id@ == download_id@,
                forall|j: int| 0 <= j < i ==> entries@[j].0@ != download_id@,
            decreases entries.len() - i,
        {
            let name = chars_of(entries[i].0.as_str());
            if eq_chars(&name, &id) {
                proof {
                    lemma_entries_map_value(entries@, i as int);
                    lemma_entries_map_remove(entries@, i as int);
                }
                let (_, tx) = entries.remove(i);
                self.entries = entries;
                return Some(tx);
            }
            i += 1;
        }
        proof {
            lemma_entries_map_keys(entries@, download_id@);
            assert(entries_map(entries@).remove(download_id@) =~= entries_map(entries@));
        }
        self.entries = entries;
        None
    }

    /// Registers the sender for a download, replacing any earlier one.
    pub fn register(&mut self, download_id: String, tx: Sender<String>)
        ensures
            final(self).pending() == old(self).pending().insert(download_id@, tx),
    {
        let _ = self.take(download_id.as_str());
        proof {
            use_type_invariant(&*self);
        }
        let mut entries: Vec<(String, Sender<String>)> = Vec::new();
        std::mem::swap(&mut entries, &mut self.entries);
        let ghost before = entries@;
        let ghost after = before.push((download_id, tx));
        proof {
            lemma_entries_map_keys(before, download_id@);
            assert(after.drop_last() =~= before);
            assert forall|i: int, j: int| 0 <= i < j < after.len() implies after[i].0@ != after[j].0@ by {
                if j == after.len() - 1 {
                    assert(before[i].0@ == after[i].0@);
                    assert(exists|k: int| 0 <= k < before.len() && before[k].0@ == after[i].0@);
                } else {
                    assert(after[i] == before[i]);
                    assert(after[j] == before[j]);
                }
            }
        }
        entries.push((download_id, tx));
        assert(entries@ == after);
        self.entries = entries;
    }
}

/// Takes the request waiting for a download's password and pairs its
/// sender with the password to send: the sender registered for that
/// download, and the password as given. Refused when nothing waits under
/// that id.
pub fn password_handover(registry: &mut PasswordRegistry, download_id: &str, password: String) -> (r:
    Result<(Sender<String>, String), AppError>)
    ensures
        final(registry).pending() == old(registry).pending().remove(download_id@),
        r is Ok <==> old(registry).pending().contains_key(download_id@),
        r matches Ok((tx, p)) ==> tx == old(registry).pending()[download_id@] && p@ == password@,
        r matches Err(e) ==> e.is(
            ErrorKind::DownloadError,
            "No pending password request for download '"@ + download_id@ + "'"@,
        ),
{
    match registry.take(download_id) {
        Some(tx) => Ok((tx, password)),
        None => {
            let mut m = concat("No pending password request for download '", download_id);
            m.append("'");
            Err(AppError::DownloadError(m))
        },
    }
}

/// Hands a password to the download waiting for it: the pair from
/// [`password_handover`] is sent. Fails when no download waits under that
/// id, or when it stopped waiting.
pub fn submit_password_to_pending(
    registry: &mut PasswordRegistry,
    download_id: &str,
    password: String,
) -> (r: Result<(), AppError>)
    ensures
        final(registry).pending() == old(registry).pending().remove(download_id@),
        !old(registry).pending().contains_key(download_id@) ==> (r matches Err(e) && e.is(
            ErrorKind::DownloadError,
            "No pending password request for download '"@ + download_id@ + "'"@,
        )),
        old(registry).pending().contains_key(download_id@) ==> (r is Ok || (r matches Err(e)
            && e.is(ErrorKind::DownloadError, "Password receiver was dropped"@))),
{
    let (tx, p) = password_handover(registry, download_id, password)?;
    if deliver(tx, p) {
        Ok(())
    } else {
        Err(AppError::DownloadError("Password receiver was dropped".to_string()))
    }
}

/// Forgets the pending request of a download, if any.
pub fn cleanup_pending_password(registry: &mut PasswordRegistry, download_id: &str)
    ensures
        final(registry).pending() == old(registry).pending().remove(download_id@),
{
    let _ = registry.take(download_id);
}

/// The sender registered for a download is the one pending for it (so the
/// one [`password_handover`] pairs with the submitted password), and taking
/// it leaves pending what was pending before the registration, less that
/// download.
pub proof fn law_register_then_submit(
    pending: Map<Seq<char>, Sender<String>>,
    id: Seq<char>,
    tx: Sender<String>,
)
    ensures
        pending.insert(id, tx).contains_key(id),
        pending.insert(id, tx)[id] == tx,
        pending.insert(id, tx).remove(id) == pending.remove(id),
{
    assert(pending.insert(id, tx).remove(id) =~= pending.remove(id));
}

/// A pending request is answered at most once: after a submission for a
/// download nothing is pending for it, so a second submission is refused.
pub proof fn law_password_submitted_once(pending: Map<Seq<char>, Sender<String>>, id: Seq<char>)
    ensures
        !pending.remove(id).contains_key(id),
{
}

/// Submitting or cleaning up for one download leaves the requests of the
/// other downloads as they were.
pub proof fn law_other_requests_untouched(
    pending: Map<Seq<char>, Sender<String>>,
    id: Seq<char>,
    other: Seq<char>,
)
    requires
        other != id,
    ensures
        pending.remove(id).contains_key(other) == pending.contains_key(other),
        pending.contains_key(other) ==> pending.remove(id)[other] == pending[other],
{
}

} // verus!
