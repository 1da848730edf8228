//! Page image URLs, the check of a downloaded page, and the bookkeeping of a
//! multi-page download (which pages to fetch, retries, the first failure).

use vstd::prelude::*;
use crate::document::{DocumentMetadata, string_views};
use crate::error::{AppError, ErrorKind};
use crate::image_header::{hex2, is_page_image, is_page_image_spec};
use crate::text::{decimal, push_decimal};
use crate::url_parser::{ParsedUrl, large_page_url_of, page_url_of};

verus! {

/// How many times a failed page download is tried again.
pub const MAX_RETRIES: u32 = 3;

/// The URL of a 1-based page: the named large image when the metadata lists a
/// file name for that page, else the numbered mobile image.
pub open spec fn page_url_spec(base: Seq<char>, names: Seq<Seq<char>>, page: nat) -> Seq<char> {
    if 1 <= page && page <= names.len() {
        large_page_url_of(base, names[page - 1])
    } else {
        page_url_of(base, page)
    }
}

/// The page image URL for `page` (1-based).
pub fn page_url(parsed_url: &ParsedUrl, metadata: &DocumentMetadata, page: usize) -> (r: String)
    requires
        metadata.page_filenames.len() > 0 ==> page >= 1,
    ensures
        r@ == page_url_spec(
            parsed_url.base_url@,
            string_views(metadata.page_filenames@),
            page as nat,
        ),
        1 <= page <= metadata.page_filenames.len() ==> r@ == parsed_url.base_url@ + "/files/large/"@
            + metadata.page_filenames@[page - 1]@,
        !(1 <= page <= metadata.page_filenames.len()) ==> r@ == parsed_url.base_url@
            + "/files/mobile/"@ + decimal(page as nat) + ".webp"@,
{
    proof {
        law_page_url_names_the_listed_file(
            parsed_url.base_url@,
            string_views(metadata.page_filenames@),
            page as nat,
        );
        if 1 <= page <= metadata.page_filenames.len() {
            assert(string_views(metadata.page_filenames@)[page - 1] == metadata.page_filenames@[page - 1]@);
        }
    }
    if metadata.page_filenames.len() > 0 && page - 1 < metadata.page_filenames.len() {
        let filename = &metadata.page_filenames[page - 1];
        return parsed_url.large_page_url(filename.as_str());
    }
    parsed_url.page_url(page)
}

/// Page `p` of a document that lists its page files is the `p`-th listed
/// file under `files/large/`; any other page is the numbered image under
/// `files/mobile/`.
pub proof fn law_page_url_names_the_listed_file(base: Seq<char>, names: Seq<Seq<char>>, page: nat)
    ensures
        1 <= page <= names.len() ==> page_url_spec(base, names, page) == base + "/files/large/"@
            + names[page - 1],
        !(1 <= page <= names.len()) ==> page_url_spec(base, names, page) == base
            + "/files/mobile/"@ + decimal(page) + ".webp"@,
{
}

/// Bytes that `application/x-www-form-urlencoded` leaves as they are.
pub open spec fn form_unchanged(b: u8) -> bool {
    b == 0x2A || b == 0x2D || b == 0x2E || b == 0x5F || (0x30 <= b && b <= 0x39) || (0x41 <= b
        && b <= 0x5A) || (0x61 <= b && b <= 0x7A)
}

/// The form encoding of one byte: itself, `+` for a space, else `%XX`.
pub open spec fn form_byte(b: u8) -> Seq<char> {
    if form_unchanged(b) {
        seq![b as char]
    } else if b == 0x20 {
        seq!['+']
    } else {
        seq!['%'] + hex2(b)
    }
}

/// The form encoding of a byte string, byte by byte.
pub open spec fn form_encoded(bytes: Seq<u8>) -> Seq<char>
    decreases bytes.len(),
{
    if bytes.len() == 0 {
        Seq::empty()
    } else {
        form_encoded(bytes.drop_last()) + form_byte(bytes.last())
    }
}

/// `url::form_urlencoded::byte_serialize`, collected into a string. Its source
/// keeps `*`, `-`, `.`, `_`, ASCII digits and letters, turns a space into
/// `+`, and writes every other byte as `%` and two upper-case hex digits.
#[verifier::external_body]
fn form_urlencode(bytes: &[u8]) -> (r: String)
    ensures
        r@ == form_encoded(bytes@),
{
    url::form_urlencoded::byte_serialize(bytes).collect()
}

/// The page URL with the password appended as a `password` query parameter.
pub fn page_url_with_password(
    parsed_url: &ParsedUrl,
    metadata: &DocumentMetadata,
    page: usize,
    password: &str,
) -> (r: String)
    requires
        metadata.page_filenames.len() > 0 ==> page >= 1,
    ensures
        r@ == page_url_spec(parsed_url.base_url@, string_views(metadata.page_filenames@), page as nat)
            + "?password="@ + form_encoded(vstd::utf8::encode_utf8(password@)),
        1 <= page <= metadata.page_filenames.len() ==> r@ == parsed_url.base_url@ + "/files/large/"@
            + metadata.page_filenames@[page - 1]@ + "?password="@ + form_encoded(
            vstd::utf8::encode_utf8(password@),
        ),
{
    let mut r = page_url(parsed_url, metadata, page);
    r.append("?password=");
    let encoded = form_urlencode(password.as_bytes());
    r.append(encoded.as_str());
    r
}

/// What a page response is refused for, if anything: a 403 asks for a
/// password, another non-2xx status is a download failure, and a body that is
/// neither JPEG nor WebP is invalid image data.
pub open spec fn page_response_fault(status: u16, body: Seq<u8>, url: Seq<char>) -> Option<
    (ErrorKind, Seq<char>),
> {
    if !(200 <= status && status <= 299) {
        if status == 403 {
            Some((ErrorKind::PasswordRequired, "Password required to download pages"@))
        } else {
            Some(
                (
                    ErrorKind::DownloadError,
                    "HTTP "@ + decimal(status as nat) + " for page "@ + url,
                ),
            )
        }
    } else if !is_page_image_spec(body) {
        Some(
            (
                ErrorKind::DownloadError,
                "Invalid image data for "@ + url + " ("@ + decimal(body.len()) +
                    " bytes, expected JPEG or WebP magic bytes)"@,
            ),
        )
    } else {
        None
    }
}

/// Accepts a page response (status and body) or says why it is refused.
pub fn check_page_response(status: u16, body: &[u8], url: &str) -> (r: Result<(), AppError>)
    ensures
        match page_response_fault(status, body@, url@) {
            None => r is Ok,
            Some((k, msg)) => r matches Err(e) && e.is(k, msg),
        },
{
    if !(200 <= status && status <= 299) {
        if status == 403 {
            return Err(AppError::PasswordRequired("Password required to download pages".to_string()));
        }
        let mut msg = "HTTP ".to_string();
        push_decimal(&mut msg, status as u64);
        msg.append(" for page ");
        msg.append(url);
        return Err(AppError::DownloadError(msg));
    }
    if !is_page_image(body) {
        let mut msg = "Invalid image data for ".to_string();
        msg.append(url);
        msg.append(" (");
        push_decimal(&mut msg, body.len() as u64);
        msg.append(" bytes, expected JPEG or WebP magic bytes)");
        return Err(AppError::DownloadError(msg));
    }
    Ok(())
}

/// What follows one attempt to download a page.
#[derive(Debug)]
pub enum AttemptStep {
    /// The page is on disk.
    Succeeded,
    /// Try again; the number is the attempt to make next (0-based).
    Retry(u32),
    /// Every attempt failed; this is the last failure.
    GaveUp(AppError),
}

/// Decides what follows attempt `attempt` (0-based) of a page download: a
/// failure is retried until `MAX_RETRIES` retries have been made.
pub fn after_attempt(attempt: u32, outcome: Result<(), AppError>) -> (s: AttemptStep)
    requires
        attempt <= MAX_RETRIES,
    ensures
        match outcome {
            Ok(()) => s is Succeeded,
            Err(e) => if attempt < MAX_RETRIES {
                s == AttemptStep::Retry((attempt + 1) as u32)
            } else {
                s == AttemptStep::GaveUp(e)
            },
        },
{
    match outcome {
        Ok(()) => AttemptStep::Succeeded,
        Err(e) => {
            if attempt < MAX_RETRIES {
                AttemptStep::Retry(attempt + 1)
            } else {
                AttemptStep::GaveUp(e)
            }
        },
    }
}

/// The first failure among the page results, in the order given.
pub open spec fn first_failure(results: Seq<Result<(), AppError>>) -> Option<AppError>
    decreases results.len(),
{
    if results.len() == 0 {
        None
    } else {
        match results[0] {
            Err(e) => Some(e),
            Ok(_) => first_failure(results.drop_first()),
        }
    }
}

/// Combines the results of the page tasks: the first failure wins.
pub fn first_error(results: Vec<Result<(), AppError>>) -> (r: Result<(), AppError>)
    ensures
        match first_failure(results@) {
            None => r is Ok,
            Some(e) => r == Err::<(), AppError>(e),
        },
{
    let mut i: usize = 0;
    assert(results@.skip(0) =~= results@);
    while i < results.len()
        invariant
            i <= results.len(),
            first_failure(results@) == first_failure(results@.skip(i as int)),
        decreases results.len() - i,
    {
        assert(results@.skip(i as int).drop_first() =~= results@.skip(i as int + 1));
        if results[i].is_err() {
            let mut results = results;
            return results.remove(i);
        }
        i += 1;
    }
    assert(results@.skip(i as int).len() == 0);
    Ok(())
}

/// The pages (1-based) whose cached flag is down, in increasing order.
pub open spec fn uncached_pages(cached: Seq<bool>) -> Seq<usize>
    decreases cached.len(),
{
    if cached.len() == 0 {
        Seq::empty()
    } else if cached.last() {
        uncached_pages(cached.drop_last())
    } else {
        uncached_pages(cached.drop_last()).push(cached.len() as usize)
    }
}

/// The pages that still have to be downloaded, given for each page (1-based,
/// in order) whether a non-empty copy is already cached.
pub fn pages_to_fetch(cached: &Vec<bool>) -> (r: Vec<usize>)
    ensures
        r@ == uncached_pages(cached@),
{
    let mut r: Vec<usize> = Vec::new();
    let mut i: usize = 0;
    while i < cached.len()
        invariant
            i <= cached.len(),
            r@ == uncached_pages(cached@.take(i as int)),
        decreases cached.len() - i,
    {
        assert(cached@.take(i as int + 1).drop_last() =~= cached@.take(i as int));
        if !cached[i] {
            r.push(i + 1);
        }
        i += 1;
    }
    assert(cached@.take(i as int) =~= cached@);
    r
}

/// Resuming downloads only what is missing: page `p` is fetched if and
/// only if it is one of the document's pages (`1..=len`) and no non-empty copy
/// of it is cached; the pages come in increasing order, each once.
pub proof fn law_resume_fetches_only_missing(cached: Seq<bool>, p: usize)
    requires
        cached.len() <= usize::MAX,
    ensures
        uncached_pages(cached).contains(p) <==> 1 <= p <= cached.len() && !cached[p - 1],
        forall|i: int, j: int|
            0 <= i < j < uncached_pages(cached).len() ==> #[trigger] uncached_pages(cached)[i]
                < #[trigger] uncached_pages(cached)[j],
        forall|i: int|
            0 <= i < uncached_pages(cached).len() ==> 1 <= #[trigger] uncached_pages(cached)[i]
                <= cached.len(),
    decreases cached.len(),
{
    if cached.len() > 0 {
        let t = cached.drop_last();
        law_resume_fetches_only_missing(t, p);
        let u = uncached_pages(t);
        if !cached.last() {
            let r = u.push(cached.len() as usize);
            assert(r[u.len() as int] == cached.len());
            assert forall|i: int| 0 <= i < r.len() implies 1 <= #[trigger] r[i] <= cached.len() by {
                if i < u.len() {
                    assert(r[i] == u[i]);
                }
            }
            assert forall|i: int, j: int| 0 <= i < j < r.len() implies #[trigger] r[i] < #[trigger] r[j] by {
                assert(r[i] == u[i]);
                if j < u.len() {
                    assert(r[j] == u[j]);
                }
            }
            if r.contains(p) {
                let k = choose|k: int| 0 <= k < r.len() && r[k] == p;
                if k < u.len() {
                    assert(u[k] == p);
                    assert(u.contains(p));
                }
            }
            if 1 <= p <= cached.len() && !cached[p - 1] {
                if p < cached.len() {
                    assert(t[p - 1] == cached[p - 1]);
                    let k = choose|k: int| 0 <= k < u.len() && u[k] == p;
                    assert(r[k] == p);
                }
            }
        } else {
            if 1 <= p <= cached.len() && p < cached.len() {
                assert(t[p - 1] == cached[p - 1]);
            }
            if u.contains(p) {
                assert(t[p - 1] == cached[p - 1]);
            }
        }
    }
}

/// The characters a form-encoded value can contain.
pub open spec fn is_query_safe(c: char) -> bool {
    ('0' <= c && c <= '9') || ('A' <= c && c <= 'Z') || ('a' <= c && c <= 'z') || c == '*' || c
        == '-' || c == '.' || c == '_' || c == '+' || c == '%'
}

/// An encoded password cannot break the query string: it holds only
/// letters, digits and `* - . _ + %` (no `&`, `=`, `#`, `?` or space).
pub proof fn law_encoded_password_is_query_safe(bytes: Seq<u8>)
    ensures
        forall|i: int| 0 <= i < form_encoded(bytes).len() ==> is_query_safe(
            #[trigger] form_encoded(bytes)[i],
        ),
    decreases bytes.len(),
{
    if bytes.len() > 0 {
        law_encoded_password_is_query_safe(bytes.drop_last());
        let a = form_encoded(bytes.drop_last());
        let b = form_byte(bytes.last());
        let x = bytes.last();
        assert(x / 16 < 16 && x % 16 < 16);
        assert forall|i: int| 0 <= i < b.len() implies is_query_safe(#[trigger] b[i]) by {
            if !form_unchanged(x) && x != 0x20 {
                assert(b == seq!['%', crate::image_header::hex_digit(x / 16), crate::image_header::hex_digit(x % 16)]);
            }
        }
        assert forall|i: int| 0 <= i < form_encoded(bytes).len() implies is_query_safe(
            #[trigger] form_encoded(bytes)[i],
        ) by {
            if i < a.len() {
                assert(form_encoded(bytes)[i] == a[i]);
            } else {
                assert(form_encoded(bytes)[i] == b[i - a.len()]);
            }
        }
    }
}

} // verus!
