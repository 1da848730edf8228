//! Input validation: Anyflip URLs, output format, save path, page count and
//! simple filename sanitizing.

use vstd::prelude::*;
use crate::error::AppError;
use crate::text::{
    ascii_lowercase, chars_of, contains, contains_seq, decimal, eq_str, has_prefix, push_decimal,
    seq_views, split, split_on, starts_with, string_of, sub_chars, to_ascii_lowercase, trim_by_flags,
    trim_char, trim_end_where, trim_matches, trim_start_where, trim_where,
};

verus! {

broadcast use vstd::string::group_string_axioms;

/// Largest page count accepted for a document.
pub const MAX_PAGES: usize = 10000;

/// The parts of a parsed URL that the library reads.
pub struct UrlParts {
    pub scheme: String,
    pub host: Option<String>,
    pub path: String,
}

pub open spec fn opt_view(o: Option<String>) -> Option<Seq<char>> {
    match o {
        Some(s) => Some(s@),
        None => None,
    }
}

/// What `url::Url::parse` makes of a text: `None` when it rejects it, else
/// the scheme, the host (if any) and the path of the parsed URL.
pub uninterp spec fn url_components(input: Seq<char>) -> Option<(Seq<char>, Option<Seq<char>>, Seq<char>)>;

/// Calls `url::Url::parse` and reads `scheme()`, `host_str()` and `path()`
/// of the result. The contract claims only that the outcome is the fixed
/// function `url_components` of the input text.
#[verifier::external_body]
pub(crate) fn parse_url_parts(input: &str) -> (res: Option<UrlParts>)
    ensures
        match res {
            None => url_components(input@) is None,
            Some(p) => url_components(input@) == Some((p.scheme@, opt_view(p.host), p.path@)),
        },
{
    match url::Url::parse(input) {
        Ok(u) => {
            let host = match u.host_str() {
                Some(h) => Some(h.to_string()),
                None => None,
            };
            Some(UrlParts { scheme: u.scheme().to_string(), host, path: u.path().to_string() })
        },
        Err(_) => None,
    }
}

/// `http://` is read as `https://`.
pub open spec fn https_normalized(url: Seq<char>) -> Seq<char> {
    if has_prefix(url, "http://"@) {
        "https://"@ + url.skip("http://"@.len() as int)
    } else {
        url
    }
}

/// The host without one leading `www.`.
pub open spec fn strip_www(host: Seq<char>) -> Seq<char> {
    if has_prefix(host, "www."@) {
        host.skip("www."@.len() as int)
    } else {
        host
    }
}

/// The `/`-separated segments of a path, ignoring leading and trailing `/`.
pub open spec fn path_segments(path: Seq<char>) -> Seq<Seq<char>> {
    split_on(trim_char(path, '/'), '/')
}

/// A segment that spells a parent-directory step, plainly or percent-encoded.
pub open spec fn is_traversal(seg: Seq<char>) -> bool {
    let l = ascii_lowercase(seg);
    contains_seq(l, ".."@) || contains_seq(l, "%2e%2e"@) || contains_seq(l, "%2e."@)
        || contains_seq(l, ".%2e"@)
}

/// The two segments are present and non-empty.
pub open spec fn has_user_and_book(parts: Seq<Seq<char>>) -> bool {
    parts.len() >= 2 && parts[0].len() > 0 && parts[1].len() > 0
}

/// The scheme, host and path of a parsed URL, as `url_components` gives them.
pub open spec fn parts_view(p: Option<UrlParts>) -> Option<(Seq<char>, Option<Seq<char>>, Seq<char>)> {
    match p {
        Some(u) => Some((u.scheme@, opt_view(u.host), u.path@)),
        None => None,
    }
}

/// Why the parts of a parsed URL (`None`: the text did not parse) do not
/// make an acceptable Anyflip document URL (`None` if they do).
pub open spec fn parts_fault(c: Option<(Seq<char>, Option<Seq<char>>, Seq<char>)>) -> Option<
    Seq<char>,
> {
    match c {
        None => Some("Invalid URL format"@),
        Some((scheme, host, path)) => if scheme != "https"@ {
            Some("must use HTTPS"@)
        } else {
            match host {
                None => Some("No host in URL"@),
                Some(h) => if strip_www(h) != "anyflip.com"@ && strip_www(h) != "online.anyflip.com"@ {
                    Some("Not an Anyflip URL: "@ + h)
                } else if !has_user_and_book(path_segments(path)) {
                    Some("URL must contain at least /{user}/{book} path"@)
                } else if is_traversal(path_segments(path)[0]) || is_traversal(
                    path_segments(path)[1],
                ) {
                    Some("Path traversal detected"@)
                } else {
                    None
                },
            }
        },
    }
}

/// Why `url` is not an acceptable Anyflip document URL (`None` if it is).
pub open spec fn url_fault(url: Seq<char>) -> Option<Seq<char>> {
    if url.len() == 0 {
        Some("URL cannot be empty"@)
    } else {
        parts_fault(url_components(https_normalized(url)))
    }
}

/// An `InvalidUrl` error carrying exactly `msg`.
pub open spec fn invalid_url_with(e: AppError, msg: Seq<char>) -> bool {
    e matches AppError::InvalidUrl(m) && m@ == msg
}

pub fn invalid_url(msg: &str) -> (e: AppError)
    ensures
        invalid_url_with(e, msg@),
{
    AppError::InvalidUrl(msg.to_owned())
}

/// `url` with a leading `http://` replaced by `https://`.
pub fn normalize_scheme(url: &[char]) -> (r: Vec<char>)
    ensures
        r@ == https_normalized(url@),
{
    let http = chars_of("http://");
    if starts_with(url, &http) {
        let mut r = chars_of("https://");
        let rest = sub_chars(url, http.len(), url.len());
        let mut i: usize = 0;
        let ghost r0 = r@;
        while i < rest.len()
            invariant
                i <= rest.len(),
                r@ == r0 + rest@.take(i as int),
            decreases rest.len() - i,
        {
            r.push(rest[i]);
            i = i + 1;
            assert(r@ =~= r0 + rest@.take(i as int));
        }
        assert(rest@.take(rest.len() as int) =~= rest@);
        assert(url@.subrange(http@.len() as int, url@.len() as int) =~= url@.skip(
            http@.len() as int,
        ));
        r
    } else {
        sub_chars(url, 0, url.len())
    }
}

/// Host with one leading `www.` removed.
fn strip_www_exec(host: &[char]) -> (r: Vec<char>)
    ensures
        r@ == strip_www(host@),
{
    let www = chars_of("www.");
    if starts_with(host, &www) {
        let r = sub_chars(host, www.len(), host.len());
        assert(r@ =~= host@.skip(www@.len() as int));
        r
    } else {
        let r = sub_chars(host, 0, host.len());
        assert(r@ =~= host@);
        r
    }
}

/// Whether a segment spells a parent-directory step.
pub fn segment_is_traversal(seg: &[char]) -> (b: bool)
    ensures
        b == is_traversal(seg@),
{
    let l = to_ascii_lowercase(seg);
    contains(&l, &chars_of("..")) || contains(&l, &chars_of("%2e%2e")) || contains(
        &l,
        &chars_of("%2e."),
    ) || contains(&l, &chars_of(".%2e"))
}

/// The `/`-separated segments of a path, ignoring leading and trailing `/`.
pub fn segments_of(path: &[char]) -> (parts: Vec<Vec<char>>)
    ensures
        seq_views(parts@) == path_segments(path@),
{
    let trimmed = trim_matches(path, '/');
    split(&trimmed, '/')
}

/// Validate an Anyflip URL.
///
/// Accepts `https://anyflip.com/{user}/{book}`, `https://online.anyflip.com/...`
/// and `www.` variants; `http://` is upgraded to `https://` first. Extra path
/// segments are accepted. Rejects empty input, unparseable URLs, other schemes,
/// missing hosts, other hosts, fewer than two non-empty segments and
/// parent-directory steps in the first two segments.
pub fn validate_url(url: &str) -> (r: Result<(), AppError>)
    ensures
        r is Ok <==> url_fault(url@) is None,
        r matches Err(e) ==> invalid_url_with(e, url_fault(url@).unwrap()),
{
    if url.is_empty() {
        return Err(invalid_url("URL cannot be empty"));
    }
    let chars = chars_of(url);
    let normalized = string_of(&normalize_scheme(&chars));
    let parts = parse_url_parts(normalized.as_str());
    check_url_parts(&parts)
}

/// Checks the parts of a parsed URL (`None`: the text did not parse): the
/// scheme must be `https`, the host `anyflip.com` or `online.anyflip.com`
/// (with or without `www.`), and the path must hold a user and a book
/// segment, neither of them a parent-directory step.
pub fn check_url_parts(parts: &Option<UrlParts>) -> (r: Result<(), AppError>)
    ensures
        r is Ok <==> parts_fault(parts_view(*parts)) is None,
        r matches Err(e) ==> invalid_url_with(e, parts_fault(parts_view(*parts)).unwrap()),
{
    let parts = match parts {
        Some(p) => p,
        None => return Err(invalid_url("Invalid URL format")),
    };
    if !eq_str(&chars_of(parts.scheme.as_str()), "https") {
        return Err(invalid_url("must use HTTPS"));
    }
    let host = match &parts.host {
        Some(h) => h,
        None => return Err(invalid_url("No host in URL")),
    };
    let host_chars = chars_of(host.as_str());
    let stripped = strip_www_exec(&host_chars);
    if !eq_str(&stripped, "anyflip.com") && !eq_str(&stripped, "online.anyflip.com") {
        return Err(AppError::InvalidUrl(crate::text::concat("Not an Anyflip URL: ", host.as_str())));
    }
    let segs = segments_of(&chars_of(parts.path.as_str()));
    if segs.len() < 2 || segs[0].len() == 0 || segs[1].len() == 0 {
        return Err(invalid_url("URL must contain at least /{user}/{book} path"));
    }
    if segment_is_traversal(&segs[0]) || segment_is_traversal(&segs[1]) {
        return Err(invalid_url("Path traversal detected"));
    }
    Ok(())
}

/// Why a save path is refused (`None` if it is accepted).
pub open spec fn save_path_fault(path: Seq<char>) -> Option<Seq<char>> {
    if path.len() == 0 {
        Some("Save path cannot be empty"@)
    } else {
        None
    }
}

/// Validate that a save path is non-empty. Existence and writability are
/// checked later, at download time.
pub fn validate_save_path(path: &str) -> (r: Result<(), AppError>)
    ensures
        r is Ok <==> save_path_fault(path@) is None,
        r matches Err(e) ==> invalid_url_with(e, save_path_fault(path@).unwrap()),
{
    if path.is_empty() {
        return Err(invalid_url("Save path cannot be empty"));
    }
    Ok(())
}

/// The output formats the library can produce.
pub open spec fn is_known_format(format: Seq<char>) -> bool {
    format == "pdf"@ || format == "epub"@
}

/// The message for an unknown format.
pub open spec fn format_fault_message(format: Seq<char>) -> Seq<char> {
    "Invalid format '"@ + format + "': must be 'pdf' or 'epub'"@
}

/// Validate the output format: exactly `pdf` or `epub` (case-sensitive).
pub fn validate_format(format: &str) -> (r: Result<(), AppError>)
    ensures
        r is Ok <==> is_known_format(format@),
        r matches Err(e) ==> invalid_url_with(e, format_fault_message(format@)),
{
    let f = chars_of(format);
    if eq_str(&f, "pdf") || eq_str(&f, "epub") {
        Ok(())
    } else {
        let m = crate::text::concat("Invalid format '", format);
        Err(AppError::InvalidUrl(crate::text::concat(m.as_str(), "': must be 'pdf' or 'epub'")))
    }
}

/// Why a page count is refused (`None` if it lies in `1..=MAX_PAGES`).
pub open spec fn page_count_fault(count: nat) -> Option<Seq<char>> {
    if count == 0 {
        Some("Page count must be greater than zero"@)
    } else if count > MAX_PAGES {
        Some("Page count "@ + decimal(count) + " exceeds maximum of "@ + decimal(MAX_PAGES as nat))
    } else {
        None
    }
}

/// Validate that a page count lies in `1..=MAX_PAGES`.
pub fn validate_page_count(count: usize) -> (r: Result<(), AppError>)
    ensures
        r is Ok <==> page_count_fault(count as nat) is None,
        r matches Err(e) ==> invalid_url_with(e, page_count_fault(count as nat).unwrap()),
{
    if count == 0 {
        return Err(invalid_url("Page count must be greater than zero"));
    }
    if count > MAX_PAGES {
        let mut m = String::new();
        m.append("Page count ");
        push_decimal(&mut m, count as u64);
        m.append(" exceeds maximum of ");
        push_decimal(&mut m, MAX_PAGES as u64);
        return Err(AppError::InvalidUrl(m));
    }
    Ok(())
}

/// Characters replaced by `_` in [`sanitize_filename`].
pub open spec fn is_forbidden_simple(c: char) -> bool {
    c == '/' || c == '\\' || c == ':' || c == '*' || c == '?' || c == '"' || c == '<' || c
        == '>' || c == '|' || c == '\0'
}

pub open spec fn is_dot_or_space(c: char) -> bool {
    c == '.' || c == ' '
}

/// The simple sanitizing rule: forbidden characters become `_`, at most 200
/// characters are kept, then leading/trailing dots and spaces are removed.
pub open spec fn sanitize_simple(name: Seq<char>) -> Seq<char> {
    let replaced = name.map_values(|c: char| if is_forbidden_simple(c) { '_' } else { c });
    let kept = if replaced.len() > 200 { replaced.take(200) } else { replaced };
    trim_where(kept, |c: char| is_dot_or_space(c))
}

/// Sanitize a filename for safe filesystem use: characters illegal on
/// Windows/Unix become `_`, at most 200 characters are kept, and leading and
/// trailing dots and spaces are trimmed.
pub fn sanitize_filename(name: &str) -> (r: String)
    ensures
        r@ == sanitize_simple(name@),
{
    let cs = chars_of(name);
    let limit: usize = if cs.len() > 200 { 200 } else { cs.len() };
    let mut kept: Vec<char> = Vec::new();
    let mut flags: Vec<bool> = Vec::new();
    let ghost replaced = name@.map_values(|c: char| if is_forbidden_simple(c) { '_' } else { c });
    let mut i: usize = 0;
    while i < limit
        invariant
            limit <= cs.len(),
            cs@ == name@,
            i <= limit,
            replaced == name@.map_values(|c: char| if is_forbidden_simple(c) { '_' } else { c }),
            kept@ == replaced.take(i as int),
            flags.len() == kept.len(),
            forall|k: int| 0 <= k < kept.len() ==> flags@[k] == is_dot_or_space(#[trigger] kept@[k]),
        decreases limit - i,
    {
        let c = cs[i];
        let d = if c == '/' || c == '\\' || c == ':' || c == '*' || c == '?' || c == '"' || c == '<'
            || c == '>' || c == '|' || c == '\0' {
            '_'
        } else {
            c
        };
        kept.push(d);
        flags.push(d == '.' || d == ' ');
        i = i + 1;
        assert(kept@ =~= replaced.take(i as int));
    }
    assert(replaced.len() > 200 ==> replaced.take(200) =~= replaced.take(limit as int));
    assert(replaced.len() <= 200 ==> replaced =~= replaced.take(limit as int));
    let trimmed = trim_by_flags(&kept, &flags, Ghost(|c: char| is_dot_or_space(c)));
    string_of(&trimmed)
}

proof fn lemma_trim_start(s: Seq<char>, p: spec_fn(char) -> bool)
    ensures
        exists|k: int| 0 <= k <= s.len() && trim_start_where(s, p) == s.skip(k),
        trim_start_where(s, p).len() > 0 ==> !p(trim_start_where(s, p)[0]),
    decreases s.len(),
{
    if s.len() > 0 && p(s[0]) {
        lemma_trim_start(s.drop_first(), p);
        let k = choose|k: int| 0 <= k <= s.drop_first().len() && trim_start_where(s.drop_first(), p) == s.drop_first().skip(k);
        assert(s.drop_first().skip(k) =~= s.skip(k + 1));
    } else {
        assert(s.skip(0) =~= s);
    }
}

proof fn lemma_trim_end(s: Seq<char>, p: spec_fn(char) -> bool)
    ensures
        exists|k: int| 0 <= k <= s.len() && trim_end_where(s, p) == s.take(k),
        trim_end_where(s, p).len() > 0 ==> !p(trim_end_where(s, p).last()),
    decreases s.len(),
{
    if s.len() > 0 && p(s.last()) {
        lemma_trim_end(s.drop_last(), p);
        let k = choose|k: int| 0 <= k <= s.drop_last().len() && trim_end_where(s.drop_last(), p) == s.drop_last().take(k);
        assert(s.drop_last().take(k) =~= s.take(k));
    } else {
        assert(s.take(s.len() as int) =~= s);
    }
}

/// A sanitized name is a plain file name: none of the characters illegal in
/// file names, at most 200 characters, and no dot or space at either end
/// (so never `.` or `..`).
pub proof fn law_sanitized_name_is_plain(name: Seq<char>)
    ensures
        forall|i: int|
            0 <= i < sanitize_simple(name).len() ==> !is_forbidden_simple(
                #[trigger] sanitize_simple(name)[i],
            ),
        sanitize_simple(name).len() <= 200,
        sanitize_simple(name).len() > 0 ==> !is_dot_or_space(sanitize_simple(name)[0])
            && !is_dot_or_space(sanitize_simple(name).last()),
{
    let p = |c: char| is_dot_or_space(c);
    let replaced = name.map_values(|c: char| if is_forbidden_simple(c) { '_' } else { c });
    let kept = if replaced.len() > 200 { replaced.take(200) } else { replaced };
    assert(forall|i: int| 0 <= i < kept.len() ==> !is_forbidden_simple(#[trigger] kept[i]));
    lemma_trim_start(kept, p);
    let a = choose|k: int| 0 <= k <= kept.len() && trim_start_where(kept, p) == kept.skip(k);
    let t = trim_start_where(kept, p);
    lemma_trim_end(t, p);
    let b = choose|k: int| 0 <= k <= t.len() && trim_end_where(t, p) == t.take(k);
    let r = sanitize_simple(name);
    assert(r == t.take(b));
    assert forall|i: int| 0 <= i < r.len() implies !is_forbidden_simple(#[trigger] r[i]) by {
        assert(r[i] == t[i]);
        assert(t[i] == kept[a + i]);
    }
    if r.len() > 0 {
        assert(r[0] == t[0]);
    }
}

/// Sanitizing a sanitized name changes nothing.
pub proof fn law_sanitize_is_idempotent(name: Seq<char>)
    ensures
        sanitize_simple(sanitize_simple(name)) == sanitize_simple(name),
{
    let r = sanitize_simple(name);
    law_sanitized_name_is_plain(name);
    let replaced = r.map_values(|c: char| if is_forbidden_simple(c) { '_' } else { c });
    assert(replaced =~= r);
    let p = |c: char| is_dot_or_space(c);
    assert(trim_start_where(r, p) == r);
    assert(trim_end_where(r, p) == r);
}

} // verus!
