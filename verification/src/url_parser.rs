//! Parsing an Anyflip URL into its user and book slugs.

use vstd::prelude::*;
use crate::error::AppError;
use crate::text::{chars_of, concat, decimal, push_decimal, seq_views, string_of};
use crate::validator::{
    check_url_parts, strip_www, invalid_url, invalid_url_with, normalize_scheme, parse_url_parts, parts_fault,
    parts_view, path_segments, segments_of, https_normalized, url_components, url_fault, UrlParts,
};

verus! {

broadcast use vstd::string::group_string_axioms;

/// Allowed path segment characters: alphanumeric, hyphens, underscores.
pub const SEGMENT_PATTERN: &'static str = "^[a-zA-Z0-9_-]+$";

pub open spec fn is_segment_char(c: char) -> bool {
    ('a' <= c && c <= 'z') || ('A' <= c && c <= 'Z') || ('0' <= c && c <= '9') || c == '_' || c
        == '-'
}

/// A non-empty run of segment characters: the language of [`SEGMENT_PATTERN`].
pub open spec fn valid_segment(s: Seq<char>) -> bool {
    s.len() > 0 && forall|i: int| 0 <= i < s.len() ==> is_segment_char(#[trigger] s[i])
}

/// What `regex::Regex::new(pattern)` followed by `is_match(text)` gives:
/// `None` when the pattern does not compile.
pub uninterp spec fn regex_match_result(pattern: Seq<char>, text: Seq<char>) -> Option<bool>;

/// Compiles `pattern` with `regex::Regex::new` and tests `text` with
/// `Regex::is_match`. Claimed: the outcome is a fixed function of the two
/// texts, and for [`SEGMENT_PATTERN`] (anchored by `^`/`$` at the ends of the
/// text, one or more characters of the class) it is the set described by
/// `valid_segment`.
#[verifier::external_body]
pub(crate) fn regex_is_match(pattern: &str, text: &str) -> (res: Option<bool>)
    ensures
        res == regex_match_result(pattern@, text@),
        pattern@ == SEGMENT_PATTERN@ ==> res == Some(valid_segment(text@)),
{
    match regex::Regex::new(pattern) {
        Ok(re) => Some(re.is_match(text)),
        Err(_) => None,
    }
}

/// Parsed result of an Anyflip URL: the user and book slugs plus the base URL
/// on the `online.anyflip.com` CDN origin.
#[derive(Debug, Clone, PartialEq, Eq)]
pub struct ParsedUrl {
    pub user: String,
    pub book: String,
    pub base_url: String,
}

/// `https://online.anyflip.com/{user}/{book}`.
pub open spec fn base_url_of(user: Seq<char>, book: Seq<char>) -> Seq<char> {
    "https://online.anyflip.com/"@ + user + "/"@ + book
}

pub open spec fn config_js_url_of(base: Seq<char>) -> Seq<char> {
    base + "/mobile/javascript/config.js"@
}

pub open spec fn page_url_of(base: Seq<char>, page: nat) -> Seq<char> {
    base + "/files/mobile/"@ + decimal(page) + ".webp"@
}

pub open spec fn large_page_url_of(base: Seq<char>, filename: Seq<char>) -> Seq<char> {
    base + "/files/large/"@ + filename
}

impl ParsedUrl {
    /// The config.js URL of this document.
    pub fn config_js_url(&self) -> (r: String)
        ensures
            r@ == config_js_url_of(self.base_url@),
    {
        concat(self.base_url.as_str(), "/mobile/javascript/config.js")
    }

    /// The page image URL for a 1-based page index.
    pub fn page_url(&self, page: usize) -> (r: String)
        ensures
            r@ == page_url_of(self.base_url@, page as nat),
    {
        let mut r = concat(self.base_url.as_str(), "/files/mobile/");
        push_decimal(&mut r, page as u64);
        r.append(".webp");
        r
    }

    /// The large page image URL for a given filename.
    pub fn large_page_url(&self, filename: &str) -> (r: String)
        ensures
            r@ == large_page_url_of(self.base_url@, filename@),
    {
        let mut r = concat(self.base_url.as_str(), "/files/large/");
        r.append(filename);
        r
    }

    /// The temporary directory name of this document: `{user}_{book}`.
    pub fn temp_dir_name(&self) -> (r: String)
        ensures
            r@ == self.user@ + "_"@ + self.book@,
    {
        let mut r = concat(self.user.as_str(), "_");
        r.append(self.book.as_str());
        r
    }
}

pub open spec fn segment_fault_message(user: Seq<char>, book: Seq<char>) -> Seq<char> {
    "Invalid path segment: user='"@ + user + "', book='"@ + book + "'"@
}

/// What [`parse_from_parts`] makes of the parts of a parsed URL: the user
/// and book slugs (the first two path segments), or the message of the
/// `InvalidUrl` error.
pub open spec fn parse_parts_spec(c: Option<(Seq<char>, Option<Seq<char>>, Seq<char>)>) -> Result<
    (Seq<char>, Seq<char>),
    Seq<char>,
> {
    match parts_fault(c) {
        Some(m) => Err(m),
        None => {
            let segs = path_segments(c.unwrap().2);
            let user = segs[0];
            let book = segs[1];
            if !valid_segment(user) || !valid_segment(book) {
                Err(segment_fault_message(user, book))
            } else {
                Ok((user, book))
            }
        },
    }
}

/// What [`parse`] makes of a URL: the user and book slugs, or the message of
/// the `InvalidUrl` error.
pub open spec fn parse_spec(url: Seq<char>) -> Result<(Seq<char>, Seq<char>), Seq<char>> {
    if url.len() == 0 {
        Err("URL cannot be empty"@)
    } else {
        parse_parts_spec(url_components(https_normalized(url)))
    }
}

/// `r` is the outcome `spec` describes.
pub open spec fn parsed_as(spec: Result<(Seq<char>, Seq<char>), Seq<char>>, r: Result<ParsedUrl, AppError>) -> bool {
    match (r, spec) {
        (Ok(p), Ok((user, book))) => p.user@ == user && p.book@ == book && p.base_url@
            == base_url_of(user, book),
        (Err(e), Err(m)) => invalid_url_with(e, m),
        _ => false,
    }
}

/// `r` is what [`parse_spec`] says of `url`.
pub open spec fn parse_outcome(url: Seq<char>, r: Result<ParsedUrl, AppError>) -> bool {
    parsed_as(parse_spec(url), r)
}

/// Reads the user and book slugs from the parts of a parsed URL (`None`:
/// the text did not parse), after [`check_url_parts`]; each slug must match
/// [`SEGMENT_PATTERN`]. The base URL is
/// `https://online.anyflip.com/{user}/{book}`.
pub fn parse_from_parts(parts: &Option<UrlParts>) -> (r: Result<ParsedUrl, AppError>)
    ensures
        parsed_as(parse_parts_spec(parts_view(*parts)), r),
{
    check_url_parts(parts)?;
    let p = match parts {
        Some(p) => p,
        None => return Err(AppError::InvalidUrl("Failed to parse URL".to_owned())),
    };
    let segs = segments_of(&chars_of(p.path.as_str()));
    assert(seq_views(segs@)[0] == segs@[0]@);
    assert(seq_views(segs@)[1] == segs@[1]@);
    let user = string_of(&segs[0]);
    let book = string_of(&segs[1]);
    let user_ok = match regex_is_match(SEGMENT_PATTERN, user.as_str()) {
        Some(b) => b,
        None => false,
    };
    let book_ok = match regex_is_match(SEGMENT_PATTERN, book.as_str()) {
        Some(b) => b,
        None => false,
    };
    if !user_ok || !book_ok {
        let mut m = concat("Invalid path segment: user='", user.as_str());
        m.append("', book='");
        m.append(book.as_str());
        m.append("'");
        return Err(AppError::InvalidUrl(m));
    }
    let mut base_url = concat("https://online.anyflip.com/", user.as_str());
    base_url.append("/");
    base_url.append(book.as_str());
    Ok(ParsedUrl { user, book, base_url })
}

/// Parse an Anyflip URL and extract user and book.
///
/// Accepted: `https://anyflip.com/{user}/{book}`, `https://online.anyflip.com/...`
/// with or without a trailing slash (and everything [`validate_url`] accepts).
/// The base URL is normalized to `https://online.anyflip.com/{user}/{book}`.
/// Errors with `InvalidUrl` when validation fails or a slug holds characters
/// outside `[a-zA-Z0-9_-]`.
pub fn parse(url: &str) -> (r: Result<ParsedUrl, AppError>)
    ensures
        parse_outcome(url@, r),
{
    if url.is_empty() {
        return Err(invalid_url("URL cannot be empty"));
    }
    let normalized = string_of(&normalize_scheme(&chars_of(url)));
    let parts = parse_url_parts(normalized.as_str());
    parse_from_parts(&parts)
}

/// Validate and parse in one call; the same as [`parse`], which validates
/// first.
pub fn validate_and_parse(url: &str) -> (r: Result<ParsedUrl, AppError>)
    ensures
        parse_outcome(url@, r),
{
    parse(url)
}

/// A document keeps its temporary directory from one attempt to the next:
/// parsing the same URL twice gives the same base URL and the same
/// `{user}_{book}` directory name, so a retried download finds the pages it
/// cached.
pub proof fn law_same_url_same_temp_dir(url: Seq<char>, a: ParsedUrl, b: ParsedUrl)
    requires
        parse_outcome(url, Ok(a)),
        parse_outcome(url, Ok(b)),
    ensures
        a.user@ + "_"@ + a.book@ == b.user@ + "_"@ + b.book@,
        a.base_url@ == b.base_url@,
{
}

/// A URL is parsed only when it is valid, both slugs match
/// `^[a-zA-Z0-9_-]+$`, and the base URL is
/// `https://online.anyflip.com/{user}/{book}`; a URL that fails validation
/// is refused with the validation message.
pub proof fn law_parse_accepts_only_valid(url: Seq<char>, r: Result<ParsedUrl, AppError>)
    requires
        parse_outcome(url, r),
    ensures
        r is Ok ==> url_fault(url) is None && valid_segment(r->Ok_0.user@) && valid_segment(
            r->Ok_0.book@,
        ) && r->Ok_0.base_url@ == base_url_of(r->Ok_0.user@, r->Ok_0.book@),
        url_fault(url) is Some ==> (r matches Err(e) && invalid_url_with(e, url_fault(url).unwrap())),
{
}

/// The host does not change which document a URL names: with the same path,
/// `anyflip.com`, `online.anyflip.com` and their `www.` forms parse alike.
pub proof fn law_host_alias_same_document(h1: Seq<char>, h2: Seq<char>, path: Seq<char>)
    requires
        strip_www(h1) == "anyflip.com"@ || strip_www(h1) == "online.anyflip.com"@,
        strip_www(h2) == "anyflip.com"@ || strip_www(h2) == "online.anyflip.com"@,
    ensures
        parse_parts_spec(Some(("https"@, Some(h1), path))) == parse_parts_spec(
            Some(("https"@, Some(h2), path)),
        ),
{
}

} // verus!
