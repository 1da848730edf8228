//! Reading document metadata out of Anyflip's `config.js`.
//!
//! The config file is JavaScript that assigns one JSON object. The object
//! comes in two shapes: the old one carries title, page count and page
//! file names directly (under several alternative key names); the new one
//! (marked by a `bookConfig` member) carries them in `meta` and
//! `fliphtml5_pages`, and is first rewritten into the old shape.

use vstd::prelude::*;
use crate::error::{AppError, ErrorKind};
use crate::json::{
    JsonNumber, JsonValue, JsonView, json_view, json_views, lemma_json_views, lemma_member_views,
    member_views, json_of_text, parse_json_text,
};
use crate::text::{
    chars_of, concat, decimal, eq_chars, eq_str, push_decimal, seq_views, split, split_on, string_of,
};
use crate::url_parser::ParsedUrl;
use crate::document::{DocumentMetadata, string_views};
use crate::queue::opt_str_view;

verus! {

broadcast use vstd::string::group_string_axioms;

// ---------------------------------------------------------------------------
// Locating the JSON object
// ---------------------------------------------------------------------------

/// The first `{...}` block of a text, spanning lines.
pub const CONFIG_JSON_PATTERN: &'static str = "(?s)\\{.*\\}";

pub open spec fn has_char(t: Seq<char>, c: char) -> bool {
    exists|i: int| 0 <= i < t.len() && t[i] == c
}

/// Position of the first `c` in `t`.
pub open spec fn first_pos(t: Seq<char>, c: char) -> int {
    choose|i: int| 0 <= i < t.len() && t[i] == c && forall|j: int| 0 <= j < i ==> t[j] != c
}

/// Position of the last `c` in `t`.
pub open spec fn last_pos(t: Seq<char>, c: char) -> int {
    choose|i: int| 0 <= i < t.len() && t[i] == c && forall|j: int| i < j < t.len() ==> t[j] != c
}

/// The text from the first `{` to the last `}` (when that `}` comes after
/// that `{`): what the leftmost-first, greedy match of
/// [`CONFIG_JSON_PATTERN`] selects.
pub open spec fn brace_span(t: Seq<char>) -> Option<Seq<char>> {
    if has_char(t, '{') && has_char(t, '}') && first_pos(t, '{') < last_pos(t, '}') {
        Some(t.subrange(first_pos(t, '{'), last_pos(t, '}') + 1))
    } else {
        None
    }
}

pub open spec fn opt_opt_view(o: Option<Option<String>>) -> Option<Option<Seq<char>>> {
    match o {
        None => None,
        Some(None) => Some(None),
        Some(Some(s)) => Some(Some(s@)),
    }
}

/// What `regex::Regex::new(pattern)` followed by `find(text)` gives (the
/// matched text): `None` when the pattern does not compile.
pub uninterp spec fn regex_find_result(pattern: Seq<char>, text: Seq<char>) -> Option<Option<Seq<char>>>;

/// Compiles `pattern` with `regex::Regex::new` and returns the text of
/// `Regex::find(text)`. Claimed: the outcome is a fixed function of the two
/// texts, and for [`CONFIG_JSON_PATTERN`] (dot matches newlines, greedy,
/// leftmost-first) it is the span from the first `{` to the last `}`.
#[verifier::external_body]
pub(crate) fn regex_find(pattern: &str, text: &str) -> (res: Option<Option<String>>)
    ensures
        opt_opt_view(res) == regex_find_result(pattern@, text@),
        pattern@ == CONFIG_JSON_PATTERN@ ==> opt_opt_view(res) == Some(brace_span(text@)),
{
    match regex::Regex::new(pattern) {
        Ok(re) => match re.find(text) {
            Some(m) => Some(Some(m.as_str().to_string())),
            None => Some(None),
        },
        Err(_) => None,
    }
}

/// The JSON object text embedded in a config.js body.
///
/// Errors with `MetadataError` when the body holds no `{...}` block.
pub fn extract_json_object(raw_js: &str) -> (r: Result<String, AppError>)
    ensures
        match brace_span(raw_js@) {
            Some(s) => r matches Ok(t) && t@ == s,
            None => r matches Err(e) && e.is(
                ErrorKind::MetadataError,
                "No JSON object found in config.js"@,
            ),
        },
{
    match regex_find(CONFIG_JSON_PATTERN, raw_js) {
        Some(Some(m)) => Ok(m),
        _ => Err(AppError::metadata("No JSON object found in config.js")),
    }
}

// ---------------------------------------------------------------------------
// File names
// ---------------------------------------------------------------------------

/// A path piece that names something (not empty, not `.`).
pub open spec fn is_named_piece(p: Seq<char>) -> bool {
    p.len() > 0 && p != "."@
}

/// The last naming piece of a `/`-separated path.
pub open spec fn last_named_piece(pieces: Seq<Seq<char>>) -> Option<Seq<char>>
    decreases pieces.len(),
{
    if pieces.len() == 0 {
        None
    } else if is_named_piece(pieces.last()) {
        Some(pieces.last())
    } else {
        last_named_piece(pieces.drop_last())
    }
}

/// `Path::file_name` for `/`-separated paths: the final component, unless
/// there is none or it is `..`.
pub open spec fn file_name_of(path: Seq<char>) -> Option<Seq<char>> {
    match last_named_piece(split_on(path, '/')) {
        Some(p) => if p == ".."@ {
            None
        } else {
            Some(p)
        },
        None => None,
    }
}

/// The bare file name of a path, or the path itself when it has none.
pub open spec fn basename(path: Seq<char>) -> Seq<char> {
    match file_name_of(path) {
        Some(n) => n,
        None => path,
    }
}

/// The bare filename (e.g. `abc123.webp`) of a path that may carry a
/// directory prefix (e.g. `../files/mobile/abc123.webp`). A path without a
/// final name (empty, `.`, `/`, or ending in `..`) comes back unchanged.
pub fn basename_from_path(path: &str) -> (r: String)
    ensures
        r@ == basename(path@),
{
    let pieces = split(&chars_of(path), '/');
    let ghost all = seq_views(pieces@);
    let mut k: usize = pieces.len();
    assert(all.take(pieces@.len() as int) =~= all);
    while k > 0 && !(pieces[k - 1].len() > 0 && !eq_str(&pieces[k - 1], "."))
        invariant
            k <= pieces@.len(),
            all == seq_views(pieces@),
            last_named_piece(all) == last_named_piece(all.take(k as int)),
        decreases k,
    {
        assert(all.take(k as int).last() == pieces@[k - 1]@);
        assert(all.take(k as int).drop_last() =~= all.take(k - 1));
        k = k - 1;
    }
    if k == 0 {
        assert(all.take(0) =~= Seq::<Seq<char>>::empty());
        return path.to_owned();
    }
    assert(all.take(k as int).last() == pieces@[k - 1]@);
    if eq_str(&pieces[k - 1], "..") {
        return path.to_owned();
    }
    string_of(&pieces[k - 1])
}

// ---------------------------------------------------------------------------
// The new config shape
// ---------------------------------------------------------------------------

/// A non-empty `meta.title`.
pub open spec fn meta_title(v: JsonView) -> Option<Seq<char>> {
    match v.get("meta"@) {
        Some(m) => if m.members() is Some {
            match m.get("title"@) {
                Some(t) => match t.as_str() {
                    Some(s) => if s.len() > 0 {
                        Some(s)
                    } else {
                        None
                    },
                    None => None,
                },
                None => None,
            }
        } else {
            None
        },
        None => None,
    }
}

/// A positive integer `meta.pageCount`.
pub open spec fn meta_page_count(v: JsonView) -> Option<u64> {
    match v.get("meta"@) {
        Some(m) => if m.members() is Some {
            match m.get("pageCount"@) {
                Some(c) => match c.as_u64() {
                    Some(n) => if n > 0 {
                        Some(n)
                    } else {
                        None
                    },
                    None => None,
                },
                None => None,
            }
        } else {
            None
        },
        None => None,
    }
}

/// The bare name of the first entry of a page's `n` array.
pub open spec fn page_entry_name(p: JsonView) -> Option<Seq<char>> {
    match p.get("n"@) {
        Some(n) => match n.items() {
            Some(a) => if a.len() > 0 {
                match a[0].as_str() {
                    Some(s) => Some(basename(s)),
                    None => None,
                }
            } else {
                None
            },
            None => None,
        },
        None => None,
    }
}

/// The names of the pages that have one, in order.
pub open spec fn page_names(ps: Seq<JsonView>) -> Seq<Seq<char>>
    decreases ps.len(),
{
    if ps.len() == 0 {
        seq![]
    } else {
        page_names(ps.drop_last()) + match page_entry_name(ps.last()) {
            Some(n) => seq![n],
            None => seq![],
        }
    }
}

/// The page file names listed under `fliphtml5_pages`.
pub open spec fn flip_page_names(v: JsonView) -> Seq<Seq<char>> {
    match v.get("fliphtml5_pages"@) {
        Some(p) => match p.items() {
            Some(ps) => page_names(ps),
            None => seq![],
        },
        None => seq![],
    }
}

pub open spec fn str_views(names: Seq<Seq<char>>) -> Seq<JsonView> {
    names.map_values(|s: Seq<char>| JsonView::Str(s))
}

/// The members of the old-shape object built from a new-shape config.
pub open spec fn new_format_members(v: JsonView) -> Seq<(Seq<char>, JsonView)> {
    (match meta_title(v) {
        Some(t) => seq![("title"@, JsonView::Str(t))],
        None => seq![],
    }) + (match meta_page_count(v) {
        Some(n) => seq![("numPages"@, JsonView::Number(JsonNumber::PosInt(n)))],
        None => seq![],
    }) + (if flip_page_names(v).len() > 0 {
        seq![("pageFileNames"@, JsonView::Array(str_views(flip_page_names(v))))]
    } else {
        seq![]
    })
}

/// `r` is what rewriting the new-shape config `v` gives.
pub open spec fn new_format_outcome(v: JsonView, r: Result<JsonValue, AppError>) -> bool {
    if new_format_members(v).len() == 0 {
        r matches Err(e) && e.is(
            ErrorKind::MetadataError,
            "New-format config.js missing both meta and fliphtml5_pages"@,
        )
    } else {
        r matches Ok(x) && x@ == JsonView::Object(new_format_members(v))
    }
}

/// The text of a string value, cloned.
fn string_value(v: &JsonValue) -> (r: Option<String>)
    ensures
        match r {
            Some(s) => v@.as_str() == Some(s@),
            None => v@.as_str() is None,
        },
{
    match v.as_str() {
        Some(s) => Some(s.to_owned()),
        None => None,
    }
}

/// The bare name of the first entry of a page's `n` array.
fn page_entry_name_exec(p: &JsonValue) -> (r: Option<String>)
    ensures
        match r {
            Some(s) => page_entry_name(p@) == Some(s@),
            None => page_entry_name(p@) is None,
        },
{
    let n = match p.get("n") {
        Some(n) => n,
        None => return None,
    };
    let a = match n.as_array() {
        Some(a) => a,
        None => return None,
    };
    proof {
        lemma_json_views(a@);
    }
    if a.len() == 0 {
        return None;
    }
    match a[0].as_str() {
        Some(s) => Some(basename_from_path(s)),
        None => None,
    }
}

/// Rewrites a new-shape config (`meta` + `fliphtml5_pages`) into an
/// old-shape object: `title` from a non-empty `meta.title`, `numPages`
/// from a positive `meta.pageCount`, `pageFileNames` from the bare names of
/// the first `n` entry of each page (when there are any).
///
/// Errors with `MetadataError` when none of the three is present.
pub fn extract_metadata_from_new_format(value: &JsonValue) -> (r: Result<JsonValue, AppError>)
    ensures
        new_format_outcome(value@, r),
{
    let mut members: Vec<(String, JsonValue)> = Vec::new();
    let ghost mut expected: Seq<(Seq<char>, JsonView)> = seq![];
    let meta = value.get("meta");
    let mut title: Option<String> = None;
    let mut count: Option<u64> = None;
    match meta {
        Some(m) => {
            if m.is_object() {
                match m.get("title") {
                    Some(t) => match string_value(t) {
                        Some(s) => {
                            if !s.as_str().is_empty() {
                                title = Some(s);
                            }
                        },
                        None => {},
                    },
                    None => {},
                }
                match m.get("pageCount") {
                    Some(c) => match c.as_u64() {
                        Some(n) => {
                            if n > 0 {
                                count = Some(n);
                            }
                        },
                        None => {},
                    },
                    None => {},
                }
            }
        },
        None => {},
    }
    assert(match title { Some(s) => meta_title(value@) == Some(s@), None => meta_title(value@) is None });
    assert(count == meta_page_count(value@));
    match title {
        Some(t) => {
            members.push(("title".to_owned(), JsonValue::String(t)));
        },
        None => {},
    }
    match count {
        Some(n) => {
            members.push(("numPages".to_owned(), JsonValue::Number(JsonNumber::PosInt(n))));
        },
        None => {},
    }
    let mut names: Vec<JsonValue> = Vec::new();
    match value.get("fliphtml5_pages") {
        Some(p) => match p.as_array() {
            Some(ps) => {
                proof {
                    lemma_json_views(ps@);
                }
                let ghost pv = json_views(ps@);
                let mut i: usize = 0;
                while i < ps.len()
                    invariant
                        i <= ps@.len(),
                        pv == json_views(ps@),
                        pv.len() == ps@.len(),
                        forall|k: int| 0 <= k < ps@.len() ==> #[trigger] pv[k] == json_view(ps@[k]),
                        json_views(names@) == str_views(page_names(pv.take(i as int))),
                    decreases ps@.len() - i,
                {
                    assert(pv.take(i + 1).drop_last() =~= pv.take(i as int));
                    assert(pv.take(i + 1).last() == ps@[i as int]@);
                    let ghost before = names@;
                    match page_entry_name_exec(&ps[i]) {
                        Some(n) => {
                            names.push(JsonValue::String(n));
                            proof {
                                lemma_json_views(before);
                                lemma_json_views(names@);
                            }
                            assert(page_names(pv.take(i + 1)) == page_names(pv.take(i as int))
                                + seq![n@]);
                            assert(str_views(page_names(pv.take(i + 1))) =~= str_views(
                                page_names(pv.take(i as int)),
                            ).push(JsonView::Str(n@)));
                            assert(json_views(names@) =~= json_views(before).push(
                                JsonView::Str(n@),
                            ));
                            assert(json_views(names@) =~= str_views(page_names(pv.take(i + 1))));
                        },
                        None => {
                            assert(page_names(pv.take(i + 1)) =~= page_names(pv.take(i as int)));
                        },
                    }
                    i = i + 1;
                }
                assert(pv.take(ps@.len() as int) =~= pv);
            },
            None => {},
        },
        None => {},
    }
    proof {
        lemma_json_views(names@);
    }
    assert(json_views(names@) == str_views(flip_page_names(value@)));
    if names.len() > 0 {
        members.push(("pageFileNames".to_owned(), JsonValue::Array(names)));
    }
    proof {
        lemma_member_views(members@);
    }
    assert(member_views(members@) =~= new_format_members(value@));
    if members.len() == 0 {
        return Err(
            AppError::metadata("New-format config.js missing both meta and fliphtml5_pages"),
        );
    }
    Ok(JsonValue::Object(members))
}

/// The config object from the result of parsing the extracted JSON text:
/// a parse failure (its message given) is an unparseable config, a parsed
/// value is read by [`interpret_config`].
pub fn config_from_parsed(parsed: Result<JsonValue, String>) -> (r: Result<JsonValue, AppError>)
    ensures
        match parsed {
            Err(m) => r matches Err(e) && e.is(
                ErrorKind::MetadataError,
                "Unparseable config.js JSON: "@ + m@,
            ),
            Ok(value) => if value@.get("bookConfig"@) is None {
                r matches Ok(v) && v@ == value@
            } else {
                new_format_outcome(value@, r)
            },
        },
{
    match parsed {
        Err(m) => Err(AppError::MetadataError(concat("Unparseable config.js JSON: ", m.as_str()))),
        Ok(value) => interpret_config(value),
    }
}

/// The embedded config object of a config.js body, in the old shape: the
/// text from the first `{` to the last `}` is parsed as JSON, and a
/// new-shape config is rewritten (see [`config_from_parsed`]).
///
/// Errors with `MetadataError` when the body holds no `{...}` block, when
/// that text is not valid JSON, or when a new-shape config lacks both its
/// `meta` object and `fliphtml5_pages`.
pub fn parse_config_js(raw_js: &str) -> (r: Result<JsonValue, AppError>)
    ensures
        match brace_span(raw_js@) {
            None => r matches Err(e) && e.is(
                ErrorKind::MetadataError,
                "No JSON object found in config.js"@,
            ),
            Some(t) => match json_of_text(t) {
                Err(m) => r matches Err(e) && e.is(
                    ErrorKind::MetadataError,
                    "Unparseable config.js JSON: "@ + m,
                ),
                Ok(v) => if v.get("bookConfig"@) is None {
                    r matches Ok(x) && x@ == v
                } else {
                    new_format_outcome(v, r)
                },
            },
        },
{
    let text = extract_json_object(raw_js)?;
    config_from_parsed(parse_json_text(text.as_str()))
}

/// The config object in old shape: a new-shape config (one with a
/// `bookConfig` member) is rewritten, any other value is kept.
pub fn interpret_config(value: JsonValue) -> (r: Result<JsonValue, AppError>)
    ensures
        if value@.get("bookConfig"@) is None {
            r matches Ok(v) && v@ == value@
        } else {
            new_format_outcome(value@, r)
        },
{
    if value.get("bookConfig").is_some() {
        return extract_metadata_from_new_format(&value);
    }
    Ok(value)
}


// ---------------------------------------------------------------------------
// Decoding the old shape
// ---------------------------------------------------------------------------

/// The fields read from the config object; the outer `Option` tells whether
/// a member for the field was present, the inner one whether it was null.
pub ghost struct RawFields {
    pub title: Option<Option<Seq<char>>>,
    pub page_count: Option<Option<usize>>,
    pub page_filenames: Option<Option<Seq<Seq<char>>>>,
    pub date: Option<Option<Seq<char>>>,
}

pub open spec fn no_fields() -> RawFields {
    RawFields { title: None, page_count: None, page_filenames: None, date: None }
}

/// Member names read as the title.
pub open spec fn is_title_key(k: Seq<char>) -> bool {
    k == "title"@ || k == "docTitle"@
}

/// Member names read as the page count.
pub open spec fn is_count_key(k: Seq<char>) -> bool {
    k == "page_count"@ || k == "pageCount"@ || k == "totalPages"@ || k == "numPages"@
}

/// Member names read as the page file names.
pub open spec fn is_names_key(k: Seq<char>) -> bool {
    k == "page_filenames"@ || k == "pageFileNames"@ || k == "pages"@
}

/// Member names read as the date.
pub open spec fn is_date_key(k: Seq<char>) -> bool {
    k == "date"@ || k == "createDate"@ || k == "bookCreateDate"@ || k == "publishDate"@
}

/// What `format!("{:?}", s)` gives for a text: the text quoted, with the
/// escapes of `str`'s `Debug`.
pub uninterp spec fn debug_str(s: Seq<char>) -> Seq<char>;

/// The text in quotes, as `str`'s `Debug` writes it (`format!("{:?}", s)`).
/// Claimed: the outcome is the fixed function `debug_str` of the text.
#[verifier::external_body]
fn debug_text(s: &str) -> (r: String)
    ensures
        r@ == debug_str(s@),
{
    format!("{:?}", s)
}

/// An integer in decimal, with a `-` when negative.
pub open spec fn signed_decimal(i: int) -> Seq<char> {
    if i < 0 {
        "-"@ + decimal((-i) as nat)
    } else {
        decimal(i as nat)
    }
}

/// How `serde_json` describes a value that is not what was expected.
pub open spec fn unexpected(v: JsonView) -> Seq<char> {
    match v {
        JsonView::Null => "null"@,
        JsonView::Bool(b) => if b {
            "boolean `true`"@
        } else {
            "boolean `false`"@
        },
        JsonView::Number(JsonNumber::PosInt(n)) => "integer `"@ + decimal(n as nat) + "`"@,
        JsonView::Number(JsonNumber::NegInt(i)) => "integer `"@ + signed_decimal(i as int) + "`"@,
        JsonView::Float(d) => "floating point `"@ + d + "`"@,
        JsonView::Str(s) => "string "@ + debug_str(s),
        JsonView::Array(_) => "sequence"@,
        JsonView::Object(_) => "map"@,
    }
}

/// `serde`'s message for a value of the wrong type.
pub open spec fn invalid_type(v: JsonView, expected: Seq<char>) -> Seq<char> {
    "invalid type: "@ + unexpected(v) + ", expected "@ + expected
}

/// `serde`'s message for a value of the right type out of range.
pub open spec fn invalid_value(v: JsonView, expected: Seq<char>) -> Seq<char> {
    "invalid value: "@ + unexpected(v) + ", expected "@ + expected
}

/// An optional string: null, or a string.
pub open spec fn decode_opt_str(v: JsonView) -> Result<Option<Seq<char>>, Seq<char>> {
    match v {
        JsonView::Null => Ok(None),
        JsonView::Str(s) => Ok(Some(s)),
        _ => Err(invalid_type(v, "a string"@)),
    }
}

/// An optional count: null, or an integer that fits `usize`.
pub open spec fn decode_opt_count(v: JsonView) -> Result<Option<usize>, Seq<char>> {
    match v {
        JsonView::Null => Ok(None),
        JsonView::Number(JsonNumber::PosInt(n)) => if n <= usize::MAX {
            Ok(Some(n as usize))
        } else {
            Err(invalid_value(v, "usize"@))
        },
        JsonView::Number(JsonNumber::NegInt(i)) => if 0 <= i && i <= usize::MAX {
            Ok(Some(i as usize))
        } else {
            Err(invalid_value(v, "usize"@))
        },
        _ => Err(invalid_type(v, "usize"@)),
    }
}

/// A list of strings, read from the first element on; the first element
/// that is not a string fails it.
pub open spec fn decode_names(items: Seq<JsonView>) -> Result<Seq<Seq<char>>, Seq<char>>
    decreases items.len(),
{
    if items.len() == 0 {
        Ok(seq![])
    } else {
        match items[0] {
            JsonView::Str(s) => match decode_names(items.drop_first()) {
                Ok(t) => Ok(seq![s] + t),
                Err(e) => Err(e),
            },
            _ => Err(invalid_type(items[0], "a string"@)),
        }
    }
}

/// An optional list of strings: null, or an array of strings.
pub open spec fn decode_opt_names(v: JsonView) -> Result<Option<Seq<Seq<char>>>, Seq<char>> {
    match v {
        JsonView::Null => Ok(None),
        JsonView::Array(items) => match decode_names(items) {
            Ok(t) => Ok(Some(t)),
            Err(e) => Err(e),
        },
        _ => Err(invalid_type(v, "a sequence"@)),
    }
}

/// Reading one member into the fields.
pub open spec fn decode_step(acc: RawFields, k: Seq<char>, v: JsonView) -> Result<RawFields, Seq<char>> {
    if is_title_key(k) {
        if acc.title is Some {
            Err("duplicate field `title`"@)
        } else {
            match decode_opt_str(v) {
                Ok(x) => Ok(RawFields { title: Some(x), ..acc }),
                Err(e) => Err(e),
            }
        }
    } else if is_count_key(k) {
        if acc.page_count is Some {
            Err("duplicate field `page_count`"@)
        } else {
            match decode_opt_count(v) {
                Ok(x) => Ok(RawFields { page_count: Some(x), ..acc }),
                Err(e) => Err(e),
            }
        }
    } else if is_names_key(k) {
        if acc.page_filenames is Some {
            Err("duplicate field `page_filenames`"@)
        } else {
            match decode_opt_names(v) {
                Ok(x) => Ok(RawFields { page_filenames: Some(x), ..acc }),
                Err(e) => Err(e),
            }
        }
    } else if is_date_key(k) {
        if acc.date is Some {
            Err("duplicate field `date`"@)
        } else {
            match decode_opt_str(v) {
                Ok(x) => Ok(RawFields { date: Some(x), ..acc }),
                Err(e) => Err(e),
            }
        }
    } else {
        Ok(acc)
    }
}

/// Reading all members in the order they are held; the first problem wins.
pub open spec fn decode_members(m: Seq<(Seq<char>, JsonView)>) -> Result<RawFields, Seq<char>>
    decreases m.len(),
{
    if m.len() == 0 {
        Ok(no_fields())
    } else {
        match decode_members(m.drop_last()) {
            Err(e) => Err(e),
            Ok(acc) => decode_step(acc, m.last().0, m.last().1),
        }
    }
}

/// `serde`'s message for an array with `n` elements, too few for the four
/// fields.
pub open spec fn too_short(n: nat) -> Seq<char> {
    "invalid length "@ + decimal(n) + ", expected struct RawConfig with 4 elements"@
}

/// `serde`'s message for an array with `n` elements, more than four.
pub open spec fn too_long(n: nat) -> Seq<char> {
    "invalid length "@ + decimal(n) + ", expected fewer elements in array"@
}

/// Reading the fields from an array: the title, the count, the names and
/// the date, element by element; an array that ends early, or that has more
/// than four elements, fails.
pub open spec fn decode_elements(items: Seq<JsonView>) -> Result<RawFields, Seq<char>> {
    let n = items.len();
    if n < 1 {
        Err(too_short(0))
    } else {
        match decode_opt_str(items[0]) {
            Err(e) => Err(e),
            Ok(t) => if n < 2 {
                Err(too_short(1))
            } else {
                match decode_opt_count(items[1]) {
                    Err(e) => Err(e),
                    Ok(c) => if n < 3 {
                        Err(too_short(2))
                    } else {
                        match decode_opt_names(items[2]) {
                            Err(e) => Err(e),
                            Ok(p) => if n < 4 {
                                Err(too_short(3))
                            } else {
                                match decode_opt_str(items[3]) {
                                    Err(e) => Err(e),
                                    Ok(d) => if n > 4 {
                                        Err(too_long(n))
                                    } else {
                                        Ok(
                                            RawFields {
                                                title: Some(t),
                                                page_count: Some(c),
                                                page_filenames: Some(p),
                                                date: Some(d),
                                            },
                                        )
                                    },
                                }
                            },
                        }
                    },
                }
            },
        }
    }
}

/// Reading the config value: an object by member names, an array by
/// position; any other value fails.
pub open spec fn decode_raw(v: JsonView) -> Result<RawFields, Seq<char>> {
    match v {
        JsonView::Object(m) => decode_members(m),
        JsonView::Array(items) => decode_elements(items),
        _ => Err(invalid_type(v, "struct RawConfig"@)),
    }
}

pub open spec fn flatten<T>(o: Option<Option<T>>) -> Option<T> {
    match o {
        Some(Some(x)) => Some(x),
        _ => None,
    }
}

/// Writes `i` in decimal, with a `-` when negative.
fn push_signed(s: &mut String, i: i64)
    ensures
        final(s)@ == old(s)@ + signed_decimal(i as int),
{
    if i < 0 {
        let ghost before = s@;
        s.append("-");
        let m: u64 = if i == i64::MIN {
            9223372036854775808u64
        } else {
            (-i) as u64
        };
        push_decimal(s, m);
        assert(s@ =~= before + signed_decimal(i as int));
    } else {
        push_decimal(s, i as u64);
    }
}

/// How `serde` describes the value (see [`unexpected`]).
fn unexpected_text(v: &JsonValue) -> (r: String)
    ensures
        r@ == unexpected(v@),
{
    match v {
        JsonValue::Null => "null".to_owned(),
        JsonValue::Bool(b) => if *b {
            "boolean `true`".to_owned()
        } else {
            "boolean `false`".to_owned()
        },
        JsonValue::Number(JsonNumber::PosInt(n)) => {
            let mut r = "integer `".to_owned();
            push_decimal(&mut r, *n);
            r.append("`");
            r
        },
        JsonValue::Number(JsonNumber::NegInt(i)) => {
            let mut r = "integer `".to_owned();
            push_signed(&mut r, *i);
            r.append("`");
            r
        },
        JsonValue::Float(d) => {
            let mut r = concat("floating point `", d.as_str());
            r.append("`");
            r
        },
        JsonValue::String(s) => concat("string ", debug_text(s.as_str()).as_str()),
        JsonValue::Array(_) => "sequence".to_owned(),
        JsonValue::Object(_) => "map".to_owned(),
    }
}

/// `serde`'s message for a value of the wrong type.
fn invalid_type_text(v: &JsonValue, expected: &str) -> (r: String)
    ensures
        r@ == invalid_type(v@, expected@),
{
    let mut r = concat("invalid type: ", unexpected_text(v).as_str());
    r.append(", expected ");
    r.append(expected);
    r
}

/// `serde`'s message for a value out of range.
fn invalid_value_text(v: &JsonValue, expected: &str) -> (r: String)
    ensures
        r@ == invalid_value(v@, expected@),
{
    let mut r = concat("invalid value: ", unexpected_text(v).as_str());
    r.append(", expected ");
    r.append(expected);
    r
}

pub open spec fn str_result_view(r: Result<Option<String>, String>) -> Result<Option<Seq<char>>, Seq<char>> {
    match r {
        Ok(None) => Ok(None),
        Ok(Some(s)) => Ok(Some(s@)),
        Err(m) => Err(m@),
    }
}

pub open spec fn count_result_view(r: Result<Option<usize>, String>) -> Result<Option<usize>, Seq<char>> {
    match r {
        Ok(x) => Ok(x),
        Err(m) => Err(m@),
    }
}

pub open spec fn names_result_view(r: Result<Option<Vec<String>>, String>) -> Result<Option<Seq<Seq<char>>>, Seq<char>> {
    match r {
        Ok(None) => Ok(None),
        Ok(Some(v)) => Ok(Some(crate::document::string_views(v@))),
        Err(m) => Err(m@),
    }
}

fn decode_opt_str_exec(v: &JsonValue) -> (r: Result<Option<String>, String>)
    ensures
        str_result_view(r) == decode_opt_str(v@),
{
    proof {
        reveal_strlit("a string");
    }
    match v {
        JsonValue::Null => Ok(None),
        JsonValue::String(s) => Ok(Some(s.clone())),
        _ => Err(invalid_type_text(v, "a string")),
    }
}

fn decode_opt_count_exec(v: &JsonValue) -> (r: Result<Option<usize>, String>)
    ensures
        count_result_view(r) == decode_opt_count(v@),
{
    match v {
        JsonValue::Null => Ok(None),
        JsonValue::Number(JsonNumber::PosInt(n)) => {
            if *n <= usize::MAX as u64 {
                Ok(Some(*n as usize))
            } else {
                Err(invalid_value_text(v, "usize"))
            }
        },
        JsonValue::Number(JsonNumber::NegInt(i)) => {
            if 0 <= *i && (*i as u64) <= usize::MAX as u64 {
                Ok(Some(*i as usize))
            } else {
                Err(invalid_value_text(v, "usize"))
            }
        },
        _ => Err(invalid_type_text(v, "usize")),
    }
}

fn decode_opt_names_exec(v: &JsonValue) -> (r: Result<Option<Vec<String>>, String>)
    ensures
        names_result_view(r) == decode_opt_names(v@),
{
    match v {
        JsonValue::Null => Ok(None),
        JsonValue::Array(items) => {
            proof {
                lemma_json_views(items@);
            }
            let ghost iv = json_views(items@);
            let mut out: Vec<String> = Vec::new();
            let mut i: usize = 0;
            assert(iv.skip(0) =~= iv);
            while i < items.len()
                invariant
                    i <= items@.len(),
                    iv == json_views(items@),
                    iv.len() == items@.len(),
                    v@ == JsonView::Array(iv),
                    forall|k: int| 0 <= k < items@.len() ==> #[trigger] iv[k] == json_view(items@[k]),
                    decode_names(iv) == match decode_names(iv.skip(i as int)) {
                        Ok(t) => Ok(crate::document::string_views(out@) + t),
                        Err(e) => Err::<Seq<Seq<char>>, Seq<char>>(e),
                    },
                decreases items@.len() - i,
            {
                let ghost rest = iv.skip(i as int);
                assert(rest[0] == iv[i as int]);
                assert(rest.drop_first() =~= iv.skip(i + 1));
                match &items[i] {
                    JsonValue::String(s) => {
                        let ghost before = out@;
                        assert(iv[i as int] == JsonView::Str(s@));
                        out.push(s.clone());
                        assert(crate::document::string_views(out@) =~= crate::document::string_views(before).push(s@));
                        assert forall|t: Seq<Seq<char>>| crate::document::string_views(before) + (seq![s@] + t)
                            =~= crate::document::string_views(out@) + t by {}
                    },
                    _ => {
                        assert(iv[i as int] == json_view(items@[i as int]));
                        proof {
                            reveal_strlit("a string");
                        }
                        return Err(invalid_type_text(&items[i], "a string"));
                    },
                }
                i = i + 1;
            }
            assert(iv.skip(i as int) =~= Seq::<JsonView>::empty());
            assert(crate::document::string_views(out@) + seq![] =~= crate::document::string_views(out@));
            Ok(Some(out))
        },
        _ => {
            proof {
                reveal_strlit("a sequence");
            }
            Err(invalid_type_text(v, "a sequence"))
        },
    }
}

proof fn lemma_decode_error_persists(m: Seq<(Seq<char>, JsonView)>, k: int, e: Seq<char>)
    requires
        0 <= k <= m.len(),
        decode_members(m.take(k)) == Err::<RawFields, Seq<char>>(e),
    ensures
        decode_members(m) == Err::<RawFields, Seq<char>>(e),
    decreases m.len() - k,
{
    if k == m.len() {
        assert(m.take(k) =~= m);
    } else {
        assert(m.take(k + 1).drop_last() =~= m.take(k));
        lemma_decode_error_persists(m, k + 1, e);
    }
}

/// Which field a member name belongs to (0 title, 1 count, 2 names, 3 date,
/// 4 none).
fn field_of(k: &str) -> (f: u8)
    ensures
        f == 0 <==> is_title_key(k@),
        f == 1 <==> !is_title_key(k@) && is_count_key(k@),
        f == 2 <==> !is_title_key(k@) && !is_count_key(k@) && is_names_key(k@),
        f == 3 <==> !is_title_key(k@) && !is_count_key(k@) && !is_names_key(k@) && is_date_key(k@),
        f == 4 <==> !is_title_key(k@) && !is_count_key(k@) && !is_names_key(k@) && !is_date_key(k@),
        f == key_field(k@),
{
    let c = chars_of(k);
    if eq_str(&c, "title") || eq_str(&c, "docTitle") {
        0
    } else if eq_str(&c, "page_count") || eq_str(&c, "pageCount") || eq_str(&c, "totalPages")
        || eq_str(&c, "numPages") {
        1
    } else if eq_str(&c, "page_filenames") || eq_str(&c, "pageFileNames") || eq_str(&c, "pages") {
        2
    } else if eq_str(&c, "date") || eq_str(&c, "createDate") || eq_str(&c, "bookCreateDate")
        || eq_str(&c, "publishDate") {
        3
    } else {
        4
    }
}

/// The fields read so far, as a [`RawFields`].
pub open spec fn fields_view(
    title: Option<Option<String>>,
    count: Option<Option<usize>>,
    names: Option<Option<Vec<String>>>,
    date: Option<Option<String>>,
) -> RawFields {
    RawFields {
        title: opt_opt_view(title),
        page_count: count,
        page_filenames: opt_strings_view(names),
        date: opt_opt_view(date),
    }
}

/// The fields as read from a config object.
pub struct RawConfig {
    pub title: Option<String>,
    pub page_count: Option<usize>,
    pub page_filenames: Option<Vec<String>>,
    pub date: Option<String>,
}

fn flatten_str(o: Option<Option<String>>) -> (r: Option<String>)
    ensures
        crate::queue::opt_str_view(r) == flatten(opt_opt_view(o)),
{
    match o {
        Some(Some(s)) => Some(s),
        _ => None,
    }
}

/// Reads the fields from the elements of an array config.
fn decode_elements_exec(config: &JsonValue, items: &Vec<JsonValue>) -> (r: Result<RawConfig, String>)
    requires
        *config == JsonValue::Array(*items),
    ensures
        match (r, decode_raw(config@)) {
            (Ok(raw), Ok(f)) => {
                &&& crate::queue::opt_str_view(raw.title) == flatten(f.title)
                &&& raw.page_count == flatten(f.page_count)
                &&& opt_strings_view(Some(raw.page_filenames)) == Some(flatten(f.page_filenames))
                &&& crate::queue::opt_str_view(raw.date) == flatten(f.date)
            },
            (Err(m), Err(n)) => m@ == n,
            _ => false,
        },
{
    proof {
        lemma_json_views(items@);
    }
    let ghost iv = json_views(items@);
    assert(config@ == JsonView::Array(iv));
    let n = items.len();
    if n < 1 {
        return Err(too_short_text(0));
    }
    let title = match decode_opt_str_exec(&items[0]) {
        Ok(x) => x,
        Err(m) => return Err(m),
    };
    if n < 2 {
        return Err(too_short_text(1));
    }
    let count = match decode_opt_count_exec(&items[1]) {
        Ok(x) => x,
        Err(m) => return Err(m),
    };
    if n < 3 {
        return Err(too_short_text(2));
    }
    let names = match decode_opt_names_exec(&items[2]) {
        Ok(x) => x,
        Err(m) => return Err(m),
    };
    if n < 4 {
        return Err(too_short_text(3));
    }
    let date = match decode_opt_str_exec(&items[3]) {
        Ok(x) => x,
        Err(m) => return Err(m),
    };
    if n > 4 {
        let mut m = "invalid length ".to_owned();
        push_decimal(&mut m, n as u64);
        m.append(", expected fewer elements in array");
        return Err(m);
    }
    Ok(RawConfig { title, page_count: count, page_filenames: names, date })
}

/// `serde`'s message for an array of `n` elements, too few for the fields.
fn too_short_text(n: u64) -> (r: String)
    ensures
        r@ == too_short(n as nat),
{
    let mut m = "invalid length ".to_owned();
    push_decimal(&mut m, n);
    m.append(", expected struct RawConfig with 4 elements");
    m
}

pub open spec fn opt_strings_view(o: Option<Option<Vec<String>>>) -> Option<Option<Seq<Seq<char>>>> {
    match o {
        None => None,
        Some(None) => Some(None),
        Some(Some(v)) => Some(Some(crate::document::string_views(v@))),
    }
}

/// Reads the fields of a config value.
///
/// In an object each field is accepted under several member names; a second
/// member for the same field, or a member of the wrong type, is an error, and
/// unknown members are ignored. An array gives the four fields by position.
pub fn decode_config(config: &JsonValue) -> (r: Result<RawConfig, String>)
    ensures
        match (r, decode_raw(config@)) {
            (Ok(raw), Ok(f)) => {
                &&& crate::queue::opt_str_view(raw.title) == flatten(f.title)
                &&& raw.page_count == flatten(f.page_count)
                &&& opt_strings_view(Some(raw.page_filenames)) == Some(flatten(f.page_filenames))
                &&& crate::queue::opt_str_view(raw.date) == flatten(f.date)
            },
            (Err(m), Err(n)) => m@ == n,
            _ => false,
        },
{
    let entries = match config {
        JsonValue::Object(entries) => entries,
        JsonValue::Array(items) => return decode_elements_exec(config, items),
        _ => {
            proof {
                reveal_strlit("struct RawConfig");
            }
            return Err(invalid_type_text(config, "struct RawConfig"));
        },
    };
    proof {
        lemma_member_views(entries@);
    }
    let ghost mv = member_views(entries@);
    let mut title: Option<Option<String>> = None;
    let mut count: Option<Option<usize>> = None;
    let mut names: Option<Option<Vec<String>>> = None;
    let mut date: Option<Option<String>> = None;
    let mut i: usize = 0;
    assert(mv.take(0) =~= Seq::<(Seq<char>, JsonView)>::empty());
    while i < entries.len()
        invariant
            i <= entries@.len(),
            config@ == JsonView::Object(mv),
            mv == member_views(entries@),
            mv.len() == entries@.len(),
            forall|k: int| 0 <= k < entries@.len() ==> #[trigger] mv[k] == (entries@[k].0@, json_view(entries@[k].1)),
            decode_members(mv.take(i as int)) == Ok::<RawFields, Seq<char>>(fields_view(title, count, names, date)),
        decreases entries@.len() - i,
    {
        assert(mv.take(i + 1).drop_last() =~= mv.take(i as int));
        assert(mv.take(i + 1).last() == mv[i as int]);
        let key = entries[i].0.as_str();
        let value = &entries[i].1;
        let f = field_of(key);
        if f == 0 {
            if title.is_some() {
                {
                    proof {
                        lemma_decode_error_persists(mv, i + 1, "duplicate field `title`"@);
                    }
                    return Err("duplicate field `title`".to_owned());
                }
            }
            match decode_opt_str_exec(value) {
                Ok(x) => {
                    title = Some(x);
                },
                Err(m) => {
                    proof {
                        lemma_decode_error_persists(mv, i + 1, m@);
                    }
                    return Err(m);
                },
            }
        } else if f == 1 {
            if count.is_some() {
                {
                    proof {
                        lemma_decode_error_persists(mv, i + 1, "duplicate field `page_count`"@);
                    }
                    return Err("duplicate field `page_count`".to_owned());
                }
            }
            match decode_opt_count_exec(value) {
                Ok(x) => {
                    count = Some(x);
                },
                Err(m) => {
                    proof {
                        lemma_decode_error_persists(mv, i + 1, m@);
                    }
                    return Err(m);
                },
            }
        } else if f == 2 {
            if names.is_some() {
                {
                    proof {
                        lemma_decode_error_persists(mv, i + 1, "duplicate field `page_filenames`"@);
                    }
                    return Err("duplicate field `page_filenames`".to_owned());
                }
            }
            match decode_opt_names_exec(value) {
                Ok(x) => {
                    names = Some(x);
                },
                Err(m) => {
                    proof {
                        lemma_decode_error_persists(mv, i + 1, m@);
                    }
                    return Err(m);
                },
            }
        } else if f == 3 {
            if date.is_some() {
                {
                    proof {
                        lemma_decode_error_persists(mv, i + 1, "duplicate field `date`"@);
                    }
                    return Err("duplicate field `date`".to_owned());
                }
            }
            match decode_opt_str_exec(value) {
                Ok(x) => {
                    date = Some(x);
                },
                Err(m) => {
                    proof {
                        lemma_decode_error_persists(mv, i + 1, m@);
                    }
                    return Err(m);
                },
            }
        }
        i = i + 1;
    }
    assert(mv.take(entries@.len() as int) =~= mv);
    let page_filenames = match names {
        Some(Some(v)) => Some(v),
        _ => None,
    };
    Ok(RawConfig { title: flatten_str(title), page_count: match count {
        Some(Some(n)) => Some(n),
        _ => None,
    }, page_filenames, date: flatten_str(date) })
}


// ---------------------------------------------------------------------------
// Building the metadata
// ---------------------------------------------------------------------------

/// The cover image URL: page 1 under `files/large/`, when there is a base.
pub open spec fn thumbnail_of(base: Seq<char>) -> Option<Seq<char>> {
    if base.len() == 0 {
        None
    } else {
        Some(base + "/files/large/1.jpg"@)
    }
}

/// The cover image URL of a document: `{base_url}/files/large/1.jpg`, or
/// nothing when the base URL is empty.
pub fn derive_thumbnail_url(parsed_url: &ParsedUrl) -> (r: Option<String>)
    ensures
        opt_str_view(r) == thumbnail_of(parsed_url.base_url@),
{
    if parsed_url.base_url.as_str().is_empty() {
        return None;
    }
    Some(concat(parsed_url.base_url.as_str(), "/files/large/1.jpg"))
}

/// `r` is the metadata that the config `config` describes for the document
/// at `p`, or the error that reading it gives.
pub open spec fn extract_outcome(config: JsonView, p: ParsedUrl, r: Result<DocumentMetadata, AppError>) -> bool {
    match decode_raw(config) {
        Err(m) => r matches Err(e) && e.is(
            ErrorKind::MetadataError,
            "Invalid config.js structure: "@ + m,
        ),
        Ok(f) => match flatten(f.page_count) {
            None => r matches Err(e) && e.is(
                ErrorKind::MetadataError,
                "Missing page count in config.js"@,
            ),
            Some(n) => if n == 0 {
                r matches Err(e) && e.is(ErrorKind::MetadataError, "Page count is 0 in config.js"@)
            } else {
                r matches Ok(meta) && {
                    &&& meta.url@ == p.base_url@
                    &&& meta.title@ == match flatten(f.title) {
                        Some(t) => t,
                        None => "Untitled"@,
                    }
                    &&& meta.page_count == n
                    &&& string_views(meta.page_filenames@) == match flatten(f.page_filenames) {
                        Some(x) => x,
                        None => seq![],
                    }
                    &&& opt_str_view(meta.author) == Some(p.user@)
                    &&& opt_str_view(meta.date) == flatten(f.date)
                    &&& opt_str_view(meta.thumbnail) == thumbnail_of(p.base_url@)
                    &&& !meta.password_protected
                }
            },
        },
    }
}

/// Build the document metadata from an old-shape config object.
///
/// The title defaults to `Untitled`, the file names to none; the page count
/// must be present and positive. The URL is the normalized base URL, the
/// author the user slug, the thumbnail the cover image URL.
pub fn extract_metadata(config: JsonValue, parsed_url: &ParsedUrl) -> (r: Result<DocumentMetadata, AppError>)
    ensures
        extract_outcome(config@, *parsed_url, r),
{
    let raw = match decode_config(&config) {
        Ok(raw) => raw,
        Err(m) => {
            return Err(
                AppError::MetadataError(concat("Invalid config.js structure: ", m.as_str())),
            );
        },
    };
    let title = match raw.title {
        Some(t) => t,
        None => "Untitled".to_owned(),
    };
    let page_count = match raw.page_count {
        Some(n) => n,
        None => return Err(AppError::metadata("Missing page count in config.js")),
    };
    if page_count == 0 {
        return Err(AppError::metadata("Page count is 0 in config.js"));
    }
    let page_filenames = match raw.page_filenames {
        Some(v) => v,
        None => {
            let v: Vec<String> = Vec::new();
            assert(string_views(v@) =~= Seq::<Seq<char>>::empty());
            v
        },
    };
    let thumbnail = derive_thumbnail_url(parsed_url);
    Ok(
        DocumentMetadata {
            url: parsed_url.base_url.clone(),
            title,
            page_count,
            page_filenames,
            author: Some(parsed_url.user.clone()),
            date: raw.date,
            thumbnail,
            password_protected: false,
        },
    )
}


// ---------------------------------------------------------------------------
// Filling in a probed page count
// ---------------------------------------------------------------------------

/// The field a member name is read into (0 title, 1 count, 2 names,
/// 3 date, 4 none).
pub open spec fn key_field(k: Seq<char>) -> u8 {
    if is_title_key(k) {
        0
    } else if is_count_key(k) {
        1
    } else if is_names_key(k) {
        2
    } else if is_date_key(k) {
        3
    } else {
        4
    }
}

/// The first member read into `field`, if any.
pub open spec fn first_member_of(m: Seq<(Seq<char>, JsonView)>, field: u8) -> Option<
    (Seq<char>, JsonView),
>
    decreases m.len(),
{
    if m.len() == 0 {
        None
    } else if key_field(m[0].0) == field {
        Some(m[0])
    } else {
        first_member_of(m.drop_first(), field)
    }
}

/// Whether the config has no usable page count under any of the names read
/// as the count (`page_count`, `pageCount`, `totalPages`, `numPages`): none
/// is there, or the first is not a non-negative integer, or it is zero. Then
/// the page count must be found by probing.
pub open spec fn needs_page_probe_spec(config: JsonView) -> bool {
    match config {
        JsonView::Object(m) => match first_member_of(m, 1) {
            Some(p) => match p.1.as_u64() {
                Some(c) => c == 0,
                None => true,
            },
            None => true,
        },
        _ => true,
    }
}

/// The index of the first member read into `field`, if any.
fn find_member_of(entries: &Vec<(String, JsonValue)>, field: u8) -> (r: Option<usize>)
    ensures
        match r {
            Some(i) => i < entries@.len() && first_member_of(member_views(entries@), field) == Some(
                member_views(entries@)[i as int],
            ) && forall|j: int| 0 <= j < i ==> key_field((#[trigger] member_views(entries@)[j]).0) != field,
            None => first_member_of(member_views(entries@), field) is None
                && forall|j: int| 0 <= j < entries@.len() ==> key_field((#[trigger] member_views(entries@)[j]).0) != field,
        },
{
    proof {
        lemma_member_views(entries@);
    }
    let ghost mv = member_views(entries@);
    let mut i: usize = 0;
    assert(mv.skip(0) =~= mv);
    while i < entries.len()
        invariant
            i <= entries@.len(),
            mv == member_views(entries@),
            mv.len() == entries@.len(),
            forall|j: int| 0 <= j < entries@.len() ==> #[trigger] mv[j] == (entries@[j].0@, json_view(entries@[j].1)),
            first_member_of(mv, field) == first_member_of(mv.skip(i as int), field),
            forall|j: int| 0 <= j < i ==> key_field((#[trigger] mv[j]).0) != field,
        decreases entries@.len() - i,
    {
        let f = field_of(entries[i].0.as_str());
        assert(mv.skip(i as int)[0] == mv[i as int]);
        assert(f == key_field(mv[i as int].0));
        if f == field {
            return Some(i);
        }
        assert(mv.skip(i as int).drop_first() =~= mv.skip(i + 1));
        i = i + 1;
    }
    assert(mv.skip(i as int).len() == 0);
    None
}

/// Whether the page count must be probed (see [`needs_page_probe_spec`]).
pub fn needs_page_probe(config: &JsonValue) -> (b: bool)
    ensures
        b == needs_page_probe_spec(config@),
{
    match config {
        JsonValue::Object(entries) => match find_member_of(entries, 1) {
            Some(i) => {
                proof {
                    lemma_member_views(entries@);
                }
                match entries[i].1.as_u64() {
                    Some(c) => c == 0,
                    None => true,
                }
            },
            None => true,
        },
        _ => true,
    }
}

/// `Map::insert`: the member `k` set to `v`, in place when present, else
/// added at the end.
pub open spec fn set_member(m: Seq<(Seq<char>, JsonView)>, k: Seq<char>, v: JsonView) -> Seq<
    (Seq<char>, JsonView),
>
    decreases m.len(),
{
    if m.len() == 0 {
        seq![(k, v)]
    } else if m[0].0 == k {
        seq![(k, v)] + m.drop_first()
    } else {
        seq![m[0]] + set_member(m.drop_first(), k, v)
    }
}

proof fn lemma_set_member_at(m: Seq<(Seq<char>, JsonView)>, k: Seq<char>, v: JsonView, i: int)
    requires
        0 <= i <= m.len(),
        forall|j: int| 0 <= j < i ==> (#[trigger] m[j]).0 != k,
        i < m.len() ==> m[i].0 == k,
    ensures
        set_member(m, k, v) == if i < m.len() {
            m.update(i, (k, v))
        } else {
            m.push((k, v))
        },
        lookup_absent(m, k, i),
    decreases i,
{
    if i == 0 {
        if m.len() > 0 {
            assert(seq![(k, v)] + m.drop_first() =~= m.update(0, (k, v)));
        } else {
            assert(seq![(k, v)] =~= m.push((k, v)));
        }
    } else {
        let t = m.drop_first();
        assert forall|j: int| 0 <= j < i - 1 implies (#[trigger] t[j]).0 != k by {
            assert(t[j] == m[j + 1]);
        }
        lemma_set_member_at(t, k, v, i - 1);
        if i < m.len() {
            assert(seq![m[0]] + t.update(i - 1, (k, v)) =~= m.update(i, (k, v)));
        } else {
            assert(seq![m[0]] + t.push((k, v)) =~= m.push((k, v)));
        }
    }
}

/// Whether no member among the first `i` is named `k`.
pub open spec fn lookup_absent(m: Seq<(Seq<char>, JsonView)>, k: Seq<char>, i: int) -> bool {
    forall|j: int| 0 <= j < i ==> (#[trigger] m[j]).0 != k
}

proof fn lemma_lookup_none(m: Seq<(Seq<char>, JsonView)>, k: Seq<char>)
    requires
        lookup_absent(m, k, m.len() as int),
    ensures
        crate::json::lookup(m, k) is None,
    decreases m.len(),
{
    if m.len() > 0 {
        let t = m.drop_first();
        assert forall|j: int| 0 <= j < t.len() implies (#[trigger] t[j]).0 != k by {
            assert(t[j] == m[j + 1]);
        }
        lemma_lookup_none(t, k);
    }
}

proof fn lemma_lookup_some(m: Seq<(Seq<char>, JsonView)>, k: Seq<char>, i: int)
    requires
        0 <= i < m.len(),
        m[i].0 == k,
    ensures
        crate::json::lookup(m, k) is Some,
    decreases i,
{
    if m[0].0 != k {
        assert(m.drop_first()[i - 1] == m[i]);
        lemma_lookup_some(m.drop_first(), k, i - 1);
    }
}

/// Sets member `key` of an object to `v` (`Map::insert`).
fn set_member_exec(entries: &mut Vec<(String, JsonValue)>, key: &str, v: JsonValue)
    ensures
        member_views(final(entries)@) == set_member(member_views(old(entries)@), key@, v@),
{
    proof {
        lemma_member_views(entries@);
    }
    let ghost mv = member_views(entries@);
    let k = chars_of(key);
    let mut i: usize = 0;
    while i < entries.len()
        invariant
            i <= entries@.len(),
            entries@ == old(entries)@,
            mv == member_views(entries@),
            mv.len() == entries@.len(),
            k@ == key@,
            forall|j: int| 0 <= j < entries@.len() ==> #[trigger] mv[j] == (entries@[j].0@, json_view(entries@[j].1)),
            forall|j: int| 0 <= j < i ==> (#[trigger] mv[j]).0 != key@,
        decreases entries@.len() - i,
    {
        if eq_chars(&chars_of(entries[i].0.as_str()), &k) {
            proof {
                lemma_set_member_at(mv, key@, v@, i as int);
            }
            let _old = entries.remove(i);
            let ghost mid = entries@;
            entries.insert(i, (key.to_owned(), v));
            proof {
                lemma_member_views(entries@);
                assert(member_views(entries@) =~= mv.update(i as int, (key@, v@)));
            }
            return;
        }
        i = i + 1;
    }
    proof {
        lemma_set_member_at(mv, key@, v@, i as int);
    }
    entries.push((key.to_owned(), v));
    proof {
        lemma_member_views(entries@);
        assert(member_views(entries@) =~= mv.push((key@, v@)));
    }
}

/// The member name a probed count is recorded under: that of the first
/// member read as the count, else `numPages`.
pub open spec fn probed_count_key(m: Seq<(Seq<char>, JsonView)>) -> Seq<char> {
    match first_member_of(m, 1) {
        Some(p) => p.0,
        None => "numPages"@,
    }
}

/// The config with a probed page count filled in: the count is set under
/// [`probed_count_key`], and a `title` of `Untitled` is added when no member
/// is read as the title.
pub open spec fn with_probed_count_spec(config: JsonView, count: u32) -> JsonView {
    match config {
        JsonView::Object(m) => {
            let m1 = set_member(m, probed_count_key(m), JsonView::Number(JsonNumber::PosInt(count as u64)));
            if first_member_of(m1, 0) is Some {
                JsonView::Object(m1)
            } else {
                JsonView::Object(set_member(m1, "title"@, JsonView::Str("Untitled"@)))
            }
        },
        _ => config,
    }
}

/// Records a probed page count under the name the config already uses for
/// its count (`numPages` when it has none) and, when the config has no
/// title under any of its names, sets `title` to `Untitled`. A value that is
/// not an object is kept.
pub fn with_probed_page_count(config: JsonValue, count: u32) -> (r: JsonValue)
    ensures
        r@ == with_probed_count_spec(config@, count),
{
    match config {
        JsonValue::Object(mut entries) => {
            proof {
                lemma_member_views(entries@);
                reveal_strlit("numPages");
            }
            let key: String = match find_member_of(&entries, 1) {
                Some(i) => entries[i].0.clone(),
                None => "numPages".to_owned(),
            };
            assert(key@ == probed_count_key(member_views(entries@)));
            set_member_exec(&mut entries, key.as_str(), JsonValue::Number(JsonNumber::PosInt(count as u64)));
            if find_member_of(&entries, 0).is_none() {
                set_member_exec(&mut entries, "title", JsonValue::String("Untitled".to_owned()));
            }
            JsonValue::Object(entries)
        },
        other => other,
    }
}

proof fn lemma_first_member_at(s: Seq<(Seq<char>, JsonView)>, f: u8, i: int)
    requires
        0 <= i < s.len(),
        key_field(s[i].0) == f,
        forall|j: int| 0 <= j < i ==> key_field((#[trigger] s[j]).0) != f,
    ensures
        first_member_of(s, f) == Some(s[i]),
    decreases i,
{
    if i > 0 {
        let t = s.drop_first();
        assert forall|j: int| 0 <= j < i - 1 implies key_field((#[trigger] t[j]).0) != f by {
            assert(t[j] == s[j + 1]);
        }
        lemma_first_member_at(t, f, i - 1);
    }
}

proof fn lemma_first_member_found(s: Seq<(Seq<char>, JsonView)>, f: u8)
    ensures
        match first_member_of(s, f) {
            Some(p) => exists|i: int|
                0 <= i < s.len() && #[trigger] s[i] == p && key_field(p.0) == f && forall|j: int|
                    0 <= j < i ==> key_field((#[trigger] s[j]).0) != f,
            None => forall|j: int| 0 <= j < s.len() ==> key_field((#[trigger] s[j]).0) != f,
        },
    decreases s.len(),
{
    if s.len() > 0 {
        let t = s.drop_first();
        lemma_first_member_found(t, f);
        if key_field(s[0].0) == f {
            assert(s[0] == s[0]);
        } else {
            match first_member_of(t, f) {
                Some(p) => {
                    let i = choose|i: int|
                        0 <= i < t.len() && #[trigger] t[i] == p && key_field(p.0) == f && forall|j: int|
                            0 <= j < i ==> key_field((#[trigger] t[j]).0) != f;
                    assert(s[i + 1] == p);
                    assert forall|j: int| 0 <= j < i + 1 implies key_field((#[trigger] s[j]).0) != f by {
                        if j > 0 {
                            assert(s[j] == t[j - 1]);
                        }
                    }
                },
                None => {
                    assert forall|j: int| 0 <= j < s.len() implies key_field((#[trigger] s[j]).0) != f by {
                        if j > 0 {
                            assert(s[j] == t[j - 1]);
                        }
                    }
                },
            }
        }
    }
}

/// Setting a member whose name is not read into `f` leaves the first
/// member read into `f` as it was.
proof fn lemma_set_other_member(s: Seq<(Seq<char>, JsonView)>, k: Seq<char>, v: JsonView, f: u8)
    requires
        key_field(k) != f,
    ensures
        first_member_of(set_member(s, k, v), f) == first_member_of(s, f),
    decreases s.len(),
{
    let r = set_member(s, k, v);
    if s.len() == 0 {
        assert(r[0] == (k, v));
        assert(r.drop_first() =~= Seq::<(Seq<char>, JsonView)>::empty());
        assert(first_member_of(r.drop_first(), f) is None);
    } else if s[0].0 == k {
        assert(r[0] == (k, v));
        assert(r.drop_first() =~= s.drop_first());
    } else {
        assert(r[0] == s[0]);
        lemma_set_other_member(s.drop_first(), k, v, f);
        assert(r.drop_first() =~= set_member(s.drop_first(), k, v));
    }
}

/// Once a probed count of at least one page is filled in, the config no
/// longer needs probing: the first member read as the count holds it.
pub proof fn law_probed_count_is_used(config: JsonView, count: u32)
    requires
        config is Object,
        count > 0,
    ensures
        !needs_page_probe_spec(with_probed_count_spec(config, count)),
        with_probed_count_spec(config, count) matches JsonView::Object(m2) && first_member_of(m2, 1)
            == Some((probed_count_key(config->Object_0), JsonView::Number(JsonNumber::PosInt(count as u64)))),
{
    reveal_strlit("numPages");
    reveal_strlit("title");
    reveal_strlit("docTitle");
    reveal_strlit("page_count");
    reveal_strlit("pageCount");
    reveal_strlit("totalPages");
    let m = config->Object_0;
    let k = probed_count_key(m);
    let v = JsonView::Number(JsonNumber::PosInt(count as u64));
    lemma_first_member_found(m, 1);
    match first_member_of(m, 1) {
        Some(p) => {
            let i = choose|i: int|
                0 <= i < m.len() && #[trigger] m[i] == p && key_field(p.0) == 1 && forall|j: int|
                    0 <= j < i ==> key_field((#[trigger] m[j]).0) != 1;
            assert forall|j: int| 0 <= j < i implies (#[trigger] m[j]).0 != k by {
                assert(key_field(m[j].0) != 1);
            }
            lemma_set_member_at(m, k, v, i);
            let m1 = m.update(i, (k, v));
            assert forall|j: int| 0 <= j < i implies key_field((#[trigger] m1[j]).0) != 1 by {
                assert(m1[j] == m[j]);
            }
            lemma_first_member_at(m1, 1, i);
        },
        None => {
            assert("numPages"@[0] != "docTitle"@[0]);
            assert("numPages"@.len() != "title"@.len());
            assert(key_field("numPages"@) == 1);
            assert forall|j: int| 0 <= j < m.len() implies (#[trigger] m[j]).0 != k by {
                assert(key_field(m[j].0) != 1);
            }
            lemma_set_member_at(m, k, v, m.len() as int);
            let m1 = m.push((k, v));
            assert forall|j: int| 0 <= j < m.len() implies key_field((#[trigger] m1[j]).0) != 1 by {
                assert(m1[j] == m[j]);
            }
            lemma_first_member_at(m1, 1, m.len() as int);
        },
    }
    let m1 = set_member(m, k, v);
    assert(key_field("title"@) == 0);
    lemma_set_other_member(m1, "title"@, JsonView::Str("Untitled"@), 1);
}

/// The config.js URL with the password appended as it is, unencoded.
pub fn config_js_url_with_password(parsed_url: &ParsedUrl, password: &str) -> (r: String)
    ensures
        r@ == crate::url_parser::config_js_url_of(parsed_url.base_url@) + "?password="@ + password@,
{
    let mut r = parsed_url.config_js_url();
    r.append("?password=");
    r.append(password);
    r
}

/// What a config.js response is refused for, if anything: a 403 means a
/// password is needed (or the one given is wrong), another non-2xx status is
/// a metadata failure that quotes the status line.
pub open spec fn config_response_fault(status: u16, status_text: Seq<char>, with_password: bool) -> Option<
    (ErrorKind, Seq<char>),
> {
    if 200 <= status && status <= 299 {
        None
    } else if status == 403 {
        if with_password {
            Some((ErrorKind::PasswordRequired, "Incorrect password or document is still protected"@))
        } else {
            Some((ErrorKind::PasswordRequired, "Document is password-protected"@))
        }
    } else {
        Some((ErrorKind::MetadataError, "Failed to fetch config.js: HTTP "@ + status_text))
    }
}

/// Accepts a config.js response status or says why it is refused;
/// `status_text` is the status as displayed (code and reason).
pub fn check_config_response(status: u16, status_text: &str, with_password: bool) -> (r: Result<
    (),
    AppError,
>)
    ensures
        match config_response_fault(status, status_text@, with_password) {
            None => r is Ok,
            Some((k, msg)) => r matches Err(e) && e.is(k, msg),
        },
{
    if 200 <= status && status <= 299 {
        return Ok(());
    }
    if status == 403 {
        if with_password {
            return Err(
                AppError::PasswordRequired(
                    "Incorrect password or document is still protected".to_string(),
                ),
            );
        }
        return Err(AppError::PasswordRequired("Document is password-protected".to_string()));
    }
    Err(AppError::MetadataError(concat("Failed to fetch config.js: HTTP ", status_text)))
}

} // verus!
