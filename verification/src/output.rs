//! Output file naming: sanitizing titles, applying naming patterns, and
//! building output paths.

use vstd::prelude::*;
use crate::error::{AppError, ErrorKind};
use crate::text::{chars_of, concat, decimal, has_prefix, push_decimal, string_of, sub_chars};
use crate::paths::{join_path_buf, joined_path, path_from_text, path_of_text};
use std::path::PathBuf;

verus! {

broadcast use vstd::string::group_string_axioms;

/// Maximum filename length in characters (without extension).
pub const MAX_FILENAME_LEN: usize = 200;

/// The name used when sanitizing leaves nothing.
pub const FALLBACK_FILENAME: &'static str = "untitled";

/// `char::is_whitespace`: the Unicode `White_Space` property.
pub open spec fn is_ws(c: char) -> bool {
    let v = c as u32;
    (0x09 <= v <= 0x0D) || v == 0x20 || v == 0x85 || v == 0xA0 || v == 0x1680 || (0x2000 <= v
        <= 0x200A) || v == 0x2028 || v == 0x2029 || v == 0x202F || v == 0x205F || v == 0x3000
}

pub fn is_whitespace(c: char) -> (b: bool)
    ensures
        b == is_ws(c),
{
    let v = c as u32;
    (0x09 <= v && v <= 0x0D) || v == 0x20 || v == 0x85 || v == 0xA0 || v == 0x1680 || (0x2000 <= v
        && v <= 0x200A) || v == 0x2028 || v == 0x2029 || v == 0x202F || v == 0x205F || v == 0x3000
}

/// Characters unsafe in filenames on Windows, macOS or Linux.
pub open spec fn is_forbidden(c: char) -> bool {
    c == '\\' || c == '/' || c == ':' || c == '*' || c == '?' || c == '"' || c == '<' || c == '>'
        || c == '|'
}

/// The maximal runs of non-whitespace characters (`str::split_whitespace`).
pub open spec fn words(s: Seq<char>) -> Seq<Seq<char>>
    decreases s.len(),
{
    if s.len() == 0 {
        seq![]
    } else {
        let w = words(s.drop_last());
        if is_ws(s.last()) {
            w
        } else if s.len() >= 2 && !is_ws(s[s.len() - 2]) {
            w.update(w.len() - 1, w.last().push(s.last()))
        } else {
            w.push(seq![s.last()])
        }
    }
}

/// Pieces joined with single spaces (`[..].join(" ")`).
pub open spec fn join_spaces(ws: Seq<Seq<char>>) -> Seq<char>
    decreases ws.len(),
{
    if ws.len() == 0 {
        seq![]
    } else if ws.len() == 1 {
        ws[0]
    } else {
        join_spaces(ws.drop_last()) + seq![' '] + ws.last()
    }
}

/// Forbidden characters replaced by spaces, whitespace runs collapsed to
/// one space, no leading or trailing whitespace.
pub open spec fn collapsed_title(title: Seq<char>) -> Seq<char> {
    join_spaces(words(title.map_values(|c: char| if is_forbidden(c) { ' ' } else { c })))
}

/// The sanitizing rule of [`OutputFile::sanitize_filename`]: the collapsed
/// title cut to its first 200 characters, or `untitled` when it is empty.
pub open spec fn sanitized_title(title: Seq<char>) -> Seq<char> {
    let t = collapsed_title(title);
    if t.len() == 0 {
        FALLBACK_FILENAME@
    } else if t.len() > MAX_FILENAME_LEN {
        t.take(MAX_FILENAME_LEN as int)
    } else {
        t
    }
}

proof fn lemma_join_push_char(ws: Seq<Seq<char>>, c: char)
    requires
        ws.len() > 0,
    ensures
        join_spaces(ws.update(ws.len() - 1, ws.last().push(c))) == join_spaces(ws).push(c),
{
    let u = ws.update(ws.len() - 1, ws.last().push(c));
    if ws.len() == 1 {
    } else {
        assert(u.drop_last() =~= ws.drop_last());
        assert(join_spaces(u) =~= join_spaces(ws).push(c));
    }
}

proof fn lemma_join_push_word(ws: Seq<Seq<char>>, c: char)
    ensures
        join_spaces(ws.push(seq![c])) == if ws.len() == 0 {
            seq![c]
        } else {
            join_spaces(ws) + seq![' ', c]
        },
{
    assert(ws.push(seq![c]).drop_last() =~= ws);
    if ws.len() > 0 {
        assert(join_spaces(ws.push(seq![c])) =~= join_spaces(ws) + seq![' ', c]);
    }
}

/// The words of `s`, joined with single spaces.
pub fn collapse_whitespace(s: &[char]) -> (r: Vec<char>)
    ensures
        r@ == join_spaces(words(s@)),
{
    let mut r: Vec<char> = Vec::new();
    let mut i: usize = 0;
    let mut nwords: usize = 0;
    assert(s@.take(0) =~= Seq::<char>::empty());
    while i < s.len()
        invariant
            i <= s.len(),
            r@ == join_spaces(words(s@.take(i as int))),
            nwords == words(s@.take(i as int)).len(),
            nwords <= i,
            i > 0 && !is_ws(s@[i - 1]) ==> nwords > 0,
        decreases s.len() - i,
    {
        let c = s[i];
        let ghost t = s@.take(i + 1);
        assert(t.drop_last() =~= s@.take(i as int));
        assert(t.last() == c);
        if is_whitespace(c) {
        } else if i >= 1 && !is_whitespace(s[i - 1]) {
            assert(t[t.len() - 2] == s@[i - 1]);
            proof {
                lemma_join_push_char(words(s@.take(i as int)), c);
            }
            r.push(c);
        } else {
            assert(i >= 1 ==> t[t.len() - 2] == s@[i - 1]);
            proof {
                lemma_join_push_word(words(s@.take(i as int)), c);
            }
            if nwords > 0 {
                r.push(' ');
            }
            r.push(c);
            nwords = nwords + 1;
        }
        assert(r@ =~= join_spaces(words(t)));
        i = i + 1;
    }
    assert(s@.take(s.len() as int) =~= s@);
    r
}

/// Unit struct grouping the output file operations.
pub struct OutputFile;

pub open spec fn blank_forbidden(c: char) -> char {
    if is_forbidden(c) {
        ' '
    } else {
        c
    }
}

impl OutputFile {
    /// Sanitize a title for use as a filename.
    ///
    /// Forbidden characters (`\ / : * ? " < > |`) become spaces, runs of
    /// whitespace collapse to one space, leading and trailing whitespace go,
    /// the result is cut to 200 characters, and an empty result becomes
    /// `untitled`.
    pub fn sanitize_filename(title: &str) -> (r: String)
        ensures
            r@ == sanitized_title(title@),
    {
        let cs = chars_of(title);
        let mut replaced: Vec<char> = Vec::new();
        let mut i: usize = 0;
        while i < cs.len()
            invariant
                i <= cs.len(),
                cs@ == title@,
                replaced@ == cs@.take(i as int).map_values(|c: char| blank_forbidden(c)),
            decreases cs.len() - i,
        {
            let c = cs[i];
            let d = if c == '\\' || c == '/' || c == ':' || c == '*' || c == '?' || c == '"' || c
                == '<' || c == '>' || c == '|' {
                ' '
            } else {
                c
            };
            replaced.push(d);
            i = i + 1;
            assert(replaced@ =~= cs@.take(i as int).map_values(|c: char| blank_forbidden(c)));
        }
        assert(cs@.take(cs.len() as int) =~= cs@);
        assert(replaced@ =~= title@.map_values(|c: char| if is_forbidden(c) { ' ' } else { c }));
        let collapsed = collapse_whitespace(&replaced);
        if collapsed.len() == 0 {
            return FALLBACK_FILENAME.to_owned();
        }
        if collapsed.len() > MAX_FILENAME_LEN {
            let cut = sub_chars(&collapsed, 0, MAX_FILENAME_LEN);
            assert(cut@ =~= collapsed@.take(MAX_FILENAME_LEN as int));
            string_of(&cut)
        } else {
            string_of(&collapsed)
        }
    }
}

/// `str::replace(p, r)`: every non-overlapping occurrence of `p`, from the
/// left, replaced by `r`.
pub open spec fn replace_all(s: Seq<char>, p: Seq<char>, r: Seq<char>) -> Seq<char>
    recommends
        p.len() > 0,
    decreases s.len(),
{
    if s.len() == 0 || p.len() == 0 {
        s
    } else if has_prefix(s, p) {
        r + replace_all(s.skip(p.len() as int), p, r)
    } else {
        seq![s[0]] + replace_all(s.drop_first(), p, r)
    }
}

/// Replaces every occurrence of the non-empty `p` in `s` by `r`.
pub fn replace(s: &str, p: &str, r: &str) -> (out: String)
    requires
        p@.len() > 0,
    ensures
        out@ == replace_all(s@, p@, r@),
{
    let cs = chars_of(s);
    let pc = chars_of(p);
    let mut out = String::new();
    let mut i: usize = 0;
    assert(cs@.skip(0) =~= cs@);
    while i < cs.len()
        invariant
            i <= cs.len(),
            cs@ == s@,
            pc@ == p@,
            p@.len() > 0,
            out@ + replace_all(cs@.skip(i as int), p@, r@) == replace_all(s@, p@, r@),
        decreases cs.len() - i,
    {
        let rest = sub_chars(&cs, i, cs.len());
        assert(rest@ =~= cs@.skip(i as int));
        if crate::text::starts_with(&rest, &pc) {
            let ghost o = out@;
            out.append(r);
            assert(cs@.skip(i as int).skip(pc@.len() as int) =~= cs@.skip(i + pc.len()));
            assert(out@ + replace_all(cs@.skip(i + pc.len()), p@, r@) =~= o + replace_all(
                cs@.skip(i as int),
                p@,
                r@,
            ));
            i = i + pc.len();
        } else {
            let ghost o = out@;
            crate::text::push_char(&mut out, cs[i]);
            assert(cs@.skip(i as int).drop_first() =~= cs@.skip(i + 1));
            assert(out@ + replace_all(cs@.skip(i + 1), p@, r@) =~= o + replace_all(
                cs@.skip(i as int),
                p@,
                r@,
            ));
            i = i + 1;
        }
    }
    assert(out@ + replace_all(cs@.skip(i as int), p@, r@) =~= out@);
    out
}

/// The pattern with its tokens substituted, in order: `{title}`,
/// `{author}`, `{date}`, `{pageCount}`, `{format}`.
pub open spec fn substituted(
    pattern: Seq<char>,
    title: Seq<char>,
    author: Seq<char>,
    page_count: nat,
    format: Seq<char>,
    date: Seq<char>,
) -> Seq<char> {
    replace_all(
        replace_all(
            replace_all(
                replace_all(replace_all(pattern, "{title}"@, title), "{author}"@, author),
                "{date}"@,
                date,
            ),
            "{pageCount}"@,
            decimal(page_count),
        ),
        "{format}"@,
        format,
    )
}

impl OutputFile {
    /// The naming pattern with its tokens substituted (see [`substituted`]).
    pub fn substitute_tokens(
        pattern: &str,
        title: &str,
        author: &str,
        page_count: usize,
        format: &str,
        date: &str,
    ) -> (r: String)
        ensures
            r@ == substituted(pattern@, title@, author@, page_count as nat, format@, date@),
    {
        proof {
            reveal_strlit("{title}");
            reveal_strlit("{author}");
            reveal_strlit("{date}");
            reveal_strlit("{pageCount}");
            reveal_strlit("{format}");
        }
        let mut count = String::new();
        push_decimal(&mut count, page_count as u64);
        let a = replace(pattern, "{title}", title);
        let b = replace(a.as_str(), "{author}", author);
        let c = replace(b.as_str(), "{date}", date);
        let d = replace(c.as_str(), "{pageCount}", count.as_str());
        replace(d.as_str(), "{format}", format)
    }

    /// Apply a naming pattern with a given date text: substitute the tokens
    /// (`{title}`, `{author}`, `{date}`, `{pageCount}`, `{format}`; unknown
    /// tokens stay) and sanitize the result.
    pub fn apply_naming_pattern_with_date(
        pattern: &str,
        title: &str,
        author: &str,
        page_count: usize,
        format: &str,
        date: &str,
    ) -> (r: String)
        ensures
            r@ == sanitized_title(
                substituted(pattern@, title@, author@, page_count as nat, format@, date@),
            ),
    {
        let e = Self::substitute_tokens(pattern, title, author, page_count, format, date);
        Self::sanitize_filename(e.as_str())
    }

    /// Apply a naming pattern, with `{date}` standing for today's date
    /// (`YYYY-MM-DD`, UTC).
    pub fn apply_naming_pattern(
        pattern: &str,
        title: &str,
        author: &str,
        page_count: usize,
        format: &str,
    ) -> (r: String)
        ensures
            exists|secs: u64|
                r@ == sanitized_title(
                    #[trigger] substituted(
                        pattern@,
                        title@,
                        author@,
                        page_count as nat,
                        format@,
                        crate::calendar::date_text(secs),
                    ),
                ),
    {
        let date = crate::calendar::current_date_string();
        let ghost secs = choose|secs: u64| date@ == crate::calendar::date_text(secs);
        let r = Self::apply_naming_pattern_with_date(pattern, title, author, page_count, format, date.as_str());
        assert(r@ == sanitized_title(
            substituted(pattern@, title@, author@, page_count as nat, format@, crate::calendar::date_text(secs)),
        ));
        r
    }

    /// The output file name: `{sanitized title}.{format}`.
    pub fn output_file_name(title: &str, format: &str) -> (r: String)
        ensures
            r@ == sanitized_title(title@) + "."@ + format@,
    {
        let mut r = Self::sanitize_filename(title);
        r.append(".");
        r.append(format);
        r
    }

    /// The output path: `{save_dir}/{sanitized title}.{format}`.
    pub fn output_path(save_dir: &str, title: &str, format: &str) -> (p: PathBuf)
        ensures
            p == joined_path(path_of_text(save_dir@), sanitized_title(title@) + "."@ + format@),
    {
        let name = Self::output_file_name(title, format);
        let dir = path_from_text(save_dir);
        join_path_buf(&dir, name.as_str())
    }

    /// Checks an output file from what is known of it: it must exist and be
    /// non-empty. `size` is `None` when the size could not be read (that
    /// error is passed on).
    pub fn verify(exists: bool, size: Result<u64, AppError>, path_text: &str) -> (r: Result<(), AppError>)
        ensures
            !exists ==> (r matches Err(e) && e.is(ErrorKind::FileSystemError, "File does not exist: "@ + path_text@)),
            exists ==> match size {
                Err(e0) => r matches Err(e) && e == e0,
                Ok(n) => if n == 0 {
                    r matches Err(e) && e.is(ErrorKind::FileSystemError, "File is empty: "@ + path_text@)
                } else {
                    r is Ok
                },
            },
    {
        if !exists {
            return Err(AppError::FileSystemError(concat("File does not exist: ", path_text)));
        }
        match size {
            Err(e) => Err(e),
            Ok(n) => {
                if n == 0 {
                    Err(AppError::FileSystemError(concat("File is empty: ", path_text)))
                } else {
                    Ok(())
                }
            },
        }
    }
}

/// Every word of `s` is a non-empty run of characters of `s` that are not
/// whitespace and, when `s` has no forbidden character, not forbidden.
proof fn lemma_words_chars(s: Seq<char>)
    ensures
        forall|k: int| 0 <= k < words(s).len() ==> (#[trigger] words(s)[k]).len() > 0,
        forall|k: int, j: int|
            0 <= k < words(s).len() && 0 <= j < words(s)[k].len() ==> !is_ws(
                #[trigger] words(s)[k][j],
            ),
        (forall|i: int| 0 <= i < s.len() ==> !is_forbidden(#[trigger] s[i])) ==> forall|
            k: int,
            j: int,
        |
            0 <= k < words(s).len() && 0 <= j < words(s)[k].len() ==> !is_forbidden(
                #[trigger] words(s)[k][j],
            ),
    decreases s.len(),
{
    if s.len() > 0 {
        let t = s.drop_last();
        lemma_words_chars(t);
        if forall|i: int| 0 <= i < s.len() ==> !is_forbidden(#[trigger] s[i]) {
            assert(forall|i: int| 0 <= i < t.len() ==> !is_forbidden(#[trigger] t[i])) by {
                assert forall|i: int| 0 <= i < t.len() implies !is_forbidden(#[trigger] t[i]) by {
                    assert(t[i] == s[i]);
                }
            }
        }
        let w = words(t);
        if is_ws(s.last()) {
        } else if s.len() >= 2 && !is_ws(s[s.len() - 2]) {
            // The last word grows by one character.
            assert(w.len() > 0) by {
                assert(t.len() > 0 && !is_ws(t.last()));
                lemma_last_not_ws_has_word(t);
            }
        } else {
        }
    }
}

/// A text that ends in a non-whitespace character has at least one word.
proof fn lemma_last_not_ws_has_word(s: Seq<char>)
    requires
        s.len() > 0,
        !is_ws(s.last()),
    ensures
        words(s).len() > 0,
    decreases s.len(),
{
    if s.len() >= 2 && !is_ws(s[s.len() - 2]) {
        lemma_last_not_ws_has_word(s.drop_last());
    }
}

/// The characters of words joined by spaces are spaces or characters of
/// the words.
proof fn lemma_join_chars(ws: Seq<Seq<char>>, pred: spec_fn(char) -> bool)
    requires
        pred(' '),
        forall|k: int, j: int| 0 <= k < ws.len() && 0 <= j < ws[k].len() ==> pred(#[trigger] ws[k][j]),
    ensures
        forall|i: int| 0 <= i < join_spaces(ws).len() ==> pred(#[trigger] join_spaces(ws)[i]),
        ws.len() > 0 && ws[0].len() > 0 ==> join_spaces(ws).len() > 0 && join_spaces(ws)[0] == ws[0][0],
    decreases ws.len(),
{
    if ws.len() > 1 {
        let init = ws.drop_last();
        assert forall|k: int, j: int| 0 <= k < init.len() && 0 <= j < init[k].len() implies pred(#[trigger] init[k][j]) by {
            assert(init[k] == ws[k]);
        }
        lemma_join_chars(init, pred);
        let j = join_spaces(ws);
        let a = join_spaces(init);
        assert forall|i: int| 0 <= i < j.len() implies pred(#[trigger] j[i]) by {
            if i < a.len() {
                assert(j[i] == a[i]);
            } else if i == a.len() {
                assert(j[i] == ' ');
            } else {
                assert(j[i] == ws.last()[i - a.len() - 1]);
                assert(ws.last() == ws[ws.len() - 1]);
            }
        }
        if ws[0].len() > 0 {
            assert(init[0] == ws[0]);
        }
    } else if ws.len() == 1 {
        assert forall|i: int| 0 <= i < join_spaces(ws).len() implies pred(#[trigger] join_spaces(ws)[i]) by {
            assert(join_spaces(ws)[i] == ws[0][i]);
        }
    }
}

/// Words joined by single spaces never hold two whitespace characters in a
/// row, and start and end with a character of a word.
proof fn lemma_join_single_spaces(ws: Seq<Seq<char>>)
    requires
        forall|k: int| 0 <= k < ws.len() ==> (#[trigger] ws[k]).len() > 0,
        forall|k: int, j: int| 0 <= k < ws.len() && 0 <= j < ws[k].len() ==> !is_ws(#[trigger] ws[k][j]),
    ensures
        forall|i: int|
            0 <= i < join_spaces(ws).len() - 1 ==> !(is_ws(#[trigger] join_spaces(ws)[i]) && is_ws(
                join_spaces(ws)[i + 1],
            )),
        join_spaces(ws).len() > 0 ==> !is_ws(join_spaces(ws).last()),
    decreases ws.len(),
{
    if ws.len() == 1 {
        assert(join_spaces(ws) == ws[0]);
        assert(ws[0].last() == ws[0][ws[0].len() - 1]);
    } else if ws.len() > 1 {
        let init = ws.drop_last();
        assert forall|k: int| 0 <= k < init.len() implies (#[trigger] init[k]).len() > 0 by {
            assert(init[k] == ws[k]);
        }
        assert forall|k: int, j: int| 0 <= k < init.len() && 0 <= j < init[k].len() implies !is_ws(#[trigger] init[k][j]) by {
            assert(init[k] == ws[k]);
        }
        lemma_join_single_spaces(init);
        let a = join_spaces(init);
        let l = ws.last();
        let j = join_spaces(ws);
        assert(j == a + seq![' '] + l);
        assert(l == ws[ws.len() - 1]);
        assert(l.len() > 0);
        assert(a.len() > 0) by {
            assert(init[0].len() > 0);
            lemma_join_chars(init, |c: char| true);
        }
        assert forall|i: int| 0 <= i < j.len() - 1 implies !(is_ws(#[trigger] j[i]) && is_ws(j[i + 1])) by {
            if i < a.len() - 1 {
                assert(j[i] == a[i]);
                assert(j[i + 1] == a[i + 1]);
            } else if i == a.len() - 1 {
                assert(j[i] == a.last());
            } else if i == a.len() {
                assert(j[i + 1] == l[0]);
            } else {
                assert(j[i] == l[i - a.len() - 1]);
            }
        }
        assert(j.last() == l[l.len() - 1]);
    }
}

/// A sanitized title is a usable file name: not empty, at most 200
/// characters, none of the forbidden characters, no leading whitespace,
/// its only whitespace plain spaces, and never two of them in a row.
pub proof fn law_sanitized_title_is_usable(title: Seq<char>)
    ensures
        0 < sanitized_title(title).len() <= MAX_FILENAME_LEN,
        forall|i: int|
            0 <= i < sanitized_title(title).len() ==> !is_forbidden(
                #[trigger] sanitized_title(title)[i],
            ),
        !is_ws(sanitized_title(title)[0]),
        forall|i: int|
            0 <= i < sanitized_title(title).len() - 1 ==> !(is_ws(
                #[trigger] sanitized_title(title)[i],
            ) && is_ws(sanitized_title(title)[i + 1])),
        forall|i: int|
            0 <= i < sanitized_title(title).len() && is_ws(#[trigger] sanitized_title(title)[i])
                ==> sanitized_title(title)[i] == ' ',
{
    let m = title.map_values(|c: char| if is_forbidden(c) { ' ' } else { c });
    assert forall|i: int| 0 <= i < m.len() implies !is_forbidden(#[trigger] m[i]) by {}
    lemma_words_chars(m);
    let ws = words(m);
    let t = collapsed_title(title);
    assert(t == join_spaces(ws));
    lemma_join_chars(ws, |c: char| !is_forbidden(c));
    lemma_join_chars(ws, |c: char| true);
    lemma_join_chars(ws, |c: char| is_ws(c) ==> c == ' ');
    lemma_join_single_spaces(ws);
    assert(ws.len() > 0 ==> ws[0].len() > 0);
    assert(t.len() > 0 ==> !is_ws(t[0])) by {
        if t.len() > 0 {
            if ws.len() == 0 {
                assert(join_spaces(ws).len() == 0);
            }
            assert(ws[0][0] == t[0]);
        }
    }
    reveal_strlit("untitled");
    let r = sanitized_title(title);
    if t.len() == 0 {
        assert(r == FALLBACK_FILENAME@);
        assert forall|i: int| 0 <= i < r.len() - 1 implies !(is_ws(#[trigger] r[i]) && is_ws(r[i + 1])) by {
            assert(!is_ws(r[i]));
        }
        assert forall|i: int| 0 <= i < r.len() && is_ws(#[trigger] r[i]) implies r[i] == ' ' by {}
    } else if t.len() > MAX_FILENAME_LEN {
        assert(r == t.take(MAX_FILENAME_LEN as int));
        assert forall|i: int| 0 <= i < r.len() implies !is_forbidden(#[trigger] r[i]) by {
            assert(r[i] == t[i]);
        }
        assert forall|i: int| 0 <= i < r.len() - 1 implies !(is_ws(#[trigger] r[i]) && is_ws(r[i + 1])) by {
            assert(r[i] == t[i]);
            assert(r[i + 1] == t[i + 1]);
        }
        assert forall|i: int| 0 <= i < r.len() && is_ws(#[trigger] r[i]) implies r[i] == ' ' by {
            assert(r[i] == t[i]);
        }
        assert(r[0] == t[0]);
    } else {
    }
}

/// Titles already in sanitized form come back unchanged: 1 to 200
/// characters, none forbidden, no whitespace at either end, and the only
/// whitespace single plain spaces.
pub proof fn law_sanitize_keeps_clean_titles(title: Seq<char>)
    requires
        0 < title.len() <= MAX_FILENAME_LEN,
        forall|i: int| 0 <= i < title.len() ==> !is_forbidden(#[trigger] title[i]),
        forall|i: int| 0 <= i < title.len() && is_ws(#[trigger] title[i]) ==> title[i] == ' ',
        forall|i: int| 0 <= i < title.len() - 1 ==> !(is_ws(#[trigger] title[i]) && is_ws(title[i + 1])),
        !is_ws(title[0]),
        !is_ws(title.last()),
    ensures
        sanitized_title(title) == title,
{
    assert(title.map_values(|c: char| if is_forbidden(c) { ' ' } else { c }) =~= title);
    lemma_join_words_clean(title);
}

/// For a text that starts with a non-whitespace character, whose whitespace
/// is single plain spaces: its words joined by spaces give it back, without a
/// trailing space.
proof fn lemma_join_words_clean(s: Seq<char>)
    requires
        s.len() > 0,
        !is_ws(s[0]),
        forall|i: int| 0 <= i < s.len() && is_ws(#[trigger] s[i]) ==> s[i] == ' ',
        forall|i: int| 0 <= i < s.len() - 1 ==> !(is_ws(#[trigger] s[i]) && is_ws(s[i + 1])),
    ensures
        join_spaces(words(s)) == if is_ws(s.last()) {
            s.drop_last()
        } else {
            s
        },
    decreases s.len(),
{
    let t = s.drop_last();
    let c = s.last();
    if s.len() == 1 {
        assert(words(t) =~= Seq::<Seq<char>>::empty());
        assert(words(s) =~= seq![seq![c]]);
        assert(seq![c] =~= s);
    } else {
        assert forall|i: int| 0 <= i < t.len() && is_ws(#[trigger] t[i]) implies t[i] == ' ' by {
            assert(t[i] == s[i]);
        }
        assert forall|i: int| 0 <= i < t.len() - 1 implies !(is_ws(#[trigger] t[i]) && is_ws(t[i + 1])) by {
            assert(t[i] == s[i]);
            assert(t[i + 1] == s[i + 1]);
        }
        assert(t[0] == s[0]);
        lemma_join_words_clean(t);
        let w = words(t);
        assert(t.last() == s[s.len() - 2]);
        if is_ws(c) {
            assert(!is_ws(t.last()));
        } else if !is_ws(s[s.len() - 2]) {
            lemma_last_not_ws_has_word(t);
            lemma_join_push_char(w, c);
            assert(t.push(c) =~= s);
        } else {
            assert(s[s.len() - 2] == ' ');
            let u = t.drop_last();
            assert(u.len() > 0);
            assert(join_spaces(w) == u);
            assert(w.len() > 0) by {
                if w.len() == 0 {
                    assert(join_spaces(w).len() == 0);
                }
            }
            lemma_join_push_word(w, c);
            assert(u + seq![' ', c] =~= s);
        }
    }
}

/// A title with nothing but forbidden characters and whitespace is named
/// `untitled`.
pub proof fn law_blank_title_is_untitled(title: Seq<char>)
    requires
        forall|i: int| 0 <= i < title.len() ==> is_forbidden(#[trigger] title[i]) || is_ws(title[i]),
    ensures
        sanitized_title(title) == FALLBACK_FILENAME@,
{
    let m = title.map_values(|c: char| if is_forbidden(c) { ' ' } else { c });
    assert forall|i: int| 0 <= i < m.len() implies is_ws(#[trigger] m[i]) by {
        assert(is_forbidden(title[i]) || is_ws(title[i]));
    }
    lemma_words_of_blank(m);
}

proof fn lemma_words_of_blank(s: Seq<char>)
    requires
        forall|i: int| 0 <= i < s.len() ==> is_ws(#[trigger] s[i]),
    ensures
        words(s).len() == 0,
    decreases s.len(),
{
    if s.len() > 0 {
        let t = s.drop_last();
        assert forall|i: int| 0 <= i < t.len() implies is_ws(#[trigger] t[i]) by {
            assert(t[i] == s[i]);
        }
        lemma_words_of_blank(t);
        assert(is_ws(s[s.len() - 1]));
    }
}

} // verus!
