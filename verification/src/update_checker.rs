//! Comparing release versions for the update check.

use vstd::prelude::*;
use crate::text::{chars_of, parse_u64, parse_u64_spec, seq_views, split, split_on, string_of, sub_chars};

verus! {

broadcast use vstd::string::group_string_axioms;

/// The outcome of an update check.
/// The version of this application.
pub const APP_VERSION: &'static str = "0.1.0";

/// The GitHub repository whose releases are checked (owner/repo).
pub const GITHUB_REPO: &'static str = "AnyflipDL/AnyflipDL";

/// The GitHub API address of the latest release of [`GITHUB_REPO`].
pub fn latest_release_url() -> (r: String)
    ensures
        r@ == "https://api.github.com/repos/"@ + GITHUB_REPO@ + "/releases/latest"@,
{
    let mut r = crate::text::concat("https://api.github.com/repos/", GITHUB_REPO);
    r.append("/releases/latest");
    r
}

/// The `User-Agent` of update checks: `AnyflipDL/{version}`.
pub fn user_agent(current_version: &str) -> (r: String)
    ensures
        r@ == "AnyflipDL/"@ + current_version@,
{
    crate::text::concat("AnyflipDL/", current_version)
}

#[derive(Debug, Clone)]
pub struct UpdateCheckResult {
    pub current_version: String,
    pub latest_version: String,
    pub update_available: bool,
    pub download_url: Option<String>,
}

/// A release tag without one leading `v` or `V`.
pub open spec fn strip_prefix_spec(tag: Seq<char>) -> Seq<char> {
    if tag.len() > 0 && (tag[0] == 'v' || tag[0] == 'V') {
        tag.drop_first()
    } else {
        tag
    }
}

/// Strip a leading `v` or `V` from a version tag: `v1.2.3` -> `1.2.3`.
pub fn strip_version_prefix(tag: &str) -> (r: String)
    ensures
        r@ == strip_prefix_spec(tag@),
{
    let cs = chars_of(tag);
    if cs.len() > 0 && (cs[0] == 'v' || cs[0] == 'V') {
        let rest = sub_chars(&cs, 1, cs.len());
        assert(rest@ =~= tag@.drop_first());
        string_of(&rest)
    } else {
        tag.to_owned()
    }
}

/// The numeric components of a version: its `.`-separated pieces that
/// parse as `u64`, in order (pieces that do not parse are dropped).
pub open spec fn numeric_parts(pieces: Seq<Seq<char>>) -> Seq<u64>
    decreases pieces.len(),
{
    if pieces.len() == 0 {
        seq![]
    } else {
        numeric_parts(pieces.drop_last()) + match parse_u64_spec(pieces.last()) {
            Some(n) => seq![n],
            None => seq![],
        }
    }
}

pub open spec fn version_parts(v: Seq<char>) -> Seq<u64> {
    numeric_parts(split_on(v, '.'))
}

/// Parse a version into its numeric components: `1.2.3` -> `[1, 2, 3]`.
pub fn parse_version(version: &str) -> (r: Vec<u64>)
    ensures
        r@ == version_parts(version@),
{
    let pieces = split(&chars_of(version), '.');
    let ghost pv = seq_views(pieces@);
    let mut r: Vec<u64> = Vec::new();
    let mut i: usize = 0;
    assert(pv.take(0) =~= Seq::<Seq<char>>::empty());
    while i < pieces.len()
        invariant
            i <= pieces@.len(),
            pv == seq_views(pieces@),
            pv.len() == pieces@.len(),
            r@ == numeric_parts(pv.take(i as int)),
        decreases pieces@.len() - i,
    {
        assert(pv.take(i + 1).drop_last() =~= pv.take(i as int));
        assert(pv.take(i + 1).last() == pieces@[i as int]@);
        match parse_u64(&pieces[i]) {
            Some(n) => {
                r.push(n);
            },
            None => {},
        }
        assert(r@ =~= numeric_parts(pv.take(i + 1)));
        i = i + 1;
    }
    assert(pv.take(pieces@.len() as int) =~= pv);
    r
}

/// The first component, or `0` when there is none.
pub open spec fn head_or_zero(a: Seq<u64>) -> u64 {
    if a.len() > 0 {
        a[0]
    } else {
        0
    }
}

/// The components after the first (none when there is none).
pub open spec fn tail_parts(a: Seq<u64>) -> Seq<u64> {
    if a.len() > 0 {
        a.drop_first()
    } else {
        a
    }
}

/// Component-wise comparison, a missing component counting as `0`: the
/// first differing component decides. `1`, `-1` or `0`.
pub open spec fn compare_parts(a: Seq<u64>, b: Seq<u64>) -> int
    decreases a.len() + b.len(),
{
    if a.len() == 0 && b.len() == 0 {
        0
    } else if head_or_zero(a) > head_or_zero(b) {
        1
    } else if head_or_zero(a) < head_or_zero(b) {
        -1
    } else {
        compare_parts(tail_parts(a), tail_parts(b))
    }
}

/// The components of `a` from index `i` on (none once `i` is past the end).
pub open spec fn parts_from(a: Seq<u64>, i: int) -> Seq<u64> {
    if i <= a.len() {
        a.skip(i)
    } else {
        Seq::<u64>::empty()
    }
}

/// The comparison of two version texts by their numeric components.
pub open spec fn compare_versions_spec(a: Seq<char>, b: Seq<char>) -> int {
    compare_parts(version_parts(a), version_parts(b))
}

/// Compare two versions: `1` if `a > b`, `-1` if `a < b`, `0` if equal.
/// Missing minor or patch components count as `0` (`1.0 == 1.0.0`,
/// `1.0.1 > 1.0`).
pub fn compare_versions(a: &str, b: &str) -> (r: i32)
    ensures
        r == compare_versions_spec(a@, b@),
{
    let ap = parse_version(a);
    let bp = parse_version(b);
    let mut i: usize = 0;
    assert(ap@.skip(0) =~= ap@);
    assert(bp@.skip(0) =~= bp@);
    while i < ap.len() || i < bp.len()
        invariant
            ap@ == version_parts(a@),
            bp@ == version_parts(b@),
            i <= ap@.len() || i <= bp@.len(),
            compare_parts(ap@, bp@) == compare_parts(parts_from(ap@, i as int), parts_from(bp@, i as int)),
        decreases ap@.len() + bp@.len() - i,
    {
        let ghost sa = parts_from(ap@, i as int);
        let ghost sb = parts_from(bp@, i as int);
        let x: u64 = if i < ap.len() {
            ap[i]
        } else {
            0
        };
        let y: u64 = if i < bp.len() {
            bp[i]
        } else {
            0
        };
        assert(x == head_or_zero(sa));
        assert(y == head_or_zero(sb));
        assert(sa.len() > 0 || sb.len() > 0);
        if x > y {
            return 1;
        }
        if x < y {
            return -1;
        }
        assert(tail_parts(sa) =~= parts_from(ap@, i + 1));
        assert(tail_parts(sb) =~= parts_from(bp@, i + 1));
        i = i + 1;
    }
    assert(parts_from(ap@, i as int) =~= Seq::<u64>::empty());
    assert(parts_from(bp@, i as int) =~= Seq::<u64>::empty());
    0
}

/// Comparing a version with itself gives 0.
pub proof fn law_compare_reflexive(a: Seq<u64>)
    ensures
        compare_parts(a, a) == 0,
    decreases a.len(),
{
    if a.len() > 0 {
        law_compare_reflexive(a.drop_first());
    }
}

/// Swapping the arguments negates the comparison.
pub proof fn law_compare_antisymmetric(a: Seq<u64>, b: Seq<u64>)
    ensures
        compare_parts(a, b) == -compare_parts(b, a),
    decreases a.len() + b.len(),
{
    if (a.len() > 0 || b.len() > 0) && head_or_zero(a) == head_or_zero(b) {
        law_compare_antisymmetric(tail_parts(a), tail_parts(b));
    }
}

/// The comparison is transitive: `a > b` and `b > c` give `a > c`.
pub proof fn law_compare_transitive(a: Seq<u64>, b: Seq<u64>, c: Seq<u64>)
    requires
        compare_parts(a, b) == 1,
        compare_parts(b, c) == 1,
    ensures
        compare_parts(a, c) == 1,
    decreases a.len() + b.len() + c.len(),
{
    if head_or_zero(a) == head_or_zero(b) && head_or_zero(b) == head_or_zero(c) {
        if a.len() == 0 && c.len() == 0 {
            law_compare_zeros(tail_parts(b));
            law_compare_antisymmetric(tail_parts(b), Seq::<u64>::empty());
        }
        law_compare_transitive(tail_parts(a), tail_parts(b), tail_parts(c));
    }
}

/// Trailing zero components do not change a version: `1.0` equals `1.0.0`.
pub proof fn law_compare_trailing_zeros(a: Seq<u64>, n: nat)
    ensures
        compare_parts(a, a + Seq::new(n, |i: int| 0u64)) == 0,
    decreases a.len(),
{
    let z = Seq::new(n, |i: int| 0u64);
    if a.len() > 0 {
        assert((a + z).drop_first() =~= a.drop_first() + z);
        assert((a + z)[0] == a[0]);
        assert(tail_parts(a + z) == a.drop_first() + z);
        law_compare_trailing_zeros(a.drop_first(), n);
    } else {
        assert(a + z =~= z);
        assert(a =~= Seq::<u64>::empty());
        assert forall|i: int| 0 <= i < z.len() implies z[i] == 0 by {}
        law_compare_zeros(z);
        law_compare_antisymmetric(a, z);
    }
}

/// The empty version compares with a version of zeros as equal, and as
/// smaller than any other.
proof fn law_compare_zeros(b: Seq<u64>)
    ensures
        (forall|i: int| 0 <= i < b.len() ==> b[i] == 0) ==> compare_parts(b, Seq::<u64>::empty()) == 0,
        compare_parts(b, Seq::<u64>::empty()) >= 0,
    decreases b.len(),
{
    if b.len() > 0 {
        let e = Seq::<u64>::empty();
        assert(tail_parts(e) =~= e);
        law_compare_zeros(b.drop_first());
        if forall|i: int| 0 <= i < b.len() ==> b[i] == 0 {
            assert(b[0] == 0);
            assert forall|i: int| 0 <= i < b.drop_first().len() implies b.drop_first()[i] == 0 by {
                assert(b.drop_first()[i] == b[i + 1]);
            }
        }
    }
}

/// The result for a release tagged `tag_name` at `html_url`: an update is
/// available when the tag (without a leading `v`) is greater than the
/// current version, and only then is the download URL given.
pub open spec fn release_outcome(
    current: Seq<char>,
    tag: Seq<char>,
    html_url: Seq<char>,
    r: UpdateCheckResult,
) -> bool {
    let latest = strip_prefix_spec(tag);
    let available = compare_versions_spec(latest, current) > 0;
    &&& r.current_version@ == current
    &&& r.latest_version@ == latest
    &&& r.update_available == available
    &&& match r.download_url {
        Some(u) => available && u@ == html_url,
        None => !available,
    }
}

/// Compare a release with the current version.
pub fn evaluate_release(current_version: &str, tag_name: &str, html_url: &str) -> (r: UpdateCheckResult)
    ensures
        release_outcome(current_version@, tag_name@, html_url@, r),
{
    let latest_version = strip_version_prefix(tag_name);
    let update_available = compare_versions(latest_version.as_str(), current_version) > 0;
    UpdateCheckResult {
        current_version: current_version.to_owned(),
        latest_version,
        update_available,
        download_url: if update_available {
            Some(html_url.to_owned())
        } else {
            None
        },
    }
}

/// The result when no release information could be had: up to date.
pub fn up_to_date(current_version: &str) -> (r: UpdateCheckResult)
    ensures
        r.current_version@ == current_version@,
        r.latest_version@ == current_version@,
        !r.update_available,
        r.download_url is None,
{
    UpdateCheckResult {
        current_version: current_version.to_owned(),
        latest_version: current_version.to_owned(),
        update_available: false,
        download_url: None,
    }
}

} // verus!
