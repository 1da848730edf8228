//! Temporary page storage: where the page images of a download live, which
//! of them are already cached, and when a download directory is stale.

use vstd::prelude::*;
use std::path::PathBuf;
use crate::paths::{join_path_buf, joined_path};
use crate::text::{
    all_digits, chars_of, decimal, digit_char, digit_value, digits_value, eq_chars, is_digit, parse_u64, push_decimal, sub_chars,
    unsigned_digits,
};

verus! {

broadcast use vstd::seq_lib::group_to_multiset_ensures;

/// Age, in seconds, past which a download directory is stale (24 hours).
pub const STALE_THRESHOLD_SECS: u64 = 86400;

/// Manages the per-download directories of page images under a base
/// directory: `{base_dir}/{download_id}/{page}.webp`.
pub struct TempStorage {
    base_dir: PathBuf,
}

/// What a directory listing tells of one entry: its name when it is valid
/// UTF-8, whether it is a regular file, and its size when it could be read.
#[derive(Debug, Clone)]
pub struct DirEntryInfo {
    pub name: Option<String>,
    pub is_file: bool,
    pub size: Option<u64>,
}

/// `u32::from_str`: an optional `+`, then at least one decimal digit, with a
/// value that fits.
pub open spec fn parse_u32_spec(s: Seq<char>) -> Option<u32> {
    let digits = unsigned_digits(s);
    if digits.len() > 0 && all_digits(digits) && digits_value(digits) <= u32::MAX {
        Some(digits_value(digits) as u32)
    } else {
        None
    }
}

/// `u32::from_str`.
pub fn parse_u32(s: &[char]) -> (r: Option<u32>)
    ensures
        r == parse_u32_spec(s@),
{
    match parse_u64(s) {
        Some(v) => {
            if v <= u32::MAX as u64 {
                Some(v as u32)
            } else {
                None
            }
        },
        None => None,
    }
}

/// Decimal notation reads back as the number it writes: it is a non-empty
/// run of digits, without sign, whose value is the number.
pub proof fn lemma_decimal_reads_back(n: nat)
    ensures
        decimal(n).len() > 0,
        all_digits(decimal(n)),
        digits_value(decimal(n)) == n,
        unsigned_digits(decimal(n)) == decimal(n),
    decreases n,
{
    if n < 10 {
        assert(decimal(n).drop_last() =~= Seq::<char>::empty());
        assert(digits_value(Seq::<char>::empty()) == 0);
        assert(digits_value(decimal(n)) == digits_value(decimal(n).drop_last()) * 10 + digit_value(decimal(n).last()));
        assert(digit_value(digit_char(n)) == n);
    } else {
        lemma_decimal_reads_back(n / 10);
        assert(digit_value(digit_char(n % 10)) == n % 10);
        assert((n / 10) * 10 + n % 10 == n);
        let d = decimal(n / 10);
        let s = decimal(n);
        assert(s.drop_last() =~= d);
        assert(digits_value(s) == digits_value(d) * 10 + digit_value(s.last()));
        assert forall|i: int| 0 <= i < s.len() implies is_digit(#[trigger] s[i]) by {
            if i < d.len() {
                assert(s[i] == d[i]);
            }
        }
        assert(s[0] == d[0]);
    }
}

/// Two numbers with the same decimal notation are equal.
pub proof fn lemma_decimal_injective(a: nat, b: nat)
    requires
        decimal(a) == decimal(b),
    ensures
        a == b,
{
    lemma_decimal_reads_back(a);
    lemma_decimal_reads_back(b);
}

/// The file name of a cached page: `{p}.webp`, `p` in decimal.
pub open spec fn page_file_name_of(p: u32) -> Seq<char> {
    decimal(p as nat) + ".webp"@
}

/// The entry is the cached image of page `p`: a regular file named
/// `{p}.webp` whose size could be read and is not zero.
pub open spec fn is_page_entry(e: DirEntryInfo, p: u32) -> bool {
    &&& e.is_file
    &&& e.name matches Some(name) && name@ == page_file_name_of(p)
    &&& e.size matches Some(s) && s > 0
}

/// The page a directory entry caches, if any.
pub open spec fn cached_page_number(e: DirEntryInfo) -> Option<u32> {
    if exists|p: u32| is_page_entry(e, p) {
        Some(choose|p: u32| is_page_entry(e, p))
    } else {
        None
    }
}

/// Some entry among the first `k` caches page `p`.
pub open spec fn page_listed(entries: Seq<DirEntryInfo>, k: int, p: u32) -> bool {
    exists|i: int| 0 <= i < k && is_page_entry(#[trigger] entries[i], p)
}

pub open spec fn strictly_increasing(s: Seq<u32>) -> bool {
    forall|i: int, j: int| 0 <= i < j < s.len() ==> s[i] < s[j]
}

/// An entry caches at most one page.
pub proof fn lemma_page_entry_unique(e: DirEntryInfo, p: u32, q: u32)
    requires
        is_page_entry(e, p),
        is_page_entry(e, q),
    ensures
        p == q,
{
    let dp = decimal(p as nat);
    let dq = decimal(q as nat);
    assert(page_file_name_of(p) == page_file_name_of(q));
    assert(dp.len() == dq.len());
    assert(dp =~= page_file_name_of(p).take(dp.len() as int));
    assert(dq =~= page_file_name_of(q).take(dq.len() as int));
    lemma_decimal_injective(p as nat, q as nat);
}

/// The page number of one entry, if it is a cached page.
fn entry_page_number(e: &DirEntryInfo) -> (r: Option<u32>)
    ensures
        match r {
            Some(p) => is_page_entry(*e, p),
            None => forall|p: u32| !is_page_entry(*e, p),
        },
        r == cached_page_number(*e),
{
    proof {
        reveal_strlit(".webp");
    }
    let r = match (&e.name, e.size) {
        (Some(name), Some(size)) => {
            if !e.is_file || size == 0 {
                None
            } else {
                let cs = chars_of(name.as_str());
                if cs.len() <= 5 {
                    proof {
                        assert forall|p: u32| !is_page_entry(*e, p) by {
                            lemma_decimal_reads_back(p as nat);
                        }
                    }
                    None
                } else {
                    let stem = sub_chars(cs.as_slice(), 0, cs.len() - 5);
                    match parse_u32(stem.as_slice()) {
                        Some(n) => {
                            let mut t = String::new();
                            push_decimal(&mut t, n as u64);
                            t.append(".webp");
                            if eq_chars(chars_of(t.as_str()).as_slice(), cs.as_slice()) {
                                Some(n)
                            } else {
                                proof {
                                    assert forall|p: u32| !is_page_entry(*e, p) by {
                                        if is_page_entry(*e, p) {
                                            lemma_decimal_reads_back(p as nat);
                                            let d = decimal(p as nat);
                                            assert(stem@ =~= d);
                                        }
                                    }
                                }
                                None
                            }
                        },
                        None => {
                            proof {
                                assert forall|p: u32| !is_page_entry(*e, p) by {
                                    if is_page_entry(*e, p) {
                                        lemma_decimal_reads_back(p as nat);
                                        let d = decimal(p as nat);
                                        assert(stem@ =~= d);
                                    }
                                }
                            }
                            None
                        },
                    }
                }
            }
        },
        _ => None,
    };
    proof {
        match r {
            Some(n) => {
                assert(is_page_entry(*e, n));
                let q = choose|p: u32| is_page_entry(*e, p);
                lemma_page_entry_unique(*e, q, n);
            },
            None => {},
        }
    }
    r
}

impl TempStorage {
    /// The base directory of this storage.
    pub closed spec fn base(&self) -> PathBuf {
        self.base_dir
    }

    /// A storage rooted at the given directory.
    pub fn with_base_dir(base_dir: PathBuf) -> (t: TempStorage)
        ensures
            t.base() == base_dir,
    {
        TempStorage { base_dir }
    }

    /// The base directory of this storage.
    pub fn base_dir(&self) -> (r: &PathBuf)
        ensures
            *r == self.base(),
    {
        &self.base_dir
    }

    /// The file name of a page image: `{page}.webp`.
    pub fn page_file_name(page: u32) -> (r: String)
        ensures
            r@ == decimal(page as nat) + ".webp"@,
    {
        let mut r = String::new();
        push_decimal(&mut r, page as u64);
        r.append(".webp");
        r
    }

    /// The directory of one download: `{base_dir}/{download_id}`.
    pub fn download_dir(&self, download_id: &str) -> (r: PathBuf)
        ensures
            r == joined_path(self.base(), download_id@),
    {
        join_path_buf(&self.base_dir, download_id)
    }

    /// The path of a page image: `{base_dir}/{download_id}/{page}.webp`.
    pub fn page_path(&self, download_id: &str, page: u32) -> (r: PathBuf)
        ensures
            r == joined_path(
                joined_path(self.base(), download_id@),
                decimal(page as nat) + ".webp"@,
            ),
    {
        let dir = self.download_dir(download_id);
        let name = Self::page_file_name(page);
        join_path_buf(&dir, name.as_str())
    }

    /// Whether a page counts as cached, from what is known of its file: it
    /// exists and its size could be read and is not zero.
    pub fn page_exists(exists: bool, size: Option<u64>) -> (b: bool)
        ensures
            b == (exists && (size matches Some(n) && n > 0)),
    {
        match size {
            Some(n) => exists && n > 0,
            None => false,
        }
    }

    /// Whether a download directory of the given age (seconds and
    /// nanoseconds since it was modified, when that could be read) is stale:
    /// strictly older than 24 hours.
    pub fn is_stale(age: Option<(u64, u32)>) -> (b: bool)
        ensures
            b == (age matches Some((s, n)) && (s > STALE_THRESHOLD_SECS || (s
                == STALE_THRESHOLD_SECS && n > 0))),
    {
        match age {
            Some((s, n)) => s > STALE_THRESHOLD_SECS || (s == STALE_THRESHOLD_SECS && n > 0),
            None => false,
        }
    }

    /// The cached page numbers of a download directory, from the entries of
    /// its listing: in strictly increasing order, page `p` exactly when some
    /// entry is the non-empty file `{p}.webp`.
    pub fn cached_pages(entries: &Vec<DirEntryInfo>) -> (r: Vec<u32>)
        ensures
            strictly_increasing(r@),
            forall|p: u32| r@.contains(p) <==> page_listed(entries@, entries@.len() as int, p),
    {
        let mut r: Vec<u32> = Vec::new();
        let mut i: usize = 0;
        while i < entries.len()
            invariant
                i <= entries.len(),
                strictly_increasing(r@),
                forall|p: u32| r@.contains(p) <==> page_listed(entries@, i as int, p),
            decreases entries.len() - i,
        {
            let found = entry_page_number(&entries[i]);
            let ghost before = r@;
            match found {
                Some(n) => {
                    let mut j: usize = 0;
                    while j < r.len() && r[j] < n
                        invariant
                            j <= r.len(),
                            r@ == before,
                            forall|k: int| 0 <= k < j ==> r@[k] < n,
                        decreases r.len() - j,
                    {
                        j += 1;
                    }
                    if j < r.len() && r[j] == n {
                        assert(before[j as int] == n);
                        assert(before.contains(n));
                        assert(forall|p: u32| r@.contains(p) <==> before.contains(p) || p == n);
                    } else {
                        r.insert(j, n);
                        proof {
                            lemma_insert_contains(before, j as int, n);
                            assert(r@ == before.insert(j as int, n));
                            assert(forall|p: u32| r@.contains(p) <==> before.contains(p) || p == n);
                            assert forall|a: int, b: int| 0 <= a < b < r@.len() implies r@[a] < r@[b] by {
                                if b < j {
                                } else if b == j {
                                } else if a < j {
                                    assert(r@[b] == before[b - 1]);
                                    assert(before[j as int] > n);
                                    assert(before[j as int] <= before[b - 1]);
                                } else if a == j {
                                    assert(before[j as int] > n);
                                    assert(before[j as int] <= before[b - 1]);
                                } else {
                                    assert(r@[a] == before[a - 1]);
                                    assert(r@[b] == before[b - 1]);
                                }
                            }
                        }
                    }
                },
                None => {
                    assert(r@ == before);
                },
            }
            assert(forall|p: u32| r@.contains(p) <==> before.contains(p) || found == Some(p));
            proof {
                assert forall|p: u32| r@.contains(p) <==> page_listed(entries@, i + 1, p) by {
                    assert(before.contains(p) <==> page_listed(entries@, i as int, p));
                    let e = entries@[i as int];
                    assert(is_page_entry(e, p) <==> found == Some(p)) by {
                        if is_page_entry(e, p) {
                            if let Some(q) = found {
                                lemma_page_entry_unique(e, p, q);
                            }
                        }
                    }
                    if page_listed(entries@, i + 1, p) {
                        let m = choose|m: int| 0 <= m < i + 1 && is_page_entry(#[trigger] entries@[m], p);
                        if m < i {
                            assert(is_page_entry(entries@[m], p));
                            assert(page_listed(entries@, i as int, p));
                        } else {
                            assert(is_page_entry(e, p));
                        }
                    }
                    if page_listed(entries@, i as int, p) {
                        let m = choose|m: int| 0 <= m < i && is_page_entry(#[trigger] entries@[m], p);
                        assert(is_page_entry(entries@[m], p));
                        assert(page_listed(entries@, i + 1, p));
                    }
                    if is_page_entry(e, p) {
                        assert(is_page_entry(entries@[i as int], p));
                        assert(page_listed(entries@, i + 1, p));
                    }
                }
            }
            i += 1;
        }
        r
    }
}

/// Inserting `n` into a sequence adds `n` to what it contains, and nothing
/// else.
proof fn lemma_insert_contains(s: Seq<u32>, j: int, n: u32)
    requires
        0 <= j <= s.len(),
    ensures
        forall|p: u32| s.insert(j, n).contains(p) <==> s.contains(p) || p == n,
{
    let t = s.insert(j, n);
    assert forall|p: u32| t.contains(p) <==> s.contains(p) || p == n by {
        if t.contains(p) {
            let k = choose|k: int| 0 <= k < t.len() && t[k] == p;
            if k < j {
                assert(s[k] == p);
            } else if k > j {
                assert(s[k - 1] == p);
            }
        }
        if s.contains(p) {
            let k = choose|k: int| 0 <= k < s.len() && s[k] == p;
            if k < j {
                assert(t[k] == p);
            } else {
                assert(t[k + 1] == p);
            }
        }
        if p == n {
            assert(t[j] == n);
        }
    }
}

} // verus!
