//! Finding a document's page count by asking whether single pages exist:
//! doubling the page number until a page is missing (the doubling stops at
//! the first page past the limit), then binary search between the last page
//! found and the first page missing.
//!
//! The caller performs each request and feeds back whether it succeeded.

use vstd::prelude::*;
use crate::error::{AppError, ErrorKind};

verus! {

/// The largest page count the probe reports; the page after it is asked
/// only to tell that a document is larger.
pub const PROBE_LIMIT: u32 = 10000;

/// Where the search stands.
#[derive(Debug, Clone, Copy, PartialEq, Eq, Structural)]
pub enum ProbeState {
    /// Page `probe` is being asked; `last_ok` is the last page found.
    Doubling { last_ok: u32, probe: u32 },
    /// Page `(lo + hi) / 2` is being asked; the count lies in
    /// `last_ok..=hi`.
    Searching { last_ok: u32, lo: u32, hi: u32 },
}

/// What to do next.
#[derive(Debug)]
pub enum ProbeStep {
    /// Ask whether `page` exists, then continue from `state`.
    Ask { page: u32, state: ProbeState },
    /// The page count.
    Found(u32),
    /// The search failed.
    Failed(AppError),
}

pub ghost enum StepView {
    Ask(u32, ProbeState),
    Found(u32),
    Failed(ErrorKind, Seq<char>),
}

pub open spec fn step_view(s: ProbeStep) -> StepView {
    match s {
        ProbeStep::Ask { page, state } => StepView::Ask(page, state),
        ProbeStep::Found(n) => StepView::Found(n),
        ProbeStep::Failed(e) => StepView::Failed(e.kind(), e.detail()),
    }
}

/// The states the search can be in.
pub open spec fn probe_wf(s: ProbeState) -> bool {
    match s {
        ProbeState::Doubling { last_ok, probe } => 1 <= probe <= PROBE_LIMIT + 1 && last_ok < probe,
        ProbeState::Searching { last_ok, lo, hi } => 1 <= lo <= hi <= PROBE_LIMIT && last_ok < lo,
    }
}

/// The page asked in a state.
pub open spec fn asked_page(s: ProbeState) -> u32 {
    match s {
        ProbeState::Doubling { probe, .. } => probe,
        ProbeState::Searching { lo, hi, .. } => ((lo + hi) / 2) as u32,
    }
}

/// The page asked after `probe` while doubling: twice it, but never beyond
/// the first page past the limit.
pub open spec fn doubled(probe: u32) -> u32 {
    if probe * 2 > PROBE_LIMIT {
        (PROBE_LIMIT + 1) as u32
    } else {
        (probe * 2) as u32
    }
}

/// The step after learning whether the asked page exists.
pub open spec fn next_spec(s: ProbeState, ok: bool) -> StepView {
    match s {
        ProbeState::Doubling { last_ok, probe } => if ok {
            if probe > PROBE_LIMIT {
                StepView::Failed(ErrorKind::MetadataError, "Document has more than 10000 pages"@)
            } else {
                StepView::Ask(doubled(probe), ProbeState::Doubling { last_ok: probe, probe: doubled(probe) })
            }
        } else if last_ok == 0 {
            StepView::Failed(ErrorKind::MetadataError, "No pages found for document"@)
        } else if probe > last_ok + 1 {
            let lo = (last_ok + 1) as u32;
            let hi = (probe - 1) as u32;
            StepView::Ask(((lo + hi) / 2) as u32, ProbeState::Searching { last_ok, lo, hi })
        } else {
            StepView::Found(last_ok)
        },
        ProbeState::Searching { last_ok, lo, hi } => {
            let mid = ((lo + hi) / 2) as u32;
            let (l2, lo2, hi2) = if ok {
                (mid, (mid + 1) as u32, hi)
            } else {
                (last_ok, lo, (mid - 1) as u32)
            };
            if lo2 <= hi2 {
                StepView::Ask(
                    ((lo2 + hi2) / 2) as u32,
                    ProbeState::Searching { last_ok: l2, lo: lo2, hi: hi2 },
                )
            } else {
                StepView::Found(l2)
            }
        },
    }
}

/// The first step: ask for page 1.
pub fn probe_start() -> (s: ProbeStep)
    ensures
        step_view(s) == StepView::Ask(1, ProbeState::Doubling { last_ok: 0, probe: 1 }),
{
    ProbeStep::Ask { page: 1, state: ProbeState::Doubling { last_ok: 0, probe: 1 } }
}

/// The step after learning whether the page asked in `state` exists.
pub fn probe_next(state: ProbeState, ok: bool) -> (s: ProbeStep)
    requires
        probe_wf(state),
    ensures
        step_view(s) == next_spec(state, ok),
        s matches ProbeStep::Ask { page, state: st } ==> probe_wf(st) && page == asked_page(st),
{
    match state {
        ProbeState::Doubling { last_ok, probe } => {
            if ok {
                if probe > PROBE_LIMIT {
                    return ProbeStep::Failed(AppError::metadata("Document has more than 10000 pages"));
                }
                let p2 = if probe * 2 > PROBE_LIMIT {
                    PROBE_LIMIT + 1
                } else {
                    probe * 2
                };
                ProbeStep::Ask { page: p2, state: ProbeState::Doubling { last_ok: probe, probe: p2 } }
            } else if last_ok == 0 {
                ProbeStep::Failed(AppError::metadata("No pages found for document"))
            } else if probe > last_ok + 1 {
                let lo = last_ok + 1;
                let hi = probe - 1;
                ProbeStep::Ask { page: (lo + hi) / 2, state: ProbeState::Searching { last_ok, lo, hi } }
            } else {
                ProbeStep::Found(last_ok)
            }
        },
        ProbeState::Searching { last_ok, lo, hi } => {
            let mid = (lo + hi) / 2;
            let (l2, lo2, hi2) = if ok {
                (mid, mid + 1, hi)
            } else {
                (last_ok, lo, mid - 1)
            };
            if lo2 <= hi2 {
                ProbeStep::Ask {
                    page: (lo2 + hi2) / 2,
                    state: ProbeState::Searching { last_ok: l2, lo: lo2, hi: hi2 },
                }
            } else {
                ProbeStep::Found(l2)
            }
        },
    }
}

/// What the search knows, for a document of `n` pages: pages up to
/// `last_ok` exist, and the count is within reach.
pub open spec fn probe_inv(n: nat, s: ProbeState) -> bool {
    &&& probe_wf(s)
    &&& match s {
        ProbeState::Doubling { last_ok, probe } => last_ok <= n && is_doubling_page(probe) && (
        last_ok == 0 ==> probe == 1) && (last_ok > 0 ==> probe == doubled(last_ok)),
        ProbeState::Searching { last_ok, lo, hi } => lo == last_ok + 1 && last_ok <= n <= hi,
    }
}

/// The pages asked while doubling: 1, 2, 4, ..., 8192, then 10001.
pub open spec fn is_doubling_page(p: u32) -> bool {
    p == 1 || p == 2 || p == 4 || p == 8 || p == 16 || p == 32 || p == 64 || p == 128 || p == 256
        || p == 512 || p == 1024 || p == 2048 || p == 4096 || p == 8192 || p == PROBE_LIMIT + 1
}

/// A measure that every step decreases.
pub open spec fn probe_measure(s: ProbeState) -> nat {
    match s {
        ProbeState::Doubling { probe, .. } => (40000 - probe) as nat,
        ProbeState::Searching { lo, hi, .. } => (hi + 1 - lo) as nat,
    }
}

/// Probing a document of `n` pages (`1 <= n <= 10000`) with truthful answers
/// (page `p` exists exactly when `p <= n`) never fails: each step either
/// ends with the count `n` or asks again from a state that still brackets
/// `n` and is strictly closer to the end. The search starts in such a state.
pub proof fn law_probe_finds_page_count(n: nat, s: ProbeState)
    requires
        1 <= n <= PROBE_LIMIT,
        probe_inv(n, s),
    ensures
        probe_inv(n, ProbeState::Doubling { last_ok: 0, probe: 1 }),
        match next_spec(s, asked_page(s) <= n) {
            StepView::Found(c) => c == n,
            StepView::Ask(p, t) => probe_inv(n, t) && p == asked_page(t) && probe_measure(t)
                < probe_measure(s),
            StepView::Failed(_, _) => false,
        },
{
}

/// Probing a document with no pages fails with "No pages found".
pub proof fn law_probe_no_pages()
    ensures
        next_spec(ProbeState::Doubling { last_ok: 0, probe: 1 }, false) == StepView::Failed(
            ErrorKind::MetadataError,
            "No pages found for document"@,
        ),
{
}

/// Probing a document of more than 10000 pages never ends with a count:
/// every page asked exists, the search keeps doubling up to page 10001, and
/// it stops with "Document has more than 10000 pages".
pub proof fn law_probe_large_document_refused(n: nat, s: ProbeState)
    requires
        n > PROBE_LIMIT,
        probe_inv(n, s),
        s is Doubling,
    ensures
        asked_page(s) <= n,
        match next_spec(s, true) {
            StepView::Ask(p, t) => t is Doubling && probe_inv(n, t) && p == asked_page(t)
                && probe_measure(t) < probe_measure(s),
            StepView::Failed(k, m) => k == ErrorKind::MetadataError && m == "Document has more than 10000 pages"@,
            StepView::Found(_) => false,
        },
{
}

} // verus!
