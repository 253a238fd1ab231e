//! Background-analysis bookkeeping: what one request carries, suppression
//! of duplicate in-flight pages, and the bounded lookahead queue.  The
//! thread and channel plumbing belong to the host program.

use vstd::prelude::*;
use crate::blocks::PageAnalysis;

verus! {

/// Everything one page analysis needs: the rendered pixels and the page
/// and bitmap dimensions.
pub struct AnalysisInput {
    pub rgb: Vec<u8>,
    pub bitmap_w: usize,
    pub bitmap_h: usize,
    pub page_w: i64,
    pub page_h: i64,
}

/// One queued analysis request.
pub struct AnalysisRequest {
    pub page: i32,
    pub input: AnalysisInput,
}

/// One finished analysis.
pub struct AnalysisResult {
    pub page: i32,
    pub analysis: PageAnalysis,
}

/// The pages whose analyses have been submitted but not yet returned.
/// At most one request per page is ever in flight.
pub struct InFlightSet {
    pub pages: Vec<i32>,
}

impl InFlightSet {
    /// No duplicate page numbers.
    pub open spec fn wf(self) -> bool {
        forall|k1: int, k2: int| 0 <= k1 < k2 < self.pages@.len()
            ==> #[trigger] self.pages@[k1] != #[trigger] self.pages@[k2]
    }

    pub fn new() -> (r: InFlightSet)
        ensures
            r.wf(),
            r.pages@.len() == 0,
    {
        InFlightSet { pages: Vec::new() }
    }

    /// Whether an analysis of `page` is in flight.
    pub fn is_in_flight(&self, page: i32) -> (r: bool)
        ensures
            r == self.pages@.contains(page),
    {
        let mut k: usize = 0;
        while k < self.pages.len()
            invariant
                k <= self.pages@.len(),
                forall|t: int| 0 <= t < k ==> #[trigger] self.pages@[t] != page,
            decreases self.pages@.len() - k,
        {
            if self.pages[k] == page {
                proof {
                    assert(self.pages@.contains(page));
                }
                return true;
            }
            k = k + 1;
        }
        false
    }

    /// Whether no request is pending.
    pub fn is_idle(&self) -> (r: bool)
        ensures
            r == (self.pages@.len() == 0),
    {
        self.pages.is_empty()
    }

    /// Marks `page` as submitted; refuses a duplicate submission for a
    /// page already in flight.
    pub fn submit(&mut self, page: i32) -> (accepted: bool)
        requires
            old(self).wf(),
        ensures
            final(self).wf(),
            accepted == !old(self).pages@.contains(page),
            !accepted ==> *final(self) == *old(self),
            accepted ==> final(self).pages@ == old(self).pages@.push(page),
            final(self).pages@.contains(page),
    {
        if self.is_in_flight(page) {
            return false;
        }
        let ghost before = self.pages@;
        self.pages.push(page);
        proof {
            assert(self.pages@[self.pages@.len() - 1] == page);
            assert forall|k1: int, k2: int| 0 <= k1 < k2 < self.pages@.len()
                implies #[trigger] self.pages@[k1] != #[trigger] self.pages@[k2] by {
                if k2 == self.pages@.len() - 1 {
                    assert(before[k1] == self.pages@[k1]);
                    assert(before.contains(self.pages@[k1]) == false || before[k1] != page);
                    if self.pages@[k1] == page {
                        assert(before.contains(page));
                    }
                }
            }
        }
        true
    }

    /// Marks `page`'s analysis as arrived.
    pub fn complete(&mut self, page: i32)
        requires
            old(self).wf(),
        ensures
            final(self).wf(),
            !final(self).pages@.contains(page),
            forall|p: i32| p != page
                ==> final(self).pages@.contains(p) == old(self).pages@.contains(p),
    {
        let mut out: Vec<i32> = Vec::new();
        let mut k: usize = 0;
        while k < self.pages.len()
            invariant
                old(self) == self,
                self.wf(),
                k <= self.pages@.len(),
                forall|t: int| 0 <= t < out@.len()
                    ==> #[trigger] out@[t] != page && self.pages@.contains(out@[t]),
                forall|t: int| 0 <= t < k && self.pages@[t] != page
                    ==> out@.contains(#[trigger] self.pages@[t]),
                forall|t1: int, t2: int| 0 <= t1 < t2 < out@.len()
                    ==> #[trigger] out@[t1] != #[trigger] out@[t2],
            decreases self.pages@.len() - k,
        {
            let p = self.pages[k];
            if p != page {
                let ghost before = out@;
                if !vec_contains_i32(&out, p) {
                    out.push(p);
                    proof {
                        assert(out@[out@.len() - 1] == p);
                        assert(self.pages@.contains(p)) by {
                            assert(self.pages@[k as int] == p);
                        }
                        assert forall|t: int| 0 <= t < k + 1 && self.pages@[t] != page
                            implies out@.contains(#[trigger] self.pages@[t]) by {
                            if t < k {
                                let w = choose|w: int| 0 <= w < before.len()
                                    && before[w] == self.pages@[t];
                                assert(out@[w] == self.pages@[t]);
                            } else {
                                assert(out@[out@.len() - 1] == self.pages@[t]);
                            }
                        }
                    }
                } else {
                    proof {
                        assert forall|t: int| 0 <= t < k + 1 && self.pages@[t] != page
                            implies out@.contains(#[trigger] self.pages@[t]) by {
                        }
                    }
                }
            }
            k = k + 1;
        }
        self.pages = out;
    }
}

/// Whether a vector holds a value.
fn vec_contains_i32(v: &Vec<i32>, x: i32) -> (r: bool)
    ensures
        r == v@.contains(x),
{
    let mut k: usize = 0;
    while k < v.len()
        invariant
            k <= v@.len(),
            forall|t: int| 0 <= t < k ==> #[trigger] v@[t] != x,
        decreases v@.len() - k,
    {
        if v[k] == x {
            proof {
                assert(v@.contains(x));
            }
            return true;
        }
        k = k + 1;
    }
    false
}

/// What the page controller should do with an analysis request for the
/// current page.
#[derive(Debug, Clone, Copy, PartialEq, Eq, Structural)]
pub enum SubmitAction {
    /// The page's analysis is cached: re-seed the navigator from the cache.
    UseCache,
    /// No detection backend is loaded: build and cache the fallback layout.
    UseFallback,
    /// The page is already being analyzed: keep the pending-setup flag.
    WaitPending,
    /// Submit a fresh request and set the pending-setup flag.
    Submit,
}

/// Decides how to satisfy an analysis request: the cache wins, a missing
/// backend falls back, a page already in flight is awaited rather than
/// re-submitted, and only then is a fresh request sent.
pub fn submit_decision(cached: bool, worker_present: bool, in_flight: bool) -> (r: SubmitAction)
    ensures
        r == (if cached {
            SubmitAction::UseCache
        } else if !worker_present {
            SubmitAction::UseFallback
        } else if in_flight {
            SubmitAction::WaitPending
        } else {
            SubmitAction::Submit
        }),
{
    if cached {
        SubmitAction::UseCache
    } else if !worker_present {
        SubmitAction::UseFallback
    } else if in_flight {
        SubmitAction::WaitPending
    } else {
        SubmitAction::Submit
    }
}

/// Decides whether an arrived analysis applies to live navigation: only
/// when its page is still the current one and the pending-setup flag is
/// still set.  (The caller caches the result by page number either way,
/// and clears the flag on arrival.)
pub fn apply_arrival(current_page: i32, pending: bool, page: i32) -> (apply: bool)
    ensures
        apply == (pending && page == current_page),
{
    pending && page == current_page
}

/// The pages worth analyzing ahead of `current`, in reading order:
/// `current + 1 .. current + lookahead`, kept when they exist and are not
/// cached yet.
pub open spec fn spec_lookahead(current: i32, page_count: i32, lookahead: int, cached: Seq<i32>, i: int, acc: Seq<i32>) -> Seq<i32>
    decreases lookahead + 1 - i,
{
    if i > lookahead || current + i > i32::MAX || i <= 0 {
        acc
    } else {
        let page = (current + i) as i32;
        let acc2 = if page < page_count && !cached.contains(page) {
            acc.push(page)
        } else {
            acc
        };
        spec_lookahead(current, page_count, lookahead, cached, i + 1, acc2)
    }
}

/// Queues the next `lookahead` pages after `current` that exist and are
/// not cached, in order.
pub fn queue_lookahead(current: i32, page_count: i32, lookahead: usize, cached: &Vec<i32>) -> (r: Vec<i32>)
    requires
        lookahead <= 1000,
    ensures
        r@ == spec_lookahead(current, page_count, lookahead as int, cached@, 1, Seq::empty()),
{
    let mut out: Vec<i32> = Vec::new();
    let mut i: usize = 1;
    while i <= lookahead
        invariant
            1 <= i <= lookahead + 1,
            lookahead <= 1000,
            spec_lookahead(current, page_count, lookahead as int, cached@, 1, Seq::empty())
                == spec_lookahead(current, page_count, lookahead as int, cached@, i as int, out@),
        decreases lookahead + 1 - i,
    {
        if current <= i32::MAX - (i as i32) {
            let page = current + (i as i32);
            if page < page_count && !vec_contains_i32(cached, page) {
                out.push(page);
            }
        } else {
            proof {
                assert(current as int + i as int > i32::MAX);
            }
        }
        i = i + 1;
    }
    out
}

} // verus!
