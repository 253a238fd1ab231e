//! Bookkeeping for the cache-cleanup pass.  Walking the file system is the
//! host program's job; the report and its arithmetic live here.

use vstd::prelude::*;

verus! {

/// Tally of a cleanup pass: how many files were removed and how many
/// bytes they freed.
#[derive(Clone, Copy, Debug)]
pub struct CleanupReport {
    pub files_removed: usize,
    pub bytes_freed: u64,
}

/// Tenths of binary kilobytes: `bytes * 10 / 1024` exactly.
pub open spec fn spec_kb_tenths(bytes: u64) -> int {
    bytes * 10 / 1024
}

impl CleanupReport {
    /// An empty report.
    pub fn new() -> (r: CleanupReport)
        ensures
            r.files_removed == 0,
            r.bytes_freed == 0,
    {
        CleanupReport { files_removed: 0, bytes_freed: 0 }
    }

    /// Accounts one removed file of the given size.
    pub fn record_removed(&mut self, size: u64)
        requires
            old(self).files_removed < usize::MAX,
            old(self).bytes_freed + size <= u64::MAX,
        ensures
            final(self).files_removed == old(self).files_removed + 1,
            final(self).bytes_freed == old(self).bytes_freed + size,
    {
        self.files_removed = self.files_removed + 1;
        self.bytes_freed = self.bytes_freed + size;
    }

    /// The freed space in tenths of kilobytes, for display as `X.Y KB`.
    pub fn kb_tenths(&self) -> (r: u64)
        ensures
            r == spec_kb_tenths(self.bytes_freed),
    {
        let q = self.bytes_freed / 1024;
        let rem = self.bytes_freed % 1024;
        proof {
            vstd::arithmetic::div_mod::lemma_fundamental_div_mod(self.bytes_freed as int, 1024);
            vstd::arithmetic::div_mod::lemma_mod_division_less_than_divisor(self.bytes_freed as int, 1024);
            vstd::arithmetic::div_mod::lemma_hoist_over_denominator(
                rem as int * 10, q as int * 10, 1024nat);
            assert(rem * 10 / 1024 + q * 10 == (rem * 10 + q * 10 * 1024) / 1024);
            assert(rem * 10 + q * 10 * 1024 == self.bytes_freed * 10) by (nonlinear_arith)
                requires
                    self.bytes_freed == 1024 * q + rem,
            ;
        }
        q * 10 + rem * 10 / 1024
    }

    /// One line describing the pass: nothing to report, or the verified
    /// file count and freed space in tenths of kilobytes.
    pub fn summary(&self) -> (r: String)
        ensures
            self.files_removed == 0 ==> r@ == "Nothing to clean up."@,
    {
        if self.files_removed == 0 {
            "Nothing to clean up.".to_owned()
        } else {
            let tenths = self.kb_tenths();
            render_summary(self.files_removed, tenths / 10, tenths % 10)
        }
    }
}

/// Relies on the format macro of std to render the three verified numbers
/// as `Removed N file(s), freed X.Y KB.`.
#[verifier::external_body]
fn render_summary(files: usize, kb_whole: u64, kb_tenth: u64) -> String {
    format!("Removed {} file(s), freed {}.{} KB.", files, kb_whole, kb_tenth)
}

} // verus!
