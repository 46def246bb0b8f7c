//! Counting finished jobs against the planned total.
use vstd::prelude::*;
use crate::text::{append_str, decimal, decimal_string, string_of};

verus! {

/// Progress of a run: how many of `total` jobs have finished.
#[derive(Debug)]
pub struct ProgressReporter {
    pub total: usize,
    pub done: usize,
}

/// The progress line `[done/total] processed`.
pub open spec fn progress_line(done: nat, total: nat) -> Seq<char> {
    "["@ + decimal(done) + "/"@ + decimal(total) + "] processed"@
}

impl ProgressReporter {
    pub fn new(total: usize) -> (r: ProgressReporter)
        ensures
            r.total == total,
            r.done == 0,
    {
        ProgressReporter { total, done: 0 }
    }

    /// Records one finished job (whatever its outcome) and returns the
    /// progress line to show.
    pub fn finish_job(&mut self) -> (line: String)
        requires
            old(self).done < usize::MAX,
        ensures
            final(self).total == old(self).total,
            final(self).done == old(self).done + 1,
            line@ == progress_line(final(self).done as nat, final(self).total as nat),
    {
        self.done = self.done + 1;
        let mut line = string_of("[");
        append_str(&mut line, decimal_string(self.done).as_str());
        append_str(&mut line, "/");
        append_str(&mut line, decimal_string(self.total).as_str());
        append_str(&mut line, "] processed");
        line
    }
}

} // verus!
