//! Runtime reader/writer accounting for one chunk column.
//!
//! One counter stands for the borrow state of a single (chunk, component type)
//! pair: `0` means uncontended, a positive value counts the live shared (read)
//! holders, and `-1` marks one live exclusive (write) holder. Acquisition
//! never blocks: a caller that would conflict is denied on the spot and must
//! itself decide whether to retry.

use vstd::prelude::*;

verus! {

/// The borrow counter of one chunk column.
pub struct BorrowState {
    pub state: i64,
}

/// A shared (read) acquisition succeeds exactly when no writer is live and
/// the reader count has room to grow.
pub open spec fn read_grant(state: int) -> bool {
    0 <= state < i64::MAX
}

/// An exclusive (write) acquisition succeeds exactly when the column is
/// uncontended.
pub open spec fn write_grant(state: int) -> bool {
    state == 0
}

impl View for BorrowState {
    type V = int;

    open spec fn view(&self) -> int {
        self.state as int
    }
}

impl BorrowState {
    /// A counter in a state the protocol can ever produce.
    pub open spec fn wf(&self) -> bool {
        self@ >= -1
    }

    /// A fresh, uncontended counter.
    pub fn new() -> (r: BorrowState)
        ensures
            r@ == 0,
            r.wf(),
    {
        BorrowState { state: 0 }
    }

    /// The current raw counter value.
    pub fn current(&self) -> (r: i64)
        ensures
            r as int == self@,
    {
        self.state
    }

    /// Claim one shared (read) hold. Succeeds, incrementing the counter, iff
    /// no exclusive holder is live; on denial the counter is untouched.
    pub fn acquire_read(&mut self) -> (r: bool)
        ensures
            r == read_grant(old(self)@),
            r ==> final(self)@ == old(self)@ + 1,
            !r ==> final(self)@ == old(self)@,
    {
        if self.state >= 0 && self.state < i64::MAX {
            self.state = self.state + 1;
            true
        } else {
            false
        }
    }

    /// Claim the one exclusive (write) hold. Succeeds, moving the counter to
    /// `-1`, iff neither readers nor a writer are live; on denial the counter
    /// is untouched.
    pub fn acquire_write(&mut self) -> (r: bool)
        ensures
            r == write_grant(old(self)@),
            r ==> final(self)@ == -1,
            !r ==> final(self)@ == old(self)@,
    {
        if self.state == 0 {
            self.state = -1;
            true
        } else {
            false
        }
    }

    /// Give back one shared hold, exactly once per successful `acquire_read`.
    pub fn release_read(&mut self)
        requires
            old(self)@ > 0,
        ensures
            final(self)@ == old(self)@ - 1,
    {
        self.state = self.state - 1;
    }

    /// Give back the exclusive hold, exactly once per successful
    /// `acquire_write`.
    pub fn release_write(&mut self)
        requires
            old(self)@ == -1,
        ensures
            final(self)@ == 0,
    {
        self.state = 0;
    }
}

/// The reader/writer exclusion law. Starting from an uncontended column, `n`
/// read acquisitions all succeed in turn (the `k`-th finds the counter at
/// `k`); while any of those holders is live a write acquisition is denied;
/// while the writer is live every acquisition is denied; and since each
/// successful read moves the counter from `k` to `k + 1` and each release
/// moves it back from `k + 1` to `k`, releasing all `n` holders returns the
/// counter to exactly `0`.
pub proof fn lemma_reader_writer_exclusion(n: int)
    requires
        0 <= n < i64::MAX,
    ensures
        forall|k: int| 0 <= k < n ==> read_grant(k),
        n > 0 ==> !write_grant(n),
        !read_grant(-1),
        !write_grant(-1),
        write_grant(0) && read_grant(0),
{
}

} // verus!
