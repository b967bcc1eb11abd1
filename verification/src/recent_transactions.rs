//! The bounded recent-transaction cache.
//!
//! A capacity-bounded, insertion-ordered record of the most recently applied
//! transfers, kept for read APIs. Entries are stamped with the pipeline's
//! clock at apply time; once the fixed capacity is reached, each insertion
//! evicts the single oldest entry (strict FIFO eviction).

use std::collections::VecDeque;
use vstd::prelude::*;
use crate::{FullTransaction, Identity, ThinTransaction};

verus! {

/// Error type of the cache interface. The store here is plain and in place,
/// so an insertion never actually fails: `put` promises `Ok` and no function
/// of this library ever produces the variant below.
#[derive(Clone, Copy, Debug, PartialEq, Eq, Structural)]
pub enum Error {
    /// The backing store could not take the entry.
    Unavailable,
}

/// Capacity used by [`RecentTransactions::new`].
pub const DEFAULT_CAPACITY: usize = 100;

/// The entries a capacity-`c` window retains out of the full insertion
/// history `s`: all of them while they fit, else exactly the last `c`,
/// oldest first.
pub open spec fn retained(s: Seq<FullTransaction>, c: int) -> Seq<FullTransaction> {
    if s.len() <= c {
        s
    } else {
        s.skip(s.len() - c)
    }
}

/// Law: bounded FIFO retention composes. Feeding entries one at a time
/// through the window keeps exactly what one pass over the whole history
/// would keep — so after any number of insertions the cache holds exactly
/// the last `c` entries of the history, in insertion order.
pub proof fn lemma_retained_compose(s: Seq<FullTransaction>, tx: FullTransaction, c: int)
    requires
        c >= 1,
    ensures
        retained(retained(s, c).push(tx), c) == retained(s.push(tx), c),
{
    if s.len() > c {
        assert(retained(s, c).push(tx).skip(1) =~= s.push(tx).skip(s.len() + 1 - c));
    }
}

/// Law: what a capacity-`c` window retains out of a history is exactly the
/// last `min(len, c)` entries of that history, in insertion order.
pub proof fn lemma_retained_is_suffix(s: Seq<FullTransaction>, c: int)
    requires
        c >= 1,
    ensures
        retained(s, c).len() == if s.len() <= c { s.len() as int } else { c },
        forall|i: int| 0 <= i < retained(s, c).len()
            ==> retained(s, c)[i] == s[s.len() - retained(s, c).len() + i],
{
}

/// The recent-transaction cache: the retained entries, oldest first.
pub struct RecentTransactions {
    entries: VecDeque<FullTransaction>,
    capacity: usize,
}

impl View for RecentTransactions {
    type V = Seq<FullTransaction>;

    closed spec fn view(&self) -> Seq<FullTransaction> {
        self.entries@
    }
}

/// Relies on chrono::Utc::now (a system-clock reading, as UTC) and on
/// chrono::DateTime::timestamp_millis (that reading as non-leap milliseconds
/// since the Unix epoch). The value depends on the wall clock, so nothing is
/// assumed of it. chrono panics on a system clock set before the Unix epoch;
/// no input of ours can avoid or provoke that.
#[verifier::external_body]
fn now_millis() -> i64 {
    chrono::Utc::now().timestamp_millis()
}

impl RecentTransactions {
    /// Well-formed cache: a positive capacity that the retained entries
    /// never exceed.
    pub closed spec fn wf(&self) -> bool {
        &&& self.capacity >= 1
        &&& self.entries@.len() <= self.capacity
    }

    /// The fixed capacity the cache was created with.
    pub closed spec fn cap(&self) -> int {
        self.capacity as int
    }

    /// An empty cache with the default capacity.
    pub fn new() -> (r: Self)
        ensures
            r.wf(),
            r@ == Seq::<FullTransaction>::empty(),
            r.cap() == DEFAULT_CAPACITY,
    {
        Self::with_capacity(DEFAULT_CAPACITY)
    }

    /// An empty cache that will retain at most `capacity` entries.
    pub fn with_capacity(capacity: usize) -> (r: Self)
        requires
            capacity >= 1,
        ensures
            r.wf(),
            r@ == Seq::<FullTransaction>::empty(),
            r.cap() == capacity,
    {
        RecentTransactions { entries: VecDeque::new(), capacity }
    }

    /// Append one already-stamped entry, evicting the single oldest entry
    /// first when the cache is at capacity.
    pub fn push_entry(&mut self, tx: FullTransaction)
        requires
            old(self).wf(),
        ensures
            final(self).wf(),
            final(self).cap() == old(self).cap(),
            final(self)@ == retained(old(self)@.push(tx), old(self).cap()),
    {
        if self.entries.len() == self.capacity {
            self.entries.pop_front();
        }
        self.entries.push_back(tx);
        proof {
            if old(self)@.len() == old(self).cap() {
                assert(old(self)@.skip(1).push(tx) =~= old(self)@.push(tx).skip(1));
            }
        }
    }

    /// Record one applied transfer, stamped with the current time. Never
    /// rejects on content grounds; with this in-place store it never fails
    /// at all.
    pub fn put(&mut self, sender: &Identity, transaction: &ThinTransaction) -> (r: Result<
        (),
        Error,
    >)
        requires
            old(self).wf(),
        ensures
            final(self).wf(),
            final(self).cap() == old(self).cap(),
            r matches Ok(_),
            exists|t: i64|
                final(self)@ == retained(
                    old(self)@.push(
                        (FullTransaction {
                            timestamp: t,
                            sender: *sender,
                            recipient: transaction.recipient,
                            amount: transaction.amount,
                        }),
                    ),
                    old(self).cap(),
                ),
    {
        let t = now_millis();
        let tx = FullTransaction {
            timestamp: t,
            sender: *sender,
            recipient: transaction.recipient,
            amount: transaction.amount,
        };
        self.push_entry(tx);
        proof {
            assert(self@ == retained(
                old(self)@.push(
                    (FullTransaction {
                        timestamp: t,
                        sender: *sender,
                        recipient: transaction.recipient,
                        amount: transaction.amount,
                    }),
                ),
                old(self).cap(),
            ));
        }
        Ok(())
    }

    /// The retained entries, oldest to most recently inserted.
    pub fn get_all(&self) -> (r: Vec<FullTransaction>)
        ensures
            r@ == self@,
    {
        let mut out: Vec<FullTransaction> = Vec::new();
        let mut i: usize = 0;
        while i < self.entries.len()
            invariant
                i <= self.entries@.len(),
                out@ == self.entries@.take(i as int),
            decreases self.entries@.len() - i,
        {
            let e = self.entries[i];
            out.push(e);
            proof {
                assert(out@ =~= self.entries@.take(i + 1));
            }
            i = i + 1;
        }
        proof {
            assert(out@ =~= self.entries@);
        }
        out
    }
}

} // verus!
