//! The delivery pipeline.
//!
//! Owns one account ledger and one recent-transaction cache, and applies the
//! payloads the broadcast layer delivers — in delivery order, one batch at a
//! time. A rejected payload is skipped: no retry, no rollback, no requeueing.
//! The caller runs the waiting (network, channel) side and hands each outcome
//! in as a [`DeliverEvent`]; the loop stops exactly when the delivery channel
//! is permanently closed.
//!
//! The broadcast layer guarantees per-sender FIFO delivery, which is exactly
//! what the ledger's next-sequence check needs in order to converge; no order
//! is guaranteed between different senders' payloads.

use vstd::prelude::*;
use crate::accounts;
use crate::accounts::{Account, Accounts};
use crate::recent_transactions;
use crate::recent_transactions::RecentTransactions;
use crate::{FullTransaction, Identity, ThinTransaction, TransferPayload};

verus! {

/// Why the pipeline skipped one delivered payload.
#[allow(inconsistent_fields)]
#[derive(Clone, Copy, Debug, PartialEq, Eq)]
pub enum ProcessTransactionError {
    /// The ledger rejected the transfer.
    ProcessTxForAccounts { source: accounts::Error },
    /// The cache refused the entry (never produced by this implementation).
    ProcessTxForRecent { source: recent_transactions::Error },
}

/// Ghost model of the pipeline's state: the ledger mapping and the cache's
/// retained window.
pub struct PipelineState {
    pub ledger: Map<Seq<u8>, Account>,
    pub cache: Seq<FullTransaction>,
}

/// The cache entry recording `p`, stamped `t`.
pub open spec fn full_tx_of(p: TransferPayload, t: i64) -> FullTransaction {
    FullTransaction { timestamp: t, sender: p.sender, recipient: p.recipient, amount: p.amount }
}

/// One delivered payload's effect on the pipeline state: an accepted
/// transfer updates the ledger and enters the cache stamped `t`; a rejected
/// one changes nothing.
pub open spec fn step(v: PipelineState, p: TransferPayload, t: i64, c: int) -> PipelineState {
    if accounts::transfer_allowed(v.ledger, p.sender@, p.sequence, p.amount) {
        PipelineState {
            ledger: accounts::apply_transfer(v.ledger, p.sender@, p.sequence, p.recipient@, p.amount),
            cache: recent_transactions::retained(v.cache.push(full_tx_of(p, t)), c),
        }
    } else {
        v
    }
}

/// A whole batch's effect, payload by payload in delivery order, stamped
/// with the timestamps `ts`.
pub open spec fn run(v: PipelineState, b: Seq<TransferPayload>, ts: Seq<i64>, c: int) -> PipelineState
    decreases b.len(),
{
    if b.len() == 0 {
        v
    } else {
        run(step(v, b[0], ts[0], c), b.drop_first(), ts.drop_first(), c)
    }
}

proof fn lemma_run_snoc(
    v: PipelineState,
    b: Seq<TransferPayload>,
    ts: Seq<i64>,
    c: int,
    p: TransferPayload,
    t: i64,
)
    requires
        b.len() == ts.len(),
    ensures
        run(v, b.push(p), ts.push(t), c) == step(run(v, b, ts, c), p, t, c),
    decreases b.len(),
{
    if b.len() == 0 {
        assert(b.push(p)[0] == p);
        assert(b.push(p).drop_first() =~= Seq::<TransferPayload>::empty());
        assert(ts.push(t).drop_first() =~= Seq::<i64>::empty());
        assert(run(v, b.push(p), ts.push(t), c) == run(
            step(v, p, t, c),
            Seq::<TransferPayload>::empty(),
            Seq::<i64>::empty(),
            c,
        ));
        assert(run(step(v, p, t, c), Seq::<TransferPayload>::empty(), Seq::<i64>::empty(), c)
            == step(v, p, t, c));
        assert(run(v, b, ts, c) == v);
    } else {
        assert(b.push(p)[0] == b[0]);
        assert(ts.push(t)[0] == ts[0]);
        assert(b.push(p).drop_first() =~= b.drop_first().push(p));
        assert(ts.push(t).drop_first() =~= ts.drop_first().push(t));
        assert(run(v, b.push(p), ts.push(t), c) == run(
            step(v, b[0], ts[0], c),
            b.drop_first().push(p),
            ts.drop_first().push(t),
            c,
        ));
        lemma_run_snoc(step(v, b[0], ts[0], c), b.drop_first(), ts.drop_first(), c, p, t);
        assert(run(v, b, ts, c) == run(step(v, b[0], ts[0], c), b.drop_first(), ts.drop_first(), c));
    }
}

/// One outcome of waiting on the broadcast layer's delivery channel.
pub enum DeliverEvent {
    /// The channel is permanently closed: the loop's sole exit condition.
    ChannelClosed,
    /// A transient delivery error: logged by the caller, the loop goes on.
    DeliverFailed,
    /// A quorum-agreed batch of payloads, in delivery order.
    Delivered(Vec<TransferPayload>),
}

/// The delivery pipeline: one ledger, one cache, and the decisions of the
/// loop that couples them to the broadcast layer.
pub struct Pipeline {
    accounts: Accounts,
    recent_transactions: RecentTransactions,
}

impl Pipeline {
    /// Both stores are well formed.
    pub closed spec fn wf(&self) -> bool {
        &&& self.accounts.wf()
        &&& self.recent_transactions.wf()
    }

    /// The ledger's current mapping.
    pub closed spec fn ledger(&self) -> Map<Seq<u8>, Account> {
        self.accounts@
    }

    /// The cache's retained entries, oldest first.
    pub closed spec fn cache(&self) -> Seq<FullTransaction> {
        self.recent_transactions@
    }

    /// The cache's fixed capacity.
    pub closed spec fn cap(&self) -> int {
        self.recent_transactions.cap()
    }

    /// The ledger's balance total, conserved by everything the pipeline does.
    pub closed spec fn total(&self) -> int {
        self.accounts.total()
    }

    /// Ledger and cache together, as one ghost state.
    pub open spec fn state(&self) -> PipelineState {
        PipelineState { ledger: self.ledger(), cache: self.cache() }
    }

    /// A pipeline over a freshly created ledger and cache.
    pub fn new() -> (r: Self)
        ensures
            r.wf(),
            r.ledger() == Map::<Seq<u8>, Account>::empty(),
            r.cache() == Seq::<FullTransaction>::empty(),
            r.cap() == recent_transactions::DEFAULT_CAPACITY,
            r.total() == 0,
    {
        Pipeline { accounts: Accounts::new(), recent_transactions: RecentTransactions::new() }
    }

    /// A pipeline over stores built elsewhere — the construction hook through
    /// which a seeded ledger enters.
    pub fn with_parts(accounts: Accounts, recent_transactions: RecentTransactions) -> (r: Self)
        requires
            accounts.wf(),
            recent_transactions.wf(),
        ensures
            r.wf(),
            r.ledger() == accounts@,
            r.cache() == recent_transactions@,
            r.cap() == recent_transactions.cap(),
            r.total() == accounts.total(),
    {
        Pipeline { accounts, recent_transactions }
    }

    /// The balance of `id`, `0` if no delivered transfer ever touched it.
    pub fn get_balance(&self, id: &Identity) -> (r: u64)
        requires
            self.wf(),
        ensures
            r == accounts::balance_of(self.ledger(), id@),
    {
        self.accounts.get_balance(id)
    }

    /// The last applied sequence number of `id`, `0` if never seen.
    pub fn get_last_sequence(&self, id: &Identity) -> (r: u64)
        requires
            self.wf(),
        ensures
            r == accounts::last_sequence_of(self.ledger(), id@),
    {
        self.accounts.get_last_sequence(id)
    }

    /// The cache's retained entries, oldest to newest.
    pub fn get_latest_transactions(&self) -> (r: Vec<FullTransaction>)
        ensures
            r@ == self.cache(),
    {
        self.recent_transactions.get_all()
    }

    /// Apply one delivered payload: to the ledger, then to the cache. The
    /// ledger performs only economic validation — the broadcast layer has
    /// already authenticated the payload's signature.
    pub fn process_payload(&mut self, payload: &TransferPayload) -> (r: Result<
        (),
        ProcessTransactionError,
    >)
        requires
            old(self).wf(),
        ensures
            final(self).wf(),
            final(self).cap() == old(self).cap(),
            final(self).total() == old(self).total(),
            (r matches Ok(_)) == accounts::transfer_allowed(
                old(self).ledger(),
                payload.sender@,
                payload.sequence,
                payload.amount,
            ),
            r matches Ok(_) ==> exists|t: i64|
                final(self).state() == step(old(self).state(), *payload, t, old(self).cap()),
            r matches Err(_) ==> final(self).state() == old(self).state(),
            r matches Err(e) ==> (e matches ProcessTransactionError::ProcessTxForAccounts {
                source,
            } && ((source == accounts::Error::SequenceMismatch) <==> payload.sequence
                != accounts::last_sequence_of(old(self).ledger(), payload.sender@) + 1)
                && ((source == accounts::Error::InsufficientBalance) <==> (payload.sequence
                == accounts::last_sequence_of(old(self).ledger(), payload.sender@) + 1
                && payload.amount > accounts::balance_of(old(self).ledger(), payload.sender@)))),
    {
        match self.accounts.transfer(
            &payload.sender,
            payload.sequence,
            &payload.recipient,
            payload.amount,
        ) {
            Err(source) => {
                return Err(ProcessTransactionError::ProcessTxForAccounts { source });
            },
            Ok(_) => {},
        }
        let thin = ThinTransaction { recipient: payload.recipient, amount: payload.amount };
        let r = self.recent_transactions.put(&payload.sender, &thin);
        match r {
            // The cache promises success; the arm mirrors the interface.
            Err(source) => Err(ProcessTransactionError::ProcessTxForRecent { source }),
            Ok(_) => {
                proof {
                    let t = choose|t: i64|
                        self.recent_transactions@ == recent_transactions::retained(
                            old(self).cache().push(
                                (FullTransaction {
                                    timestamp: t,
                                    sender: payload.sender,
                                    recipient: thin.recipient,
                                    amount: thin.amount,
                                }),
                            ),
                            old(self).cap(),
                        );
                    assert(self.state() == step(old(self).state(), *payload, t, old(self).cap()));
                }
                Ok(())
            },
        }
    }

    /// Apply a whole delivered batch, in order, skipping rejected payloads.
    /// The result is the fold of [`step`] over the batch, for the timestamps
    /// the clock handed out.
    pub fn process_batch(&mut self, batch: &Vec<TransferPayload>)
        requires
            old(self).wf(),
        ensures
            final(self).wf(),
            final(self).cap() == old(self).cap(),
            final(self).total() == old(self).total(),
            exists|ts: Seq<i64>|
                ts.len() == batch@.len() && final(self).state() == run(
                    old(self).state(),
                    batch@,
                    ts,
                    old(self).cap(),
                ),
    {
        let ghost v0 = self.state();
        let ghost c0 = self.cap();
        let ghost tot0 = self.total();
        let mut i: usize = 0;
        proof {
            let ts0 = Seq::<i64>::empty();
            assert(ts0.len() == 0);
            assert(batch@.take(0) =~= Seq::<TransferPayload>::empty());
            assert(self.state() == run(v0, batch@.take(0), ts0, c0));
        }
        while i < batch.len()
            invariant
                self.wf(),
                self.cap() == c0,
                self.total() == tot0,
                i <= batch@.len(),
                exists|ts: Seq<i64>|
                    ts.len() == i && self.state() == run(v0, batch@.take(i as int), ts, c0),
            decreases batch@.len() - i,
        {
            let ghost pre = self.state();
            let ghost ts_w = choose|ts: Seq<i64>|
                ts.len() == i && pre == run(v0, batch@.take(i as int), ts, c0);
            let p = batch[i];
            let r = self.process_payload(&p);
            // A rejection is skipped: no retry, no rollback of the ledger,
            // no requeueing; the caller may log it.
            proof {
                let t_w: i64 = if r matches Ok(_) {
                    choose|t: i64| self.state() == step(pre, p, t, c0)
                } else {
                    0
                };
                assert(self.state() == step(pre, p, t_w, c0));
                lemma_run_snoc(v0, batch@.take(i as int), ts_w, c0, p, t_w);
                assert(batch@.take(i as int).push(p) =~= batch@.take(i + 1));
                assert(ts_w.push(t_w).len() == i + 1 && self.state() == run(
                    v0,
                    batch@.take(i + 1),
                    ts_w.push(t_w),
                    c0,
                ));
            }
            i = i + 1;
        }
        proof {
            assert(batch@.take(batch@.len() as int) =~= batch@);
        }
    }

    /// The delivery loop's reaction to one channel outcome: process what was
    /// delivered, keep running on a transient failure, and stop exactly when
    /// the channel is permanently closed.
    pub fn handle_delivery(&mut self, event: DeliverEvent) -> (keep_running: bool)
        requires
            old(self).wf(),
        ensures
            final(self).wf(),
            final(self).cap() == old(self).cap(),
            final(self).total() == old(self).total(),
            keep_running == !(event matches DeliverEvent::ChannelClosed),
            match event {
                DeliverEvent::Delivered(batch) => exists|ts: Seq<i64>|
                    ts.len() == batch@.len() && final(self).state() == run(
                        old(self).state(),
                        batch@,
                        ts,
                        old(self).cap(),
                    ),
                _ => final(self).state() == old(self).state(),
            },
    {
        match event {
            DeliverEvent::ChannelClosed => false,
            DeliverEvent::DeliverFailed => true,
            DeliverEvent::Delivered(batch) => {
                self.process_batch(&batch);
                true
            },
        }
    }
}

} // verus!
