//! The account ledger state machine.
//!
//! Authoritative mapping from account identity to balance and last-applied
//! sequence number. A transfer is applied atomically: it must carry exactly
//! the sender's next sequence number and an amount within the sender's
//! balance, otherwise it is rejected and the ledger is unchanged. The sum of
//! all balances is conserved by every call.

use vstd::prelude::*;
use crate::Identity;

verus! {

/// The state the ledger keeps for one account. Absent identities are
/// logically `{ balance: 0, last_sequence: 0 }`.
#[derive(Clone, Copy, Debug, PartialEq, Eq, Structural)]
pub struct Account {
    pub balance: u64,
    pub last_sequence: u64,
}

/// Why the ledger rejected a transfer. Either way the ledger is unchanged.
#[derive(Clone, Copy, Debug, PartialEq, Eq, Structural)]
pub enum Error {
    /// The sequence number is not exactly one past the sender's last applied
    /// one: a replay if smaller, a missing predecessor if larger.
    SequenceMismatch,
    /// The amount exceeds the sender's balance.
    InsufficientBalance,
}

/// The sender's balance under ledger state `m`, `0` for an absent identity.
pub open spec fn balance_of(m: Map<Seq<u8>, Account>, id: Seq<u8>) -> int {
    if m.dom().contains(id) {
        m[id].balance as int
    } else {
        0
    }
}

/// The last sequence number applied for `id` under ledger state `m`,
/// `0` for an absent identity.
pub open spec fn last_sequence_of(m: Map<Seq<u8>, Account>, id: Seq<u8>) -> int {
    if m.dom().contains(id) {
        m[id].last_sequence as int
    } else {
        0
    }
}

/// Whether `m` accepts a transfer of `amount` from `sender` carrying
/// `sequence`: the sequence must be exactly the next one and the amount must
/// be covered by the sender's balance.
pub open spec fn transfer_allowed(
    m: Map<Seq<u8>, Account>,
    sender: Seq<u8>,
    sequence: u64,
    amount: u64,
) -> bool {
    &&& sequence == last_sequence_of(m, sender) + 1
    &&& amount <= balance_of(m, sender)
}

/// The ledger state after an accepted transfer: the sender is debited and its
/// sequence advanced, the recipient is credited (created with
/// `{ balance: amount, last_sequence: 0 }` if absent). A self-transfer only
/// advances the sequence.
pub open spec fn apply_transfer(
    m: Map<Seq<u8>, Account>,
    sender: Seq<u8>,
    sequence: u64,
    recipient: Seq<u8>,
    amount: u64,
) -> Map<Seq<u8>, Account> {
    if sender == recipient {
        m.insert(
            sender,
            (Account { balance: balance_of(m, sender) as u64, last_sequence: sequence }),
        )
    } else {
        m.insert(
            sender,
            (Account { balance: (balance_of(m, sender) - amount) as u64, last_sequence: sequence }),
        ).insert(
            recipient,
            (Account {
                balance: (balance_of(m, recipient) + amount) as u64,
                last_sequence: last_sequence_of(m, recipient) as u64,
            }),
        )
    }
}

/// Law: an identity never touched by any transfer or seeding reads as zero
/// balance and zero last sequence.
pub proof fn lemma_unknown_account_defaults(m: Map<Seq<u8>, Account>, id: Seq<u8>)
    requires
        !m.dom().contains(id),
    ensures
        balance_of(m, id) == 0,
        last_sequence_of(m, id) == 0,
{
}

/// Law: a replayed `(sender, sequence)` pair is always rejected. Once the
/// sender's last applied sequence number has reached `sequence`, no transfer
/// carrying `sequence` can be accepted, however often it is retried.
pub proof fn lemma_replay_always_rejected(
    m: Map<Seq<u8>, Account>,
    sender: Seq<u8>,
    sequence: u64,
    amount: u64,
)
    requires
        sequence <= last_sequence_of(m, sender),
    ensures
        !transfer_allowed(m, sender, sequence, amount),
{
}

/// Law: applying an accepted transfer never lowers any identity's last
/// applied sequence number. With [`lemma_replay_always_rejected`] this makes
/// rejection of an applied `(sender, sequence)` pair permanent across any
/// further accepted transfers.
pub proof fn lemma_last_sequence_monotonic(
    m: Map<Seq<u8>, Account>,
    sender: Seq<u8>,
    sequence: u64,
    recipient: Seq<u8>,
    amount: u64,
    id: Seq<u8>,
)
    requires
        transfer_allowed(m, sender, sequence, amount),
    ensures
        last_sequence_of(apply_transfer(m, sender, sequence, recipient, amount), id)
            >= last_sequence_of(m, id),
{
}

/// One stored ledger record.
#[derive(Clone, Copy)]
struct AccountEntry {
    id: Identity,
    account: Account,
}

spec fn unique_ids(s: Seq<AccountEntry>) -> bool {
    forall|i: int, j: int| 0 <= i < j < s.len() ==> s[i].id@ != s[j].id@
}

spec fn contains_id(s: Seq<AccountEntry>, id: Seq<u8>) -> bool {
    exists|i: int| 0 <= i < s.len() && s[i].id@ == id
}

spec fn idx_of(s: Seq<AccountEntry>, id: Seq<u8>) -> int {
    choose|i: int| 0 <= i < s.len() && s[i].id@ == id
}

spec fn entries_map(s: Seq<AccountEntry>) -> Map<Seq<u8>, Account> {
    Map::new(|id: Seq<u8>| contains_id(s, id), |id: Seq<u8>| s[idx_of(s, id)].account)
}

spec fn sum_balances(s: Seq<AccountEntry>) -> int
    decreases s.len(),
{
    if s.len() == 0 {
        0
    } else {
        sum_balances(s.drop_last()) + s.last().account.balance
    }
}

proof fn lemma_idx(s: Seq<AccountEntry>, i: int)
    requires
        unique_ids(s),
        0 <= i < s.len(),
    ensures
        contains_id(s, s[i].id@),
        idx_of(s, s[i].id@) == i,
        entries_map(s).dom().contains(s[i].id@),
        entries_map(s)[s[i].id@] == s[i].account,
{
    assert(contains_id(s, s[i].id@));
    let j = idx_of(s, s[i].id@);
    assert(0 <= j < s.len() && s[j].id@ == s[i].id@);
    if j != i {
        assert(s[i].id@ != s[j].id@);
    }
}

proof fn lemma_entries_map_update(s: Seq<AccountEntry>, i: int, e: AccountEntry)
    requires
        unique_ids(s),
        0 <= i < s.len(),
        e.id@ == s[i].id@,
    ensures
        unique_ids(s.update(i, e)),
        entries_map(s.update(i, e)) == entries_map(s).insert(e.id@, e.account),
{
    let u = s.update(i, e);
    assert forall|k: int| 0 <= k < u.len() implies u[k].id@ == s[k].id@ by {}
    assert(unique_ids(u));
    assert forall|id: Seq<u8>| contains_id(u, id) implies contains_id(s, id) by {
        let k = choose|k: int| 0 <= k < u.len() && u[k].id@ == id;
        assert(s[k].id@ == id);
    }
    assert forall|id: Seq<u8>| contains_id(s, id) implies contains_id(u, id) by {
        let k = choose|k: int| 0 <= k < s.len() && s[k].id@ == id;
        assert(u[k].id@ == id);
    }
    assert forall|id: Seq<u8>| #[trigger] contains_id(u, id) implies entries_map(u)[id]
        == entries_map(s).insert(e.id@, e.account)[id] by {
        if id == e.id@ {
            lemma_idx(u, i);
        } else {
            let k = choose|k: int| 0 <= k < s.len() && s[k].id@ == id;
            assert(k != i);
            lemma_idx(s, k);
            lemma_idx(u, k);
        }
    }
    assert(entries_map(u) =~= entries_map(s).insert(e.id@, e.account));
}

proof fn lemma_entries_map_push(s: Seq<AccountEntry>, e: AccountEntry)
    requires
        unique_ids(s),
        !contains_id(s, e.id@),
    ensures
        unique_ids(s.push(e)),
        entries_map(s.push(e)) == entries_map(s).insert(e.id@, e.account),
{
    let u = s.push(e);
    assert forall|k: int| 0 <= k < s.len() implies u[k].id@ == s[k].id@ by {}
    assert(u[s.len() as int].id@ == e.id@);
    assert forall|k: int| 0 <= k < s.len() implies s[k].id@ != e.id@ by {
        if s[k].id@ == e.id@ {
            assert(contains_id(s, e.id@));
        }
    }
    assert(unique_ids(u));
    assert forall|id: Seq<u8>| contains_id(u, id) implies contains_id(s, id) || id == e.id@ by {
        let k = choose|k: int| 0 <= k < u.len() && u[k].id@ == id;
        if k < s.len() {
            assert(s[k].id@ == id);
        }
    }
    assert forall|id: Seq<u8>| contains_id(s, id) implies contains_id(u, id) by {
        let k = choose|k: int| 0 <= k < s.len() && s[k].id@ == id;
        assert(u[k].id@ == id);
    }
    assert forall|id: Seq<u8>| #[trigger] contains_id(u, id) implies entries_map(u)[id]
        == entries_map(s).insert(e.id@, e.account)[id] by {
        if id == e.id@ {
            lemma_idx(u, s.len() as int);
        } else {
            let k = choose|k: int| 0 <= k < s.len() && s[k].id@ == id;
            lemma_idx(s, k);
            lemma_idx(u, k);
        }
    }
    assert(entries_map(u) =~= entries_map(s).insert(e.id@, e.account));
}

proof fn lemma_sum_nonneg(s: Seq<AccountEntry>)
    ensures
        sum_balances(s) >= 0,
    decreases s.len(),
{
    if s.len() > 0 {
        lemma_sum_nonneg(s.drop_last());
    }
}

proof fn lemma_sum_push(s: Seq<AccountEntry>, e: AccountEntry)
    ensures
        sum_balances(s.push(e)) == sum_balances(s) + e.account.balance,
{
    assert(s.push(e).drop_last() =~= s);
    assert(s.push(e).last() == e);
}

proof fn lemma_sum_update(s: Seq<AccountEntry>, i: int, e: AccountEntry)
    requires
        0 <= i < s.len(),
    ensures
        sum_balances(s.update(i, e)) == sum_balances(s) - s[i].account.balance
            + e.account.balance,
    decreases s.len(),
{
    let u = s.update(i, e);
    if i == s.len() - 1 {
        assert(u.drop_last() =~= s.drop_last());
        assert(u.last() == e);
    } else {
        assert(u.drop_last() =~= s.drop_last().update(i, e));
        assert(u.last() == s.last());
        lemma_sum_update(s.drop_last(), i, e);
    }
}

proof fn lemma_balance_le_sum(s: Seq<AccountEntry>, i: int)
    requires
        0 <= i < s.len(),
    ensures
        s[i].account.balance <= sum_balances(s),
    decreases s.len(),
{
    if i == s.len() - 1 {
        lemma_sum_nonneg(s.drop_last());
    } else {
        lemma_balance_le_sum(s.drop_last(), i);
        assert(s.drop_last()[i] == s[i]);
    }
}

proof fn lemma_two_balances_le_sum(s: Seq<AccountEntry>, i: int, j: int)
    requires
        0 <= i < s.len(),
        0 <= j < s.len(),
        i != j,
    ensures
        s[i].account.balance + s[j].account.balance <= sum_balances(s),
    decreases s.len(),
{
    if i == s.len() - 1 {
        lemma_balance_le_sum(s.drop_last(), j);
        assert(s.drop_last()[j] == s[j]);
    } else if j == s.len() - 1 {
        lemma_balance_le_sum(s.drop_last(), i);
        assert(s.drop_last()[i] == s[i]);
    } else {
        lemma_two_balances_le_sum(s.drop_last(), i, j);
        assert(s.drop_last()[i] == s[i]);
        assert(s.drop_last()[j] == s[j]);
    }
}

/// The account ledger: balances and last-applied sequence numbers, keyed by
/// identity.
pub struct Accounts {
    entries: Vec<AccountEntry>,
}

impl View for Accounts {
    type V = Map<Seq<u8>, Account>;

    closed spec fn view(&self) -> Map<Seq<u8>, Account> {
        entries_map(self.entries@)
    }
}

impl Accounts {
    /// Well-formed ledger: one record per identity, and the sum of all
    /// balances fits a `u64`, so a credit can never overflow.
    pub closed spec fn wf(&self) -> bool {
        &&& unique_ids(self.entries@)
        &&& sum_balances(self.entries@) <= u64::MAX
    }

    /// The sum of all balances. Every transfer conserves it.
    pub closed spec fn total(&self) -> int {
        sum_balances(self.entries@)
    }

    /// Law: any single balance is bounded by the conserved total — so no
    /// sequence of transfers can make any account exceed what was seeded.
    pub proof fn lemma_balance_le_total(&self, id: Seq<u8>)
        requires
            self.wf(),
        ensures
            balance_of(self@, id) <= self.total(),
    {
        if self@.dom().contains(id) {
            let k = choose|k: int| 0 <= k < self.entries@.len() && self.entries@[k].id@ == id;
            lemma_idx(self.entries@, k);
            lemma_balance_le_sum(self.entries@, k);
        } else {
            lemma_sum_nonneg(self.entries@);
        }
    }

    /// An empty ledger: every identity logically holds `{ 0, 0 }`.
    pub fn new() -> (r: Self)
        ensures
            r.wf(),
            r@ == Map::<Seq<u8>, Account>::empty(),
            r.total() == 0,
    {
        let r = Accounts { entries: Vec::new() };
        proof {
            assert(r@ =~= Map::<Seq<u8>, Account>::empty());
        }
        r
    }

    fn index_of(entries: &Vec<AccountEntry>, id: &Identity) -> (r: Option<usize>)
        ensures
            match r {
                Some(i) => i < entries@.len() && entries@[i as int].id@ == id@,
                None => !contains_id(entries@, id@),
            },
    {
        let mut i: usize = 0;
        while i < entries.len()
            invariant
                i <= entries@.len(),
                forall|j: int| 0 <= j < i ==> entries@[j].id@ != id@,
            decreases entries@.len() - i,
        {
            if entries[i].id.equals(id) {
                return Some(i);
            }
            i = i + 1;
        }
        None
    }

    /// The balance of `id`; `0` for an identity the ledger has never seen.
    pub fn get_balance(&self, id: &Identity) -> (r: u64)
        requires
            self.wf(),
        ensures
            r == balance_of(self@, id@),
    {
        match Self::index_of(&self.entries, id) {
            Some(i) => {
                proof {
                    lemma_idx(self.entries@, i as int);
                }
                self.entries[i].account.balance
            },
            None => 0,
        }
    }

    /// The last applied sequence number of `id`; `0` for an identity the
    /// ledger has never seen.
    pub fn get_last_sequence(&self, id: &Identity) -> (r: u64)
        requires
            self.wf(),
        ensures
            r == last_sequence_of(self@, id@),
    {
        match Self::index_of(&self.entries, id) {
            Some(i) => {
                proof {
                    lemma_idx(self.entries@, i as int);
                }
                self.entries[i].account.last_sequence
            },
            None => 0,
        }
    }

    /// Seeding hook: funds enter the ledger only here, never through
    /// `transfer`. The new balance must keep the ledger's total within `u64`,
    /// and the identity must be fresh.
    pub fn seed(&mut self, id: &Identity, balance: u64, last_sequence: u64)
        requires
            old(self).wf(),
            !old(self)@.dom().contains(id@),
            old(self).total() + balance <= u64::MAX,
        ensures
            final(self).wf(),
            final(self)@ == old(self)@.insert(id@, (Account { balance, last_sequence })),
            final(self).total() == old(self).total() + balance,
    {
        let ghost s0 = self.entries@;
        let e = AccountEntry { id: *id, account: Account { balance, last_sequence } };
        self.entries.push(e);
        proof {
            lemma_entries_map_push(s0, e);
            lemma_sum_push(s0, e);
        }
    }

    /// Apply one transfer, atomically.
    ///
    /// Succeeds exactly when `sequence` is one past the sender's last applied
    /// sequence number and `amount` is within the sender's balance; then the
    /// sender is debited, its sequence advances, and the recipient is
    /// credited (created if absent). Any rejection leaves the ledger exactly
    /// as it was. The sum of all balances is conserved either way.
    pub fn transfer(
        &mut self,
        sender: &Identity,
        sequence: u64,
        recipient: &Identity,
        amount: u64,
    ) -> (r: Result<(), Error>)
        requires
            old(self).wf(),
        ensures
            final(self).wf(),
            final(self).total() == old(self).total(),
            (r matches Ok(_)) == transfer_allowed(old(self)@, sender@, sequence, amount),
            r matches Ok(_) ==> final(self)@ == apply_transfer(
                old(self)@,
                sender@,
                sequence,
                recipient@,
                amount,
            ),
            r matches Err(_) ==> final(self)@ == old(self)@,
            r matches Err(e) ==> ((e == Error::SequenceMismatch) <==> sequence
                != last_sequence_of(old(self)@, sender@) + 1),
            r matches Err(e) ==> ((e == Error::InsufficientBalance) <==> (sequence
                == last_sequence_of(old(self)@, sender@) + 1 && amount > balance_of(
                old(self)@,
                sender@,
            ))),
    {
        let ghost m0 = self@;
        let ghost s0 = self.entries@;
        let si_opt = Self::index_of(&self.entries, sender);
        let (sender_balance, sender_last): (u64, u64) = match si_opt {
            Some(i) => (self.entries[i].account.balance, self.entries[i].account.last_sequence),
            None => (0, 0),
        };
        proof {
            if let Some(i) = si_opt {
                lemma_idx(s0, i as int);
            }
            assert(sender_balance == balance_of(m0, sender@));
            assert(sender_last == last_sequence_of(m0, sender@));
        }
        if !(sender_last < u64::MAX && sequence == sender_last + 1) {
            return Err(Error::SequenceMismatch);
        }
        if amount > sender_balance {
            return Err(Error::InsufficientBalance);
        }
        if sender.equals(recipient) {
            // A self-transfer: the balance is untouched, only the sequence
            // advances.
            match si_opt {
                Some(i) => {
                    let e = self.entries[i];
                    let e2 = AccountEntry {
                        id: e.id,
                        account: Account { balance: e.account.balance, last_sequence: sequence },
                    };
                    self.entries[i] = e2;
                    proof {
                        lemma_entries_map_update(s0, i as int, e2);
                        lemma_sum_update(s0, i as int, e2);
                    }
                },
                None => {
                    let e = AccountEntry {
                        id: *sender,
                        account: Account { balance: 0, last_sequence: sequence },
                    };
                    self.entries.push(e);
                    proof {
                        lemma_entries_map_push(s0, e);
                        lemma_sum_push(s0, e);
                    }
                },
            }
            return Ok(());
        }
        // Distinct sender and recipient. Find the recipient before mutating;
        // updates keep every index and identity in place.
        let ri_opt = Self::index_of(&self.entries, recipient);
        proof {
            if let Some(j) = ri_opt {
                lemma_idx(s0, j as int);
            }
        }
        // Debit the sender and advance its sequence.
        match si_opt {
            Some(i) => {
                let e = self.entries[i];
                let e2 = AccountEntry {
                    id: e.id,
                    account: Account {
                        balance: e.account.balance - amount,
                        last_sequence: sequence,
                    },
                };
                self.entries[i] = e2;
                proof {
                    lemma_entries_map_update(s0, i as int, e2);
                    lemma_sum_update(s0, i as int, e2);
                }
            },
            None => {
                let e = AccountEntry {
                    id: *sender,
                    account: Account { balance: 0, last_sequence: sequence },
                };
                self.entries.push(e);
                proof {
                    lemma_entries_map_push(s0, e);
                    lemma_sum_push(s0, e);
                }
            },
        }
        let ghost s1 = self.entries@;
        let ghost m1 = self@;
        // Credit the recipient, creating it if absent. The sum bound on the
        // untouched ledger shows the credited balance fits a `u64`.
        match ri_opt {
            Some(j) => {
                proof {
                    if let Some(i) = si_opt {
                        lemma_two_balances_le_sum(s0, i as int, j as int);
                    } else {
                        lemma_balance_le_sum(s0, j as int);
                    }
                    assert(s1[j as int].id@ == recipient@);
                }
                let e = self.entries[j];
                let e2 = AccountEntry {
                    id: e.id,
                    account: Account {
                        balance: e.account.balance + amount,
                        last_sequence: e.account.last_sequence,
                    },
                };
                self.entries[j] = e2;
                proof {
                    lemma_entries_map_update(s1, j as int, e2);
                    lemma_sum_update(s1, j as int, e2);
                }
            },
            None => {
                proof {
                    assert(!contains_id(s1, recipient@));
                }
                let e = AccountEntry {
                    id: *recipient,
                    account: Account { balance: amount, last_sequence: 0 },
                };
                self.entries.push(e);
                proof {
                    lemma_entries_map_push(s1, e);
                    lemma_sum_push(s1, e);
                }
            },
        }
        proof {
            assert(self@ == apply_transfer(m0, sender@, sequence, recipient@, amount));
        }
        Ok(())
    }
}

} // verus!
