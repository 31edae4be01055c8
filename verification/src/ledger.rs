//! DepositLedger: an append-only log of every inbound transfer the
//! contract has custody of.
//!
//! One [`Record`] is appended per confirmed inbound transfer; records are
//! never mutated or deleted.  The log is the audit trail from which custody
//! is reconciled: the validation that the token is registered happens at the
//! router, before anything is written here.

use vstd::prelude::*;

verus! {

/// One confirmed inbound transfer: who sent it, who received custody, in
/// which token, and how much.
pub struct Record {
    /// The external account attested as the originator of the transfer.
    pub creator: String,
    /// The account that took custody (this contract).
    pub receiver: String,
    /// The token contract the transfer was made in.
    pub token: String,
    /// The transferred amount.
    pub amount: u128,
}

/// The mathematical value of a [`Record`].
pub struct RecordView {
    pub creator: Seq<char>,
    pub receiver: Seq<char>,
    pub token: Seq<char>,
    pub amount: u128,
}

impl View for Record {
    type V = RecordView;

    open spec fn view(&self) -> RecordView {
        RecordView {
            creator: self.creator@,
            receiver: self.receiver@,
            token: self.token@,
            amount: self.amount,
        }
    }
}

/// Total of the recorded amounts for one `(sender, token)` pair.
pub open spec fn sum_amounts(records: Seq<Record>, sender: Seq<char>, token: Seq<char>) -> int
    decreases records.len(),
{
    if records.len() == 0 {
        0
    } else {
        sum_amounts(records.drop_last(), sender, token) + if records.last().creator@ == sender
            && records.last().token@ == token {
            records.last().amount as int
        } else {
            0int
        }
    }
}

/// Appending the record of one confirmed transfer raises the recorded
/// total of exactly that `(sender, token)` pair by exactly the recorded
/// amount, and no other pair's total: since records are only ever
/// appended, one per confirmed transfer, each pair's total is the sum of
/// precisely the transfers the host confirmed — no duplication, no loss.
pub proof fn lemma_deposit_sum(pre: Seq<Record>, post: Seq<Record>, rec: Record)
    requires
        post == pre.push(rec),
    ensures
        sum_amounts(post, rec.creator@, rec.token@) == sum_amounts(pre, rec.creator@, rec.token@)
            + rec.amount,
        forall|s: Seq<char>, t: Seq<char>|
            !(s == rec.creator@ && t == rec.token@) ==> #[trigger] sum_amounts(post, s, t)
                == sum_amounts(pre, s, t),
{
    assert(post.drop_last() =~= pre);
    assert(post.last() == rec);
}

/// The append-only deposit log.
pub struct DepositLedger {
    /// All records, oldest first.  Only ever extended by one record at a
    /// time.
    pub records: Vec<Record>,
}

impl DepositLedger {
    /// An empty log.
    pub fn empty() -> (r: DepositLedger)
        ensures
            r.records@ =~= Seq::<Record>::empty(),
    {
        DepositLedger { records: Vec::new() }
    }

    /// Appends the record of one confirmed inbound transfer.
    pub fn append(&mut self, record: Record)
        ensures
            final(self).records@ == old(self).records@.push(record),
    {
        self.records.push(record);
    }

    /// How many records the log holds.
    pub fn len(&self) -> (r: usize)
        ensures
            r == self.records@.len(),
    {
        self.records.len()
    }

    /// The record at position `i`, oldest first.
    pub fn record_at(&self, i: usize) -> (r: &Record)
        requires
            i < self.records@.len(),
        ensures
            *r == self.records@[i as int],
    {
        &self.records[i]
    }
}

} // verus!
