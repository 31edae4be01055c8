//! TransferGateway: bookkeeping for outbound transfer requests.
//!
//! Issuing the transfer itself is host work; what the engine owns is the
//! set of outstanding requests, keyed by the context `(task creator, task
//! index, claiming account)` that the confirming step will carry back.
//! Holding exactly one entry per outstanding request is what guards the
//! rollback path against being applied twice.

use vstd::prelude::*;

verus! {

/// One outbound payout whose confirming step has not arrived yet.
pub struct PendingTransfer {
    /// Creator of the task the payout belongs to.
    pub creator: String,
    /// Index of the task among its creator's tasks.
    pub index: u32,
    /// The claiming account the payout is addressed to.
    pub account: String,
    /// The token the payout is made in.
    pub token: String,
    /// The payout amount.
    pub amount: u128,
}

/// The mathematical value of a [`PendingTransfer`].
pub struct PendingTransferView {
    pub creator: Seq<char>,
    pub index: u32,
    pub account: Seq<char>,
    pub token: Seq<char>,
    pub amount: u128,
}

impl View for PendingTransfer {
    type V = PendingTransferView;

    open spec fn view(&self) -> PendingTransferView {
        PendingTransferView {
            creator: self.creator@,
            index: self.index,
            account: self.account@,
            token: self.token@,
            amount: self.amount,
        }
    }
}

/// The set of outstanding outbound transfer requests.
pub struct TransferGateway {
    /// Outstanding requests, oldest first.
    pub outstanding: Vec<PendingTransfer>,
}

impl TransferGateway {
    /// Whether a transfer for this `(creator, index, account)` context is
    /// outstanding.
    pub open spec fn has_outstanding(
        self,
        creator: Seq<char>,
        index: u32,
        account: Seq<char>,
    ) -> bool {
        exists|i: int|
            0 <= i < self.outstanding@.len() && self.outstanding@[i].creator@ == creator
                && self.outstanding@[i].index == index && self.outstanding@[i].account@ == account
    }

    /// No two outstanding entries share a context.
    pub open spec fn wf(self) -> bool {
        forall|i: int, j: int|
            0 <= i < j < self.outstanding@.len() ==> !(self.outstanding@[i].creator@
                == self.outstanding@[j].creator@ && self.outstanding@[i].index
                == self.outstanding@[j].index && self.outstanding@[i].account@
                == self.outstanding@[j].account@)
    }

    /// A gateway with nothing outstanding.
    pub fn empty() -> (r: TransferGateway)
        ensures
            r.outstanding@ =~= Seq::<PendingTransfer>::empty(),
            r.wf(),
    {
        TransferGateway { outstanding: Vec::new() }
    }

    /// Index of the outstanding entry for this context, if any.
    fn find(&self, creator: &String, index: u32, account: &String) -> (r: Option<usize>)
        ensures
            match r {
                Some(i) => i < self.outstanding@.len() && self.outstanding@[i as int].creator@
                    == creator@ && self.outstanding@[i as int].index == index
                    && self.outstanding@[i as int].account@ == account@,
                None => !self.has_outstanding(creator@, index, account@),
            },
    {
        let mut i: usize = 0;
        while i < self.outstanding.len()
            invariant
                i <= self.outstanding@.len(),
                forall|j: int|
                    0 <= j < i ==> !(self.outstanding@[j].creator@ == creator@
                        && self.outstanding@[j].index == index && self.outstanding@[j].account@
                        == account@),
            decreases self.outstanding@.len() - i,
        {
            if self.outstanding[i].creator == *creator && self.outstanding[i].index == index
                && self.outstanding[i].account == *account {
                return Some(i);
            }
            i = i + 1;
        }
        None
    }

    /// Records a newly issued outbound payout request.
    pub fn register_outbound(&mut self, transfer: PendingTransfer)
        requires
            old(self).wf(),
            !old(self).has_outstanding(transfer.creator@, transfer.index, transfer.account@),
        ensures
            final(self).wf(),
            final(self).outstanding@ == old(self).outstanding@.push(transfer),
    {
        self.outstanding.push(transfer);
    }

    /// Settles the outstanding entry for this context, if one exists, and
    /// says whether one did.  A confirming step whose context matches no
    /// entry (a duplicate delivery) settles nothing.
    pub fn resolve(&mut self, creator: &String, index: u32, account: &String) -> (r: bool)
        requires
            old(self).wf(),
        ensures
            final(self).wf(),
            r == old(self).has_outstanding(creator@, index, account@),
            !r ==> *final(self) == *old(self),
            r ==> exists|k: int|
                0 <= k < old(self).outstanding@.len() && old(self).outstanding@[k].creator@
                    == creator@ && old(self).outstanding@[k].index == index && old(
                self,
            ).outstanding@[k].account@ == account@ && final(self).outstanding@ == old(
                self,
            ).outstanding@.remove(k),
            !final(self).has_outstanding(creator@, index, account@),
    {
        match self.find(creator, index, account) {
            None => false,
            Some(k) => {
                self.outstanding.remove(k);
                proof {
                    assert forall|i: int|
                        0 <= i < self.outstanding@.len() implies !(self.outstanding@[i].creator@
                        == creator@ && self.outstanding@[i].index == index
                        && self.outstanding@[i].account@ == account@) by {
                        if i < k {
                        } else {
                            assert(self.outstanding@[i] == old(self).outstanding@[i + 1]);
                        }
                    }
                }
                true
            },
        }
    }
}

} // verus!
