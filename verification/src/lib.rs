//! Accounting engine for a multi-token airdrop ledger.
//!
//! The engine registers which fungible tokens may be distributed, logs every
//! inbound transfer it takes custody of, lets a funder create distribution
//! tasks offering a fixed per-account payout, and lets eligible accounts
//! claim exactly once.  Claims are reserved before any outbound transfer is
//! requested and rolled back only by the failure-confirmation path, so funds
//! are conserved across asynchronous, possibly-failing transfers.
//!
//! Every operation runs to completion against the current state; whatever
//! depends on an external party (a token's metadata query, an outbound
//! transfer) is split into an initiating step and a confirming step, and
//! nothing here depends on the confirming step arriving promptly, in
//! order, or at all.

use vstd::prelude::*;

pub mod errors;
pub mod gateway;
pub mod ledger;
pub mod registry;
pub mod tasks;

use crate::errors::ErrorKind;
use crate::gateway::{PendingTransfer, TransferGateway};
use crate::ledger::{lemma_deposit_sum, sum_amounts, DepositLedger, Record};
use crate::registry::{TokenMetadata, TokenRegistry};
use crate::tasks::{activate_from, avail_of, claim_added, claim_removed, has_task, lemma_activate_from_pointwise, lemma_committed_same, sum_committed, TaskManager, TaskRef};

verus! {

/// The whole engine: token registry, deposit log, task table with custody
/// balances, and the outstanding outbound transfers.
pub struct Airdrop {
    pub registry: TokenRegistry,
    pub ledger: DepositLedger,
    pub tasks: TaskManager,
    pub gateway: TransferGateway,
}

/// Some task in `tasks` is the one transfer `e` belongs to, and its claim
/// list still holds `e`'s account.
pub open spec fn entry_covered(tasks: Seq<tasks::Task>, e: PendingTransfer) -> bool {
    exists|i: int|
        0 <= i < tasks.len() && (#[trigger] tasks[i]).creator@ == e.creator@ && tasks[i].index
            == e.index && tasks[i].has_claimed(e.account@)
}

/// Every outstanding outbound transfer belongs to an existing task whose
/// claim list still holds the transfer's account.
pub open spec fn claims_cover(tasks: Seq<tasks::Task>, outstanding: Seq<PendingTransfer>) -> bool {
    forall|g: int| 0 <= g < outstanding.len() ==> entry_covered(tasks, #[trigger] outstanding[g])
}

/// Conservation of funds: for every `(owner, token)` pair, the custody
/// still available plus the custody committed to activated tasks equals,
/// exactly, the total that the deposit log records as received.  Nothing
/// is created, lost, or double-counted across deposits, activations,
/// claims, and rollbacks.
pub open spec fn conserves(
    records: Seq<Record>,
    tasks: Seq<tasks::Task>,
    funds: Seq<tasks::FundEntry>,
) -> bool {
    forall|o: Seq<char>, t: Seq<char>| #[trigger]
        avail_of(funds, o, t) + sum_committed(tasks, o, t) == sum_amounts(records, o, t)
}

impl Airdrop {
    /// Internal consistency of the whole engine: each component is well
    /// formed, and every outstanding outbound transfer is covered by a
    /// recorded claim.
    pub open spec fn wf(self) -> bool {
        &&& self.registry.wf()
        &&& self.tasks.wf()
        &&& self.gateway.wf()
        &&& claims_cover(self.tasks.tasks@, self.gateway.outstanding@)
        &&& conserves(self.ledger.records@, self.tasks.tasks@, self.tasks.funds@)
    }

    /// A fresh engine: no tokens, no records, no tasks, nothing
    /// outstanding.
    pub fn new() -> (r: Airdrop)
        ensures
            r.wf(),
            r.registry.registered@ =~= Seq::<registry::Token>::empty(),
            r.registry.pending@ =~= Seq::<String>::empty(),
            r.ledger.records@ =~= Seq::<Record>::empty(),
            r.tasks.tasks@ =~= Seq::<tasks::Task>::empty(),
            r.tasks.funds@ =~= Seq::<tasks::FundEntry>::empty(),
            r.gateway.outstanding@ =~= Seq::<PendingTransfer>::empty(),
    {
        Airdrop {
            registry: TokenRegistry::empty(),
            ledger: DepositLedger::empty(),
            tasks: TaskManager::empty(),
            gateway: TransferGateway::empty(),
        }
    }

    /// All registered metadata, in registration order.
    pub fn get_token_list(&self) -> (r: Vec<TokenMetadata>)
        ensures
            r@ == self.registry.registered@.map_values(|t: registry::Token| t.metadata),
    {
        self.registry.list()
    }

    /// Initiating step of a token registration: refuses a duplicate,
    /// otherwise marks the address pending while the host queries the
    /// token contract for its metadata.  Retrying a stuck registration is
    /// safe; retrying a completed one fails.
    pub fn add_token(&mut self, address: String) -> (r: Result<(), ErrorKind>)
        requires
            old(self).wf(),
        ensures
            final(self).wf(),
            final(self).ledger == old(self).ledger,
            final(self).tasks == old(self).tasks,
            final(self).gateway == old(self).gateway,
            old(self).registry.is_registered(address@) ==> r == Err::<(), ErrorKind>(
                ErrorKind::DuplicateToken,
            ) && final(self).registry == old(self).registry,
            !old(self).registry.is_registered(address@) ==> {
                &&& r == Ok::<(), ErrorKind>(())
                &&& final(self).registry.registered@ == old(self).registry.registered@
                &&& (old(self).registry.is_pending(address@) ==> final(self).registry.pending@
                    == old(self).registry.pending@)
                &&& (!old(self).registry.is_pending(address@) ==> final(self).registry.pending@
                    == old(self).registry.pending@.push(address))
            },
    {
        self.registry.begin_register(address)
    }

    /// Confirming step of a token registration, delivered by the host with
    /// the metadata query's outcome: `None` when the remote call errored,
    /// timed out, or returned undecodable data.  On success the token is
    /// stored immutably; on failure the pending marker is dropped so the
    /// registration can be retried.
    pub fn resolve_add_token(&mut self, address: String, metadata: Option<TokenMetadata>) -> (r:
        Result<(), ErrorKind>)
        requires
            old(self).wf(),
        ensures
            final(self).wf(),
            final(self).ledger == old(self).ledger,
            final(self).tasks == old(self).tasks,
            final(self).gateway == old(self).gateway,
            old(self).registry.is_registered(address@) ==> r == Err::<(), ErrorKind>(
                ErrorKind::DuplicateToken,
            ) && final(self).registry == old(self).registry,
            !old(self).registry.is_registered(address@) && !old(self).registry.is_pending(address@)
                ==> r == Err::<(), ErrorKind>(ErrorKind::MetadataFetchFailed) && final(self).registry == old(self).registry,
            !old(self).registry.is_registered(address@) && old(self).registry.is_pending(address@)
                ==> {
                &&& exists|k: int|
                    0 <= k < old(self).registry.pending@.len() && old(self).registry.pending@[k]@
                        == address@ && final(self).registry.pending@ == old(self).registry.pending@.remove(k)
                &&& match metadata {
                    Some(m) => r == Ok::<(), ErrorKind>(()) && final(self).registry.registered@
                        == old(self).registry.registered@.push(
                        registry::Token { address, metadata: m },
                    ),
                    None => r == Err::<(), ErrorKind>(ErrorKind::MetadataFetchFailed) && final(self).registry.registered@ == old(self).registry.registered@,
                }
            },
    {
        self.registry.resolve_register(address, metadata)
    }

    /// Creates a distribution task, as [`TaskManager::create_task`]
    /// specifies, after validating that the payout token is registered.
    pub fn add_task(
        &mut self,
        creator: String,
        total_count: u32,
        amount_per_account: u128,
        token: String,
        deposit_near: u128,
    ) -> (r: Result<TaskRef, ErrorKind>)
        requires
            old(self).wf(),
        ensures
            final(self).wf(),
            final(self).registry == old(self).registry,
            final(self).ledger == old(self).ledger,
            final(self).gateway == old(self).gateway,
            !old(self).registry.is_registered(token@) ==> r == Err::<TaskRef, ErrorKind>(
                ErrorKind::UnregisteredToken,
            ) && final(self).tasks == old(self).tasks,
            old(self).registry.is_registered(token@) ==> ({
                let total = total_count * amount_per_account;
                let cnt = tasks::count_tasks_of(old(self).tasks.tasks@, creator@);
                let funded = avail_of(old(self).tasks.funds@, creator@, token@) >= total;
                if total > u128::MAX {
                    r == Err::<TaskRef, ErrorKind>(ErrorKind::Overflow) && final(self).tasks
                        == old(self).tasks
                } else if deposit_near < tasks::TASK_STORAGE_COST {
                    r == Err::<TaskRef, ErrorKind>(ErrorKind::InsufficientDeposit) && final(self).tasks == old(self).tasks
                } else if cnt > u32::MAX {
                    r == Err::<TaskRef, ErrorKind>(ErrorKind::Overflow) && final(self).tasks
                        == old(self).tasks
                } else {
                    &&& (match r {
                        Ok(tref) => tref.creator == creator && tref.index == cnt,
                        Err(_) => false,
                    })
                    &&& final(self).tasks.tasks@.len() == old(self).tasks.tasks@.len() + 1
                    &&& forall|j: int|
                        0 <= j < old(self).tasks.tasks@.len() ==> final(self).tasks.tasks@[j]
                            == old(self).tasks.tasks@[j]
                    &&& (final(self).tasks.tasks@.last().creator == creator)
                    &&& (final(self).tasks.tasks@.last().token == token)
                    &&& (final(self).tasks.tasks@.last().total_count == total_count)
                    &&& (final(self).tasks.tasks@.last().amount_per_account == amount_per_account)
                    &&& (final(self).tasks.tasks@.last().index == cnt)
                    &&& (final(self).tasks.tasks@.last().deposit_near == deposit_near)
                    &&& (final(self).tasks.tasks@.last().funded == funded)
                    &&& (final(self).tasks.tasks@.last().claimed_accounts@.len() == 0)
                    &&& (funded ==> avail_of(final(self).tasks.funds@, creator@, token@)
                        == avail_of(old(self).tasks.funds@, creator@, token@) - total)
                    &&& (!funded ==> final(self).tasks.funds@ == old(self).tasks.funds@)
                }
            }),
    {
        if !self.registry.contains(&token) {
            return Err(ErrorKind::UnregisteredToken);
        }
        let r = self.tasks.create_task(creator, total_count, amount_per_account, token, deposit_near);
        proof {
            if self.tasks.tasks@.len() == old(self).tasks.tasks@.len() + 1 {
                lemma_cover_extend(
                    old(self).tasks.tasks@,
                    self.tasks.tasks@,
                    self.gateway.outstanding@,
                );
            } else {
                assert(self.tasks.tasks@ == old(self).tasks.tasks@);
            }
        }
        r
    }

    /// The single entry point for inbound token transfers, invoked with
    /// the transferring token contract as `token_in` and this contract as
    /// `receiver`.  An empty message is a plain deposit: exactly one
    /// record is appended, the sender's custody in the token is credited,
    /// pending tasks it can now fund become active, and the returned
    /// unconsumed amount is zero.  A non-empty message is the disabled
    /// structured-action hook: it is rejected without any state change.
    pub fn ft_on_transfer(
        &mut self,
        sender_id: String,
        token_in: String,
        receiver: String,
        amount: u128,
        msg: String,
    ) -> (r: Result<u128, ErrorKind>)
        requires
            old(self).wf(),
        ensures
            final(self).wf(),
            final(self).registry == old(self).registry,
            final(self).gateway == old(self).gateway,
            msg@.len() > 0 ==> r == Err::<u128, ErrorKind>(ErrorKind::FeatureDisabled) && *final(self) == *old(self),
            msg@.len() == 0 && !old(self).registry.is_registered(token_in@) ==> r == Err::<
                u128,
                ErrorKind,
            >(ErrorKind::UnregisteredToken) && *final(self) == *old(self),
            msg@.len() == 0 && old(self).registry.is_registered(token_in@) && avail_of(
                old(self).tasks.funds@,
                sender_id@,
                token_in@,
            ) + amount > u128::MAX ==> r == Err::<u128, ErrorKind>(ErrorKind::Overflow) && *final(self) == *old(self),
            msg@.len() == 0 && old(self).registry.is_registered(token_in@) && avail_of(
                old(self).tasks.funds@,
                sender_id@,
                token_in@,
            ) + amount <= u128::MAX ==> r == Ok::<u128, ErrorKind>(0u128) && ({
                let pass = activate_from(
                    old(self).tasks.tasks@,
                    sender_id@,
                    token_in@,
                    (avail_of(old(self).tasks.funds@, sender_id@, token_in@) + amount) as u128,
                    0,
                );
                &&& final(self).ledger.records@ == old(self).ledger.records@.push(
                    Record { creator: sender_id, receiver, token: token_in, amount },
                )
                &&& final(self).tasks.tasks@ == pass.0
                &&& avail_of(final(self).tasks.funds@, sender_id@, token_in@) == pass.1
                &&& forall|o: Seq<char>, t: Seq<char>|
                    !(o == sender_id@ && t == token_in@) ==> #[trigger] avail_of(
                        final(self).tasks.funds@,
                        o,
                        t,
                    ) == avail_of(old(self).tasks.funds@, o, t)
            }),
    {
        if !msg.as_str().is_empty() {
            return Err(ErrorKind::FeatureDisabled);
        }
        if !self.registry.contains(&token_in) {
            return Err(ErrorKind::UnregisteredToken);
        }
        match self.tasks.deposit_and_activate(&sender_id, &token_in, amount) {
            Err(e) => Err(e),
            Ok(()) => {
                proof {
                    lemma_activate_from_pointwise(
                        old(self).tasks.tasks@,
                        sender_id@,
                        token_in@,
                        (avail_of(old(self).tasks.funds@, sender_id@, token_in@) + amount) as u128,
                        0,
                    );
                    lemma_cover_flags(
                        old(self).tasks.tasks@,
                        self.tasks.tasks@,
                        self.gateway.outstanding@,
                    );
                }
                self.ledger.append(Record { creator: sender_id, receiver, token: token_in, amount });
                proof {
                    let pre = old(self).ledger.records@;
                    let post = self.ledger.records@;
                    let rec = post.last();
                    assert(post == pre.push(rec));
                    lemma_deposit_sum(pre, post, rec);
                    assert forall|o: Seq<char>, t: Seq<char>| #[trigger]
                        avail_of(self.tasks.funds@, o, t) + sum_committed(self.tasks.tasks@, o, t)
                            == sum_amounts(post, o, t) by {
                        assert(avail_of(old(self).tasks.funds@, o, t) + sum_committed(
                            old(self).tasks.tasks@,
                            o,
                            t,
                        ) == sum_amounts(pre, o, t));
                        assert(avail_of(self.tasks.funds@, o, t) + sum_committed(
                            self.tasks.tasks@,
                            o,
                            t,
                        ) == avail_of(old(self).tasks.funds@, o, t) + sum_committed(
                            old(self).tasks.tasks@,
                            o,
                            t,
                        ) + if (o == rec.creator@ && t == rec.token@) {
                            amount as int
                        } else {
                            0int
                        });
                        if o == rec.creator@ && t == rec.token@ {
                            assert(sum_amounts(post, o, t) == sum_amounts(pre, o, t)
                                + rec.amount);
                        } else {
                            assert(sum_amounts(post, o, t) == sum_amounts(pre, o, t));
                        }
                    }
                }
                Ok(0)
            },
        }
    }

    /// Records `account`'s claim on the referenced task and registers the
    /// outbound payout for the gateway to issue.  The claim is committed
    /// before the transfer request exists, so a second claim attempt
    /// observes it even while the confirmation is outstanding.  A task
    /// that does not exist or is not yet funded is unknown; a repeated
    /// claim or a fully claimed task is refused without any state change.
    pub fn claim(&mut self, task: &TaskRef, account: String) -> (r: Result<(), ErrorKind>)
        requires
            old(self).wf(),
        ensures
            final(self).wf(),
            final(self).registry == old(self).registry,
            final(self).ledger == old(self).ledger,
            final(self).tasks.funds@ == old(self).tasks.funds@,
            !has_task(old(self).tasks.tasks@, task.creator@, task.index) ==> r == Err::<
                (),
                ErrorKind,
            >(ErrorKind::UnknownTask) && *final(self) == *old(self),
            has_task(old(self).tasks.tasks@, task.creator@, task.index) ==> exists|i: int|
                #![auto]
                0 <= i < old(self).tasks.tasks@.len() && old(self).tasks.tasks@[i].creator@
                    == task.creator@ && old(self).tasks.tasks@[i].index == task.index && ({
                    let t = old(self).tasks.tasks@[i];
                    if t.is_pending() {
                        r == Err::<(), ErrorKind>(ErrorKind::UnknownTask) && *final(self) == *old(self)
                    } else if t.has_claimed(account@) {
                        r == Err::<(), ErrorKind>(ErrorKind::AlreadyClaimed) && *final(self)
                            == *old(self)
                    } else if t.claim_count() == t.total_count {
                        r == Err::<(), ErrorKind>(ErrorKind::TaskExhausted) && *final(self)
                            == *old(self)
                    } else {
                        &&& r == Ok::<(), ErrorKind>(())
                        &&& final(self).tasks.tasks@.len() == old(self).tasks.tasks@.len()
                        &&& forall|j: int|
                            0 <= j < old(self).tasks.tasks@.len() && j != i ==> final(self).tasks.tasks@[j] == old(self).tasks.tasks@[j]
                        &&& claim_added(t, final(self).tasks.tasks@[i], account)
                        &&& final(self).gateway.outstanding@.len() == old(self).gateway.outstanding@.len() + 1
                        &&& forall|g: int|
                            0 <= g < old(self).gateway.outstanding@.len() ==> final(self).gateway.outstanding@[g] == old(self).gateway.outstanding@[g]
                        &&& (final(self).gateway.outstanding@.last().creator@ == task.creator@)
                        &&& (final(self).gateway.outstanding@.last().index == task.index)
                        &&& (final(self).gateway.outstanding@.last().account@ == account@)
                        &&& (final(self).gateway.outstanding@.last().token@ == t.token@)
                        &&& (final(self).gateway.outstanding@.last().amount
                            == t.amount_per_account)
                    }
                }),
    {
        let account_for_transfer = account.clone();
        match self.tasks.claim(&task.creator, task.index, account) {
            Err(e) => Err(e),
            Ok((token_out, amount_out)) => {
                proof {
                    let pre = old(self).tasks.tasks@;
                    let i = choose|i: int|
                        #![auto]
                        0 <= i < pre.len() && pre[i].creator@ == task.creator@ && pre[i].index
                            == task.index && !pre[i].has_claimed(account@);
                    assert forall|g: int|
                        0 <= g < self.gateway.outstanding@.len() implies !(
                    self.gateway.outstanding@[g].creator@ == task.creator@
                        && self.gateway.outstanding@[g].index == task.index
                        && self.gateway.outstanding@[g].account@ == account@) by {
                        if self.gateway.outstanding@[g].creator@ == task.creator@
                            && self.gateway.outstanding@[g].index == task.index
                            && self.gateway.outstanding@[g].account@ == account@ {
                            assert(entry_covered(pre, self.gateway.outstanding@[g]));
                            let j = choose|j: int|
                                0 <= j < pre.len() && (#[trigger] pre[j]).creator@
                                    == task.creator@ && pre[j].index == task.index
                                    && pre[j].has_claimed(account@);
                            assert(j == i);
                        }
                    }
                }
                let transfer = PendingTransfer {
                    creator: task.creator.clone(),
                    index: task.index,
                    account: account_for_transfer,
                    token: token_out,
                    amount: amount_out,
                };
                proof {
                    let pre = old(self).tasks.tasks@;
                    let post = self.tasks.tasks@;
                    let i = choose|i: int|
                        #![auto]
                        0 <= i < pre.len() && pre[i].creator@ == task.creator@ && pre[i].index
                            == task.index && !pre[i].has_claimed(account@) && claim_added(
                            pre[i],
                            post[i],
                            account,
                        );
                    assert forall|g: int|
                        0 <= g < self.gateway.outstanding@.len() implies entry_covered(
                        post,
                        #[trigger] self.gateway.outstanding@[g],
                    ) by {
                        assert(entry_covered(pre, self.gateway.outstanding@[g]));
                        let j = choose|j: int|
                            0 <= j < pre.len() && (#[trigger] pre[j]).creator@
                                == self.gateway.outstanding@[g].creator@ && pre[j].index
                                == self.gateway.outstanding@[g].index && pre[j].has_claimed(
                                self.gateway.outstanding@[g].account@,
                            );
                        if j == i {
                            let acct = self.gateway.outstanding@[g].account@;
                            let m = choose|m: int|
                                0 <= m < pre[i].claimed_accounts@.len()
                                    && pre[i].claimed_accounts@[m]@ == acct;
                            assert(post[i].claimed_accounts@[m]@ == acct);
                            assert(post[i].has_claimed(acct));
                            assert(post[i].creator@ == pre[i].creator@ && post[i].index
                                == pre[i].index);
                        } else {
                            assert(post[j] == pre[j]);
                        }
                    }
                    assert(post[i].has_claimed(account@)) by {
                        assert(post[i].claimed_accounts@.last()@ == account@);
                    }
                }
                self.gateway.register_outbound(transfer);
                proof {
                    let post = self.tasks.tasks@;
                    assert forall|g: int|
                        0 <= g < self.gateway.outstanding@.len() implies entry_covered(
                        post,
                        #[trigger] self.gateway.outstanding@[g],
                    ) by {
                        if g == self.gateway.outstanding@.len() - 1 {
                            let i = choose|i: int|
                                #![auto]
                                0 <= i < old(self).tasks.tasks@.len()
                                    && old(self).tasks.tasks@[i].creator@ == task.creator@ && old(self).tasks.tasks@[i].index == task.index && !old(self).tasks.tasks@[i].has_claimed(account@) && claim_added(
                                    old(self).tasks.tasks@[i],
                                    post[i],
                                    account,
                                );
                            assert(post[i].claimed_accounts@.last()@ == account@);
                            assert(post[i].has_claimed(account@));
                            assert(post[i].creator@ == task.creator@ && post[i].index
                                == task.index);
                        }
                    }
                }
                proof {
                    let pre = old(self).tasks.tasks@;
                    let post = self.tasks.tasks@;
                    let i = choose|i: int|
                        #![auto]
                        0 <= i < pre.len() && pre[i].creator@ == task.creator@ && pre[i].index
                            == task.index && !pre[i].has_claimed(account@) && claim_added(
                            pre[i],
                            post[i],
                            account,
                        );
                    assert forall|j: int| 0 <= j < pre.len() implies (#[trigger] post[j]).funded
                        == pre[j].funded && post[j].creator@ == pre[j].creator@ && post[j].token@
                        == pre[j].token@ && post[j].total_count == pre[j].total_count
                        && post[j].amount_per_account == pre[j].amount_per_account by {
                        if j != i {
                            assert(post[j] == pre[j]);
                        }
                    }
                    lemma_committed_same(pre, post);
                    assert forall|o: Seq<char>, t: Seq<char>| #[trigger]
                        avail_of(self.tasks.funds@, o, t) + sum_committed(post, o, t)
                            == sum_amounts(self.ledger.records@, o, t) by {
                        assert(avail_of(old(self).tasks.funds@, o, t) + sum_committed(pre, o, t)
                            == sum_amounts(old(self).ledger.records@, o, t));
                        assert(sum_committed(post, o, t) == sum_committed(pre, o, t));
                    }
                }
                Ok(())
            },
        }
    }

    /// Confirming step of an outbound payout, delivered by the host with
    /// the transfer's outcome and the context it was issued under.  On
    /// success the claim stands and only the outstanding entry is
    /// settled.  On failure the claim is rolled back, restoring the
    /// account's eligibility.  A confirmation matching nothing
    /// outstanding (a duplicate delivery) changes nothing, so the
    /// rollback can never be applied twice.
    pub fn resolve_transfer(&mut self, task: &TaskRef, account: &String, success: bool)
        requires
            old(self).wf(),
        ensures
            final(self).wf(),
            final(self).registry == old(self).registry,
            final(self).ledger == old(self).ledger,
            final(self).tasks.funds@ == old(self).tasks.funds@,
            !old(self).gateway.has_outstanding(task.creator@, task.index, account@) ==> *final(self) == *old(self),
            old(self).gateway.has_outstanding(task.creator@, task.index, account@) ==> {
                &&& exists|k: int|
                    0 <= k < old(self).gateway.outstanding@.len() && old(self).gateway.outstanding@[k].creator@ == task.creator@ && old(self).gateway.outstanding@[k].index == task.index && old(self).gateway.outstanding@[k].account@ == account@ && final(self).gateway.outstanding@ == old(self).gateway.outstanding@.remove(k)
                &&& !final(self).gateway.has_outstanding(task.creator@, task.index, account@)
                &&& (success ==> final(self).tasks == old(self).tasks)
                &&& (!success ==> exists|i: int, m: int|
                    #![auto]
                    0 <= i < old(self).tasks.tasks@.len() && old(self).tasks.tasks@[i].creator@
                        == task.creator@ && old(self).tasks.tasks@[i].index == task.index
                        && claim_removed(
                        old(self).tasks.tasks@[i],
                        final(self).tasks.tasks@[i],
                        m,
                        account@,
                    ) && final(self).tasks.tasks@.len() == old(self).tasks.tasks@.len() && (
                    forall|j: int|
                        0 <= j < old(self).tasks.tasks@.len() && j != i ==> final(self).tasks.tasks@[j] == old(self).tasks.tasks@[j]) && !final(self).tasks.tasks@[i].has_claimed(account@))
            },
    {
        let matched = self.gateway.resolve(&task.creator, task.index, account);
        if !matched {
            return ;
        }
        let ghost out0 = old(self).gateway.outstanding@;
        let ghost k = choose|k: int|
            0 <= k < out0.len() && out0[k].creator@ == task.creator@ && out0[k].index == task.index
                && out0[k].account@ == account@ && self.gateway.outstanding@ == out0.remove(k);
        if success {
            proof {
                assert forall|g: int|
                    0 <= g < self.gateway.outstanding@.len() implies entry_covered(
                    self.tasks.tasks@,
                    #[trigger] self.gateway.outstanding@[g],
                ) by {
                    if g < k {
                        assert(self.gateway.outstanding@[g] == out0[g]);
                        assert(entry_covered(self.tasks.tasks@, out0[g]));
                    } else {
                        assert(self.gateway.outstanding@[g] == out0[g + 1]);
                        assert(entry_covered(self.tasks.tasks@, out0[g + 1]));
                    }
                }
            }
            return ;
        }
        proof {
            assert(entry_covered(old(self).tasks.tasks@, out0[k]));
        }
        let rolled_back = self.tasks.rollback_claim(&task.creator, task.index, account);
        proof {
            assert(rolled_back);
            let pre = old(self).tasks.tasks@;
            let post = self.tasks.tasks@;
            let (i, m): (int, int) = choose|i: int, m: int|
                #![auto]
                0 <= i < pre.len() && pre[i].creator@ == task.creator@ && pre[i].index
                    == task.index && claim_removed(pre[i], post[i], m, account@) && post.len()
                    == pre.len() && (forall|j: int| 0 <= j < pre.len() && j != i ==> post[j]
                    == pre[j]) && !post[i].has_claimed(account@);
            assert forall|g: int| 0 <= g < self.gateway.outstanding@.len() implies entry_covered(
                post,
                #[trigger] self.gateway.outstanding@[g],
            ) by {
                let gold: int = if g < k {
                    g
                } else {
                    g + 1
                };
                assert(self.gateway.outstanding@[g] == out0[gold]);
                assert(entry_covered(pre, out0[gold]));
                let e = out0[gold];
                let j = choose|j: int|
                    0 <= j < pre.len() && (#[trigger] pre[j]).creator@ == e.creator@ && pre[j].index
                        == e.index && pre[j].has_claimed(e.account@);
                if j != i {
                    assert(post[j] == pre[j]);
                } else {
                    assert(e.creator@ == task.creator@ && e.index == task.index);
                    assert(e.account@ != account@) by {
                        if e.account@ == account@ {
                            assert(old(self).gateway.wf());
                            assert(out0[gold].creator@ == out0[k].creator@ && out0[gold].index
                                == out0[k].index && out0[gold].account@ == out0[k].account@);
                            assert(gold != k);
                            if gold < k {
                                assert(false);
                            } else {
                                assert(false);
                            }
                        }
                    }
                    let p = choose|p: int|
                        0 <= p < pre[i].claimed_accounts@.len() && pre[i].claimed_accounts@[p]@
                            == e.account@;
                    assert(pre[i].claimed_accounts@[m]@ == account@);
                    assert(p != m);
                    if p < m {
                        assert(post[i].claimed_accounts@[p]@ == e.account@);
                    } else {
                        assert(post[i].claimed_accounts@[p - 1]@ == e.account@);
                    }
                    assert(post[i].has_claimed(e.account@));
                    assert(post[i].creator@ == e.creator@ && post[i].index == e.index);
                }
            }
            assert forall|j: int| 0 <= j < pre.len() implies (#[trigger] post[j]).funded
                == pre[j].funded && post[j].creator@ == pre[j].creator@ && post[j].token@
                == pre[j].token@ && post[j].total_count == pre[j].total_count
                && post[j].amount_per_account == pre[j].amount_per_account by {
                if j != i {
                    assert(post[j] == pre[j]);
                }
            }
            lemma_committed_same(pre, post);
            assert forall|o: Seq<char>, t: Seq<char>| #[trigger]
                avail_of(self.tasks.funds@, o, t) + sum_committed(post, o, t) == sum_amounts(
                self.ledger.records@,
                o,
                t,
            ) by {
                assert(avail_of(old(self).tasks.funds@, o, t) + sum_committed(pre, o, t)
                    == sum_amounts(old(self).ledger.records@, o, t));
                assert(sum_committed(post, o, t) == sum_committed(pre, o, t));
            }
        }
    }
}

/// Claim coverage survives appending tasks.
proof fn lemma_cover_extend(
    pre: Seq<tasks::Task>,
    post: Seq<tasks::Task>,
    outstanding: Seq<PendingTransfer>,
)
    requires
        claims_cover(pre, outstanding),
        post.len() >= pre.len(),
        forall|j: int| 0 <= j < pre.len() ==> post[j] == pre[j],
    ensures
        claims_cover(post, outstanding),
{
    assert forall|g: int| 0 <= g < outstanding.len() implies entry_covered(
        post,
        #[trigger] outstanding[g],
    ) by {
        assert(entry_covered(pre, outstanding[g]));
        let i = choose|i: int|
            0 <= i < pre.len() && (#[trigger] pre[i]).creator@ == outstanding[g].creator@
                && pre[i].index == outstanding[g].index && pre[i].has_claimed(
                outstanding[g].account@,
            );
        assert(post[i] == pre[i]);
        assert(0 <= i < post.len() && post[i].creator@ == outstanding[g].creator@ && post[i].index
            == outstanding[g].index && post[i].has_claimed(outstanding[g].account@));
    }
}

/// Claim coverage survives the funding pass, which only confirms funding
/// flags.
proof fn lemma_cover_flags(
    pre: Seq<tasks::Task>,
    post: Seq<tasks::Task>,
    outstanding: Seq<PendingTransfer>,
)
    requires
        claims_cover(pre, outstanding),
        post.len() == pre.len(),
        forall|j: int|
            0 <= j < pre.len() ==> post[j] == pre[j] || post[j] == tasks::set_funded(pre[j]),
    ensures
        claims_cover(post, outstanding),
{
    assert forall|g: int| 0 <= g < outstanding.len() implies entry_covered(
        post,
        #[trigger] outstanding[g],
    ) by {
        assert(entry_covered(pre, outstanding[g]));
        let i = choose|i: int|
            0 <= i < pre.len() && (#[trigger] pre[i]).creator@ == outstanding[g].creator@
                && pre[i].index == outstanding[g].index && pre[i].has_claimed(
                outstanding[g].account@,
            );
        assert(post[i] == pre[i] || post[i] == tasks::set_funded(pre[i]));
        assert(post[i].creator@ == outstanding[g].creator@ && post[i].index
            == outstanding[g].index);
        assert(post[i].claimed_accounts@ == pre[i].claimed_accounts@);
        assert(post[i].has_claimed(outstanding[g].account@));
    }
}

/// In every consistent engine state, no task holds more claims than its
/// cap, and no account appears twice in any task's claim list.  Every
/// operation of the engine requires and preserves `wf`, so this holds at
/// every observation point.
pub proof fn lemma_claims_bounded(a: Airdrop)
    requires
        a.wf(),
    ensures
        forall|i: int|
            0 <= i < a.tasks.tasks@.len() ==> (#[trigger] a.tasks.tasks@[i]).claim_count()
                <= a.tasks.tasks@[i].total_count,
        forall|i: int, p: int, q: int|
            #![trigger a.tasks.tasks@[i].claimed_accounts@[p], a.tasks.tasks@[i].claimed_accounts@[q]]
            0 <= i < a.tasks.tasks@.len() && 0 <= p < q
                < a.tasks.tasks@[i].claimed_accounts@.len()
                ==> a.tasks.tasks@[i].claimed_accounts@[p]@
                != a.tasks.tasks@[i].claimed_accounts@[q]@,
{
    assert forall|i: int, p: int, q: int|
        #![trigger a.tasks.tasks@[i].claimed_accounts@[p], a.tasks.tasks@[i].claimed_accounts@[q]]
        0 <= i < a.tasks.tasks@.len() && 0 <= p < q
            < a.tasks.tasks@[i].claimed_accounts@.len() implies
        a.tasks.tasks@[i].claimed_accounts@[p]@ != a.tasks.tasks@[i].claimed_accounts@[q]@ by {
        assert(a.tasks.tasks@[i].wf());
    }
}

} // verus!
