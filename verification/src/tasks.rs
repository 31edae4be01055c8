//! TaskManager: lifecycle of distribution tasks and custody accounting.
//!
//! A task offers a fixed per-account payout to up to `total_count` distinct
//! claimants.  It is created pending and becomes active only once
//! `total_count * amount_per_account` of its token is in confirmed custody
//! for its creator; custody is credited by the deposit router and debited
//! atomically at activation, so a task never opens with less than its full
//! funding.  Claims are recorded synchronously, before any outbound
//! transfer is requested, and removed only by the rollback path.

use vstd::prelude::*;
use crate::errors::ErrorKind;

verus! {

/// Flat native-currency price of storing one task.
pub const TASK_STORAGE_COST: u128 = 1;

/// A distribution task.
pub struct Task {
    /// The funder who created the task.
    pub creator: String,
    /// The token the payouts are made in.
    pub token: String,
    /// Cap on the number of distinct claiming accounts.
    pub total_count: u32,
    /// Fixed payout per claiming account.
    pub amount_per_account: u128,
    /// Position of the campaign among its creator's tasks; `(creator, index)`
    /// identifies the task and never changes.
    pub index: u32,
    /// Native-currency storage deposit attached at creation.
    pub deposit_near: u128,
    /// Whether full funding has been confirmed in custody.
    pub funded: bool,
    /// Accounts that hold a claim; each appears at most once, and each is
    /// owed exactly `amount_per_account`.
    pub claimed_accounts: Vec<String>,
}

/// The mathematical value of a [`Task`].
pub struct TaskView {
    pub creator: Seq<char>,
    pub token: Seq<char>,
    pub total_count: u32,
    pub amount_per_account: u128,
    pub index: u32,
    pub deposit_near: u128,
    pub funded: bool,
    pub claimed_accounts: Seq<Seq<char>>,
}

impl View for Task {
    type V = TaskView;

    open spec fn view(&self) -> TaskView {
        TaskView {
            creator: self.creator@,
            token: self.token@,
            total_count: self.total_count,
            amount_per_account: self.amount_per_account,
            index: self.index,
            deposit_near: self.deposit_near,
            funded: self.funded,
            claimed_accounts: self.claimed_accounts@.map_values(|a: String| a@),
        }
    }
}

impl Task {
    /// The full funding the task requires: `total_count *
    /// amount_per_account`, as an unbounded integer.
    pub open spec fn total_amount(self) -> int {
        self.total_count * self.amount_per_account
    }

    /// Whether `account` holds a claim.
    pub open spec fn has_claimed(self, account: Seq<char>) -> bool {
        exists|i: int|
            0 <= i < self.claimed_accounts@.len() && self.claimed_accounts@[i]@ == account
    }

    /// Number of recorded claims.
    pub open spec fn claim_count(self) -> int {
        self.claimed_accounts@.len() as int
    }

    /// Awaiting funding; not yet open to claimants.
    pub open spec fn is_pending(self) -> bool {
        !self.funded
    }

    /// Funded and still offering unclaimed slots.
    pub open spec fn is_active(self) -> bool {
        self.funded && self.claim_count() < self.total_count
    }

    /// Funded and fully claimed; accepts no further claims.
    pub open spec fn is_exhausted(self) -> bool {
        self.funded && self.claim_count() == self.total_count
    }

    /// Internal consistency of one task: the claim list never exceeds the
    /// cap, no account appears twice, the full funding fits the amount
    /// type, and an unfunded task has no claims.
    pub open spec fn wf(self) -> bool {
        &&& self.claim_count() <= self.total_count
        &&& forall|i: int, j: int|
            0 <= i < j < self.claimed_accounts@.len() ==> self.claimed_accounts@[i]@
                != self.claimed_accounts@[j]@
        &&& self.total_amount() <= u128::MAX
        &&& (!self.funded ==> self.claim_count() == 0)
    }
}

/// The task `t` with its funding confirmed; everything else unchanged.
pub open spec fn set_funded(t: Task) -> Task {
    Task {
        creator: t.creator,
        token: t.token,
        total_count: t.total_count,
        amount_per_account: t.amount_per_account,
        index: t.index,
        deposit_near: t.deposit_near,
        funded: true,
        claimed_accounts: t.claimed_accounts,
    }
}

/// `post` is `pre` with `account`'s claim appended and all other fields
/// untouched.
pub open spec fn claim_added(pre: Task, post: Task, account: String) -> bool {
    &&& post.creator == pre.creator
    &&& post.token == pre.token
    &&& post.total_count == pre.total_count
    &&& post.amount_per_account == pre.amount_per_account
    &&& post.index == pre.index
    &&& post.deposit_near == pre.deposit_near
    &&& post.funded == pre.funded
    &&& post.claimed_accounts@ == pre.claimed_accounts@.push(account)
}

/// `post` is `pre` with the claim at position `k` (held by `account`)
/// removed and all other fields untouched.
pub open spec fn claim_removed(pre: Task, post: Task, k: int, account: Seq<char>) -> bool {
    &&& 0 <= k < pre.claimed_accounts@.len()
    &&& pre.claimed_accounts@[k]@ == account
    &&& post.creator == pre.creator
    &&& post.token == pre.token
    &&& post.total_count == pre.total_count
    &&& post.amount_per_account == pre.amount_per_account
    &&& post.index == pre.index
    &&& post.deposit_near == pre.deposit_near
    &&& post.funded == pre.funded
    &&& post.claimed_accounts@ == pre.claimed_accounts@.remove(k)
}

/// A stable reference to a task: its creator and its position among that
/// creator's tasks.
#[derive(Debug)]
pub struct TaskRef {
    pub creator: String,
    pub index: u32,
}

/// Externally observable lifecycle stage of a task.
#[derive(Clone, Copy, Debug, PartialEq, Eq, Structural)]
pub enum TaskState {
    /// Awaiting funding.
    Pending,
    /// Funded, with unclaimed slots left.
    Active,
    /// Funded and fully claimed.
    Exhausted,
}

/// Custody available to `owner` in `token`: deposits credited and not yet
/// committed to an activated task.
pub struct FundEntry {
    pub owner: String,
    pub token: String,
    pub available: u128,
}

/// Custody available to `(owner, token)` in `s`: the balance of the last
/// entry with that key, or zero when there is none.
pub open spec fn avail_of(s: Seq<FundEntry>, owner: Seq<char>, token: Seq<char>) -> int
    decreases s.len(),
{
    if s.len() == 0 {
        0
    } else if s.last().owner@ == owner && s.last().token@ == token {
        s.last().available as int
    } else {
        avail_of(s.drop_last(), owner, token)
    }
}

/// No two fund entries share an `(owner, token)` key.
pub open spec fn unique_fund_keys(s: Seq<FundEntry>) -> bool {
    forall|i: int, j: int|
        0 <= i < j < s.len() ==> !(s[i].owner@ == s[j].owner@ && s[i].token@ == s[j].token@)
}

/// How many tasks in `s` belong to `creator`.
pub open spec fn count_tasks_of(s: Seq<Task>, creator: Seq<char>) -> int
    decreases s.len(),
{
    if s.len() == 0 {
        0
    } else {
        count_tasks_of(s.drop_last(), creator) + if s.last().creator@ == creator {
            1int
        } else {
            0int
        }
    }
}

/// Custody committed to activated tasks of `(owner, token)`: the sum of
/// the full funding of every funded task of that creator in that token.
pub open spec fn sum_committed(s: Seq<Task>, owner: Seq<char>, token: Seq<char>) -> int
    decreases s.len(),
{
    if s.len() == 0 {
        0
    } else {
        sum_committed(s.drop_last(), owner, token) + if s.last().funded && s.last().creator@
            == owner && s.last().token@ == token {
            s.last().total_amount()
        } else {
            0int
        }
    }
}

/// Confirming the funding of one pending task raises its own key's
/// committed custody by exactly its full funding, and no other key's.
proof fn lemma_committed_fund_update(s: Seq<Task>, i: int)
    requires
        0 <= i < s.len(),
        !s[i].funded,
    ensures
        forall|o: Seq<char>, t: Seq<char>| #[trigger]
            sum_committed(s.update(i, set_funded(s[i])), o, t) == sum_committed(s, o, t) + if (
            s[i].creator@ == o && s[i].token@ == t) {
                s[i].total_amount()
            } else {
                0int
            },
    decreases s.len(),
{
    let s2 = s.update(i, set_funded(s[i]));
    if i == s.len() - 1 {
        assert forall|o: Seq<char>, t: Seq<char>| #[trigger]
            sum_committed(s2, o, t) == sum_committed(s, o, t) + if (s[i].creator@ == o
            && s[i].token@ == t) {
            s[i].total_amount()
        } else {
            0int
        } by {
            assert(s2.last() == set_funded(s[i]));
            assert(s2.drop_last() =~= s.drop_last());
        }
    } else {
        assert(s.drop_last()[i] == s[i]);
        lemma_committed_fund_update(s.drop_last(), i);
        assert forall|o: Seq<char>, t: Seq<char>| #[trigger]
            sum_committed(s2, o, t) == sum_committed(s, o, t) + if (s[i].creator@ == o
            && s[i].token@ == t) {
            s[i].total_amount()
        } else {
            0int
        } by {
            assert(s2.last() == s.last());
            assert(s2.drop_last() =~= s.drop_last().update(i, set_funded(s[i])));
            assert(sum_committed(s2.drop_last(), o, t) == sum_committed(s.drop_last(), o, t) + if (
            s[i].creator@ == o && s[i].token@ == t) {
                s[i].total_amount()
            } else {
                0int
            });
        }
    }
}

/// The funding pass conserves custody: for its own key, what it debits
/// from the available balance it adds, exactly, to the committed sum; no
/// other key's committed sum moves.
pub proof fn lemma_activate_from_conserves(
    tasks: Seq<Task>,
    owner: Seq<char>,
    token: Seq<char>,
    avail: u128,
    i: int,
)
    ensures
        activate_from(tasks, owner, token, avail, i).1 + sum_committed(
            activate_from(tasks, owner, token, avail, i).0,
            owner,
            token,
        ) == avail + sum_committed(tasks, owner, token),
        forall|o: Seq<char>, t: Seq<char>|
            !(o == owner && t == token) ==> #[trigger] sum_committed(
                activate_from(tasks, owner, token, avail, i).0,
                o,
                t,
            ) == sum_committed(tasks, o, t),
    decreases tasks.len() - i,
{
    if 0 <= i < tasks.len() {
        let t0 = tasks[i];
        if t0.creator@ == owner && t0.token@ == token && !t0.funded && t0.total_amount()
            <= avail {
            let tasks2 = tasks.update(i, set_funded(t0));
            lemma_committed_fund_update(tasks, i);
            lemma_activate_from_conserves(
                tasks2,
                owner,
                token,
                (avail - t0.total_amount()) as u128,
                i + 1,
            );
        } else {
            lemma_activate_from_conserves(tasks, owner, token, avail, i + 1);
        }
    }
}

/// Committed custody depends only on each position's funding flag,
/// creator, token, and full funding — never on the claim lists.
pub proof fn lemma_committed_same(pre: Seq<Task>, post: Seq<Task>)
    requires
        pre.len() == post.len(),
        forall|j: int|
            0 <= j < pre.len() ==> (#[trigger] post[j]).funded == pre[j].funded
                && post[j].creator@ == pre[j].creator@ && post[j].token@ == pre[j].token@
                && post[j].total_count == pre[j].total_count && post[j].amount_per_account
                == pre[j].amount_per_account,
    ensures
        forall|o: Seq<char>, t: Seq<char>| #[trigger]
            sum_committed(post, o, t) == sum_committed(pre, o, t),
    decreases pre.len(),
{
    if pre.len() > 0 {
        assert forall|j: int|
            0 <= j < pre.drop_last().len() implies (#[trigger] post.drop_last()[j]).funded
            == pre.drop_last()[j].funded && post.drop_last()[j].creator@
            == pre.drop_last()[j].creator@ && post.drop_last()[j].token@
            == pre.drop_last()[j].token@ && post.drop_last()[j].total_count
            == pre.drop_last()[j].total_count && post.drop_last()[j].amount_per_account
            == pre.drop_last()[j].amount_per_account by {
            assert(post.drop_last()[j] == post[j]);
            assert(pre.drop_last()[j] == pre[j]);
        }
        lemma_committed_same(pre.drop_last(), post.drop_last());
        assert(post.last().funded == pre.last().funded && post.last().creator@
            == pre.last().creator@ && post.last().token@ == pre.last().token@
            && post.last().total_amount() == pre.last().total_amount());
        assert forall|o: Seq<char>, t: Seq<char>| #[trigger]
            sum_committed(post, o, t) == sum_committed(pre, o, t) by {
            assert(sum_committed(post.drop_last(), o, t) == sum_committed(pre.drop_last(), o, t));
        }
    }
}

/// Appending a task adds its full funding to its own key's committed sum
/// when it enters funded, and moves no other key's.
pub proof fn lemma_committed_push(s: Seq<Task>, task: Task)
    ensures
        forall|o: Seq<char>, t: Seq<char>| #[trigger]
            sum_committed(s.push(task), o, t) == sum_committed(s, o, t) + if (task.funded
            && task.creator@ == o && task.token@ == t) {
                task.total_amount()
            } else {
                0int
            },
{
    assert(s.push(task).last() == task);
    assert(s.push(task).drop_last() =~= s);
}

/// Whether some task in `s` is identified by `(creator, index)`.
pub open spec fn has_task(s: Seq<Task>, creator: Seq<char>, index: u32) -> bool {
    exists|i: int| 0 <= i < s.len() && s[i].creator@ == creator && s[i].index == index
}

/// The greedy funding pass: walk the tasks from position `i` on and, for
/// each pending task of `(owner, token)` whose full funding fits the
/// custody still available, confirm its funding and debit the custody.
/// Returns the tasks after the pass and the custody left over.
pub open spec fn activate_from(
    tasks: Seq<Task>,
    owner: Seq<char>,
    token: Seq<char>,
    avail: u128,
    i: int,
) -> (Seq<Task>, u128)
    decreases tasks.len() - i,
{
    if i < 0 || i >= tasks.len() {
        (tasks, avail)
    } else {
        let t = tasks[i];
        if t.creator@ == owner && t.token@ == token && !t.funded && t.total_amount() <= avail {
            activate_from(
                tasks.update(i, set_funded(t)),
                owner,
                token,
                (avail - t.total_amount()) as u128,
                i + 1,
            )
        } else {
            activate_from(tasks, owner, token, avail, i + 1)
        }
    }
}

/// Replacing one entry by another with the same key changes that key's
/// custody to the new balance and no other key's.
proof fn lemma_avail_update(s: Seq<FundEntry>, i: int, e: FundEntry)
    requires
        0 <= i < s.len(),
        e.owner@ == s[i].owner@,
        e.token@ == s[i].token@,
        forall|j: int|
            0 <= j < s.len() && j != i ==> !(s[j].owner@ == s[i].owner@ && s[j].token@
                == s[i].token@),
    ensures
        avail_of(s.update(i, e), s[i].owner@, s[i].token@) == e.available,
        forall|o: Seq<char>, t: Seq<char>|
            !(o == s[i].owner@ && t == s[i].token@) ==> #[trigger] avail_of(s.update(i, e), o, t)
                == avail_of(s, o, t),
    decreases s.len(),
{
    let s2 = s.update(i, e);
    let v = e.available;
    let ko = s[i].owner@;
    let kt = s[i].token@;
    if i == s.len() - 1 {
        assert(s2.last() == e);
        assert(s2.drop_last() =~= s.drop_last());
        assert(avail_of(s2, ko, kt) == v);
        assert forall|o: Seq<char>, t: Seq<char>| !(o == ko && t == kt) implies #[trigger] avail_of(
            s2,
            o,
            t,
        ) == avail_of(s, o, t) by {
            assert(avail_of(s2, o, t) == avail_of(s2.drop_last(), o, t));
            assert(avail_of(s, o, t) == avail_of(s.drop_last(), o, t));
        }
    } else {
        assert(s2.last() == s.last());
        assert(s2.drop_last() =~= s.drop_last().update(i, e));
        assert(s.drop_last()[i] == s[i]);
        lemma_avail_update(s.drop_last(), i, e);
        assert(!(s.last().owner@ == ko && s.last().token@ == kt));
        assert(avail_of(s2, ko, kt) == avail_of(s2.drop_last(), ko, kt));
        assert forall|o: Seq<char>, t: Seq<char>| !(o == ko && t == kt) implies #[trigger] avail_of(
            s2,
            o,
            t,
        ) == avail_of(s, o, t) by {
            if s.last().owner@ == o && s.last().token@ == t {
                assert(avail_of(s2, o, t) == s.last().available as int);
                assert(avail_of(s, o, t) == s.last().available as int);
            } else {
                assert(avail_of(s2, o, t) == avail_of(s2.drop_last(), o, t));
                assert(avail_of(s, o, t) == avail_of(s.drop_last(), o, t));
            }
        }
    }
}

/// Appending an entry with a fresh key sets that key's custody to the new
/// balance and leaves every other key's custody as it was.
proof fn lemma_avail_push(s: Seq<FundEntry>, e: FundEntry)
    ensures
        avail_of(s.push(e), e.owner@, e.token@) == e.available,
        forall|o: Seq<char>, t: Seq<char>|
            !(o == e.owner@ && t == e.token@) ==> #[trigger] avail_of(s.push(e), o, t) == avail_of(
                s,
                o,
                t,
            ),
{
    assert(s.push(e).last() == e);
    assert(s.push(e).drop_last() =~= s);
}

/// A key matched by no entry has zero custody.
proof fn lemma_avail_absent(s: Seq<FundEntry>, owner: Seq<char>, token: Seq<char>)
    requires
        forall|j: int| 0 <= j < s.len() ==> !(s[j].owner@ == owner && s[j].token@ == token),
    ensures
        avail_of(s, owner, token) == 0,
    decreases s.len(),
{
    if s.len() > 0 {
        lemma_avail_absent(s.drop_last(), owner, token);
    }
}

/// The funding pass touches nothing but the `funded` flags: every task
/// either stays as it was or has exactly its funding confirmed, and tasks
/// before the start position stay as they were.
pub proof fn lemma_activate_from_pointwise(
    tasks: Seq<Task>,
    owner: Seq<char>,
    token: Seq<char>,
    avail: u128,
    i: int,
)
    ensures
        activate_from(tasks, owner, token, avail, i).0.len() == tasks.len(),
        forall|j: int|
            0 <= j < tasks.len() ==> #[trigger] activate_from(tasks, owner, token, avail, i).0[j]
                == tasks[j] || activate_from(tasks, owner, token, avail, i).0[j] == set_funded(
                tasks[j],
            ),
        forall|j: int|
            0 <= j < tasks.len() && j < i ==> #[trigger] activate_from(
                tasks,
                owner,
                token,
                avail,
                i,
            ).0[j] == tasks[j],
    decreases tasks.len() - i,
{
    if 0 <= i < tasks.len() {
        let t = tasks[i];
        if t.creator@ == owner && t.token@ == token && !t.funded && t.total_amount() <= avail {
            let tasks2 = tasks.update(i, set_funded(t));
            lemma_activate_from_pointwise(
                tasks2,
                owner,
                token,
                (avail - t.total_amount()) as u128,
                i + 1,
            );
            assert forall|j: int| 0 <= j < tasks.len() implies #[trigger] activate_from(
                tasks,
                owner,
                token,
                avail,
                i,
            ).0[j] == tasks[j] || activate_from(tasks, owner, token, avail, i).0[j] == set_funded(
                tasks[j],
            ) by {
                assert(tasks2[j] == tasks[j] || tasks2[j] == set_funded(tasks[j]));
            }
        } else {
            lemma_activate_from_pointwise(tasks, owner, token, avail, i + 1);
        }
    }
}

/// With unique keys, the custody of a key is the balance of its one entry.
proof fn lemma_avail_at(s: Seq<FundEntry>, i: int)
    requires
        0 <= i < s.len(),
        forall|j: int|
            0 <= j < s.len() && j != i ==> !(s[j].owner@ == s[i].owner@ && s[j].token@
                == s[i].token@),
    ensures
        avail_of(s, s[i].owner@, s[i].token@) == s[i].available,
    decreases s.len(),
{
    if i == s.len() - 1 {
    } else {
        assert(!(s.last().owner@ == s[i].owner@ && s.last().token@ == s[i].token@));
        assert(s.drop_last()[i] == s[i]);
        lemma_avail_at(s.drop_last(), i);
    }
}

/// Appending a task raises its creator's task count by one and no one
/// else's.
proof fn lemma_count_push(s: Seq<Task>, t: Task)
    ensures
        forall|c: Seq<char>| #[trigger]
            count_tasks_of(s.push(t), c) == count_tasks_of(s, c) + if t.creator@ == c {
                1int
            } else {
                0int
            },
{
    assert(s.push(t).last() == t);
    assert(s.push(t).drop_last() =~= s);
}

/// Task counts depend only on each position's creator.
proof fn lemma_count_same(pre: Seq<Task>, post: Seq<Task>)
    requires
        pre.len() == post.len(),
        forall|j: int| 0 <= j < pre.len() ==> post[j].creator@ == pre[j].creator@,
    ensures
        forall|c: Seq<char>| #[trigger] count_tasks_of(post, c) == count_tasks_of(pre, c),
    decreases pre.len(),
{
    if pre.len() > 0 {
        assert(pre.drop_last().len() == post.drop_last().len());
        assert forall|j: int| 0 <= j < pre.drop_last().len() implies post.drop_last()[j].creator@
            == pre.drop_last()[j].creator@ by {
            assert(post.drop_last()[j] == post[j]);
        }
        lemma_count_same(pre.drop_last(), post.drop_last());
        assert(post.last().creator@ == pre.last().creator@);
        assert forall|c: Seq<char>| #[trigger] count_tasks_of(post, c) == count_tasks_of(
            pre,
            c,
        ) by {
            assert(count_tasks_of(post.drop_last(), c) == count_tasks_of(pre.drop_last(), c));
        }
    }
}

/// A claim that is rolled back leaves the task exactly as before the
/// claim: when an account with no prior claim claims and the payout's
/// failure confirmation then removes that claim, the claim list — and
/// with it the remaining count — is restored, and the account is eligible
/// again.
pub proof fn lemma_claim_rollback_restores(pre: Task, mid: Task, post: Task, account: String, m: int)
    requires
        !pre.has_claimed(account@),
        claim_added(pre, mid, account),
        claim_removed(mid, post, m, account@),
    ensures
        post.claimed_accounts@ == pre.claimed_accounts@,
        post.claim_count() == pre.claim_count(),
        post.creator == pre.creator,
        post.token == pre.token,
        post.total_count == pre.total_count,
        post.amount_per_account == pre.amount_per_account,
        post.index == pre.index,
        post.deposit_near == pre.deposit_near,
        post.funded == pre.funded,
        !post.has_claimed(account@),
{
    assert(m == pre.claimed_accounts@.len()) by {
        if m < pre.claimed_accounts@.len() {
            assert(mid.claimed_accounts@[m] == pre.claimed_accounts@[m]);
            assert(pre.claimed_accounts@[m]@ == account@);
        }
    }
    assert(post.claimed_accounts@ =~= pre.claimed_accounts@);
}

impl Task {
    /// Position of `account` in the claim list, if it holds a claim.
    fn find_claim(&self, account: &String) -> (r: Option<usize>)
        ensures
            match r {
                Some(k) => k < self.claimed_accounts@.len() && self.claimed_accounts@[k as int]@
                    == account@,
                None => !self.has_claimed(account@),
            },
    {
        let mut k: usize = 0;
        while k < self.claimed_accounts.len()
            invariant
                k <= self.claimed_accounts@.len(),
                forall|j: int| 0 <= j < k ==> self.claimed_accounts@[j]@ != account@,
            decreases self.claimed_accounts@.len() - k,
        {
            if self.claimed_accounts[k] == *account {
                return Some(k);
            }
            k = k + 1;
        }
        None
    }
}

/// Owns the task table and the custody balances that fund task activation.
pub struct TaskManager {
    /// All tasks, in creation order.
    pub tasks: Vec<Task>,
    /// Custody available per `(owner, token)`, credited by deposits and
    /// debited when a task of that owner activates.
    pub funds: Vec<FundEntry>,
}

impl TaskManager {
    /// Internal consistency: every task is well formed, `(creator, index)`
    /// keys are unique with indices assigned sequentially, and fund
    /// entries have unique keys.
    pub open spec fn wf(self) -> bool {
        &&& unique_fund_keys(self.funds@)
        &&& forall|i: int| 0 <= i < self.tasks@.len() ==> (#[trigger] self.tasks@[i]).wf()
        &&& forall|i: int|
            0 <= i < self.tasks@.len() ==> (#[trigger] self.tasks@[i]).index < count_tasks_of(
                self.tasks@,
                self.tasks@[i].creator@,
            )
        &&& forall|i: int, j: int|
            0 <= i < j < self.tasks@.len() ==> !(self.tasks@[i].creator@
                == self.tasks@[j].creator@ && self.tasks@[i].index == self.tasks@[j].index)
    }

    /// A manager with no tasks and no custody.
    pub fn empty() -> (r: TaskManager)
        ensures
            r.tasks@ =~= Seq::<Task>::empty(),
            r.funds@ =~= Seq::<FundEntry>::empty(),
            r.wf(),
    {
        TaskManager { tasks: Vec::new(), funds: Vec::new() }
    }

    /// Index of the fund entry for `(owner, token)`, if any.
    fn find_fund(&self, owner: &String, token: &String) -> (r: Option<usize>)
        ensures
            match r {
                Some(i) => i < self.funds@.len() && self.funds@[i as int].owner@ == owner@
                    && self.funds@[i as int].token@ == token@,
                None => forall|j: int|
                    0 <= j < self.funds@.len() ==> !(self.funds@[j].owner@ == owner@
                        && self.funds@[j].token@ == token@),
            },
    {
        let mut i: usize = 0;
        while i < self.funds.len()
            invariant
                i <= self.funds@.len(),
                forall|j: int|
                    0 <= j < i ==> !(self.funds@[j].owner@ == owner@ && self.funds@[j].token@
                        == token@),
            decreases self.funds@.len() - i,
        {
            if self.funds[i].owner == *owner && self.funds[i].token == *token {
                return Some(i);
            }
            i = i + 1;
        }
        None
    }

    /// Index of the task identified by `(creator, index)`, if any.
    fn find_task(&self, creator: &String, index: u32) -> (r: Option<usize>)
        ensures
            match r {
                Some(i) => i < self.tasks@.len() && self.tasks@[i as int].creator@ == creator@
                    && self.tasks@[i as int].index == index,
                None => !has_task(self.tasks@, creator@, index),
            },
    {
        let mut i: usize = 0;
        while i < self.tasks.len()
            invariant
                i <= self.tasks@.len(),
                forall|j: int|
                    0 <= j < i ==> !(self.tasks@[j].creator@ == creator@ && self.tasks@[j].index
                        == index),
            decreases self.tasks@.len() - i,
        {
            if self.tasks[i].creator == *creator && self.tasks[i].index == index {
                return Some(i);
            }
            i = i + 1;
        }
        None
    }

    /// Custody currently available to `(owner, token)`.
    pub fn available(&self, owner: &String, token: &String) -> (r: u128)
        requires
            self.wf(),
        ensures
            r == avail_of(self.funds@, owner@, token@),
    {
        match self.find_fund(owner, token) {
            Some(i) => {
                proof {
                    lemma_avail_at(self.funds@, i as int);
                }
                self.funds[i].available
            },
            None => {
                proof {
                    lemma_avail_absent(self.funds@, owner@, token@);
                }
                0
            },
        }
    }

    /// How many tasks `creator` has created.
    fn count_tasks(&self, creator: &String) -> (r: usize)
        ensures
            r == count_tasks_of(self.tasks@, creator@),
    {
        let mut r: usize = 0;
        let mut i: usize = 0;
        while i < self.tasks.len()
            invariant
                i <= self.tasks@.len(),
                r <= i,
                r == count_tasks_of(self.tasks@.subrange(0, i as int), creator@),
            decreases self.tasks@.len() - i,
        {
            proof {
                assert(self.tasks@.subrange(0, i + 1 as int).drop_last() =~= self.tasks@.subrange(
                    0,
                    i as int,
                ));
                assert(self.tasks@.subrange(0, i + 1 as int).last() == self.tasks@[i as int]);
            }
            if self.tasks[i].creator == *creator {
                r = r + 1;
            }
            i = i + 1;
        }
        proof {
            assert(self.tasks@.subrange(0, self.tasks@.len() as int) =~= self.tasks@);
        }
        r
    }

    /// Credits a confirmed deposit of `amount` in `token` to `owner`'s
    /// custody, then runs the funding pass: every pending task of
    /// `(owner, token)` whose full funding fits the custody still
    /// available, taken in creation order, becomes active and its funding
    /// is debited atomically.  Refuses (and changes nothing) only when the
    /// credited balance would not fit the amount type.
    pub fn deposit_and_activate(&mut self, owner: &String, token: &String, amount: u128) -> (r:
        Result<(), ErrorKind>)
        requires
            old(self).wf(),
        ensures
            final(self).wf(),
            avail_of(old(self).funds@, owner@, token@) + amount > u128::MAX ==> r == Err::<
                (),
                ErrorKind,
            >(ErrorKind::Overflow) && *final(self) == *old(self),
            avail_of(old(self).funds@, owner@, token@) + amount <= u128::MAX ==> r == Ok::<
                (),
                ErrorKind,
            >(()) && ({
                let pass = activate_from(
                    old(self).tasks@,
                    owner@,
                    token@,
                    (avail_of(old(self).funds@, owner@, token@) + amount) as u128,
                    0,
                );
                &&& final(self).tasks@ == pass.0
                &&& avail_of(final(self).funds@, owner@, token@) == pass.1
                &&& forall|o: Seq<char>, t: Seq<char>|
                    !(o == owner@ && t == token@) ==> #[trigger] avail_of(final(self).funds@, o, t)
                        == avail_of(old(self).funds@, o, t)
                &&& forall|o: Seq<char>, t: Seq<char>| #[trigger]
                    avail_of(final(self).funds@, o, t) + sum_committed(final(self).tasks@, o, t)
                        == avail_of(old(self).funds@, o, t) + sum_committed(
                        old(self).tasks@,
                        o,
                        t,
                    ) + if (o == owner@ && t == token@) {
                        amount as int
                    } else {
                        0int
                    }
            }),
    {
        let fund_idx = self.find_fund(owner, token);
        let cur: u128 = match fund_idx {
            Some(i) => {
                proof {
                    lemma_avail_at(self.funds@, i as int);
                }
                self.funds[i].available
            },
            None => {
                proof {
                    lemma_avail_absent(self.funds@, owner@, token@);
                }
                0
            },
        };
        let start: u128 = match cur.checked_add(amount) {
            None => {
                return Err(ErrorKind::Overflow);
            },
            Some(v) => v,
        };
        let ghost tasks0 = self.tasks@;
        let mut avail: u128 = start;
        let mut i: usize = 0;
        while i < self.tasks.len()
            invariant
                old(self).wf(),
                i <= self.tasks@.len(),
                self.tasks@.len() == tasks0.len(),
                tasks0 == old(self).tasks@,
                self.funds@ == old(self).funds@,
                activate_from(tasks0, owner@, token@, start, 0) == activate_from(
                    self.tasks@,
                    owner@,
                    token@,
                    avail,
                    i as int,
                ),
                forall|j: int| i <= j < tasks0.len() ==> self.tasks@[j] == tasks0[j],
                forall|j: int|
                    0 <= j < i ==> self.tasks@[j] == tasks0[j] || self.tasks@[j] == set_funded(
                        tasks0[j],
                    ),
            decreases self.tasks@.len() - i,
        {
            let ghost pre = self.tasks@;
            let ghost pre_avail = avail;
            proof {
                assert(self.tasks@[i as int] == old(self).tasks@[i as int]);
                assert(old(self).tasks@[i as int].wf());
            }
            let is_target = self.tasks[i].creator == *owner && self.tasks[i].token == *token
                && !self.tasks[i].funded;
            if is_target {
                let total: u128 = (self.tasks[i].total_count as u128)
                    * self.tasks[i].amount_per_account;
                if total <= avail {
                    let mut t = self.tasks.remove(i);
                    t.funded = true;
                    self.tasks.insert(i, t);
                    avail = avail - total;
                    proof {
                        assert(self.tasks@ =~= pre.update(i as int, set_funded(pre[i as int])));
                        assert(activate_from(pre, owner@, token@, pre_avail, i as int)
                            == activate_from(self.tasks@, owner@, token@, avail, i + 1));
                    }
                } else {
                    proof {
                        assert(activate_from(pre, owner@, token@, pre_avail, i as int)
                            == activate_from(self.tasks@, owner@, token@, avail, i + 1));
                    }
                }
            } else {
                proof {
                    assert(activate_from(pre, owner@, token@, pre_avail, i as int)
                        == activate_from(self.tasks@, owner@, token@, avail, i + 1));
                }
            }
            i = i + 1;
        }
        proof {
            assert(activate_from(self.tasks@, owner@, token@, avail, self.tasks@.len() as int) == (
            self.tasks@,
            avail,
            ));
        }
        match fund_idx {
            Some(k) => {
                let entry = FundEntry {
                    owner: self.funds[k].owner.clone(),
                    token: self.funds[k].token.clone(),
                    available: avail,
                };
                proof {
                    lemma_avail_update(self.funds@, k as int, entry);
                }
                self.funds[k] = entry;
                proof {
                    assert forall|a: int, b: int| 0 <= a < b < self.funds@.len() implies !(
                    self.funds@[a].owner@ == self.funds@[b].owner@ && self.funds@[a].token@
                        == self.funds@[b].token@) by {
                        assert(old(self).funds@[a].owner@ == self.funds@[a].owner@);
                        assert(old(self).funds@[b].owner@ == self.funds@[b].owner@);
                    }
                }
            },
            None => {
                let entry = FundEntry { owner: owner.clone(), token: token.clone(), available: avail };
                proof {
                    lemma_avail_push(self.funds@, entry);
                }
                self.funds.push(entry);
                proof {
                    assert forall|a: int, b: int| 0 <= a < b < self.funds@.len() implies !(
                    self.funds@[a].owner@ == self.funds@[b].owner@ && self.funds@[a].token@
                        == self.funds@[b].token@) by {
                        if b == self.funds@.len() - 1 {
                            assert(self.funds@[a] == old(self).funds@[a]);
                        } else {
                            assert(self.funds@[a] == old(self).funds@[a]);
                            assert(self.funds@[b] == old(self).funds@[b]);
                        }
                    }
                }
            },
        }
        proof {
            lemma_activate_from_conserves(tasks0, owner@, token@, start, 0);
            assert forall|j: int| 0 <= j < tasks0.len() implies self.tasks@[j].creator@
                == tasks0[j].creator@ && self.tasks@[j].index == tasks0[j].index by {}
            lemma_count_same(tasks0, self.tasks@);
            assert forall|j: int| 0 <= j < self.tasks@.len() implies (
            #[trigger] self.tasks@[j]).wf() by {
                assert(old(self).tasks@[j].wf());
            }
            assert forall|j: int| 0 <= j < self.tasks@.len() implies (
            #[trigger] self.tasks@[j]).index < count_tasks_of(
                self.tasks@,
                self.tasks@[j].creator@,
            ) by {
                assert(old(self).tasks@[j].wf());
                assert(tasks0[j].index < count_tasks_of(tasks0, tasks0[j].creator@));
                assert(count_tasks_of(self.tasks@, tasks0[j].creator@) == count_tasks_of(
                    tasks0,
                    tasks0[j].creator@,
                ));
            }
            assert forall|a: int, b: int| 0 <= a < b < self.tasks@.len() implies !(
            self.tasks@[a].creator@ == self.tasks@[b].creator@ && self.tasks@[a].index
                == self.tasks@[b].index) by {
                assert(self.tasks@[a].creator@ == tasks0[a].creator@ && self.tasks@[a].index
                    == tasks0[a].index);
                assert(self.tasks@[b].creator@ == tasks0[b].creator@ && self.tasks@[b].index
                    == tasks0[b].index);
            }
        }
        Ok(())
    }

    /// Creates a task.  The full funding `total_count * amount_per_account`
    /// is computed with an explicit overflow check; the attached
    /// native-currency deposit must cover the task's storage cost; the
    /// index is the creator's task count so far.  The task opens active
    /// when the creator's custody in the token already covers the full
    /// funding, which is then debited atomically; otherwise it is created
    /// pending and waits for a deposit.
    pub fn create_task(
        &mut self,
        creator: String,
        total_count: u32,
        amount_per_account: u128,
        token: String,
        deposit_near: u128,
    ) -> (r: Result<TaskRef, ErrorKind>)
        requires
            old(self).wf(),
        ensures
            final(self).wf(),
            ({
                let total = total_count * amount_per_account;
                let cnt = count_tasks_of(old(self).tasks@, creator@);
                let funded = avail_of(old(self).funds@, creator@, token@) >= total;
                if total > u128::MAX {
                    r == Err::<TaskRef, ErrorKind>(ErrorKind::Overflow) && *final(self) == *old(self)
                } else if deposit_near < TASK_STORAGE_COST {
                    r == Err::<TaskRef, ErrorKind>(ErrorKind::InsufficientDeposit) && *final(self)
                        == *old(self)
                } else if cnt > u32::MAX {
                    r == Err::<TaskRef, ErrorKind>(ErrorKind::Overflow) && *final(self) == *old(self)
                } else {
                    &&& (match r {
                        Ok(tref) => tref.creator == creator && tref.index == cnt,
                        Err(_) => false,
                    })
                    &&& final(self).tasks@.len() == old(self).tasks@.len() + 1
                    &&& forall|j: int|
                        0 <= j < old(self).tasks@.len() ==> final(self).tasks@[j] == old(self).tasks@[j]
                    &&& (final(self).tasks@.last().creator == creator)
                    &&& (final(self).tasks@.last().token == token)
                    &&& (final(self).tasks@.last().total_count == total_count)
                    &&& (final(self).tasks@.last().amount_per_account == amount_per_account)
                    &&& (final(self).tasks@.last().index == cnt)
                    &&& (final(self).tasks@.last().deposit_near == deposit_near)
                    &&& (final(self).tasks@.last().funded == funded)
                    &&& (final(self).tasks@.last().claimed_accounts@.len() == 0)
                    &&& (funded ==> avail_of(final(self).funds@, creator@, token@) == avail_of(
                        old(self).funds@,
                        creator@,
                        token@,
                    ) - total)
                    &&& (!funded ==> final(self).funds@ == old(self).funds@)
                    &&& forall|o: Seq<char>, t: Seq<char>|
                        !(o == creator@ && t == token@) ==> #[trigger] avail_of(
                            final(self).funds@,
                            o,
                            t,
                        ) == avail_of(old(self).funds@, o, t)
                    &&& forall|o: Seq<char>, t: Seq<char>| #[trigger]
                        avail_of(final(self).funds@, o, t) + sum_committed(
                            final(self).tasks@,
                            o,
                            t,
                        ) == avail_of(old(self).funds@, o, t) + sum_committed(
                            old(self).tasks@,
                            o,
                            t,
                        )
                }
            }),
    {
        let total: u128 = match (total_count as u128).checked_mul(amount_per_account) {
            None => {
                return Err(ErrorKind::Overflow);
            },
            Some(v) => v,
        };
        if deposit_near < TASK_STORAGE_COST {
            return Err(ErrorKind::InsufficientDeposit);
        }
        let cnt = self.count_tasks(&creator);
        if cnt > u32::MAX as usize {
            return Err(ErrorKind::Overflow);
        }
        let index: u32 = cnt as u32;
        let avail = self.available(&creator, &token);
        let funded = avail >= total;
        if funded {
            match self.find_fund(&creator, &token) {
                Some(k) => {
                    proof {
                        lemma_avail_at(self.funds@, k as int);
                    }
                    let entry = FundEntry {
                        owner: self.funds[k].owner.clone(),
                        token: self.funds[k].token.clone(),
                        available: self.funds[k].available - total,
                    };
                    proof {
                        lemma_avail_update(self.funds@, k as int, entry);
                    }
                    self.funds[k] = entry;
                    proof {
                        assert forall|a: int, b: int| 0 <= a < b < self.funds@.len() implies !(
                        self.funds@[a].owner@ == self.funds@[b].owner@ && self.funds@[a].token@
                            == self.funds@[b].token@) by {
                            assert(old(self).funds@[a].owner@ == self.funds@[a].owner@);
                            assert(old(self).funds@[b].owner@ == self.funds@[b].owner@);
                        }
                    }
                },
                None => {
                    proof {
                        lemma_avail_absent(self.funds@, creator@, token@);
                    }
                },
            }
        }
        let ghost tasks0 = self.tasks@;
        let tref_creator = creator.clone();
        let task = Task {
            creator,
            token,
            total_count,
            amount_per_account,
            index,
            deposit_near,
            funded,
            claimed_accounts: Vec::new(),
        };
        proof {
            lemma_count_push(tasks0, task);
            lemma_committed_push(tasks0, task);
        }
        self.tasks.push(task);
        proof {
            assert forall|j: int| 0 <= j < self.tasks@.len() implies (
            #[trigger] self.tasks@[j]).wf() by {
                if j < tasks0.len() {
                    assert(old(self).tasks@[j].wf());
                }
            }
            assert forall|j: int| 0 <= j < self.tasks@.len() implies (
            #[trigger] self.tasks@[j]).index < count_tasks_of(
                self.tasks@,
                self.tasks@[j].creator@,
            ) by {
                if j < tasks0.len() {
                    assert(old(self).tasks@[j].wf());
                    assert(old(self).tasks@[j].index < count_tasks_of(
                        tasks0,
                        tasks0[j].creator@,
                    ));
                }
            }
            assert forall|a: int, b: int| 0 <= a < b < self.tasks@.len() implies !(
            self.tasks@[a].creator@ == self.tasks@[b].creator@ && self.tasks@[a].index
                == self.tasks@[b].index) by {
                if b == self.tasks@.len() - 1 {
                    if self.tasks@[a].creator@ == self.tasks@[b].creator@ {
                        assert(old(self).tasks@[a].index < count_tasks_of(
                            tasks0,
                            tasks0[a].creator@,
                        ));
                    }
                }
            }
        }
        Ok(TaskRef { creator: tref_creator, index })
    }

    /// Records `account`'s claim on the task `(creator, index)`.  The claim
    /// is committed here, synchronously, before any outbound transfer is
    /// requested; on success the payout's token and amount are returned
    /// for the gateway to act on.  A task that does not exist or is not
    /// yet funded is unknown to claimants; a second claim by the same
    /// account, or a claim on a fully claimed task, is refused without any
    /// state change.
    pub fn claim(&mut self, creator: &String, index: u32, account: String) -> (r: Result<
        (String, u128),
        ErrorKind,
    >)
        requires
            old(self).wf(),
        ensures
            final(self).wf(),
            !has_task(old(self).tasks@, creator@, index) ==> r == Err::<(String, u128), ErrorKind>(
                ErrorKind::UnknownTask,
            ) && *final(self) == *old(self),
            has_task(old(self).tasks@, creator@, index) ==> exists|i: int|
                #![auto]
                0 <= i < old(self).tasks@.len() && old(self).tasks@[i].creator@ == creator@ && old(self).tasks@[i].index == index && ({
                    let t = old(self).tasks@[i];
                    if t.is_pending() {
                        r == Err::<(String, u128), ErrorKind>(ErrorKind::UnknownTask) && *final(self) == *old(self)
                    } else if t.has_claimed(account@) {
                        r == Err::<(String, u128), ErrorKind>(ErrorKind::AlreadyClaimed) && *final(self) == *old(self)
                    } else if t.claim_count() == t.total_count {
                        r == Err::<(String, u128), ErrorKind>(ErrorKind::TaskExhausted) && *final(self) == *old(self)
                    } else {
                        &&& (match r {
                            Ok(p) => p.0@ == t.token@ && p.1 == t.amount_per_account,
                            Err(_) => false,
                        })
                        &&& final(self).tasks@.len() == old(self).tasks@.len()
                        &&& forall|j: int|
                            0 <= j < old(self).tasks@.len() && j != i ==> final(self).tasks@[j]
                                == old(self).tasks@[j]
                        &&& claim_added(t, final(self).tasks@[i], account)
                        &&& final(self).funds@ == old(self).funds@
                    }
                }),
    {
        let i = match self.find_task(creator, index) {
            None => {
                return Err(ErrorKind::UnknownTask);
            },
            Some(i) => i,
        };
        proof {
            assert(self.tasks@[i as int].wf());
        }
        if !self.tasks[i].funded {
            return Err(ErrorKind::UnknownTask);
        }
        if self.tasks[i].find_claim(&account).is_some() {
            return Err(ErrorKind::AlreadyClaimed);
        }
        if self.tasks[i].claimed_accounts.len() == self.tasks[i].total_count as usize {
            return Err(ErrorKind::TaskExhausted);
        }
        let token_out = self.tasks[i].token.clone();
        let amount_out = self.tasks[i].amount_per_account;
        let ghost tasks0 = self.tasks@;
        let mut t = self.tasks.remove(i);
        t.claimed_accounts.push(account);
        self.tasks.insert(i, t);
        proof {
            assert(self.tasks@ =~= tasks0.update(i as int, self.tasks@[i as int]));
            assert(claim_added(tasks0[i as int], self.tasks@[i as int], account));
            assert forall|j: int| 0 <= j < tasks0.len() implies self.tasks@[j].creator@
                == tasks0[j].creator@ && self.tasks@[j].index == tasks0[j].index by {}
            lemma_count_same(tasks0, self.tasks@);
            assert forall|j: int| 0 <= j < self.tasks@.len() implies (
            #[trigger] self.tasks@[j]).wf() by {
                assert(old(self).tasks@[j].wf());
            }
            assert forall|j: int| 0 <= j < self.tasks@.len() implies (
            #[trigger] self.tasks@[j]).index < count_tasks_of(
                self.tasks@,
                self.tasks@[j].creator@,
            ) by {
                assert(old(self).tasks@[j].wf());
                assert(tasks0[j].index < count_tasks_of(tasks0, tasks0[j].creator@));
                assert(count_tasks_of(self.tasks@, tasks0[j].creator@) == count_tasks_of(
                    tasks0,
                    tasks0[j].creator@,
                ));
            }
            assert forall|a: int, b: int| 0 <= a < b < self.tasks@.len() implies !(
            self.tasks@[a].creator@ == self.tasks@[b].creator@ && self.tasks@[a].index
                == self.tasks@[b].index) by {
                assert(self.tasks@[a].creator@ == tasks0[a].creator@ && self.tasks@[a].index
                    == tasks0[a].index);
                assert(self.tasks@[b].creator@ == tasks0[b].creator@ && self.tasks@[b].index
                    == tasks0[b].index);
            }
        }
        Ok((token_out, amount_out))
    }

    /// Removes `account`'s claim on the task `(creator, index)`, restoring
    /// the account's eligibility.  This is the compensation for a failed
    /// outbound payout and is invoked only by the gateway's
    /// failure-confirmation path; it reports whether there was a claim to
    /// remove and never fails.
    pub(crate) fn rollback_claim(&mut self, creator: &String, index: u32, account: &String) -> (r:
        bool)
        requires
            old(self).wf(),
        ensures
            final(self).wf(),
            r == exists|i: int|
                #![auto]
                0 <= i < old(self).tasks@.len() && old(self).tasks@[i].creator@ == creator@ && old(self).tasks@[i].index == index && old(self).tasks@[i].has_claimed(account@),
            !r ==> *final(self) == *old(self),
            r ==> exists|i: int, k: int|
                #![auto]
                0 <= i < old(self).tasks@.len() && old(self).tasks@[i].creator@ == creator@ && old(self).tasks@[i].index == index && claim_removed(
                    old(self).tasks@[i],
                    final(self).tasks@[i],
                    k,
                    account@,
                ) && final(self).tasks@.len() == old(self).tasks@.len() && (forall|j: int|
                    0 <= j < old(self).tasks@.len() && j != i ==> final(self).tasks@[j] == old(self).tasks@[j]) && !final(self).tasks@[i].has_claimed(account@) && final(self).funds@ == old(self).funds@,
    {
        let i = match self.find_task(creator, index) {
            None => {
                return false;
            },
            Some(i) => i,
        };
        proof {
            assert(self.tasks@[i as int].wf());
        }
        let k = match self.tasks[i].find_claim(account) {
            None => {
                return false;
            },
            Some(k) => k,
        };
        let ghost tasks0 = self.tasks@;
        let ghost claimed0 = self.tasks@[i as int].claimed_accounts@;
        let mut t = self.tasks.remove(i);
        t.claimed_accounts.remove(k);
        self.tasks.insert(i, t);
        proof {
            assert(self.tasks@ =~= tasks0.update(i as int, self.tasks@[i as int]));
            assert(claim_removed(tasks0[i as int], self.tasks@[i as int], k as int, account@));
            let claimed1 = self.tasks@[i as int].claimed_accounts@;
            assert forall|m: int| 0 <= m < claimed1.len() implies claimed1[m]@ != account@ by {
                if m < k {
                    assert(claimed1[m] == claimed0[m]);
                } else {
                    assert(claimed1[m] == claimed0[m + 1]);
                }
            }
            assert forall|a: int, b: int| 0 <= a < b < claimed1.len() implies claimed1[a]@
                != claimed1[b]@ by {
                assert(claimed1[a] == if a < k {
                    claimed0[a]
                } else {
                    claimed0[a + 1]
                });
                assert(claimed1[b] == if b < k {
                    claimed0[b]
                } else {
                    claimed0[b + 1]
                });
            }
            assert(self.tasks@[i as int].wf());
            assert forall|j: int| 0 <= j < tasks0.len() implies self.tasks@[j].creator@
                == tasks0[j].creator@ && self.tasks@[j].index == tasks0[j].index by {}
            lemma_count_same(tasks0, self.tasks@);
            assert forall|j: int| 0 <= j < self.tasks@.len() implies (
            #[trigger] self.tasks@[j]).wf() by {
                assert(old(self).tasks@[j].wf());
            }
            assert forall|j: int| 0 <= j < self.tasks@.len() implies (
            #[trigger] self.tasks@[j]).index < count_tasks_of(
                self.tasks@,
                self.tasks@[j].creator@,
            ) by {
                assert(old(self).tasks@[j].wf());
                assert(tasks0[j].index < count_tasks_of(tasks0, tasks0[j].creator@));
                assert(count_tasks_of(self.tasks@, tasks0[j].creator@) == count_tasks_of(
                    tasks0,
                    tasks0[j].creator@,
                ));
            }
            assert forall|a: int, b: int| 0 <= a < b < self.tasks@.len() implies !(
            self.tasks@[a].creator@ == self.tasks@[b].creator@ && self.tasks@[a].index
                == self.tasks@[b].index) by {
                assert(self.tasks@[a].creator@ == tasks0[a].creator@ && self.tasks@[a].index
                    == tasks0[a].index);
                assert(self.tasks@[b].creator@ == tasks0[b].creator@ && self.tasks@[b].index
                    == tasks0[b].index);
            }
        }
        true
    }

    /// The lifecycle stage of the task `(creator, index)`, if it exists.
    pub fn task_state(&self, creator: &String, index: u32) -> (r: Option<TaskState>)
        requires
            self.wf(),
        ensures
            match r {
                None => !has_task(self.tasks@, creator@, index),
                Some(st) => exists|i: int|
                    #![auto]
                    0 <= i < self.tasks@.len() && self.tasks@[i].creator@ == creator@
                        && self.tasks@[i].index == index && (st == TaskState::Pending
                        <==> self.tasks@[i].is_pending()) && (st == TaskState::Active
                        <==> self.tasks@[i].is_active()) && (st == TaskState::Exhausted
                        <==> self.tasks@[i].is_exhausted()),
            },
    {
        let i = match self.find_task(creator, index) {
            None => {
                return None;
            },
            Some(i) => i,
        };
        proof {
            assert(self.tasks@[i as int].wf());
        }
        if !self.tasks[i].funded {
            Some(TaskState::Pending)
        } else if self.tasks[i].claimed_accounts.len() < self.tasks[i].total_count as usize {
            Some(TaskState::Active)
        } else {
            Some(TaskState::Exhausted)
        }
    }

    /// How many accounts hold a claim on the task `(creator, index)`, if
    /// it exists.
    pub fn claimed_count(&self, creator: &String, index: u32) -> (r: Option<u32>)
        requires
            self.wf(),
        ensures
            match r {
                None => !has_task(self.tasks@, creator@, index),
                Some(c) => exists|i: int|
                    #![auto]
                    0 <= i < self.tasks@.len() && self.tasks@[i].creator@ == creator@
                        && self.tasks@[i].index == index && c == self.tasks@[i].claim_count(),
            },
    {
        let i = match self.find_task(creator, index) {
            None => {
                return None;
            },
            Some(i) => i,
        };
        proof {
            assert(self.tasks@[i as int].wf());
        }
        Some(self.tasks[i].claimed_accounts.len() as u32)
    }
}

} // verus!
