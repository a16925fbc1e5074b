use vstd::prelude::*;
use crate::watcher::FileWatcherEvent;

verus! {

/// The scope of a task as a mathematical value.
pub ghost struct TaskView {
    pub account: Option<Seq<char>>,
    pub mailbox: Option<Seq<char>>,
}

pub open spec fn opt_view(o: Option<String>) -> Option<Seq<char>> {
    match o {
        Some(s) => Some(s@),
        None => None,
    }
}

/// `a` covers `b` when running `a` satisfies the intent of `b`:
/// everything covers all, an account covers itself and its mailboxes,
/// a mailbox covers only itself.
pub open spec fn covers_spec(a: TaskView, b: TaskView) -> bool {
    match a.account {
        None => true,
        Some(acc_a) => match b.account {
            None => false,
            Some(acc_b) => acc_a == acc_b && match a.mailbox {
                None => true,
                Some(mb_a) => match b.mailbox {
                    None => false,
                    Some(mb_b) => mb_a == mb_b,
                },
            },
        },
    }
}

/// A request to synchronize everything, one account, or one mailbox of an account.
#[derive(Debug, Clone)]
pub struct MailUpdaterTask {
    pub specific_account: Option<String>,
    pub specific_mailbox: Option<String>,
}

impl View for MailUpdaterTask {
    type V = TaskView;

    open spec fn view(&self) -> TaskView {
        TaskView { account: opt_view(self.specific_account), mailbox: opt_view(self.specific_mailbox) }
    }
}

fn copy_opt_string(o: &Option<String>) -> (r: Option<String>)
    ensures
        opt_view(r) == opt_view(*o),
{
    match o {
        Some(s) => Some(s.clone()),
        None => None,
    }
}

impl MailUpdaterTask {
    pub fn new(specific_account: Option<String>, specific_mailbox: Option<String>) -> (r: Self)
        ensures
            r.specific_account == specific_account,
            r.specific_mailbox == specific_mailbox,
    {
        MailUpdaterTask { specific_account, specific_mailbox }
    }

    /// The task that refreshes the mailbox of a change event.
    pub fn for_change(event: FileWatcherEvent) -> (r: Self)
        ensures
            r@ == (TaskView { account: Some(event.account@), mailbox: Some(event.mailbox@) }),
    {
        MailUpdaterTask { specific_account: Some(event.account), specific_mailbox: Some(event.mailbox) }
    }

    /// A task with the same scope.
    pub fn duplicate(&self) -> (r: Self)
        ensures
            r@ == self@,
    {
        MailUpdaterTask {
            specific_account: copy_opt_string(&self.specific_account),
            specific_mailbox: copy_opt_string(&self.specific_mailbox),
        }
    }

    pub fn covers(&self, other: &MailUpdaterTask) -> (r: bool)
        ensures
            r == covers_spec(self@, other@),
    {
        let specific_account = match &self.specific_account {
            Some(account) => account,
            None => {
                return true;
            },
        };
        let other_specific_account = match &other.specific_account {
            Some(account) => account,
            None => {
                return false;
            },
        };
        if !specific_account.eq(other_specific_account) {
            return false;
        }
        let specific_mailbox = match &self.specific_mailbox {
            Some(mailbox) => mailbox,
            None => {
                return true;
            },
        };
        let other_specific_mailbox = match &other.specific_mailbox {
            Some(mailbox) => mailbox,
            None => {
                return false;
            },
        };
        specific_mailbox.eq(other_specific_mailbox)
    }
}

/// Some task of `q` covers `t`.
pub open spec fn covered_by_any(q: Seq<TaskView>, t: TaskView) -> bool {
    exists|i: int| 0 <= i < q.len() && covers_spec(#[trigger] q[i], t)
}

/// The queue after `t` was offered to it: appended unless already covered.
pub open spec fn enqueued(q: Seq<TaskView>, t: TaskView) -> Seq<TaskView> {
    if covered_by_any(q, t) {
        q
    } else {
        q.push(t)
    }
}

/// Every task covers itself.
pub proof fn lemma_covers_reflexive(t: TaskView)
    ensures
        covers_spec(t, t),
{
}

/// The scopes form a three-level lattice: all covers everything, a whole
/// account covers each of its mailboxes but not the reverse, and distinct
/// accounts, or distinct mailboxes of one account, never cover each other.
pub proof fn lemma_covers_lattice(acc: Seq<char>, other_acc: Seq<char>, mb: Seq<char>, other_mb: Seq<char>, t: TaskView)
    ensures
        covers_spec(TaskView { account: None, mailbox: None }, t),
        covers_spec(TaskView { account: Some(acc), mailbox: None }, TaskView { account: Some(acc), mailbox: Some(mb) }),
        !covers_spec(TaskView { account: Some(acc), mailbox: Some(mb) }, TaskView { account: Some(acc), mailbox: None }),
        acc != other_acc ==> !covers_spec(TaskView { account: Some(acc), mailbox: t.mailbox }, TaskView { account: Some(other_acc), mailbox: t.mailbox }),
        mb != other_mb ==> !covers_spec(TaskView { account: Some(acc), mailbox: Some(mb) }, TaskView { account: Some(acc), mailbox: Some(other_mb) }),
{
}

/// Offering a task that a queued or in-flight task covers leaves the queue unchanged.
pub proof fn lemma_enqueue_covered_unchanged(q: Seq<TaskView>, t: TaskView, i: int)
    requires
        0 <= i < q.len(),
        covers_spec(q[i], t),
    ensures
        enqueued(q, t) == q,
{
}

/// A broader task offered after a narrower one that it covers is still
/// appended: the narrower one is never pruned and the length grows by one.
pub proof fn lemma_enqueue_not_retroactive(q: Seq<TaskView>, narrow: TaskView, broad: TaskView)
    requires
        q.contains(narrow),
        covers_spec(broad, narrow),
        !covered_by_any(q, broad),
    ensures
        enqueued(q, broad) == q.push(broad),
        enqueued(q, broad).len() == q.len() + 1,
        enqueued(q, broad).contains(narrow),
        enqueued(q, broad).contains(broad),
{
    let r = enqueued(q, broad);
    let i = choose|i: int| 0 <= i < q.len() && q[i] == narrow;
    assert(r[i] == narrow);
    assert(r[q.len() as int] == broad);
}

/// Two tasks that no pending task covers, offered in order `a` then `b`
/// with neither covering the other, are appended in that order, so `a`
/// reaches the head before `b`.
pub proof fn lemma_enqueue_fifo(q: Seq<TaskView>, a: TaskView, b: TaskView)
    requires
        !covered_by_any(q, a),
        !covered_by_any(q, b),
        !covers_spec(a, b),
    ensures
        enqueued(enqueued(q, a), b) == q + seq![a, b],
        enqueued(enqueued(q, a), b)[q.len() as int] == a,
        enqueued(enqueued(q, a), b)[q.len() + 1int] == b,
{
    let qa = q.push(a);
    assert(enqueued(q, a) == qa);
    assert forall|i: int| 0 <= i < qa.len() implies !covers_spec(#[trigger] qa[i], b) by {
        if i < q.len() {
            assert(qa[i] == q[i]);
        }
    }
    assert(enqueued(qa, b) == qa.push(b));
    assert(qa.push(b) =~= q + seq![a, b]);
}

/// FIFO queue of pending tasks whose head stays in place while it is being
/// processed, so that it keeps covering later requests.
pub struct MailUpdater {
    queue: Vec<MailUpdaterTask>,
}

impl View for MailUpdater {
    type V = Seq<TaskView>;

    closed spec fn view(&self) -> Seq<TaskView> {
        self.queue@.map_values(|t: MailUpdaterTask| t@)
    }
}

impl MailUpdater {
    pub fn new() -> (r: Self)
        ensures
            r@ == Seq::<TaskView>::empty(),
    {
        let r = MailUpdater { queue: Vec::new() };
        assert(r@ =~= Seq::<TaskView>::empty());
        r
    }

    pub fn len(&self) -> (r: usize)
        ensures
            r == self@.len(),
    {
        self.queue.len()
    }

    pub fn is_empty(&self) -> (r: bool)
        ensures
            r == (self@.len() == 0),
    {
        self.queue.len() == 0
    }

    /// Appends `task` unless a queued or in-flight task already covers it.
    pub fn queue_task(&mut self, task: MailUpdaterTask)
        requires
            old(self)@.len() < usize::MAX,
        ensures
            final(self)@ == enqueued(old(self)@, task@),
    {
        let n = self.queue.len();
        let mut i: usize = 0;
        while i < n
            invariant
                n == self.queue.len(),
                self@ == old(self)@,
                0 <= i <= n,
                forall|j: int| 0 <= j < i ==> !covers_spec(#[trigger] self@[j], task@),
            decreases n - i,
        {
            if self.queue[i].covers(&task) {
                assert(covers_spec(self@[i as int], task@));
                return;
            }
            i = i + 1;
        }
        assert(!covered_by_any(old(self)@, task@));
        self.queue.push(task);
        assert(self@ =~= old(self)@.push(task@));
    }

    /// The task at the head, left in place; `None` when nothing is pending.
    pub fn front(&self) -> (r: Option<MailUpdaterTask>)
        ensures
            match r {
                Some(t) => self@.len() > 0 && t@ == self@[0],
                None => self@.len() == 0,
            },
    {
        if self.queue.len() == 0 {
            None
        } else {
            Some(self.queue[0].duplicate())
        }
    }

    /// Removes the head once its processing has finished.
    pub fn complete_front(&mut self)
        ensures
            old(self)@.len() > 0 ==> final(self)@ == old(self)@.drop_first(),
            old(self)@.len() == 0 ==> final(self)@ == old(self)@,
    {
        if self.queue.len() > 0 {
            self.queue.remove(0);
            assert(self@ =~= old(self)@.drop_first());
        }
    }

    /// Runs `callback` on each pending task in queue order, removing each one
    /// only after its callback has returned, until the queue is empty. The
    /// result holds one callback result per task that was pending, in order.
    pub fn process_queue<F, R>(&mut self, callback: F) -> (done: Vec<R>)
        where
            F: Fn(&MailUpdaterTask) -> R,
        requires
            forall|t: &MailUpdaterTask| callback.requires((t,)),
        ensures
            final(self)@ == Seq::<TaskView>::empty(),
            done@.len() == old(self)@.len(),
            forall|k: int| 0 <= k < done@.len() ==> returned_for(callback, old(self)@[k], #[trigger] done@[k]),
    {
        let ghost pending = self@;
        let mut done: Vec<R> = Vec::new();
        loop
            invariant
                forall|t: &MailUpdaterTask| callback.requires((t,)),
                pending == old(self)@,
                done@.len() <= pending.len(),
                self@ == pending.skip(done@.len() as int),
                forall|k: int| 0 <= k < done@.len() ==> returned_for(callback, pending[k], #[trigger] done@[k]),
            decreases self@.len(),
        {
            match self.front() {
                Some(current_task) => {
                    let result = callback(&current_task);
                    let ghost n = done@.len() as int;
                    assert(current_task@ == pending[n]);
                    assert(returned_for(callback, pending[n], result));
                    done.push(result);
                    self.complete_front();
                    assert(self@ =~= pending.skip(done@.len() as int));
                },
                None => {
                    assert(self@ =~= Seq::<TaskView>::empty());
                    return done;
                },
            }
        }
    }
}

/// `r` is what `callback` returned on a task whose scope is `task`.
pub open spec fn returned_for<F: Fn(&MailUpdaterTask) -> R, R>(callback: F, task: TaskView, r: R) -> bool {
    exists|t: MailUpdaterTask| t@ == task && #[trigger] callback.ensures((&t,), r)
}

} // verus!
