use vstd::prelude::*;
use crate::updater::{MailUpdaterTask, TaskView};

verus! {

/// The scheduler's state on a time line in milliseconds.
pub ghost struct SchedulerView {
    pub inbox_interval: nat,
    pub all_interval: nat,
    pub next_all: nat,
    pub next_inboxes: nat,
    pub accounts: Seq<Seq<char>>,
}

pub open spec fn all_task() -> TaskView {
    TaskView { account: None, mailbox: None }
}

pub open spec fn inbox_task(account: Seq<char>) -> TaskView {
    TaskView { account: Some(account), mailbox: Some("INBOX"@) }
}

/// One inbox task per known account, in the order of the accounts.
pub open spec fn inbox_tasks(accounts: Seq<Seq<char>>) -> Seq<TaskView> {
    accounts.map_values(|a: Seq<char>| inbox_task(a))
}

/// Whether the everything deadline has passed at `now`.
pub open spec fn fires_all(s: SchedulerView, now: nat) -> bool {
    now >= s.next_all
}

/// Whether the inbox deadline has passed at `now`; checked on the same
/// wake-up independently of the everything deadline.
pub open spec fn fires_inboxes(s: SchedulerView, now: nat) -> bool {
    now >= s.next_inboxes
}

/// The tasks that a wake-up at `now` emits: everything first, then the inboxes.
pub open spec fn tick_tasks(s: SchedulerView, now: nat) -> Seq<TaskView> {
    (if fires_all(s, now) { seq![all_task()] } else { Seq::empty() })
        + (if fires_inboxes(s, now) { inbox_tasks(s.accounts) } else { Seq::empty() })
}

/// The state after a wake-up at `now`.
pub open spec fn tick_state(s: SchedulerView, now: nat) -> SchedulerView {
    SchedulerView {
        next_all: if fires_all(s, now) { now + s.all_interval } else { s.next_all },
        next_inboxes: if fires_all(s, now) || fires_inboxes(s, now) {
            now + s.inbox_interval
        } else {
            s.next_inboxes
        },
        ..s
    }
}

/// A wake-up before both deadlines emits nothing and changes nothing; one
/// before the everything deadline emits no everything task; one at or after
/// it emits the everything task first and puts the everything deadline one
/// long interval and the inbox deadline one short interval after `now`.
pub proof fn lemma_tick_cadence(s: SchedulerView, now: nat)
    ensures
        !fires_all(s, now) && !fires_inboxes(s, now) ==> tick_tasks(s, now) == Seq::<TaskView>::empty()
            && tick_state(s, now) == s,
        !fires_all(s, now) ==> !tick_tasks(s, now).contains(all_task()),
        fires_all(s, now) ==> tick_tasks(s, now)[0] == all_task() && tick_state(s, now).next_all == now
            + s.all_interval && tick_state(s, now).next_inboxes == now + s.inbox_interval,
{
    let tasks = tick_tasks(s, now);
    if !fires_all(s, now) {
        assert(tasks == (if fires_inboxes(s, now) { inbox_tasks(s.accounts) } else { Seq::empty() }));
        if tasks.contains(all_task()) {
            let i = choose|i: int| 0 <= i < tasks.len() && tasks[i] == all_task();
            assert(tasks[i] == inbox_task(s.accounts[i]));
        }
        if !fires_inboxes(s, now) {
            assert(tasks =~= Seq::<TaskView>::empty());
            assert(tick_state(s, now) =~= s);
        }
    }
}

/// Two deadlines: a short one that refreshes the inbox of each known
/// account and a long one that refreshes everything.
pub struct Scheduler {
    inbox_interval: u64,
    all_interval: u64,
    next_all: u64,
    next_inboxes: u64,
    accounts: Vec<String>,
}

impl View for Scheduler {
    type V = SchedulerView;

    closed spec fn view(&self) -> SchedulerView {
        SchedulerView {
            inbox_interval: self.inbox_interval as nat,
            all_interval: self.all_interval as nat,
            next_all: self.next_all as nat,
            next_inboxes: self.next_inboxes as nat,
            accounts: self.accounts@.map_values(|a: String| a@),
        }
    }
}

pub open spec fn tasks_view(v: Seq<MailUpdaterTask>) -> Seq<TaskView> {
    v.map_values(|t: MailUpdaterTask| t@)
}

impl Scheduler {
    /// Starts at `now` with an everything refresh; both deadlines are one
    /// interval away.
    pub fn start(inbox_interval: u64, all_interval: u64, accounts: Vec<String>, now: u64) -> (r: (Self, Vec<MailUpdaterTask>))
        requires
            now + inbox_interval <= u64::MAX,
            now + all_interval <= u64::MAX,
        ensures
            r.0@ == (SchedulerView {
                inbox_interval: inbox_interval as nat,
                all_interval: all_interval as nat,
                next_all: (now + all_interval) as nat,
                next_inboxes: (now + inbox_interval) as nat,
                accounts: accounts@.map_values(|a: String| a@),
            }),
            tasks_view(r.1@) == seq![all_task()],
    {
        let s = Scheduler {
            inbox_interval,
            all_interval,
            next_all: now + all_interval,
            next_inboxes: now + inbox_interval,
            accounts,
        };
        let mut tasks: Vec<MailUpdaterTask> = Vec::new();
        tasks.push(MailUpdaterTask::new(None, None));
        assert(tasks_view(tasks@) =~= seq![all_task()]);
        (s, tasks)
    }

    pub fn next_all(&self) -> (r: u64)
        ensures
            r == self@.next_all,
    {
        self.next_all
    }

    pub fn next_inboxes(&self) -> (r: u64)
        ensures
            r == self@.next_inboxes,
    {
        self.next_inboxes
    }

    /// Milliseconds from `now` to the nearer deadline, zero if it has passed.
    pub fn wait_millis(&self, now: u64) -> (r: u64)
        ensures
            ({
                let next = if self@.next_all <= self@.next_inboxes { self@.next_all } else { self@.next_inboxes };
                r == if next > now { next - now } else { 0 }
            }),
    {
        let next = if self.next_all <= self.next_inboxes { self.next_all } else { self.next_inboxes };
        if next > now {
            next - now
        } else {
            0
        }
    }

    fn inbox_tasks(&self) -> (r: Vec<MailUpdaterTask>)
        ensures
            tasks_view(r@) == inbox_tasks(self@.accounts),
    {
        let mut tasks: Vec<MailUpdaterTask> = Vec::new();
        let mut i: usize = 0;
        while i < self.accounts.len()
            invariant
                i <= self.accounts@.len(),
                tasks_view(tasks@) =~= inbox_tasks(self@.accounts).subrange(0, i as int),
            decreases self.accounts@.len() - i,
        {
            let account = self.accounts[i].clone();
            let task = MailUpdaterTask::new(Some(account), Some("INBOX".to_owned()));
            assert(task@ == inbox_task(self@.accounts[i as int]));
            let ghost before = tasks@;
            tasks.push(task);
            assert(tasks_view(tasks@) =~= tasks_view(before).push(task@));
            i = i + 1;
        }
        assert(inbox_tasks(self@.accounts).subrange(0, i as int) =~= inbox_tasks(self@.accounts));
        tasks
    }

    /// Handles a wake-up at `now`: emits an everything task if that deadline
    /// has passed, then the inbox tasks if the inbox deadline has passed; both
    /// fire when both have passed. Either firing restarts the inbox cadence.
    pub fn tick(&mut self, now: u64) -> (r: Vec<MailUpdaterTask>)
        requires
            now + old(self)@.inbox_interval <= u64::MAX,
            now + old(self)@.all_interval <= u64::MAX,
        ensures
            final(self)@ == tick_state(old(self)@, now as nat),
            tasks_view(r@) == tick_tasks(old(self)@, now as nat),
    {
        let mut tasks: Vec<MailUpdaterTask> = Vec::new();
        let all_due = now >= self.next_all;
        let inboxes_due = now >= self.next_inboxes;
        if all_due {
            tasks.push(MailUpdaterTask::new(None, None));
            self.next_all = now + self.all_interval;
        }
        if inboxes_due {
            let mut inboxes = self.inbox_tasks();
            tasks.append(&mut inboxes);
        }
        if all_due || inboxes_due {
            self.next_inboxes = now + self.inbox_interval;
        }
        assert(tasks_view(tasks@) =~= tick_tasks(old(self)@, now as nat));
        assert(self@ =~= tick_state(old(self)@, now as nat));
        tasks
    }
}

} // verus!
