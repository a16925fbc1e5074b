use vstd::prelude::*;
use crate::updater::{MailUpdaterTask, TaskView};

verus! {

/// The argument that names a task's scope to the sync command:
/// `<account>`, `<account>:<mailbox>`, or `--all`.
pub open spec fn scope_arg(t: TaskView) -> Seq<char> {
    match t.account {
        Some(account) => match t.mailbox {
            Some(mailbox) => account + ":"@ + mailbox,
            None => account,
        },
        None => "--all"@,
    }
}

/// The external sync command and its fixed arguments.
pub struct MbSyncExecutor {
    command: String,
    args: Vec<String>,
}

impl MbSyncExecutor {
    pub closed spec fn command_view(&self) -> Seq<char> {
        self.command@
    }

    pub closed spec fn args_view(&self) -> Seq<Seq<char>> {
        self.args@.map_values(|a: String| a@)
    }

    pub fn new(command: &String, args: &[String]) -> (r: Self)
        ensures
            r.command_view() == command@,
            r.args_view() == args@.map_values(|a: String| a@),
    {
        let mut copied: Vec<String> = Vec::new();
        let mut i: usize = 0;
        while i < args.len()
            invariant
                i <= args@.len(),
                copied@.map_values(|a: String| a@) =~= args@.map_values(|a: String| a@).subrange(0, i as int),
            decreases args@.len() - i,
        {
            let ghost before = copied@;
            copied.push(args[i].clone());
            assert(copied@.map_values(|a: String| a@) =~= before.map_values(|a: String| a@).push(args@[i as int]@));
            i = i + 1;
        }
        assert(args@.map_values(|a: String| a@).subrange(0, i as int) =~= args@.map_values(|a: String| a@));
        MbSyncExecutor { command: command.clone(), args: copied }
    }

    /// The program to run.
    pub fn command(&self) -> (r: String)
        ensures
            r@ == self.command_view(),
    {
        self.command.clone()
    }

    /// The scope argument for `task`.
    pub fn scope_argument(task: &MailUpdaterTask) -> (r: String)
        ensures
            r@ == scope_arg(task@),
    {
        match &task.specific_account {
            Some(account) => match &task.specific_mailbox {
                Some(mailbox) => account.clone().concat(":").concat(mailbox.as_str()),
                None => account.clone(),
            },
            None => "--all".to_owned(),
        }
    }

    /// The full argument list for a run on `task`: the fixed arguments,
    /// then the scope argument.
    pub fn arguments(&self, task: &MailUpdaterTask) -> (r: Vec<String>)
        ensures
            r@.map_values(|a: String| a@) == self.args_view().push(scope_arg(task@)),
    {
        let mut out: Vec<String> = Vec::new();
        let mut i: usize = 0;
        while i < self.args.len()
            invariant
                i <= self.args@.len(),
                out@.map_values(|a: String| a@) =~= self.args_view().subrange(0, i as int),
            decreases self.args@.len() - i,
        {
            let ghost before = out@;
            out.push(self.args[i].clone());
            assert(out@.map_values(|a: String| a@) =~= before.map_values(|a: String| a@).push(self.args@[i as int]@));
            i = i + 1;
        }
        let ghost before = out@;
        out.push(Self::scope_argument(task));
        assert(self.args_view().subrange(0, i as int) =~= self.args_view());
        assert(out@.map_values(|a: String| a@) =~= before.map_values(|a: String| a@).push(scope_arg(task@)));
        out
    }
}

} // verus!
