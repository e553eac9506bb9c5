//! The staged run of a matched rule's actions.
use crate::runtime::context::{Context, ContextView};
use crate::runtime::model::{Action, ActionView};
use crate::table::Table;
use crate::text::views;
use crate::value::{path_set, path_unset, ObjTerm};
use crate::error::Error;
use vstd::prelude::*;

verus! {

/// A matched rule on its way to being committed. Its actions work on the
/// transaction's own copy of the variables; the committed state changes
/// only when the transaction is committed.
#[derive(Debug)]
pub struct Transaction {
    /// The number of commits that the state had seen when the rule matched.
    pub seq: u64,
    ctx: Context,
    actions: Vec<Action>,
    next: usize,
    acks: Table<()>,
    failure: Option<(i32, String)>,
}

/// The mathematical value of a [`Transaction`].
pub struct TransactionView {
    pub seq: u64,
    /// The messages taken when the rule matched, by topic.
    pub msgs: ObjTerm,
    /// The working copy of the variables.
    pub vars: ObjTerm,
    /// The actions of the rule.
    pub actions: Seq<ActionView>,
    /// How many of the actions are done.
    pub next: int,
    /// The topics acknowledged so far.
    pub acks: Set<Seq<char>>,
    /// The exit code and error output of a script that failed.
    pub failure: Option<(i32, Seq<char>)>,
}

/// What the driver of a transaction has to do next.
#[derive(Debug)]
pub enum Step {
    /// Every action is done: the transaction can be committed.
    Finished,
    /// The script with this first line and these further lines has to be
    /// run, and its end reported.
    Script(String, String),
    /// A script has failed with this exit code and error output.
    Failed(i32, String),
}

/// The transaction as it is when a rule has just matched.
pub open spec fn fresh(seq: u64, ctx: ContextView, actions: Seq<ActionView>) -> TransactionView {
    TransactionView {
        seq,
        msgs: ctx.msgs,
        vars: ctx.vars,
        actions,
        next: 0,
        acks: Set::empty(),
        failure: None,
    }
}

/// The script that the transaction waits for, if it waits for one: its
/// next action, where no script has failed.
pub open spec fn pending(t: TransactionView) -> Option<(Seq<char>, Seq<char>)> {
    if t.failure is None && 0 <= t.next < t.actions.len() {
        match t.actions[t.next] {
            ActionView::Script(shebang, body) => Some((shebang, body)),
            _ => None,
        }
    } else {
        None
    }
}

/// Every action is done and no script has failed.
pub open spec fn finished(t: TransactionView) -> bool {
    t.failure is None && !(0 <= t.next < t.actions.len())
}

/// The transaction after its next action, which is no script.
pub open spec fn stepped(t: TransactionView) -> TransactionView {
    match t.actions[t.next] {
        ActionView::SetVar(id, v) => TransactionView {
            vars: path_set(id, t.vars, v),
            next: t.next + 1,
            ..t
        },
        ActionView::UnsetVar(id) => TransactionView {
            vars: path_unset(id, t.vars),
            next: t.next + 1,
            ..t
        },
        ActionView::Acknowledge(topic) => TransactionView {
            acks: t.acks.insert(topic),
            next: t.next + 1,
            ..t
        },
        ActionView::Script(_, _) => t,
    }
}

/// The transaction after its actions have run up to the next script, or to
/// the end where no script is left. A transaction with a failed script
/// stays as it is.
pub open spec fn applied(t: TransactionView) -> TransactionView
    decreases t.actions.len() - t.next,
{
    if t.failure is Some || !(0 <= t.next < t.actions.len()) || pending(t) is Some {
        t
    } else {
        applied(stepped(t))
    }
}

/// The transaction after the script that it waits for has ended with
/// `code` and the error output `stderr`. Code zero lets it go on; any
/// other code fails it. A transaction that waits for no script stays as it is.
pub open spec fn after_script(t: TransactionView, code: i32, stderr: Seq<char>) -> TransactionView {
    if pending(t) is None {
        t
    } else if code == 0 {
        TransactionView { next: t.next + 1, ..t }
    } else {
        TransactionView { failure: Some((code, stderr)), ..t }
    }
}

/// The topics whose head message leaves when the transaction commits:
/// those of the messages taken and those acknowledged.
pub open spec fn consumed(t: TransactionView) -> Set<Seq<char>> {
    t.msgs.dom().union(t.acks)
}

impl View for Transaction {
    type V = TransactionView;

    closed spec fn view(&self) -> TransactionView {
        TransactionView {
            seq: self.seq,
            msgs: self.ctx.msgs@,
            vars: self.ctx.vars@,
            actions: views(self.actions@),
            next: self.next as int,
            acks: self.acks.map().dom(),
            failure: match self.failure {
                Some((code, stderr)) => Some((code, stderr@)),
                None => None,
            },
        }
    }
}

impl Transaction {
    /// The transaction of a rule that has just matched with the context
    /// `ctx`, on a state that had seen `seq` commits.
    pub fn new(seq: u64, ctx: Context, actions: Vec<Action>) -> (t: Transaction)
        ensures
            t@ == fresh(seq, ctx@, views(actions@)),
    {
        let t = Transaction { seq, ctx, actions, next: 0, acks: Table::new(), failure: None };
        proof {
            assert(t@.acks =~= Set::<Seq<char>>::empty());
        }
        t
    }

    /// The working state: the messages taken and the working variables.
    pub fn context(&self) -> (c: &Context)
        ensures
            c@.msgs == self@.msgs,
            c@.vars == self@.vars,
    {
        &self.ctx
    }

    /// The working state, to be changed in place by what serves a running
    /// script. Nothing else of the transaction changes.
    pub fn context_mut(&mut self) -> (c: &mut Context)
        ensures
            c@.msgs == old(self)@.msgs,
            c@.vars == old(self)@.vars,
            final(self)@ == (TransactionView {
                msgs: final(c)@.msgs,
                vars: final(c)@.vars,
                ..old(self)@
            }),
    {
        &mut self.ctx
    }

    /// Takes the transaction apart: its working state and the table whose
    /// keys are the topics acknowledged.
    pub(crate) fn into_parts(self) -> (parts: (Context, Table<()>))
        ensures
            parts.0@.msgs == self@.msgs,
            parts.0@.vars == self@.vars,
            parts.1.map().dom() == self@.acks,
    {
        (self.ctx, self.acks)
    }

    /// Tells whether the oldest message of `topic` leaves when the
    /// transaction commits as it is now.
    pub fn consumes(&self, topic: &str) -> (b: bool)
        ensures
            b == consumed(self@).contains(topic@),
    {
        self.ctx.msgs.contains_key(topic) || self.acks.contains_key(topic)
    }

    /// Runs the actions up to the next script, or to the end, and says what
    /// is to be done next.
    pub fn apply(&mut self) -> (step: Step)
        ensures
            final(self)@ == applied(old(self)@),
            match step {
                Step::Finished => finished(final(self)@),
                Step::Script(shebang, body) => pending(final(self)@) == Some((shebang@, body@)),
                Step::Failed(code, stderr) => final(self)@.failure == Some((code, stderr@)),
            },
    {
        if let Some((code, stderr)) = &self.failure {
            return Step::Failed(*code, stderr.clone());
        }
        while self.next < self.actions.len()
            invariant
                self@.failure is None,
                applied(self@) == applied(old(self)@),
            decreases self.actions.len() - self.next,
        {
            let ghost before = self@;
            match &self.actions[self.next] {
                Action::SetVar(id, value) => {
                    id.set(&mut self.ctx.vars, value.clone());
                },
                Action::UnsetVar(id) => {
                    id.unset(&mut self.ctx.vars);
                },
                Action::Acknowledge(topic) => {
                    self.acks.insert(topic.clone(), ());
                },
                Action::Script(shebang, body) => {
                    return Step::Script(shebang.clone(), body.clone());
                },
            }
            self.next = self.next + 1;
            proof {
                assert(self@.acks =~= stepped(before).acks);
                assert(self@ == stepped(before));
            }
        }
        Step::Finished
    }

    /// Reports that the script which the transaction waits for has ended
    /// with `code`, having written `stderr` to its error stream.
    pub fn script_exited(&mut self, code: i32, stderr: String) -> (r: Result<(), Error>)
        ensures
            final(self)@ == after_script(old(self)@, code, stderr@),
            match r {
                Ok(_) => pending(old(self)@) is Some && code == 0,
                Err(e) => if pending(old(self)@) is Some {
                    code != 0 && e@ == crate::error::ErrorView::Exec(code, stderr@)
                } else {
                    e@ is Runtime
                },
            },
    {
        if self.failure.is_some() || self.next >= self.actions.len() {
            return Err(Error::Runtime("no script is running".to_owned()));
        }
        match &self.actions[self.next] {
            Action::Script(_, _) => {},
            _ => {
                return Err(Error::Runtime("no script is running".to_owned()));
            },
        }
        if code == 0 {
            self.next = self.next + 1;
            Ok(())
        } else {
            self.failure = Some((code, stderr.clone()));
            Err(Error::Exec(code, stderr))
        }
    }
}

} // verus!
