//! The committed state of an agent.
use crate::ast::CmpOpcode;
use crate::error::Error;
use crate::runtime::context::{lookup, Context, ContextView};
use crate::runtime::model::{clone_actions, Condition, ConditionView, Match, MatchView};
use crate::runtime::transaction::{
    applied, consumed, finished, fresh, pending, Step, Transaction, TransactionView,
};
use crate::table::Table;
use crate::text::views;
use crate::value::{Obj, ObjTerm, Term, Value};
use vstd::prelude::*;

verus! {

/// The committed state of an agent: its variables, the messages queued for
/// it on each topic, and the number of transactions committed so far.
#[derive(Debug)]
pub struct Storage {
    vars: Obj,
    msgs: Table<Vec<Obj>>,
    seq: u64,
}

/// The mathematical value of a [`Storage`]. A topic is a key of `msgs`
/// exactly when a message is queued on it.
pub struct StorageView {
    pub vars: ObjTerm,
    pub msgs: Map<Seq<char>, Seq<ObjTerm>>,
    pub seq: u64,
}

impl StorageView {
    /// Every topic that is a key of `msgs` has a message queued.
    pub open spec fn wf(self) -> bool {
        forall|t: Seq<char>| self.msgs.contains_key(t) ==> (#[trigger] self.msgs[t]).len() > 0
    }
}

/// The messages queued on `topic`, oldest first.
pub open spec fn queue_of(msgs: Map<Seq<char>, Seq<ObjTerm>>, topic: Seq<char>) -> Seq<ObjTerm> {
    if msgs.contains_key(topic) {
        msgs[topic]
    } else {
        Seq::empty()
    }
}

/// The queues after `payload` has joined the tail of `topic`.
pub open spec fn pushed(
    msgs: Map<Seq<char>, Seq<ObjTerm>>,
    topic: Seq<char>,
    payload: ObjTerm,
) -> Map<Seq<char>, Seq<ObjTerm>> {
    msgs.insert(topic, queue_of(msgs, topic).push(payload))
}

/// The queues after the head of `topic` has left, if it had one.
pub open spec fn popped(msgs: Map<Seq<char>, Seq<ObjTerm>>, topic: Seq<char>) -> Map<
    Seq<char>,
    Seq<ObjTerm>,
> {
    if queue_of(msgs, topic).len() <= 1 {
        msgs.remove(topic)
    } else {
        msgs.insert(topic, msgs[topic].drop_first())
    }
}

/// The queues that a table of queues stands for.
pub open spec fn queues_of(m: Map<Seq<char>, Vec<Obj>>) -> Map<Seq<char>, Seq<ObjTerm>> {
    Map::new(|t: Seq<char>| m.contains_key(t) && m[t]@.len() > 0, |t: Seq<char>| views(m[t]@))
}

impl View for Storage {
    type V = StorageView;

    closed spec fn view(&self) -> StorageView {
        StorageView { vars: self.vars@, msgs: queues_of(self.msgs.map()), seq: self.seq }
    }
}

impl Storage {
    /// A state without variables or messages, with no transaction committed.
    pub fn new() -> (s: Storage)
        ensures
            s@ == (StorageView { vars: ObjTerm::empty(), msgs: Map::empty(), seq: 0 }),
    {
        let s = Storage { vars: Obj::new(), msgs: Table::new(), seq: 0 };
        assert(s@.msgs =~= Map::<Seq<char>, Seq<ObjTerm>>::empty());
        s
    }

    /// Appends `payload` to the messages queued on `topic`.
    pub fn push_msg(&mut self, topic: &str, payload: Obj)
        ensures
            final(self)@ == (StorageView {
                msgs: pushed(old(self)@.msgs, topic@, payload@),
                ..old(self)@
            }),
    {
        let mut queue = match self.msgs.remove(topic) {
            Some(queue) => queue,
            None => Vec::new(),
        };
        let ghost before = queue@;
        queue.push(payload);
        proof {
            assert(views(queue@) =~= views(before).push(payload@));
            assert(views(before) =~= queue_of(old(self)@.msgs, topic@));
        }
        self.msgs.insert(topic.to_owned(), queue);
        proof {
            assert(self@.msgs =~= pushed(old(self)@.msgs, topic@, payload@));
        }
    }

    /// Takes the oldest message queued on `topic` out of its queue.
    pub fn pop_msg(&mut self, topic: &str) -> (r: Option<Obj>)
        ensures
            final(self)@ == (StorageView { msgs: popped(old(self)@.msgs, topic@), ..old(self)@ }),
            match r {
                Some(payload) => old(self)@.msgs.contains_key(topic@) && payload@ == old(
                    self,
                )@.msgs[topic@][0],
                None => !old(self)@.msgs.contains_key(topic@),
            },
    {
        match self.msgs.remove(topic) {
            Some(queue) => {
                let mut queue = queue;
                if queue.len() == 0 {
                    proof {
                        assert(self@.msgs =~= popped(old(self)@.msgs, topic@));
                    }
                    None
                } else {
                    let ghost before = queue@;
                    let head = queue.remove(0);
                    proof {
                        assert(views(queue@) =~= views(before).drop_first());
                    }
                    if queue.len() > 0 {
                        self.msgs.insert(topic.to_owned(), queue);
                    }
                    proof {
                        assert(self@.msgs =~= popped(old(self)@.msgs, topic@));
                    }
                    Some(head)
                }
            },
            None => {
                proof {
                    assert(self@.msgs =~= popped(old(self)@.msgs, topic@));
                }
                None
            },
        }
    }

    /// The oldest message queued on `topic`.
    pub fn peek_msg(&self, topic: &str) -> (r: Option<&Obj>)
        ensures
            match r {
                Some(payload) => self@.msgs.contains_key(topic@) && payload@
                    == self@.msgs[topic@][0],
                None => !self@.msgs.contains_key(topic@),
            },
    {
        match self.msgs.get(topic) {
            Some(queue) => {
                if queue.len() > 0 {
                    Some(&queue[0])
                } else {
                    None
                }
            },
            None => None,
        }
    }

    /// The variables.
    pub fn vars(&self) -> (r: &Obj)
        ensures
            r@ == self@.vars,
    {
        &self.vars
    }

    /// The variables, to be changed in place. Messages and the count of
    /// commits stay as they are.
    pub fn mut_vars(&mut self) -> (r: &mut Obj)
        ensures
            r@ == old(self)@.vars,
            final(self)@ == (StorageView { vars: final(r)@, ..old(self)@ }),
    {
        &mut self.vars
    }

    /// The number of transactions committed so far.
    pub fn seq(&self) -> (n: u64)
        ensures
            n == self@.seq,
    {
        self.seq
    }

    /// The value of every state is well formed: no topic is kept without a
    /// message.
    pub proof fn lemma_view_wf(&self)
        ensures
            self@.wf(),
    {
    }
}

/// Tells whether what a name led to compares to the literal as the opcode
/// says: equal values have the same tag and the same content.
pub open spec fn holds(op: CmpOpcode, found: Term, rhs: Term) -> bool {
    match op {
        CmpOpcode::Eq => found == rhs,
        CmpOpcode::NotEq => found != rhs,
    }
}

/// The outcome of checking the conditions from position `from` on, in
/// order, when the messages in `msgs` have been taken already: the messages
/// taken in the end where every condition holds, and nothing where one
/// fails. A message condition holds where its topic has a message queued,
/// and takes a copy of the oldest one; a name that leads to nothing fails
/// every condition that asks for it.
pub open spec fn matched(
    conditions: Seq<ConditionView>,
    from: int,
    st: StorageView,
    msgs: ObjTerm,
) -> Option<ObjTerm>
    decreases conditions.len() - from,
{
    if !(0 <= from < conditions.len()) {
        Some(msgs)
    } else {
        match conditions[from] {
            ConditionView::Message(topic) => if st.msgs.contains_key(topic) {
                matched(
                    conditions,
                    from + 1,
                    st,
                    msgs.insert(topic, Term::Object(st.msgs[topic][0])),
                )
            } else {
                None
            },
            ConditionView::IsSet(id) => if lookup(id, st.vars, msgs) is Some {
                matched(conditions, from + 1, st, msgs)
            } else {
                None
            },
            ConditionView::Cmp(id, op, rhs) => match lookup(id, st.vars, msgs) {
                Some(found) => if holds(op, found, rhs) {
                    matched(conditions, from + 1, st, msgs)
                } else {
                    None
                },
                None => None,
            },
        }
    }
}

/// The transaction that a rule gives on a state: a fresh one with the
/// messages taken and a copy of the variables where the rule's conditions
/// hold, none where one of them fails.
pub open spec fn evaluated(st: StorageView, m: MatchView) -> Option<TransactionView> {
    match matched(m.conditions, 0, st, ObjTerm::empty()) {
        Some(msgs) => Some(fresh(st.seq, ContextView { msgs, vars: st.vars }, m.actions)),
        None => None,
    }
}

/// The queues after the head of each topic in `topics` has left.
pub open spec fn popped_all(msgs: Map<Seq<char>, Seq<ObjTerm>>, topics: Set<Seq<char>>) -> Map<
    Seq<char>,
    Seq<ObjTerm>,
> {
    Map::new(
        |t: Seq<char>| msgs.contains_key(t) && (topics.contains(t) ==> msgs[t].len() > 1),
        |t: Seq<char>|
            if topics.contains(t) {
                msgs[t].drop_first()
            } else {
                msgs[t]
            },
    )
}

/// The state after a finished transaction has been committed to it: the
/// transaction's variables, the queues without the heads of the topics that
/// the transaction consumed, and one commit more.
pub open spec fn committed(st: StorageView, t: TransactionView) -> StorageView {
    StorageView {
        vars: t.vars,
        msgs: popped_all(st.msgs, consumed(t)),
        seq: (st.seq + 1) as u64,
    }
}

proof fn lemma_pop_one_more(
    msgs: Map<Seq<char>, Seq<ObjTerm>>,
    topics: Set<Seq<char>>,
    topic: Seq<char>,
)
    requires
        forall|t: Seq<char>| msgs.contains_key(t) ==> msgs[t].len() > 0,
    ensures
        !topics.contains(topic) ==> popped(popped_all(msgs, topics), topic) == popped_all(
            msgs,
            topics.insert(topic),
        ),
        topics.contains(topic) ==> popped_all(msgs, topics) == popped_all(
            msgs,
            topics.insert(topic),
        ),
{
    if topics.contains(topic) {
        assert(topics.insert(topic) =~= topics);
    } else {
        assert(popped(popped_all(msgs, topics), topic) =~= popped_all(
            msgs,
            topics.insert(topic),
        ));
    }
}

/// A condition holds on a state for a transaction that has taken the
/// messages `msgs`: the topic of a message condition has a message queued,
/// of which the transaction holds a copy; the name of any other condition
/// leads to something, which compares as the condition says.
pub open spec fn condition_holds(c: ConditionView, st: StorageView, msgs: ObjTerm) -> bool {
    match c {
        ConditionView::Message(topic) => st.msgs.contains_key(topic) && msgs.contains_key(topic)
            && msgs[topic] == Term::Object(st.msgs[topic][0]),
        ConditionView::IsSet(id) => lookup(id, st.vars, msgs) is Some,
        ConditionView::Cmp(id, op, rhs) => match lookup(id, st.vars, msgs) {
            Some(found) => holds(op, found, rhs),
            None => false,
        },
    }
}

/// Each message in `msgs` is a copy of the oldest message of its topic.
spec fn taken_from(msgs: ObjTerm, st: StorageView) -> bool {
    forall|t: Seq<char>| #[trigger]
        msgs.contains_key(t) ==> st.msgs.contains_key(t) && msgs[t] == Term::Object(
            st.msgs[t][0],
        )
}

/// What a name leads to stays what it is when more messages are taken.
proof fn lemma_lookup_kept(id: Seq<Seq<char>>, vars: ObjTerm, msgs: ObjTerm, more: ObjTerm)
    requires
        forall|t: Seq<char>| #[trigger] msgs.contains_key(t) ==> more.contains_key(t) && more[t]
            == msgs[t],
        lookup(id, vars, msgs) is Some,
    ensures
        lookup(id, vars, more) == lookup(id, vars, msgs),
{
    if crate::value::path_get(id, vars) is None {
        assert(msgs.contains_key(id[0]));
    }
}

proof fn lemma_matched_holds(
    conditions: Seq<ConditionView>,
    from: int,
    st: StorageView,
    msgs: ObjTerm,
    at: int,
)
    requires
        0 <= from <= at < conditions.len(),
        taken_from(msgs, st),
        matched(conditions, from, st, msgs) is Some,
    ensures
        taken_from(matched(conditions, from, st, msgs).unwrap(), st),
        forall|t: Seq<char>| #[trigger]
            msgs.contains_key(t) ==> matched(conditions, from, st, msgs).unwrap().contains_key(t)
                && matched(conditions, from, st, msgs).unwrap()[t] == msgs[t],
        condition_holds(conditions[at], st, matched(conditions, from, st, msgs).unwrap()),
    decreases conditions.len() - from,
{
    let end = matched(conditions, from, st, msgs).unwrap();
    let more = match conditions[from] {
        ConditionView::Message(topic) => msgs.insert(topic, Term::Object(st.msgs[topic][0])),
        _ => msgs,
    };
    assert(matched(conditions, from, st, msgs) == matched(conditions, from + 1, st, more));
    assert(taken_from(more, st));
    if from + 1 < conditions.len() {
        let next = if at == from {
            from + 1
        } else {
            at
        };
        lemma_matched_holds(conditions, from + 1, st, more, next);
        assert forall|t: Seq<char>| #[trigger] msgs.contains_key(t) implies end.contains_key(t)
            && end[t] == msgs[t] by {
            assert(more.contains_key(t));
        }
    }
    if at == from {
        match conditions[from] {
            ConditionView::Message(topic) => {
                assert(more.contains_key(topic));
            },
            ConditionView::IsSet(id) => {
                lemma_lookup_kept(id, st.vars, msgs, end);
            },
            ConditionView::Cmp(id, op, rhs) => {
                lemma_lookup_kept(id, st.vars, msgs, end);
            },
        }
    }
}

/// When a rule matches, each of its conditions holds on the state for the
/// transaction that the match gives.
pub proof fn law_match_conditions_hold(m: MatchView, st: StorageView, at: int)
    requires
        0 <= at < m.conditions.len(),
        evaluated(st, m) is Some,
    ensures
        condition_holds(m.conditions[at], st, evaluated(st, m).unwrap().msgs),
{
    lemma_matched_holds(m.conditions, 0, st, ObjTerm::empty(), at);
}

/// A rule with a message condition on `topic` that matches on a state, and
/// whose transaction is then committed to that state, takes exactly one
/// message from the topic: the oldest. This holds whatever else the rule
/// asks for or acknowledges.
pub proof fn law_commit_consumes_one(
    conditions: Seq<ConditionView>,
    at: int,
    topic: Seq<char>,
    st: StorageView,
    t: TransactionView,
)
    requires
        0 <= at < conditions.len(),
        conditions[at] == ConditionView::Message(topic),
        matched(conditions, 0, st, ObjTerm::empty()) == Some(t.msgs),
        st.wf(),
    ensures
        st.msgs.contains_key(topic),
        st.msgs[topic].len() > 0,
        queue_of(committed(st, t).msgs, topic) == st.msgs[topic].drop_first(),
{
    lemma_matched_holds(conditions, 0, st, ObjTerm::empty(), at);
    assert(consumed(t).contains(topic));
    if st.msgs[topic].len() <= 1 {
        assert(queue_of(committed(st, t).msgs, topic) =~= st.msgs[topic].drop_first());
    }
}

/// An agent's state with the operations of the rule engine.
#[derive(Debug)]
pub struct State {
    storage: Storage,
}

impl View for State {
    type V = StorageView;

    closed spec fn view(&self) -> StorageView {
        self.storage@
    }
}

impl State {
    /// The engine's state over `storage`.
    pub fn new(storage: Storage) -> (s: State)
        ensures
            s@ == storage@,
    {
        State { storage }
    }

    /// The committed state.
    pub fn storage(&self) -> (r: &Storage)
        ensures
            r@ == self@,
    {
        &self.storage
    }

    /// The committed state, to be changed in place.
    pub fn mut_storage(&mut self) -> (r: &mut Storage)
        ensures
            r@ == old(self)@,
            final(self)@ == final(r)@,
    {
        &mut self.storage
    }

    /// Tries the conditions of `m` against the committed state, which stays
    /// as it is. Where all of them hold, the result is a transaction that
    /// has taken a copy of the oldest message of each topic that `m` asks
    /// for and works on a copy of the variables.
    pub fn eval(&self, m: &Match) -> (r: Option<Transaction>)
        ensures
            match r {
                Some(txn) => evaluated(self@, m@) == Some(txn@),
                None => evaluated(self@, m@) is None,
            },
    {
        let conditions = m.conditions();
        let mut ctx = Context::new(self.storage.vars().clone());
        let mut i: usize = 0;
        while i < conditions.len()
            invariant
                i <= conditions@.len(),
                views(conditions@) == m@.conditions,
                ctx@.vars == self@.vars,
                matched(m@.conditions, 0, self@, ObjTerm::empty()) == matched(
                    m@.conditions,
                    i as int,
                    self@,
                    ctx@.msgs,
                ),
            decreases conditions.len() - i,
        {
            assert(m@.conditions[i as int] == conditions@[i as int]@);
            match &conditions[i] {
                Condition::Message(topic) => {
                    match self.storage.peek_msg(topic.as_str()) {
                        Some(payload) => {
                            ctx.msgs.insert(topic.clone(), Value::Object(payload.clone()));
                        },
                        None => {
                            return None;
                        },
                    }
                },
                Condition::IsSet(id) => {
                    if ctx.lookup(id).is_none() {
                        return None;
                    }
                },
                Condition::Cmp(id, op, rhs) => {
                    match ctx.lookup(id) {
                        Some(found) => {
                            let equal = found.same(rhs);
                            let ok = match op {
                                CmpOpcode::Eq => equal,
                                CmpOpcode::NotEq => !equal,
                            };
                            if !ok {
                                return None;
                            }
                        },
                        None => {
                            return None;
                        },
                    }
                },
            }
            i += 1;
        }
        Some(Transaction::new(self.storage.seq(), ctx, clone_actions(m.actions())))
    }

    /// Runs what is left of the transaction's actions and, where that ends
    /// without a script left to run, writes the outcome to the committed
    /// state: the variables become the transaction's, the oldest message
    /// leaves each topic that the transaction consumed, and the count of
    /// commits goes up by one. In every other case the committed state stays
    /// as it is: where a script of the transaction has failed, the error
    /// holds its exit code and error output.
    pub fn commit(&mut self, txn: Transaction) -> (r: Result<(), Error>)
        ensures
            match r {
                Ok(_) => finished(applied(txn@)) && old(self)@.seq < u64::MAX && final(self)@
                    == committed(old(self)@, applied(txn@)),
                Err(e) => final(self)@ == old(self)@ && match applied(txn@).failure {
                    Some((code, stderr)) => e@ == crate::error::ErrorView::Exec(code, stderr),
                    None => e@ is Runtime && (pending(applied(txn@)) is Some || old(self)@.seq
                        == u64::MAX),
                },
            },
    {
        let mut txn = txn;
        match txn.apply() {
            Step::Finished => {},
            Step::Script(_, _) => {
                return Err(Error::Runtime("a script of the transaction has not run".to_owned()));
            },
            Step::Failed(code, stderr) => {
                return Err(Error::Exec(code, stderr));
            },
        }
        if self.storage.seq == u64::MAX {
            return Err(Error::Runtime("the count of commits is exhausted".to_owned()));
        }
        let ghost before = self@;
        let ghost done = txn@;
        let (ctx, acks) = txn.into_parts();
        let Context { msgs, vars } = ctx;
        self.storage.vars = vars;
        self.storage.seq = self.storage.seq + 1;
        let n = msgs.len();
        let mut i: usize = 0;
        proof {
            assert(self@.msgs =~= popped_all(before.msgs, msgs.keys().take(0).to_set()));
        }
        while i < n
            invariant
                i <= n,
                n == msgs.keys().len(),
                msgs.keys().no_duplicates(),
                self@.vars == done.vars,
                self@.seq == before.seq + 1,
                self@.msgs == popped_all(before.msgs, msgs.keys().take(i as int).to_set()),
                forall|t: Seq<char>| before.msgs.contains_key(t) ==> before.msgs[t].len() > 0,
            decreases n - i,
        {
            let ghost seen = msgs.keys().take(i as int).to_set();
            let topic = msgs.key_at(i);
            self.storage.pop_msg(topic.as_str());
            proof {
                assert(!seen.contains(topic@)) by {
                    if seen.contains(topic@) {
                        let j = choose|j: int|
                            0 <= j < msgs.keys().take(i as int).len() && msgs.keys().take(
                                i as int,
                            )[j] == topic@;
                        assert(msgs.keys()[j] == msgs.keys()[i as int]);
                    }
                }
                lemma_pop_one_more(before.msgs, seen, topic@);
                assert(msgs.keys().take(i + 1) =~= msgs.keys().take(i as int).push(topic@));
                msgs.keys().take(i as int).lemma_push_to_set_commute(topic@);
                assert(msgs.keys().take(i + 1).to_set() =~= seen.insert(topic@));
            }
            i += 1;
        }
        let m = acks.len();
        let mut j: usize = 0;
        proof {
            assert(msgs.keys().take(n as int) =~= msgs.keys());
            assert(msgs.keys().to_set() =~= msgs@.dom());
            assert(msgs@.dom().union(acks.keys().take(0).to_set()) =~= msgs@.dom());
        }
        while j < m
            invariant
                j <= m,
                m == acks.keys().len(),
                acks.keys().no_duplicates(),
                self@.vars == done.vars,
                self@.seq == before.seq + 1,
                self@.msgs == popped_all(
                    before.msgs,
                    msgs@.dom().union(acks.keys().take(j as int).to_set()),
                ),
                forall|t: Seq<char>| before.msgs.contains_key(t) ==> before.msgs[t].len() > 0,
            decreases m - j,
        {
            let ghost seen = msgs@.dom().union(acks.keys().take(j as int).to_set());
            let topic = acks.key_at(j);
            if !msgs.contains_key(topic.as_str()) {
                self.storage.pop_msg(topic.as_str());
            }
            proof {
                assert(!acks.keys().take(j as int).to_set().contains(topic@)) by {
                    if acks.keys().take(j as int).to_set().contains(topic@) {
                        let k = choose|k: int|
                            0 <= k < acks.keys().take(j as int).len() && acks.keys().take(
                                j as int,
                            )[k] == topic@;
                        assert(acks.keys()[k] == acks.keys()[j as int]);
                    }
                }
                lemma_pop_one_more(before.msgs, seen, topic@);
                assert(acks.keys().take(j + 1) =~= acks.keys().take(j as int).push(topic@));
                acks.keys().take(j as int).lemma_push_to_set_commute(topic@);
                assert(msgs@.dom().union(acks.keys().take(j + 1).to_set()) =~= seen.insert(
                    topic@,
                ));
            }
            j += 1;
        }
        proof {
            assert(acks.keys().take(m as int) =~= acks.keys());
            assert(acks.keys().to_set() =~= acks.map().dom());
            assert(msgs@.dom().union(acks.keys().to_set()) =~= consumed(done));
        }
        Ok(())
    }
}

} // verus!
