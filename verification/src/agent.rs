//! An agent: a program, its state and the rule whose turn it is; and what
//! travels between agents and their supervisor.
use crate::error::Error;
use crate::grammar::{glop, parsed};
use crate::runtime::model::{compilable, compiled, Match, MatchView};
use crate::runtime::state::{committed, evaluated, pushed, State, Storage, StorageView};
use crate::runtime::transaction::{applied, finished, pending, Transaction};
use crate::ast;
use crate::table::Table;
use crate::text::views;
use crate::value::{Obj, ObjTerm};
use vstd::prelude::*;

verus! {

/// A message on its way to the agent named `dst`.
#[derive(Debug)]
pub struct Envelope {
    pub dst: String,
    pub topic: String,
    pub contents: Obj,
}

/// A request to the supervisor.
#[derive(Debug)]
pub enum Request {
    /// Start an agent named `name` on the program in the file `source`.
    Add { source: String, name: String },
    /// Stop the agent named `name`.
    Remove { name: String },
    /// Name the agents that run.
    List,
    /// Deliver a message.
    SendTo(Envelope),
}

/// The supervisor's answer to a [`Request`] of the same name.
#[derive(Debug)]
pub enum Response {
    Add,
    Remove,
    List { names: Vec<String> },
    SendTo,
}

/// The framing of requests and responses on a connection: each one is a
/// line, ended by a line feed.
#[derive(Debug)]
pub struct Codec;

/// The byte that ends a frame.
pub const LINE_FEED: u8 = 10;

impl Codec {
    /// Takes the first frame out of `buf`, where `buf` holds a whole one:
    /// the bytes before the first line feed. The line feed goes too.
    pub fn decode(&mut self, buf: &mut Vec<u8>) -> (r: Option<Vec<u8>>)
        ensures
            match r {
                Some(frame) => !frame@.contains(LINE_FEED) && old(buf)@ == frame@ + seq![LINE_FEED]
                    + final(buf)@,
                None => !old(buf)@.contains(LINE_FEED) && final(buf)@ == old(buf)@,
            },
    {
        let mut i: usize = 0;
        while i < buf.len() && buf[i] != LINE_FEED
            invariant
                i <= buf@.len(),
                buf@ == old(buf)@,
                forall|k: int| 0 <= k < i ==> buf@[k] != LINE_FEED,
            decreases buf.len() - i,
        {
            i += 1;
        }
        if i == buf.len() {
            return None;
        }
        let mut rest = buf.split_off(i + 1);
        buf.truncate(i);
        core::mem::swap(buf, &mut rest);
        proof {
            assert(old(buf)@ =~= rest@ + seq![LINE_FEED] + buf@);
        }
        Some(rest)
    }

    /// Appends `frame` to `buf` as one frame: its bytes and a line feed.
    pub fn encode(&mut self, frame: &Vec<u8>, buf: &mut Vec<u8>)
        ensures
            final(buf)@ == old(buf)@ + frame@ + seq![LINE_FEED],
    {
        let mut i: usize = 0;
        while i < frame.len()
            invariant
                i <= frame@.len(),
                buf@ == old(buf)@ + frame@.take(i as int),
            decreases frame.len() - i,
        {
            buf.push(frame[i]);
            i += 1;
            assert(buf@ =~= old(buf)@ + frame@.take(i as int));
        }
        buf.push(LINE_FEED);
        assert(buf@ =~= old(buf)@ + frame@ + seq![LINE_FEED]);
    }
}

/// A buffer splits into a first frame and a rest in one way only. So a
/// frame without a line feed that was encoded into an empty buffer is what
/// decoding gives back, with nothing left over.
pub proof fn law_first_frame_unique(
    buf: Seq<u8>,
    frame: Seq<u8>,
    rest: Seq<u8>,
    other: Seq<u8>,
    other_rest: Seq<u8>,
)
    requires
        !frame.contains(LINE_FEED),
        !other.contains(LINE_FEED),
        buf == frame + seq![LINE_FEED] + rest,
        buf == other + seq![LINE_FEED] + other_rest,
    ensures
        frame == other,
        rest == other_rest,
{
    if frame.len() < other.len() {
        assert(buf[frame.len() as int] == LINE_FEED);
        assert(other[frame.len() as int] == buf[frame.len() as int]);
        assert(other.contains(LINE_FEED));
    }
    if other.len() < frame.len() {
        assert(buf[other.len() as int] == LINE_FEED);
        assert(frame[other.len() as int] == buf[other.len() as int]);
        assert(frame.contains(LINE_FEED));
    }
    assert forall|k: int| 0 <= k < frame.len() implies frame[k] == other[k] by {
        assert(frame[k] == buf[k]);
        assert(other[k] == buf[k]);
    }
    assert(frame =~= other);
    assert(buf.len() == frame.len() + 1 + rest.len());
    assert(buf.len() == other.len() + 1 + other_rest.len());
    assert forall|k: int| 0 <= k < rest.len() implies rest[k] == other_rest[k] by {
        assert(rest[k] == buf[frame.len() + 1 + k]);
        assert(other_rest[k] == buf[other.len() + 1 + k]);
    }
    assert(rest =~= other_rest);
}

/// An agent: its rules, its state, and the place of the rule that is
/// tried next.
#[derive(Debug)]
pub struct Agent {
    matches: Vec<Match>,
    st: State,
    match_index: usize,
}

/// The mathematical value of an [`Agent`].
pub struct AgentView {
    pub rules: Seq<MatchView>,
    pub st: StorageView,
    pub index: int,
}

/// The rule that the agent tries next: rules take turns in their order,
/// the first following the last.
pub open spec fn attempted(a: AgentView) -> int {
    a.index % (a.rules.len() as int)
}

/// The agent after it has tried a rule: it is the next rule's turn,
/// whether the rule matched or not.
pub open spec fn turned(a: AgentView) -> AgentView {
    if a.rules.len() == 0 {
        a
    } else {
        AgentView { index: (attempted(a) + 1) % (a.rules.len() as int), ..a }
    }
}

/// The agent after it has tried a rule `ticks` times.
pub open spec fn turned_times(a: AgentView, ticks: nat) -> AgentView
    decreases ticks,
{
    if ticks == 0 {
        a
    } else {
        turned(turned_times(a, (ticks - 1) as nat))
    }
}

/// Trying rules changes neither the rules nor the state.
proof fn lemma_turns_keep(a: AgentView, ticks: nat)
    ensures
        turned_times(a, ticks).rules == a.rules,
        turned_times(a, ticks).st == a.st,
    decreases ticks,
{
    if ticks > 0 {
        lemma_turns_keep(a, (ticks - 1) as nat);
    }
}

/// After a rule has been tried, the rule tried next is the one that
/// follows it, or the first after the last.
pub proof fn law_next_rule_follows(a: AgentView)
    requires
        a.rules.len() > 0,
    ensures
        attempted(turned(a)) == (attempted(a) + 1) % (a.rules.len() as int),
{
    vstd::arithmetic::div_mod::lemma_mod_twice(attempted(a) + 1, a.rules.len() as int);
}

/// Whatever the rules do, after `ticks` tries it is the turn of the rule
/// that stands `ticks` places further on, counted round: every rule is
/// tried once in any run of as many tries as there are rules.
pub proof fn law_round_robin(a: AgentView, ticks: nat)
    requires
        a.rules.len() > 0,
    ensures
        turned_times(a, ticks).rules == a.rules,
        attempted(turned_times(a, ticks)) == (attempted(a) + ticks) % (a.rules.len() as int),
    decreases ticks,
{
    let n = a.rules.len() as int;
    if ticks == 0 {
        vstd::arithmetic::div_mod::lemma_mod_twice(a.index, n);
    } else {
        let before = turned_times(a, (ticks - 1) as nat);
        law_round_robin(a, (ticks - 1) as nat);
        law_next_rule_follows(before);
        vstd::arithmetic::div_mod::lemma_add_mod_noop(attempted(a) + ticks - 1, 1, n);
        vstd::arithmetic::div_mod::lemma_mod_twice(attempted(a) + ticks - 1, n);
        vstd::arithmetic::div_mod::lemma_add_mod_noop(attempted(before), 1, n);
    }
}

/// The state with which an agent starts: no variables, and one message
/// without fields on the topic `init`.
pub open spec fn initial_state() -> StorageView {
    StorageView {
        vars: ObjTerm::empty(),
        msgs: Map::<Seq<char>, Seq<ObjTerm>>::empty().insert("init"@, seq![ObjTerm::empty()]),
        seq: 0,
    }
}

/// A program can be loaded where each of its rules can be compiled.
pub open spec fn loadable(program: Seq<ast::MatchView>) -> bool {
    forall|k: int| 0 <= k < program.len() ==> compilable(#[trigger] program[k])
}

/// The agent that starts on a program.
pub open spec fn loaded(program: Seq<ast::MatchView>) -> AgentView {
    AgentView {
        rules: Seq::new(program.len(), |k: int| compiled(program[k])),
        st: initial_state(),
        index: 0,
    }
}

impl View for Agent {
    type V = AgentView;

    closed spec fn view(&self) -> AgentView {
        AgentView { rules: views(self.matches@), st: self.st@, index: self.match_index as int }
    }
}

impl Agent {
    /// The agent for the program file whose text is `contents`. The text
    /// has to write a program, and each rule of it has to compile.
    pub fn new_from_file(contents: &str) -> (r: Result<Agent, Error>)
        ensures
            match r {
                Ok(agent) => parsed(contents@) is Some && loadable(parsed(contents@).unwrap())
                    && agent@ == loaded(parsed(contents@).unwrap()),
                Err(e) => e@ is Parse && !(parsed(contents@) is Some && loadable(
                    parsed(contents@).unwrap(),
                )),
            },
    {
        let program = match glop(contents) {
            Ok(program) => program,
            Err(e) => {
                return Err(e);
            },
        };
        let mut matches: Vec<Match> = Vec::new();
        let mut i: usize = 0;
        while i < program.matches.len()
            invariant
                i <= program.matches@.len(),
                parsed(contents@) == Some(program@),
                matches@.len() == i,
                forall|k: int|
                    0 <= k < i ==> compilable(#[trigger] program@[k]) && matches@[k]@ == compiled(
                        program@[k],
                    ),
            decreases program.matches.len() - i,
        {
            match Match::new_from_ast(&program.matches[i]) {
                Ok(m) => {
                    matches.push(m);
                },
                Err(e) => {
                    assert(!compilable(program@[i as int]));
                    return Err(e);
                },
            }
            i += 1;
        }
        let mut storage = Storage::new();
        storage.push_msg("init", Obj::new());
        let agent = Agent { matches, st: State::new(storage), match_index: 0 };
        proof {
            assert(agent@.rules =~= loaded(program@).rules);
            assert(agent@.st.msgs =~= initial_state().msgs);
        }
        Ok(agent)
    }

    /// Tells whether the agent has no rule, and so nothing to do.
    pub fn is_complete(&self) -> (b: bool)
        ensures
            b == (self@.rules.len() == 0),
    {
        self.matches.len() == 0
    }

    /// The agent's state.
    pub fn state(&self) -> (st: &State)
        ensures
            st@ == self@.st,
    {
        &self.st
    }

    /// Queues the message of an envelope on its topic.
    pub fn deliver(&mut self, envelope: Envelope)
        ensures
            final(self)@ == (AgentView {
                st: StorageView {
                    msgs: pushed(old(self)@.st.msgs, envelope.topic@, envelope.contents@),
                    ..old(self)@.st
                },
                ..old(self)@
            }),
    {
        let Envelope { dst: _, topic, contents } = envelope;
        self.st.mut_storage().push_msg(topic.as_str(), contents);
    }

    /// Tries the rule whose turn it is and passes the turn on. The result
    /// is the rule's transaction where the rule matches. The state stays as
    /// it is. An agent without rules does nothing.
    pub fn poll_matches(&mut self) -> (r: Option<Transaction>)
        ensures
            final(self)@ == turned(old(self)@),
            old(self)@.rules.len() == 0 ==> r is None,
            old(self)@.rules.len() > 0 ==> match r {
                Some(txn) => evaluated(
                    old(self)@.st,
                    old(self)@.rules[attempted(old(self)@)],
                ) == Some(txn@),
                None => evaluated(old(self)@.st, old(self)@.rules[attempted(old(self)@)]) is None,
            },
    {
        let n = self.matches.len();
        if n == 0 {
            return None;
        }
        let i = self.match_index % n;
        let r = self.st.eval(&self.matches[i]);
        self.match_index = if i + 1 == n {
            0
        } else {
            i + 1
        };
        proof {
            if i + 1 < n {
                vstd::arithmetic::div_mod::lemma_small_mod((i + 1) as nat, n as nat);
            } else {
                vstd::arithmetic::div_mod::lemma_mod_self_0(n as int);
            }
        }
        r
    }

    /// Tries rules in turn, from the one whose turn it is, until one matches
    /// or each rule has been tried once, and passes the turn on once for
    /// each rule tried. The result is the transaction of the rule that
    /// matched, with the number of rules that were tried before it without
    /// a match. Where no rule matches there is no transaction, and the
    /// agent has nothing to do until a message arrives. The state stays as
    /// it is.
    pub fn poll_round(&mut self) -> (r: (Option<Transaction>, usize))
        ensures
            r.1 <= old(self)@.rules.len(),
            forall|j: nat|
                j < r.1 ==> evaluated(
                    old(self)@.st,
                    old(self)@.rules[attempted(#[trigger] turned_times(old(self)@, j))],
                ) is None,
            match r.0 {
                Some(txn) => r.1 < old(self)@.rules.len() && evaluated(
                    old(self)@.st,
                    old(self)@.rules[attempted(turned_times(old(self)@, r.1 as nat))],
                ) == Some(txn@) && final(self)@ == turned_times(old(self)@, (r.1 + 1) as nat),
                None => r.1 == old(self)@.rules.len() && final(self)@ == turned_times(
                    old(self)@,
                    r.1 as nat,
                ),
            },
    {
        let n = self.matches.len();
        let mut tried: usize = 0;
        while tried < n
            invariant
                tried <= n,
                n == old(self)@.rules.len(),
                self@ == turned_times(old(self)@, tried as nat),
                forall|j: nat|
                    j < tried ==> evaluated(
                        old(self)@.st,
                        old(self)@.rules[attempted(#[trigger] turned_times(old(self)@, j))],
                    ) is None,
            decreases n - tried,
        {
            proof {
                lemma_turns_keep(old(self)@, tried as nat);
            }
            let found = self.poll_matches();
            assert(self@ == turned_times(old(self)@, (tried + 1) as nat));
            if found.is_some() {
                return (found, tried);
            }
            tried += 1;
        }
        (None, tried)
    }

    /// Commits a transaction of the agent to its state, as
    /// [`State::commit`] does. Whose turn it is does not change.
    pub fn commit(&mut self, txn: Transaction) -> (r: Result<(), Error>)
        ensures
            final(self)@.rules == old(self)@.rules,
            final(self)@.index == old(self)@.index,
            match r {
                Ok(_) => finished(applied(txn@)) && old(self)@.st.seq < u64::MAX
                    && final(self)@.st == committed(old(self)@.st, applied(txn@)),
                Err(e) => final(self)@.st == old(self)@.st && match applied(txn@).failure {
                    Some((code, stderr)) => e@ == crate::error::ErrorView::Exec(code, stderr),
                    None => e@ is Runtime && (pending(applied(txn@)) is Some || old(self)@.st.seq
                        == u64::MAX),
                },
            },
    {
        self.st.commit(txn)
    }
}

/// The supervisor's book of the agents that run: under each agent's name,
/// the sender through which messages reach it. What a sender is, is up to
/// the program that runs the agents.
#[derive(Debug)]
pub struct Service<S> {
    senders: Table<S>,
}

impl<S> View for Service<S> {
    type V = Map<Seq<char>, S>;

    closed spec fn view(&self) -> Map<Seq<char>, S> {
        self.senders.map()
    }
}

impl<S> Service<S> {
    /// A supervisor without agents.
    pub fn new() -> (s: Service<S>)
        ensures
            s@ == Map::<Seq<char>, S>::empty(),
    {
        Service { senders: Table::new() }
    }

    /// Enters an agent that has been started under `name`. An agent that
    /// had that name before is no longer reached under it.
    pub fn add(&mut self, name: String, sender: S) -> (r: Response)
        ensures
            r is Add,
            final(self)@ == old(self)@.insert(name@, sender),
    {
        self.senders.insert(name, sender);
        Response::Add
    }

    /// Strikes the agent named `name` and hands out its sender, so that the
    /// caller can drop it: the agent then sees its messages end.
    pub fn remove(&mut self, name: &str) -> (r: (Response, Option<S>))
        ensures
            r.0 is Remove,
            final(self)@ == old(self)@.remove(name@),
            r.1 == (if old(self)@.contains_key(name@) {
                Some(old(self)@[name@])
            } else {
                None
            }),
    {
        let sender = self.senders.remove(name);
        (Response::Remove, sender)
    }

    /// The names of the agents, each once.
    pub fn list(&self) -> (r: Response)
        ensures
            match r {
                Response::List { names } => views(names@).no_duplicates() && forall|
                    name: Seq<char>,
                | views(names@).contains(name) <==> self@.contains_key(name),
                _ => false,
            },
    {
        let n = self.senders.len();
        let mut names: Vec<String> = Vec::new();
        let mut i: usize = 0;
        while i < n
            invariant
                i <= n,
                n == self.senders.keys().len(),
                views(names@) == self.senders.keys().take(i as int),
            decreases n - i,
        {
            let ghost before = views(names@);
            let name = self.senders.key_at(i).clone();
            names.push(name);
            i += 1;
            assert(views(names@) =~= before.push(name@));
            assert(views(names@) =~= self.senders.keys().take(i as int));
        }
        assert(self.senders.keys().take(n as int) =~= self.senders.keys());
        Response::List { names }
    }

    /// The sender of the agent that an envelope is for. An envelope for a
    /// name that no agent has goes nowhere, and that is no failure.
    pub fn send_to(&self, envelope: &Envelope) -> (r: (Response, Option<&S>))
        ensures
            r.0 is SendTo,
            match r.1 {
                Some(sender) => self@.contains_key(envelope.dst@) && *sender
                    == self@[envelope.dst@],
                None => !self@.contains_key(envelope.dst@),
            },
    {
        (Response::SendTo, self.senders.get(envelope.dst.as_str()))
    }
}

} // verus!
