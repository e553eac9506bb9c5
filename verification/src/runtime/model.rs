//! Compiled rules: what a rule asks of the state and what it does to it.
use crate::ast;
use crate::ast::CmpOpcode;
use crate::error::Error;
use crate::text::{chars_of, str_eq, string_from, views};
use crate::value::{Identifier, Term, Value};
use vstd::prelude::*;

verus! {

/// One condition of a compiled rule.
#[derive(Debug)]
pub enum Condition {
    /// A message is queued on the topic; matching takes the one at the head.
    Message(String),
    /// What the name leads to compares to the literal as the opcode says.
    Cmp(Identifier, CmpOpcode, Value),
    /// The name leads to something.
    IsSet(Identifier),
}

/// One action of a compiled rule.
#[derive(Debug)]
pub enum Action {
    /// Puts the value under the name.
    SetVar(Identifier, Value),
    /// Takes the name out.
    UnsetVar(Identifier),
    /// Drops the message at the head of the topic when the rule commits.
    Acknowledge(String),
    /// Runs a script: its first line, which names the interpreter, and the
    /// lines after it.
    Script(String, String),
}

/// A compiled rule.
#[derive(Debug)]
pub struct Match {
    conditions: Vec<Condition>,
    actions: Vec<Action>,
}

/// The mathematical value of a [`Condition`].
pub enum ConditionView {
    Message(Seq<char>),
    Cmp(Seq<Seq<char>>, CmpOpcode, Term),
    IsSet(Seq<Seq<char>>),
}

/// The mathematical value of an [`Action`].
pub enum ActionView {
    SetVar(Seq<Seq<char>>, Term),
    UnsetVar(Seq<Seq<char>>),
    Acknowledge(Seq<char>),
    Script(Seq<char>, Seq<char>),
}

/// The mathematical value of a [`Match`].
pub struct MatchView {
    pub conditions: Seq<ConditionView>,
    pub actions: Seq<ActionView>,
}

impl View for Condition {
    type V = ConditionView;

    open spec fn view(&self) -> ConditionView {
        match self {
            Condition::Message(topic) => ConditionView::Message(topic@),
            Condition::Cmp(id, op, rhs) => ConditionView::Cmp(id@, *op, rhs@),
            Condition::IsSet(id) => ConditionView::IsSet(id@),
        }
    }
}

impl View for Action {
    type V = ActionView;

    open spec fn view(&self) -> ActionView {
        match self {
            Action::SetVar(id, value) => ActionView::SetVar(id@, value@),
            Action::UnsetVar(id) => ActionView::UnsetVar(id@),
            Action::Acknowledge(topic) => ActionView::Acknowledge(topic@),
            Action::Script(shebang, body) => ActionView::Script(shebang@, body@),
        }
    }
}

impl View for Match {
    type V = MatchView;

    closed spec fn view(&self) -> MatchView {
        MatchView { conditions: views(self.conditions@), actions: views(self.actions@) }
    }
}

impl Clone for Condition {
    fn clone(&self) -> (r: Condition)
        ensures
            r@ == self@,
    {
        match self {
            Condition::Message(topic) => Condition::Message(topic.clone()),
            Condition::Cmp(id, op, rhs) => Condition::Cmp(id.clone(), *op, rhs.clone()),
            Condition::IsSet(id) => Condition::IsSet(id.clone()),
        }
    }
}

impl Clone for Action {
    fn clone(&self) -> (r: Action)
        ensures
            r@ == self@,
    {
        match self {
            Action::SetVar(id, value) => Action::SetVar(id.clone(), value.clone()),
            Action::UnsetVar(id) => Action::UnsetVar(id.clone()),
            Action::Acknowledge(topic) => Action::Acknowledge(topic.clone()),
            Action::Script(shebang, body) => Action::Script(shebang.clone(), body.clone()),
        }
    }
}

/// A copy of a list of actions.
pub fn clone_actions(actions: &Vec<Action>) -> (r: Vec<Action>)
    ensures
        views(r@) == views(actions@),
{
    let mut r: Vec<Action> = Vec::new();
    let mut i: usize = 0;
    while i < actions.len()
        invariant
            i <= actions.len(),
            r@.len() == i,
            forall|j: int| 0 <= j < i ==> r@[j]@ == actions@[j]@,
        decreases actions.len() - i,
    {
        r.push(actions[i].clone());
        i += 1;
    }
    assert(views(r@) =~= views(actions@));
    r
}

impl Clone for Match {
    fn clone(&self) -> (r: Match)
        ensures
            r@ == self@,
    {
        let mut conditions: Vec<Condition> = Vec::new();
        let mut i: usize = 0;
        while i < self.conditions.len()
            invariant
                i <= self.conditions.len(),
                conditions@.len() == i,
                forall|j: int| 0 <= j < i ==> conditions@[j]@ == self.conditions@[j]@,
            decreases self.conditions.len() - i,
        {
            conditions.push(self.conditions[i].clone());
            i += 1;
        }
        assert(views(conditions@) =~= views(self.conditions@));
        Match { conditions, actions: clone_actions(&self.actions) }
    }
}

/// Where the first line of `s` ends: the place of its first line feed, or
/// its length where it has none.
pub open spec fn line_end(s: Seq<char>) -> int
    decreases s.len(),
{
    if s.len() == 0 || s[0] == '\n' {
        0
    } else {
        1 + line_end(s.drop_first())
    }
}

/// The first line of a script's text.
pub open spec fn script_head(text: Seq<char>) -> Seq<char> {
    text.take(line_end(text))
}

/// What follows the first line of a script's text.
pub open spec fn script_rest(text: Seq<char>) -> Seq<char> {
    if line_end(text) < text.len() {
        text.skip(line_end(text) + 1)
    } else {
        Seq::empty()
    }
}

/// The compiled form of a condition.
pub open spec fn compiled_condition(c: ast::ConditionView) -> ConditionView {
    match c {
        ast::ConditionView::Cmp(id, op, rhs) => ConditionView::Cmp(id, op, Term::Str(rhs)),
        ast::ConditionView::IsSet(id) => ConditionView::IsSet(id),
        ast::ConditionView::Message(topic) => ConditionView::Message(topic),
    }
}

/// The compiled form of an action. An `exec` action has none.
pub open spec fn compiled_action(a: ast::ActionView) -> Option<ActionView> {
    match a {
        ast::ActionView::SetVar(id, value) => Some(ActionView::SetVar(id, Term::Str(value))),
        ast::ActionView::UnsetVar(id) => Some(ActionView::UnsetVar(id)),
        ast::ActionView::Acknowledge(topic) => Some(ActionView::Acknowledge(topic)),
        ast::ActionView::Exec(_) => None,
        ast::ActionView::Script(text) => Some(
            ActionView::Script(script_head(text), script_rest(text)),
        ),
    }
}

/// Conditions `i` and `j` of the list are both message conditions, on the
/// same topic.
pub open spec fn same_topic(conditions: Seq<ast::ConditionView>, i: int, j: int) -> bool {
    conditions[i] is Message && conditions[j] is Message && conditions[i]->Message_0
        == conditions[j]->Message_0
}

/// No two message conditions of the list name the same topic.
pub open spec fn distinct_topics(conditions: Seq<ast::ConditionView>) -> bool {
    forall|i: int, j: int|
        0 <= i < j < conditions.len() ==> !#[trigger] same_topic(conditions, i, j)
}

/// A rule can be compiled where its message conditions name distinct
/// topics and each of its actions has a compiled form.
pub open spec fn compilable(m: ast::MatchView) -> bool {
    distinct_topics(m.conditions) && forall|i: int|
        0 <= i < m.actions.len() ==> (#[trigger] compiled_action(m.actions[i])) is Some
}

/// The compiled form of a rule.
pub open spec fn compiled(m: ast::MatchView) -> MatchView {
    MatchView {
        conditions: Seq::new(m.conditions.len(), |i: int| compiled_condition(m.conditions[i])),
        actions: Seq::new(m.actions.len(), |i: int| compiled_action(m.actions[i]).unwrap()),
    }
}

/// Splits a script's text after its first line.
pub fn split_script(text: &str) -> (r: (String, String))
    ensures
        r.0@ == script_head(text@),
        r.1@ == script_rest(text@),
{
    let chars = chars_of(text);
    let mut i: usize = 0;
    assert(chars@.skip(0) =~= chars@);
    while i < chars.len() && chars[i] != '\n'
        invariant
            i <= chars@.len(),
            line_end(chars@) == i + line_end(chars@.skip(i as int)),
        decreases chars.len() - i,
    {
        assert(chars@.skip(i as int).drop_first() =~= chars@.skip(i + 1));
        i += 1;
    }
    assert(chars@.subrange(0, i as int) =~= chars@.take(i as int));
    let head = string_from(&chars, 0, i);
    if i < chars.len() {
        assert(chars@.subrange(i + 1, chars@.len() as int) =~= chars@.skip(i + 1));
        (head, string_from(&chars, i + 1, chars.len()))
    } else {
        (head, String::new())
    }
}

impl Condition {
    /// Compiles a condition.
    pub fn new_from_ast(c: &ast::Condition) -> (r: Condition)
        ensures
            r@ == compiled_condition(c@),
    {
        match c {
            ast::Condition::Cmp(id, op, rhs) => Condition::Cmp(
                Identifier::from_ast(id),
                *op,
                Value::Str(rhs.clone()),
            ),
            ast::Condition::IsSet(id) => Condition::IsSet(Identifier::from_ast(id)),
            ast::Condition::Message(topic) => Condition::Message(topic.clone()),
        }
    }
}

impl Action {
    /// Compiles an action, where it has a compiled form.
    pub fn new_from_ast(a: &ast::Action) -> (r: Option<Action>)
        ensures
            match r {
                Some(action) => compiled_action(a@) == Some(action@),
                None => compiled_action(a@) is None,
            },
    {
        match a {
            ast::Action::SetVar(id, value) => Some(
                Action::SetVar(Identifier::from_ast(id), Value::Str(value.clone())),
            ),
            ast::Action::UnsetVar(id) => Some(Action::UnsetVar(Identifier::from_ast(id))),
            ast::Action::Acknowledge(topic) => Some(Action::Acknowledge(topic.clone())),
            ast::Action::Exec(_) => None,
            ast::Action::Script(text) => {
                let (head, rest) = split_script(text.as_str());
                Some(Action::Script(head, rest))
            },
        }
    }
}

/// Tells whether a message condition before position `i` names the topic
/// of the message condition at position `i`.
fn topic_seen_before(conditions: &Vec<ast::Condition>, i: usize) -> (r: bool)
    requires
        i < conditions@.len(),
    ensures
        r == exists|j: int| 0 <= j < i && same_topic(views(conditions@), j, i as int),
{
    match &conditions[i] {
        ast::Condition::Message(topic) => {
            let mut j: usize = 0;
            while j < i
                invariant
                    j <= i < conditions@.len(),
                    conditions@[i as int] == ast::Condition::Message(*topic),
                    forall|k: int| 0 <= k < j ==> !same_topic(views(conditions@), k, i as int),
                decreases i - j,
            {
                match &conditions[j] {
                    ast::Condition::Message(other) => {
                        if str_eq(other.as_str(), topic.as_str()) {
                            assert(same_topic(views(conditions@), j as int, i as int));
                            return true;
                        }
                    },
                    _ => {},
                }
                j += 1;
            }
            false
        },
        _ => false,
    }
}

impl Match {
    /// Compiles a rule. A rule with two message conditions on one topic, or
    /// with an `exec` action, is refused.
    pub fn new_from_ast(m: &ast::Match) -> (r: Result<Match, Error>)
        ensures
            match r {
                Ok(c) => compilable(m@) && c@ == compiled(m@),
                Err(e) => !compilable(m@) && e@ is Parse,
            },
    {
        let mut conditions: Vec<Condition> = Vec::new();
        let mut i: usize = 0;
        while i < m.conditions.len()
            invariant
                i <= m.conditions@.len(),
                conditions@.len() == i,
                forall|k: int|
                    0 <= k < i ==> conditions@[k]@ == compiled_condition(m.conditions@[k]@),
                forall|a: int, b: int|
                    0 <= a < b < i ==> !#[trigger] same_topic(views(m.conditions@), a, b),
            decreases m.conditions.len() - i,
        {
            if topic_seen_before(&m.conditions, i) {
                return Err(Error::Parse("two message conditions on one topic".to_owned()));
            }
            conditions.push(Condition::new_from_ast(&m.conditions[i]));
            i += 1;
        }
        let mut actions: Vec<Action> = Vec::new();
        let mut n: usize = 0;
        while n < m.actions.len()
            invariant
                n <= m.actions@.len(),
                actions@.len() == n,
                forall|k: int|
                    0 <= k < n ==> compiled_action(m.actions@[k]@) == Some(
                        (#[trigger] actions@[k])@,
                    ),
            decreases m.actions.len() - n,
        {
            match Action::new_from_ast(&m.actions[n]) {
                Some(action) => {
                    actions.push(action);
                },
                None => {
                    assert(compiled_action(m@.actions[n as int]) is None);
                    return Err(Error::Parse("an exec action cannot be run".to_owned()));
                },
            }
            n += 1;
        }
        let c = Match { conditions, actions };
        proof {
            assert forall|k: int| 0 <= k < m@.actions.len() implies (#[trigger] compiled_action(
                m@.actions[k],
            )) is Some by {
                assert(compiled_action(m.actions@[k]@) == Some(actions@[k]@));
            }
            assert(c@.conditions =~= compiled(m@).conditions);
            assert forall|k: int| 0 <= k < actions@.len() implies c@.actions[k] == compiled(
                m@,
            ).actions[k] by {
                assert(compiled_action(m.actions@[k]@) == Some(actions@[k]@));
            }
            assert(c@.actions =~= compiled(m@).actions);
        }
        Ok(c)
    }

    /// The conditions of the rule, in order.
    pub fn conditions(&self) -> (r: &Vec<Condition>)
        ensures
            views(r@) == self@.conditions,
    {
        &self.conditions
    }

    /// The actions of the rule, in order.
    pub fn actions(&self) -> (r: &Vec<Action>)
        ensures
            views(r@) == self@.actions,
    {
        &self.actions
    }
}

} // verus!
